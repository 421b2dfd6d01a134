//! What the tool needs of the machine it runs on: the diagnostic binaries,
//! the sysfs enclosure tree, and the address the metrics exporter binds to.

use crate::text::{char_is_numeric, chars_of, is_numeric, marks_of};
use vstd::prelude::*;

verus! {

pub const LSSCSI: &'static str = "/usr/bin/lsscsi";

pub const SG_INQ: &'static str = "/usr/bin/sg_inq";

pub const SCSI_TEMP: &'static str = "/usr/bin/scsi_temperature";

pub const SG_MAP: &'static str = "/usr/bin/sg_map";

pub const SG_SES: &'static str = "/usr/bin/sg_ses";

pub const SGINFO: &'static str = "/usr/bin/sginfo";

pub const JBOD_EXPORTER: &'static str = "/usr/bin/prometheus-jbod-exporter";

/// The sysfs directory under which the kernel exposes the enclosures.
pub const SYS_CLASS_ENCLOSURE: &'static str = "/sys/class/enclosure/";

/// Which of the diagnostic binaries are installed.
#[derive(Debug, Clone, Copy, PartialEq, Eq, Structural)]
pub struct InstalledTools {
    /// The listing tool, [`LSSCSI`].
    pub lsscsi: bool,
    /// The inquiry tool, [`SG_INQ`].
    pub sg_inq: bool,
    /// The temperature tool, [`SCSI_TEMP`].
    pub scsi_temperature: bool,
    /// The device-info tool, [`SGINFO`].
    pub sginfo: bool,
    /// The mapping tool, [`SG_MAP`].
    pub sg_map: bool,
    /// The enclosure-services tool, [`SG_SES`].
    pub sg_ses: bool,
}

/// The package to install for a binary: none where the binary is installed.
pub open spec fn package_if_missing(installed: bool, package: Seq<char>) -> Seq<Seq<char>> {
    if installed {
        Seq::empty()
    } else {
        seq![package]
    }
}

/// The packages to install: one for each binary that is missing, in the
/// order listing, inquiry, temperature, device-info, mapping and
/// enclosure-services tool.
pub open spec fn missing_packages(tools: InstalledTools) -> Seq<Seq<char>> {
    package_if_missing(tools.lsscsi, "lsscsi"@)
        + package_if_missing(tools.sg_inq, "sg3-utils"@)
        + package_if_missing(tools.scsi_temperature, "sg3-utils: scsi_temperature"@)
        + package_if_missing(tools.sginfo, "sg3-utils: sginfo"@)
        + package_if_missing(tools.sg_map, "sg3-utils: sg_map"@)
        + package_if_missing(tools.sg_ses, "sg3-utils: sg_ses"@)
}

/// The texts of a sequence of strings.
pub open spec fn string_views(v: Seq<String>) -> Seq<Seq<char>> {
    v.map_values(|s: String| s@)
}

fn push_if_missing(out: &mut Vec<String>, installed: bool, package: &str)
    ensures
        string_views(final(out)@) == string_views(old(out)@) + package_if_missing(
            installed,
            package@,
        ),
{
    if !installed {
        let name = package.to_owned();
        proof {
            assert(string_views(out@.push(name)) =~= string_views(out@) + seq![package@]);
        }
        out.push(name);
    } else {
        proof {
            assert(string_views(out@) + Seq::<Seq<char>>::empty() =~= string_views(out@));
        }
    }
}

/// Names every package that is missing; the tool can run when there is none.
pub fn verify_binary_needed(tools: &InstalledTools) -> (r: Vec<String>)
    ensures
        string_views(r@) == missing_packages(*tools),
        r@.len() == 0 <==> tools.lsscsi && tools.sg_inq && tools.scsi_temperature && tools.sginfo
            && tools.sg_map && tools.sg_ses,
{
    let mut r: Vec<String> = Vec::new();
    proof {
        assert(string_views(r@) =~= Seq::<Seq<char>>::empty());
    }
    push_if_missing(&mut r, tools.lsscsi, "lsscsi");
    proof {
        assert(string_views(r@) =~= package_if_missing(tools.lsscsi, "lsscsi"@));
    }
    push_if_missing(&mut r, tools.sg_inq, "sg3-utils");
    push_if_missing(&mut r, tools.scsi_temperature, "sg3-utils: scsi_temperature");
    push_if_missing(&mut r, tools.sginfo, "sg3-utils: sginfo");
    push_if_missing(&mut r, tools.sg_map, "sg3-utils: sg_map");
    push_if_missing(&mut r, tools.sg_ses, "sg3-utils: sg_ses");
    proof {
        assert(string_views(r@).len() == r@.len());
    }
    r
}

/// Tells whether the machine exposes enclosures: `empty` says whether the
/// sysfs enclosure directory is empty, and is `None` where it cannot be
/// listed. Discovery may go on only where the directory holds an entry.
pub fn verify_sysclass_folder(empty: Option<bool>) -> (supported: bool)
    ensures
        supported <==> empty == Some(false),
{
    match empty {
        Some(e) => !e,
        None => false,
    }
}

/// The predicate "is a numeric character".
pub open spec fn numeric() -> spec_fn(char) -> bool {
    |c: char| is_numeric(c)
}

/// Every character of `s` is numeric.
pub open spec fn numeric_text(s: Seq<char>) -> bool {
    forall|i: int| 0 <= i < s.len() ==> is_numeric(#[trigger] s[i])
}

/// Every character of `s` is a dot or numeric: `s` is numeric between its
/// dots.
pub open spec fn dotted_numeric(s: Seq<char>) -> bool {
    forall|i: int| 0 <= i < s.len() ==> (#[trigger] s[i]) == '.' || is_numeric(s[i])
}

/// Every mark is set.
pub open spec fn all_set(marks: Seq<bool>) -> bool {
    forall|i: int| 0 <= i < marks.len() ==> marks[i]
}

/// Every character of `s` is `c` or has a mark that is set.
pub open spec fn all_set_except(s: Seq<char>, marks: Seq<bool>, c: char) -> bool {
    forall|i: int| 0 <= i < s.len() ==> (#[trigger] s[i]) == c || (i < marks.len() && marks[i])
}

/// Marks the numeric characters of `s`.
pub fn numeric_marks(s: &Vec<char>) -> (marks: Vec<bool>)
    ensures
        marks@ == marks_of(s@, numeric()),
{
    let mut marks: Vec<bool> = Vec::new();
    let mut i: usize = 0;
    while i < s.len()
        invariant
            i <= s.len(),
            marks@ == marks_of(s@.take(i as int), numeric()),
        decreases s.len() - i,
    {
        proof {
            assert(marks_of(s@.take(i + 1), numeric()) =~= marks_of(
                s@.take(i as int),
                numeric(),
            ).push(is_numeric(s@[i as int])));
        }
        marks.push(char_is_numeric(s[i]));
        i += 1;
    }
    proof {
        assert(s@.take(s@.len() as int) =~= s@);
    }
    marks
}

/// Tells whether every mark is set.
pub fn all_marked(marks: &Vec<bool>) -> (r: bool)
    ensures
        r == all_set(marks@),
{
    let mut i: usize = 0;
    while i < marks.len()
        invariant
            i <= marks.len(),
            forall|j: int| 0 <= j < i ==> marks@[j],
        decreases marks.len() - i,
    {
        if !marks[i] {
            return false;
        }
        i += 1;
    }
    true
}

/// Tells whether every character of `s` is `c` or has a mark that is set.
pub fn all_marked_except(s: &Vec<char>, marks: &Vec<bool>, c: char) -> (r: bool)
    ensures
        r == all_set_except(s@, marks@, c),
{
    let mut i: usize = 0;
    while i < s.len()
        invariant
            i <= s.len(),
            forall|j: int|
                0 <= j < i ==> (#[trigger] s@[j]) == c || (j < marks@.len() && marks@[j]),
        decreases s.len() - i,
    {
        if s[i] != c && !(i < marks.len() && marks[i]) {
            return false;
        }
        i += 1;
    }
    true
}

/// Tells whether every character of `s` is numeric; the empty text is.
pub fn is_string_numeric(s: &str) -> (r: bool)
    ensures
        r == numeric_text(s@),
{
    let marks = numeric_marks(&chars_of(s));
    proof {
        if numeric_text(s@) {
            assert forall|i: int| 0 <= i < marks@.len() implies marks@[i] by {
                assert(marks@[i] == is_numeric(s@[i]));
            }
        }
        if all_set(marks@) {
            assert forall|i: int| 0 <= i < s@.len() implies is_numeric(#[trigger] s@[i]) by {
                assert(marks@[i] == is_numeric(s@[i]));
            }
        }
    }
    all_marked(&marks)
}

/// Tells whether `s` is numeric between its dots.
pub fn is_dotted_numeric(s: &str) -> (r: bool)
    ensures
        r == dotted_numeric(s@),
{
    let chars = chars_of(s);
    let marks = numeric_marks(&chars);
    proof {
        if dotted_numeric(s@) {
            assert forall|i: int| 0 <= i < s@.len() implies (#[trigger] s@[i]) == '.' || (i
                < marks@.len() && marks@[i]) by {
                assert(marks@[i] == is_numeric(s@[i]));
            }
        }
        if all_set_except(s@, marks@, '.') {
            assert forall|i: int| 0 <= i < s@.len() implies (#[trigger] s@[i]) == '.' || is_numeric(
                s@[i],
            ) by {
                assert(marks@[i] == is_numeric(s@[i]));
            }
        }
    }
    all_marked_except(&chars, &marks, '.')
}

/// The address and the port that the exporter is started with: those given,
/// or `0.0.0.0` and `9945`.
pub fn exporter_endpoint(ip_address: Option<&str>, port: Option<&str>) -> (r: (String, String))
    ensures
        r.0@ == match ip_address {
            Some(a) => a@,
            None => "0.0.0.0"@,
        },
        r.1@ == match port {
            Some(p) => p@,
            None => "9945"@,
        },
{
    let address = match ip_address {
        Some(a) => a.to_owned(),
        None => "0.0.0.0".to_owned(),
    };
    let port = match port {
        Some(p) => p.to_owned(),
        None => "9945".to_owned(),
    };
    (address, port)
}

/// The socket address that the exporter binds to, from its command line
/// `args`: program name, address, port. With fewer than three arguments it
/// is `0.0.0.0:9945`; a port that is not numeric, or an address that is not
/// numeric between its dots, gives way to its default.
pub open spec fn bind_address_of(args: Seq<String>) -> Seq<char> {
    let port = if args.len() > 2 && numeric_text(args[2]@) {
        args[2]@
    } else {
        "9945"@
    };
    let address = if args.len() > 2 && dotted_numeric(args[1]@) {
        args[1]@
    } else {
        "0.0.0.0"@
    };
    address + ":"@ + port
}

/// Works out the socket address that the exporter binds to.
pub fn bind_address(args: &Vec<String>) -> (r: String)
    ensures
        r@ == bind_address_of(args@),
{
    let mut port = "9945".to_owned();
    let mut address = "0.0.0.0".to_owned();
    if args.len() > 2 {
        if is_string_numeric(args[2].as_str()) {
            port = args[2].clone();
        }
        if is_dotted_numeric(args[1].as_str()) {
            address = args[1].clone();
        }
    }
    address.append(":");
    address.append(port.as_str());
    address
}

} // verus!
