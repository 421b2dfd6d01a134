//! Enclosures and their fans: what the listing, inquiry and enclosure-services
//! tools print, turned into records.

use crate::helper::SG_SES;
use crate::text::{
    chars_of, contains, decimal_from, decimal_value, digit, equals, fields, first_where,
    first_with, is_ascii_digit, is_digit, lemma_first_where, lemma_first_with,
    lemma_pieces_non_empty, lines, non_digit, occurs_in, remove_all, same_text, slice_of, split,
    split_whitespace, string_of, texts, trim, trimmed, without, words,
};
use vstd::prelude::*;

verus! {

/// A disk shelf, as the listing tool and the inquiry tool describe it.
#[derive(Debug)]
pub struct Enclosure {
    /// SCSI address of the shelf, such as `15:0:1:0`.
    pub slot: String,
    /// Generic device node of the shelf, such as `/dev/sg9`.
    pub device_path: String,
    pub vendor: String,
    pub model: String,
    pub revision: String,
    pub serial: String,
}

/// The texts an [`Enclosure`] holds.
pub ghost struct EnclosureView {
    pub slot: Seq<char>,
    pub device_path: Seq<char>,
    pub vendor: Seq<char>,
    pub model: Seq<char>,
    pub revision: Seq<char>,
    pub serial: Seq<char>,
}

impl View for Enclosure {
    type V = EnclosureView;

    open spec fn view(&self) -> EnclosureView {
        EnclosureView {
            slot: self.slot@,
            device_path: self.device_path@,
            vendor: self.vendor@,
            model: self.model@,
            revision: self.revision@,
            serial: self.serial@,
        }
    }
}

impl Enclosure {
    /// Tells whether two records describe one enclosure: an enclosure is
    /// known by its serial number.
    pub fn is_same_enclosure(&self, other: &Enclosure) -> (r: bool)
        ensures
            r == (self.serial@ == other.serial@),
    {
        same_text(self.serial.as_str(), other.serial.as_str())
    }
}

/// What stands for a field that the inquiry tool did not report.
pub open spec fn not_reported() -> Seq<char> {
    "NONE"@
}

/// An enclosure line of the listing: the shelf's address and device node.
pub struct ListedEnclosure {
    pub slot: String,
    pub device_path: String,
}

/// The texts a [`ListedEnclosure`] holds.
pub ghost struct ListedEnclosureView {
    pub slot: Seq<char>,
    pub device_path: Seq<char>,
}

impl View for ListedEnclosure {
    type V = ListedEnclosureView;

    open spec fn view(&self) -> ListedEnclosureView {
        ListedEnclosureView { slot: self.slot@, device_path: self.device_path@ }
    }
}

/// The predicate "is no square bracket".
pub open spec fn no_bracket() -> spec_fn(char) -> bool {
    |c: char| !(c == '[' || c == ']')
}

/// What a line of the listing says of an enclosure. A line counts when it
/// names the enclosure device class and one of its words holds a device path;
/// the address is the first word without its brackets, the device node the
/// first word that holds a device path.
pub open spec fn listed_enclosure(line: Seq<char>) -> Option<ListedEnclosureView> {
    let ws = words(line);
    let d = first_with(ws, "/dev/"@);
    if occurs_in(line, "enclosu"@) && 0 <= d < ws.len() {
        Some(ListedEnclosureView { slot: ws[0].filter(no_bracket()), device_path: ws[d] })
    } else {
        None
    }
}

/// The enclosures that the lines `ls` of a listing name, in order.
pub open spec fn listed_enclosures(ls: Seq<Seq<char>>) -> Seq<ListedEnclosureView>
    decreases ls.len(),
{
    if ls.len() == 0 {
        Seq::empty()
    } else {
        match listed_enclosure(ls.last()) {
            Some(e) => listed_enclosures(ls.drop_last()).push(e),
            None => listed_enclosures(ls.drop_last()),
        }
    }
}

fn without_brackets(s: &Vec<char>) -> (out: Vec<char>)
    ensures
        out@ == s@.filter(no_bracket()),
{
    let mut out: Vec<char> = Vec::new();
    let mut i: usize = 0;
    proof {
        s@.take(0).lemma_filter_len(no_bracket());
        assert(s@.take(0).filter(no_bracket()) =~= Seq::<char>::empty());
    }
    while i < s.len()
        invariant
            i <= s.len(),
            out@ == s@.take(i as int).filter(no_bracket()),
        decreases s.len() - i,
    {
        let c = s[i];
        proof {
            s@.take(i as int).lemma_filter_push(c, no_bracket());
            assert(s@.take(i as int).push(c) =~= s@.take(i + 1));
        }
        if !(c == '[' || c == ']') {
            out.push(c);
        }
        i += 1;
    }
    proof {
        assert(s@.take(s@.len() as int) =~= s@);
    }
    out
}

/// Reads one line of the listing, given as characters.
pub fn read_listing_line(line: &Vec<char>) -> (r: Option<ListedEnclosure>)
    ensures
        r is Some <==> listed_enclosure(line@) is Some,
        r matches Some(e) ==> Some(e@) == listed_enclosure(line@),
{
    if !contains(line, &chars_of("enclosu")) {
        return None;
    }
    let ws = split_whitespace(line);
    let pat = chars_of("/dev/");
    let mut d: usize = 0;
    while d < ws.len()
        invariant
            d <= ws.len(),
            texts(ws@) == words(line@),
            pat@ == "/dev/"@,
            occurs_in(line@, "enclosu"@),
            forall|j: int| 0 <= j < d ==> !occurs_in(#[trigger] words(line@)[j], pat@),
        decreases ws.len() - d,
    {
        proof {
            assert(texts(ws@)[d as int] == ws@[d as int]@);
        }
        if contains(&ws[d], &pat) {
            proof {
                lemma_first_with(words(line@), pat@, d as int);
                assert(texts(ws@)[0] == ws@[0]@);
            }
            let slot = without_brackets(&ws[0]);
            return Some(
                ListedEnclosure { slot: string_of(&slot), device_path: string_of(&ws[d]) },
            );
        }
        d += 1;
    }
    proof {
        assert(texts(ws@).len() == ws@.len());
        lemma_first_with(words(line@), pat@, d as int);
    }
    None
}

/// Reads one line of the listing.
pub fn parse_listing_line(line: &str) -> (r: Option<ListedEnclosure>)
    ensures
        r is Some <==> listed_enclosure(line@) is Some,
        r matches Some(e) ==> Some(e@) == listed_enclosure(line@),
{
    read_listing_line(&chars_of(line))
}

/// The views of a sequence of listed enclosures.
pub open spec fn listed_views(v: Seq<ListedEnclosure>) -> Seq<ListedEnclosureView> {
    v.map_values(|e: ListedEnclosure| e@)
}

/// Reads the listing tool's output: one record for each line that names an
/// enclosure and its device node, in the order of the lines.
pub fn parse_listing(listing: &str) -> (out: Vec<ListedEnclosure>)
    ensures
        listed_views(out@) == listed_enclosures(lines(listing@)),
{
    let ls = split(&chars_of(listing), '\n');
    let mut out: Vec<ListedEnclosure> = Vec::new();
    let mut i: usize = 0;
    proof {
        assert(listed_views(out@) =~= listed_enclosures(lines(listing@).take(0)));
    }
    while i < ls.len()
        invariant
            i <= ls.len(),
            texts(ls@) == lines(listing@),
            listed_views(out@) == listed_enclosures(lines(listing@).take(i as int)),
        decreases ls.len() - i,
    {
        proof {
            let all = lines(listing@);
            assert(texts(ls@)[i as int] == ls@[i as int]@);
            assert(all.take(i + 1).drop_last() =~= all.take(i as int));
            assert(all.take(i + 1).last() == ls@[i as int]@);
        }
        match read_listing_line(&ls[i]) {
            Some(e) => {
                proof {
                    assert(listed_views(out@.push(e)) =~= listed_views(out@).push(e@));
                }
                out.push(e);
            },
            None => {},
        }
        i += 1;
    }
    proof {
        assert(texts(ls@).len() == ls@.len());
        assert(lines(listing@).take(ls@.len() as int) =~= lines(listing@));
    }
    out
}

/// The value of a labelled field in the lines `ls` of an inquiry: the last
/// line in which `key` occurs, without the `label` (the key and its colon)
/// and trimmed. Where no line holds `key`, the field is [`not_reported`].
pub open spec fn labelled(ls: Seq<Seq<char>>, key: Seq<char>, label: Seq<char>) -> Seq<char>
    decreases ls.len(),
{
    if ls.len() == 0 {
        not_reported()
    } else if occurs_in(ls.last(), key) {
        trimmed(without(ls.last(), label))
    } else {
        labelled(ls.drop_last(), key, label)
    }
}

fn labelled_value(ls: &Vec<Vec<char>>, key: &str, label: &str) -> (out: Vec<char>)
    ensures
        out@ == labelled(texts(ls@), key@, label@),
{
    let key = chars_of(key);
    let label = chars_of(label);
    let mut out: Vec<char> = chars_of("NONE");
    let mut i: usize = 0;
    proof {
        assert(texts(ls@).take(0).len() == 0);
    }
    while i < ls.len()
        invariant
            i <= ls.len(),
            out@ == labelled(texts(ls@).take(i as int), key@, label@),
        decreases ls.len() - i,
    {
        proof {
            let all = texts(ls@);
            assert(all.take(i + 1).drop_last() =~= all.take(i as int));
            assert(all.take(i + 1).last() == ls@[i as int]@);
        }
        if contains(&ls[i], &key) {
            out = trim(&remove_all(&ls[i], &label));
        }
        i += 1;
    }
    proof {
        assert(texts(ls@).take(ls@.len() as int) =~= texts(ls@));
    }
    out
}

/// What an inquiry reports of an enclosure.
pub ghost struct InquiryView {
    pub vendor: Seq<char>,
    pub model: Seq<char>,
    pub revision: Seq<char>,
    pub serial: Seq<char>,
}

/// The four fields of an inquiry output: vendor identification, product
/// identification, product revision level and unit serial number. The
/// labels are matched as they are written, upper and lower case told apart.
/// A field whose label is missing is [`not_reported`]; the other fields are
/// not affected by that.
pub open spec fn inquiry(output: Seq<char>) -> InquiryView {
    let ls = lines(output);
    InquiryView {
        vendor: labelled(ls, "Vendor identification"@, "Vendor identification:"@),
        model: labelled(ls, "Product identification"@, "Product identification:"@),
        revision: labelled(ls, "Product revision level"@, "Product revision level:"@),
        serial: labelled(ls, "Unit serial number"@, "Unit serial number:"@),
    }
}

/// Reads vendor, product identification, revision and serial number off the
/// inquiry tool's output, in that order.
pub fn get_enclosure_details(output: &str) -> (r: (String, String, String, String))
    ensures
        r.0@ == inquiry(output@).vendor,
        r.1@ == inquiry(output@).model,
        r.2@ == inquiry(output@).revision,
        r.3@ == inquiry(output@).serial,
{
    let ls = split(&chars_of(output), '\n');
    let vendor = labelled_value(&ls, "Vendor identification", "Vendor identification:");
    let model = labelled_value(&ls, "Product identification", "Product identification:");
    let revision = labelled_value(&ls, "Product revision level", "Product revision level:");
    let serial = labelled_value(&ls, "Unit serial number", "Unit serial number:");
    (string_of(&vendor), string_of(&model), string_of(&revision), string_of(&serial))
}

/// The enclosure that a line of the listing and an inquiry output describe.
pub open spec fn described(listed: ListedEnclosureView, output: Seq<char>) -> EnclosureView {
    EnclosureView {
        slot: listed.slot,
        device_path: listed.device_path,
        vendor: inquiry(output).vendor,
        model: inquiry(output).model,
        revision: inquiry(output).revision,
        serial: inquiry(output).serial,
    }
}

/// Builds the record of one enclosure from its line of the listing and the
/// inquiry tool's output for its device node.
pub fn describe_enclosure(listed: &ListedEnclosure, output: &str) -> (e: Enclosure)
    ensures
        e@ == described(listed@, output@),
{
    let (vendor, model, revision, serial) = get_enclosure_details(output);
    Enclosure {
        slot: listed.slot.clone(),
        device_path: listed.device_path.clone(),
        vendor,
        model,
        revision,
        serial,
    }
}

/// The text at position `i` of `ts`, or the empty text where `ts` has no
/// such position: an output that was not supplied reads as an empty one.
pub open spec fn text_at(ts: Seq<String>, i: int) -> Seq<char> {
    if 0 <= i < ts.len() {
        ts[i]@
    } else {
        Seq::empty()
    }
}

/// Builds the enclosure records: `outputs[i]` is the inquiry tool's output
/// for `listed[i]`. The records come in the order of the listing, and an
/// enclosure whose inquiry says nothing is still reported, with every
/// inquiry field [`not_reported`].
pub fn get_enclosure(listed: &Vec<ListedEnclosure>, outputs: &Vec<String>) -> (out: Vec<Enclosure>)
    ensures
        out@.len() == listed@.len(),
        forall|i: int|
            0 <= i < listed@.len() ==> (#[trigger] out@[i])@ == described(
                listed@[i]@,
                text_at(outputs@, i),
            ),
{
    let mut out: Vec<Enclosure> = Vec::new();
    let mut i: usize = 0;
    while i < listed.len()
        invariant
            i <= listed.len(),
            out@.len() == i,
            forall|j: int|
                0 <= j < i ==> (#[trigger] out@[j])@ == described(
                    listed@[j]@,
                    text_at(outputs@, j),
                ),
        decreases listed.len() - i,
    {
        let e = if i < outputs.len() {
            describe_enclosure(&listed[i], outputs[i].as_str())
        } else {
            proof {
                reveal_strlit("");
                assert(""@ =~= Seq::<char>::empty());
            }
            describe_enclosure(&listed[i], "")
        };
        out.push(e);
        i += 1;
    }
    out
}

/// A fan of an enclosure with its reading.
#[derive(Debug)]
pub struct EnclosureFan {
    /// SCSI address of the enclosure that holds the fan.
    pub slot: String,
    /// Serial number of that enclosure.
    pub serial: String,
    /// Name of the component as the enclosure reports it.
    pub description: String,
    /// Component index by which the diagnostic tool addresses the fan.
    pub index: String,
    /// Revolutions per minute.
    pub speed: i64,
    /// Free-text annotation that the enclosure adds to the speed.
    pub comment: String,
}

/// The values an [`EnclosureFan`] holds.
pub ghost struct EnclosureFanView {
    pub slot: Seq<char>,
    pub serial: Seq<char>,
    pub description: Seq<char>,
    pub index: Seq<char>,
    pub speed: i64,
    pub comment: Seq<char>,
}

impl View for EnclosureFan {
    type V = EnclosureFanView;

    open spec fn view(&self) -> EnclosureFanView {
        EnclosureFanView {
            slot: self.slot@,
            serial: self.serial@,
            description: self.description@,
            index: self.index@,
            speed: self.speed,
            comment: self.comment@,
        }
    }
}

/// The views of a sequence of fans.
pub open spec fn fan_views(v: Seq<EnclosureFan>) -> Seq<EnclosureFanView> {
    v.map_values(|f: EnclosureFan| f@)
}

/// A cooling component that was seen for the first time and whose speed is
/// still to be asked for.
pub struct FanComponent {
    pub slot: String,
    pub serial: String,
    /// Device node of the enclosure, to which the speed query goes.
    pub device_path: String,
    pub description: String,
    pub index: String,
}

/// The texts a [`FanComponent`] holds.
pub ghost struct FanComponentView {
    pub slot: Seq<char>,
    pub serial: Seq<char>,
    pub device_path: Seq<char>,
    pub description: Seq<char>,
    pub index: Seq<char>,
}

impl View for FanComponent {
    type V = FanComponentView;

    open spec fn view(&self) -> FanComponentView {
        FanComponentView {
            slot: self.slot@,
            serial: self.serial@,
            device_path: self.device_path@,
            description: self.description@,
            index: self.index@,
        }
    }
}

/// Why a fan has no reading.
#[derive(Debug, Clone, Copy, PartialEq, Eq, Structural)]
pub enum FanSpeedError {
    /// No line of the answer names a speed.
    Missing,
    /// A line names a speed but has fewer than three fields, no digits in its
    /// second field, or a number there that exceeds 32 bits.
    Malformed,
}

/// Description and index of the cooling component that a line names: the
/// trimmed text before the first `[`, and the text between that bracket and
/// the next bracket. A line without `[`, or with an empty description or an
/// empty index, names none.
pub open spec fn fan_label(line: Seq<char>) -> Option<(Seq<char>, Seq<char>)> {
    let parts = fields(line, '[');
    if parts.len() > 1 {
        let description = trimmed(parts[0]);
        let index = fields(parts[1], ']')[0];
        if description.len() > 0 && index.len() > 0 {
            Some((description, index))
        } else {
            None
        }
    } else {
        None
    }
}

/// A line that holds no `[` names no cooling component.
pub proof fn lemma_fan_label_needs_bracket(line: Seq<char>)
    requires
        forall|i: int| 0 <= i < line.len() ==> line[i] != '[',
    ensures
        fan_label(line) is None,
{
    assert forall|i: int| 0 <= i < line.len() implies !equals('[')(#[trigger] line[i]) by {}
    lemma_first_where(line, equals('['), line.len() as int);
}

fn read_fan_line(line: &Vec<char>) -> (r: Option<(Vec<char>, Vec<char>)>)
    ensures
        r is Some <==> fan_label(line@) is Some,
        r matches Some(p) ==> fan_label(line@) == Some((p.0@, p.1@)),
{
    let parts = split(line, '[');
    if parts.len() > 1 {
        proof {
            assert(texts(parts@)[0] == parts@[0]@);
            assert(texts(parts@)[1] == parts@[1]@);
        }
        let description = trim(&parts[0]);
        let inner = split(&parts[1], ']');
        proof {
            lemma_pieces_non_empty(parts@[1]@, equals(']'));
            assert(texts(inner@)[0] == inner@[0]@);
        }
        if description.len() > 0 && inner[0].len() > 0 {
            let index = slice_of(&inner[0], 0, inner[0].len());
            proof {
                assert(inner@[0]@.subrange(0, inner@[0]@.len() as int) =~= inner@[0]@);
            }
            Some((description, index))
        } else {
            None
        }
    } else {
        proof {
            assert(texts(parts@).len() == parts@.len());
        }
        None
    }
}

/// Reads the description and the index off a component line.
pub fn parse_fan_line(line: &str) -> (r: Option<(String, String)>)
    ensures
        r is Some <==> fan_label(line@) is Some,
        r matches Some(p) ==> fan_label(line@) == Some((p.0@, p.1@)),
        (forall|i: int| 0 <= i < line@.len() ==> line@[i] != '[') ==> r is None,
{
    proof {
        if forall|i: int| 0 <= i < line@.len() ==> line@[i] != '[' {
            lemma_fan_label_needs_bracket(line@);
        }
    }
    match read_fan_line(&chars_of(line)) {
        Some((description, index)) => Some((string_of(&description), string_of(&index))),
        None => None,
    }
}

/// The first run of decimal digits in `s`; empty when `s` holds no digit.
pub open spec fn first_number(s: Seq<char>) -> Seq<char> {
    let t = s.skip(first_where(s, digit()));
    t.take(first_where(t, non_digit()))
}

/// Speed and comment that a line of the form `..., <speed>, <comment>, ...`
/// gives: the speed is the first number in the second field and has to fit
/// in 32 bits, the comment is the trimmed third field.
pub open spec fn speed_reading(line: Seq<char>) -> Option<(i64, Seq<char>)> {
    let fs = fields(line, ',');
    if fs.len() >= 3 && first_number(fs[1]).len() > 0 && decimal_value(first_number(fs[1]))
        <= u32::MAX {
        Some((decimal_value(first_number(fs[1])) as i64, trimmed(fs[2])))
    } else {
        None
    }
}

/// The reading that the lines `ls` of an answer give. Every line that holds
/// the word `speed` has to give a reading, and the last of them counts.
pub open spec fn fan_speed(ls: Seq<Seq<char>>) -> Result<(i64, Seq<char>), FanSpeedError>
    decreases ls.len(),
{
    if ls.len() == 0 {
        Err(FanSpeedError::Missing)
    } else {
        let before = fan_speed(ls.drop_last());
        if before == Err::<(i64, Seq<char>), FanSpeedError>(FanSpeedError::Malformed) {
            before
        } else if !occurs_in(ls.last(), "speed"@) {
            before
        } else {
            match speed_reading(ls.last()) {
                Some(r) => Ok(r),
                None => Err(FanSpeedError::Malformed),
            }
        }
    }
}

fn read_first_number(s: &Vec<char>) -> (r: Option<u32>)
    ensures
        r is Some <==> first_number(s@).len() > 0 && decimal_value(first_number(s@)) <= u32::MAX,
        r matches Some(v) ==> v == decimal_value(first_number(s@)),
{
    let n: usize = s.len();
    let mut a: usize = 0;
    while a < n && !is_ascii_digit(s[a])
        invariant
            a <= n == s.len(),
            forall|j: int| 0 <= j < a ==> !digit()(#[trigger] s@[j]),
        decreases n - a,
    {
        a += 1;
    }
    let mut b: usize = a;
    while b < n && is_ascii_digit(s[b])
        invariant
            a <= b <= n == s.len(),
            forall|j: int| a <= j < b ==> is_digit(#[trigger] s@[j]),
        decreases n - b,
    {
        b += 1;
    }
    let run = slice_of(s, a, b);
    proof {
        let t = s@.skip(a as int);
        lemma_first_where(s@, digit(), a as int);
        assert forall|j: int| 0 <= j < b - a implies !non_digit()(#[trigger] t[j]) by {
            assert(t[j] == s@[a + j]);
        }
        lemma_first_where(t, non_digit(), b - a);
        assert(t.take(b - a) =~= s@.subrange(a as int, b as int));
        assert(run@.skip(0) =~= run@);
        assert forall|j: int| 0 <= j < run@.len() implies is_digit(#[trigger] run@[j]) by {
            assert(run@[j] == s@[a + j]);
        }
    }
    match decimal_from(&run, 0, 0xffff_ffffu64) {
        Some(v) => Some(v as u32),
        None => None,
    }
}

fn read_speed_line(line: &Vec<char>) -> (r: Option<(i64, Vec<char>)>)
    ensures
        r is Some <==> speed_reading(line@) is Some,
        r matches Some(p) ==> speed_reading(line@) == Some((p.0, p.1@)),
{
    let fs = split(line, ',');
    if fs.len() < 3 {
        proof {
            assert(texts(fs@).len() == fs@.len());
        }
        return None;
    }
    proof {
        assert(texts(fs@)[1] == fs@[1]@);
        assert(texts(fs@)[2] == fs@[2]@);
    }
    match read_first_number(&fs[1]) {
        Some(v) => Some((v as i64, trim(&fs[2]))),
        None => None,
    }
}

/// Reads the speed and the comment of a fan off the answer to a speed query.
pub fn get_enclosure_fan_speed(output: &str) -> (r: Result<(i64, String), FanSpeedError>)
    ensures
        r is Ok <==> fan_speed(lines(output@)) is Ok,
        r matches Ok(p) ==> fan_speed(lines(output@)) == Ok::<_, FanSpeedError>((p.0, p.1@)),
        r matches Err(e) ==> fan_speed(lines(output@)) == Err::<(i64, Seq<char>), _>(e),
{
    let ls = split(&chars_of(output), '\n');
    let pat = chars_of("speed");
    let mut found: Option<(i64, Vec<char>)> = None;
    let mut i: usize = 0;
    let ghost all = lines(output@);
    proof {
        assert(all.take(0).len() == 0);
    }
    while i < ls.len()
        invariant
            i <= ls.len(),
            all == lines(output@),
            texts(ls@) == all,
            pat@ == "speed"@,
            match found {
                Some(p) => fan_speed(all.take(i as int)) == Ok::<_, FanSpeedError>((p.0, p.1@)),
                None => fan_speed(all.take(i as int)) == Err::<(i64, Seq<char>), _>(
                    FanSpeedError::Missing,
                ),
            },
        decreases ls.len() - i,
    {
        proof {
            assert(all.take(i + 1).drop_last() =~= all.take(i as int));
            assert(all.take(i + 1).last() == ls@[i as int]@);
            assert(texts(ls@)[i as int] == ls@[i as int]@);
        }
        if contains(&ls[i], &pat) {
            match read_speed_line(&ls[i]) {
                Some(p) => {
                    found = Some(p);
                },
                None => {
                    proof {
                        lemma_fan_speed_stays_malformed(all, i + 1);
                    }
                    return Err(FanSpeedError::Malformed);
                },
            }
        }
        i += 1;
    }
    proof {
        assert(texts(ls@).len() == ls@.len());
        assert(all.take(ls@.len() as int) =~= all);
    }
    match found {
        Some((speed, comment)) => Ok((speed, string_of(&comment))),
        None => Err(FanSpeedError::Missing),
    }
}

proof fn lemma_fan_speed_stays_malformed(ls: Seq<Seq<char>>, k: int)
    requires
        0 <= k <= ls.len(),
        fan_speed(ls.take(k)) == Err::<(i64, Seq<char>), _>(FanSpeedError::Malformed),
    ensures
        fan_speed(ls) == Err::<(i64, Seq<char>), _>(FanSpeedError::Malformed),
    decreases ls.len() - k,
{
    if k == ls.len() {
        assert(ls.take(k) =~= ls);
    } else {
        assert(ls.take(k + 1).drop_last() =~= ls.take(k));
        lemma_fan_speed_stays_malformed(ls, k + 1);
    }
}

/// Some fan in `fans` has this component index in the enclosure of this
/// serial number.
pub open spec fn fan_known(
    fans: Seq<EnclosureFanView>,
    index: Seq<char>,
    serial: Seq<char>,
) -> bool {
    exists|i: int|
        0 <= i < fans.len() && (#[trigger] fans[i]).index == index && fans[i].serial == serial
}

/// No two fans of `fans` share both the component index and the enclosure's
/// serial number.
pub open spec fn fans_distinct(fans: Seq<EnclosureFanView>) -> bool {
    forall|i: int, j: int|
        0 <= i < j < fans.len() ==> !((#[trigger] fans[i]).index == (#[trigger] fans[j]).index
            && fans[i].serial == fans[j].serial)
}

/// The speed query that a component line of enclosure `e` calls for: the
/// component it names, unless `fans` already holds it.
pub open spec fn fan_query(
    fans: Seq<EnclosureFanView>,
    e: EnclosureView,
    line: Seq<char>,
) -> Option<FanComponentView> {
    match fan_label(line) {
        Some((description, index)) => if fan_known(fans, index, e.serial) {
            None
        } else {
            Some(
                FanComponentView {
                    slot: e.slot,
                    serial: e.serial,
                    device_path: e.device_path,
                    description,
                    index,
                },
            )
        },
        None => None,
    }
}

/// The fan that a component and its reading make.
pub open spec fn fan_of(c: FanComponentView, speed: i64, comment: Seq<char>) -> EnclosureFanView {
    EnclosureFanView {
        slot: c.slot,
        serial: c.serial,
        description: c.description,
        index: c.index,
        speed,
        comment,
    }
}

/// The fans once component `c` has been accepted with the answer `output` to
/// its speed query. A component that `fans` already holds changes nothing;
/// one without a reading is an error.
pub open spec fn fans_after(
    fans: Seq<EnclosureFanView>,
    c: FanComponentView,
    output: Seq<char>,
) -> Result<Seq<EnclosureFanView>, FanSpeedError> {
    if fan_known(fans, c.index, c.serial) {
        Ok(fans)
    } else {
        match fan_speed(lines(output)) {
            Ok((speed, comment)) => Ok(fans.push(fan_of(c, speed, comment))),
            Err(e) => Err(e),
        }
    }
}

/// Accepting a component keeps the fans distinct.
pub proof fn lemma_fans_after_distinct(
    fans: Seq<EnclosureFanView>,
    c: FanComponentView,
    output: Seq<char>,
)
    requires
        fans_distinct(fans),
    ensures
        fans_after(fans, c, output) matches Ok(next) ==> fans_distinct(next),
{
    if let Ok(next) = fans_after(fans, c, output) {
        if !fan_known(fans, c.index, c.serial) {
            assert forall|i: int, j: int| 0 <= i < j < next.len() implies !((
            #[trigger] next[i]).index == (#[trigger] next[j]).index && next[i].serial
                == next[j].serial) by {
                if j == fans.len() {
                    assert(next[i] == fans[i]);
                } else {
                    assert(next[i] == fans[i] && next[j] == fans[j]);
                }
            }
        }
    }
}

/// Tells whether `fans` holds the component `index` of the enclosure with
/// this `serial`.
pub fn is_fan_known(fans: &Vec<EnclosureFan>, index: &str, serial: &str) -> (r: bool)
    ensures
        r == fan_known(fan_views(fans@), index@, serial@),
{
    let mut i: usize = 0;
    while i < fans.len()
        invariant
            i <= fans.len(),
            forall|j: int|
                0 <= j < i ==> !((#[trigger] fan_views(fans@)[j]).index == index@ && fan_views(
                    fans@,
                )[j].serial == serial@),
        decreases fans.len() - i,
    {
        proof {
            assert(fan_views(fans@)[i as int] == fans@[i as int]@);
        }
        if same_text(fans[i].index.as_str(), index) && same_text(fans[i].serial.as_str(), serial) {
            return true;
        }
        i += 1;
    }
    false
}

/// Decides what a component line of `enclosure` calls for: a speed query for
/// the component it names, or nothing when it names none or one that `fans`
/// already holds.
pub fn next_fan_query(fans: &Vec<EnclosureFan>, enclosure: &Enclosure, line: &str) -> (r: Option<
    FanComponent,
>)
    ensures
        r is Some <==> fan_query(fan_views(fans@), enclosure@, line@) is Some,
        r matches Some(c) ==> fan_query(fan_views(fans@), enclosure@, line@) == Some(c@),
{
    match parse_fan_line(line) {
        Some((description, index)) => {
            if is_fan_known(fans, index.as_str(), enclosure.serial.as_str()) {
                None
            } else {
                Some(
                    FanComponent {
                        slot: enclosure.slot.clone(),
                        serial: enclosure.serial.clone(),
                        device_path: enclosure.device_path.clone(),
                        description,
                        index,
                    },
                )
            }
        },
        None => None,
    }
}

/// Accepts a component with the answer to its speed query: appends its fan
/// to `fans`, unless `fans` holds the component already. Without a reading
/// `fans` stays as it is and the error is returned.
pub fn record_fan(fans: &mut Vec<EnclosureFan>, component: &FanComponent, output: &str) -> (r:
    Result<(), FanSpeedError>)
    ensures
        match r {
            Ok(_) => fans_after(fan_views(old(fans)@), component@, output@) == Ok::<
                _,
                FanSpeedError,
            >(fan_views(final(fans)@)),
            Err(e) => fans_after(fan_views(old(fans)@), component@, output@) == Err::<
                Seq<EnclosureFanView>,
                _,
            >(e) && final(fans)@ == old(fans)@,
        },
        fans_distinct(fan_views(old(fans)@)) ==> fans_distinct(fan_views(final(fans)@)),
{
    proof {
        if fans_distinct(fan_views(fans@)) {
            lemma_fans_after_distinct(fan_views(fans@), component@, output@);
        }
    }
    if is_fan_known(fans, component.index.as_str(), component.serial.as_str()) {
        return Ok(());
    }
    match get_enclosure_fan_speed(output) {
        Ok((speed, comment)) => {
            let fan = EnclosureFan {
                slot: component.slot.clone(),
                serial: component.serial.clone(),
                description: component.description.clone(),
                index: component.index.clone(),
                speed,
                comment,
            };
            proof {
                assert(fan_views(fans@.push(fan)) =~= fan_views(fans@).push(fan@));
            }
            fans.push(fan);
            Ok(())
        },
        Err(e) => Err(e),
    }
}

/// The lines at position `i` of `listings`, or none where `listings` has no
/// such position.
pub open spec fn lines_at(listings: Seq<Vec<String>>, i: int) -> Seq<String> {
    if 0 <= i < listings.len() {
        listings[i]@
    } else {
        Seq::empty()
    }
}

/// A cooling component that was left out because its speed query gave no
/// reading.
pub struct FanFailure {
    pub component: FanComponent,
    pub error: FanSpeedError,
}

/// The values a [`FanFailure`] holds.
pub ghost struct FanFailureView {
    pub component: FanComponentView,
    pub error: FanSpeedError,
}

impl View for FanFailure {
    type V = FanFailureView;

    open spec fn view(&self) -> FanFailureView {
        FanFailureView { component: self.component@, error: self.error }
    }
}

/// What an enumeration of the fans gives: the fans with a reading, and the
/// components that were left out for want of one.
pub struct FanScan {
    pub fans: Vec<EnclosureFan>,
    pub failures: Vec<FanFailure>,
}

/// The values a [`FanScan`] holds.
pub ghost struct FanScanView {
    pub fans: Seq<EnclosureFanView>,
    pub failures: Seq<FanFailureView>,
}

impl View for FanScan {
    type V = FanScanView;

    open spec fn view(&self) -> FanScanView {
        FanScanView {
            fans: fan_views(self.fans@),
            failures: self.failures@.map_values(|f: FanFailure| f@),
        }
    }
}

/// The scan after one more component line of enclosure `e`. A line that
/// names a component which the fans do not hold yet calls for one speed
/// query; the answer to the `n`-th query of the scan is `answers[n]`. With a
/// reading the component joins the fans; without one it is left out and
/// noted among the failures, and the scan goes on.
pub open spec fn scan_after_line(
    scan: FanScanView,
    e: EnclosureView,
    line: Seq<char>,
    answers: Seq<String>,
) -> FanScanView {
    match fan_query(scan.fans, e, line) {
        Some(c) => match fan_speed(
            lines(text_at(answers, (scan.fans.len() + scan.failures.len()) as int)),
        ) {
            Ok((speed, comment)) => FanScanView {
                fans: scan.fans.push(fan_of(c, speed, comment)),
                failures: scan.failures,
            },
            Err(x) => FanScanView {
                fans: scan.fans,
                failures: scan.failures.push(FanFailureView { component: c, error: x }),
            },
        },
        None => scan,
    }
}

/// The scan after the component lines `ls` of enclosure `e`.
pub open spec fn scan_after_lines(
    scan: FanScanView,
    e: EnclosureView,
    ls: Seq<String>,
    answers: Seq<String>,
) -> FanScanView
    decreases ls.len(),
{
    if ls.len() == 0 {
        scan
    } else {
        scan_after_line(scan_after_lines(scan, e, ls.drop_last(), answers), e, ls.last()@, answers)
    }
}

/// The fans of the enclosures `es`, where `listings[i]` holds the component
/// lines of `es[i]`: each component counts once, at its first line with a
/// reading, and a component without a reading costs that component only.
pub open spec fn enumerated_fans(
    es: Seq<Enclosure>,
    listings: Seq<Vec<String>>,
    answers: Seq<String>,
) -> FanScanView
    decreases es.len(),
{
    if es.len() == 0 {
        FanScanView { fans: Seq::empty(), failures: Seq::empty() }
    } else {
        scan_after_lines(
            enumerated_fans(es.drop_last(), listings, answers),
            es.last()@,
            lines_at(listings, es.len() - 1),
            answers,
        )
    }
}

/// Enumerates the fans of `enclosures` from what the tools printed:
/// `listings[i]` holds the component lines of `enclosures[i]`, and
/// `answers[n]` is the answer to the `n`-th speed query, one query being made
/// for each line that names a component not yet among the fans. A listing or
/// an answer that is not supplied reads as an empty one. A component whose
/// answer gives no reading is left out and reported among the failures.
pub fn get_enclosure_fan(
    enclosures: &Vec<Enclosure>,
    listings: &Vec<Vec<String>>,
    answers: &Vec<String>,
) -> (r: FanScan)
    ensures
        r@ == enumerated_fans(enclosures@, listings@, answers@),
        fans_distinct(r@.fans),
{
    let mut fans: Vec<EnclosureFan> = Vec::new();
    let mut failures: Vec<FanFailure> = Vec::new();
    let mut i: usize = 0;
    proof {
        assert(fan_views(fans@) =~= Seq::<EnclosureFanView>::empty());
        assert(failures@.map_values(|f: FanFailure| f@) =~= Seq::<FanFailureView>::empty());
        assert(enclosures@.take(0).len() == 0);
    }
    while i < enclosures.len()
        invariant
            i <= enclosures.len(),
            fans_distinct(fan_views(fans@)),
            enumerated_fans(enclosures@.take(i as int), listings@, answers@) == (FanScanView {
                fans: fan_views(fans@),
                failures: failures@.map_values(|f: FanFailure| f@),
            }),
        decreases enclosures.len() - i,
    {
        let ghost before = enumerated_fans(enclosures@.take(i as int), listings@, answers@);
        let ghost ls = lines_at(listings@, i as int);
        let ghost e = enclosures@[i as int]@;
        let count: usize = if i < listings.len() {
            listings[i].len()
        } else {
            0
        };
        let mut j: usize = 0;
        proof {
            assert(ls.take(0).len() == 0);
            assert(enclosures@.take(i + 1).drop_last() =~= enclosures@.take(i as int));
        }
        while j < count
            invariant
                i < enclosures.len(),
                j <= count == ls.len(),
                ls == lines_at(listings@, i as int),
                e == enclosures@[i as int]@,
                before == enumerated_fans(enclosures@.take(i as int), listings@, answers@),
                enclosures@.take(i + 1).drop_last() == enclosures@.take(i as int),
                fans_distinct(fan_views(fans@)),
                scan_after_lines(before, e, ls.take(j as int), answers@) == (FanScanView {
                    fans: fan_views(fans@),
                    failures: failures@.map_values(|f: FanFailure| f@),
                }),
            decreases count - j,
        {
            let line = listings[i][j].as_str();
            proof {
                assert(ls.take(j + 1).drop_last() =~= ls.take(j as int));
                assert(ls.take(j + 1).last()@ == line@);
            }
            match next_fan_query(&fans, &enclosures[i], line) {
                Some(component) => {
                    let n: usize = fans.len();
                    let m: usize = failures.len();
                    let recorded = if m <= answers.len() && n < answers.len() - m {
                        record_fan(&mut fans, &component, answers[n + m].as_str())
                    } else {
                        proof {
                            reveal_strlit("");
                            assert(""@ =~= Seq::<char>::empty());
                        }
                        record_fan(&mut fans, &component, "")
                    };
                    match recorded {
                        Ok(_) => {},
                        Err(error) => {
                            let failure = FanFailure { component, error };
                            proof {
                                assert(failures@.push(failure).map_values(|f: FanFailure| f@)
                                    =~= failures@.map_values(|f: FanFailure| f@).push(failure@));
                            }
                            failures.push(failure);
                        },
                    }
                },
                None => {},
            }
            j += 1;
        }
        proof {
            assert(ls.take(ls.len() as int) =~= ls);
        }
        i += 1;
    }
    proof {
        assert(enclosures@.take(enclosures@.len() as int) =~= enclosures@);
    }
    FanScan { fans, failures }
}

/// The shell command that lists the cooling components of the enclosure at
/// `device_path`, one line for each.
pub open spec fn fan_listing_command_of(device_path: Seq<char>) -> Seq<char> {
    SG_SES@ + " -j -ff "@ + device_path + " | grep Cooling"@
}

/// Builds the shell command that lists the cooling components of an
/// enclosure.
pub fn fan_listing_command(device_path: &str) -> (r: String)
    ensures
        r@ == fan_listing_command_of(device_path@),
{
    let mut r = SG_SES.to_owned();
    r.append(" -j -ff ");
    r.append(device_path);
    r.append(" | grep Cooling");
    r
}

/// Builds the argument that addresses one component in a speed query:
/// `--index=` followed by the component index.
pub fn fan_index_argument(index: &str) -> (r: String)
    ensures
        r@ == "--index="@ + index@,
{
    let mut r = "--index=".to_owned();
    r.append(index);
    r
}

proof fn lemma_scan_after_lines_distinct(
    scan: FanScanView,
    e: EnclosureView,
    ls: Seq<String>,
    answers: Seq<String>,
)
    requires
        fans_distinct(scan.fans),
    ensures
        fans_distinct(scan_after_lines(scan, e, ls, answers).fans),
    decreases ls.len(),
{
    if ls.len() > 0 {
        lemma_scan_after_lines_distinct(scan, e, ls.drop_last(), answers);
        let before = scan_after_lines(scan, e, ls.drop_last(), answers);
        if let Some(c) = fan_query(before.fans, e, ls.last()@) {
            lemma_fans_after_distinct(
                before.fans,
                c,
                text_at(answers, (before.fans.len() + before.failures.len()) as int),
            );
        }
    }
}

/// However the tools answer, no two fans of an enumeration share both the
/// component index and the serial number of the enclosure.
pub proof fn lemma_enumerated_fans_distinct(
    es: Seq<Enclosure>,
    listings: Seq<Vec<String>>,
    answers: Seq<String>,
)
    ensures
        fans_distinct(enumerated_fans(es, listings, answers).fans),
    decreases es.len(),
{
    if es.len() > 0 {
        lemma_enumerated_fans_distinct(es.drop_last(), listings, answers);
        lemma_scan_after_lines_distinct(
            enumerated_fans(es.drop_last(), listings, answers),
            es.last()@,
            lines_at(listings, es.len() - 1),
            answers,
        );
    }
}

/// The component of enclosure `e` that a line names.
pub open spec fn component_of(e: EnclosureView, line: Seq<char>) -> FanComponentView {
    FanComponentView {
        slot: e.slot,
        serial: e.serial,
        device_path: e.device_path,
        description: fan_label(line).unwrap().0,
        index: fan_label(line).unwrap().1,
    }
}

/// Of two lines of one enclosure that name the same component index, the
/// first one with a reading counts. Where the first answer gives a reading,
/// the enumeration gives exactly one fan, with the description of the first
/// line, and makes no second query. Where it gives none, the first line is
/// noted as a failure and the second line is asked for with the second
/// answer.
pub proof fn lemma_first_line_wins(e: Enclosure, listing: Vec<String>, answers: Seq<String>)
    requires
        listing@.len() == 2,
        fan_label(listing@[0]@) is Some,
        fan_label(listing@[1]@) is Some,
        fan_label(listing@[0]@).unwrap().1 == fan_label(listing@[1]@).unwrap().1,
    ensures
        enumerated_fans(seq![e], seq![listing], answers) == match fan_speed(
            lines(text_at(answers, 0)),
        ) {
            Ok((speed, comment)) => FanScanView {
                fans: seq![fan_of(component_of(e@, listing@[0]@), speed, comment)],
                failures: Seq::empty(),
            },
            Err(first) => match fan_speed(lines(text_at(answers, 1))) {
                Ok((speed, comment)) => FanScanView {
                    fans: seq![fan_of(component_of(e@, listing@[1]@), speed, comment)],
                    failures: seq![
                        FanFailureView { component: component_of(e@, listing@[0]@), error: first },
                    ],
                },
                Err(second) => FanScanView {
                    fans: Seq::empty(),
                    failures: seq![
                        FanFailureView { component: component_of(e@, listing@[0]@), error: first },
                        FanFailureView { component: component_of(e@, listing@[1]@), error: second },
                    ],
                },
            },
        },
        enumerated_fans(seq![e], seq![listing], answers).fans.len() <= 1,
{
    let es = seq![e];
    let listings = seq![listing];
    let none = FanScanView { fans: Seq::empty(), failures: Seq::empty() };
    let ls = listing@;
    assert(es.drop_last() =~= Seq::<Enclosure>::empty());
    assert(enumerated_fans(es.drop_last(), listings, answers) == none);
    assert(lines_at(listings, 0) == ls);
    assert(ls.drop_last().drop_last() =~= Seq::<String>::empty());
    assert(scan_after_lines(none, e@, ls.drop_last().drop_last(), answers) == none);
    assert(ls.drop_last().last() == ls[0]);
    let after_first = scan_after_lines(none, e@, ls.drop_last(), answers);
    assert(after_first == scan_after_line(none, e@, ls[0]@, answers));
    let index = fan_label(ls[0]@).unwrap().1;
    assert(!fan_known(Seq::<EnclosureFanView>::empty(), index, e.serial@));
    assert(fan_query(none.fans, e@, ls[0]@) == Some(component_of(e@, ls[0]@)));
    match fan_speed(lines(text_at(answers, 0))) {
        Ok((speed, comment)) => {
            let fan = fan_of(component_of(e@, ls[0]@), speed, comment);
            assert(after_first.fans =~= seq![fan]);
            assert(after_first.fans[0].index == index && after_first.fans[0].serial == e.serial@);
            assert(fan_known(after_first.fans, index, e.serial@));
        },
        Err(first) => {
            assert(after_first.fans =~= Seq::<EnclosureFanView>::empty());
            assert(after_first.failures =~= seq![
                FanFailureView { component: component_of(e@, ls[0]@), error: first },
            ]);
            assert(!fan_known(after_first.fans, index, e.serial@));
            assert(fan_query(after_first.fans, e@, ls[1]@) == Some(component_of(e@, ls[1]@)));
            let last = scan_after_line(after_first, e@, ls[1]@, answers);
            match fan_speed(lines(text_at(answers, 1))) {
                Ok((speed, comment)) => {
                    assert(last.fans =~= seq![fan_of(component_of(e@, ls[1]@), speed, comment)]);
                },
                Err(second) => {
                    assert(last.failures =~= seq![
                        FanFailureView { component: component_of(e@, ls[0]@), error: first },
                        FanFailureView { component: component_of(e@, ls[1]@), error: second },
                    ]);
                },
            }
        },
    }
}

} // verus!
