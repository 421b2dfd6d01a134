//! The tables of the console listing, built with `prettytable`.

use crate::enclosure::{Enclosure, EnclosureFan, EnclosureFanView, EnclosureView};
use crate::helper::string_views;
use crate::text::{
    chars_of, decimal_digits, decimal_string, decimal_text, is_digit, lemma_decimal_digits_value,
    string_of,
};
use prettytable::format::consts::FORMAT_NO_BORDER;
use prettytable::{color, Attr, Cell, Row, Table};
use vstd::prelude::*;

verus! {

#[verifier::external_type_specification]
#[verifier::external_body]
pub struct ExTable(prettytable::Table);

/// The rows of a table, each a sequence of cells, each cell by the text it
/// shows.
pub uninterp spec fn table_rows(t: Table) -> Seq<Seq<Seq<char>>>;

/// Whether a table is drawn in the format without outer border.
pub uninterp spec fn table_borderless(t: Table) -> bool;

/// For each row of a table, whether it is set as a title row: it holds a
/// cell, and each of its cells is styled in bold and in blue and in nothing
/// else.
pub uninterp spec fn table_title_rows(t: Table) -> Seq<bool>;

/// What a cell shows of a text that holds a line feed or a carriage return.
pub uninterp spec fn multiline_content(text: Seq<char>) -> Seq<char>;

/// What a cell shows of a text: the text itself where it holds neither a
/// line feed nor a carriage return.
pub open spec fn cell_text(text: Seq<char>) -> Seq<char> {
    if text.contains('\n') || text.contains('\r') {
        multiline_content(text)
    } else {
        text
    }
}

/// None of the texts holds the escape character, which starts a terminal
/// control sequence.
pub open spec fn free_of_escapes(texts: Seq<String>) -> bool {
    forall|i: int| 0 <= i < texts.len() ==> !(#[trigger] texts[i])@.contains('\u{1b}')
}

/// `Table::new`: a table without rows.
#[verifier::external_body]
fn table_new() -> (t: Table)
    ensures
        table_rows(t) == Seq::<Seq<Seq<char>>>::empty(),
        table_title_rows(t) == Seq::<bool>::empty(),
{
    Table::new()
}

/// `Table::set_format` with the format that draws no border: the table is
/// borderless from then on, and its rows stay as they are.
#[verifier::external_body]
fn table_set_no_border(t: &mut Table)
    ensures
        table_borderless(*final(t)),
        table_rows(*final(t)) == table_rows(*old(t)),
        table_title_rows(*final(t)) == table_title_rows(*old(t)),
{
    t.set_format(*FORMAT_NO_BORDER);
}

/// `Table::add_row` with a row of `Cell::new` cells: the row is appended
/// below the others, without style, and a cell made of one line shows that
/// line. `Cell::new` measures the width of its text and gives up on some
/// texts with an escape character, so these are kept away from it.
#[verifier::external_body]
fn table_add_row(t: &mut Table, texts: &Vec<String>)
    requires
        free_of_escapes(texts@),
    ensures
        table_rows(*final(t)) == table_rows(*old(t)).push(
            Seq::new(
                texts@.len(),
                |i: int|
                    if texts@[i]@.contains('\n') || texts@[i]@.contains('\r') {
                        multiline_content(texts@[i]@)
                    } else {
                        texts@[i]@
                    },
            ),
        ),
        table_title_rows(*final(t)) == table_title_rows(*old(t)).push(false),
        table_borderless(*final(t)) == table_borderless(*old(t)),
{
    t.add_row(Row::new(texts.iter().map(|s| Cell::new(s)).collect()));
}

/// `Table::add_row` with a row of `Cell::new` cells, each styled with
/// `Cell::with_style` in bold and in blue: the row is appended below the
/// others as a title row, and a cell made of one line shows that line.
/// Texts with an escape character are kept away from `Cell::new`.
#[verifier::external_body]
fn table_add_title_row(t: &mut Table, texts: &Vec<String>)
    requires
        free_of_escapes(texts@),
    ensures
        table_rows(*final(t)) == table_rows(*old(t)).push(
            Seq::new(
                texts@.len(),
                |i: int|
                    if texts@[i]@.contains('\n') || texts@[i]@.contains('\r') {
                        multiline_content(texts@[i]@)
                    } else {
                        texts@[i]@
                    },
            ),
        ),
        table_title_rows(*final(t)) == table_title_rows(*old(t)).push(texts@.len() > 0),
        table_borderless(*final(t)) == table_borderless(*old(t)),
{
    t.add_row(
        Row::new(
            texts.iter().map(
                |s|
                    Cell::new(s).with_style(Attr::Bold).with_style(
                        Attr::ForegroundColor(color::BLUE),
                    ),
            ).collect(),
        ),
    );
}

/// The predicate "is no escape character".
pub open spec fn no_escape() -> spec_fn(char) -> bool {
    |c: char| c != '\u{1b}'
}

/// A text as a cell takes it: without its escape characters.
pub open spec fn printable(text: Seq<char>) -> Seq<char> {
    text.filter(no_escape())
}

/// What the cell made of a text shows: the text without its escape
/// characters, where that is one line.
pub open spec fn shown(text: Seq<char>) -> Seq<char> {
    cell_text(printable(text))
}

/// Every character of the text is a printable ASCII character, from the
/// space to the tilde.
pub open spec fn plain(text: Seq<char>) -> bool {
    forall|i: int| 0 <= i < text.len() ==> ' ' <= #[trigger] text[i] <= '~'
}

/// A plain text holds no escape character and no line break, and a cell
/// shows it as it is.
pub proof fn lemma_plain_is_shown(text: Seq<char>)
    requires
        plain(text),
    ensures
        !text.contains('\u{1b}'),
        cell_text(text) == text,
{
    assert forall|c: char| c == '\u{1b}' || c == '\n' || c == '\r' implies !text.contains(c) by {
        if text.contains(c) {
            let i = choose|i: int| 0 <= i < text.len() && text[i] == c;
            assert(' ' <= text[i] <= '~');
        }
    }
}

/// The decimal notation of an integer is plain.
pub proof fn lemma_decimal_text_plain(n: int)
    ensures
        plain(decimal_text(n)),
{
    let magnitude: nat = if n < 0 {
        (-n) as nat
    } else {
        n as nat
    };
    lemma_decimal_digits_value(magnitude);
    let digits = decimal_digits(magnitude);
    assert forall|i: int| 0 <= i < decimal_text(n).len() implies ' ' <= #[trigger] decimal_text(
        n,
    )[i] <= '~' by {
        if n < 0 {
            if i > 0 {
                assert(decimal_text(n)[i] == digits[i - 1]);
                assert(is_digit(digits[i - 1]));
            }
        } else {
            assert(is_digit(digits[i]));
        }
    }
}

/// Drops the escape characters of a text.
pub fn printable_text(text: &str) -> (r: String)
    ensures
        r@ == printable(text@),
        !r@.contains('\u{1b}'),
{
    let chars = chars_of(text);
    let mut out: Vec<char> = Vec::new();
    let mut i: usize = 0;
    proof {
        chars@.take(0).lemma_filter_len(no_escape());
        assert(chars@.take(0).filter(no_escape()) =~= Seq::<char>::empty());
    }
    while i < chars.len()
        invariant
            i <= chars.len(),
            out@ == chars@.take(i as int).filter(no_escape()),
            forall|j: int| 0 <= j < out@.len() ==> out@[j] != '\u{1b}',
        decreases chars.len() - i,
    {
        let c = chars[i];
        proof {
            chars@.take(i as int).lemma_filter_push(c, no_escape());
            assert(chars@.take(i as int).push(c) =~= chars@.take(i + 1));
        }
        if c != '\u{1b}' {
            out.push(c);
        }
        i += 1;
    }
    proof {
        assert(chars@.take(chars@.len() as int) =~= chars@);
    }
    string_of(&out)
}

/// Appends a row of plain titles, which the cells show as they are.
fn add_titles(t: &mut Table, titles: &Vec<String>)
    requires
        titles@.len() > 0,
        forall|i: int| 0 <= i < titles@.len() ==> plain(#[trigger] titles@[i]@),
    ensures
        table_rows(*final(t)) == table_rows(*old(t)).push(string_views(titles@)),
        table_title_rows(*final(t)) == table_title_rows(*old(t)).push(true),
        table_borderless(*final(t)) == table_borderless(*old(t)),
{
    proof {
        assert forall|i: int| 0 <= i < titles@.len() implies !(#[trigger] titles@[i])@.contains(
            '\u{1b}',
        ) && cell_text(titles@[i]@) == titles@[i]@ by {
            lemma_plain_is_shown(titles@[i]@);
        }
    }
    table_add_title_row(t, titles);
    proof {
        assert(table_rows(*t).last() =~= string_views(titles@));
    }
}

/// The titles of the fan table.
pub open spec fn fan_titles() -> Seq<Seq<char>> {
    seq!["SLOT"@, "IDENT"@, "DESCRIPTION"@, "STATUS"@, "RPM"@]
}

/// Creates the fan table: no border, and one row with the titles in bold
/// blue.
pub fn create_fan_table() -> (t: Table)
    ensures
        table_rows(t) == seq![fan_titles()],
        table_title_rows(t) == seq![true],
        table_borderless(t),
{
    let mut t = table_new();
    table_set_no_border(&mut t);
    let mut titles: Vec<String> = Vec::new();
    titles.push("SLOT".to_owned());
    titles.push("IDENT".to_owned());
    titles.push("DESCRIPTION".to_owned());
    titles.push("STATUS".to_owned());
    titles.push("RPM".to_owned());
    proof {
        reveal_strlit("SLOT");
        reveal_strlit("IDENT");
        reveal_strlit("DESCRIPTION");
        reveal_strlit("STATUS");
        reveal_strlit("RPM");
    }
    add_titles(&mut t, &titles);
    proof {
        assert(string_views(titles@) =~= fan_titles());
        assert(table_rows(t) =~= seq![fan_titles()]);
        assert(table_title_rows(t) =~= seq![true]);
    }
    t
}

/// The titles of the enclosure table.
pub open spec fn enclosure_titles() -> Seq<Seq<char>> {
    seq!["SLOT"@, "DEVICE"@, "VENDOR"@, "MODEL"@, "REVISION"@, "SERIAL"@]
}

/// Creates the enclosure table: no border, and one row with the titles in
/// bold blue.
pub fn create_enclosure_table() -> (t: Table)
    ensures
        table_rows(t) == seq![enclosure_titles()],
        table_title_rows(t) == seq![true],
        table_borderless(t),
{
    let mut t = table_new();
    table_set_no_border(&mut t);
    let mut titles: Vec<String> = Vec::new();
    titles.push("SLOT".to_owned());
    titles.push("DEVICE".to_owned());
    titles.push("VENDOR".to_owned());
    titles.push("MODEL".to_owned());
    titles.push("REVISION".to_owned());
    titles.push("SERIAL".to_owned());
    proof {
        reveal_strlit("SLOT");
        reveal_strlit("DEVICE");
        reveal_strlit("VENDOR");
        reveal_strlit("MODEL");
        reveal_strlit("REVISION");
        reveal_strlit("SERIAL");
    }
    add_titles(&mut t, &titles);
    proof {
        assert(string_views(titles@) =~= enclosure_titles());
        assert(table_rows(t) =~= seq![enclosure_titles()]);
        assert(table_title_rows(t) =~= seq![true]);
    }
    t
}

/// The cells of the row of an enclosure.
pub open spec fn enclosure_row(e: EnclosureView) -> Seq<Seq<char>> {
    seq![
        shown(e.slot),
        shown(e.device_path),
        shown(e.vendor),
        shown(e.model),
        shown(e.revision),
        shown(e.serial),
    ]
}

/// Builds the table that shows one enclosure: the titles and its row. A
/// text of the enclosure goes into its cell without its escape characters.
pub fn enclosure_table(enclosure: &Enclosure) -> (t: Table)
    ensures
        table_rows(t) == seq![enclosure_titles(), enclosure_row(enclosure@)],
        table_title_rows(t) == seq![true, false],
        table_borderless(t),
{
    let mut t = create_enclosure_table();
    let mut cells: Vec<String> = Vec::new();
    cells.push(printable_text(enclosure.slot.as_str()));
    cells.push(printable_text(enclosure.device_path.as_str()));
    cells.push(printable_text(enclosure.vendor.as_str()));
    cells.push(printable_text(enclosure.model.as_str()));
    cells.push(printable_text(enclosure.revision.as_str()));
    cells.push(printable_text(enclosure.serial.as_str()));
    table_add_row(&mut t, &cells);
    proof {
        assert(table_rows(t)[1] =~= enclosure_row(enclosure@));
        assert(table_rows(t) =~= seq![enclosure_titles(), enclosure_row(enclosure@)]);
        assert(table_title_rows(t) =~= seq![true, false]);
    }
    t
}

/// The cells of the row of a fan: enclosure, component index, description,
/// comment and speed.
pub open spec fn fan_row(f: EnclosureFanView) -> Seq<Seq<char>> {
    seq![
        shown(f.slot),
        shown(f.index),
        shown(f.description),
        shown(f.comment),
        decimal_text(f.speed as int),
    ]
}

/// The rows of the fans `fans`, in order.
pub open spec fn fan_rows(fans: Seq<EnclosureFan>) -> Seq<Seq<Seq<char>>> {
    fans.map_values(|f: EnclosureFan| fan_row(f@))
}

/// Builds the table that shows the fans: the titles, then one row for each
/// fan in the order given. A text of a fan goes into its cell without its
/// escape characters.
pub fn fan_table(fans: &Vec<EnclosureFan>) -> (t: Table)
    ensures
        table_rows(t) == seq![fan_titles()] + fan_rows(fans@),
        table_title_rows(t) == seq![true] + Seq::new(fans@.len(), |i: int| false),
        table_borderless(t),
{
    let mut t = create_fan_table();
    let mut i: usize = 0;
    proof {
        assert(seq![fan_titles()] + fan_rows(fans@.take(0)) =~= seq![fan_titles()]);
        assert(seq![true] + Seq::new(0, |i: int| false) =~= seq![true]);
    }
    while i < fans.len()
        invariant
            i <= fans.len(),
            table_rows(t) == seq![fan_titles()] + fan_rows(fans@.take(i as int)),
            table_title_rows(t) == seq![true] + Seq::new(i as nat, |i: int| false),
            table_borderless(t),
        decreases fans.len() - i,
    {
        let fan = &fans[i];
        let mut cells: Vec<String> = Vec::new();
        cells.push(printable_text(fan.slot.as_str()));
        cells.push(printable_text(fan.index.as_str()));
        cells.push(printable_text(fan.description.as_str()));
        cells.push(printable_text(fan.comment.as_str()));
        cells.push(decimal_string(fan.speed));
        proof {
            lemma_decimal_text_plain(fan.speed as int);
            lemma_plain_is_shown(decimal_text(fan.speed as int));
        }
        table_add_row(&mut t, &cells);
        proof {
            assert(table_rows(t).last() =~= fan_row(fan@));
            assert(fan_rows(fans@.take(i + 1)) =~= fan_rows(fans@.take(i as int)).push(
                fan_row(fan@),
            ));
            assert(table_rows(t) =~= seq![fan_titles()] + fan_rows(fans@.take(i + 1)));
            assert(table_title_rows(t) =~= seq![true] + Seq::new(
                (i + 1) as nat,
                |i: int| false,
            ));
        }
        i += 1;
    }
    proof {
        assert(fans@.take(fans@.len() as int) =~= fans@);
    }
    t
}

} // verus!
