use jbod::text::{
    chars_of, contains, decimal_from, decimal_string, keep_digits, keep_non_empty, parse_i32,
    parse_i64, remove_all, same_text, slice_of, split, split_marked, split_whitespace, trim,
    trim_marked, whitespace_marks,
};

fn v(s: &str) -> Vec<char> {
    chars_of(s)
}

fn s(v: &Vec<char>) -> String {
    v.iter().collect()
}

#[test]
fn chars_of_keeps_every_character() {
    assert_eq!(chars_of("a\u{e9}\n"), vec!['a', '\u{e9}', '\n']);
    assert_eq!(chars_of(""), Vec::<char>::new());
}

#[test]
fn contains_finds_substrings() {
    assert!(contains(&v("disk enclosu re"), &v("enclosu")));
    assert!(contains(&v("abc"), &v("")));
    assert!(contains(&v(""), &v("")));
    assert!(contains(&v("abc"), &v("c")));
    assert!(!contains(&v("abc"), &v("abcd")));
    assert!(!contains(&v("abc"), &v("ac")));
}

#[test]
fn split_keeps_empty_pieces() {
    let parts = split(&v("a,,b,"), ',');
    let got: Vec<String> = parts.iter().map(s).collect();
    assert_eq!(got, vec!["a", "", "b", ""]);
    let one = split(&v(""), ',');
    assert_eq!(one.len(), 1);
    assert_eq!(s(&one[0]), "");
}

#[test]
fn split_whitespace_drops_empty_pieces() {
    let parts = split_whitespace(&v("  /dev/sg10 \t /dev/sdz\n"));
    let got: Vec<String> = parts.iter().map(s).collect();
    assert_eq!(got, vec!["/dev/sg10", "/dev/sdz"]);
    assert!(split_whitespace(&v(" \t ")).is_empty());
    assert!(split_whitespace(&v("")).is_empty());
}

#[test]
fn trim_strips_both_ends() {
    assert_eq!(s(&trim(&v("  a b \n"))), "a b");
    assert_eq!(s(&trim(&v(" \t "))), "");
    assert_eq!(s(&trim(&v("x"))), "x");
    assert_eq!(s(&trim(&v("\u{a0}x\u{3000}"))), "x");
}

#[test]
fn remove_all_takes_every_occurrence_out() {
    assert_eq!(s(&remove_all(&v("Revision level: 0001"), &v("Revision level:"))), " 0001");
    assert_eq!(s(&remove_all(&v("aaa"), &v("aa"))), "a");
    assert_eq!(s(&remove_all(&v("xabxabx"), &v("ab"))), "xxx");
    assert_eq!(s(&remove_all(&v("abc"), &v(""))), "abc");
    assert_eq!(s(&remove_all(&v("ab"), &v("abc"))), "ab");
}

#[test]
fn keep_digits_drops_everything_else() {
    assert_eq!(s(&keep_digits(&v("Current temperature = 37 C"))), "37");
    assert_eq!(s(&keep_digits(&v("no digits"))), "");
    assert_eq!(s(&keep_digits(&v(""))), "");
    assert_eq!(s(&keep_digits(&v("\u{661}2"))), "2");
}

#[test]
fn parse_i64_follows_the_decimal_grammar() {
    assert_eq!(parse_i64(&v("37")), Some(37));
    assert_eq!(parse_i64(&v("+37")), Some(37));
    assert_eq!(parse_i64(&v("-37")), Some(-37));
    assert_eq!(parse_i64(&v("007")), Some(7));
    assert_eq!(parse_i64(&v("")), None);
    assert_eq!(parse_i64(&v("-")), None);
    assert_eq!(parse_i64(&v("+")), None);
    assert_eq!(parse_i64(&v("3 7")), None);
    assert_eq!(parse_i64(&v("9223372036854775807")), Some(i64::MAX));
    assert_eq!(parse_i64(&v("9223372036854775808")), None);
    assert_eq!(parse_i64(&v("-9223372036854775808")), Some(i64::MIN));
    assert_eq!(parse_i64(&v("-9223372036854775809")), None);
    assert_eq!(parse_i64(&v("99999999999999999999999999999999999999999")), None);
}

#[test]
fn parse_i32_agrees_with_the_standard_parser() {
    for text in ["0", "45", "-1", "+50", "2147483647", "2147483648", "-2147483648", "-2147483649", "", "a", "1a", " 1"] {
        assert_eq!(parse_i32(&v(text)), text.parse::<i32>().ok());
    }
}

#[test]
fn decimal_string_agrees_with_the_standard_notation() {
    for n in [0i64, 7, 9, 10, 11, 99, 100, 8760, -1, -10, -12, i64::MAX, i64::MIN, i64::MIN + 1] {
        assert_eq!(decimal_string(n), n.to_string());
    }
}

#[test]
fn decimal_from_reads_up_to_its_limit() {
    assert_eq!(decimal_from(&v("x123"), 1, 200), Some(123));
    assert_eq!(decimal_from(&v("x123"), 1, 123), Some(123));
    assert_eq!(decimal_from(&v("x123"), 1, 122), None);
    assert_eq!(decimal_from(&v("x123"), 4, 200), None);
    assert_eq!(decimal_from(&v("12a"), 0, 200), None);
    assert_eq!(decimal_from(&v("18446744073709551615"), 0, u64::MAX), Some(u64::MAX));
    assert_eq!(decimal_from(&v("18446744073709551616"), 0, u64::MAX), None);
}

#[test]
fn same_text_compares_character_by_character() {
    assert!(same_text("NONE", "NONE"));
    assert!(same_text("", ""));
    assert!(!same_text("NONE", "none"));
    assert!(!same_text("NONE", "NONE "));
}

#[test]
fn slice_of_copies_a_range() {
    assert_eq!(s(&slice_of(&v("abcdef"), 2, 4)), "cd");
    assert_eq!(s(&slice_of(&v("abcdef"), 3, 3)), "");
    assert_eq!(s(&slice_of(&v("abcdef"), 0, 6)), "abcdef");
}

#[test]
fn whitespace_is_marked_character_by_character() {
    assert_eq!(whitespace_marks(&v(" a\tb\u{a0}\n")), vec![true, false, true, false, true, true]);
    assert!(whitespace_marks(&v("")).is_empty());
}

#[test]
fn split_marked_cuts_at_the_marks() {
    let parts = split_marked(&v("a,b;c"), &vec![false, true, false, true, false]);
    let got: Vec<String> = parts.iter().map(s).collect();
    assert_eq!(got, vec!["a", "b", "c"]);
    let parts = split_marked(&v("abc"), &vec![true, true]);
    let got: Vec<String> = parts.iter().map(s).collect();
    assert_eq!(got, vec!["", "", "c"]);
    let parts = split_marked(&v("ab"), &vec![false, false, true, true]);
    let got: Vec<String> = parts.iter().map(s).collect();
    assert_eq!(got, vec!["ab"]);
    let parts = split_marked(&v("ab"), &vec![]);
    assert_eq!(parts.len(), 1);
}

#[test]
fn keep_non_empty_drops_the_empty_texts() {
    let kept = keep_non_empty(&vec![v(""), v("a"), v(""), v("bc"), v("")]);
    let got: Vec<String> = kept.iter().map(s).collect();
    assert_eq!(got, vec!["a", "bc"]);
    assert!(keep_non_empty(&vec![]).is_empty());
}

#[test]
fn trim_marked_strips_the_marked_ends() {
    assert_eq!(s(&trim_marked(&v("xxaxbxx"), &vec![true, true, false, true, false, true, true])), "axb");
    assert_eq!(s(&trim_marked(&v("xx"), &vec![true, true])), "");
    assert_eq!(s(&trim_marked(&v("xax"), &vec![true])), "ax");
    assert_eq!(s(&trim_marked(&v("xax"), &vec![])), "xax");
    assert_eq!(s(&trim_marked(&v("ax"), &vec![false, true, true, true])), "a");
}

fn has_white_space_property(c: char) -> bool {
    matches!(
        c,
        '\u{9}'..='\u{d}'
            | ' '
            | '\u{85}'
            | '\u{a0}'
            | '\u{1680}'
            | '\u{2000}'..='\u{200a}'
            | '\u{2028}'
            | '\u{2029}'
            | '\u{202f}'
            | '\u{205f}'
            | '\u{3000}'
    )
}

#[test]
fn whitespace_is_the_listed_set_for_every_character() {
    let all: Vec<char> = ('\u{0}'..=char::MAX).collect();
    let marks = whitespace_marks(&all);
    assert_eq!(marks.len(), all.len());
    for (c, mark) in all.iter().zip(marks.iter()) {
        assert_eq!(*mark, has_white_space_property(*c), "{:?}", c);
    }
    assert_eq!(marks.iter().filter(|m| **m).count(), 25);
}
