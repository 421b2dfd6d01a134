//! Character-sequence primitives shared by every parser of the crate.
//!
//! Specifications are stated over `Seq<char>`; executable code works on
//! `Vec<char>` so that indexing is constant time.

use vstd::prelude::*;

verus! {

/// The ten ASCII decimal digits.
pub open spec fn is_digit(c: char) -> bool {
    '0' <= c <= '9'
}

/// The characters with the Unicode `White_Space` property: the controls
/// from tab to carriage return, the space, next line, the no-break space,
/// the Ogham space mark, the spaces from en quad to hair space, the line and
/// paragraph separators, the narrow no-break space, the medium mathematical
/// space and the ideographic space.
pub open spec fn is_white_space(c: char) -> bool {
    ||| '\u{9}' <= c <= '\u{d}'
    ||| c == ' '
    ||| c == '\u{85}'
    ||| c == '\u{a0}'
    ||| c == '\u{1680}'
    ||| '\u{2000}' <= c <= '\u{200a}'
    ||| c == '\u{2028}'
    ||| c == '\u{2029}'
    ||| c == '\u{202f}'
    ||| c == '\u{205f}'
    ||| c == '\u{3000}'
}

/// The Unicode lower-case form of a text.
pub uninterp spec fn lowercase(s: Seq<char>) -> Seq<char>;

/// Whether `c` belongs to one of the Unicode number categories.
pub uninterp spec fn is_numeric(c: char) -> bool;

/// `char::is_whitespace`: true of the characters with the Unicode
/// `White_Space` property, which [`is_white_space`] lists, and of no other.
#[verifier::external_body]
pub(crate) fn char_is_whitespace(c: char) -> (b: bool)
    ensures
        b == is_white_space(c),
{
    c.is_whitespace()
}

/// `char::is_numeric`: the answer is a fixed property of the character,
/// which the contract only names.
#[verifier::external_body]
pub(crate) fn char_is_numeric(c: char) -> (b: bool)
    ensures
        b == is_numeric(c),
{
    c.is_numeric()
}

/// `str::to_lowercase`: the result depends on the characters of `s` alone
/// and is only named by the contract.
#[verifier::external_body]
pub(crate) fn str_to_lowercase(s: &str) -> (r: String)
    ensures
        r@ == lowercase(s@),
{
    s.to_lowercase()
}

/// `String::from_iter` over the characters of a vector: the string holds
/// exactly those characters, in order.
#[verifier::external_body]
pub(crate) fn string_of(v: &Vec<char>) -> (s: String)
    ensures
        s@ == v@,
{
    String::from_iter(v.iter())
}

/// Copies the characters of `s` into a vector.
pub fn chars_of(s: &str) -> (v: Vec<char>)
    ensures
        v@ == s@,
{
    let mut v: Vec<char> = Vec::new();
    for c in it: s.chars()
        invariant
            v@ == it.seq().take(it.index() as int),
    {
        v.push(c);
    }
    v
}

/// Tells whether two texts hold the same characters.
pub fn same_text(a: &str, b: &str) -> (r: bool)
    ensures
        r == (a@ == b@),
{
    a.to_owned() == b.to_owned()
}

/// Tells whether `c` is an ASCII decimal digit.
pub fn is_ascii_digit(c: char) -> (b: bool)
    ensures
        b == is_digit(c),
{
    '0' <= c && c <= '9'
}

/// `pat` stands in `s` at position `i`.
pub open spec fn occurs_at(s: Seq<char>, pat: Seq<char>, i: int) -> bool {
    &&& 0 <= i
    &&& i + pat.len() <= s.len()
    &&& s.subrange(i, i + pat.len()) == pat
}

/// `pat` stands somewhere in `s`.
pub open spec fn occurs_in(s: Seq<char>, pat: Seq<char>) -> bool {
    exists|i: int| occurs_at(s, pat, i)
}

fn matches_at(s: &Vec<char>, pat: &Vec<char>, i: usize) -> (b: bool)
    requires
        i + pat.len() <= s.len(),
    ensures
        b == occurs_at(s@, pat@, i as int),
{
    let mut k: usize = 0;
    while k < pat.len()
        invariant
            k <= pat.len(),
            i + pat.len() <= s.len(),
            forall|j: int| 0 <= j < k ==> s@[i + j] == pat@[j],
        decreases pat.len() - k,
    {
        if s[i + k] != pat[k] {
            assert(s@.subrange(i as int, i + pat.len())[k as int] == s@[i + k]);
            return false;
        }
        k += 1;
    }
    assert(s@.subrange(i as int, i + pat.len()) =~= pat@);
    true
}

/// Substring search.
pub fn contains(s: &Vec<char>, pat: &Vec<char>) -> (b: bool)
    ensures
        b == occurs_in(s@, pat@),
{
    if pat.len() > s.len() {
        return false;
    }
    let last: usize = s.len() - pat.len();
    let mut i: usize = 0;
    loop
        invariant
            i <= last,
            last == s.len() - pat.len(),
            forall|j: int| 0 <= j < i ==> !occurs_at(s@, pat@, j),
        decreases last - i,
    {
        if matches_at(s, pat, i) {
            return true;
        }
        if i == last {
            return false;
        }
        i += 1;
    }
}

/// Position of the first text of `ws` in which `pat` occurs, or the length of
/// `ws` when there is none.
pub open spec fn first_with(ws: Seq<Seq<char>>, pat: Seq<char>) -> int
    decreases ws.len(),
{
    if ws.len() == 0 || occurs_in(ws[0], pat) {
        0
    } else {
        1 + first_with(ws.drop_first(), pat)
    }
}

/// `first_with` is the position `k` once `pat` occurs in no text before `k`
/// and `k` is either the end or a text that holds `pat`.
pub proof fn lemma_first_with(ws: Seq<Seq<char>>, pat: Seq<char>, k: int)
    requires
        0 <= k <= ws.len(),
        forall|j: int| 0 <= j < k ==> !occurs_in(#[trigger] ws[j], pat),
        k == ws.len() || occurs_in(ws[k], pat),
    ensures
        first_with(ws, pat) == k,
    decreases ws.len(),
{
    if k > 0 {
        let t = ws.drop_first();
        assert forall|j: int| 0 <= j < k - 1 implies !occurs_in(#[trigger] t[j], pat) by {
            assert(t[j] == ws[j + 1]);
        }
        lemma_first_with(t, pat, k - 1);
    }
}

/// Position of the first character of `s` that satisfies `p`, or the length
/// of `s` when there is none.
pub open spec fn first_where(s: Seq<char>, p: spec_fn(char) -> bool) -> int
    decreases s.len(),
{
    if s.len() == 0 || p(s[0]) {
        0
    } else {
        1 + first_where(s.drop_first(), p)
    }
}

/// The pieces of `s` between the characters that satisfy `p`. There is always
/// at least one piece; two neighbouring separators enclose an empty piece.
pub open spec fn pieces(s: Seq<char>, p: spec_fn(char) -> bool) -> Seq<Seq<char>>
    decreases s.len(),
{
    let i = first_where(s, p);
    if 0 <= i < s.len() {
        seq![s.take(i)] + pieces(s.skip(i + 1), p)
    } else {
        seq![s]
    }
}

/// The predicate "is the character `sep`".
pub open spec fn equals(sep: char) -> spec_fn(char) -> bool {
    |c: char| c == sep
}

/// The predicate "is a whitespace character".
pub open spec fn white_space() -> spec_fn(char) -> bool {
    |c: char| is_white_space(c)
}

/// The predicate "is an ASCII decimal digit".
pub open spec fn digit() -> spec_fn(char) -> bool {
    |c: char| is_digit(c)
}

/// The predicate "is no ASCII decimal digit".
pub open spec fn non_digit() -> spec_fn(char) -> bool {
    |c: char| !is_digit(c)
}

/// The predicate "holds at least one character".
pub open spec fn non_empty() -> spec_fn(Seq<char>) -> bool {
    |w: Seq<char>| w.len() > 0
}

/// The pieces of `s` between occurrences of `sep`.
pub open spec fn fields(s: Seq<char>, sep: char) -> Seq<Seq<char>> {
    pieces(s, equals(sep))
}

/// The lines of a text: its pieces between line feeds.
pub open spec fn lines(s: Seq<char>) -> Seq<Seq<char>> {
    fields(s, '\n')
}

/// The maximal runs of non-whitespace characters of `s`, in order.
pub open spec fn words(s: Seq<char>) -> Seq<Seq<char>> {
    pieces(s, white_space()).filter(non_empty())
}

/// The character sequences held by a vector of character vectors.
pub open spec fn texts(v: Seq<Vec<char>>) -> Seq<Seq<char>> {
    v.map_values(|x: Vec<char>| x@)
}

/// `first_where` is the position `k` once nothing before `k` matches and `k`
/// is either the end or a match.
pub proof fn lemma_first_where(s: Seq<char>, p: spec_fn(char) -> bool, k: int)
    requires
        0 <= k <= s.len(),
        forall|j: int| 0 <= j < k ==> !p(#[trigger] s[j]),
        k == s.len() || p(s[k]),
    ensures
        first_where(s, p) == k,
    decreases s.len(),
{
    if k > 0 {
        let t = s.drop_first();
        assert forall|j: int| 0 <= j < k - 1 implies !p(#[trigger] t[j]) by {
            assert(t[j] == s[j + 1]);
        }
        lemma_first_where(t, p, k - 1);
    }
}

/// `first_where` lies within the sequence, nothing before it matches, and it
/// is a match unless it is the end.
pub proof fn lemma_first_where_is_first(s: Seq<char>, p: spec_fn(char) -> bool)
    ensures
        0 <= first_where(s, p) <= s.len(),
        forall|j: int| 0 <= j < first_where(s, p) ==> !p(#[trigger] s[j]),
        first_where(s, p) < s.len() ==> p(s[first_where(s, p)]),
    decreases s.len(),
{
    if !(s.len() == 0 || p(s[0])) {
        let t = s.drop_first();
        lemma_first_where_is_first(t, p);
        assert forall|j: int| 0 <= j < first_where(s, p) implies !p(#[trigger] s[j]) by {
            if j > 0 {
                assert(s[j] == t[j - 1]);
            }
        }
    }
}

/// A split always yields at least one piece.
pub proof fn lemma_pieces_non_empty(s: Seq<char>, p: spec_fn(char) -> bool)
    ensures
        pieces(s, p).len() >= 1,
{
}

/// One step of a left-to-right split: once the text from `start` on has its
/// first separator at `i`, the piece before it is cut off.
proof fn lemma_pieces_cut(s: Seq<char>, p: spec_fn(char) -> bool, start: int, i: int)
    requires
        0 <= start <= i < s.len(),
        forall|j: int| start <= j < i ==> !p(#[trigger] s[j]),
        p(s[i]),
    ensures
        pieces(s.skip(start), p) == seq![s.subrange(start, i)] + pieces(s.skip(i + 1), p),
{
    let t = s.skip(start);
    assert forall|j: int| 0 <= j < i - start implies !p(#[trigger] t[j]) by {
        assert(t[j] == s[start + j]);
    }
    lemma_first_where(t, p, i - start);
    assert(t.take(i - start) =~= s.subrange(start, i));
    assert(t.skip(i - start + 1) =~= s.skip(i + 1));
}

/// The end of a left-to-right split: a text without separator is one piece.
proof fn lemma_pieces_last(s: Seq<char>, p: spec_fn(char) -> bool, start: int)
    requires
        0 <= start <= s.len(),
        forall|j: int| start <= j < s.len() ==> !p(#[trigger] s[j]),
    ensures
        pieces(s.skip(start), p) == seq![s.skip(start)],
{
    let t = s.skip(start);
    assert forall|j: int| 0 <= j < t.len() implies !p(#[trigger] t[j]) by {
        assert(t[j] == s[start + j]);
    }
    lemma_first_where(t, p, t.len() as int);
}

/// Splits `s` at every occurrence of `sep`.
pub fn split(s: &Vec<char>, sep: char) -> (out: Vec<Vec<char>>)
    ensures
        texts(out@) == fields(s@, sep),
{
    let ghost p = equals(sep);
    let mut out: Vec<Vec<char>> = Vec::new();
    let mut cur: Vec<char> = Vec::new();
    let ghost mut start: int = 0;
    let mut i: usize = 0;
    proof {
        assert(s@.skip(0) =~= s@);
        assert(texts(out@) + pieces(s@, p) =~= pieces(s@, p));
    }
    while i < s.len()
        invariant
            0 <= start <= i <= s.len(),
            p == equals(sep),
            cur@ == s@.subrange(start, i as int),
            forall|j: int| start <= j < i ==> !p(#[trigger] s@[j]),
            pieces(s@, p) == texts(out@) + pieces(s@.skip(start), p),
        decreases s.len() - i,
    {
        let c = s[i];
        if c == sep {
            proof {
                lemma_pieces_cut(s@, p, start, i as int);
                assert(texts(out@.push(cur)) =~= texts(out@) + seq![cur@]);
                assert(s@.subrange(i + 1, i + 1) =~= Seq::<char>::empty());
            }
            out.push(cur);
            cur = Vec::new();
            proof {
                start = i + 1;
            }
        } else {
            proof {
                assert(s@.subrange(start, i + 1) =~= s@.subrange(start, i as int).push(c));
            }
            cur.push(c);
        }
        i += 1;
    }
    proof {
        lemma_pieces_last(s@, p, start);
        assert(s@.subrange(start, s@.len() as int) =~= s@.skip(start));
        assert(texts(out@.push(cur)) =~= texts(out@) + seq![cur@]);
    }
    out.push(cur);
    out
}

/// The marks of a text under a predicate: one for each character, set where
/// the character satisfies `p`.
pub open spec fn marks_of(s: Seq<char>, p: spec_fn(char) -> bool) -> Seq<bool> {
    s.map_values(p)
}

/// Position of the first mark that is set, or the number of marks when none
/// is.
pub open spec fn first_set(marks: Seq<bool>) -> int
    decreases marks.len(),
{
    if marks.len() == 0 || marks[0] {
        0
    } else {
        1 + first_set(marks.drop_first())
    }
}

/// The pieces of `s` between the positions whose mark is set. A position
/// without a mark counts as not set.
pub open spec fn cut_at(s: Seq<char>, marks: Seq<bool>) -> Seq<Seq<char>>
    decreases s.len(),
{
    let i = first_set(marks);
    if 0 <= i < s.len() && i < marks.len() {
        seq![s.take(i)] + cut_at(s.skip(i + 1), marks.skip(i + 1))
    } else {
        seq![s]
    }
}

proof fn lemma_first_set(marks: Seq<bool>, k: int)
    requires
        0 <= k <= marks.len(),
        forall|j: int| 0 <= j < k ==> !marks[j],
    ensures
        k <= first_set(marks) <= marks.len(),
        k < marks.len() && marks[k] ==> first_set(marks) == k,
    decreases marks.len(),
{
    if marks.len() > 0 && !marks[0] {
        let t = marks.drop_first();
        if k > 0 {
            assert forall|j: int| 0 <= j < k - 1 implies !t[j] by {
                assert(t[j] == marks[j + 1]);
            }
            lemma_first_set(t, k - 1);
        } else {
            lemma_first_set(t, 0);
        }
    }
}

/// Cutting a text at the marks of a predicate gives its pieces between the
/// characters that satisfy the predicate.
pub proof fn lemma_cut_at_marks(s: Seq<char>, p: spec_fn(char) -> bool)
    ensures
        cut_at(s, marks_of(s, p)) == pieces(s, p),
    decreases s.len(),
{
    let marks = marks_of(s, p);
    lemma_first_where_is_first(s, p);
    let i = first_where(s, p);
    assert forall|j: int| 0 <= j < i implies !marks[j] by {
        assert(marks[j] == p(s[j]));
    }
    lemma_first_set(marks, i);
    if i < s.len() {
        assert(marks.skip(i + 1) =~= marks_of(s.skip(i + 1), p));
        lemma_cut_at_marks(s.skip(i + 1), p);
    }
}

/// Splits `s` at every position whose mark is set.
pub fn split_marked(s: &Vec<char>, marks: &Vec<bool>) -> (out: Vec<Vec<char>>)
    ensures
        texts(out@) == cut_at(s@, marks@),
{
    let n: usize = if marks.len() < s.len() {
        marks.len()
    } else {
        s.len()
    };
    let mut out: Vec<Vec<char>> = Vec::new();
    let mut cur: Vec<char> = Vec::new();
    let ghost mut start: int = 0;
    let mut i: usize = 0;
    proof {
        assert(s@.skip(0) =~= s@);
        assert(marks@.skip(0) =~= marks@);
        assert(texts(out@) + cut_at(s@, marks@) =~= cut_at(s@, marks@));
    }
    while i < n
        invariant
            0 <= start <= i <= n,
            n <= s.len(),
            n <= marks.len(),
            n == s.len() || n == marks.len(),
            cur@ == s@.subrange(start, i as int),
            forall|j: int| start <= j < i ==> !marks@[j],
            cut_at(s@, marks@) == texts(out@) + cut_at(s@.skip(start), marks@.skip(start)),
        decreases n - i,
    {
        let c = s[i];
        if marks[i] {
            proof {
                let t = s@.skip(start);
                let m = marks@.skip(start);
                assert forall|j: int| 0 <= j < i - start implies !m[j] by {
                    assert(m[j] == marks@[start + j]);
                }
                assert(m[i - start] == marks@[i as int]);
                lemma_first_set(m, i - start);
                assert(t.take(i - start) =~= s@.subrange(start, i as int));
                assert(t.skip(i - start + 1) =~= s@.skip(i + 1));
                assert(m.skip(i - start + 1) =~= marks@.skip(i + 1));
                assert(texts(out@.push(cur)) =~= texts(out@) + seq![cur@]);
                assert(s@.subrange(i + 1, i + 1) =~= Seq::<char>::empty());
            }
            out.push(cur);
            cur = Vec::new();
            proof {
                start = i + 1;
            }
        } else {
            proof {
                assert(s@.subrange(start, i + 1) =~= s@.subrange(start, i as int).push(c));
            }
            cur.push(c);
        }
        i += 1;
    }
    let mut k: usize = n;
    while k < s.len()
        invariant
            0 <= start <= n <= k <= s.len(),
            cur@ == s@.subrange(start, k as int),
        decreases s.len() - k,
    {
        proof {
            assert(s@.subrange(start, k + 1) =~= s@.subrange(start, k as int).push(s@[k as int]));
        }
        cur.push(s[k]);
        k += 1;
    }
    proof {
        let t = s@.skip(start);
        let m = marks@.skip(start);
        assert forall|j: int| 0 <= j < n - start implies !m[j] by {
            assert(m[j] == marks@[start + j]);
        }
        lemma_first_set(m, n - start);
        assert(s@.subrange(start, s@.len() as int) =~= t);
        assert(texts(out@.push(cur)) =~= texts(out@) + seq![cur@]);
    }
    out.push(cur);
    out
}

/// Marks the whitespace characters of `s`.
pub fn whitespace_marks(s: &Vec<char>) -> (marks: Vec<bool>)
    ensures
        marks@ == marks_of(s@, white_space()),
{
    let mut marks: Vec<bool> = Vec::new();
    let mut i: usize = 0;
    while i < s.len()
        invariant
            i <= s.len(),
            marks@ == marks_of(s@.take(i as int), white_space()),
        decreases s.len() - i,
    {
        proof {
            assert(marks_of(s@.take(i + 1), white_space()) =~= marks_of(
                s@.take(i as int),
                white_space(),
            ).push(is_white_space(s@[i as int])));
        }
        marks.push(char_is_whitespace(s[i]));
        i += 1;
    }
    proof {
        assert(s@.take(s@.len() as int) =~= s@);
    }
    marks
}

/// Keeps the texts that hold at least one character.
pub fn keep_non_empty(pieces: &Vec<Vec<char>>) -> (out: Vec<Vec<char>>)
    ensures
        texts(out@) == texts(pieces@).filter(non_empty()),
{
    let mut out: Vec<Vec<char>> = Vec::new();
    let mut i: usize = 0;
    let ghost all = texts(pieces@);
    proof {
        all.take(0).lemma_filter_len(non_empty());
        assert(texts(out@) =~= all.take(0).filter(non_empty()));
    }
    while i < pieces.len()
        invariant
            i <= pieces.len(),
            all == texts(pieces@),
            texts(out@) == all.take(i as int).filter(non_empty()),
        decreases pieces.len() - i,
    {
        let n: usize = pieces[i].len();
        proof {
            assert(all[i as int] == pieces@[i as int]@);
            all.take(i as int).lemma_filter_push(pieces@[i as int]@, non_empty());
            assert(all.take(i as int).push(pieces@[i as int]@) =~= all.take(i + 1));
        }
        if n > 0 {
            let piece = slice_of(&pieces[i], 0, n);
            proof {
                assert(pieces@[i as int]@.subrange(0, n as int) =~= pieces@[i as int]@);
                assert(texts(out@.push(piece)) =~= texts(out@).push(piece@));
            }
            out.push(piece);
        }
        i += 1;
    }
    proof {
        assert(all.take(pieces@.len() as int) =~= all);
    }
    out
}

/// Splits `s` into its maximal runs of non-whitespace characters.
pub fn split_whitespace(s: &Vec<char>) -> (out: Vec<Vec<char>>)
    ensures
        texts(out@) == words(s@),
{
    let marks = whitespace_marks(s);
    proof {
        lemma_cut_at_marks(s@, white_space());
    }
    keep_non_empty(&split_marked(s, &marks))
}

/// Copies the characters of `s` from position `from` up to, not including,
/// position `to`.
pub fn slice_of(s: &Vec<char>, from: usize, to: usize) -> (out: Vec<char>)
    requires
        from <= to <= s.len(),
    ensures
        out@ == s@.subrange(from as int, to as int),
{
    let mut out: Vec<char> = Vec::new();
    let mut i: usize = from;
    while i < to
        invariant
            from <= i <= to <= s.len(),
            out@ == s@.subrange(from as int, i as int),
        decreases to - i,
    {
        proof {
            assert(s@.subrange(from as int, i + 1) =~= s@.subrange(from as int, i as int).push(
                s@[i as int],
            ));
        }
        out.push(s[i]);
        i += 1;
    }
    out
}

/// `s` without its leading whitespace.
pub open spec fn trimmed_start(s: Seq<char>) -> Seq<char>
    decreases s.len(),
{
    if s.len() > 0 && is_white_space(s[0]) {
        trimmed_start(s.drop_first())
    } else {
        s
    }
}

/// `s` without its trailing whitespace.
pub open spec fn trimmed_end(s: Seq<char>) -> Seq<char>
    decreases s.len(),
{
    if s.len() > 0 && is_white_space(s.last()) {
        trimmed_end(s.drop_last())
    } else {
        s
    }
}

/// `s` without its leading and trailing whitespace.
pub open spec fn trimmed(s: Seq<char>) -> Seq<char> {
    trimmed_end(trimmed_start(s))
}

proof fn lemma_trimmed_start(s: Seq<char>, a: int)
    requires
        0 <= a <= s.len(),
        forall|j: int| 0 <= j < a ==> is_white_space(#[trigger] s[j]),
        a == s.len() || !is_white_space(s[a]),
    ensures
        trimmed_start(s) == s.skip(a),
    decreases s.len(),
{
    if a > 0 {
        let t = s.drop_first();
        assert forall|j: int| 0 <= j < a - 1 implies is_white_space(#[trigger] t[j]) by {
            assert(t[j] == s[j + 1]);
        }
        lemma_trimmed_start(t, a - 1);
        assert(t.skip(a - 1) =~= s.skip(a));
    } else {
        assert(s.skip(0) =~= s);
    }
}

proof fn lemma_trimmed_end(s: Seq<char>, b: int)
    requires
        0 <= b <= s.len(),
        forall|j: int| b <= j < s.len() ==> is_white_space(#[trigger] s[j]),
        b == 0 || !is_white_space(s[b - 1]),
    ensures
        trimmed_end(s) == s.take(b),
    decreases s.len(),
{
    if b < s.len() {
        let t = s.drop_last();
        assert forall|j: int| b <= j < t.len() implies is_white_space(#[trigger] t[j]) by {
            assert(t[j] == s[j]);
        }
        lemma_trimmed_end(t, b);
        assert(t.take(b) =~= s.take(b));
    } else {
        assert(s.take(b) =~= s);
    }
}

/// The number of marks that are set at the start.
pub open spec fn leading_set(marks: Seq<bool>) -> int
    decreases marks.len(),
{
    if marks.len() > 0 && marks[0] {
        1 + leading_set(marks.drop_first())
    } else {
        0
    }
}

/// The number of marks that are set at the end.
pub open spec fn trailing_set(marks: Seq<bool>) -> int
    decreases marks.len(),
{
    if marks.len() > 0 && marks.last() {
        1 + trailing_set(marks.drop_last())
    } else {
        0
    }
}

/// The marks of `n` positions: those given, as far as they reach, and marks
/// that are not set beyond.
pub open spec fn marks_for(marks: Seq<bool>, n: nat) -> Seq<bool> {
    Seq::new(n, |i: int| i < marks.len() && marks[i])
}

/// `s` without the characters at its start and at its end whose mark is set.
pub open spec fn trimmed_at(s: Seq<char>, marks: Seq<bool>) -> Seq<char> {
    let m = marks_for(marks, s.len());
    let a = leading_set(m);
    let b = trailing_set(m.skip(a));
    s.subrange(a, s.len() - b)
}

proof fn lemma_leading_set(marks: Seq<bool>, a: int)
    requires
        0 <= a <= marks.len(),
        forall|j: int| 0 <= j < a ==> marks[j],
        a == marks.len() || !marks[a],
    ensures
        leading_set(marks) == a,
    decreases marks.len(),
{
    if a > 0 {
        let t = marks.drop_first();
        assert forall|j: int| 0 <= j < a - 1 implies t[j] by {
            assert(t[j] == marks[j + 1]);
        }
        lemma_leading_set(t, a - 1);
    }
}

proof fn lemma_trailing_set(marks: Seq<bool>, b: int)
    requires
        0 <= b <= marks.len(),
        forall|j: int| marks.len() - b <= j < marks.len() ==> marks[j],
        b == marks.len() || !marks[marks.len() - b - 1],
    ensures
        trailing_set(marks) == b,
    decreases marks.len(),
{
    if b > 0 {
        let t = marks.drop_last();
        assert forall|j: int| t.len() - (b - 1) <= j < t.len() implies t[j] by {
            assert(t[j] == marks[j]);
        }
        lemma_trailing_set(t, b - 1);
    }
}

proof fn lemma_leading_set_is(marks: Seq<bool>)
    ensures
        0 <= leading_set(marks) <= marks.len(),
        forall|j: int| 0 <= j < leading_set(marks) ==> marks[j],
        leading_set(marks) == marks.len() || !marks[leading_set(marks)],
    decreases marks.len(),
{
    if marks.len() > 0 && marks[0] {
        let t = marks.drop_first();
        lemma_leading_set_is(t);
        assert forall|j: int| 0 <= j < leading_set(marks) implies marks[j] by {
            if j > 0 {
                assert(marks[j] == t[j - 1]);
            }
        }
        if leading_set(marks) < marks.len() {
            assert(marks[leading_set(marks)] == t[leading_set(t)]);
        }
    }
}

proof fn lemma_trailing_set_is(marks: Seq<bool>)
    ensures
        0 <= trailing_set(marks) <= marks.len(),
        forall|j: int| marks.len() - trailing_set(marks) <= j < marks.len() ==> marks[j],
        trailing_set(marks) == marks.len() || !marks[marks.len() - trailing_set(marks) - 1],
    decreases marks.len(),
{
    if marks.len() > 0 && marks.last() {
        let t = marks.drop_last();
        lemma_trailing_set_is(t);
        let b = trailing_set(marks);
        assert forall|j: int| marks.len() - b <= j < marks.len() implies marks[j] by {
            if j < t.len() {
                assert(marks[j] == t[j]);
            }
        }
        if b < marks.len() {
            assert(marks[marks.len() - b - 1] == t[t.len() - trailing_set(t) - 1]);
        }
    }
}

/// Trimming a text at the marks of its whitespace gives the text without its
/// leading and trailing whitespace.
pub proof fn lemma_trimmed_at_marks(s: Seq<char>)
    ensures
        trimmed_at(s, marks_of(s, white_space())) == trimmed(s),
{
    let marks = marks_of(s, white_space());
    let m = marks_for(marks, s.len());
    assert(m =~= marks);
    lemma_leading_set_is(m);
    let a = leading_set(m);
    assert forall|j: int| 0 <= j < a implies is_white_space(#[trigger] s[j]) by {
        assert(m[j] == is_white_space(s[j]));
    }
    lemma_trimmed_start(s, a);
    let t = s.skip(a);
    let mt = m.skip(a);
    lemma_trailing_set_is(mt);
    let b = trailing_set(mt);
    assert forall|j: int| t.len() - b <= j < t.len() implies is_white_space(#[trigger] t[j]) by {
        assert(mt[j] == is_white_space(t[j]));
    }
    if b < t.len() {
        assert(mt[t.len() - b - 1] == is_white_space(t[t.len() - b - 1]));
    }
    lemma_trimmed_end(t, t.len() - b);
    assert(t.take(t.len() - b) =~= s.subrange(a, s.len() - b));
}

/// Strips the characters at the start and at the end whose mark is set.
pub fn trim_marked(s: &Vec<char>, marks: &Vec<bool>) -> (out: Vec<char>)
    ensures
        out@ == trimmed_at(s@, marks@),
{
    let n: usize = s.len();
    let ghost m = marks_for(marks@, s@.len());
    let mut a: usize = 0;
    while a < n && a < marks.len() && marks[a]
        invariant
            a <= n == s.len(),
            m == marks_for(marks@, s@.len()),
            forall|j: int| 0 <= j < a ==> m[j],
        decreases n - a,
    {
        a += 1;
    }
    let mut b: usize = n;
    while b > a && b - 1 < marks.len() && marks[b - 1]
        invariant
            a <= b <= n == s.len(),
            m == marks_for(marks@, s@.len()),
            forall|j: int| b <= j < n ==> m[j],
        decreases b,
    {
        b -= 1;
    }
    proof {
        lemma_leading_set(m, a as int);
        let mt = m.skip(a as int);
        assert forall|j: int| mt.len() - (n - b) <= j < mt.len() implies mt[j] by {
            assert(mt[j] == m[a + j]);
        }
        if b > a {
            assert(mt[b - a - 1] == m[b - 1]);
        }
        lemma_trailing_set(mt, n - b);
    }
    slice_of(s, a, b)
}

/// Strips leading and trailing whitespace.
pub fn trim(s: &Vec<char>) -> (out: Vec<char>)
    ensures
        out@ == trimmed(s@),
{
    let marks = whitespace_marks(s);
    proof {
        lemma_trimmed_at_marks(s@);
    }
    trim_marked(s, &marks)
}

/// `s` with every occurrence of `pat` taken out, scanning from the left; an
/// empty `pat` takes nothing out.
pub open spec fn without(s: Seq<char>, pat: Seq<char>) -> Seq<char>
    decreases s.len(),
{
    if pat.len() == 0 || s.len() < pat.len() {
        s
    } else if s.take(pat.len() as int) == pat {
        without(s.skip(pat.len() as int), pat)
    } else {
        seq![s[0]] + without(s.drop_first(), pat)
    }
}

/// Removes every occurrence of `pat` from `s`.
pub fn remove_all(s: &Vec<char>, pat: &Vec<char>) -> (out: Vec<char>)
    ensures
        out@ == without(s@, pat@),
{
    let n: usize = s.len();
    let m: usize = pat.len();
    if m == 0 || n < m {
        return slice_of(s, 0, n);
    }
    let mut out: Vec<char> = Vec::new();
    let mut i: usize = 0;
    proof {
        assert(s@.skip(0) =~= s@);
    }
    while i <= n - m
        invariant
            0 < m == pat.len(),
            m <= n == s.len(),
            i <= n,
            without(s@, pat@) == out@ + without(s@.skip(i as int), pat@),
        decreases n - i,
    {
        let ghost rest = s@.skip(i as int);
        proof {
            assert(rest.take(m as int) =~= s@.subrange(i as int, i + m));
        }
        if matches_at(s, pat, i) {
            proof {
                assert(rest.skip(m as int) =~= s@.skip(i + m));
            }
            i += m;
        } else {
            proof {
                assert(rest.drop_first() =~= s@.skip(i + 1));
                assert(out@.push(s@[i as int]) + without(s@.skip(i + 1), pat@) =~= out@ + (
                seq![rest[0]] + without(rest.drop_first(), pat@)));
            }
            out.push(s[i]);
            i += 1;
        }
    }
    let mut k: usize = i;
    while k < n
        invariant
            i <= k <= n == s.len(),
            without(s@, pat@) == out@ + s@.subrange(k as int, n as int),
        decreases n - k,
    {
        proof {
            assert(out@.push(s@[k as int]) + s@.subrange(k + 1, n as int) =~= out@ + s@.subrange(
                k as int,
                n as int,
            ));
        }
        out.push(s[k]);
        k += 1;
    }
    proof {
        assert(out@ + s@.subrange(n as int, n as int) =~= out@);
    }
    out
}

/// The ASCII decimal digits of `s`, in order.
pub open spec fn digits(s: Seq<char>) -> Seq<char> {
    s.filter(digit())
}

/// Keeps the ASCII decimal digits of `s` and drops every other character.
pub fn keep_digits(s: &Vec<char>) -> (out: Vec<char>)
    ensures
        out@ == digits(s@),
{
    let mut out: Vec<char> = Vec::new();
    let mut i: usize = 0;
    proof {
        s@.take(0).lemma_filter_len(digit());
        assert(s@.take(0).filter(digit()) =~= Seq::<char>::empty());
    }
    while i < s.len()
        invariant
            i <= s.len(),
            out@ == s@.take(i as int).filter(digit()),
        decreases s.len() - i,
    {
        let c = s[i];
        proof {
            s@.take(i as int).lemma_filter_push(c, digit());
            assert(s@.take(i as int).push(c) =~= s@.take(i + 1));
        }
        if is_ascii_digit(c) {
            out.push(c);
        }
        i += 1;
    }
    proof {
        assert(s@.take(s@.len() as int) =~= s@);
    }
    out
}

/// The number that a decimal digit stands for.
pub open spec fn digit_value(c: char) -> int {
    c as u32 - '0' as u32
}

/// Every character of `s` is an ASCII decimal digit.
pub open spec fn all_digits(s: Seq<char>) -> bool {
    forall|i: int| 0 <= i < s.len() ==> is_digit(#[trigger] s[i])
}

/// `s` is a non-empty run of ASCII decimal digits.
pub open spec fn is_number(s: Seq<char>) -> bool {
    s.len() > 0 && all_digits(s)
}

/// The number written by a run of decimal digits, most significant first.
pub open spec fn decimal_value(s: Seq<char>) -> int
    decreases s.len(),
{
    if s.len() == 0 {
        0
    } else {
        10 * decimal_value(s.drop_last()) + digit_value(s.last())
    }
}

/// The integer written by `s`: an optional sign followed by at least one
/// decimal digit and nothing else.
pub open spec fn signed_decimal(s: Seq<char>) -> Option<int> {
    if s.len() > 0 && s[0] == '-' {
        if is_number(s.drop_first()) {
            Some(-decimal_value(s.drop_first()))
        } else {
            None
        }
    } else if s.len() > 0 && s[0] == '+' {
        if is_number(s.drop_first()) {
            Some(decimal_value(s.drop_first()))
        } else {
            None
        }
    } else if is_number(s) {
        Some(decimal_value(s))
    } else {
        None
    }
}

/// The 64-bit integer written by `s`, if `s` writes one.
pub open spec fn parsed_i64(s: Seq<char>) -> Option<i64> {
    match signed_decimal(s) {
        Some(v) => if i64::MIN <= v <= i64::MAX {
            Some(v as i64)
        } else {
            None
        },
        None => None,
    }
}

/// The 32-bit integer written by `s`, if `s` writes one.
pub open spec fn parsed_i32(s: Seq<char>) -> Option<i32> {
    match signed_decimal(s) {
        Some(v) => if i32::MIN <= v <= i32::MAX {
            Some(v as i32)
        } else {
            None
        },
        None => None,
    }
}

/// Reading more digits never yields a smaller number.
pub proof fn lemma_decimal_value_grows(s: Seq<char>, k: int)
    requires
        all_digits(s),
        0 <= k <= s.len(),
    ensures
        0 <= decimal_value(s.take(k)) <= decimal_value(s),
    decreases s.len() - k,
{
    if k == s.len() {
        assert(s.take(k) =~= s);
        lemma_decimal_value_non_negative(s);
    } else {
        lemma_decimal_value_grows(s, k + 1);
        assert(s.take(k + 1).drop_last() =~= s.take(k));
        assert(is_digit(s[k]));
        lemma_decimal_value_non_negative(s.take(k));
    }
}

proof fn lemma_decimal_value_non_negative(s: Seq<char>)
    requires
        all_digits(s),
    ensures
        0 <= decimal_value(s),
    decreases s.len(),
{
    if s.len() > 0 {
        assert(is_digit(s.last()));
        assert forall|i: int| 0 <= i < s.drop_last().len() implies is_digit(
            #[trigger] s.drop_last()[i],
        ) by {
            assert(s.drop_last()[i] == s[i]);
        }
        lemma_decimal_value_non_negative(s.drop_last());
    }
}

/// Reads the digits of `s` from position `from` to the end as a number no
/// larger than `limit`.
pub fn decimal_from(s: &Vec<char>, from: usize, limit: u64) -> (r: Option<u64>)
    requires
        from <= s.len(),
    ensures
        r is Some <==> is_number(s@.skip(from as int)) && decimal_value(s@.skip(from as int))
            <= limit,
        r matches Some(v) ==> v == decimal_value(s@.skip(from as int)),
{
    let ghost t = s@.skip(from as int);
    if from == s.len() {
        return None;
    }
    let mut acc: u64 = 0;
    let mut i: usize = from;
    while i < s.len()
        invariant
            from <= i <= s.len(),
            t == s@.skip(from as int),
            all_digits(t.take(i - from)),
            acc == decimal_value(t.take(i - from)),
            acc <= limit,
        decreases s.len() - i,
    {
        let c = s[i];
        proof {
            assert(t[i - from] == c);
            assert(t.take(i - from + 1).drop_last() =~= t.take(i - from));
        }
        if !is_ascii_digit(c) {
            return None;
        }
        let d: u64 = (c as u32 - '0' as u32) as u64;
        let next: u128 = acc as u128 * 10 + d as u128;
        proof {
            assert forall|j: int| 0 <= j < i - from + 1 implies is_digit(
                #[trigger] t.take(i - from + 1)[j],
            ) by {
                if j < i - from {
                    assert(t.take(i - from)[j] == t[j]);
                }
            }
        }
        if next > limit as u128 {
            proof {
                if all_digits(t) {
                    lemma_decimal_value_grows(t, i - from + 1);
                }
            }
            return None;
        }
        acc = next as u64;
        i += 1;
    }
    proof {
        assert(t.take(t.len() as int) =~= t);
    }
    Some(acc)
}

/// Reads a signed 64-bit decimal integer; `None` for anything else.
pub fn parse_i64(s: &Vec<char>) -> (r: Option<i64>)
    ensures
        r == parsed_i64(s@),
{
    if s.len() == 0 {
        return None;
    }
    proof {
        assert(s@.skip(1) =~= s@.drop_first());
        assert(s@.skip(0) =~= s@);
    }
    if s[0] == '-' {
        match decimal_from(s, 1, 0x8000_0000_0000_0000u64) {
            Some(v) => if v == 0x8000_0000_0000_0000u64 {
                Some(i64::MIN)
            } else {
                Some(-(v as i64))
            },
            None => None,
        }
    } else if s[0] == '+' {
        match decimal_from(s, 1, 0x7fff_ffff_ffff_ffffu64) {
            Some(v) => Some(v as i64),
            None => None,
        }
    } else {
        match decimal_from(s, 0, 0x7fff_ffff_ffff_ffffu64) {
            Some(v) => Some(v as i64),
            None => None,
        }
    }
}

/// Reads a signed 32-bit decimal integer; `None` for anything else.
pub fn parse_i32(s: &Vec<char>) -> (r: Option<i32>)
    ensures
        r == parsed_i32(s@),
{
    match parse_i64(s) {
        Some(v) => if -0x8000_0000i64 <= v && v <= 0x7fff_ffffi64 {
            Some(v as i32)
        } else {
            None
        },
        None => None,
    }
}

/// What is left after keeping the digits: digits only, no more characters
/// than before, and nothing at all where the text held no digit.
pub proof fn lemma_digits(s: Seq<char>)
    ensures
        all_digits(digits(s)),
        digits(s).len() <= s.len(),
        (forall|i: int| 0 <= i < s.len() ==> !is_digit(s[i])) ==> digits(s) == Seq::<char>::empty(),
{
    s.lemma_filter_len(digit());
    assert forall|i: int| 0 <= i < digits(s).len() implies is_digit(#[trigger] digits(s)[i]) by {
        s.lemma_filter_pred(digit(), i);
    }
    if forall|i: int| 0 <= i < s.len() ==> !is_digit(s[i]) {
        assert(s.all(|x: char| !digit()(x)));
        s.lemma_all_neg_filter_empty(digit());
        assert(digits(s) =~= Seq::<char>::empty());
    }
}

/// The character of a decimal digit.
pub open spec fn digit_char(d: int) -> char {
    ((d + 48) as u8) as char
}

/// The decimal digits of a natural number, most significant first and
/// without leading zeros.
pub open spec fn decimal_digits(n: nat) -> Seq<char>
    decreases n,
{
    if n < 10 {
        seq![digit_char(n as int)]
    } else {
        decimal_digits(n / 10).push(digit_char((n % 10) as int))
    }
}

/// The decimal notation of an integer: a minus sign before the digits of a
/// negative number.
pub open spec fn decimal_text(n: int) -> Seq<char> {
    if n < 0 {
        seq!['-'] + decimal_digits((-n) as nat)
    } else {
        decimal_digits(n as nat)
    }
}

proof fn lemma_digit_char(d: int)
    requires
        0 <= d < 10,
    ensures
        is_digit(digit_char(d)),
        digit_value(digit_char(d)) == d,
{
    let c = digit_char(d);
    assert(c as u32 == d + 48);
    assert('0' as u32 == 48);
    assert('9' as u32 == 57);
}

/// The digits of a number write that number.
pub proof fn lemma_decimal_digits_value(n: nat)
    ensures
        is_number(decimal_digits(n)),
        decimal_value(decimal_digits(n)) == n,
    decreases n,
{
    let all = decimal_digits(n);
    if n >= 10 {
        lemma_decimal_digits_value(n / 10);
        lemma_digit_char((n % 10) as int);
        let front = decimal_digits(n / 10);
        assert(all.drop_last() =~= front);
        assert(all.last() == digit_char((n % 10) as int));
        assert forall|i: int| 0 <= i < all.len() implies is_digit(#[trigger] all[i]) by {
            if i < front.len() {
                assert(all[i] == front[i]);
            }
        }
    } else {
        lemma_digit_char(n as int);
        assert(all.drop_last() =~= Seq::<char>::empty());
        assert(decimal_value(all.drop_last()) == 0);
        assert(all.last() == digit_char(n as int));
    }
}

/// Writes a 64-bit integer in decimal notation.
pub fn decimal_string(n: i64) -> (r: String)
    ensures
        r@ == decimal_text(n as int),
{
    let magnitude: u64 = if n < 0 {
        ((-(n + 1)) as u64) + 1
    } else {
        n as u64
    };
    let mut reversed: Vec<char> = Vec::new();
    let mut rest: u64 = magnitude;
    while rest >= 10
        invariant
            decimal_digits(magnitude as nat) == decimal_digits(rest as nat) + reversed@.reverse(),
        decreases rest,
    {
        let d: u8 = (rest % 10) as u8;
        let c: char = (d + 48) as char;
        proof {
            assert(reversed@.push(c).reverse() =~= seq![c] + reversed@.reverse());
            assert(decimal_digits((rest / 10) as nat).push(c) + reversed@.reverse()
                =~= decimal_digits((rest / 10) as nat) + (seq![c] + reversed@.reverse()));
        }
        reversed.push(c);
        rest = rest / 10;
    }
    let first: char = ((rest as u8) + 48) as char;
    let mut out: Vec<char> = Vec::new();
    if n < 0 {
        out.push('-');
    }
    out.push(first);
    let ghost head = out@;
    let mut k: usize = reversed.len();
    proof {
        assert(reversed@.reverse().take(0) =~= Seq::<char>::empty());
        assert(head + Seq::<char>::empty() =~= head);
    }
    while k > 0
        invariant
            k <= reversed.len(),
            out@ == head + reversed@.reverse().take(reversed.len() - k),
        decreases k,
    {
        k -= 1;
        proof {
            let r = reversed@.reverse();
            let j = reversed.len() - k - 1;
            assert(r[j] == reversed@[k as int]);
            assert(r.take(j + 1) =~= r.take(j).push(r[j]));
            assert((head + r.take(j)).push(r[j]) =~= head + r.take(j + 1));
        }
        out.push(reversed[k]);
    }
    proof {
        let r = reversed@.reverse();
        assert(r.take(reversed.len() as int) =~= r);
        assert(decimal_digits(rest as nat) =~= seq![first]);
        if n < 0 {
            assert(head =~= seq!['-'] + seq![first]);
            assert(out@ =~= seq!['-'] + (seq![first] + r));
        } else {
            assert(head =~= seq![first]);
        }
    }
    string_of(&out)
}

} // verus!
