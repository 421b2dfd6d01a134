//! The order of texts, character by character, and the stable sorting of
//! records by a text they hold.

use crate::text::chars_of;
use vstd::prelude::*;

verus! {

/// `a` is `b` or comes before it: at the first position where they differ
/// `a` has the smaller character, or `a` ends first.
pub open spec fn text_le(a: Seq<char>, b: Seq<char>) -> bool
    decreases a.len(),
{
    if a.len() == 0 {
        true
    } else if b.len() == 0 {
        false
    } else if a[0] != b[0] {
        a[0] < b[0]
    } else {
        text_le(a.drop_first(), b.drop_first())
    }
}

/// Every text is itself or before itself.
pub proof fn lemma_text_le_reflexive(a: Seq<char>)
    ensures
        text_le(a, a),
    decreases a.len(),
{
    if a.len() > 0 {
        lemma_text_le_reflexive(a.drop_first());
    }
}

/// Of two texts one is the other or comes before it.
pub proof fn lemma_text_le_total(a: Seq<char>, b: Seq<char>)
    ensures
        text_le(a, b) || text_le(b, a),
    decreases a.len(),
{
    if a.len() > 0 && b.len() > 0 && a[0] == b[0] {
        lemma_text_le_total(a.drop_first(), b.drop_first());
    }
}

/// Two texts that come before each other are one text.
pub proof fn lemma_text_le_antisymmetric(a: Seq<char>, b: Seq<char>)
    requires
        text_le(a, b),
        text_le(b, a),
    ensures
        a == b,
    decreases a.len(),
{
    if a.len() > 0 {
        lemma_text_le_antisymmetric(a.drop_first(), b.drop_first());
        assert(a =~= seq![a[0]] + a.drop_first());
        assert(b =~= seq![b[0]] + b.drop_first());
    } else {
        assert(a =~= b);
    }
}

/// The order of texts is transitive.
pub proof fn lemma_text_le_transitive(a: Seq<char>, b: Seq<char>, c: Seq<char>)
    requires
        text_le(a, b),
        text_le(b, c),
    ensures
        text_le(a, c),
    decreases a.len(),
{
    if a.len() > 0 && a[0] == b[0] && b[0] == c[0] {
        lemma_text_le_transitive(a.drop_first(), b.drop_first(), c.drop_first());
    }
}

/// Tells whether `a` is `b` or comes before it.
pub fn precedes(a: &Vec<char>, b: &Vec<char>) -> (r: bool)
    ensures
        r == text_le(a@, b@),
{
    let mut i: usize = 0;
    proof {
        assert(a@.skip(0) =~= a@);
        assert(b@.skip(0) =~= b@);
    }
    loop
        invariant
            i <= a.len(),
            i <= b.len(),
            text_le(a@, b@) == text_le(a@.skip(i as int), b@.skip(i as int)),
        decreases a.len() - i,
    {
        if i == a.len() {
            return true;
        }
        if i == b.len() {
            return false;
        }
        proof {
            assert(a@.skip(i as int)[0] == a@[i as int]);
            assert(b@.skip(i as int)[0] == b@[i as int]);
            assert(a@.skip(i as int).drop_first() =~= a@.skip(i + 1));
            assert(b@.skip(i as int).drop_first() =~= b@.skip(i + 1));
        }
        if a[i] != b[i] {
            return a[i] < b[i];
        }
        i += 1;
    }
}

/// Position `i` comes before position `j` in the order by key: its key
/// comes first, or the keys are the same and `i` is the smaller position.
pub open spec fn position_before(keys: Seq<Seq<char>>, i: int, j: int) -> bool {
    if keys[i] == keys[j] {
        i < j
    } else {
        text_le(keys[i], keys[j])
    }
}

/// `order` lists positions of `keys` in ascending order by key, positions
/// with the same key in ascending order.
pub open spec fn ascending(keys: Seq<Seq<char>>, order: Seq<usize>) -> bool {
    &&& forall|k: int| 0 <= k < order.len() ==> (#[trigger] order[k]) < keys.len()
    &&& forall|a: int, b: int|
        0 <= a < b < order.len() ==> position_before(
            keys,
            (#[trigger] order[a]) as int,
            (#[trigger] order[b]) as int,
        )
}

/// `order` is the stable sorting of `keys`: it lists every position once,
/// ascending by key, and positions with the same key as they stand.
pub open spec fn stable_order(keys: Seq<Seq<char>>, order: Seq<usize>) -> bool {
    &&& order.len() == keys.len()
    &&& ascending(keys, order)
    &&& forall|p: usize| p < keys.len() ==> order.contains(p)
}

proof fn lemma_position_before_transitive(keys: Seq<Seq<char>>, i: int, j: int, k: int)
    requires
        position_before(keys, i, j),
        position_before(keys, j, k),
    ensures
        position_before(keys, i, k),
{
    if keys[i] == keys[j] {
    } else if keys[j] == keys[k] {
    } else {
        lemma_text_le_transitive(keys[i], keys[j], keys[k]);
        if keys[i] == keys[k] {
            lemma_text_le_antisymmetric(keys[i], keys[j]);
        }
    }
}

/// The texts of a sequence of character vectors.
pub open spec fn key_texts(keys: Seq<Vec<char>>) -> Seq<Seq<char>> {
    keys.map_values(|k: Vec<char>| k@)
}

/// Sorts the positions of `keys` by key. The sorting is stable.
pub fn sorted_positions(keys: &Vec<Vec<char>>) -> (order: Vec<usize>)
    ensures
        stable_order(key_texts(keys@), order@),
{
    let ghost ks = key_texts(keys@);
    let mut order: Vec<usize> = Vec::new();
    let mut i: usize = 0;
    while i < keys.len()
        invariant
            i <= keys.len(),
            ks == key_texts(keys@),
            order@.len() == i,
            ascending(ks, order@),
            forall|k: int| 0 <= k < order@.len() ==> (#[trigger] order@[k]) < i,
            forall|p: usize| p < i ==> order@.contains(p),
        decreases keys.len() - i,
    {
        let mut p: usize = order.len();
        while p > 0 && !precedes(&keys[order[p - 1]], &keys[i])
            invariant
                p <= order@.len() == i < keys.len(),
                ks == key_texts(keys@),
                forall|k: int| 0 <= k < order@.len() ==> (#[trigger] order@[k]) < i,
                forall|b: int|
                    p <= b < order@.len() ==> !text_le(
                        ks[(#[trigger] order@[b]) as int],
                        ks[i as int],
                    ),
            decreases p,
        {
            proof {
                assert(ks[order@[p - 1] as int] == keys@[order@[p - 1] as int]@);
                assert(ks[i as int] == keys@[i as int]@);
            }
            p -= 1;
        }
        let ghost before = order@;
        proof {
            if p > 0 {
                assert(ks[before[p - 1] as int] == keys@[before[p - 1] as int]@);
                assert(ks[i as int] == keys@[i as int]@);
            }
        }
        order.insert(p, i);
        proof {
            let after = order@;
            assert forall|a: int, b: int| 0 <= a < b < after.len() implies position_before(
                ks,
                (#[trigger] after[a]) as int,
                (#[trigger] after[b]) as int,
            ) by {
                if b < p {
                    assert(after[a] == before[a] && after[b] == before[b]);
                } else if b == p {
                    assert(after[a] == before[a]);
                    assert(position_before(ks, before[p - 1] as int, i as int));
                    if a < p - 1 {
                        assert(position_before(ks, before[a] as int, before[p - 1] as int));
                        lemma_position_before_transitive(
                            ks,
                            before[a] as int,
                            before[p - 1] as int,
                            i as int,
                        );
                    }
                } else if a == p {
                    assert(after[b] == before[b - 1]);
                    lemma_text_le_total(ks[before[b - 1] as int], ks[i as int]);
                    lemma_text_le_reflexive(ks[i as int]);
                } else if a < p {
                    assert(after[a] == before[a] && after[b] == before[b - 1]);
                } else {
                    assert(after[a] == before[a - 1] && after[b] == before[b - 1]);
                }
            }
            assert forall|k: int| 0 <= k < after.len() implies (#[trigger] after[k]) < i + 1 by {
                if k < p {
                    assert(after[k] == before[k]);
                } else if k > p {
                    assert(after[k] == before[k - 1]);
                }
            }
            assert forall|q: usize| q < i + 1 implies after.contains(q) by {
                if q == i {
                    assert(after[p as int] == i);
                } else {
                    assert(before.contains(q));
                    let k = choose|k: int| 0 <= k < before.len() && before[k] == q;
                    if k < p {
                        assert(after[k] == before[k]);
                    } else {
                        assert(after[k + 1] == before[k]);
                    }
                }
            }
        }
        i += 1;
    }
    order
}

/// A record that is put in order by a text it holds.
pub trait SortKey {
    /// The text by which the record is ordered.
    spec fn key_text(&self) -> Seq<char>;

    /// Hands out the text by which the record is ordered.
    fn sort_key(&self) -> (r: &str)
        ensures
            r@ == self.key_text(),
    ;
}

/// The keys of a sequence of records.
pub open spec fn keys_of<T: SortKey>(items: Seq<T>) -> Seq<Seq<char>> {
    items.map_values(|t: T| t.key_text())
}

/// Sorts the positions of `items` by key. The sorting is stable.
pub fn sorted_by_key<T: SortKey>(items: &Vec<T>) -> (order: Vec<usize>)
    ensures
        stable_order(keys_of(items@), order@),
{
    let mut keys: Vec<Vec<char>> = Vec::new();
    let mut i: usize = 0;
    while i < items.len()
        invariant
            i <= items.len(),
            keys@.len() == i,
            forall|j: int| 0 <= j < i ==> (#[trigger] keys@[j])@ == items@[j].key_text(),
        decreases items.len() - i,
    {
        keys.push(chars_of(items[i].sort_key()));
        i += 1;
    }
    proof {
        assert(key_texts(keys@) =~= keys_of(items@));
    }
    sorted_positions(&keys)
}

} // verus!
