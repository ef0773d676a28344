//! Stable sorting: the order in which a stable sort by a key lists the
//! positions of a sequence, for text keys and for instant keys.
use vstd::prelude::*;

use crate::text::{lemma_text_lt_total, lemma_text_lt_transitive, text_lt, vec_text_lt};
use crate::time::{is_before, ts_lt, Timestamp};

verus! {

/// Position `a` comes before position `b` when its text is smaller, or the
/// texts are equal and `a` is earlier.
pub open spec fn text_before(keys: Seq<Seq<char>>, a: int, b: int) -> bool {
    text_lt(keys[a], keys[b]) || (keys[a] == keys[b] && a < b)
}

/// `p` lists every position of `keys` once, in the order of a stable sort by
/// text.
pub open spec fn is_text_order(keys: Seq<Seq<char>>, p: Seq<usize>) -> bool {
    &&& p.len() == keys.len()
    &&& forall|i: int| 0 <= i < p.len() ==> #[trigger] p[i] < keys.len()
    &&& forall|i: int, j: int|
        0 <= i < j < p.len() ==> text_before(keys, #[trigger] p[i] as int, #[trigger] p[j] as int)
}

proof fn lemma_text_before_transitive(keys: Seq<Seq<char>>, a: int, b: int, c: int)
    requires
        text_before(keys, a, b),
        text_before(keys, b, c),
    ensures
        text_before(keys, a, c),
{
    if text_lt(keys[a], keys[b]) && text_lt(keys[b], keys[c]) {
        lemma_text_lt_transitive(keys[a], keys[b], keys[c]);
    }
}

/// The positions of `keys` in stably sorted order.
pub fn text_order(keys: &Vec<Vec<char>>) -> (p: Vec<usize>)
    ensures
        is_text_order(keys@.map_values(|k: Vec<char>| k@), p@),
{
    let ghost ks = keys@.map_values(|k: Vec<char>| k@);
    let mut p: Vec<usize> = Vec::new();
    let mut i: usize = 0;
    while i < keys.len()
        invariant
            i <= keys.len(),
            ks == keys@.map_values(|k: Vec<char>| k@),
            p@.len() == i,
            forall|k: int| 0 <= k < p.len() ==> #[trigger] p@[k] < i,
            forall|a: int, b: int|
                0 <= a < b < p.len() ==> text_before(ks, #[trigger] p@[a] as int, #[trigger] p@[b] as int),
        decreases keys.len() - i,
    {
        let mut pos: usize = p.len();
        while pos > 0 && vec_text_lt(&keys[i], &keys[p[pos - 1]])
            invariant
                pos <= p.len(),
                i < keys.len(),
                p@.len() == i,
                ks == keys@.map_values(|k: Vec<char>| k@),
                forall|k: int| 0 <= k < p.len() ==> #[trigger] p@[k] < i,
                forall|k: int| pos <= k < p.len() ==> text_before(ks, i as int, #[trigger] p@[k] as int),
            decreases pos,
        {
            assert(text_before(ks, i as int, p@[pos - 1] as int));
            pos = pos - 1;
        }
        proof {
            if pos > 0 {
                let q = p@[pos - 1] as int;
                assert(!text_lt(ks[i as int], ks[q]));
                lemma_text_lt_total(ks[i as int], ks[q]);
                assert(text_before(ks, q, i as int));
            }
        }
        let ghost old_p = p@;
        p.insert(pos, i);
        proof {
            assert forall|a: int, b: int| 0 <= a < b < p@.len() implies text_before(
                ks,
                #[trigger] p@[a] as int,
                #[trigger] p@[b] as int,
            ) by {
                if b < pos {
                } else if b == pos {
                    if a < pos - 1 {
                        lemma_text_before_transitive(
                            ks,
                            old_p[a] as int,
                            old_p[pos - 1] as int,
                            i as int,
                        );
                    }
                } else if a == pos {
                } else if a < pos {
                    assert(p@[b] == old_p[b - 1]);
                } else {
                    assert(p@[a] == old_p[a - 1]);
                    assert(p@[b] == old_p[b - 1]);
                }
            }
        }
        i = i + 1;
    }
    p
}

/// The order of a stable sort by instant, ascending or (with `desc`)
/// descending.
pub open spec fn ts_before(keys: Seq<Timestamp>, desc: bool, a: int, b: int) -> bool {
    (if desc {
        ts_lt(keys[b], keys[a])
    } else {
        ts_lt(keys[a], keys[b])
    }) || (keys[a] == keys[b] && a < b)
}

/// `p` lists every position of `keys` once, in the order of a stable sort by
/// instant.
pub open spec fn is_ts_order(keys: Seq<Timestamp>, desc: bool, p: Seq<usize>) -> bool {
    &&& p.len() == keys.len()
    &&& forall|i: int| 0 <= i < p.len() ==> #[trigger] p[i] < keys.len()
    &&& forall|i: int, j: int|
        0 <= i < j < p.len() ==> ts_before(keys, desc, #[trigger] p[i] as int, #[trigger] p[j] as int)
}

/// `x` is strictly ahead of `y` in the sort direction.
fn sorts_before(x: Timestamp, y: Timestamp, desc: bool) -> (r: bool)
    ensures
        r == if desc {
            ts_lt(y, x)
        } else {
            ts_lt(x, y)
        },
{
    if desc {
        is_before(y, x)
    } else {
        is_before(x, y)
    }
}

/// The positions of `keys` in stably sorted order by instant.
pub fn ts_order(keys: &Vec<Timestamp>, desc: bool) -> (p: Vec<usize>)
    ensures
        is_ts_order(keys@, desc, p@),
{
    let mut p: Vec<usize> = Vec::new();
    let mut i: usize = 0;
    while i < keys.len()
        invariant
            i <= keys.len(),
            p@.len() == i,
            forall|k: int| 0 <= k < p.len() ==> #[trigger] p@[k] < i,
            forall|a: int, b: int|
                0 <= a < b < p.len() ==> ts_before(keys@, desc, #[trigger] p@[a] as int, #[trigger] p@[b] as int),
        decreases keys.len() - i,
    {
        let mut pos: usize = p.len();
        while pos > 0 && sorts_before(keys[i], keys[p[pos - 1]], desc)
            invariant
                pos <= p.len(),
                i < keys.len(),
                p@.len() == i,
                forall|k: int| 0 <= k < p.len() ==> #[trigger] p@[k] < i,
                forall|k: int| pos <= k < p.len() ==> ts_before(keys@, desc, i as int, #[trigger] p@[k] as int),
            decreases pos,
        {
            pos = pos - 1;
        }
        let ghost old_p = p@;
        p.insert(pos, i);
        proof {
            assert forall|a: int, b: int| 0 <= a < b < p@.len() implies ts_before(
                keys@,
                desc,
                #[trigger] p@[a] as int,
                #[trigger] p@[b] as int,
            ) by {
                if b < pos {
                } else if b == pos {
                } else if a == pos {
                } else if a < pos {
                    assert(p@[b] == old_p[b - 1]);
                } else {
                    assert(p@[a] == old_p[a - 1]);
                    assert(p@[b] == old_p[b - 1]);
                }
            }
        }
        i = i + 1;
    }
    p
}

} // verus!
