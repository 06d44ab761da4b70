//! Listing things by name: the order of texts by code point, and a stable
//! sort that yields positions rather than moving the items.
use crate::text::{rows, text_less, text_lt};
use vstd::prelude::*;

verus! {

/// The order of texts is transitive.
pub proof fn lemma_text_less_transitive(a: Seq<char>, b: Seq<char>, c: Seq<char>)
    requires
        text_less(a, b),
        text_less(b, c),
    ensures
        text_less(a, c),
    decreases a.len(),
{
    if a.len() > 0 && b.len() > 0 && c.len() > 0 {
        if a[0] == b[0] && b[0] == c[0] {
            lemma_text_less_transitive(a.drop_first(), b.drop_first(), c.drop_first());
        }
    }
}

/// No text comes before itself.
pub proof fn lemma_text_less_irreflexive(a: Seq<char>)
    ensures
        !text_less(a, a),
    decreases a.len(),
{
    if a.len() > 0 {
        lemma_text_less_irreflexive(a.drop_first());
    }
}

/// Of two different texts one comes before the other.
pub proof fn lemma_text_less_total(a: Seq<char>, b: Seq<char>)
    ensures
        a == b || text_less(a, b) || text_less(b, a),
    decreases a.len(),
{
    if a.len() > 0 && b.len() > 0 {
        if a[0] == b[0] {
            lemma_text_less_total(a.drop_first(), b.drop_first());
            if a.drop_first() == b.drop_first() {
                assert(a =~= seq![a[0]] + a.drop_first());
                assert(b =~= seq![b[0]] + b.drop_first());
            }
        }
    } else if a.len() == 0 && b.len() == 0 {
        assert(a =~= b);
    }
}

/// `order` lists every position below `n` exactly once.
pub open spec fn is_arrangement(order: Seq<usize>, n: int) -> bool {
    &&& order.len() == n
    &&& forall|k: int| 0 <= k < order.len() ==> (#[trigger] order[k]) < n
    &&& forall|a: int, b: int|
        #![trigger order[a], order[b]]
        0 <= a < b < order.len() ==> order[a] != order[b]
}

/// Taken in this order the names never go down, and equal names keep the
/// order in which they stand.
pub open spec fn ascending(names: Seq<Seq<char>>, order: Seq<usize>) -> bool {
    forall|a: int, b: int|
        #![trigger order[a], order[b]]
        0 <= a < b < order.len() ==> {
            &&& !text_less(names[order[b] as int], names[order[a] as int])
            &&& names[order[a] as int] == names[order[b] as int] ==> order[a] < order[b]
        }
}

/// The positions of `names` in ascending order of the names.
pub fn sorted_order(names: &Vec<Vec<char>>) -> (order: Vec<usize>)
    ensures
        is_arrangement(order@, names@.len() as int),
        ascending(rows(names@), order@),
{
    let ghost texts = rows(names@);
    let mut order: Vec<usize> = Vec::new();
    let mut k: usize = 0;
    while k < names.len()
        invariant
            k <= names.len(),
            texts == rows(names@),
            is_arrangement(order@, k as int),
            ascending(texts, order@),
        decreases names.len() - k,
    {
        let mut pos: usize = 0;
        while pos < order.len() && !text_lt(&names[k], &names[order[pos]])
            invariant
                pos <= order.len(),
                k < names.len(),
                texts == rows(names@),
                is_arrangement(order@, k as int),
                forall|i: int|
                    0 <= i < pos ==> !text_less(texts[k as int], texts[#[trigger] order@[i] as int]),
            decreases order.len() - pos,
        {
            pos += 1;
        }
        let ghost before = order@;
        assert(pos < before.len() ==> text_less(texts[k as int], texts[before[pos as int] as int]));
        order.insert(pos, k);
        proof {
            let after = order@;
            assert(after == before.insert(pos as int, k));
            assert forall|a: int, b: int|
                #![trigger after[a], after[b]]
                0 <= a < b < after.len() implies {
                &&& after[a] != after[b]
                &&& !text_less(texts[after[b] as int], texts[after[a] as int])
                &&& texts[after[a] as int] == texts[after[b] as int] ==> after[a] < after[b]
            } by {
                let x = texts[k as int];
                assert(after.len() == before.len() + 1);
                assert(after[pos as int] == k);
                if b == pos {
                    assert(after[a] == before[a]);
                    assert(after[b] == k);
                    assert(before[a] < k);
                    assert(!text_less(x, texts[before[a] as int]));
                } else if a == pos {
                    assert(after[a] == k);
                    assert(after[b] == before[b - 1]);
                    assert(before[b - 1] < k);
                    let p = texts[before[pos as int] as int];
                    let q = texts[before[b - 1] as int];
                    assert(text_less(x, p));
                    lemma_text_less_irreflexive(p);
                    if b - 1 > pos {
                        assert(!text_less(q, p));
                    } else {
                        assert(q == p);
                    }
                    if text_less(q, x) {
                        lemma_text_less_transitive(q, x, p);
                    }
                    assert(q != x);
                } else {
                    let a0 = if a < pos {
                        a
                    } else {
                        a - 1
                    };
                    let b0 = if b < pos {
                        b
                    } else {
                        b - 1
                    };
                    assert(after[a] == before[a0] && after[b] == before[b0]);
                    assert(a0 < b0);
                }
            }
            assert forall|i: int| 0 <= i < after.len() implies (#[trigger] after[i]) < k + 1 by {
                if i < pos {
                    assert(after[i] == before[i]);
                } else if i > pos {
                    assert(after[i] == before[i - 1]);
                }
            }
        }
        k += 1;
    }
    order
}

} // verus!
