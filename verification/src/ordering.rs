//! The order in which a stable sort by key visits the positions of a list.

use vstd::prelude::*;

verus! {

/// Position `a` comes before position `b`: a smaller key, or the same key and
/// an earlier position.
pub open spec fn key_before(keys: Seq<i64>, a: int, b: int) -> bool {
    keys[a] < keys[b] || (keys[a] == keys[b] && a < b)
}

/// `order` lists the positions of `keys`, each once, by increasing key and,
/// among equal keys, by position: the order that a stable sort by key gives.
pub open spec fn is_stable_order(keys: Seq<i64>, order: Seq<usize>) -> bool {
    &&& order.len() == keys.len()
    &&& forall|i: int| 0 <= i < order.len() ==> (#[trigger] order[i]) < keys.len()
    &&& forall|i: int, j: int|
        0 <= i < j < order.len() ==> key_before(keys, #[trigger] order[i] as int, #[trigger] order[j] as int)
}

/// The positions of `keys` in stable sorted order (insertion sort).
pub fn stable_order(keys: &Vec<i64>) -> (r: Vec<usize>)
    ensures
        is_stable_order(keys@, r@),
{
    let mut r: Vec<usize> = Vec::new();
    let mut i: usize = 0;
    while i < keys.len()
        invariant
            i <= keys.len(),
            r.len() == i,
            forall|k: int| 0 <= k < r.len() ==> (#[trigger] r@[k]) < i,
            forall|a: int, b: int|
                0 <= a < b < r.len() ==> key_before(keys@, #[trigger] r@[a] as int, #[trigger] r@[b] as int),
        decreases keys.len() - i,
    {
        let mut p: usize = 0;
        while p < r.len() && keys[r[p]] <= keys[i]
            invariant
                i < keys.len(),
                r.len() == i,
                p <= r.len(),
                forall|k: int| 0 <= k < r.len() ==> (#[trigger] r@[k]) < i,
                forall|k: int| 0 <= k < p ==> keys@[#[trigger] r@[k] as int] <= keys@[i as int],
            decreases r.len() - p,
        {
            p = p + 1;
        }
        let ghost old_r = r@;
        proof {
            old_r.insert_ensures(p as int, i);
            if p < old_r.len() {
                assert forall|k: int| p <= k < old_r.len() implies keys@[i as int] < keys@[#[trigger] old_r[k] as int] by {
                    if k > p {
                        assert(key_before(keys@, old_r[p as int] as int, old_r[k] as int));
                    }
                }
            }
        }
        r.insert(p, i);
        proof {
            assert forall|a: int, b: int|
                0 <= a < b < r.len() implies key_before(keys@, #[trigger] r@[a] as int, #[trigger] r@[b] as int) by {
                if b < p {
                    assert(key_before(keys@, old_r[a] as int, old_r[b] as int));
                } else if b == p {
                    assert(keys@[old_r[a] as int] <= keys@[i as int]);
                } else if a < p {
                    assert(key_before(keys@, old_r[a] as int, old_r[b - 1] as int));
                } else if a == p {
                    assert(keys@[i as int] < keys@[old_r[b - 1] as int]);
                } else {
                    assert(key_before(keys@, old_r[a - 1] as int, old_r[b - 1] as int));
                }
            }
        }
        i = i + 1;
    }
    r
}

} // verus!
