//! Stable descending orderings: the ranking of groups by credits and the
//! newest-first order of the recent feed.
//!
//! An ordering is computed over keys of type `Option<i128>`, where an absent
//! key sorts below every present one (as `None < Some(_)` in Rust). Equal
//! keys keep their input order, so the result is the stable descending sort
//! of the input, cut to a length limit.

use vstd::prelude::*;

verus! {

/// Key `a` sorts strictly above key `b`.
pub open spec fn key_above(a: Option<i128>, b: Option<i128>) -> bool {
    match (a, b) {
        (Some(x), Some(y)) => x > y,
        (Some(_), None) => true,
        _ => false,
    }
}

/// In the stable descending order of `keys`, position `i` comes before `j`.
pub open spec fn ranks_before(keys: Seq<Option<i128>>, i: int, j: int) -> bool {
    key_above(keys[i], keys[j]) || (keys[i] == keys[j] && i < j)
}

/// `order` lists the first `limit` positions of `keys` in the stable
/// descending order: every listed position comes before every later listed
/// one and before every position left out.
pub open spec fn is_top_order(keys: Seq<Option<i128>>, limit: nat, order: Seq<usize>) -> bool {
    &&& order.len() == if limit < keys.len() { limit } else { keys.len() }
    &&& forall|a: int| 0 <= a < order.len() ==> order[a] < keys.len()
    &&& forall|a: int, b: int|
        0 <= a < b < order.len() ==> ranks_before(keys, #[trigger] order[a] as int, #[trigger] order[b] as int)
    &&& forall|a: int, j: int|
        0 <= a < order.len() && 0 <= j < keys.len() && !order.contains(j as usize)
            ==> #[trigger] ranks_before(keys, order[a] as int, j)
}

proof fn lemma_ranks_before_transitive(keys: Seq<Option<i128>>, i: int, j: int, k: int)
    requires
        ranks_before(keys, i, j),
        ranks_before(keys, j, k),
    ensures
        ranks_before(keys, i, k),
{
}

proof fn lemma_ranks_before_total(keys: Seq<Option<i128>>, i: int, j: int)
    requires
        i != j,
    ensures
        ranks_before(keys, i, j) || ranks_before(keys, j, i),
{
}

fn ranks_before_exec(keys: &Vec<Option<i128>>, i: usize, j: usize) -> (res: bool)
    requires
        i < keys.len(),
        j < keys.len(),
    ensures
        res == ranks_before(keys@, i as int, j as int),
{
    match (keys[i], keys[j]) {
        (Some(x), Some(y)) => x > y || (x == y && i < j),
        (Some(_), None) => true,
        (None, Some(_)) => false,
        (None, None) => i < j,
    }
}

/// The first `limit` positions of `keys` in stable descending key order.
pub fn top_order(keys: &Vec<Option<i128>>, limit: usize) -> (order: Vec<usize>)
    ensures
        is_top_order(keys@, limit as nat, order@),
{
    let n = keys.len();
    let mut sorted: Vec<usize> = Vec::new();
    let mut j: usize = 0;
    while j < n
        invariant
            n == keys.len(),
            j <= n,
            sorted.len() == j,
            forall|a: int| 0 <= a < sorted.len() ==> sorted[a] < j,
            forall|x: int| 0 <= x < j ==> #[trigger] sorted@.contains(x as usize),
            forall|a: int, b: int|
                0 <= a < b < sorted.len() ==> ranks_before(
                    keys@,
                    #[trigger] sorted[a] as int,
                    #[trigger] sorted[b] as int,
                ),
        decreases n - j,
    {
        // Find the first position whose entry `j` comes before.
        let mut p: usize = 0;
        while p < sorted.len() && !ranks_before_exec(keys, j, sorted[p])
            invariant
                n == keys.len(),
                j < n,
                p <= sorted.len(),
                forall|a: int| 0 <= a < sorted.len() ==> sorted[a] < j,
                forall|a: int| 0 <= a < p ==> !ranks_before(keys@, j as int, #[trigger] sorted[a] as int),
            decreases sorted.len() - p,
        {
            p = p + 1;
        }
        let ghost old_sorted = sorted@;
        sorted.insert(p, j);
        proof {
            assert forall|a: int, b: int|
                0 <= a < b < sorted.len() implies ranks_before(
                keys@,
                #[trigger] sorted[a] as int,
                #[trigger] sorted[b] as int,
            ) by {
                if b == p {
                    // a < p: j does not come before sorted[a], and they differ.
                    assert(old_sorted[a] < j);
                    lemma_ranks_before_total(keys@, j as int, old_sorted[a] as int);
                } else if a == p {
                    // b > p: j comes before old_sorted[p] which comes before old_sorted[b - 1].
                    if b - 1 > p {
                        lemma_ranks_before_transitive(
                            keys@,
                            j as int,
                            old_sorted[p as int] as int,
                            old_sorted[b - 1] as int,
                        );
                    }
                } else {
                    let oa = if a < p { a } else { a - 1 };
                    let ob = if b < p { b } else { b - 1 };
                    assert(sorted[a] == old_sorted[oa]);
                    assert(sorted[b] == old_sorted[ob]);
                }
            }
            assert forall|x: int| 0 <= x < j + 1 implies #[trigger] sorted@.contains(x as usize) by {
                if x == j {
                    assert(sorted[p as int] == j);
                } else {
                    assert(old_sorted.contains(x as usize));
                    let k = choose|k: int| 0 <= k < old_sorted.len() && old_sorted[k] == x as usize;
                    if k < p {
                        assert(sorted[k] == x as usize);
                    } else {
                        assert(sorted[k + 1] == x as usize);
                    }
                }
            }
        }
        j = j + 1;
    }
    let ghost full = sorted@;
    if limit < sorted.len() {
        sorted.truncate(limit);
    }
    proof {
        assert(sorted@ == full.take(sorted@.len() as int));
        assert forall|a: int, x: int|
            0 <= a < sorted.len() && 0 <= x < keys.len() && !sorted@.contains(
                x as usize,
            ) implies #[trigger] ranks_before(keys@, sorted[a] as int, x) by {
            assert(full.contains(x as usize));
            let k = choose|k: int| 0 <= k < full.len() && full[k] == x as usize;
            if k < sorted.len() {
                assert(sorted[k] == x as usize);
            }
            assert(ranks_before(keys@, full[a] as int, full[k] as int));
        }
    }
    sorted
}

/// An order-preserving integer key for the bit pattern of an IEEE 754
/// double: larger numbers get larger keys, and `-0.0` gets the key of `0.0`.
pub open spec fn credit_order_key_spec(bits: u64) -> u64 {
    if bits == 0x8000_0000_0000_0000u64 {
        0x8000_0000_0000_0000u64
    } else if bits >= 0x8000_0000_0000_0000u64 {
        !bits
    } else {
        (bits + 0x8000_0000_0000_0000u64) as u64
    }
}

/// The ordering key of a credit amount, given the bit pattern of its
/// double-precision value (as `f64::to_bits` gives it).
pub fn credit_order_key(bits: u64) -> (key: u64)
    ensures
        key == credit_order_key_spec(bits),
{
    if bits == 0x8000_0000_0000_0000u64 {
        0x8000_0000_0000_0000u64
    } else if bits >= 0x8000_0000_0000_0000u64 {
        !bits
    } else {
        bits + 0x8000_0000_0000_0000u64
    }
}

/// The ranking keys of groups with the given credit keys.
pub open spec fn present_keys(keys: Seq<u64>) -> Seq<Option<i128>> {
    keys.map_values(|k: u64| Some(k as i128))
}

/// Ranks groups by their credit keys, highest first, ties in input order, and
/// keeps the first `top_n`: the positions of the kept groups, in rank order.
pub fn rank_groups(credit_keys: &Vec<u64>, top_n: usize) -> (order: Vec<usize>)
    ensures
        is_top_order(present_keys(credit_keys@), top_n as nat, order@),
        forall|a: int, b: int|
            0 <= a < b < order@.len() ==> credit_keys@[#[trigger] order@[a] as int]
                > credit_keys@[#[trigger] order@[b] as int] || (credit_keys@[order@[a] as int]
                == credit_keys@[order@[b] as int] && order@[a] < order@[b]),
        forall|a: int, j: int|
            0 <= a < order@.len() && 0 <= j < credit_keys@.len() && !order@.contains(j as usize)
                ==> credit_keys@[#[trigger] order@[a] as int] > #[trigger] credit_keys@[j] || (
            credit_keys@[order@[a] as int] == credit_keys@[j] && order@[a] < j),
{
    let mut keys: Vec<Option<i128>> = Vec::new();
    let mut i: usize = 0;
    while i < credit_keys.len()
        invariant
            i <= credit_keys.len(),
            keys@ == present_keys(credit_keys@).take(i as int),
        decreases credit_keys.len() - i,
    {
        keys.push(Some(credit_keys[i] as i128));
        i = i + 1;
        assert(keys@ =~= present_keys(credit_keys@).take(i as int));
    }
    assert(keys@ =~= present_keys(credit_keys@));
    let order = top_order(&keys, top_n);
    proof {
        crate::laws::law_ranking_follows_credit_keys(credit_keys@, top_n as nat, order@);
    }
    order
}

} // verus!
