//! A stable order of positions by their keys.
use vstd::prelude::*;

verus! {

/// Whether position `a` comes before position `b`: by key, and among equal
/// keys by position.
pub open spec fn comes_before(keys: Seq<u128>, a: int, b: int) -> bool {
    keys[a] < keys[b] || (keys[a] == keys[b] && a < b)
}

/// Whether `positions` stands in the order of `comes_before`.
pub open spec fn in_order(keys: Seq<u128>, positions: Seq<usize>) -> bool {
    forall|i: int, j: int|
        0 <= i < j < positions.len() ==> comes_before(
            keys,
            #[trigger] positions[i] as int,
            #[trigger] positions[j] as int,
        )
}

/// Whether `positions` holds every number from `lo` up to `hi` and no other.
pub open spec fn covers(positions: Seq<usize>, lo: int, hi: int) -> bool {
    &&& positions.len() == hi - lo
    &&& forall|i: int| 0 <= i < positions.len() ==> lo <= #[trigger] positions[i] < hi
    &&& forall|k: usize| lo <= k < hi ==> #[trigger] positions.contains(k)
}

/// Merges two ordered rows of positions into one.
fn merge(
    keys: &Vec<u128>,
    left: &Vec<usize>,
    right: &Vec<usize>,
    lo: usize,
    mid: usize,
    hi: usize,
) -> (out: Vec<usize>)
    requires
        lo <= mid <= hi <= keys.len(),
        covers(left@, lo as int, mid as int),
        covers(right@, mid as int, hi as int),
        in_order(keys@, left@),
        in_order(keys@, right@),
    ensures
        covers(out@, lo as int, hi as int),
        in_order(keys@, out@),
{
    let mut out: Vec<usize> = Vec::new();
    let mut i: usize = 0;
    let mut j: usize = 0;
    while i < left.len() || j < right.len()
        invariant
            lo <= mid <= hi <= keys.len(),
            covers(left@, lo as int, mid as int),
            covers(right@, mid as int, hi as int),
            in_order(keys@, left@),
            in_order(keys@, right@),
            i <= left.len(),
            j <= right.len(),
            out.len() == i + j,
            in_order(keys@, out@),
            forall|k: int| 0 <= k < out.len() ==> lo <= #[trigger] out[k] < hi,
            forall|k: int|
                0 <= k < out.len() && i < left.len() ==> comes_before(
                    keys@,
                    #[trigger] out[k] as int,
                    left[i as int] as int,
                ),
            forall|k: int|
                0 <= k < out.len() && j < right.len() ==> comes_before(
                    keys@,
                    #[trigger] out[k] as int,
                    right[j as int] as int,
                ),
            forall|k: int| 0 <= k < i ==> out@.contains(#[trigger] left[k]),
            forall|k: int| 0 <= k < j ==> out@.contains(#[trigger] right[k]),
        decreases left.len() - i + right.len() - j,
    {
        let from_left: bool = if i == left.len() {
            false
        } else if j == right.len() {
            true
        } else {
            keys[left[i]] <= keys[right[j]]
        };
        let ghost before = out@;
        if from_left {
            out.push(left[i]);
            i += 1;
            assert(out@[out@.len() - 1] == left[i - 1]);
        } else {
            out.push(right[j]);
            j += 1;
            assert(out@[out@.len() - 1] == right[j - 1]);
        }
        assert forall|x: usize| before.contains(x) implies #[trigger] out@.contains(x) by {
            let k = choose|k: int| 0 <= k < before.len() && before[k] == x;
            assert(out@[k] == x);
        }
    }
    assert forall|k: usize| lo <= k < hi implies #[trigger] out@.contains(k) by {
        if k < mid {
            assert(left@.contains(k));
            let p = choose|p: int| 0 <= p < left@.len() && left@[p] == k;
            assert(out@.contains(left[p]));
        } else {
            assert(right@.contains(k));
            let p = choose|p: int| 0 <= p < right@.len() && right@[p] == k;
            assert(out@.contains(right[p]));
        }
    }
    out
}

/// The positions from `lo` up to `hi` in order.
fn order_between(keys: &Vec<u128>, lo: usize, hi: usize) -> (out: Vec<usize>)
    requires
        lo <= hi <= keys.len(),
    ensures
        covers(out@, lo as int, hi as int),
        in_order(keys@, out@),
    decreases hi - lo,
{
    if hi - lo <= 1 {
        let mut out: Vec<usize> = Vec::new();
        if lo < hi {
            out.push(lo);
            assert(out@[0] == lo);
        }
        out
    } else {
        let mid: usize = lo + (hi - lo) / 2;
        let left: Vec<usize> = order_between(keys, lo, mid);
        let right: Vec<usize> = order_between(keys, mid, hi);
        merge(keys, &left, &right, lo, mid, hi)
    }
}

/// All positions of `keys`, ascending by key; among equal keys the earlier
/// position comes first.
pub fn ascending_order(keys: &Vec<u128>) -> (out: Vec<usize>)
    ensures
        covers(out@, 0, keys.len() as int),
        in_order(keys@, out@),
{
    order_between(keys, 0, keys.len())
}

/// Positions in ascending order: each is named once, the keys never fall, and
/// positions of one key keep their order.
pub proof fn law_order_is_sorted_and_complete(keys: Seq<u128>, positions: Seq<usize>)
    requires
        keys.len() <= usize::MAX,
        covers(positions, 0, keys.len() as int),
        in_order(keys, positions),
    ensures
        positions.len() == keys.len(),
        forall|i: int| 0 <= i < positions.len() ==> 0 <= #[trigger] positions[i] < keys.len(),
        forall|i: int, j: int|
            0 <= i < j < positions.len() ==> {
                &&& #[trigger] positions[i] != #[trigger] positions[j]
                &&& keys[positions[i] as int] <= keys[positions[j] as int]
                &&& keys[positions[i] as int] == keys[positions[j] as int] ==> positions[i]
                    < positions[j]
            },
        forall|k: usize| k < keys.len() ==> #[trigger] positions.contains(k),
{
    assert forall|i: int, j: int| 0 <= i < j < positions.len() implies {
        &&& #[trigger] positions[i] != #[trigger] positions[j]
        &&& keys[positions[i] as int] <= keys[positions[j] as int]
        &&& keys[positions[i] as int] == keys[positions[j] as int] ==> positions[i] < positions[j]
    } by {
        assert(comes_before(keys, positions[i] as int, positions[j] as int));
    }
}

} // verus!
