//! Unpacking the values of a canonical chance card for a card that is
//! isomorphic to it.
//!
//! Two cards that differ only by a permutation of the suits lead to the same
//! values with the hands renamed. The renaming is kept as a swap list: pairs
//! of hand indices whose entries change places.

use vstd::prelude::*;

verus! {

/// Whether both indices of every pair of `swaps` are below `len`.
pub open spec fn in_range(swaps: Seq<(usize, usize)>, len: int) -> bool {
    forall|k: int| 0 <= k < swaps.len() ==> (#[trigger] swaps[k]).0 < len && swaps[k].1 < len
}

/// Whether no index occurs in two pairs of `swaps`.
pub open spec fn disjoint(swaps: Seq<(usize, usize)>) -> bool {
    forall|i: int, j: int|
        0 <= i < j < swaps.len() ==> {
            let s = #[trigger] swaps[i];
            let t = #[trigger] swaps[j];
            s.0 != t.0 && s.0 != t.1 && s.1 != t.0 && s.1 != t.1
        }
}

/// The row with the two entries of the pair `s` exchanged.
pub open spec fn swapped_pair<T>(row: Seq<T>, s: (usize, usize)) -> Seq<T> {
    row.update(s.0 as int, row[s.1 as int]).update(s.1 as int, row[s.0 as int])
}

/// The row after the exchanges of `swaps`, made in order.
pub open spec fn swapped<T>(row: Seq<T>, swaps: Seq<(usize, usize)>) -> Seq<T>
    decreases swaps.len(),
{
    if swaps.len() == 0 {
        row
    } else {
        swapped_pair(swapped(row, swaps.drop_last()), swaps.last())
    }
}

/// Exchanging entries keeps the length of the row.
pub proof fn lemma_swapped_len<T>(row: Seq<T>, swaps: Seq<(usize, usize)>)
    requires
        in_range(swaps, row.len() as int),
    ensures
        swapped(row, swaps).len() == row.len(),
    decreases swaps.len(),
{
    if swaps.len() > 0 {
        let rest = swaps.drop_last();
        assert forall|k: int| 0 <= k < rest.len() implies (#[trigger] rest[k]).0 < row.len()
            && rest[k].1 < row.len() by {
            assert(rest[k] == swaps[k]);
        }
        lemma_swapped_len(row, rest);
        assert(swaps.last() == swaps[swaps.len() - 1]);
    }
}

/// An exchange of a pair that shares no index with the pairs of `swaps` can
/// be made before them or after them.
proof fn lemma_swapped_commutes<T>(row: Seq<T>, s: (usize, usize), swaps: Seq<(usize, usize)>)
    requires
        s.0 < row.len(),
        s.1 < row.len(),
        in_range(swaps, row.len() as int),
        forall|k: int|
            0 <= k < swaps.len() ==> {
                let t = #[trigger] swaps[k];
                s.0 != t.0 && s.0 != t.1 && s.1 != t.0 && s.1 != t.1
            },
    ensures
        swapped(swapped_pair(row, s), swaps) == swapped_pair(swapped(row, swaps), s),
    decreases swaps.len(),
{
    if swaps.len() > 0 {
        let rest = swaps.drop_last();
        let t = swaps.last();
        assert(t == swaps[swaps.len() - 1]);
        assert forall|k: int| 0 <= k < rest.len() implies {
            let u = #[trigger] rest[k];
            u.0 < row.len() && u.1 < row.len() && s.0 != u.0 && s.0 != u.1 && s.1 != u.0 && s.1
                != u.1
        } by {
            assert(rest[k] == swaps[k]);
        }
        lemma_swapped_commutes(row, s, rest);
        lemma_swapped_len(row, rest);
        let x = swapped(row, rest);
        assert(swapped_pair(swapped_pair(x, s), t) =~= swapped_pair(swapped_pair(x, t), s));
    }
}

/// Where no index occurs in two pairs, making the exchanges of a swap list a
/// second time gives the row back.
pub proof fn lemma_swapped_twice<T>(row: Seq<T>, swaps: Seq<(usize, usize)>)
    requires
        in_range(swaps, row.len() as int),
        disjoint(swaps),
    ensures
        swapped(swapped(row, swaps), swaps) == row,
    decreases swaps.len(),
{
    if swaps.len() > 0 {
        let rest = swaps.drop_last();
        let s = swaps.last();
        assert(s == swaps[swaps.len() - 1]);
        assert forall|k: int| 0 <= k < rest.len() implies {
            let u = #[trigger] rest[k];
            u.0 < row.len() && u.1 < row.len() && s.0 != u.0 && s.0 != u.1 && s.1 != u.0 && s.1
                != u.1
        } by {
            assert(rest[k] == swaps[k]);
        }
        assert(disjoint(rest)) by {
            assert forall|i: int, j: int| 0 <= i < j < rest.len() implies {
                let a = #[trigger] rest[i];
                let b = #[trigger] rest[j];
                a.0 != b.0 && a.0 != b.1 && a.1 != b.0 && a.1 != b.1
            } by {
                assert(rest[i] == swaps[i] && rest[j] == swaps[j]);
            }
        }
        let x = swapped(row, rest);
        lemma_swapped_len(row, rest);
        lemma_swapped_commutes(x, s, rest);
        lemma_swapped_twice(row, rest);
        lemma_swapped_len(x, rest);
        let y = swapped(x, rest);
        assert(swapped_pair(swapped_pair(y, s), s) =~= y);
    }
}

/// Whether both indices of every pair of `swaps` are below `len`, so that
/// the swap list can be applied to a row of `len` entries.
pub fn is_in_range(swaps: &Vec<(usize, usize)>, len: usize) -> (r: bool)
    ensures
        r == in_range(swaps@, len as int),
{
    let mut k: usize = 0;
    while k < swaps.len()
        invariant
            k <= swaps@.len(),
            forall|j: int| 0 <= j < k ==> (#[trigger] swaps@[j]).0 < len && swaps@[j].1 < len,
        decreases swaps@.len() - k,
    {
        let (i, j) = swaps[k];
        if i >= len || j >= len {
            return false;
        }
        k += 1;
    }
    true
}

/// Whether no index occurs in two pairs of `swaps`, so that applying the
/// swap list a second time undoes it.
pub fn is_disjoint(swaps: &Vec<(usize, usize)>, len: usize) -> (r: bool)
    requires
        in_range(swaps@, len as int),
    ensures
        r == disjoint(swaps@),
{
    let mut seen: Vec<bool> = Vec::new();
    let mut x: usize = 0;
    while x < len
        invariant
            x <= len,
            seen@.len() == x,
            forall|y: int| 0 <= y < x ==> !seen@[y],
        decreases len - x,
    {
        seen.push(false);
        x += 1;
    }
    let mut k: usize = 0;
    while k < swaps.len()
        invariant
            k <= swaps@.len(),
            in_range(swaps@, len as int),
            seen@.len() == len,
            forall|m: int|
                0 <= m < k ==> seen@[(#[trigger] swaps@[m]).0 as int] && seen@[swaps@[m].1 as int],
            forall|y: int|
                0 <= y < len && #[trigger] seen@[y] ==> exists|m: int|
                    0 <= m < k && ((#[trigger] swaps@[m]).0 == y || swaps@[m].1 == y),
            forall|a: int, b: int|
                0 <= a < b < k ==> {
                    let s = #[trigger] swaps@[a];
                    let t = #[trigger] swaps@[b];
                    s.0 != t.0 && s.0 != t.1 && s.1 != t.0 && s.1 != t.1
                },
        decreases swaps@.len() - k,
    {
        let (i, j) = swaps[k];
        if seen[i] || seen[j] {
            proof {
                let y = if seen@[i as int] {
                    i as int
                } else {
                    j as int
                };
                let m = choose|m: int|
                    0 <= m < k && ((#[trigger] swaps@[m]).0 == y || swaps@[m].1 == y);
                let s = swaps@[m];
                let t = swaps@[k as int];
                assert(!(s.0 != t.0 && s.0 != t.1 && s.1 != t.0 && s.1 != t.1));
            }
            return false;
        }
        let ghost before = seen@;
        seen.set(i, true);
        seen.set(j, true);
        proof {
            assert forall|y: int| 0 <= y < len && #[trigger] seen@[y] implies exists|m: int|
                0 <= m < k + 1 && ((#[trigger] swaps@[m]).0 == y || swaps@[m].1 == y) by {
                if y == i || y == j {
                    assert(swaps@[k as int].0 == y || swaps@[k as int].1 == y);
                } else {
                    assert(before[y]);
                    let m = choose|m: int|
                        0 <= m < k && ((#[trigger] swaps@[m]).0 == y || swaps@[m].1 == y);
                    assert(0 <= m < k + 1 && (swaps@[m].0 == y || swaps@[m].1 == y));
                }
            }
            assert forall|a: int, b: int| 0 <= a < b < k + 1 implies {
                let s = #[trigger] swaps@[a];
                let t = #[trigger] swaps@[b];
                s.0 != t.0 && s.0 != t.1 && s.1 != t.0 && s.1 != t.1
            } by {
                if b == k {
                    assert(before[swaps@[a].0 as int] && before[swaps@[a].1 as int]);
                }
            }
        }
        k += 1;
    }
    true
}

/// Exchanges the entries of `row` pair by pair, in the order of `swaps`.
pub fn apply_swaps<T: Copy>(row: &mut Vec<T>, swaps: &Vec<(usize, usize)>)
    requires
        in_range(swaps@, old(row)@.len() as int),
    ensures
        final(row)@ == swapped(old(row)@, swaps@),
{
    let ghost before = row@;
    let mut k: usize = 0;
    while k < swaps.len()
        invariant
            k <= swaps@.len(),
            in_range(swaps@, before.len() as int),
            row@.len() == before.len(),
            row@ == swapped(before, swaps@.subrange(0, k as int)),
        decreases swaps@.len() - k,
    {
        let (i, j) = swaps[k];
        let x = row[i];
        let y = row[j];
        row.set(i, y);
        row.set(j, x);
        proof {
            let done = swaps@.subrange(0, k + 1);
            assert(done.drop_last() =~= swaps@.subrange(0, k as int));
            assert(done.last() == swaps@[k as int]);
            assert(row@ =~= swapped_pair(swapped(before, done.drop_last()), done.last()));
        }
        k += 1;
    }
    assert(swaps@.subrange(0, k as int) =~= swaps@);
}

} // verus!
