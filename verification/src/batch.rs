//! Cutting the rows of a large table into the batches that are inserted
//! one transaction at a time: full batches of `BATCH_SIZE` rows, then the
//! rest.

use vstd::prelude::*;

verus! {

/// Rows per insert batch of the `flights` table.
pub const BATCH_SIZE: usize = 2000;

/// The bounds `[start, end)` of each batch when `n` rows are cut into
/// batches of `size`, in order.
pub open spec fn batches_ok(r: Seq<(usize, usize)>, n: int, size: int) -> bool {
    &&& n == 0 <==> r.len() == 0
    &&& r.len() > 0 ==> r[0].0 == 0 && r.last().1 == n
    &&& forall|k: int| 0 <= k < r.len() ==> #[trigger] r[k].0 < r[k].1 && r[k].1 - r[k].0 <= size
    &&& forall|k: int| 0 <= k < r.len() - 1 ==> #[trigger] r[k].1 == r[k + 1].0
    &&& forall|k: int| 0 <= k < r.len() - 1 ==> #[trigger] r[k].1 - r[k].0 == size
}

/// The bounds of the batches of `n` rows: `size` rows each, the last one
/// holding what is left.
pub fn batch_ranges(n: usize, size: usize) -> (r: Vec<(usize, usize)>)
    requires
        size > 0,
    ensures
        batches_ok(r@, n as int, size as int),
        batch_total(r@) == n,
{
    let mut r: Vec<(usize, usize)> = Vec::new();
    let mut start: usize = 0;
    while start < n
        invariant
            start <= n,
            size > 0,
            r@.len() == 0 <==> start == 0,
            r@.len() > 0 ==> r@[0].0 == 0 && r@.last().1 == start,
            forall|k: int|
                0 <= k < r@.len() ==> #[trigger] r@[k].0 < r@[k].1 && r@[k].1 - r@[k].0 <= size,
            forall|k: int| 0 <= k < r@.len() - 1 ==> #[trigger] r@[k].1 == r@[k + 1].0,
            forall|k: int| 0 <= k < r@.len() - 1 ==> #[trigger] r@[k].1 - r@[k].0 == size,
            r@.len() > 0 && start < n ==> r@.last().1 - r@.last().0 == size,
        decreases n - start,
    {
        let end: usize = if n - start >= size { start + size } else { n };
        let ghost old_r = r@;
        r.push((start, end));
        assert forall|k: int| 0 <= k < r@.len() - 1 implies #[trigger] r@[k].1 == r@[k + 1].0 by {
            if k < old_r.len() - 1 {
                assert(r@[k] == old_r[k] && r@[k + 1] == old_r[k + 1]);
            }
        }
        assert forall|k: int| 0 <= k < r@.len() - 1 implies #[trigger] r@[k].1 - r@[k].0
            == size by {
            assert(r@[k] == old_r[k]);
        }
        start = end;
    }
    proof {
        law_batches_hold_every_row(r@, n as int, size as int);
    }
    r
}

/// The number of rows in the batches `r`.
pub open spec fn batch_total(r: Seq<(usize, usize)>) -> int
    decreases r.len(),
{
    if r.len() == 0 {
        0
    } else {
        batch_total(r.drop_last()) + (r.last().1 - r.last().0)
    }
}

proof fn lemma_batch_total_prefix(r: Seq<(usize, usize)>, k: int)
    requires
        1 <= k <= r.len(),
        forall|j: int| 0 <= j < r.len() - 1 ==> #[trigger] r[j].1 == r[j + 1].0,
    ensures
        batch_total(r.take(k)) == r[k - 1].1 - r[0].0,
    decreases k,
{
    if k > 1 {
        lemma_batch_total_prefix(r, k - 1);
        assert(r.take(k).drop_last() =~= r.take(k - 1));
        assert(r.take(k).last() == r[k - 1]);
        assert(r[k - 2].1 == r[k - 1].0);
        assert(batch_total(r.take(k)) == batch_total(r.take(k).drop_last()) + (r.take(k).last().1
            - r.take(k).last().0));
    } else {
        assert(r.take(1).drop_last() =~= Seq::<(usize, usize)>::empty());
        assert(r.take(1).last() == r[0]);
        assert(batch_total(r.take(1)) == batch_total(r.take(1).drop_last()) + (r.take(1).last().1
            - r.take(1).last().0));
    }
}

/// Every row is inserted exactly once: the batches of `n` rows hold `n`
/// rows in all, so the count that the loader reports is the number of rows
/// read.
pub proof fn law_batches_hold_every_row(r: Seq<(usize, usize)>, n: int, size: int)
    requires
        batches_ok(r, n, size),
    ensures
        batch_total(r) == n,
{
    if r.len() > 0 {
        lemma_batch_total_prefix(r, r.len() as int);
        assert(r.take(r.len() as int) =~= r);
    }
}

/// The full batches of `n` rows cut into batches of `size`: `size` rows
/// each, in order from the first row, leaving fewer than `size` rows out.
pub open spec fn full_batches_ok(r: Seq<(usize, usize)>, n: int, size: int) -> bool {
    &&& r.len() > 0 ==> r[0].0 == 0
    &&& forall|k: int| 0 <= k < r.len() ==> #[trigger] r[k].1 - r[k].0 == size
    &&& forall|k: int| 0 <= k < r.len() - 1 ==> #[trigger] r[k].1 == r[k + 1].0
    &&& 0 <= n - batch_total(r) < size
}

/// The batches that are sent when the reading of `n` rows stops on an
/// error: only the full ones, since the rows of an incomplete batch are
/// still waiting when the error comes.
pub fn full_batch_ranges(n: usize, size: usize) -> (r: Vec<(usize, usize)>)
    requires
        size > 0,
    ensures
        full_batches_ok(r@, n as int, size as int),
        r@.len() > 0 ==> batch_total(r@) == r@.last().1,
{
    let mut r = batch_ranges(n, size);
    let ghost all = r@;
    if r.len() > 0 {
        let (a, b) = r[r.len() - 1];
        if b - a < size {
            r.pop();
        }
    }
    proof {
        assert(forall|k: int| 0 <= k < r@.len() ==> r@[k] == all[k]);
        if r@.len() > 0 {
            lemma_batch_total_prefix(r@, r@.len() as int);
            assert(r@.take(r@.len() as int) =~= r@);
        }
        if r@.len() < all.len() && r@.len() > 0 {
            assert(all[r@.len() - 1].1 == all[r@.len() as int].0);
        }
    }
    r
}

/// The batches to send for `n` rows read: all of them when the reading
/// went to the end of the file, only the full ones when it `stopped` on an
/// error.
pub fn batches_to_send(n: usize, size: usize, stopped: bool) -> (r: Vec<(usize, usize)>)
    requires
        size > 0,
    ensures
        stopped ==> full_batches_ok(r@, n as int, size as int),
        !stopped ==> batches_ok(r@, n as int, size as int) && batch_total(r@) == n,
{
    if stopped {
        full_batch_ranges(n, size)
    } else {
        batch_ranges(n, size)
    }
}

} // verus!
