//! How a reader groups the rows it streams into insert batches: rows collect
//! until a batch is full, a full batch is handed to the writers at once, and
//! whatever is left when the cursor is exhausted goes out as a last batch.

use vstd::prelude::*;

verus! {

/// Number of rows at which a batch is handed on (a size of 0 acts as 1).
pub open spec fn effective_size(batch_size: nat) -> nat {
    if batch_size == 0 { 1 } else { batch_size }
}

/// One push: the row joins the pending rows, and the pending rows leave as a
/// batch as soon as there are at least `batch_size` of them.
pub open spec fn push_step<T>(batch_size: nat, pending: Seq<T>, row: T) -> (Option<Seq<T>>, Seq<T>) {
    let grown = pending.push(row);
    if grown.len() >= batch_size {
        (Some(grown), Seq::empty())
    } else {
        (None, grown)
    }
}

/// The batches handed on, and the rows still pending, after pushing `rows`
/// in order into an empty batcher.
pub open spec fn run<T>(batch_size: nat, rows: Seq<T>) -> (Seq<Seq<T>>, Seq<T>)
    decreases rows.len(),
{
    if rows.len() == 0 {
        (Seq::empty(), Seq::empty())
    } else {
        let (sent, pending) = run(batch_size, rows.drop_last());
        let (out, rest) = push_step(batch_size, pending, rows.last());
        match out {
            Some(b) => (sent.push(b), rest),
            None => (sent, rest),
        }
    }
}

/// The batches handed on after the cursor is exhausted: the full ones, then
/// the remainder if any rows are left.
pub open spec fn all_batches<T>(batch_size: nat, rows: Seq<T>) -> Seq<Seq<T>> {
    let (sent, pending) = run(batch_size, rows);
    if pending.len() == 0 { sent } else { sent.push(pending) }
}

/// Concatenation of a sequence of batches.
pub open spec fn flatten<T>(batches: Seq<Seq<T>>) -> Seq<T>
    decreases batches.len(),
{
    if batches.len() == 0 {
        Seq::empty()
    } else {
        flatten(batches.drop_last()) + batches.last()
    }
}

/// Collects rows into batches of `batch_size`.
pub struct Batcher<T> {
    batch: Vec<T>,
    batch_size: usize,
    rows_read: u64,
}

impl<T> Batcher<T> {
    /// The rows waiting for the current batch to fill.
    pub closed spec fn pending(&self) -> Seq<T> {
        self.batch@
    }

    /// The configured batch size.
    pub closed spec fn size(&self) -> nat {
        self.batch_size as nat
    }

    /// Rows pushed so far.
    pub closed spec fn read(&self) -> nat {
        self.rows_read as nat
    }

    /// A batcher with no rows yet.
    pub fn new(batch_size: usize) -> (b: Self)
        ensures
            b.pending() == Seq::<T>::empty(),
            b.size() == batch_size,
            b.read() == 0,
    {
        Batcher { batch: Vec::new(), batch_size, rows_read: 0 }
    }

    /// Rows pushed so far.
    pub fn rows_read(&self) -> (n: u64)
        ensures
            n == self.read(),
    {
        self.rows_read
    }

    /// Adds one row; returns the batch to hand on when it became full.
    pub fn push(&mut self, row: T) -> (out: Option<Vec<T>>)
        requires
            old(self).read() < u64::MAX,
        ensures
            final(self).size() == old(self).size(),
            final(self).read() == old(self).read() + 1,
            ({
                let (o, rest) = push_step(old(self).size(), old(self).pending(), row);
                &&& final(self).pending() == rest
                &&& match out {
                    Some(b) => o == Some(b@),
                    None => o is None,
                }
            }),
    {
        self.batch.push(row);
        self.rows_read = self.rows_read + 1;
        if self.batch.len() >= self.batch_size {
            let mut full: Vec<T> = Vec::new();
            std::mem::swap(&mut full, &mut self.batch);
            Some(full)
        } else {
            None
        }
    }

    /// Hands on the rows left when the cursor is exhausted, if any.
    pub fn finish(self) -> (out: Option<Vec<T>>)
        ensures
            self.pending().len() == 0 ==> out is None,
            self.pending().len() > 0 ==> (out matches Some(b) && b@ == self.pending()),
    {
        if self.batch.len() == 0 {
            None
        } else {
            Some(self.batch)
        }
    }
}

proof fn lemma_flatten_push<T>(batches: Seq<Seq<T>>, b: Seq<T>)
    ensures
        flatten(batches.push(b)) == flatten(batches) + b,
{
    assert(batches.push(b).drop_last() =~= batches);
}

/// Batching loses, duplicates and reorders no row: the batches handed on,
/// followed by the pending rows, are exactly the rows pushed. Every batch
/// handed on holds exactly `batch_size` rows (one when the size is 0), and
/// fewer than that remain pending.
pub proof fn lemma_run_preserves_rows<T>(batch_size: nat, rows: Seq<T>)
    ensures
        flatten(run(batch_size, rows).0) + run(batch_size, rows).1 == rows,
        forall|i: int| 0 <= i < run(batch_size, rows).0.len() ==>
            (#[trigger] run(batch_size, rows).0[i]).len() == effective_size(batch_size),
        run(batch_size, rows).1.len() < effective_size(batch_size),
    decreases rows.len(),
{
    if rows.len() == 0 {
        assert(flatten(Seq::<Seq<T>>::empty()) + Seq::<T>::empty() =~= rows);
    } else {
        let prev = rows.drop_last();
        lemma_run_preserves_rows(batch_size, prev);
        let (sent, pending) = run(batch_size, prev);
        let grown = pending.push(rows.last());
        assert(rows =~= prev.push(rows.last()));
        if grown.len() >= batch_size {
            lemma_flatten_push(sent, grown);
            assert(flatten(sent.push(grown)) + Seq::<T>::empty() =~= rows);
            assert forall|i: int| 0 <= i < sent.push(grown).len() implies
                (#[trigger] sent.push(grown)[i]).len() == effective_size(batch_size) by {
                if i < sent.len() {
                    assert(sent.push(grown)[i] == sent[i]);
                }
            }
        } else {
            assert(flatten(sent) + grown =~= rows);
        }
    }
}

/// After the final flush, the batches are exactly the rows in order, none is
/// empty, and none is larger than `batch_size` (one when the size is 0).
pub proof fn lemma_all_batches_cover_rows<T>(batch_size: nat, rows: Seq<T>)
    ensures
        flatten(all_batches(batch_size, rows)) == rows,
        forall|i: int| 0 <= i < all_batches(batch_size, rows).len() ==>
            0 < (#[trigger] all_batches(batch_size, rows)[i]).len() <= effective_size(batch_size),
{
    lemma_run_preserves_rows(batch_size, rows);
    let (sent, pending) = run(batch_size, rows);
    if pending.len() == 0 {
        assert(flatten(sent) + pending =~= flatten(sent));
    } else {
        lemma_flatten_push(sent, pending);
        assert forall|i: int| 0 <= i < sent.push(pending).len() implies
            0 < (#[trigger] sent.push(pending)[i]).len() <= effective_size(batch_size) by {
            if i < sent.len() {
                assert(sent.push(pending)[i] == sent[i]);
            }
        }
    }
}

} // verus!
