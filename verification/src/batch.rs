//! Cutting the walk of a query into batches of rows, one for each task of a parallel
//! run.
use crate::rows::{rows, source_rows, Row};
use vstd::prelude::*;

verus! {

/// A run of `len` rows of the source `source`, from row `offset` on.
#[derive(Clone, Copy, Debug, PartialEq, Eq, Structural)]
pub struct Batch {
    pub source: usize,
    pub offset: usize,
    pub len: usize,
}

/// The smaller of two numbers.
pub open spec fn least(a: int, b: int) -> int {
    if a <= b {
        a
    } else {
        b
    }
}

/// The batches that cover the rows of `source` from `offset` on: each takes
/// `batch_size` rows, the last one what is left.
pub open spec fn batches_of(source: usize, len: int, batch_size: int, offset: int) -> Seq<Batch>
    decreases len - offset,
{
    if batch_size <= 0 || offset < 0 || offset >= len {
        Seq::empty()
    } else {
        let take = least(batch_size, len - offset);
        seq![Batch { source, offset: offset as usize, len: take as usize }] + batches_of(
            source,
            len,
            batch_size,
            offset + take,
        )
    }
}

/// The batches of the first `n` sources of `ids`, source by source.
pub open spec fn batches(ids: Seq<usize>, lens: Seq<nat>, batch_size: int, n: int) -> Seq<Batch>
    decreases n,
{
    if n <= 0 {
        Seq::empty()
    } else {
        batches(ids, lens, batch_size, n - 1) + batches_of(
            ids[n - 1],
            lens[ids[n - 1] as int] as int,
            batch_size,
            0,
        )
    }
}

/// The rows of a batch, in rising order.
pub open spec fn batch_rows(batch: Batch) -> Seq<Row> {
    Seq::new(
        batch.len as nat,
        |j: int| Row { source: batch.source, index: (batch.offset + j) as usize },
    )
}

/// The rows of the first `n` batches, batch after batch.
pub open spec fn flatten(batches: Seq<Batch>, n: int) -> Seq<Row>
    decreases n,
{
    if n <= 0 {
        Seq::empty()
    } else {
        flatten(batches, n - 1) + batch_rows(batches[n - 1])
    }
}

/// The rows of two lists of batches, one after the other, are the rows of the whole.
pub proof fn lemma_flatten_concat(a: Seq<Batch>, b: Seq<Batch>, n: int)
    requires
        0 <= n <= b.len(),
    ensures
        flatten(a + b, a.len() + n) == flatten(a, a.len() as int) + flatten(b, n),
    decreases n,
{
    if n == 0 {
        lemma_flatten_prefix(a, a + b, a.len() as int);
        assert(flatten(a, a.len() as int) + flatten(b, 0) =~= flatten(a, a.len() as int));
    } else {
        lemma_flatten_concat(a, b, n - 1);
        assert((a + b)[a.len() + n - 1] == b[n - 1]);
        assert(flatten(a + b, a.len() + n) =~= flatten(a, a.len() as int) + flatten(b, n));
    }
}

/// Lists of batches that agree on their first `n` batches have the same first rows.
pub proof fn lemma_flatten_prefix(a: Seq<Batch>, b: Seq<Batch>, n: int)
    requires
        0 <= n <= a.len(),
        n <= b.len(),
        forall|i: int| 0 <= i < n ==> a[i] == b[i],
    ensures
        flatten(a, n) == flatten(b, n),
    decreases n,
{
    if n > 0 {
        lemma_flatten_prefix(a, b, n - 1);
    }
}

/// The batches of one source cover its rows from `offset` on, each row once and in
/// order; no batch is empty and none is longer than `batch_size`.
pub proof fn lemma_batches_of(source: usize, len: int, batch_size: int, offset: int)
    requires
        batch_size > 0,
        0 <= offset <= len <= usize::MAX,
    ensures
        flatten(
            batches_of(source, len, batch_size, offset),
            batches_of(source, len, batch_size, offset).len() as int,
        ) == source_rows(source, len as nat).skip(offset),
        forall|i: int|
            0 <= i < batches_of(source, len, batch_size, offset).len() ==> {
                let batch = #[trigger] batches_of(source, len, batch_size, offset)[i];
                &&& batch.source == source
                &&& 0 < batch.len <= batch_size
                &&& offset <= batch.offset
                &&& batch.offset + batch.len <= len
            },
    decreases len - offset,
{
    let all = batches_of(source, len, batch_size, offset);
    if offset >= len {
        assert(source_rows(source, len as nat).skip(offset) =~= Seq::<Row>::empty());
    } else {
        let take = least(batch_size, len - offset);
        let first = Batch { source, offset: offset as usize, len: take as usize };
        let rest = batches_of(source, len, batch_size, offset + take);
        lemma_batches_of(source, len, batch_size, offset + take);
        assert(all == seq![first] + rest);
        lemma_flatten_concat(seq![first], rest, rest.len() as int);
        assert(flatten(seq![first], 1) =~= batch_rows(first)) by {
            assert(flatten(seq![first], 0) =~= Seq::<Row>::empty());
        }
        assert(batch_rows(first) + source_rows(source, len as nat).skip(offset + take)
            =~= source_rows(source, len as nat).skip(offset));
        assert forall|i: int| 0 <= i < all.len() implies {
            let batch = #[trigger] all[i];
            &&& batch.source == source
            &&& 0 < batch.len <= batch_size
            &&& offset <= batch.offset
            &&& batch.offset + batch.len <= len
        } by {
            if i > 0 {
                assert(all[i] == rest[i - 1]);
            }
        }
    }
}

/// The batches of a walk hold every row of the walk exactly once, in the order of the
/// walk: taken one after the other, their rows are the rows of the walk. No batch is
/// empty, and none is longer than `batch_size`.
pub proof fn lemma_batches_partition(ids: Seq<usize>, lens: Seq<nat>, batch_size: int, n: int)
    requires
        batch_size > 0,
        0 <= n <= ids.len(),
        forall|k: int| 0 <= k < n ==> lens[ids[k] as int] <= usize::MAX,
    ensures
        flatten(
            batches(ids, lens, batch_size, n),
            batches(ids, lens, batch_size, n).len() as int,
        ) == rows(ids, lens, n),
        forall|i: int|
            0 <= i < batches(ids, lens, batch_size, n).len() ==> 0 < (#[trigger] batches(
                ids,
                lens,
                batch_size,
                n,
            )[i]).len <= batch_size,
    decreases n,
{
    if n > 0 {
        let before = batches(ids, lens, batch_size, n - 1);
        let last = batches_of(ids[n - 1], lens[ids[n - 1] as int] as int, batch_size, 0);
        lemma_batches_partition(ids, lens, batch_size, n - 1);
        lemma_batches_of(ids[n - 1], lens[ids[n - 1] as int] as int, batch_size, 0);
        lemma_flatten_concat(before, last, last.len() as int);
        assert(source_rows(ids[n - 1], lens[ids[n - 1] as int]).skip(0) =~= source_rows(
            ids[n - 1],
            lens[ids[n - 1] as int],
        ));
        let all = batches(ids, lens, batch_size, n);
        assert forall|i: int| 0 <= i < all.len() implies 0 < (#[trigger] all[i]).len
            <= batch_size by {
            if i < before.len() {
                assert(all[i] == before[i]);
            } else {
                assert(all[i] == last[i - before.len()]);
            }
        }
    }
}

} // verus!
