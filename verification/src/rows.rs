//! The order in which a query walks its matches: source by source, as the sources
//! were matched, and row by row within each. A source is a table where the query is
//! read from tables, an archetype where it is not.
use vstd::prelude::*;

verus! {

/// One row of one source.
#[derive(Clone, Copy, Debug, PartialEq, Eq, Structural)]
pub struct Row {
    pub source: usize,
    pub index: usize,
}

/// The rows of the source `source`, which has `len` of them, in rising order.
pub open spec fn source_rows(source: usize, len: nat) -> Seq<Row> {
    Seq::new(len, |j: int| Row { source, index: j as usize })
}

/// The rows of the first `n` sources of `ids`, where source `s` has `lens[s]` rows.
pub open spec fn rows(ids: Seq<usize>, lens: Seq<nat>, n: int) -> Seq<Row>
    decreases n,
{
    if n <= 0 {
        Seq::empty()
    } else {
        rows(ids, lens, n - 1) + source_rows(ids[n - 1], lens[ids[n - 1] as int])
    }
}

/// The rows of fewer sources are the first of the rows of more.
pub proof fn lemma_rows_prefix(ids: Seq<usize>, lens: Seq<nat>, k: int, n: int)
    requires
        0 <= k <= n,
    ensures
        rows(ids, lens, k).len() <= rows(ids, lens, n).len(),
        forall|i: int|
            0 <= i < rows(ids, lens, k).len() ==> rows(ids, lens, n)[i] == rows(ids, lens, k)[i],
    decreases n - k,
{
    if k < n {
        lemma_rows_prefix(ids, lens, k, n - 1);
    }
}

/// Row `j` of source `k` stands behind all rows of the sources before it.
pub proof fn lemma_rows_index(ids: Seq<usize>, lens: Seq<nat>, n: int, k: int, j: int)
    requires
        0 <= k < n,
        0 <= j < lens[ids[k] as int],
        j <= usize::MAX,
    ensures
        rows(ids, lens, k).len() + j < rows(ids, lens, k + 1).len() <= rows(ids, lens, n).len(),
        rows(ids, lens, n)[rows(ids, lens, k).len() + j] == (Row {
            source: ids[k],
            index: j as usize,
        }),
{
    lemma_rows_prefix(ids, lens, k + 1, n);
    assert(rows(ids, lens, k + 1) == rows(ids, lens, k) + source_rows(
        ids[k],
        lens[ids[k] as int],
    ));
}

/// Every row of the walk is a row of one of the sources.
pub proof fn lemma_rows_member(ids: Seq<usize>, lens: Seq<nat>, n: int, i: int) -> (at: (int, int))
    requires
        0 <= i < rows(ids, lens, n).len(),
    ensures
        0 <= at.0 < n,
        0 <= at.1 < lens[ids[at.0] as int],
        i == rows(ids, lens, at.0).len() + at.1,
        rows(ids, lens, n)[i].source == ids[at.0],
        rows(ids, lens, n)[i].index == at.1 as usize,
    decreases n,
{
    if i < rows(ids, lens, n - 1).len() {
        lemma_rows_member(ids, lens, n - 1, i)
    } else {
        (n - 1, i - rows(ids, lens, n - 1).len())
    }
}

/// A walk over sources that are all different meets no row twice.
pub proof fn lemma_rows_injective(ids: Seq<usize>, lens: Seq<nat>, n: int, i: int, j: int)
    requires
        0 <= n <= ids.len(),
        forall|a: int, b: int| 0 <= a < b < n ==> ids[a] != ids[b],
        forall|k: int| 0 <= k < n ==> lens[ids[k] as int] <= usize::MAX,
        0 <= i < rows(ids, lens, n).len(),
        0 <= j < rows(ids, lens, n).len(),
        rows(ids, lens, n)[i] == rows(ids, lens, n)[j],
    ensures
        i == j,
{
    let at = lemma_rows_member(ids, lens, n, i);
    let bt = lemma_rows_member(ids, lens, n, j);
    if at.0 < bt.0 {
        assert(ids[at.0] != ids[bt.0]);
    } else if bt.0 < at.0 {
        assert(ids[bt.0] != ids[at.0]);
    }
}

} // verus!
