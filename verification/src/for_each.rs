//! Visiting the items of a query: all of them in one walk, or batch by batch as the
//! tasks of a parallel run do.
use crate::batch::{batch_rows, batches, batches_of, least, Batch};
use crate::items::{filtered, lemma_filtered_prefix, row_entity, visited, QueryItem};
use crate::other_query_state::OtherQueryState;
use crate::rows::{lemma_rows_index, rows, source_rows, Row};
use crate::world::World;
use vstd::prelude::*;

verus! {

impl OtherQueryState {
    /// Calls `func` on each item that the query yields in `world`, in order, and gives
    /// what it returned. The tables are walked where shape and filter can both be read
    /// from tables, the archetypes where not; a row that the filter holds back is
    /// skipped.
    pub fn for_each_unchecked_manual<R, F: Fn(QueryItem) -> R>(
        &self,
        world: &World,
        func: F,
        last_change_tick: u32,
        change_tick: u32,
    ) -> (results: Vec<R>)
        requires
            self.fits(*world),
            world.wf(),
            forall|item: QueryItem| call_requires(func, (item,)),
        ensures
            results.len() == self.items(*world, last_change_tick, change_tick).len(),
            forall|i: int|
                0 <= i < results.len() ==> visited(
                    func,
                    self.items(*world, last_change_tick, change_tick)[i],
                    #[trigger] results[i],
                ),
    {
        let dense = self.is_dense();
        let sources = if dense {
            &self.matched_table_ids
        } else {
            &self.matched_archetype_ids
        };
        let ghost lens = self.lens(*world);
        let ghost walk = self.walk(*world);
        let ghost all = self.items(*world, last_change_tick, change_tick);
        let mut results: Vec<R> = Vec::new();
        let mut k: usize = 0;
        while k < sources.len()
            invariant
                k <= sources.len(),
                dense == self.dense(),
                sources@ == self.sources(),
                lens == self.lens(*world),
                walk == self.walk(*world),
                all == self.items(*world, last_change_tick, change_tick),
                self.fits(*world),
                world.wf(),
                forall|item: QueryItem| call_requires(func, (item,)),
                results.len() == self.yielded(
                    *world,
                    rows(sources@, lens, k as int).len() as int,
                    last_change_tick,
                    change_tick,
                ).len(),
                results.len() <= all.len(),
                forall|i: int| 0 <= i < results.len() ==> visited(func, all[i], #[trigger] results[i]),
            decreases sources.len() - k,
        {
            let source = sources[k];
            let len = if dense {
                world.tables[source].len()
            } else {
                world.archetypes[source].len()
            };
            let fetches = self.place(world, dense, source, last_change_tick, change_tick);
            let mut index: usize = 0;
            while index < len
                invariant
                    index <= len,
                    k < sources.len(),
                    source == sources[k as int],
                    len == lens[source as int],
                    dense == self.dense(),
                    sources@ == self.sources(),
                    lens == self.lens(*world),
                    walk == self.walk(*world),
                    all == self.items(*world, last_change_tick, change_tick),
                    self.fits(*world),
                    world.wf(),
                    forall|item: QueryItem| call_requires(func, (item,)),
                    self.walks(dense, source),
                    self.placed(fetches@, *world, dense, source, last_change_tick, change_tick),
                    results.len() == self.yielded(
                        *world,
                        rows(sources@, lens, k as int).len() + index,
                        last_change_tick,
                        change_tick,
                    ).len(),
                    results.len() <= all.len(),
                    forall|i: int|
                        0 <= i < results.len() ==> visited(func, all[i], #[trigger] results[i]),
                decreases len - index,
            {
                proof {
                    lemma_rows_index(
                        sources@,
                        lens,
                        sources.len() as int,
                        k as int,
                        index as int,
                    );
                    if !dense {
                        assert(world.archetype_wf(source as int));
                    }
                    lemma_filtered_prefix(
                        self.fetch_state@,
                        self.filter_state@,
                        *world,
                        dense,
                        walk,
                        rows(sources@, lens, k as int).len() + index + 1,
                        walk.len() as int,
                        last_change_tick,
                        change_tick,
                    );
                }
                let item = self.item_at(
                    world,
                    dense,
                    &fetches,
                    source,
                    index,
                    last_change_tick,
                    change_tick,
                );
                let ghost now = self.yielded(
                    *world,
                    rows(sources@, lens, k as int).len() + index + 1,
                    last_change_tick,
                    change_tick,
                );
                proof {
                    assert(walk[rows(sources@, lens, k as int).len() + index] == Row {
                        source,
                        index,
                    });
                    assert(item@.entity == row_entity(*world, dense, Row { source, index }));
                    assert(now.is_prefix_of(all));
                }
                if self.accepts(world, item.entity, last_change_tick, change_tick) {
                    let ghost view = item@;
                    let ghost seen = item;
                    let result = func(item);
                    proof {
                        assert(call_ensures(func, (seen,), result));
                        assert(visited(func, view, result));
                        assert(now[results.len() as int] == view);
                        assert(all[results.len() as int] == view);
                    }
                    results.push(result);
                }
                index += 1;
            }
            proof {
                assert(rows(sources@, lens, k + 1) == rows(sources@, lens, k as int)
                    + source_rows(source, lens[source as int]));
            }
            k += 1;
        }
        results
    }

    /// Brings the cache up to date and calls `func` on each item, as
    /// `for_each_unchecked_manual` does with the ticks of `world`.
    pub fn for_each_unchecked<R, F: Fn(QueryItem) -> R>(&mut self, world: &World, func: F) -> (results:
        Vec<R>)
        requires
            old(self).wf(),
            old(self).fits(*world),
            world.wf(),
            forall|item: QueryItem| call_requires(func, (item,)),
        ensures
            final(self).updated(old(self), *world),
            results.len() == final(self).items(
                *world,
                world.last_change_tick,
                world.change_tick,
            ).len(),
            forall|i: int|
                0 <= i < results.len() ==> visited(
                    func,
                    final(self).items(*world, world.last_change_tick, world.change_tick)[i],
                    #[trigger] results[i],
                ),
    {
        self.validate_world_and_update_archetypes(world);
        self.for_each_unchecked_manual(world, func, world.last_change_tick, world.change_tick)
    }

    /// Calls `func` on each item of a query that only reads.
    pub fn for_each<R, F: Fn(QueryItem) -> R>(&mut self, world: &World, func: F) -> (results: Vec<R>)
        requires
            old(self).wf(),
            old(self).fits(*world),
            world.wf(),
            forall|item: QueryItem| call_requires(func, (item,)),
        ensures
            final(self).updated(old(self), *world),
            results.len() == final(self).items(
                *world,
                world.last_change_tick,
                world.change_tick,
            ).len(),
            forall|i: int|
                0 <= i < results.len() ==> visited(
                    func,
                    final(self).items(*world, world.last_change_tick, world.change_tick)[i],
                    #[trigger] results[i],
                ),
    {
        self.for_each_unchecked(world, func)
    }

    /// Calls `func` on each item of a query that has the world to itself.
    pub fn for_each_mut<R, F: Fn(QueryItem) -> R>(&mut self, world: &World, func: F) -> (results: Vec<
        R,
    >)
        requires
            old(self).wf(),
            old(self).fits(*world),
            world.wf(),
            forall|item: QueryItem| call_requires(func, (item,)),
        ensures
            final(self).updated(old(self), *world),
            results.len() == final(self).items(
                *world,
                world.last_change_tick,
                world.change_tick,
            ).len(),
            forall|i: int|
                0 <= i < results.len() ==> visited(
                    func,
                    final(self).items(*world, world.last_change_tick, world.change_tick)[i],
                    #[trigger] results[i],
                ),
    {
        self.for_each_unchecked(world, func)
    }

    /// The batches into which a parallel run cuts the walk of the query in `world`.
    pub open spec fn batches(&self, world: World, batch_size: usize) -> Seq<Batch> {
        batches(
            self.sources(),
            self.lens(world),
            batch_size as int,
            self.sources().len() as int,
        )
    }

    /// `batch` lies within one source of the walk in `world`.
    pub open spec fn holds(&self, world: World, batch: Batch) -> bool {
        &&& self.sources().contains(batch.source)
        &&& batch.source < self.lens(world).len()
        &&& batch.offset + batch.len <= self.lens(world)[batch.source as int]
    }

    /// Cuts the walk of the query into batches: each matched source, in order, into
    /// runs of `batch_size` rows and a last run of what is left.
    pub fn par_batches(&self, world: &World, batch_size: usize) -> (cut: Vec<Batch>)
        requires
            self.fits(*world),
            batch_size > 0,
        ensures
            cut@ == self.batches(*world, batch_size),
            forall|i: int| 0 <= i < cut.len() ==> self.holds(*world, #[trigger] cut[i]),
    {
        let dense = self.is_dense();
        let sources = if dense {
            &self.matched_table_ids
        } else {
            &self.matched_archetype_ids
        };
        let ghost lens = self.lens(*world);
        let mut cut: Vec<Batch> = Vec::new();
        let mut k: usize = 0;
        while k < sources.len()
            invariant
                k <= sources.len(),
                batch_size > 0,
                dense == self.dense(),
                sources@ == self.sources(),
                lens == self.lens(*world),
                self.fits(*world),
                cut@ == batches(sources@, lens, batch_size as int, k as int),
                forall|i: int| 0 <= i < cut.len() ==> self.holds(*world, #[trigger] cut[i]),
            decreases sources.len() - k,
        {
            let source = sources[k];
            let len = if dense {
                world.tables[source].len()
            } else {
                world.archetypes[source].len()
            };
            let ghost done = cut@;
            let mut offset: usize = 0;
            while offset < len
                invariant
                    offset <= len,
                    batch_size > 0,
                    len == lens[source as int],
                    source < lens.len(),
                    lens == self.lens(*world),
                    self.sources().contains(source),
                    cut@ + batches_of(source, len as int, batch_size as int, offset as int) == done
                        + batches_of(source, len as int, batch_size as int, 0),
                    forall|i: int| 0 <= i < cut.len() ==> self.holds(*world, #[trigger] cut[i]),
                decreases len - offset,
            {
                let take = if batch_size < len - offset {
                    batch_size
                } else {
                    len - offset
                };
                let ghost before = cut@;
                let batch = Batch { source, offset, len: take };
                cut.push(batch);
                proof {
                    assert(take == least(batch_size as int, len - offset));
                    assert(before + (seq![batch] + batches_of(
                        source,
                        len as int,
                        batch_size as int,
                        offset + take,
                    )) =~= before.push(batch) + batches_of(
                        source,
                        len as int,
                        batch_size as int,
                        offset + take,
                    ));
                }
                offset += take;
            }
            proof {
                assert(cut@ + Seq::<Batch>::empty() =~= cut@);
            }
            k += 1;
        }
        cut
    }

    /// Calls `func` on the item of each row of `batch` that the filter lets through, in
    /// order, and gives what it returned. This is the work of one task of a parallel
    /// run.
    pub fn for_each_in_batch<R, F: Fn(QueryItem) -> R>(
        &self,
        world: &World,
        batch: Batch,
        func: &F,
        last_change_tick: u32,
        change_tick: u32,
    ) -> (results: Vec<R>)
        requires
            self.fits(*world),
            world.wf(),
            self.holds(*world, batch),
            forall|item: QueryItem| call_requires(*func, (item,)),
        ensures
            results.len() == self.batch_items(*world, batch, last_change_tick, change_tick).len(),
            forall|i: int|
                0 <= i < results.len() ==> visited(
                    *func,
                    self.batch_items(*world, batch, last_change_tick, change_tick)[i],
                    #[trigger] results[i],
                ),
    {
        let dense = self.is_dense();
        let fetches = self.place(world, dense, batch.source, last_change_tick, change_tick);
        let ghost rows = batch_rows(batch);
        let ghost all = self.batch_items(*world, batch, last_change_tick, change_tick);
        let mut results: Vec<R> = Vec::new();
        let mut i: usize = 0;
        while i < batch.len
            invariant
                i <= batch.len,
                dense == self.dense(),
                rows == batch_rows(batch),
                all == self.batch_items(*world, batch, last_change_tick, change_tick),
                self.fits(*world),
                world.wf(),
                self.holds(*world, batch),
                forall|item: QueryItem| call_requires(*func, (item,)),
                self.placed(fetches@, *world, dense, batch.source, last_change_tick, change_tick),
                results.len() == filtered(
                    self.fetch_state@,
                    self.filter_state@,
                    *world,
                    dense,
                    rows,
                    i as int,
                    last_change_tick,
                    change_tick,
                ).len(),
                results.len() <= all.len(),
                forall|j: int| 0 <= j < results.len() ==> visited(*func, all[j], #[trigger] results[j]),
            decreases batch.len - i,
        {
            proof {
                if !dense {
                    assert(world.archetype_wf(batch.source as int));
                }
                lemma_filtered_prefix(
                    self.fetch_state@,
                    self.filter_state@,
                    *world,
                    dense,
                    rows,
                    i + 1,
                    batch.len as int,
                    last_change_tick,
                    change_tick,
                );
            }
            let item = self.item_at(
                world,
                dense,
                &fetches,
                batch.source,
                batch.offset + i,
                last_change_tick,
                change_tick,
            );
            let ghost now = filtered(
                self.fetch_state@,
                self.filter_state@,
                *world,
                dense,
                rows,
                i + 1,
                last_change_tick,
                change_tick,
            );
            proof {
                assert(rows[i as int] == Row { source: batch.source, index: (batch.offset + i) as usize });
                assert(item@.entity == row_entity(*world, dense, rows[i as int]));
                assert(now.is_prefix_of(all));
            }
            if self.accepts(world, item.entity, last_change_tick, change_tick) {
                let ghost view = item@;
                let ghost seen = item;
                let result = func(item);
                proof {
                    assert(call_ensures(*func, (seen,), result));
                    assert(visited(*func, view, result));
                    assert(now[results.len() as int] == view);
                    assert(all[results.len() as int] == view);
                }
                results.push(result);
            }
            i += 1;
        }
        results
    }

    /// What a parallel run gives: for each batch of the walk, in order, what `func`
    /// returned for the items of the batch.
    pub open spec fn par_visited<R, F: Fn(QueryItem) -> R>(
        &self,
        world: World,
        batch_size: usize,
        func: F,
        results: Seq<Vec<R>>,
        last_change_tick: u32,
        change_tick: u32,
    ) -> bool {
        let cut = self.batches(world, batch_size);
        &&& results.len() == cut.len()
        &&& forall|b: int|
            0 <= b < results.len() ==> (#[trigger] results[b]).len() == self.batch_items(
                world,
                cut[b],
                last_change_tick,
                change_tick,
            ).len()
        &&& forall|b: int, i: int|
            0 <= b < results.len() && 0 <= i < results[b].len() ==> visited(
                func,
                self.batch_items(world, cut[b], last_change_tick, change_tick)[i],
                #[trigger] results[b][i],
            )
    }

    /// Cuts the walk of the query into batches of at most `batch_size` rows and calls
    /// `func` on the items of each batch, as one task for each batch does in a
    /// parallel run; it returns once every batch is done. The answer holds, for each
    /// batch in order, what `func` returned for the items of the batch.
    pub fn par_for_each_unchecked_manual<R, F: Fn(QueryItem) -> R>(
        &self,
        world: &World,
        batch_size: usize,
        func: &F,
        last_change_tick: u32,
        change_tick: u32,
    ) -> (results: Vec<Vec<R>>)
        requires
            self.fits(*world),
            world.wf(),
            batch_size > 0,
            forall|item: QueryItem| call_requires(*func, (item,)),
        ensures
            self.par_visited(*world, batch_size, *func, results@, last_change_tick, change_tick),
    {
        let cut = self.par_batches(world, batch_size);
        let mut results: Vec<Vec<R>> = Vec::new();
        let mut b: usize = 0;
        while b < cut.len()
            invariant
                b <= cut.len(),
                self.fits(*world),
                world.wf(),
                cut@ == self.batches(*world, batch_size),
                forall|i: int| 0 <= i < cut.len() ==> self.holds(*world, #[trigger] cut[i]),
                forall|item: QueryItem| call_requires(*func, (item,)),
                results.len() == b,
                forall|c: int|
                    0 <= c < b ==> (#[trigger] results[c]).len() == self.batch_items(
                        *world,
                        cut[c],
                        last_change_tick,
                        change_tick,
                    ).len(),
                forall|c: int, i: int|
                    0 <= c < b && 0 <= i < results[c].len() ==> visited(
                        *func,
                        self.batch_items(*world, cut[c], last_change_tick, change_tick)[i],
                        #[trigger] results[c][i],
                    ),
            decreases cut.len() - b,
        {
            let done = self.for_each_in_batch(
                world,
                cut[b],
                func,
                last_change_tick,
                change_tick,
            );
            results.push(done);
            b += 1;
        }
        results
    }

    /// Brings the cache up to date and runs `func` batch by batch, as
    /// `par_for_each_unchecked_manual` does with the ticks of `world`.
    pub fn par_for_each_unchecked<R, F: Fn(QueryItem) -> R>(
        &mut self,
        world: &World,
        batch_size: usize,
        func: &F,
    ) -> (results: Vec<Vec<R>>)
        requires
            old(self).wf(),
            old(self).fits(*world),
            world.wf(),
            batch_size > 0,
            forall|item: QueryItem| call_requires(*func, (item,)),
        ensures
            final(self).updated(old(self), *world),
            final(self).par_visited(
                *world,
                batch_size,
                *func,
                results@,
                world.last_change_tick,
                world.change_tick,
            ),
    {
        self.validate_world_and_update_archetypes(world);
        self.par_for_each_unchecked_manual(
            world,
            batch_size,
            func,
            world.last_change_tick,
            world.change_tick,
        )
    }

    /// Runs `func` batch by batch over a query that only reads.
    pub fn par_for_each<R, F: Fn(QueryItem) -> R>(
        &mut self,
        world: &World,
        batch_size: usize,
        func: &F,
    ) -> (results: Vec<Vec<R>>)
        requires
            old(self).wf(),
            old(self).fits(*world),
            world.wf(),
            batch_size > 0,
            forall|item: QueryItem| call_requires(*func, (item,)),
        ensures
            final(self).updated(old(self), *world),
            final(self).par_visited(
                *world,
                batch_size,
                *func,
                results@,
                world.last_change_tick,
                world.change_tick,
            ),
    {
        self.par_for_each_unchecked(world, batch_size, func)
    }

    /// Runs `func` batch by batch over a query that has the world to itself. No two
    /// batches share a row, so no slot is handed out twice.
    pub fn par_for_each_mut<R, F: Fn(QueryItem) -> R>(
        &mut self,
        world: &World,
        batch_size: usize,
        func: &F,
    ) -> (results: Vec<Vec<R>>)
        requires
            old(self).wf(),
            old(self).fits(*world),
            world.wf(),
            batch_size > 0,
            forall|item: QueryItem| call_requires(*func, (item,)),
        ensures
            final(self).updated(old(self), *world),
            final(self).par_visited(
                *world,
                batch_size,
                *func,
                results@,
                world.last_change_tick,
                world.change_tick,
            ),
    {
        self.par_for_each_unchecked(world, batch_size, func)
    }
}

} // verus!
