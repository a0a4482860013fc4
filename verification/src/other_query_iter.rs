//! Walking the items of a query one at a time.
use crate::other::OtherFetch;
use crate::items::{archetype_lens, lemma_filtered_prefix, ItemView, QueryItem};
use crate::other_query_state::OtherQueryState;
use crate::rows::{lemma_rows_index, lemma_rows_prefix, rows, source_rows};
use crate::world::World;
use vstd::prelude::*;

verus! {

/// A walk over the items of a query that has come some way. It is made by
/// `OtherQueryIter::new` and moved on by `next`.
pub struct OtherQueryIter<'w, 's> {
    pub world: &'w World,
    pub query_state: &'s OtherQueryState,
    pub is_dense: bool,
    /// How many sources the walk has entered.
    pub entered: usize,
    /// The source that the walk is in.
    pub current_source: usize,
    pub fetch: Vec<OtherFetch<'w>>,
    pub current_len: usize,
    pub current_index: usize,
    pub last_change_tick: u32,
    pub change_tick: u32,
}

impl<'w, 's> OtherQueryIter<'w, 's> {
    /// The cursors stand on the source that the walk is in, and the walk has not left
    /// it.
    pub open spec fn wf(&self) -> bool {
        let sources = self.query_state.sources();
        &&& self.is_dense == self.query_state.dense()
        &&& self.query_state.fits(*self.world)
        &&& self.world.wf()
        &&& self.entered <= sources.len()
        &&& self.current_index <= self.current_len
        &&& self.entered == 0 ==> self.current_len == 0
        &&& self.entered > 0 ==> {
            &&& self.current_source == sources[self.entered - 1]
            &&& self.current_len == self.query_state.lens(*self.world)[self.current_source as int]
            &&& self.query_state.placed(
                self.fetch@,
                *self.world,
                self.is_dense,
                self.current_source,
                self.last_change_tick,
                self.change_tick,
            )
        }
    }

    /// How many rows the walk has passed.
    pub open spec fn consumed(&self) -> int {
        if self.entered == 0 {
            0
        } else {
            rows(
                self.query_state.sources(),
                self.query_state.lens(*self.world),
                self.entered - 1,
            ).len() + self.current_index
        }
    }

    /// The items that the walk has yielded, in order.
    pub open spec fn yielded(&self) -> Seq<ItemView> {
        self.query_state.yielded(
            *self.world,
            self.consumed(),
            self.last_change_tick,
            self.change_tick,
        )
    }

    /// The items that the walk is still to yield, in order.
    pub open spec fn remaining(&self) -> Seq<ItemView> {
        self.query_state.items(*self.world, self.last_change_tick, self.change_tick).skip(
            self.yielded().len() as int,
        )
    }

    /// A walk at its start: everything that the query yields is still to come.
    pub fn new(
        world: &'w World,
        query_state: &'s OtherQueryState,
        last_change_tick: u32,
        change_tick: u32,
    ) -> (iter: Self)
        requires
            query_state.fits(*world),
            world.wf(),
        ensures
            iter.wf(),
            iter.world == world,
            iter.query_state == query_state,
            iter.last_change_tick == last_change_tick,
            iter.change_tick == change_tick,
            iter.remaining() == query_state.items(*world, last_change_tick, change_tick),
    {
        let iter = OtherQueryIter {
            is_dense: query_state.is_dense(),
            world,
            query_state,
            entered: 0,
            current_source: 0,
            fetch: Vec::new(),
            current_len: 0,
            current_index: 0,
            last_change_tick,
            change_tick,
        };
        proof {
            assert(iter.remaining() =~= query_state.items(*world, last_change_tick, change_tick));
        }
        iter
    }

    /// The next item of the walk, or `None` once every item was yielded. Rows that the
    /// filter holds back are passed over.
    pub fn next(&mut self) -> (item: Option<QueryItem>)
        requires
            old(self).wf(),
        ensures
            final(self).wf(),
            final(self).world == old(self).world,
            final(self).query_state == old(self).query_state,
            final(self).last_change_tick == old(self).last_change_tick,
            final(self).change_tick == old(self).change_tick,
            match item {
                Some(item) => {
                    &&& old(self).remaining().len() > 0
                    &&& item@ == old(self).remaining()[0]
                    &&& final(self).remaining() == old(self).remaining().skip(1)
                },
                None => {
                    &&& old(self).remaining().len() == 0
                    &&& final(self).remaining().len() == 0
                },
            },
    {
        let ghost sources = self.query_state.sources();
        let ghost lens = self.query_state.lens(*self.world);
        let ghost walk = self.query_state.walk(*self.world);
        let ghost items = self.query_state.items(
            *self.world,
            self.last_change_tick,
            self.change_tick,
        );
        loop
            invariant
                self.wf(),
                self.world == old(self).world,
                self.query_state == old(self).query_state,
                self.last_change_tick == old(self).last_change_tick,
                self.change_tick == old(self).change_tick,
                self.yielded() == old(self).yielded(),
                sources == self.query_state.sources(),
                lens == self.query_state.lens(*self.world),
                walk == self.query_state.walk(*self.world),
                items == self.query_state.items(
                    *self.world,
                    self.last_change_tick,
                    self.change_tick,
                ),
            decreases sources.len() - self.entered, self.current_len - self.current_index,
        {
            if self.current_index == self.current_len {
                let ids = if self.is_dense {
                    &self.query_state.matched_table_ids
                } else {
                    &self.query_state.matched_archetype_ids
                };
                if self.entered == ids.len() {
                    proof {
                        if self.entered > 0 {
                            assert(rows(sources, lens, self.entered as int) == rows(
                                sources,
                                lens,
                                self.entered - 1,
                            ) + source_rows(self.current_source, lens[self.current_source as int]));
                        }
                        assert(self.consumed() == walk.len());
                    }
                    return None;
                }
                let source = ids[self.entered];
                proof {
                    if self.entered > 0 {
                        assert(rows(sources, lens, self.entered as int) == rows(
                            sources,
                            lens,
                            self.entered - 1,
                        ) + source_rows(self.current_source, lens[self.current_source as int]));
                    }
                }
                self.fetch = self.query_state.place(
                    self.world,
                    self.is_dense,
                    source,
                    self.last_change_tick,
                    self.change_tick,
                );
                self.current_len = if self.is_dense {
                    self.world.tables[source].len()
                } else {
                    self.world.archetypes[source].len()
                };
                self.current_source = source;
                self.current_index = 0;
                self.entered += 1;
                continue;
            }
            proof {
                lemma_rows_index(
                    sources,
                    lens,
                    sources.len() as int,
                    self.entered - 1,
                    self.current_index as int,
                );
                if !self.is_dense {
                    assert(self.world.archetype_wf(self.current_source as int));
                }
                lemma_filtered_prefix(
                    self.query_state.fetch_state@,
                    self.query_state.filter_state@,
                    *self.world,
                    self.is_dense,
                    walk,
                    self.consumed() + 1,
                    walk.len() as int,
                    self.last_change_tick,
                    self.change_tick,
                );
            }
            let item = self.query_state.item_at(
                self.world,
                self.is_dense,
                &self.fetch,
                self.current_source,
                self.current_index,
                self.last_change_tick,
                self.change_tick,
            );
            let accepted = self.query_state.accepts(
                self.world,
                item.entity,
                self.last_change_tick,
                self.change_tick,
            );
            let ghost before = self.consumed();
            proof {
                assert(walk[before] == crate::rows::Row {
                    source: self.current_source,
                    index: self.current_index,
                });
                assert(item@.entity == crate::items::row_entity(
                    *self.world,
                    self.is_dense,
                    walk[before],
                ));
            }
            self.current_index += 1;
            proof {
                assert(self.consumed() == before + 1);
                assert(self.yielded().is_prefix_of(items));
            }
            if accepted {
                proof {
                    assert(self.yielded()[old(self).yielded().len() as int] == item@);
                    assert(item@ == items[old(self).yielded().len() as int]);
                    assert(self.remaining() =~= old(self).remaining().skip(1));
                }
                return Some(item);
            }
        }
    }

    /// The bounds on the number of items that are still to come: none from below,
    /// and from above the number of entities in the matched archetypes, where that
    /// number fits.
    pub fn size_hint(&self) -> (hint: (usize, Option<usize>))
        requires
            self.wf(),
        ensures
            hint.0 == 0,
            hint.1 == if self.max_size() <= usize::MAX {
                Some(self.max_size() as usize)
            } else {
                None
            },
    {
        let ids = &self.query_state.matched_archetype_ids;
        let ghost lens = archetype_lens(*self.world);
        let mut max_size: usize = 0;
        let mut k: usize = 0;
        while k < ids.len()
            invariant
                k <= ids.len(),
                self.wf(),
                ids == &self.query_state.matched_archetype_ids,
                lens == archetype_lens(*self.world),
                max_size == rows(ids@, lens, k as int).len(),
            decreases ids.len() - k,
        {
            let len = self.world.archetypes[ids[k]].len();
            proof {
                assert(rows(ids@, lens, k + 1) == rows(ids@, lens, k as int) + source_rows(
                    ids[k as int],
                    lens[ids[k as int] as int],
                ));
                lemma_rows_prefix(ids@, lens, k + 1, ids.len() as int);
            }
            max_size = match max_size.checked_add(len) {
                Some(sum) => sum,
                None => {
                    return (0, None);
                },
            };
            k += 1;
        }
        (0, Some(max_size))
    }

    /// The number of entities in the matched archetypes.
    pub open spec fn max_size(&self) -> nat {
        rows(
            self.query_state.matched_archetype_ids@,
            archetype_lens(*self.world),
            self.query_state.matched_archetype_ids.len() as int,
        ).len()
    }

    /// The number of entities in the matched archetypes, which is the number of items
    /// of a query without a filter.
    pub fn len(&self) -> (len: usize)
        requires
            self.wf(),
            self.max_size() <= usize::MAX,
        ensures
            len == self.max_size(),
    {
        match self.size_hint().1 {
            Some(len) => len,
            None => 0,
        }
    }
}

} // verus!
