//! Taking a store apart into plain entries and putting it together again.
//!
//! What is written out of a store is its schema and its entries: each entity
//! index that has a value, with the generation that the value was inserted
//! at and the value, in ascending order of index. Reading entries back into
//! a store first holds the schema that came with them against the store's
//! own.

use vstd::prelude::*;
use crate::bitset::{lemma_members_from, lemma_members_skip, members_from};
use crate::components::untyped::{UntypedComponentStore, STORE_CAPACITY};
use crate::entities::Entity;
use crate::schema::{Schema, SchemaMismatchError};

verus! {

/// The entries of what a store holds, from index `start` on and below
/// `end`, in ascending order of index: index, generation, value.
pub open spec fn entries_of<T>(content: Map<int, (u32, T)>, start: int, end: int) -> Seq<
    (u32, u32, T),
> {
    members_from(content.dom(), start, end).map_values(
        |index: int| (index as u32, content[index].0, content[index].1),
    )
}

/// What entries stand for: each entry gives its index its generation and
/// its value, and a later entry for the same index wins.
pub open spec fn map_of<T>(entries: Seq<(u32, u32, T)>) -> Map<int, (u32, T)>
    decreases entries.len(),
{
    if entries.len() == 0 {
        Map::empty()
    } else {
        let entry = entries.last();
        map_of(entries.drop_last()).insert(entry.0 as int, (entry.1, entry.2))
    }
}

/// Whether every entry names an index that a store has room for.
pub open spec fn in_range<T>(entries: Seq<(u32, u32, T)>) -> bool {
    forall|k: int| 0 <= k < entries.len() ==> (#[trigger] entries[k]).0 < STORE_CAPACITY
}

/// What [`map_of`] holds: an index is in the map exactly when an entry
/// names it, and what it has is then what the last such entry gives.
pub proof fn lemma_map_of<T>(entries: Seq<(u32, u32, T)>)
    ensures
        forall|index: int| #[trigger]
            map_of(entries).dom().contains(index) <==> exists|j: int|
                0 <= j < entries.len() && (#[trigger] entries[j]).0 == index,
        forall|j: int|
            0 <= j < entries.len() && (forall|k: int|
                j < k < entries.len() ==> (#[trigger] entries[k]).0 != entries[j].0) ==> map_of(
                entries,
            )[(#[trigger] entries[j]).0 as int] == (entries[j].1, entries[j].2),
    decreases entries.len(),
{
    if entries.len() > 0 {
        let front = entries.drop_last();
        lemma_map_of(front);
        assert forall|index: int| #[trigger]
            map_of(entries).dom().contains(index) implies exists|j: int|
            0 <= j < entries.len() && (#[trigger] entries[j]).0 == index by {
            if map_of(front).dom().contains(index) {
                let j = choose|j: int| 0 <= j < front.len() && (#[trigger] front[j]).0 == index;
                assert(entries[j] == front[j]);
            } else {
                assert(entries[entries.len() - 1].0 == index);
            }
        }
        assert forall|index: int|
            (exists|j: int| 0 <= j < entries.len() && (#[trigger] entries[j]).0 == index)
            implies #[trigger] map_of(entries).dom().contains(index) by {
            let j = choose|j: int| 0 <= j < entries.len() && (#[trigger] entries[j]).0 == index;
            if j < front.len() {
                assert(front[j] == entries[j]);
                assert(map_of(front).dom().contains(index));
            }
        }
        assert forall|j: int|
            0 <= j < entries.len() && (forall|k: int|
                j < k < entries.len() ==> (#[trigger] entries[k]).0 != entries[j].0) implies map_of(
            entries,
        )[(#[trigger] entries[j]).0 as int] == (entries[j].1, entries[j].2) by {
            if j < front.len() {
                assert(front[j] == entries[j]);
                assert(entries[entries.len() - 1].0 != entries[j].0);
                assert forall|k: int| j < k < front.len() implies (#[trigger] front[k]).0
                    != front[j].0 by {
                    assert(entries[k].0 != entries[j].0);
                }
            }
        }
    }
}

/// Writing out what a store holds and reading it back gives the same again,
/// and what is written out names only indices that a store has room for, if
/// what the store holds does.
pub proof fn lemma_entries_round_trip<T>(content: Map<int, (u32, T)>)
    requires
        forall|index: int| content.dom().contains(index) ==> 0 <= index < STORE_CAPACITY,
    ensures
        map_of(entries_of(content, 0, STORE_CAPACITY as int)) == content,
        in_range(entries_of(content, 0, STORE_CAPACITY as int)),
{
    let end = STORE_CAPACITY as int;
    let entries = entries_of(content, 0, end);
    let indices = members_from(content.dom(), 0, end);
    lemma_members_from(content.dom(), 0, end);
    lemma_map_of(entries);
    assert forall|k: int| 0 <= k < entries.len() implies (#[trigger] entries[k]).0
        < STORE_CAPACITY by {
        assert(indices[k] < end);
    }
    assert forall|index: int| map_of(entries).dom().contains(index) <==> content.dom().contains(
        index,
    ) by {
        if map_of(entries).dom().contains(index) {
            let j = choose|j: int| 0 <= j < entries.len() && (#[trigger] entries[j]).0 == index;
            assert(indices[j] == index);
        }
        if content.dom().contains(index) {
            assert(indices.contains(index));
            let j = choose|j: int| 0 <= j < indices.len() && indices[j] == index;
            assert(entries[j].0 == index);
        }
    }
    assert forall|index: int| content.dom().contains(index) implies map_of(entries)[index]
        == content[index] by {
        assert(indices.contains(index));
        let j = choose|j: int| 0 <= j < indices.len() && indices[j] == index;
        assert(entries[j].0 == index);
        assert forall|k: int| j < k < entries.len() implies (#[trigger] entries[k]).0
            != entries[j].0 by {
            assert(indices[j] < indices[k]);
        }
    }
    assert(map_of(entries) =~= content);
}

/// Whether every entry names an index that a store has room for. Entries
/// that come from elsewhere are asked this before they are loaded.
pub fn entries_fit<T>(entries: &Vec<(u32, u32, T)>) -> (r: bool)
    ensures
        r == in_range(entries@),
{
    let mut k: usize = 0;
    while k < entries.len()
        invariant
            k <= entries@.len(),
            forall|j: int| 0 <= j < k ==> (#[trigger] entries@[j]).0 < STORE_CAPACITY,
        decreases entries@.len() - k,
    {
        if entries[k].0 as usize >= STORE_CAPACITY {
            return false;
        }
        k += 1;
    }
    true
}

impl<T> UntypedComponentStore<T> {
    /// The entries of the store: each entity index that has a value, with
    /// the generation that the value was inserted at and the value, in
    /// ascending order of index.
    pub fn entries(&self) -> (entries: Vec<(u32, u32, &T)>)
        requires
            self.wf(),
        ensures
            entries@.len() == entries_of(self.content(), 0, STORE_CAPACITY as int).len(),
            forall|k: int|
                0 <= k < entries@.len() ==> {
                    let entry = #[trigger] entries@[k];
                    let written = entries_of(self.content(), 0, STORE_CAPACITY as int)[k];
                    entry.0 == written.0 && entry.1 == written.1 && *entry.2 == written.2
                },
    {
        let mut entries: Vec<(u32, u32, &T)> = Vec::new();
        let mut next: usize = 0;
        let ghost end = STORE_CAPACITY as int;
        let ghost content = self.content();
        let ghost all = entries_of(content, 0, end);
        let ghost label = |index: int| (index as u32, content[index].0, content[index].1);
        proof {
            self.lemma_wf();
            assert(content.dom() =~= self@.dom());
        }
        loop
            invariant
                self.wf(),
                next <= STORE_CAPACITY,
                end == STORE_CAPACITY,
                content == self.content(),
                content.dom() == self@.dom(),
                all == entries_of(content, 0, end),
                label == |index: int| (index as u32, content[index].0, content[index].1),
                entries@.len() <= all.len(),
                all == all.take(entries@.len() as int) + members_from(
                    content.dom(),
                    next as int,
                    end,
                ).map_values(label),
                forall|k: int|
                    0 <= k < entries@.len() ==> (#[trigger] entries@[k]).0 == all[k].0
                        && entries@[k].1 == all[k].1 && *entries@[k].2 == all[k].2,
            decreases STORE_CAPACITY - next,
        {
            let found = self.bitset().next_set_in(next, STORE_CAPACITY);
            match found {
                None => {
                    proof {
                        if next < end {
                            lemma_members_skip(content.dom(), next as int, end, end);
                        }
                        assert(all =~= all.take(entries@.len() as int));
                    }
                    return entries;
                },
                Some(index) => {
                    proof {
                        lemma_members_skip(content.dom(), next as int, index as int, end);
                        let rest = members_from(content.dom(), index + 1, end);
                        assert(members_from(content.dom(), index as int, end) == seq![index as int]
                            + rest);
                        assert((seq![index as int] + rest).map_values(label) =~= seq![
                            label(index as int),
                        ] + rest.map_values(label));
                        let done = entries@.len() as int;
                        assert(all[done] == label(index as int));
                        assert(all.take(done + 1) =~= all.take(done) + seq![label(index as int)]);
                        assert(all =~= all.take(done + 1) + rest.map_values(label));
                    }
                    match self.entry_at(index) {
                        Some((generation, value)) => {
                            entries.push((index as u32, generation, value));
                        },
                        None => {},
                    }
                    next = index + 1;
                },
            }
        }
    }

    /// Replaces what the store holds by the given entries, if the schema
    /// that came with them is the store's own; else fails and leaves the
    /// store as it is. Every entry names an index that a store has room
    /// for.
    pub fn load(&mut self, schema: &Schema, entries: Vec<(u32, u32, T)>) -> (r: Result<
        (),
        SchemaMismatchError,
    >)
        requires
            old(self).wf(),
            in_range(entries@),
        ensures
            final(self).wf(),
            final(self).schema_model() == old(self).schema_model(),
            r is Ok <==> schema@ == old(self).schema_model(),
            r is Ok ==> final(self).content() == map_of(entries@),
            r is Err ==> final(self)@ == old(self)@ && final(self).generations() == old(self).generations() && final(self).dense() == old(self).dense() && final(self).dense_owners() == old(self).dense_owners(),
    {
        if !self.schema().same_as(schema) {
            return Err(SchemaMismatchError);
        }
        self.clear();
        let ghost all = entries@;
        proof {
            assert(self.content() =~= map_of(all.take(0)));
        }
        for entry in iter: entries
            invariant
                self.wf(),
                self.schema_model() == old(self).schema_model(),
                iter.seq() == all,
                in_range(all),
                self.content() == map_of(all.take(iter.index() as int)),
        {
            proof {
                assert(all.take(iter.index() + 1).drop_last() =~= all.take(iter.index() as int));
                assert(entry == all[iter.index() as int]);
            }
            let ghost before = self.content();
            self.insert(Entity::new(entry.0, entry.1), entry.2);
            proof {
                assert(self.content() =~= before.insert(entry.0 as int, (entry.1, entry.2)));
            }
        }
        proof {
            assert(all.take(all.len() as int) =~= all);
        }
        Ok(())
    }
}

} // verus!
