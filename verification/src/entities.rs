//! Entity identifiers and the allocator that issues and recycles them.

use std::rc::Rc;
use vstd::prelude::*;
use crate::bitset::{
    create_bitset, lemma_members_skip, members_from, BitSetVec, BITSET_SIZE, BITSET_SLICE_COUNT,
};

verus! {

/// A lightweight identifier: a slot index and the generation of that slot.
///
/// Two entities are equal exactly when both fields are equal, so a handle to
/// a freed and reused index differs from the entity that now lives there.
#[derive(Clone, Copy, Debug, PartialEq, Eq, Structural, Hash, PartialOrd, Ord)]
pub struct Entity {
    index: u32,
    generation: u32,
}

impl Entity {
    /// The slot index.
    pub closed spec fn spec_index(&self) -> u32 {
        self.index
    }

    /// The generation of the slot at the time the entity was created.
    pub closed spec fn spec_generation(&self) -> u32 {
        self.generation
    }

    /// Builds an identifier from its two parts.
    pub fn new(index: u32, generation: u32) -> (e: Entity)
        ensures
            e.index() == index,
            e.generation() == generation,
    {
        Entity { index, generation }
    }

    /// The slot index.
    #[verifier::when_used_as_spec(spec_index)]
    pub fn index(&self) -> (i: u32)
        ensures
            i == self.index(),
    {
        self.index
    }

    /// The generation of the slot at the time the entity was created.
    #[verifier::when_used_as_spec(spec_generation)]
    pub fn generation(&self) -> (g: u32)
        ensures
            g == self.generation(),
    {
        self.generation
    }

    /// An entity is its index and its generation, nothing more.
    pub proof fn lemma_equal(a: Entity, b: Entity)
        ensures
            (a == b) <==> (a.index() == b.index() && a.generation() == b.generation()),
    {
    }
}

/// The entity that stands for slot `index` at generation `generation`.
pub open spec fn entity_at(index: int, generation: u32) -> Entity
    recommends
        0 <= index <= u32::MAX,
{
    choose|e: Entity| e.index() == index && e.generation() == generation
}

/// [`entity_at`] names the one entity with that index and generation.
pub proof fn lemma_entity_at(e: Entity)
    ensures
        entity_at(e.index() as int, e.generation()) == e,
{
    let found = entity_at(e.index() as int, e.generation());
    assert(e.index() == e.index() as int && e.generation() == e.generation());
    Entity::lemma_equal(found, e);
}

/// What an allocator holds, as plain mathematics: the generation counter of
/// every slot that was ever handed out, and the set of slots that are alive.
pub struct EntitiesModel {
    pub generations: Seq<u32>,
    pub alive: Set<int>,
}

impl EntitiesModel {
    /// Every live slot has a counter, and the counter of a live slot is not
    /// at its last value.
    pub open spec fn wf(self) -> bool {
        &&& self.generations.len() <= BITSET_SIZE
        &&& forall|i: int|
            self.alive.contains(i) ==> 0 <= i < self.generations.len() && self.generations[i]
                < u32::MAX
    }

    /// A slot is free when it was handed out before, is not alive now, and
    /// its counter can still tell the next entity from the last one. A slot
    /// whose counter has reached `u32::MAX` is retired for good.
    pub open spec fn is_free(self, i: int) -> bool {
        &&& 0 <= i < self.generations.len()
        &&& !self.alive.contains(i)
        &&& self.generations[i] < u32::MAX
    }

    /// The smallest free slot that is `start` or more, or the number of slots
    /// if there is none.
    pub open spec fn first_free_from(self, start: int) -> int
        decreases self.generations.len() - start,
    {
        if start >= self.generations.len() {
            self.generations.len() as int
        } else if self.is_free(start) {
            start
        } else {
            self.first_free_from(start + 1)
        }
    }

    /// The slot that the next entity gets: the smallest free one, or a new
    /// slot at the end if none is free.
    pub open spec fn next_index(self) -> int {
        self.first_free_from(0)
    }

    /// Whether another entity can be created: a slot is free, or the number
    /// of slots is below [`BITSET_SIZE`].
    pub open spec fn has_room(self) -> bool {
        self.next_index() < BITSET_SIZE
    }

    /// The entity that the next creation returns.
    pub open spec fn next_entity(self) -> Entity {
        let i = self.next_index();
        if i < self.generations.len() {
            entity_at(i, self.generations[i])
        } else {
            entity_at(i, 0)
        }
    }

    /// The allocator after a creation.
    pub open spec fn create(self) -> EntitiesModel {
        let i = self.next_index();
        EntitiesModel {
            generations: if i < self.generations.len() {
                self.generations
            } else {
                self.generations.push(0)
            },
            alive: self.alive.insert(i),
        }
    }

    /// An entity is alive when its slot is alive and its generation is the
    /// slot's counter.
    pub open spec fn is_alive(self, e: Entity) -> bool {
        &&& self.alive.contains(e.index() as int)
        &&& e.index() < self.generations.len()
        &&& self.generations[e.index() as int] == e.generation()
    }

    /// The allocator after `e` was killed: unchanged unless `e` is alive,
    /// else the slot is no longer alive and its counter is one more.
    pub open spec fn kill(self, e: Entity) -> EntitiesModel {
        if self.is_alive(e) {
            EntitiesModel {
                generations: self.generations.update(
                    e.index() as int,
                    (e.generation() + 1) as u32,
                ),
                alive: self.alive.remove(e.index() as int),
            }
        } else {
            self
        }
    }

    /// The entities that are alive and whose index is in `filter`, from
    /// index `start` on, in ascending order of index.
    pub open spec fn alive_in(self, filter: Set<int>, start: int) -> Seq<Entity> {
        members_from(self.alive.intersect(filter), start, self.generations.len() as int).map_values(
            |i: int| entity_at(i, self.generations[i]),
        )
    }

    /// The slot that the next entity gets is free, or it is a new slot and
    /// no slot is free; no free slot comes before it.
    pub proof fn lemma_next_index(self)
        ensures
            0 <= self.next_index() <= self.generations.len(),
            self.next_index() < self.generations.len() ==> self.is_free(self.next_index()),
            forall|j: int| 0 <= j < self.next_index() ==> !self.is_free(j),
    {
        self.lemma_first_free_from(0);
    }

    proof fn lemma_first_free_from(self, start: int)
        requires
            0 <= start,
        ensures
            0 <= self.first_free_from(start),
            start <= self.generations.len() ==> start <= self.first_free_from(start)
                <= self.generations.len(),
            self.first_free_from(start) < self.generations.len() ==> self.is_free(
                self.first_free_from(start),
            ),
            forall|j: int| start <= j < self.first_free_from(start) ==> !self.is_free(j),
        decreases self.generations.len() - start,
    {
        if start < self.generations.len() && !self.is_free(start) {
            self.lemma_first_free_from(start + 1);
        }
    }

    /// Skipping slots that are not free does not change which free slot is
    /// found first.
    proof fn lemma_skip_taken(self, start: int, end: int)
        requires
            0 <= start <= end <= self.generations.len(),
            forall|j: int| start <= j < end ==> !self.is_free(j),
        ensures
            self.first_free_from(start) == self.first_free_from(end),
        decreases end - start,
    {
        if start < end {
            self.lemma_skip_taken(start + 1, end);
        }
    }

    /// Creation keeps the allocator well formed, and the new entity is alive
    /// afterwards.
    pub proof fn lemma_create(self)
        requires
            self.wf(),
            self.has_room(),
        ensures
            self.create().wf(),
            self.create().is_alive(self.next_entity()),
            self.next_entity().index() == self.next_index(),
            !self.alive.contains(self.next_index()),
    {
        self.lemma_next_index();
        let i = self.next_index();
        if i < self.generations.len() {
            lemma_entity_at_parts(i, self.generations[i]);
        } else {
            lemma_entity_at_parts(i, 0);
        }
    }

    /// Killing keeps the allocator well formed, and the killed entity is not
    /// alive afterwards.
    pub proof fn lemma_kill(self, e: Entity)
        requires
            self.wf(),
        ensures
            self.kill(e).wf(),
            !self.kill(e).is_alive(e),
    {
    }
}

/// [`entity_at`] has the index and the generation it was asked for.
pub proof fn lemma_entity_at_parts(index: int, generation: u32)
    requires
        0 <= index <= u32::MAX,
    ensures
        entity_at(index, generation).index() == index,
        entity_at(index, generation).generation() == generation,
{
    let witness = Entity { index: index as u32, generation };
    assert(witness.index() == index && witness.generation() == generation);
}

/// A killed entity stays dead, and the entity that is created next on its
/// index has a greater generation.
pub proof fn lemma_recreated_is_newer(m: EntitiesModel, e: Entity)
    requires
        m.wf(),
        m.is_alive(e),
        m.kill(e).has_room(),
        m.kill(e).next_entity().index() == e.index(),
    ensures
        m.kill(e).next_entity().generation() > e.generation(),
        !m.kill(e).is_alive(e),
        !m.kill(e).create().is_alive(e),
        m.kill(e).create().is_alive(m.kill(e).next_entity()),
{
    let killed = m.kill(e);
    m.lemma_kill(e);
    killed.lemma_create();
    killed.lemma_next_index();
    let i = killed.next_index();
    lemma_entity_at_parts(i, killed.generations[i]);
}

/// Issues and recycles entity identifiers.
pub struct Entities {
    alive: BitSetVec,
    generation: Vec<u32>,
}

impl View for Entities {
    type V = EntitiesModel;

    closed spec fn view(&self) -> EntitiesModel {
        EntitiesModel { generations: self.generation@, alive: self.alive@ }
    }
}

impl Entities {
    /// The representation is sound: the bitset has its full length and the
    /// model is well formed.
    pub closed spec fn wf(&self) -> bool {
        &&& self.alive.0@.len() == BITSET_SLICE_COUNT
        &&& self@.wf()
    }

    /// A well-formed allocator has a well-formed model.
    pub proof fn lemma_wf(&self)
        requires
            self.wf(),
        ensures
            self@.wf(),
    {
    }

    /// An allocator with no slots.
    pub fn new() -> (entities: Entities)
        ensures
            entities.wf(),
            entities@.generations == Seq::<u32>::empty(),
            entities@.alive == Set::<int>::empty(),
    {
        Entities { alive: create_bitset(), generation: Vec::new() }
    }

    /// The slot that the next entity gets.
    fn find_free(&self) -> (i: usize)
        requires
            self.wf(),
        ensures
            i == self@.next_index(),
    {
        let mut i: usize = 0;
        loop
            invariant
                self.wf(),
                i <= self.generation@.len(),
                self@.first_free_from(0) == self@.first_free_from(i as int),
            decreases self.generation@.len() - i,
        {
            let free = self.alive.first_unset_from(i);
            proof {
                assert(!self.alive@.contains(self.generation@.len() as int));
                assert(free <= self.generation@.len()) by {
                    if free > self.generation@.len() {
                        assert(self.alive@.contains(self.generation@.len() as int));
                    }
                }
                assert forall|j: int| i <= j < free implies !self@.is_free(j) by {
                    assert(self.alive@.contains(j));
                }
                self@.lemma_skip_taken(i as int, free as int);
            }
            if free >= self.generation.len() {
                return free;
            }
            if self.generation[free] < u32::MAX {
                return free;
            }
            i = free + 1;
        }
    }

    /// Whether another entity can be created.
    pub fn has_room(&self) -> (r: bool)
        requires
            self.wf(),
        ensures
            r == self@.has_room(),
    {
        self.find_free() < BITSET_SIZE
    }

    /// Creates a new entity. It takes the smallest free index if there is
    /// one, else a new index at the end, and the generation that the slot's
    /// counter shows.
    pub fn create(&mut self) -> (e: Entity)
        requires
            old(self).wf(),
            old(self)@.has_room(),
        ensures
            final(self).wf(),
            e == old(self)@.next_entity(),
            final(self)@ == old(self)@.create(),
    {
        let i = self.find_free();
        proof {
            self@.lemma_next_index();
            self@.lemma_create();
        }
        let generation = if i < self.generation.len() {
            self.generation[i]
        } else {
            self.generation.push(0);
            0
        };
        self.alive.bit_set(i);
        let e = Entity::new(i as u32, generation);
        proof {
            lemma_entity_at(e);
            assert(self@.generations =~= old(self)@.create().generations);
        }
        e
    }

    /// Creates a new entity if there is room for one, else changes nothing.
    pub fn try_create(&mut self) -> (r: Option<Entity>)
        requires
            old(self).wf(),
        ensures
            final(self).wf(),
            match r {
                Some(e) => old(self)@.has_room() && e == old(self)@.next_entity() && final(self)@
                    == old(self)@.create(),
                None => !old(self)@.has_room() && final(self)@ == old(self)@,
            },
    {
        if self.has_room() {
            Some(self.create())
        } else {
            None
        }
    }

    /// Checks if the entity is alive: its index is live and its generation
    /// is the one the slot has now.
    pub fn is_alive(&self, entity: Entity) -> (r: bool)
        requires
            self.wf(),
        ensures
            r == self@.is_alive(entity),
    {
        let i = entity.index() as usize;
        self.alive.contains(entity) && i < self.generation.len() && self.generation[i]
            == entity.generation()
    }

    /// Kills an entity. Returns whether it was alive; killing an entity that
    /// is not alive changes nothing.
    pub fn kill(&mut self, entity: Entity) -> (killed: bool)
        requires
            old(self).wf(),
        ensures
            final(self).wf(),
            killed == old(self)@.is_alive(entity),
            final(self)@ == old(self)@.kill(entity),
    {
        if self.is_alive(entity) {
            let i = entity.index() as usize;
            self.alive.bit_reset(i);
            let next = self.generation[i] + 1;
            self.generation[i] = next;
            proof {
                assert(self@.generations =~= old(self)@.kill(entity).generations);
            }
            true
        } else {
            false
        }
    }

    /// The bitset of the live indices.
    pub fn bitset(&self) -> (bits: &BitSetVec)
        requires
            self.wf(),
        ensures
            bits@ == self@.alive,
            bits.0@.len() == BITSET_SLICE_COUNT,
    {
        &self.alive
    }

    /// The generation counter of every slot that was ever handed out.
    pub fn generations(&self) -> (generations: &Vec<u32>)
        ensures
            generations@ == self@.generations,
    {
        &self.generation
    }

    /// Puts an allocator together from the bitset of its live slots and the
    /// counters of its slots, as they were taken from another allocator. It
    /// fails unless the two fit: the bitset has its full length, there are
    /// no more counters than entities can be alive, and every live slot has
    /// a counter that is not at its last value.
    pub fn from_parts(alive: BitSetVec, generations: Vec<u32>) -> (r: Option<Entities>)
        ensures
            r is Some <==> alive.0@.len() == BITSET_SLICE_COUNT && (EntitiesModel {
                generations: generations@,
                alive: alive@,
            }).wf(),
            r is Some ==> r.unwrap().wf() && r.unwrap()@ == (EntitiesModel {
                generations: generations@,
                alive: alive@,
            }),
    {
        if alive.0.len() != BITSET_SLICE_COUNT || generations.len() > BITSET_SIZE {
            return None;
        }
        let mut next: usize = 0;
        loop
            invariant
                alive.0@.len() == BITSET_SLICE_COUNT,
                generations@.len() <= BITSET_SIZE,
                forall|i: int|
                    0 <= i < next && alive@.contains(i) ==> i < generations@.len()
                        && generations@[i] < u32::MAX,
            decreases BITSET_SLICE_COUNT * 256 - next,
        {
            match alive.next_set_from(next) {
                None => {
                    return Some(Entities { alive, generation: generations });
                },
                Some(i) => {
                    if i >= generations.len() || generations[i] == u32::MAX {
                        proof {
                            let model = EntitiesModel { generations: generations@, alive: alive@ };
                            assert(model.alive.contains(i as int));
                            assert(!model.wf());
                        }
                        return None;
                    }
                    next = i + 1;
                },
            }
        }
    }

    /// The number of slots that were ever handed out.
    pub fn capacity(&self) -> (n: usize)
        ensures
            n == self@.generations.len(),
    {
        self.generation.len()
    }
}

/// Walks the entities that are alive and in a filter bitset, in ascending
/// order of index.
pub struct EntityIterator<'a> {
    current_id: usize,
    entities: &'a Entities,
    bitset: Rc<BitSetVec>,
}

impl<'a> EntityIterator<'a> {
    /// The allocator that is walked is well formed.
    pub closed spec fn wf(&self) -> bool {
        self.entities.wf()
    }

    /// The allocator that is walked.
    pub closed spec fn entities(&self) -> EntitiesModel {
        self.entities@
    }

    /// The filter: only entities whose index is in it are yielded.
    pub closed spec fn filter(&self) -> Set<int> {
        self.bitset@
    }

    /// The index from which the walk goes on.
    pub closed spec fn position(&self) -> int {
        self.current_id as int
    }

    /// The entities still to come, in the order in which they come.
    pub open spec fn pending(&self) -> Seq<Entity> {
        self.entities().alive_in(self.filter(), self.position())
    }

    /// The next entity, or `None` when the walk is over.
    pub fn next(&mut self) -> (r: Option<Entity>)
        requires
            old(self).wf(),
        ensures
            final(self).wf(),
            final(self).entities() == old(self).entities(),
            final(self).filter() == old(self).filter(),
            r == (if old(self).pending().len() > 0 {
                Some(old(self).pending()[0])
            } else {
                None
            }),
            final(self).pending() == (if old(self).pending().len() > 0 {
                old(self).pending().drop_first()
            } else {
                old(self).pending()
            }),
    {
        let ghost both = self.entities@.alive.intersect(self.bitset@);
        let ghost end = self.entities@.generations.len() as int;
        let ghost model = self.entities@;
        let ghost label = |i: int| entity_at(i, model.generations[i]);
        loop
            invariant
                self.wf(),
                self.entities() == old(self).entities(),
                self.filter() == old(self).filter(),
                self.pending() == old(self).pending(),
                both == self.entities@.alive.intersect(self.bitset@),
                end == self.entities@.generations.len(),
                model == self.entities@,
                label == |i: int| entity_at(i, model.generations[i]),
            decreases end - self.current_id,
        {
            let found = self.entities.alive.next_set_from(self.current_id);
            match found {
                None => {
                    proof {
                        if self.current_id < end {
                            lemma_members_skip(both, self.current_id as int, end, end);
                        }
                        assert(self.pending() =~= Seq::<Entity>::empty());
                    }
                    return None;
                },
                Some(i) => {
                    proof {
                        assert(i < end);
                        lemma_members_skip(both, self.current_id as int, i as int, end);
                    }
                    self.current_id = i + 1;
                    if self.bitset.contains_index(i) {
                        let e = Entity::new(i as u32, self.entities.generation[i]);
                        proof {
                            lemma_entity_at(e);
                            let rest = members_from(both, i + 1, end);
                            assert(members_from(both, i as int, end) == seq![i as int] + rest);
                            assert((seq![i as int] + rest).map_values(label) =~= seq![e]
                                + rest.map_values(label));
                            assert((seq![e] + rest.map_values(label)).drop_first()
                                =~= rest.map_values(label));
                        }
                        return Some(e);
                    } else {
                        proof {
                            assert(!both.contains(i as int));
                            assert(members_from(both, i as int, end) == members_from(
                                both,
                                i + 1,
                                end,
                            ));
                        }
                    }
                },
            }
        }
    }
}

impl Entities {
    /// Walks the live entities whose index is in `bitset`, in ascending
    /// order of index.
    pub fn iter_with_bitset(&self, bitset: Rc<BitSetVec>) -> (iter: EntityIterator<'_>)
        requires
            self.wf(),
        ensures
            iter.wf(),
            iter.entities() == self@,
            iter.filter() == bitset@,
            iter.position() == 0,
    {
        EntityIterator { current_id: 0, entities: self, bitset }
    }
}

impl Default for Entities {
    fn default() -> (entities: Entities)
        ensures
            entities.wf(),
            entities@.generations == Seq::<u32>::empty(),
            entities@.alive == Set::<int>::empty(),
    {
        Entities::new()
    }
}

} // verus!
