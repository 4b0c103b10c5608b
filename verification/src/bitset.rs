//! Bitsets that mark which entity indices are present.
//!
//! A bitset is a vector of 256-bit chunks, each chunk eight 32-bit lanes. The
//! single-bit and bulk operations are those of `bitset_core`; what they do to
//! the lanes is stated here, and the set-level contracts of [`BitSetVec`] are
//! proved from that.

use vstd::prelude::*;
use bitset_core::BitSet;
use crate::entities::Entity;

verus! {

/// Number of entity indices that can be alive at once.
pub const BITSET_SIZE: usize = 65536;

/// Number of chunks in a bitset made by [`create_bitset`].
pub const BITSET_SLICE_COUNT: usize = 2048;

/// The type of bitsets used to track entities in component stores.
/// Mostly used to create caches.
#[derive(Debug)]
pub struct BitSetVec(pub Vec<[u32; 8]>);

/// The mask that selects bit `bit` inside its lane.
pub open spec fn lane_mask(bit: int) -> u32 {
    1u32 << ((bit % 32) as u32)
}

/// Whether `bit` is set in a sequence of chunks: the chunk is `bit / 256`,
/// the lane inside it `(bit / 32) % 8`, the position inside the lane
/// `bit % 32`. No bit at or beyond `256 * chunks.len()` is set.
pub open spec fn bit_at(chunks: Seq<[u32; 8]>, bit: int) -> bool {
    &&& 0 <= bit < chunks.len() * 256
    &&& chunks[bit / 256][(bit / 32) % 8] & lane_mask(bit) != 0
}

/// The set of all bits that are set in a sequence of chunks.
pub open spec fn bits_of(chunks: Seq<[u32; 8]>) -> Set<int> {
    Set::new(|bit: int| bit_at(chunks, bit))
}

/// Whether every lane of a chunk is zero.
pub open spec fn chunk_is_zero(chunk: [u32; 8]) -> bool {
    forall|lane: int| 0 <= lane < 8 ==> chunk[lane] == 0
}

impl View for BitSetVec {
    type V = Set<int>;

    /// A bitset stands for the set of the indices whose bits are set.
    open spec fn view(&self) -> Set<int> {
        bits_of(self.0@)
    }
}

/// Calls `BitSet::bit_test` of `bitset_core` on the chunks. The contract
/// claims that it reads lane `(bit / 32) % 8` of chunk `bit / 256` and tests
/// it against the mask `1 << bit % 32`.
#[verifier::external_body]
fn chunks_bit_test(chunks: &Vec<[u32; 8]>, bit: usize) -> (r: bool)
    requires
        bit < chunks@.len() * 256,
    ensures
        r == (chunks@[bit as int / 256][(bit as int / 32) % 8] & lane_mask(bit as int) != 0),
{
    chunks.bit_test(bit)
}

/// Calls `BitSet::bit_set` of `bitset_core` on the chunks. The contract
/// claims that it ors the mask `1 << bit % 32` into lane `(bit / 32) % 8` of
/// chunk `bit / 256` and leaves every other lane as it was.
#[verifier::external_body]
fn chunks_bit_set(chunks: &mut Vec<[u32; 8]>, bit: usize)
    requires
        bit < old(chunks)@.len() * 256,
    ensures
        final(chunks)@.len() == old(chunks)@.len(),
        forall|c: int, lane: int|
            0 <= c < old(chunks)@.len() && 0 <= lane < 8 ==> #[trigger] final(chunks)@[c][lane] == (
            if c == bit as int / 256 && lane == (bit as int / 32) % 8 {
                old(chunks)@[c][lane] | lane_mask(bit as int)
            } else {
                old(chunks)@[c][lane]
            }),
{
    chunks.bit_set(bit);
}

/// Calls `BitSet::bit_reset` of `bitset_core` on the chunks. The contract
/// claims that it clears the mask `1 << bit % 32` in lane `(bit / 32) % 8`
/// of chunk `bit / 256` and leaves every other lane as it was.
#[verifier::external_body]
fn chunks_bit_reset(chunks: &mut Vec<[u32; 8]>, bit: usize)
    requires
        bit < old(chunks)@.len() * 256,
    ensures
        final(chunks)@.len() == old(chunks)@.len(),
        forall|c: int, lane: int|
            0 <= c < old(chunks)@.len() && 0 <= lane < 8 ==> #[trigger] final(chunks)@[c][lane] == (
            if c == bit as int / 256 && lane == (bit as int / 32) % 8 {
                old(chunks)@[c][lane] & !lane_mask(bit as int)
            } else {
                old(chunks)@[c][lane]
            }),
{
    chunks.bit_reset(bit);
}

/// Calls `BitSet::bit_and` of `bitset_core` on the chunks. The contract
/// claims that every lane becomes the bitwise and of itself and the lane at
/// the same place in `rhs`; the call panics unless both have the same number
/// of chunks.
#[verifier::external_body]
fn chunks_bit_and(chunks: &mut Vec<[u32; 8]>, rhs: &Vec<[u32; 8]>)
    requires
        old(chunks)@.len() == rhs@.len(),
    ensures
        final(chunks)@.len() == old(chunks)@.len(),
        forall|c: int, lane: int|
            0 <= c < old(chunks)@.len() && 0 <= lane < 8 ==> #[trigger] final(chunks)@[c][lane]
                == old(chunks)@[c][lane] & rhs@[c][lane],
{
    chunks.bit_and(rhs);
}

/// Calls `BitSet::bit_init` of `bitset_core` on the chunks with `false`. The
/// contract claims that every lane becomes zero.
#[verifier::external_body]
fn chunks_bit_clear(chunks: &mut Vec<[u32; 8]>)
    ensures
        final(chunks)@.len() == old(chunks)@.len(),
        forall|c: int, lane: int|
            0 <= c < old(chunks)@.len() && 0 <= lane < 8 ==> #[trigger] final(chunks)@[c][lane]
                == 0,
{
    chunks.bit_init(false);
}

proof fn lemma_or_mask(w: u32, p: u32, q: u32)
    by (bit_vector)
    requires
        p < 32,
        q < 32,
    ensures
        ((w | (1u32 << p)) & (1u32 << q) != 0) == (p == q || (w & (1u32 << q) != 0)),
{
}

proof fn lemma_clear_mask(w: u32, p: u32, q: u32)
    by (bit_vector)
    requires
        p < 32,
        q < 32,
    ensures
        ((w & !(1u32 << p)) & (1u32 << q) != 0) == (p != q && (w & (1u32 << q) != 0)),
{
}

proof fn lemma_and_mask(a: u32, b: u32, q: u32)
    by (bit_vector)
    requires
        q < 32,
    ensures
        ((a & b) & (1u32 << q) != 0) == ((a & (1u32 << q) != 0) && (b & (1u32 << q) != 0)),
{
}

proof fn lemma_zero_mask(m: u32)
    by (bit_vector)
    ensures
        0u32 & m == 0,
{
}

/// A bit is found again from its chunk, its lane and its place in the lane.
proof fn lemma_bit_position(i: int, j: int)
    requires
        0 <= i,
        0 <= j,
        i / 256 == j / 256,
        (i / 32) % 8 == (j / 32) % 8,
        i % 32 == j % 32,
    ensures
        i == j,
{
}

/// A lane is known by its thirty-two bits.
proof fn lemma_lane_by_bits(a: u32, b: u32)
    by (bit_vector)
    requires
        (a & (1u32 << 0u32) != 0) == (b & (1u32 << 0u32) != 0),
        (a & (1u32 << 1u32) != 0) == (b & (1u32 << 1u32) != 0),
        (a & (1u32 << 2u32) != 0) == (b & (1u32 << 2u32) != 0),
        (a & (1u32 << 3u32) != 0) == (b & (1u32 << 3u32) != 0),
        (a & (1u32 << 4u32) != 0) == (b & (1u32 << 4u32) != 0),
        (a & (1u32 << 5u32) != 0) == (b & (1u32 << 5u32) != 0),
        (a & (1u32 << 6u32) != 0) == (b & (1u32 << 6u32) != 0),
        (a & (1u32 << 7u32) != 0) == (b & (1u32 << 7u32) != 0),
        (a & (1u32 << 8u32) != 0) == (b & (1u32 << 8u32) != 0),
        (a & (1u32 << 9u32) != 0) == (b & (1u32 << 9u32) != 0),
        (a & (1u32 << 10u32) != 0) == (b & (1u32 << 10u32) != 0),
        (a & (1u32 << 11u32) != 0) == (b & (1u32 << 11u32) != 0),
        (a & (1u32 << 12u32) != 0) == (b & (1u32 << 12u32) != 0),
        (a & (1u32 << 13u32) != 0) == (b & (1u32 << 13u32) != 0),
        (a & (1u32 << 14u32) != 0) == (b & (1u32 << 14u32) != 0),
        (a & (1u32 << 15u32) != 0) == (b & (1u32 << 15u32) != 0),
        (a & (1u32 << 16u32) != 0) == (b & (1u32 << 16u32) != 0),
        (a & (1u32 << 17u32) != 0) == (b & (1u32 << 17u32) != 0),
        (a & (1u32 << 18u32) != 0) == (b & (1u32 << 18u32) != 0),
        (a & (1u32 << 19u32) != 0) == (b & (1u32 << 19u32) != 0),
        (a & (1u32 << 20u32) != 0) == (b & (1u32 << 20u32) != 0),
        (a & (1u32 << 21u32) != 0) == (b & (1u32 << 21u32) != 0),
        (a & (1u32 << 22u32) != 0) == (b & (1u32 << 22u32) != 0),
        (a & (1u32 << 23u32) != 0) == (b & (1u32 << 23u32) != 0),
        (a & (1u32 << 24u32) != 0) == (b & (1u32 << 24u32) != 0),
        (a & (1u32 << 25u32) != 0) == (b & (1u32 << 25u32) != 0),
        (a & (1u32 << 26u32) != 0) == (b & (1u32 << 26u32) != 0),
        (a & (1u32 << 27u32) != 0) == (b & (1u32 << 27u32) != 0),
        (a & (1u32 << 28u32) != 0) == (b & (1u32 << 28u32) != 0),
        (a & (1u32 << 29u32) != 0) == (b & (1u32 << 29u32) != 0),
        (a & (1u32 << 30u32) != 0) == (b & (1u32 << 30u32) != 0),
        (a & (1u32 << 31u32) != 0) == (b & (1u32 << 31u32) != 0),
    ensures
        a == b,
{
}

proof fn lemma_same_bit(a: Seq<[u32; 8]>, b: Seq<[u32; 8]>, c: int, lane: int, q: u32)
    requires
        a.len() == b.len(),
        bits_of(a) == bits_of(b),
        0 <= c < a.len(),
        0 <= lane < 8,
        q < 32,
    ensures
        (a[c][lane] & (1u32 << q) != 0) == (b[c][lane] & (1u32 << q) != 0),
{
    let bit = c * 256 + lane * 32 + q;
    assert(bit / 256 == c && (bit / 32) % 8 == lane && bit % 32 == q);
    assert(bits_of(a).contains(bit) == bit_at(a, bit));
    assert(bits_of(b).contains(bit) == bit_at(b, bit));
}

/// Two bitsets of the same length that have the same members have the same
/// chunks: the set that a bitset stands for says all there is to say of it
/// but its length.
pub proof fn lemma_same_members_same_chunks(a: Seq<[u32; 8]>, b: Seq<[u32; 8]>)
    requires
        a.len() == b.len(),
        bits_of(a) == bits_of(b),
    ensures
        a == b,
{
    assert forall|c: int| 0 <= c < a.len() implies a[c] == b[c] by {
        assert forall|lane: int| 0 <= lane < 8 implies a[c][lane] == b[c][lane] by {
            lemma_same_bit(a, b, c, lane, 0u32);
            lemma_same_bit(a, b, c, lane, 1u32);
            lemma_same_bit(a, b, c, lane, 2u32);
            lemma_same_bit(a, b, c, lane, 3u32);
            lemma_same_bit(a, b, c, lane, 4u32);
            lemma_same_bit(a, b, c, lane, 5u32);
            lemma_same_bit(a, b, c, lane, 6u32);
            lemma_same_bit(a, b, c, lane, 7u32);
            lemma_same_bit(a, b, c, lane, 8u32);
            lemma_same_bit(a, b, c, lane, 9u32);
            lemma_same_bit(a, b, c, lane, 10u32);
            lemma_same_bit(a, b, c, lane, 11u32);
            lemma_same_bit(a, b, c, lane, 12u32);
            lemma_same_bit(a, b, c, lane, 13u32);
            lemma_same_bit(a, b, c, lane, 14u32);
            lemma_same_bit(a, b, c, lane, 15u32);
            lemma_same_bit(a, b, c, lane, 16u32);
            lemma_same_bit(a, b, c, lane, 17u32);
            lemma_same_bit(a, b, c, lane, 18u32);
            lemma_same_bit(a, b, c, lane, 19u32);
            lemma_same_bit(a, b, c, lane, 20u32);
            lemma_same_bit(a, b, c, lane, 21u32);
            lemma_same_bit(a, b, c, lane, 22u32);
            lemma_same_bit(a, b, c, lane, 23u32);
            lemma_same_bit(a, b, c, lane, 24u32);
            lemma_same_bit(a, b, c, lane, 25u32);
            lemma_same_bit(a, b, c, lane, 26u32);
            lemma_same_bit(a, b, c, lane, 27u32);
            lemma_same_bit(a, b, c, lane, 28u32);
            lemma_same_bit(a, b, c, lane, 29u32);
            lemma_same_bit(a, b, c, lane, 30u32);
            lemma_same_bit(a, b, c, lane, 31u32);
            lemma_lane_by_bits(a[c][lane], b[c][lane]);
        }
        assert(a[c] =~= b[c]);
    }
    assert(a =~= b);
}

/// No bit is set in a sequence of zero chunks.
pub proof fn lemma_zero_chunks_empty(chunks: Seq<[u32; 8]>)
    requires
        forall|c: int| 0 <= c < chunks.len() ==> chunk_is_zero(#[trigger] chunks[c]),
    ensures
        bits_of(chunks) =~= Set::<int>::empty(),
{
    assert forall|bit: int| !bit_at(chunks, bit) by {
        if 0 <= bit < chunks.len() * 256 {
            assert(chunk_is_zero(chunks[bit / 256]));
            lemma_zero_mask(lane_mask(bit));
        }
    }
}

impl BitSetVec {
    /// The number of bits the bitset has room for.
    pub open spec fn spec_bit_len(&self) -> nat {
        self.0@.len() * 256
    }

    /// Returns the total number of bits.
    pub fn bit_len(&self) -> (n: usize)
        requires
            self.0@.len() * 256 <= usize::MAX,
        ensures
            n == self.spec_bit_len(),
    {
        self.0.len() * 256
    }

    /// Returns whether the given bit is set.
    pub fn bit_test(&self, bit: usize) -> (r: bool)
        requires
            bit < self.spec_bit_len(),
        ensures
            r == self@.contains(bit as int),
    {
        chunks_bit_test(&self.0, bit)
    }

    /// Sets the given bit.
    pub fn bit_set(&mut self, bit: usize)
        requires
            bit < old(self).spec_bit_len(),
        ensures
            final(self)@ == old(self)@.insert(bit as int),
            final(self).0@.len() == old(self).0@.len(),
    {
        chunks_bit_set(&mut self.0, bit);
        proof {
            let b = bit as int;
            assert forall|i: int| bit_at(self.0@, i) == (i == b || bit_at(old(self).0@, i)) by {
                if 0 <= i < self.0@.len() * 256 {
                    let c = i / 256;
                    let lane = (i / 32) % 8;
                    assert(self.0@[c][lane] == (if c == b / 256 && lane == (b / 32) % 8 {
                        old(self).0@[c][lane] | lane_mask(b)
                    } else {
                        old(self).0@[c][lane]
                    }));
                    if c == b / 256 && lane == (b / 32) % 8 {
                        lemma_or_mask(old(self).0@[c][lane], (b % 32) as u32, (i % 32) as u32);
                        if i % 32 == b % 32 {
                            lemma_bit_position(i, b);
                        }
                    }
                }
            }
            assert(self@ =~= old(self)@.insert(b));
        }
    }

    /// Resets the given bit.
    pub fn bit_reset(&mut self, bit: usize)
        requires
            bit < old(self).spec_bit_len(),
        ensures
            final(self)@ == old(self)@.remove(bit as int),
            final(self).0@.len() == old(self).0@.len(),
    {
        chunks_bit_reset(&mut self.0, bit);
        proof {
            let b = bit as int;
            assert forall|i: int| bit_at(self.0@, i) == (i != b && bit_at(old(self).0@, i)) by {
                if 0 <= i < self.0@.len() * 256 {
                    let c = i / 256;
                    let lane = (i / 32) % 8;
                    assert(self.0@[c][lane] == (if c == b / 256 && lane == (b / 32) % 8 {
                        old(self).0@[c][lane] & !lane_mask(b)
                    } else {
                        old(self).0@[c][lane]
                    }));
                    if c == b / 256 && lane == (b / 32) % 8 {
                        lemma_clear_mask(old(self).0@[c][lane], (b % 32) as u32, (i % 32) as u32);
                        if i % 32 == b % 32 {
                            lemma_bit_position(i, b);
                        }
                    }
                }
            }
            assert(self@ =~= old(self)@.remove(b));
        }
    }

    /// Intersects the bitset with `rhs` in place.
    pub fn bit_and(&mut self, rhs: &BitSetVec)
        requires
            old(self).0@.len() == rhs.0@.len(),
        ensures
            final(self)@ == old(self)@.intersect(rhs@),
            final(self).0@.len() == old(self).0@.len(),
    {
        chunks_bit_and(&mut self.0, &rhs.0);
        proof {
            assert forall|i: int|
                self@.contains(i) == old(self)@.intersect(rhs@).contains(i) by {
                if 0 <= i < self.0@.len() * 256 {
                    let c = i / 256;
                    let lane = (i / 32) % 8;
                    assert(self.0@[c][lane] == old(self).0@[c][lane] & rhs.0@[c][lane]);
                    lemma_and_mask(old(self).0@[c][lane], rhs.0@[c][lane], (i % 32) as u32);
                }
            }
            assert(self@ =~= old(self)@.intersect(rhs@));
        }
    }

    /// Removes every member.
    pub fn clear(&mut self)
        ensures
            final(self)@ == Set::<int>::empty(),
            final(self).0@.len() == old(self).0@.len(),
            forall|c: int| 0 <= c < final(self).0@.len() ==> chunk_is_zero(#[trigger] final(self).0@[c]),
    {
        chunks_bit_clear(&mut self.0);
        proof {
            lemma_zero_chunks_empty(self.0@);
        }
    }

    /// Whether `index` is a member. An index at or beyond the bitset's
    /// length is none.
    pub fn contains_index(&self, index: usize) -> (r: bool)
        ensures
            r == self@.contains(index as int),
    {
        if index / 256 < self.0.len() {
            chunks_bit_test(&self.0, index)
        } else {
            false
        }
    }

    /// Check whether or not the bitset contains the given entity: whether
    /// the entity's index is a member.
    pub fn contains(&self, entity: Entity) -> (r: bool)
        ensures
            r == self@.contains(entity.index() as int),
    {
        self.contains_index(entity.index() as usize)
    }
}

/// The chunk whose lanes are all zero.
pub open spec fn zero_chunk() -> [u32; 8] {
    vstd::array::spec_array_fill_for_copy_type::<u32, 8>(0u32)
}

/// The chunks that are not zero, each with its place, in ascending order of
/// place: what is kept of a bitset when it is written out.
pub open spec fn sparse_chunks(chunks: Seq<[u32; 8]>) -> Seq<(usize, [u32; 8])>
    decreases chunks.len(),
{
    if chunks.len() == 0 {
        Seq::empty()
    } else {
        let rest = sparse_chunks(chunks.drop_last());
        if chunk_is_zero(chunks.last()) {
            rest
        } else {
            rest.push(((chunks.len() - 1) as usize, chunks.last()))
        }
    }
}

/// `count` chunks, all zero but those that `entries` names: each entry puts
/// its chunk at its place, a later entry for the same place wins, and an
/// entry whose place is `count` or more is passed over.
pub open spec fn dense_chunks(entries: Seq<(usize, [u32; 8])>, count: nat) -> Seq<[u32; 8]>
    decreases entries.len(),
{
    if entries.len() == 0 {
        Seq::new(count, |c: int| zero_chunk())
    } else {
        let rest = dense_chunks(entries.drop_last(), count);
        let entry = entries.last();
        if entry.0 < count {
            rest.update(entry.0 as int, entry.1)
        } else {
            rest
        }
    }
}

/// Whether every lane of the chunk is zero.
pub fn is_zero_chunk(chunk: &[u32; 8]) -> (r: bool)
    ensures
        r == chunk_is_zero(*chunk),
{
    let mut lane: usize = 0;
    while lane < 8
        invariant
            lane <= 8,
            forall|l: int| 0 <= l < lane ==> chunk[l] == 0,
        decreases 8 - lane,
    {
        if chunk[lane] != 0 {
            return false;
        }
        lane += 1;
    }
    true
}

/// A zero chunk is the chunk of zeros, and no other chunk is.
pub proof fn lemma_zero_chunk(chunk: [u32; 8])
    ensures
        chunk_is_zero(zero_chunk()),
        chunk_is_zero(chunk) <==> chunk == zero_chunk(),
{
    assert(chunk_is_zero(zero_chunk()));
    if chunk_is_zero(chunk) {
        assert(chunk =~= zero_chunk());
    }
}

/// What [`sparse_chunks`] keeps: its places ascend, each entry holds the chunk
/// at its place, that chunk is not zero, and every chunk that is not zero has
/// its entry.
pub proof fn lemma_sparse_chunks(chunks: Seq<[u32; 8]>)
    requires
        chunks.len() <= usize::MAX,
    ensures
        forall|k: int|
            0 <= k < sparse_chunks(chunks).len() ==> {
                let entry = #[trigger] sparse_chunks(chunks)[k];
                &&& entry.0 < chunks.len()
                &&& entry.1 == chunks[entry.0 as int]
                &&& !chunk_is_zero(entry.1)
            },
        forall|j: int, k: int|
            0 <= j < k < sparse_chunks(chunks).len() ==> (#[trigger] sparse_chunks(chunks)[j]).0 < (
            #[trigger] sparse_chunks(chunks)[k]).0,
        forall|c: int|
            0 <= c < chunks.len() && !chunk_is_zero(#[trigger] chunks[c]) ==> exists|k: int|
                0 <= k < sparse_chunks(chunks).len() && (#[trigger] sparse_chunks(chunks)[k]).0 == c,
    decreases chunks.len(),
{
    if chunks.len() > 0 {
        let front = chunks.drop_last();
        lemma_sparse_chunks(front);
        let kept = sparse_chunks(chunks);
        let before = sparse_chunks(front);
        assert forall|c: int| 0 <= c < chunks.len() && !chunk_is_zero(#[trigger] chunks[c]) implies exists|
            k: int,
        | 0 <= k < kept.len() && (#[trigger] kept[k]).0 == c by {
            if c < front.len() {
                assert(front[c] == chunks[c]);
                let k = choose|k: int| 0 <= k < before.len() && (#[trigger] before[k]).0 == c;
                assert(kept[k] == before[k]);
            } else {
                assert(kept[kept.len() - 1].0 == c);
            }
        }
    }
}

/// Writing a bitset out and reading it back into as many chunks or more
/// gives the same chunks again, followed by zero chunks.
pub proof fn lemma_sparse_round_trip(chunks: Seq<[u32; 8]>, count: nat)
    requires
        chunks.len() <= count <= usize::MAX,
    ensures
        dense_chunks(sparse_chunks(chunks), count) == chunks + Seq::new(
            (count - chunks.len()) as nat,
            |c: int| zero_chunk(),
        ),
    decreases chunks.len(),
{
    let padded = chunks + Seq::new((count - chunks.len()) as nat, |c: int| zero_chunk());
    if chunks.len() == 0 {
        assert(dense_chunks(sparse_chunks(chunks), count) =~= padded);
    } else {
        let front = chunks.drop_last();
        let last = chunks.last();
        lemma_sparse_round_trip(front, count);
        lemma_zero_chunk(last);
        let front_padded = front + Seq::new((count - front.len()) as nat, |c: int| zero_chunk());
        if chunk_is_zero(last) {
            assert(front_padded =~= padded);
        } else {
            let kept = sparse_chunks(front).push(((chunks.len() - 1) as usize, last));
            assert(kept.drop_last() =~= sparse_chunks(front));
            assert(front_padded.update(chunks.len() - 1, last) =~= padded);
        }
    }
}

impl BitSetVec {
    /// The chunks that are not zero, each with its place, in ascending order
    /// of place. This is what is written out when a bitset is stored.
    pub fn to_sparse_chunks(&self) -> (entries: Vec<(usize, [u32; 8])>)
        ensures
            entries@ == sparse_chunks(self.0@),
    {
        let mut entries: Vec<(usize, [u32; 8])> = Vec::new();
        let mut c: usize = 0;
        while c < self.0.len()
            invariant
                c <= self.0@.len(),
                entries@ == sparse_chunks(self.0@.take(c as int)),
            decreases self.0@.len() - c,
        {
            proof {
                assert(self.0@.take(c + 1).drop_last() =~= self.0@.take(c as int));
            }
            if !is_zero_chunk(&self.0[c]) {
                entries.push((c, self.0[c]));
            }
            c += 1;
        }
        proof {
            assert(self.0@.take(c as int) =~= self.0@);
        }
        entries
    }

    /// Builds a bitset of [`BITSET_SLICE_COUNT`] chunks from entries that
    /// each name a place and the chunk to put there. Places not named hold
    /// zero; an entry whose place is out of range is passed over.
    pub fn from_sparse_chunks(entries: &[(usize, [u32; 8])]) -> (bits: BitSetVec)
        ensures
            bits.0@ == dense_chunks(entries@, BITSET_SLICE_COUNT as nat),
            bits.0@.len() == BITSET_SLICE_COUNT,
    {
        let mut chunks: Vec<[u32; 8]> = vec![[0u32; 8]; BITSET_SLICE_COUNT];
        proof {
            assert forall|c: int| 0 <= c < chunks@.len() implies chunks@[c] == zero_chunk() by {
                lemma_zero_chunk(chunks@[c]);
            }
            assert(entries@.take(0).len() == 0);
            assert(chunks@ =~= dense_chunks(entries@.take(0), BITSET_SLICE_COUNT as nat));
        }
        let mut k: usize = 0;
        while k < entries.len()
            invariant
                k <= entries@.len(),
                chunks@.len() == BITSET_SLICE_COUNT,
                chunks@ == dense_chunks(entries@.take(k as int), BITSET_SLICE_COUNT as nat),
            decreases entries@.len() - k,
        {
            proof {
                assert(entries@.take(k + 1).drop_last() =~= entries@.take(k as int));
            }
            let entry = entries[k];
            if entry.0 < BITSET_SLICE_COUNT {
                chunks[entry.0] = entry.1;
            }
            k += 1;
        }
        proof {
            assert(entries@.take(k as int) =~= entries@);
        }
        BitSetVec(chunks)
    }

    /// The smallest member that is `start` or more and less than `end`, if
    /// there is one.
    pub fn next_set_in(&self, start: usize, end: usize) -> (r: Option<usize>)
        ensures
            match r {
                Some(bit) => start <= bit < end && self@.contains(bit as int) && forall|j: int|
                    start <= j < bit ==> !self@.contains(j),
                None => forall|j: int| start <= j < end ==> !self@.contains(j),
            },
    {
        let mut bit = start;
        while bit < end
            invariant
                start <= bit,
                forall|j: int| start <= j < bit ==> !self@.contains(j),
            decreases end - bit,
        {
            let c = bit / 256;
            if c >= self.0.len() {
                return None;
            }
            if bit % 256 == 0 && is_zero_chunk(&self.0[c]) {
                proof {
                    assert forall|j: int| bit <= j < bit + 256 implies !self@.contains(j) by {
                        assert(j / 256 == bit as int / 256);
                        lemma_zero_mask(lane_mask(j));
                    }
                }
                if end - bit <= 256 {
                    return None;
                }
                bit += 256;
            } else {
                if chunks_bit_test(&self.0, bit) {
                    return Some(bit);
                }
                bit += 1;
            }
        }
        None
    }

    /// The smallest member that is `start` or more, if there is one.
    pub fn next_set_from(&self, start: usize) -> (r: Option<usize>)
        requires
            self.0@.len() * 256 <= usize::MAX,
        ensures
            match r {
                Some(bit) => start <= bit && self@.contains(bit as int) && forall|j: int|
                    start <= j < bit ==> !self@.contains(j),
                None => forall|j: int| start <= j ==> !self@.contains(j),
            },
    {
        self.next_set_in(start, self.0.len() * 256)
    }

    /// Counts the members.
    pub fn bit_count(&self) -> (n: usize)
        requires
            self.0@.len() * 256 <= usize::MAX,
        ensures
            self@.finite(),
            n == self@.len(),
    {
        let total = self.0.len() * 256;
        let mut n: usize = 0;
        let mut bit: usize = 0;
        proof {
            lemma_members_count(self@, 0, total as int);
            assert(members_between(self@, 0, total as int) =~= self@);
        }
        loop
            invariant
                bit <= total == self.0@.len() * 256,
                n <= bit,
                self@.finite(),
                members_from(self@, 0, total as int).len() == self@.len(),
                members_from(self@, 0, total as int).len() == n + members_from(
                    self@,
                    bit as int,
                    total as int,
                ).len(),
            decreases total - bit,
        {
            match self.next_set_in(bit, total) {
                None => {
                    proof {
                        lemma_members_skip(self@, bit as int, total as int, total as int);
                    }
                    return n;
                },
                Some(found) => {
                    proof {
                        lemma_members_skip(self@, bit as int, found as int, total as int);
                    }
                    n += 1;
                    bit = found + 1;
                },
            }
        }
    }

    /// The smallest member, if the set is not empty.
    pub fn min(&self) -> (r: Option<usize>)
        requires
            self.0@.len() * 256 <= usize::MAX,
        ensures
            match r {
                Some(bit) => self@.contains(bit as int) && forall|j: int|
                    self@.contains(j) ==> bit <= j,
                None => self@ == Set::<int>::empty(),
            },
    {
        let r = self.next_set_from(0);
        proof {
            if r is None {
                assert(self@ =~= Set::<int>::empty());
            }
        }
        r
    }

    /// The smallest index that is `start` or more and not a member. Every
    /// index at or beyond the bitset's length is such an index.
    pub fn first_unset_from(&self, start: usize) -> (r: usize)
        requires
            self.0@.len() * 256 <= usize::MAX,
        ensures
            start <= r,
            !self@.contains(r as int),
            forall|j: int| start <= j < r ==> self@.contains(j),
    {
        let total = self.0.len() * 256;
        let mut bit = start;
        while bit < total
            invariant
                start <= bit,
                total == self.0@.len() * 256,
                forall|j: int| start <= j < bit ==> self@.contains(j),
            decreases total - bit,
        {
            if bit % 256 == 0 && is_full_chunk(&self.0[bit / 256]) {
                proof {
                    assert forall|j: int| bit <= j < bit + 256 implies self@.contains(j) by {
                        assert(j / 256 == bit as int / 256);
                        lemma_full_mask((j % 32) as u32);
                    }
                }
                bit += 256;
            } else {
                if !chunks_bit_test(&self.0, bit) {
                    return bit;
                }
                bit += 1;
            }
        }
        bit
    }
}

/// Whether every bit of the chunk is set.
fn is_full_chunk(chunk: &[u32; 8]) -> (r: bool)
    ensures
        r == (forall|lane: int| 0 <= lane < 8 ==> chunk[lane] == 0xffff_ffffu32),
{
    let mut lane: usize = 0;
    while lane < 8
        invariant
            lane <= 8,
            forall|l: int| 0 <= l < lane ==> chunk[l] == 0xffff_ffffu32,
        decreases 8 - lane,
    {
        if chunk[lane] != 0xffff_ffffu32 {
            return false;
        }
        lane += 1;
    }
    true
}

proof fn lemma_full_mask(q: u32)
    by (bit_vector)
    requires
        q < 32,
    ensures
        0xffff_ffffu32 & (1u32 << q) != 0,
{
}

/// The members of `set` from `start` up to, not including, `end`, in
/// ascending order.
pub open spec fn members_from(set: Set<int>, start: int, end: int) -> Seq<int>
    decreases end - start,
{
    if start >= end {
        Seq::empty()
    } else if set.contains(start) {
        seq![start] + members_from(set, start + 1, end)
    } else {
        members_from(set, start + 1, end)
    }
}

/// What [`members_from`] lists: exactly the members of the set in the range,
/// each once, in strictly ascending order.
pub proof fn lemma_members_from(set: Set<int>, start: int, end: int)
    ensures
        forall|k: int|
            0 <= k < members_from(set, start, end).len() ==> {
                let m = #[trigger] members_from(set, start, end)[k];
                start <= m < end && set.contains(m)
            },
        forall|j: int, k: int|
            0 <= j < k < members_from(set, start, end).len() ==> members_from(set, start, end)[j]
                < members_from(set, start, end)[k],
        forall|m: int|
            start <= m < end && set.contains(m) ==> members_from(set, start, end).contains(m),
    decreases end - start,
{
    if start < end {
        lemma_members_from(set, start + 1, end);
        let rest = members_from(set, start + 1, end);
        let all = members_from(set, start, end);
        if set.contains(start) {
            assert forall|m: int| start <= m < end && set.contains(m) implies all.contains(m) by {
                if m == start {
                    assert(all[0] == m);
                } else {
                    let k = choose|k: int| 0 <= k < rest.len() && rest[k] == m;
                    assert(all[k + 1] == m);
                }
            }
        }
    }
}

/// A stretch without members adds nothing to [`members_from`].
pub proof fn lemma_members_skip(set: Set<int>, start: int, mid: int, end: int)
    requires
        start <= mid,
        forall|j: int| start <= j < mid ==> !set.contains(j),
    ensures
        members_from(set, start, end) == members_from(set, mid, end),
    decreases mid - start,
{
    if start < mid {
        lemma_members_skip(set, start + 1, mid, end);
        if start >= end {
            lemma_members_past_end(set, mid, end);
            lemma_members_past_end(set, start, end);
        }
    }
}

/// Nothing is listed from the end on.
pub proof fn lemma_members_past_end(set: Set<int>, start: int, end: int)
    requires
        start >= end,
    ensures
        members_from(set, start, end) == Seq::<int>::empty(),
{
}

/// The members of `set` from `start` up to, not including, `end`.
pub open spec fn members_between(set: Set<int>, start: int, end: int) -> Set<int> {
    Set::new(|i: int| start <= i < end && set.contains(i))
}

/// [`members_from`] lists as many indices as the set has in the range.
pub proof fn lemma_members_count(set: Set<int>, start: int, end: int)
    ensures
        members_between(set, start, end).finite(),
        members_from(set, start, end).len() == members_between(set, start, end).len(),
    decreases end - start,
{
    if start >= end {
        assert(members_between(set, start, end) =~= Set::<int>::empty());
    } else {
        lemma_members_count(set, start + 1, end);
        let rest = members_between(set, start + 1, end);
        if set.contains(start) {
            assert(members_between(set, start, end) =~= rest.insert(start));
        } else {
            assert(members_between(set, start, end) =~= rest);
        }
    }
}

/// Walking the intersection of three sets in ascending order gives exactly
/// the indices that are in all three, each once, smallest first.
pub proof fn lemma_join_members(a: Set<int>, b: Set<int>, seed: Set<int>, end: int)
    ensures
        forall|k: int|
            0 <= k < members_from(a.intersect(b).intersect(seed), 0, end).len() ==> {
                let m = #[trigger] members_from(a.intersect(b).intersect(seed), 0, end)[k];
                0 <= m < end && a.contains(m) && b.contains(m) && seed.contains(m)
            },
        forall|j: int, k: int|
            0 <= j < k < members_from(a.intersect(b).intersect(seed), 0, end).len()
                ==> members_from(a.intersect(b).intersect(seed), 0, end)[j] < members_from(
                a.intersect(b).intersect(seed),
                0,
                end,
            )[k],
        forall|m: int|
            0 <= m < end && a.contains(m) && b.contains(m) && seed.contains(m) ==> members_from(
                a.intersect(b).intersect(seed),
                0,
                end,
            ).contains(m),
{
    let all = a.intersect(b).intersect(seed);
    lemma_members_from(all, 0, end);
    assert forall|m: int|
        0 <= m < end && a.contains(m) && b.contains(m) && seed.contains(m) implies members_from(
        all,
        0,
        end,
    ).contains(m) by {
        assert(all.contains(m));
    }
}

/// The bitset of a join: the indices that are in the seed and in every one
/// of the filters. All bitsets have the length of the seed.
pub fn join_bitsets(seed: &BitSetVec, filters: &[&BitSetVec]) -> (joined: BitSetVec)
    requires
        forall|k: int| 0 <= k < filters@.len() ==> (#[trigger] filters@[k]).0@.len() == seed.0@.len(),
    ensures
        joined.0@.len() == seed.0@.len(),
        forall|i: int|
            joined@.contains(i) <==> seed@.contains(i) && forall|k: int|
                0 <= k < filters@.len() ==> (#[trigger] filters@[k])@.contains(i),
{
    let mut joined = seed.clone();
    let mut done: usize = 0;
    while done < filters.len()
        invariant
            done <= filters@.len(),
            joined.0@.len() == seed.0@.len(),
            forall|k: int|
                0 <= k < filters@.len() ==> (#[trigger] filters@[k]).0@.len() == seed.0@.len(),
            forall|i: int|
                joined@.contains(i) <==> seed@.contains(i) && forall|k: int|
                    0 <= k < done ==> (#[trigger] filters@[k])@.contains(i),
        decreases filters@.len() - done,
    {
        let ghost before = joined@;
        joined.bit_and(filters[done]);
        proof {
            assert forall|i: int|
                joined@.contains(i) <==> seed@.contains(i) && forall|k: int|
                    0 <= k < done + 1 ==> (#[trigger] filters@[k])@.contains(i) by {
                assert(joined@.contains(i) == (before.contains(i) && filters@[done as int]@.contains(
                    i,
                )));
            }
        }
        done += 1;
    }
    joined
}

/// Creates a bitset big enough to contain the index of each entity.
/// Mostly used to create caches.
pub fn create_bitset() -> (bits: BitSetVec)
    ensures
        bits.0@.len() == BITSET_SLICE_COUNT,
        forall|c: int| 0 <= c < bits.0@.len() ==> chunk_is_zero(#[trigger] bits.0@[c]),
        bits@ == Set::<int>::empty(),
{
    let bits = BitSetVec(vec![[0u32; 8]; BITSET_SLICE_COUNT]);
    proof {
        lemma_zero_chunks_empty(bits.0@);
    }
    bits
}

impl Clone for BitSetVec {
    /// A bitset with the same chunks.
    fn clone(&self) -> (bits: BitSetVec)
        ensures
            bits.0@ == self.0@,
    {
        let mut chunks: Vec<[u32; 8]> = Vec::new();
        let mut c: usize = 0;
        while c < self.0.len()
            invariant
                c <= self.0@.len(),
                chunks@ == self.0@.take(c as int),
            decreases self.0@.len() - c,
        {
            chunks.push(self.0[c]);
            proof {
                assert(self.0@.take(c + 1) =~= self.0@.take(c as int).push(self.0@[c as int]));
            }
            c += 1;
        }
        proof {
            assert(self.0@.take(c as int) =~= self.0@);
        }
        BitSetVec(chunks)
    }
}

impl Default for BitSetVec {
    fn default() -> (bits: BitSetVec)
        ensures
            bits.0@.len() == BITSET_SLICE_COUNT,
            forall|c: int| 0 <= c < bits.0@.len() ==> chunk_is_zero(#[trigger] bits.0@[c]),
            bits@ == Set::<int>::empty(),
    {
        create_bitset()
    }
}

} // verus!
