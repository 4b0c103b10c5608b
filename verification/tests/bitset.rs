use bones_ecs::bitset::{
    create_bitset, is_zero_chunk, join_bitsets, BitSetVec, BITSET_SIZE, BITSET_SLICE_COUNT,
};
use bones_ecs::entities::Entity;

// Helper function to create a BitSetVec for testing
fn create_test_bitsetvec() -> BitSetVec {
    let mut bsv = BitSetVec(vec![[0; 8]; 3]);
    bsv.0[1] = [1, 2, 3, 4, 5, 6, 7, 8];
    bsv
}

/// A small deterministic generator for randomized populations.
struct Lcg(u64);

impl Lcg {
    fn next(&mut self) -> u64 {
        self.0 = self
            .0
            .wrapping_mul(6364136223846793005)
            .wrapping_add(1442695040888963407);
        self.0 >> 33
    }

    fn below(&mut self, bound: u64) -> usize {
        (self.next() % bound) as usize
    }
}

#[test]
fn test_serialization() {
    let bsv = create_test_bitsetvec();
    let serialized = serde_json::to_string(&bsv.to_sparse_chunks()).unwrap();
    assert_eq!(serialized, "[[1,[1,2,3,4,5,6,7,8]]]");
}

#[test]
fn test_empty_serialization() {
    let empty_bsv = BitSetVec(vec![]);
    let serialized = serde_json::to_string(&empty_bsv.to_sparse_chunks()).unwrap();
    assert_eq!(serialized, "[]");
}

#[test]
fn test_sparse_bitsetvec_serialization_deserialization() {
    let mut bsv = BitSetVec::default();

    // Set some bits sparsely
    bsv.bit_set(5);
    bsv.bit_set(10);
    bsv.bit_set(300); // This will be in the second chunk
    bsv.bit_set(1000); // This will be in the fourth chunk

    // Serialize
    let serialized = serde_json::to_string(&bsv.to_sparse_chunks()).unwrap();

    // Deserialize
    let chunks: Vec<(usize, [u32; 8])> = serde_json::from_str(&serialized).unwrap();
    let deserialized = BitSetVec::from_sparse_chunks(&chunks);

    // Check if all set bits are correctly deserialized
    assert!(deserialized.bit_test(5));
    assert!(deserialized.bit_test(10));
    assert!(deserialized.bit_test(300));
    assert!(deserialized.bit_test(1000));

    // Check some unset bits
    assert!(!deserialized.bit_test(0));
    assert!(!deserialized.bit_test(6));
    assert!(!deserialized.bit_test(11));
    assert!(!deserialized.bit_test(299));
    assert!(!deserialized.bit_test(301));
    assert!(!deserialized.bit_test(999));
    assert!(!deserialized.bit_test(1001));

    // Check if the internal structure matches
    assert_eq!(bsv.0.len(), deserialized.0.len());
    for (original, deserialized) in bsv.0.iter().zip(deserialized.0.iter()) {
        assert_eq!(original, deserialized);
    }

    // Print the serialized string for inspection
    println!("Serialized BitSetVec: {}", serialized);
}

#[test]
fn test_size() {
    let mut bitset = BitSetVec::default();
    bitset.bit_set(5);
    bitset.bit_set(10);
    bitset.bit_set(300);
    bitset.bit_set(1000);

    let bytes = bincode::serialize(&bitset.to_sparse_chunks()).unwrap();
    println!("Size of serialized: {}", bytes.len());
    println!("Original size: {} bytes", std::mem::size_of_val(&bitset));
    let chunks: Vec<(usize, [u32; 8])> = bincode::deserialize(&bytes).unwrap();
    let read = BitSetVec::from_sparse_chunks(&chunks);
    assert_eq!(read.0, bitset.0);
}

#[test]
fn test_deserialization() {
    let json = "[[1,[1,2,3,4,5,6,7,8]]]";
    let chunks: Vec<(usize, [u32; 8])> = serde_json::from_str(json).unwrap();
    let deserialized = BitSetVec::from_sparse_chunks(&chunks);
    // a bitset that is read always has its full length
    assert_eq!(deserialized.0.len(), BITSET_SLICE_COUNT);
    assert_eq!(deserialized.0[0], [0; 8]);
    assert_eq!(deserialized.0[1], [1, 2, 3, 4, 5, 6, 7, 8]);
    assert!(deserialized.0[2..].iter().all(|chunk| *chunk == [0; 8]));
}

#[test]
fn test_empty_deserialization() {
    let json = "[]";
    let chunks: Vec<(usize, [u32; 8])> = serde_json::from_str(json).unwrap();
    let deserialized = BitSetVec::from_sparse_chunks(&chunks);
    // a bitset that is read always has its full length
    assert_eq!(deserialized.0.len(), BITSET_SLICE_COUNT);
    assert_eq!(deserialized.min(), None);
}

#[test]
fn chunks_out_of_range_are_passed_over_and_later_entries_win() {
    let one = [1u32, 0, 0, 0, 0, 0, 0, 0];
    let two = [2u32, 0, 0, 0, 0, 0, 0, 0];
    let read = BitSetVec::from_sparse_chunks(&[
        (7, one),
        (BITSET_SLICE_COUNT, one),
        (usize::MAX, one),
        (7, two),
    ]);
    assert_eq!(read.0.len(), BITSET_SLICE_COUNT);
    assert_eq!(read.0[7], two);
    assert_eq!(read.to_sparse_chunks(), vec![(7, two)]);
}

#[test]
fn constants_fit_together() {
    assert_eq!(BITSET_SIZE, 65536);
    assert_eq!(BITSET_SLICE_COUNT, BITSET_SIZE / 32);
    let bits = create_bitset();
    assert_eq!(bits.0.len(), BITSET_SLICE_COUNT);
    assert_eq!(bits.bit_len(), BITSET_SLICE_COUNT * 256);
    assert!(bits.0.iter().all(|chunk| *chunk == [0; 8]));
}

#[test]
fn a_bit_lies_in_its_chunk_lane_and_place() {
    let mut bits = create_bitset();
    bits.bit_set(300);
    // chunk 1, lane (300 / 32) % 8 = 1, place 300 % 32 = 12
    assert_eq!(bits.0[1], [0, 1 << 12, 0, 0, 0, 0, 0, 0]);
    bits.bit_set(0);
    assert_eq!(bits.0[0], [1, 0, 0, 0, 0, 0, 0, 0]);
    bits.bit_set(255);
    assert_eq!(bits.0[0], [1, 0, 0, 0, 0, 0, 0, 1 << 31]);
}

#[test]
fn set_reset_and_test_bits() {
    let mut bits = create_bitset();
    assert!(!bits.bit_test(42));
    bits.bit_set(42);
    assert!(bits.bit_test(42));
    assert!(!bits.bit_test(41));
    assert!(!bits.bit_test(43));
    bits.bit_set(42);
    assert!(bits.bit_test(42));
    bits.bit_reset(42);
    assert!(!bits.bit_test(42));
    bits.bit_reset(42);
    assert!(!bits.bit_test(42));
    assert_eq!(bits.0, create_bitset().0);
}

#[test]
fn contains_goes_by_the_index_of_the_entity() {
    let mut bits = create_bitset();
    bits.bit_set(9);
    assert!(bits.contains(Entity::new(9, 0)));
    assert!(bits.contains(Entity::new(9, 77)));
    assert!(!bits.contains(Entity::new(8, 0)));
    // beyond the length nothing is contained
    assert!(!bits.contains(Entity::new(u32::MAX, 0)));
    assert!(!bits.contains_index(BITSET_SLICE_COUNT * 256));
    assert!(!BitSetVec(vec![]).contains(Entity::new(0, 0)));
}

#[test]
fn clear_removes_every_member() {
    let mut bits = create_bitset();
    bits.bit_set(1);
    bits.bit_set(70000);
    bits.clear();
    assert_eq!(bits.0.len(), BITSET_SLICE_COUNT);
    assert_eq!(bits.min(), None);
    assert!(!bits.bit_test(1));
}

#[test]
fn intersection_keeps_what_is_in_both() {
    let mut a = create_bitset();
    let mut b = create_bitset();
    for bit in [1usize, 2, 3, 500, 70000] {
        a.bit_set(bit);
    }
    for bit in [2usize, 3, 4, 70000, 70001] {
        b.bit_set(bit);
    }
    a.bit_and(&b);
    let mut members = Vec::new();
    let mut from = 0;
    while let Some(bit) = a.next_set_from(from) {
        members.push(bit);
        from = bit + 1;
    }
    assert_eq!(members, vec![2, 3, 70000]);
}

#[test]
fn minimum_and_next_member() {
    let mut bits = create_bitset();
    assert_eq!(bits.min(), None);
    assert_eq!(bits.next_set_from(0), None);
    bits.bit_set(300);
    bits.bit_set(256);
    bits.bit_set(90000);
    assert_eq!(bits.min(), Some(256));
    assert_eq!(bits.next_set_from(256), Some(256));
    assert_eq!(bits.next_set_from(257), Some(300));
    assert_eq!(bits.next_set_from(301), Some(90000));
    assert_eq!(bits.next_set_from(90001), None);
    assert_eq!(bits.next_set_in(257, 300), None);
    assert_eq!(bits.next_set_in(257, 301), Some(300));
    assert_eq!(bits.next_set_in(0, 0), None);
    assert_eq!(bits.next_set_in(5, 3), None);
}

#[test]
fn first_free_value_at_or_after_a_start() {
    let mut bits = create_bitset();
    assert_eq!(bits.first_unset_from(0), 0);
    for bit in 0..600 {
        bits.bit_set(bit);
    }
    assert_eq!(bits.first_unset_from(0), 600);
    assert_eq!(bits.first_unset_from(599), 600);
    assert_eq!(bits.first_unset_from(601), 601);
    // a removal in the middle is found first
    bits.bit_reset(300);
    assert_eq!(bits.first_unset_from(0), 300);
    assert_eq!(bits.first_unset_from(301), 600);
    // at and beyond the length every index is free
    let end = BITSET_SLICE_COUNT * 256;
    assert_eq!(bits.first_unset_from(end), end);
    assert_eq!(bits.first_unset_from(end + 5), end + 5);
}

#[test]
fn clone_has_the_same_chunks() {
    let mut bits = create_bitset();
    bits.bit_set(77);
    let copy = bits.clone();
    assert_eq!(copy.0, bits.0);
    bits.bit_reset(77);
    assert!(copy.bit_test(77));
}

#[test]
fn randomized_bitsets_survive_being_written_and_read() {
    let mut random = Lcg(7);
    for round in 0..12 {
        let mut bits = create_bitset();
        let mut expected = std::collections::BTreeSet::new();
        // round 0 is the empty case
        for _ in 0..(round * 25) {
            let bit = random.below((BITSET_SLICE_COUNT * 256) as u64);
            bits.bit_set(bit);
            expected.insert(bit);
        }
        for _ in 0..(round * 5) {
            let bit = random.below((BITSET_SLICE_COUNT * 256) as u64);
            bits.bit_reset(bit);
            expected.remove(&bit);
        }
        let written = bits.to_sparse_chunks();
        assert!(written.iter().all(|(_, chunk)| *chunk != [0; 8]));
        assert!(written.windows(2).all(|pair| pair[0].0 < pair[1].0));
        let read = BitSetVec::from_sparse_chunks(&written);
        assert_eq!(read.0, bits.0);
        let mut members = std::collections::BTreeSet::new();
        let mut from = 0;
        while let Some(bit) = read.next_set_from(from) {
            members.insert(bit);
            from = bit + 1;
        }
        assert_eq!(members, expected);
    }
}

#[test]
fn members_are_counted() {
    let mut bits = create_bitset();
    assert_eq!(bits.bit_count(), 0);
    for bit in [0usize, 31, 32, 255, 256, 70000, 524287] {
        bits.bit_set(bit);
    }
    assert_eq!(bits.bit_count(), 7);
    bits.bit_set(31);
    assert_eq!(bits.bit_count(), 7);
    bits.bit_reset(256);
    assert_eq!(bits.bit_count(), 6);
    assert_eq!(BitSetVec(vec![]).bit_count(), 0);
    assert_eq!(BitSetVec(vec![[u32::MAX; 8]; 2]).bit_count(), 512);
}

#[test]
fn zero_chunks_are_told_from_others() {
    assert!(is_zero_chunk(&[0; 8]));
    assert!(!is_zero_chunk(&[0, 0, 0, 0, 0, 0, 0, 1]));
    assert!(!is_zero_chunk(&[1 << 31, 0, 0, 0, 0, 0, 0, 0]));
}

#[test]
fn join_keeps_what_is_in_the_seed_and_in_every_filter() {
    let mut seed = create_bitset();
    let mut a = create_bitset();
    let mut b = create_bitset();
    for bit in 0..100usize {
        seed.bit_set(bit * 3);
        a.bit_set(bit * 2);
        b.bit_set(bit * 5);
    }
    let joined = join_bitsets(&seed, &[&a, &b]);
    let mut members = Vec::new();
    let mut from = 0;
    while let Some(bit) = joined.next_set_from(from) {
        members.push(bit);
        from = bit + 1;
    }
    assert_eq!(members, vec![0, 30, 60, 90, 120, 150, 180]);
    // without filters the join is the seed
    assert_eq!(join_bitsets(&seed, &[]).0, seed.0);
    // an empty filter leaves nothing
    assert_eq!(join_bitsets(&seed, &[&a, &create_bitset()]).min(), None);
    // the seed itself is left as it was
    assert_eq!(seed.bit_count(), 100);
}
