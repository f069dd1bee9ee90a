use bump_arena::Buffer;
use bump_arena::Chunk;

fn region_of(len: usize) -> Vec<u8> {
    let mut bytes: Vec<u8> = Vec::new();
    for n in 0..len {
        bytes.push((n % 255) as u8);
    }
    bytes
}

#[test]
fn it_works() {
    let mut bytes: Vec<u8> = Vec::new();
    for n in 0..25 {
        bytes.push((n % 255) as u8);
    }

    let mut memory = Buffer::init_from_bytes(bytes);
    assert_eq!(memory.len(), 25);

    let maybe_buf0 = memory.allocate(12);
    assert_ne!(maybe_buf0, None);
    let buf0 = maybe_buf0.unwrap();
    assert_eq!(buf0.len, 12);
    assert_eq!(memory.get(&buf0, 0), 0);
    assert_eq!(memory.get(&buf0, 5), 5);

    let maybe_buf1 = memory.alloc_mut(10);
    assert_ne!(maybe_buf1, None);
    let buf1 = maybe_buf1.unwrap();
    assert_eq!(buf1.len, 10);
    assert_eq!(memory.get(&buf1.as_chunk(), 0), 12);
    assert_eq!(memory.get(&buf1.as_chunk(), 1), 13);
    memory.set(&buf1, 0, 255);
    assert_eq!(memory.get(&buf1.as_chunk(), 0), 255);

    assert_eq!(memory.remaining(), 3);

    let bytes3 = memory.allocate(20);
    assert_eq!(None, bytes3);
    assert_eq!(memory.remaining(), 3);
}

#[test]
fn sequential_allocations_are_adjacent() {
    let mut memory = Buffer::init_from_bytes(region_of(100));
    let sizes: [usize; 4] = [7, 1, 30, 12];
    let mut expected_start: usize = 0;
    for sz in sizes {
        let c = memory.allocate(sz).unwrap();
        assert_eq!(c.start, expected_start);
        assert_eq!(c.len, sz);
        expected_start += sz;
    }
    assert_eq!(memory.remaining(), 100 - (7 + 1 + 30 + 12));
}

#[test]
fn remaining_counts_only_successes() {
    let mut memory = Buffer::init_from_bytes(region_of(20));
    assert!(memory.allocate(10).is_some());
    assert_eq!(memory.remaining(), 10);
    // A rejected request consumes nothing.
    assert!(memory.allocate(15).is_none());
    assert_eq!(memory.remaining(), 10);
    assert!(memory.allocate(5).is_some());
    assert_eq!(memory.remaining(), 5);
}

#[test]
fn granted_ranges_are_disjoint() {
    let mut memory = Buffer::init_from_bytes(region_of(50));
    let mut chunks: Vec<Chunk> = Vec::new();
    for sz in [5usize, 9, 1, 14, 40, 2] {
        if let Some(c) = memory.allocate(sz) {
            chunks.push(c);
        }
    }
    for i in 0..chunks.len() {
        for j in 0..chunks.len() {
            if i != j {
                let a = chunks[i];
                let b = chunks[j];
                assert!(a.start + a.len <= b.start || b.start + b.len <= a.start);
            }
        }
    }
}

#[test]
fn exact_remaining_is_rejected() {
    let mut memory = Buffer::init_from_bytes(region_of(25));
    assert!(memory.allocate(12).is_some());
    assert!(memory.allocate(10).is_some());
    assert_eq!(memory.remaining(), 3);
    // Boundary policy: the candidate end offset must stay strictly below
    // the capacity, so a request of exactly `remaining()` never fits.
    assert!(memory.allocate(3).is_none());
    assert_eq!(memory.remaining(), 3);
    assert!(memory.allocate(2).is_some());
}

#[test]
fn last_byte_is_never_granted() {
    let mut memory = Buffer::init_from_bytes(region_of(5));
    assert!(memory.allocate(5).is_none());
    assert!(memory.allocate(4).is_some());
    assert_eq!(memory.remaining(), 1);
    assert!(memory.allocate(1).is_none());
}

#[test]
fn zero_size_request_is_rejected() {
    let mut memory = Buffer::init_from_bytes(region_of(8));
    assert!(memory.allocate(0).is_none());
    assert!(memory.alloc_mut(0).is_none());
    assert_eq!(memory.remaining(), 8);
}

#[test]
fn empty_region_grants_nothing() {
    let mut memory = Buffer::init_from_bytes(Vec::new());
    assert_eq!(memory.len(), 0);
    assert_eq!(memory.remaining(), 0);
    assert!(memory.allocate(0).is_none());
    assert!(memory.allocate(1).is_none());
}

#[test]
fn writes_are_visible_only_through_their_own_range() {
    let mut memory = Buffer::init_from_bytes(region_of(30));
    let a = memory.allocate(10).unwrap();
    let b = memory.alloc_mut(10).unwrap();
    let c = memory.allocate(9).unwrap();

    memory.set(&b, 4, 200);

    // The written byte reads back through the writing handle.
    assert_eq!(memory.get(&b.as_chunk(), 4), 200);
    // Every byte of the disjoint ranges, before and after, is untouched.
    for i in 0..10 {
        assert_eq!(memory.get(&a, i), i as u8);
    }
    for i in 0..9 {
        assert_eq!(memory.get(&c, i), (20 + i) as u8);
    }
    // The neighbours inside the written range are untouched too.
    assert_eq!(memory.get(&b.as_chunk(), 3), 13);
    assert_eq!(memory.get(&b.as_chunk(), 5), 15);
}

#[test]
fn repeated_failures_change_nothing() {
    let mut memory = Buffer::init_from_bytes(region_of(10));
    assert!(memory.allocate(9).is_some());
    assert_eq!(memory.remaining(), 1);
    for _ in 0..5 {
        assert!(memory.allocate(1).is_none());
        assert!(memory.alloc_mut(3).is_none());
        assert_eq!(memory.remaining(), 1);
    }
}
