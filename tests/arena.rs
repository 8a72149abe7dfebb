use baryon::{align_up, BufferLocation, BufferPool};

#[test]
fn align_up_rounds_to_the_next_multiple() {
    assert_eq!(align_up(0, 256), 0);
    assert_eq!(align_up(1, 256), 256);
    assert_eq!(align_up(256, 256), 256);
    assert_eq!(align_up(257, 256), 512);
    assert_eq!(align_up(13, 1), 13);
    assert_eq!(align_up(100, 64), 128);
}

#[test]
fn uniform_pool_starts_with_one_chunk() {
    let pool = BufferPool::uniform(256);
    assert_eq!(pool.chunk_size, 0x10000);
    assert_eq!(pool.alignment, 256);
    assert_eq!(pool.buffer_count, 1);
    assert_eq!(pool.last_index, 0);
    assert_eq!(pool.last_offset, 0);
}

#[test]
fn offsets_are_always_aligned() {
    let mut pool = BufferPool::uniform(256);
    let sizes = [100u32, 4, 256, 257, 1, 80, 3000, 12, 999];
    for round in 0..40 {
        for &size in sizes.iter() {
            let loc = pool.allocate(size + round);
            assert_eq!(loc.offset % 256, 0);
            assert!(loc.offset + size + round <= pool.chunk_size);
            assert!(loc.index < pool.buffer_count);
        }
    }
    assert!(pool.buffer_count > 1);
}

#[test]
fn allocation_rolls_over_to_the_next_chunk() {
    let mut pool = BufferPool::with_chunk_size(1024, 256);
    assert_eq!(pool.allocate(300), BufferLocation { index: 0, offset: 0 });
    assert_eq!(pool.last_offset, 512);
    assert_eq!(pool.allocate(300), BufferLocation { index: 0, offset: 512 });
    assert_eq!(pool.last_offset, 1024);
    assert_eq!(pool.buffer_count, 1);
    assert_eq!(pool.allocate(300), BufferLocation { index: 1, offset: 0 });
    assert_eq!(pool.buffer_count, 2);
    assert_eq!(pool.allocate(1024), BufferLocation { index: 2, offset: 0 });
    assert_eq!(pool.buffer_count, 3);
}

#[test]
fn reset_keeps_the_buffers() {
    let mut pool = BufferPool::with_chunk_size(1024, 256);
    for _ in 0..5 {
        pool.allocate(600);
    }
    assert_eq!(pool.buffer_count, 5);
    pool.reset();
    assert_eq!(pool.last_index, 0);
    assert_eq!(pool.last_offset, 0);
    assert_eq!(pool.buffer_count, 5);
    assert_eq!(pool.allocate(600), BufferLocation { index: 0, offset: 0 });
    assert_eq!(pool.buffer_count, 5);
}

#[test]
fn prepare_for_count_creates_enough_buffers() {
    let mut pool = BufferPool::uniform(256);
    assert_eq!(pool.prepare_for_count(0, 100), 0);
    assert_eq!(pool.prepare_for_count(1, 100), 1);
    assert_eq!(pool.prepare_for_count(256, 100), 1);
    assert_eq!(pool.buffer_count, 1);
    assert_eq!(pool.prepare_for_count(257, 100), 2);
    assert_eq!(pool.buffer_count, 2);
    assert_eq!(pool.prepare_for_count(1000, 300), 8);
    assert_eq!(pool.buffer_count, 8);
    assert_eq!(pool.prepare_for_count(1, 300), 1);
    assert_eq!(pool.buffer_count, 8);
}

#[test]
fn prepared_buffers_cover_the_allocations() {
    let mut pool = BufferPool::uniform(256);
    let count = pool.prepare_for_count(700, 144);
    pool.reset();
    for _ in 0..700 {
        let loc = pool.allocate(144);
        assert!(loc.index < count);
    }
    assert_eq!(pool.buffer_count, count);
}
