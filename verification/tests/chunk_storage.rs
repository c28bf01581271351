use voxel_world::block::BlockType;
use voxel_world::chunk::{Chunk, ChunkCoordinate, CHUNK_HEIGHT, CHUNK_SIZE};

fn empty() -> Chunk {
    Chunk::new(ChunkCoordinate::new(3, -4))
}

#[test]
fn coordinate_helpers() {
    let c = ChunkCoordinate::new(2, -3);
    assert_eq!(c, ChunkCoordinate { x: 2, z: -3 });
    assert_eq!(c.world_position(), (32, -48));
    assert_eq!(
        c.neighbors(),
        [
            ChunkCoordinate::new(3, -3),
            ChunkCoordinate::new(1, -3),
            ChunkCoordinate::new(2, -2),
            ChunkCoordinate::new(2, -4),
        ]
    );
    assert_eq!(
        c.surrounding(),
        [
            ChunkCoordinate::new(3, -3),
            ChunkCoordinate::new(1, -3),
            ChunkCoordinate::new(2, -2),
            ChunkCoordinate::new(2, -4),
            ChunkCoordinate::new(3, -2),
            ChunkCoordinate::new(3, -4),
            ChunkCoordinate::new(1, -2),
            ChunkCoordinate::new(1, -4),
        ]
    );
}

#[test]
fn world_position_at_the_edges_of_the_world() {
    assert_eq!(ChunkCoordinate::new(134217727, -134217728).world_position(), (2147483632, i32::MIN));
}

#[test]
fn new_chunk_is_air_under_full_light() {
    let chunk = empty();
    assert_eq!(chunk.coordinate(), ChunkCoordinate::new(3, -4));
    assert!(!chunk.is_dirty());
    assert!(chunk.is_empty());
    assert_eq!(chunk.block_count(), 0);
    for (x, y, z) in [(0, 0, 0), (15, 255, 15), (7, 100, 3)] {
        assert_eq!(chunk.get_block(x, y, z), BlockType::Air);
        assert_eq!(chunk.get_light_level(x, y, z), 0xFF);
        assert_eq!(chunk.get_sky_light(x, y, z), 15);
        assert_eq!(chunk.get_block_light(x, y, z), 15);
        assert_eq!(chunk.get_height_at(x, z), 0);
    }
}

#[test]
fn set_then_get_returns_the_block() {
    let mut chunk = empty();
    for (x, y, z, b) in [
        (0, 0, 0, BlockType::Stone),
        (15, 255, 15, BlockType::Glass),
        (5, 64, 9, BlockType::Water),
        (5, 64, 9, BlockType::Torch),
        (5, 64, 9, BlockType::Air),
    ] {
        chunk.set_block(x, y, z, b);
        assert_eq!(chunk.get_block(x, y, z), b);
    }
    assert!(chunk.is_dirty());
}

#[test]
fn set_block_leaves_other_cells_alone() {
    let mut chunk = empty();
    chunk.set_block(4, 10, 4, BlockType::Stone);
    chunk.set_block(4, 11, 4, BlockType::Dirt);
    assert_eq!(chunk.get_block(4, 10, 4), BlockType::Stone);
    assert_eq!(chunk.get_block(4, 12, 4), BlockType::Air);
    assert_eq!(chunk.get_block(5, 10, 4), BlockType::Air);
    assert_eq!(chunk.get_block(4, 10, 5), BlockType::Air);
    assert_eq!(chunk.block_count(), 2);
}

#[test]
fn out_of_bounds_reads_are_air_and_writes_do_nothing() {
    let mut chunk = empty();
    chunk.set_block(1, 1, 1, BlockType::Stone);
    chunk.mark_clean();
    for (x, y, z) in [
        (CHUNK_SIZE, 0, 0),
        (0, CHUNK_HEIGHT, 0),
        (0, 0, CHUNK_SIZE),
        (usize::MAX, usize::MAX, usize::MAX),
        (16, 256, 16),
    ] {
        assert_eq!(chunk.get_block(x, y, z), BlockType::Air);
        assert_eq!(chunk.get_light_level(x, y, z), 0);
        assert_eq!(chunk.get_sky_light(x, y, z), 0);
        assert_eq!(chunk.get_block_light(x, y, z), 0);
        chunk.set_block(x, y, z, BlockType::Stone);
        chunk.set_light_level(x, y, z, 0x12);
        chunk.set_sky_light(x, y, z, 3);
        chunk.set_block_light(x, y, z, 4);
        assert_eq!(chunk.get_light_level(x, y, z), 0);
    }
    assert_eq!(chunk.get_height_at(16, 0), 0);
    assert_eq!(chunk.get_height_at(0, 16), 0);
    assert!(!chunk.is_dirty());
    assert_eq!(chunk.block_count(), 1);
    assert_eq!(chunk.get_block(1, 1, 1), BlockType::Stone);
    assert_eq!(chunk.get_block(0, 0, 0), BlockType::Air);
}

#[test]
fn setting_the_same_block_changes_nothing() {
    let mut chunk = empty();
    chunk.set_block(2, 2, 2, BlockType::Air);
    assert!(!chunk.is_dirty());
    assert_eq!(chunk.get_light_level(2, 2, 2), 0xFF);
    chunk.set_block(2, 2, 2, BlockType::Stone);
    chunk.set_light_level(2, 2, 2, 0x37);
    chunk.mark_clean();
    chunk.set_block(2, 2, 2, BlockType::Stone);
    assert!(!chunk.is_dirty());
    assert_eq!(chunk.get_light_level(2, 2, 2), 0x37);
}

fn true_height(chunk: &Chunk, x: usize, z: usize) -> usize {
    for y in (0..CHUNK_HEIGHT).rev() {
        if chunk.get_block(x, y, z) != BlockType::Air {
            return y + 1;
        }
    }
    0
}

#[test]
fn height_map_follows_every_write() {
    let mut chunk = empty();
    let writes = [
        (3, 10, 3, BlockType::Stone, 11),
        (3, 50, 3, BlockType::Dirt, 51),
        (3, 20, 3, BlockType::Water, 51),
        (3, 50, 3, BlockType::Air, 21),
        (3, 20, 3, BlockType::Air, 11),
        (3, 255, 3, BlockType::Glass, 256),
        (3, 255, 3, BlockType::Air, 11),
        (3, 10, 3, BlockType::Air, 0),
        (3, 0, 3, BlockType::Stone, 1),
        (3, 0, 3, BlockType::Air, 0),
    ];
    for (x, y, z, block, expected) in writes {
        chunk.set_block(x, y, z, block);
        assert_eq!(chunk.get_height_at(x, z), expected);
        for cx in 0..CHUNK_SIZE {
            for cz in 0..CHUNK_SIZE {
                assert_eq!(chunk.get_height_at(cx, cz), true_height(&chunk, cx, cz));
            }
        }
    }
}

#[test]
fn lowering_the_top_finds_the_next_block_below() {
    let mut chunk = empty();
    chunk.set_block(0, 5, 0, BlockType::Stone);
    chunk.set_block(0, 6, 0, BlockType::Stone);
    chunk.set_block(0, 9, 0, BlockType::Stone);
    chunk.set_block(0, 9, 0, BlockType::Air);
    assert_eq!(chunk.get_height_at(0, 0), 7);
    chunk.set_block(0, 5, 0, BlockType::Air);
    assert_eq!(chunk.get_height_at(0, 0), 7);
    chunk.set_block(0, 6, 0, BlockType::Air);
    assert_eq!(chunk.get_height_at(0, 0), 0);
}

#[test]
fn update_height_map_agrees_with_the_blocks() {
    let mut chunk = empty();
    chunk.set_block(1, 30, 2, BlockType::Stone);
    chunk.set_block(9, 200, 9, BlockType::Leaves);
    chunk.update_height_map();
    assert_eq!(chunk.get_height_at(1, 2), 31);
    assert_eq!(chunk.get_height_at(9, 9), 201);
    assert_eq!(chunk.get_height_at(0, 0), 0);
}

#[test]
fn a_changed_block_resets_the_light_of_its_cell() {
    let mut chunk = empty();
    chunk.set_block(6, 40, 6, BlockType::Stone);
    assert_eq!(chunk.get_light_level(6, 40, 6), 0xF0);
    chunk.set_block(6, 30, 6, BlockType::Stone);
    assert_eq!(chunk.get_light_level(6, 30, 6), 0x00);
    chunk.set_block(6, 255, 6, BlockType::Glass);
    assert_eq!(chunk.get_light_level(6, 255, 6), 0xF0);
    assert_eq!(chunk.get_light_level(6, 40, 6), 0xF0);
    assert_eq!(chunk.get_light_level(6, 41, 6), 0xFF);
    chunk.set_block(6, 40, 6, BlockType::Air);
    assert_eq!(chunk.get_light_level(6, 40, 6), 0x00);
}

#[test]
fn light_nibbles_are_packed_in_one_byte() {
    let mut chunk = empty();
    chunk.set_light_level(1, 2, 3, 0xA7);
    assert_eq!(chunk.get_sky_light(1, 2, 3), 10);
    assert_eq!(chunk.get_block_light(1, 2, 3), 7);
    chunk.set_sky_light(1, 2, 3, 4);
    assert_eq!(chunk.get_light_level(1, 2, 3), 0x47);
    chunk.set_block_light(1, 2, 3, 12);
    assert_eq!(chunk.get_light_level(1, 2, 3), 0x4C);
    chunk.set_sky_light(1, 2, 3, 0x3F);
    assert_eq!(chunk.get_light_level(1, 2, 3), 0xFC);
    chunk.set_block_light(1, 2, 3, 0xF1);
    assert_eq!(chunk.get_light_level(1, 2, 3), 0xF1);
    assert_eq!(chunk.get_light_level(1, 2, 4), 0xFF);
}

#[test]
fn sky_pass_lights_down_to_the_first_opaque_block() {
    let mut chunk = empty();
    chunk.set_block(2, 100, 2, BlockType::Glass);
    chunk.set_block(2, 90, 2, BlockType::Water);
    chunk.set_block(2, 80, 2, BlockType::Stone);
    chunk.set_block(2, 70, 2, BlockType::Leaves);
    chunk.set_light_level(2, 60, 2, 0x09);
    chunk.calculate_lighting();
    for y in 81..256 {
        assert_eq!(chunk.get_sky_light(2, y, 2), 15);
    }
    for y in 0..=80 {
        assert_eq!(chunk.get_sky_light(2, y, 2), 0);
    }
    assert_eq!(chunk.get_block_light(2, 60, 2), 9);
    assert_eq!(chunk.get_sky_light(3, 0, 2), 15);
    assert_eq!(chunk.get_block_light(3, 0, 2), 15);
}

fn light_of(chunk: &Chunk) -> Vec<u8> {
    let mut all = Vec::new();
    for x in 0..CHUNK_SIZE {
        for y in 0..CHUNK_HEIGHT {
            for z in 0..CHUNK_SIZE {
                all.push(chunk.get_light_level(x, y, z));
            }
        }
    }
    all
}

#[test]
fn sky_pass_is_idempotent() {
    let mut chunk = empty();
    chunk.fill_region(0, 0, 0, 16, 40, 16, BlockType::Stone);
    chunk.set_block(4, 90, 4, BlockType::Dirt);
    chunk.set_block(5, 91, 4, BlockType::Glass);
    chunk.set_light_level(4, 20, 4, 0x5A);
    chunk.calculate_lighting();
    let first = light_of(&chunk);
    chunk.calculate_lighting();
    assert_eq!(light_of(&chunk), first);
}

#[test]
fn sky_light_never_grows_on_the_way_down() {
    let mut chunk = empty();
    chunk.fill_region(0, 0, 0, 16, 30, 16, BlockType::Stone);
    chunk.set_block(8, 120, 8, BlockType::Stone);
    chunk.set_block(9, 200, 8, BlockType::Water);
    chunk.calculate_lighting();
    for x in 0..CHUNK_SIZE {
        for z in 0..CHUNK_SIZE {
            assert_eq!(chunk.get_sky_light(x, 255, z), 15);
            for y in 0..CHUNK_HEIGHT - 1 {
                assert!(chunk.get_sky_light(x, y, z) <= chunk.get_sky_light(x, y + 1, z));
            }
        }
    }
    assert_eq!(chunk.get_sky_light(8, 121, 8), 15);
    assert_eq!(chunk.get_sky_light(8, 119, 8), 0);
    assert_eq!(chunk.get_sky_light(9, 30, 8), 15);
    assert_eq!(chunk.get_sky_light(9, 29, 8), 0);
}

#[test]
fn emptiness_and_block_count() {
    let mut chunk = empty();
    chunk.set_block(0, 0, 0, BlockType::Stone);
    assert!(!chunk.is_empty());
    assert_eq!(chunk.block_count(), 1);
    chunk.set_block(15, 255, 15, BlockType::Water);
    assert_eq!(chunk.block_count(), 2);
    chunk.set_block(0, 0, 0, BlockType::Air);
    chunk.set_block(15, 255, 15, BlockType::Air);
    assert!(chunk.is_empty());
    assert_eq!(chunk.block_count(), 0);
}

#[test]
fn fill_region_sets_a_box() {
    let mut chunk = empty();
    chunk.fill_region(2, 10, 3, 5, 13, 7, BlockType::Brick);
    assert_eq!(chunk.block_count(), 3 * 3 * 4);
    for x in 0..CHUNK_SIZE {
        for y in 0..20 {
            for z in 0..CHUNK_SIZE {
                let inside = (2..5).contains(&x) && (10..13).contains(&y) && (3..7).contains(&z);
                let expected = if inside { BlockType::Brick } else { BlockType::Air };
                assert_eq!(chunk.get_block(x, y, z), expected);
            }
        }
    }
    assert_eq!(chunk.get_height_at(2, 3), 13);
    assert_eq!(chunk.get_height_at(5, 3), 0);
    assert_eq!(chunk.get_light_level(2, 12, 3), 0xF0);
    assert_eq!(chunk.get_light_level(2, 11, 3), 0xF0);
    assert_eq!(chunk.get_light_level(2, 9, 3), 0xFF);
    assert!(chunk.is_dirty());
}

#[test]
fn fill_region_is_clipped_to_the_chunk() {
    let mut chunk = empty();
    chunk.fill_region(14, 254, 14, 100, 1000, usize::MAX, BlockType::Stone);
    assert_eq!(chunk.block_count(), 2 * 2 * 2);
    assert_eq!(chunk.get_block(15, 255, 15), BlockType::Stone);
    assert_eq!(chunk.get_block(13, 255, 15), BlockType::Air);
    chunk.fill_region(5, 5, 5, 5, 9, 9, BlockType::Stone);
    chunk.fill_region(9, 9, 9, 3, 3, 3, BlockType::Stone);
    chunk.fill_region(16, 0, 0, 20, 5, 5, BlockType::Stone);
    assert_eq!(chunk.block_count(), 8);
}

#[test]
fn fill_region_over_blocks_keeps_their_light_where_nothing_changes() {
    let mut chunk = empty();
    chunk.set_block(1, 1, 1, BlockType::Stone);
    chunk.set_light_level(1, 1, 1, 0x33);
    chunk.set_block(1, 3, 1, BlockType::Dirt);
    chunk.mark_clean();
    chunk.fill_region(1, 1, 1, 2, 2, 2, BlockType::Stone);
    assert!(!chunk.is_dirty());
    assert_eq!(chunk.get_light_level(1, 1, 1), 0x33);
    chunk.fill_region(1, 0, 1, 2, 3, 2, BlockType::Stone);
    assert!(chunk.is_dirty());
    assert_eq!(chunk.get_light_level(1, 0, 1), 0x00);
    assert_eq!(chunk.get_light_level(1, 1, 1), 0x33);
    assert_eq!(chunk.get_light_level(1, 2, 1), 0x00);
}

#[test]
fn dirty_flag() {
    let mut chunk = empty();
    chunk.mark_dirty();
    assert!(chunk.is_dirty());
    chunk.mark_clean();
    assert!(!chunk.is_dirty());
    chunk.set_light_level(0, 0, 0, 1);
    assert!(!chunk.is_dirty());
}

/// A small generator of numbers for the tests that try many inputs.
struct Numbers(u64);

impl Numbers {
    fn next(&mut self, below: usize) -> usize {
        self.0 = self.0.wrapping_mul(6364136223846793005).wrapping_add(1442695040888963407);
        ((self.0 >> 33) as usize) % below
    }
}

#[test]
fn many_writes_keep_heights_and_light_right() {
    let blocks = [BlockType::Air, BlockType::Air, BlockType::Stone, BlockType::Water, BlockType::Torch];
    let mut numbers = Numbers(7);
    let mut chunk = empty();
    let mut expected_blocks = vec![BlockType::Air; 16 * 256 * 16];
    let mut expected_light = vec![0xFFu8; 16 * 256 * 16];
    let at = |x: usize, y: usize, z: usize| x + 16 * (z + 16 * y);
    for round in 0..20000 {
        // Few columns and few heights, so that writes meet.
        let (x, z) = (numbers.next(3), numbers.next(2));
        let y = if round % 7 == 0 { 250 + numbers.next(6) } else { numbers.next(12) };
        let block = blocks[numbers.next(blocks.len())];
        if expected_blocks[at(x, y, z)] != block {
            let open = (y + 1..256).all(|above| expected_blocks[at(x, above, z)] == BlockType::Air);
            expected_blocks[at(x, y, z)] = block;
            expected_light[at(x, y, z)] = if open { 0xF0 } else { 0x00 };
        }
        chunk.set_block(x, y, z, block);
        assert_eq!(chunk.get_block(x, y, z), block);
        assert_eq!(chunk.get_light_level(x, y, z), expected_light[at(x, y, z)]);
        let top = (0..256).rev().find(|&h| expected_blocks[at(x, h, z)] != BlockType::Air);
        assert_eq!(chunk.get_height_at(x, z), top.map_or(0, |h| h + 1));
    }
    let mut count = 0;
    for x in 0..16 {
        for y in 0..256 {
            for z in 0..16 {
                assert_eq!(chunk.get_block(x, y, z), expected_blocks[at(x, y, z)]);
                assert_eq!(chunk.get_light_level(x, y, z), expected_light[at(x, y, z)]);
                if expected_blocks[at(x, y, z)] != BlockType::Air {
                    count += 1;
                }
            }
        }
    }
    assert_eq!(chunk.block_count(), count);
    assert_eq!(chunk.is_empty(), count == 0);
}

#[test]
fn filling_is_setting_cell_by_cell() {
    let mut numbers = Numbers(11);
    for _ in 0..30 {
        let mut filled = empty();
        let mut set = empty();
        for _ in 0..40 {
            let (x, y, z) = (numbers.next(16), numbers.next(20), numbers.next(16));
            let block = if numbers.next(2) == 0 { BlockType::Dirt } else { BlockType::Glass };
            filled.set_block(x, y, z, block);
            set.set_block(x, y, z, block);
        }
        let (sx, sy, sz) = (numbers.next(18), numbers.next(20), numbers.next(18));
        let (ex, ey, ez) = (numbers.next(18), numbers.next(24), numbers.next(18));
        let block = if numbers.next(3) == 0 { BlockType::Air } else { BlockType::Dirt };
        filled.fill_region(sx, sy, sz, ex, ey, ez, block);
        for x in sx..ex.min(16) {
            for y in sy..ey.min(256) {
                for z in sz..ez.min(16) {
                    set.set_block(x, y, z, block);
                }
            }
        }
        assert_eq!(filled.is_dirty(), set.is_dirty());
        for x in 0..16 {
            for z in 0..16 {
                assert_eq!(filled.get_height_at(x, z), set.get_height_at(x, z));
                for y in 0..30 {
                    assert_eq!(filled.get_block(x, y, z), set.get_block(x, y, z));
                    assert_eq!(filled.get_light_level(x, y, z), set.get_light_level(x, y, z));
                }
            }
        }
    }
}
