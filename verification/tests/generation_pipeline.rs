use noise::{NoiseFn, OpenSimplex};
use rand::rngs::StdRng;
use rand::SeedableRng;
use voxel_world::block::BlockType;
use voxel_world::chunk::{Chunk, ChunkCoordinate};
use voxel_world::generation::{Biome, ChunkNoise, NoiseField, OreDeposit, WorldGenerator};

/// A sampler that gives one value per field everywhere.
fn flat(temperature: i32, humidity: i32, terrain: i32, caves: i32) -> impl Fn(NoiseField, i64, i64, i64) -> i32 {
    move |field, _x, _y, _z| match field {
        NoiseField::Temperature => temperature,
        NoiseField::Humidity => humidity,
        NoiseField::Terrain => terrain,
        NoiseField::Caves => caves,
        NoiseField::Ore => 0,
    }
}

/// A sampler backed by open simplex noise, seeded as the generator says.
fn simplex(seed: u64) -> impl Fn(NoiseField, i64, i64, i64) -> i32 {
    let generator = WorldGenerator::new(seed);
    let terrain = OpenSimplex::new(generator.noise_seed(NoiseField::Terrain));
    let caves = OpenSimplex::new(generator.noise_seed(NoiseField::Caves));
    let temperature = OpenSimplex::new(generator.noise_seed(NoiseField::Temperature));
    let humidity = OpenSimplex::new(generator.noise_seed(NoiseField::Humidity));
    move |field, x, y, z| {
        let (px, py, pz) = (x as f64 / 1e6, y as f64 / 1e6, z as f64 / 1e6);
        let value = match field {
            NoiseField::Terrain => terrain.get([px, pz]),
            NoiseField::Caves => caves.get([px, py, pz]),
            NoiseField::Temperature => temperature.get([px, pz]),
            NoiseField::Humidity => humidity.get([px, pz]),
            NoiseField::Ore => 0.0,
        };
        (value * 1e6).round() as i32
    }
}

fn same_chunk(a: &Chunk, b: &Chunk) -> bool {
    if a.coordinate() != b.coordinate() || a.is_dirty() != b.is_dirty() {
        return false;
    }
    for x in 0..16 {
        for z in 0..16 {
            if a.get_height_at(x, z) != b.get_height_at(x, z) {
                return false;
            }
            for y in 0..256 {
                if a.get_block(x, y, z) != b.get_block(x, y, z)
                    || a.get_light_level(x, y, z) != b.get_light_level(x, y, z)
                {
                    return false;
                }
            }
        }
    }
    true
}

fn cells_of(chunk: &Chunk, wanted: &[BlockType]) -> Vec<(usize, usize, usize)> {
    let mut cells = Vec::new();
    for x in 0..16 {
        for y in 0..256 {
            for z in 0..16 {
                if wanted.contains(&chunk.get_block(x, y, z)) {
                    cells.push((x, y, z));
                }
            }
        }
    }
    cells
}

const ORES: [BlockType; 5] = [
    BlockType::CoalOre,
    BlockType::IronOre,
    BlockType::GoldOre,
    BlockType::DiamondOre,
    BlockType::RedstoneOre,
];

#[test]
fn biome_names() {
    assert_eq!(Biome::Plains.name(), "Plains");
    assert_eq!(Biome::Forest.name(), "Forest");
    assert_eq!(Biome::Desert.name(), "Desert");
    assert_eq!(Biome::Mountains.name(), "Mountains");
    assert_eq!(Biome::Hills.name(), "Hills");
    assert_eq!(Biome::Swamp.name(), "Swamp");
    assert_eq!(Biome::Ocean.name(), "Ocean");
}

#[test]
fn biome_rules_apply_in_order() {
    let g = WorldGenerator::new(1);
    assert_eq!(g.get_biome(-600000, 0), Biome::Mountains);
    assert_eq!(g.get_biome(-600000, 900000), Biome::Mountains);
    assert_eq!(g.get_biome(-500001, -900000), Biome::Mountains);
    assert_eq!(g.get_biome(600000, -400000), Biome::Desert);
    assert_eq!(g.get_biome(600000, -700000), Biome::Desert);
    assert_eq!(g.get_biome(100000, 400000), Biome::Swamp);
    assert_eq!(g.get_biome(-100000, 400000), Biome::Swamp);
    assert_eq!(g.get_biome(300000, -700000), Biome::Ocean);
    assert_eq!(g.get_biome(-100000, -700000), Biome::Ocean);
    assert_eq!(g.get_biome(100000, 100000), Biome::Forest);
    assert_eq!(g.get_biome(600000, 100000), Biome::Forest);
    assert_eq!(g.get_biome(300000, 400000), Biome::Forest);
    assert_eq!(g.get_biome(300000, -100000), Biome::Hills);
    assert_eq!(g.get_biome(600000, -100000), Biome::Hills);
    assert_eq!(g.get_biome(0, 0), Biome::Plains);
    assert_eq!(g.get_biome(100000, -100000), Biome::Plains);
    assert_eq!(g.get_biome(-100000, 100000), Biome::Plains);
}

#[test]
fn biome_thresholds_are_strict() {
    let g = WorldGenerator::new(1);
    assert_eq!(g.get_biome(-500000, 0), Biome::Plains);
    assert_eq!(g.get_biome(500000, -400000), Biome::Hills);
    assert_eq!(g.get_biome(600000, -300000), Biome::Hills);
    assert_eq!(g.get_biome(200000, 400000), Biome::Forest);
    assert_eq!(g.get_biome(100000, 300000), Biome::Forest);
    assert_eq!(g.get_biome(100000, -600000), Biome::Plains);
    assert_eq!(g.get_biome(0, 100000), Biome::Plains);
    assert_eq!(g.get_biome(100000, 0), Biome::Plains);
    assert_eq!(g.get_biome(200000, -100000), Biome::Plains);
    assert_eq!(g.get_biome(i32::MIN, i32::MIN), Biome::Mountains);
    assert_eq!(g.get_biome(i32::MAX, i32::MAX), Biome::Forest);
    assert_eq!(g.get_biome(i32::MAX, i32::MIN), Biome::Desert);
}

#[test]
fn terrain_height_formula() {
    let g = WorldGenerator::new(1);
    assert_eq!(g.get_terrain_height(0, 0, 0, &Biome::Forest), 75);
    assert_eq!(g.get_terrain_height(0, 0, 0, &Biome::Mountains), 97);
    assert_eq!(g.get_terrain_height(0, 0, 0, &Biome::Hills), 84);
    assert_eq!(g.get_terrain_height(0, 0, 0, &Biome::Plains), 66);
    assert_eq!(g.get_terrain_height(0, 0, 0, &Biome::Desert), 70);
    assert_eq!(g.get_terrain_height(0, 0, 0, &Biome::Swamp), 57);
    assert_eq!(g.get_terrain_height(0, 0, 0, &Biome::Ocean), 43);
    assert_eq!(g.get_terrain_height(1000000, 1000000, 1000000, &Biome::Forest), 114);
    assert_eq!(g.get_terrain_height(1000000, 1000000, 1000000, &Biome::Mountains), 120);
    assert_eq!(g.get_terrain_height(-1000000, -1000000, -1000000, &Biome::Forest), 35);
    assert_eq!(g.get_terrain_height(1000000, 0, 0, &Biome::Forest), 97);
    assert_eq!(g.get_terrain_height(0, 1000000, 0, &Biome::Forest), 86);
    assert_eq!(g.get_terrain_height(0, 0, 1000000, &Biome::Forest), 80);
    assert_eq!(g.get_terrain_height(500000, -250000, 125000, &Biome::Plains), 73);
}

#[test]
fn terrain_height_stays_between_the_limits() {
    let g = WorldGenerator::new(1);
    let biomes = [
        Biome::Plains,
        Biome::Forest,
        Biome::Desert,
        Biome::Mountains,
        Biome::Hills,
        Biome::Swamp,
        Biome::Ocean,
    ];
    for biome in biomes {
        assert_eq!(g.get_terrain_height(i32::MIN, i32::MIN, i32::MIN, &biome), 30);
        assert_eq!(g.get_terrain_height(i32::MAX, i32::MAX, i32::MAX, &biome), 120);
        assert_eq!(g.get_terrain_height(-2000000, 0, 0, &biome), 30);
        assert_eq!(g.get_terrain_height(-1000000, -1000000, -1000001, &biome), 30 + match biome {
            Biome::Mountains => 8,
            Biome::Hills => 6,
            Biome::Plains => 4,
            Biome::Desert => 5,
            Biome::Forest => 5,
            Biome::Swamp => 3,
            Biome::Ocean => 1,
        });
    }
}

#[test]
fn terrain_column_layers() {
    let g = WorldGenerator::new(1);
    let mut chunk = Chunk::new(ChunkCoordinate::new(0, 0));
    g.fill_terrain_column(&mut chunk, 1, 1, 75, &Biome::Forest);
    g.fill_terrain_column(&mut chunk, 2, 2, 43, &Biome::Ocean);
    g.fill_terrain_column(&mut chunk, 3, 3, 70, &Biome::Desert);
    g.fill_terrain_column(&mut chunk, 4, 4, 57, &Biome::Swamp);
    g.fill_terrain_column(&mut chunk, 5, 5, 64, &Biome::Plains);
    for y in 0..256 {
        let forest = match y {
            0..=71 => BlockType::Stone,
            72..=74 => BlockType::Dirt,
            75 => BlockType::Grass,
            _ => BlockType::Air,
        };
        assert_eq!(chunk.get_block(1, y, 1), forest);
        let ocean = match y {
            0..=39 => BlockType::Stone,
            40..=43 => BlockType::Dirt,
            44..=64 => BlockType::Water,
            _ => BlockType::Air,
        };
        assert_eq!(chunk.get_block(2, y, 2), ocean);
        let desert = match y {
            0..=66 => BlockType::Stone,
            67..=70 => BlockType::Sand,
            _ => BlockType::Air,
        };
        assert_eq!(chunk.get_block(3, y, 3), desert);
        let swamp = match y {
            0..=53 => BlockType::Stone,
            54..=57 => BlockType::Dirt,
            58..=64 => BlockType::Water,
            _ => BlockType::Air,
        };
        assert_eq!(chunk.get_block(4, y, 4), swamp);
        let plains = match y {
            0..=60 => BlockType::Stone,
            61..=63 => BlockType::Dirt,
            64 => BlockType::Grass,
            _ => BlockType::Air,
        };
        assert_eq!(chunk.get_block(5, y, 5), plains);
    }
    assert_eq!(chunk.get_height_at(1, 1), 76);
    assert_eq!(chunk.get_height_at(2, 2), 65);
    assert_eq!(chunk.get_height_at(0, 0), 0);
}

#[test]
fn terrain_column_of_little_height() {
    let g = WorldGenerator::new(1);
    let mut chunk = Chunk::new(ChunkCoordinate::new(0, 0));
    g.fill_terrain_column(&mut chunk, 0, 0, 0, &Biome::Forest);
    g.fill_terrain_column(&mut chunk, 1, 0, 2, &Biome::Forest);
    g.fill_terrain_column(&mut chunk, 2, 0, 300, &Biome::Forest);
    g.fill_terrain_column(&mut chunk, 16, 0, 50, &Biome::Forest);
    assert_eq!(chunk.get_block(0, 0, 0), BlockType::Stone);
    assert_eq!(chunk.get_block(0, 1, 0), BlockType::Water);
    assert_eq!(chunk.get_block(0, 64, 0), BlockType::Water);
    assert_eq!(chunk.get_block(0, 65, 0), BlockType::Air);
    assert_eq!(chunk.get_block(1, 0, 0), BlockType::Stone);
    assert_eq!(chunk.get_block(1, 1, 0), BlockType::Dirt);
    assert_eq!(chunk.get_block(1, 2, 0), BlockType::Grass);
    assert_eq!(chunk.get_block(1, 3, 0), BlockType::Water);
    assert_eq!(chunk.get_block(2, 255, 0), BlockType::Stone);
    assert_eq!(chunk.get_block(2, 296, 0), BlockType::Air);
    assert_eq!(chunk.get_block(3, 0, 0), BlockType::Air);
}

#[test]
fn samples_must_have_their_lengths() {
    let columns = vec![0i32; 256];
    let caves = vec![0i32; 19200];
    assert!(ChunkNoise::from_samples(
        columns.clone(),
        columns.clone(),
        columns.clone(),
        columns.clone(),
        columns.clone(),
        caves.clone()
    )
    .is_some());
    assert!(ChunkNoise::from_samples(
        vec![0; 255],
        columns.clone(),
        columns.clone(),
        columns.clone(),
        columns.clone(),
        caves.clone()
    )
    .is_none());
    assert!(ChunkNoise::from_samples(
        columns.clone(),
        columns.clone(),
        columns.clone(),
        columns.clone(),
        vec![0; 257],
        caves.clone()
    )
    .is_none());
    assert!(ChunkNoise::from_samples(
        columns.clone(),
        columns.clone(),
        columns.clone(),
        columns.clone(),
        columns.clone(),
        vec![0; 256]
    )
    .is_none());
    assert!(ChunkNoise::from_samples(vec![], vec![], vec![], vec![], vec![], vec![]).is_none());
}

#[test]
fn sampling_asks_for_the_points_of_each_field() {
    let asked: std::cell::RefCell<Vec<(NoiseField, i64, i64, i64)>> =
        std::cell::RefCell::new(Vec::new());
    let sampler = |field: NoiseField, x: i64, y: i64, z: i64| {
        asked.borrow_mut().push((field, x, y, z));
        0
    };
    let _ = ChunkNoise::sample(ChunkCoordinate::new(2, -1), &sampler);
    let asked = asked.into_inner();
    assert_eq!(asked.len(), 5 * 256 + 19200);
    // The first column is the block column (32, -16).
    assert_eq!(asked[0], (NoiseField::Temperature, 160000, 0, -80000));
    assert_eq!(asked[1], (NoiseField::Humidity, 208000, 0, -136000));
    assert_eq!(asked[2], (NoiseField::Terrain, 320000, 0, -160000));
    assert_eq!(asked[3], (NoiseField::Terrain, 640000, 0, -320000));
    assert_eq!(asked[4], (NoiseField::Terrain, 1280000, 0, -640000));
    // The second column is the next along x.
    assert_eq!(asked[5], (NoiseField::Temperature, 165000, 0, -80000));
    // The seventeenth column is the first of the next row along z.
    assert_eq!(asked[5 * 16], (NoiseField::Temperature, 160000, 0, -75000));
    // The caves follow, from the cave floor up.
    assert_eq!(asked[5 * 256], (NoiseField::Caves, 640000, 200000, -320000));
    assert_eq!(asked[5 * 256 + 1], (NoiseField::Caves, 660000, 200000, -320000));
    assert_eq!(asked[5 * 256 + 16], (NoiseField::Caves, 640000, 200000, -300000));
    assert_eq!(asked[5 * 256 + 256], (NoiseField::Caves, 640000, 240000, -320000));
    assert_eq!(asked[5 * 256 + 19199], (NoiseField::Caves, 940000, 3160000, -20000));
    assert!(asked.iter().all(|(field, _, _, _)| *field != NoiseField::Ore));
}

#[test]
fn noise_seeds_are_the_seed_plus_an_offset() {
    let g = WorldGenerator::new(42);
    assert_eq!(g.seed(), 42);
    assert_eq!(g.noise_seed(NoiseField::Terrain), 42);
    assert_eq!(g.noise_seed(NoiseField::Caves), 43);
    assert_eq!(g.noise_seed(NoiseField::Ore), 44);
    assert_eq!(g.noise_seed(NoiseField::Temperature), 45);
    assert_eq!(g.noise_seed(NoiseField::Humidity), 46);
    let g = WorldGenerator::new((1 << 32) + 5);
    assert_eq!(g.noise_seed(NoiseField::Terrain), 5);
    assert_eq!(g.noise_seed(NoiseField::Humidity), 9);
    let g = WorldGenerator::new(u64::MAX);
    assert_eq!(g.noise_seed(NoiseField::Terrain), u32::MAX);
    assert_eq!(g.noise_seed(NoiseField::Caves), 0);
    assert_eq!(g.noise_seed(NoiseField::Humidity), 3);
}

#[test]
fn chunk_seed_mixes_seed_and_position() {
    let g = WorldGenerator::new(42);
    assert_eq!(g.chunk_seed(ChunkCoordinate::new(0, 0)), 42);
    assert_eq!(g.chunk_seed(ChunkCoordinate::new(1, 2)), 68719476810);
    assert_eq!(g.chunk_seed(ChunkCoordinate::new(-1, 0)), 18446744004990074922);
    assert_eq!(g.chunk_seed(ChunkCoordinate::new(0, -1)), 26);
    let g = WorldGenerator::new(u64::MAX);
    assert_eq!(g.chunk_seed(ChunkCoordinate::new(0, 1)), 15);
    // What the wrapping sum of the sign-extended block coordinates gives.
    for (seed, x, z) in [(7u64, 5i32, -9i32), (u64::MAX, -100, 100), (1 << 63, 134217727, -134217728)] {
        let expected = seed
            .wrapping_add(((x * 16) as u64) << 32)
            .wrapping_add((z * 16) as u64);
        assert_eq!(WorldGenerator::new(seed).chunk_seed(ChunkCoordinate::new(x, z)), expected);
    }
}

#[test]
fn terrain_pass_on_flat_noise() {
    let g = WorldGenerator::new(9);
    let noise = ChunkNoise::sample(ChunkCoordinate::new(0, 0), &flat(0, 0, 0, 0));
    let mut chunk = Chunk::new(ChunkCoordinate::new(0, 0));
    g.generate_terrain(&mut chunk, &noise);
    for x in 0..16 {
        for z in 0..16 {
            assert_eq!(chunk.get_height_at(x, z), 67);
            assert_eq!(chunk.get_block(x, 66, z), BlockType::Grass);
            assert_eq!(chunk.get_block(x, 65, z), BlockType::Dirt);
            assert_eq!(chunk.get_block(x, 63, z), BlockType::Dirt);
            assert_eq!(chunk.get_block(x, 62, z), BlockType::Stone);
            assert_eq!(chunk.get_block(x, 0, z), BlockType::Stone);
            assert_eq!(chunk.get_block(x, 67, z), BlockType::Air);
        }
    }
    assert_eq!(chunk.block_count(), 256 * 67);
}

#[test]
fn caves_are_carved_out_of_stone_and_dirt_only() {
    let g = WorldGenerator::new(9);
    let open = ChunkNoise::sample(ChunkCoordinate::new(0, 0), &flat(300000, -700000, 0, 400001));
    let mut chunk = Chunk::new(ChunkCoordinate::new(0, 0));
    g.generate_terrain(&mut chunk, &open);
    // An ocean: terrain up to 43, dirt on top, water up to 64.
    g.generate_caves(&mut chunk, &open);
    for x in 0..16 {
        for z in 0..16 {
            for y in 0..5 {
                assert_eq!(chunk.get_block(x, y, z), BlockType::Stone);
            }
            for y in 5..44 {
                assert_eq!(chunk.get_block(x, y, z), BlockType::Air);
            }
            for y in 44..65 {
                assert_eq!(chunk.get_block(x, y, z), BlockType::Water);
            }
        }
    }
    let closed = ChunkNoise::sample(ChunkCoordinate::new(0, 0), &flat(300000, -700000, 0, 400000));
    let mut chunk = Chunk::new(ChunkCoordinate::new(0, 0));
    g.generate_terrain(&mut chunk, &closed);
    let before = chunk.block_count();
    g.generate_caves(&mut chunk, &closed);
    assert_eq!(chunk.block_count(), before);
}

#[test]
fn caves_end_below_the_cave_ceiling() {
    let g = WorldGenerator::new(9);
    let noise = ChunkNoise::sample(ChunkCoordinate::new(0, 0), &flat(-900000, 0, 1000000, 900000));
    let mut chunk = Chunk::new(ChunkCoordinate::new(0, 0));
    g.generate_terrain(&mut chunk, &noise);
    assert_eq!(chunk.get_height_at(0, 0), 121);
    g.generate_caves(&mut chunk, &noise);
    assert_eq!(chunk.get_block(0, 4, 0), BlockType::Stone);
    assert_eq!(chunk.get_block(0, 5, 0), BlockType::Air);
    assert_eq!(chunk.get_block(0, 79, 0), BlockType::Air);
    assert_eq!(chunk.get_block(0, 80, 0), BlockType::Stone);
    assert_eq!(chunk.get_block(0, 120, 0), BlockType::Grass);
}

fn stone_chunk(coordinate: ChunkCoordinate) -> Chunk {
    let mut chunk = Chunk::new(coordinate);
    chunk.fill_region(0, 0, 0, 16, 100, 16, BlockType::Stone);
    chunk
}

#[test]
fn a_vein_replaces_stone_only_and_keeps_its_size() {
    let g = WorldGenerator::new(3);
    for seed in 0..200u64 {
        let mut chunk = stone_chunk(ChunkCoordinate::new(0, 0));
        chunk.set_block(8, 31, 8, BlockType::Dirt);
        let mut rng = StdRng::seed_from_u64(seed);
        g.place_ore_vein(&mut chunk, 8, 30, 8, BlockType::GoldOre, 5, &mut rng);
        let ore = cells_of(&chunk, &[BlockType::GoldOre]);
        assert!(!ore.is_empty() && ore.len() <= 5);
        assert!(ore.contains(&(8, 30, 8)));
        assert_eq!(chunk.get_block(8, 31, 8), BlockType::Dirt);
        assert_eq!(chunk.block_count(), 16 * 16 * 100);
        // Every cell of the vein but its first touches another cell of the vein.
        for &(x, y, z) in &ore {
            if ore.len() > 1 {
                assert!(ore.iter().any(|&(ax, ay, az)| ax.abs_diff(x) + ay.abs_diff(y) + az.abs_diff(z) == 1));
            }
        }
    }
}

#[test]
fn veins_come_in_all_sizes() {
    let g = WorldGenerator::new(3);
    let mut sizes = [0usize; 9];
    for seed in 0..300u64 {
        let mut chunk = stone_chunk(ChunkCoordinate::new(0, 0));
        let mut rng = StdRng::seed_from_u64(seed);
        g.place_ore_vein(&mut chunk, 8, 30, 8, BlockType::CoalOre, 8, &mut rng);
        sizes[cells_of(&chunk, &[BlockType::CoalOre]).len()] += 1;
    }
    assert_eq!(sizes[0], 0);
    // Four in ten veins stop at their first cell, the others grow on.
    assert!(sizes[1] > 60 && sizes[1] < 180);
    assert!(sizes[8] > 20);
}

#[test]
fn a_vein_does_not_start_outside_stone() {
    let g = WorldGenerator::new(3);
    let mut chunk = stone_chunk(ChunkCoordinate::new(0, 0));
    let mut rng = StdRng::seed_from_u64(1);
    g.place_ore_vein(&mut chunk, 8, 150, 8, BlockType::IronOre, 6, &mut rng);
    g.place_ore_vein(&mut chunk, 16, 30, 8, BlockType::IronOre, 6, &mut rng);
    g.place_ore_vein(&mut chunk, 8, 256, 8, BlockType::IronOre, 6, &mut rng);
    g.place_ore_vein(&mut chunk, 8, 30, 8, BlockType::IronOre, 0, &mut rng);
    assert!(cells_of(&chunk, &[BlockType::IronOre]).is_empty());
    assert!(!chunk.is_dirty() || chunk.block_count() == 16 * 16 * 100);
}

#[test]
fn a_vein_at_the_corner_stays_in_the_chunk() {
    let g = WorldGenerator::new(3);
    for seed in 0..50u64 {
        let mut chunk = stone_chunk(ChunkCoordinate::new(0, 0));
        let mut rng = StdRng::seed_from_u64(seed);
        g.place_ore_vein(&mut chunk, 0, 0, 0, BlockType::DiamondOre, 8, &mut rng);
        g.place_ore_vein(&mut chunk, 15, 99, 15, BlockType::DiamondOre, 8, &mut rng);
        let ore = cells_of(&chunk, &[BlockType::DiamondOre]);
        assert!(ore.len() >= 2 && ore.len() <= 16);
    }
}

#[test]
fn ore_deposits_table() {
    let table = WorldGenerator::ore_deposits();
    let expected = [
        (BlockType::CoalOre, 10, 70, 20, 8),
        (BlockType::IronOre, 5, 50, 15, 6),
        (BlockType::GoldOre, 5, 35, 8, 4),
        (BlockType::DiamondOre, 1, 16, 3, 3),
        (BlockType::RedstoneOre, 1, 20, 10, 5),
    ];
    for (deposit, (ore, low, high, chance, size)) in table.iter().zip(expected) {
        assert_eq!(deposit.ore, ore);
        assert_eq!(deposit.y_low, low);
        assert_eq!(deposit.y_high, high);
        assert_eq!(deposit.per_mille, chance);
        assert_eq!(deposit.vein_size, size);
    }
}

#[test]
fn certain_deposits_fill_their_heights() {
    let g = WorldGenerator::new(11);
    let deposit = OreDeposit { ore: BlockType::LapisOre, y_low: 20, y_high: 21, per_mille: 1000, vein_size: 1 };
    let mut columns = std::collections::HashSet::new();
    for seed in 0..40u64 {
        let mut chunk = stone_chunk(ChunkCoordinate::new(0, 0));
        let mut rng = StdRng::seed_from_u64(seed);
        g.generate_ore_type(&mut chunk, &mut rng, deposit);
        let ore = cells_of(&chunk, &[BlockType::LapisOre]);
        assert!(!ore.is_empty() && ore.len() <= 4);
        for (x, y, z) in ore {
            assert_eq!(y, 20);
            columns.insert((x, z));
        }
    }
    // The cells are drawn, not fixed.
    assert!(columns.len() > 100);
    let never = OreDeposit { ore: BlockType::LapisOre, y_low: 20, y_high: 21, per_mille: 0, vein_size: 1 };
    let mut chunk = stone_chunk(ChunkCoordinate::new(0, 0));
    let mut rng = StdRng::seed_from_u64(5);
    g.generate_ore_type(&mut chunk, &mut rng, never);
    assert!(cells_of(&chunk, &[BlockType::LapisOre]).is_empty());
}

#[test]
fn ores_are_placed_the_same_way_twice() {
    let g = WorldGenerator::new(77);
    let mut with_ore = 0;
    let mut without_ore = 0;
    let mut placements = std::collections::HashSet::new();
    for x in -8..8 {
        for z in -8..8 {
            let coordinate = ChunkCoordinate::new(x, z);
            let mut first = stone_chunk(coordinate);
            let mut second = stone_chunk(coordinate);
            g.generate_ores(&mut first);
            g.generate_ores(&mut second);
            let ore = cells_of(&first, &ORES);
            assert_eq!(ore, cells_of(&second, &ORES));
            assert!(same_chunk(&first, &second));
            assert!(ore.len() <= 4 * (8 + 6 + 4 + 3 + 5));
            assert_eq!(first.block_count(), 16 * 16 * 100);
            if ore.is_empty() {
                without_ore += 1;
            } else {
                with_ore += 1;
                placements.insert(ore);
            }
        }
    }
    // About one chunk in five holds a vein.
    assert!(with_ore > 20, "{} chunks with ore", with_ore);
    assert!(without_ore > 100, "{} chunks without ore", without_ore);
    // Different chunks get different veins.
    assert!(placements.len() > with_ore / 2);
}

#[test]
fn ores_depend_on_the_seed() {
    let coordinate = ChunkCoordinate::new(0, 0);
    let mut seen = std::collections::HashSet::new();
    for seed in 0..400u64 {
        let mut chunk = stone_chunk(coordinate);
        WorldGenerator::new(seed).generate_ores(&mut chunk);
        seen.insert(cells_of(&chunk, &ORES));
    }
    assert!(seen.len() > 30);
}

#[test]
fn surface_level_is_the_top_block_that_is_neither_air_nor_water() {
    let g = WorldGenerator::new(1);
    let mut chunk = Chunk::new(ChunkCoordinate::new(0, 0));
    assert_eq!(g.find_surface_level(&chunk, 0, 0), None);
    chunk.set_block(0, 10, 0, BlockType::Stone);
    chunk.set_block(0, 11, 0, BlockType::Water);
    chunk.set_block(0, 64, 0, BlockType::Water);
    assert_eq!(g.find_surface_level(&chunk, 0, 0), Some(10));
    chunk.set_block(0, 255, 0, BlockType::Leaves);
    assert_eq!(g.find_surface_level(&chunk, 0, 0), Some(255));
    chunk.set_block(1, 0, 1, BlockType::TallGrass);
    assert_eq!(g.find_surface_level(&chunk, 1, 1), Some(0));
    chunk.set_block(2, 5, 2, BlockType::Water);
    assert_eq!(g.find_surface_level(&chunk, 2, 2), None);
    assert_eq!(g.find_surface_level(&chunk, 16, 0), None);
}

fn decorated(seed: u64, coordinate: ChunkCoordinate, noise: &ChunkNoise) -> Chunk {
    let g = WorldGenerator::new(seed);
    let mut chunk = Chunk::new(coordinate);
    g.generate_terrain(&mut chunk, noise);
    g.generate_surface_features(&mut chunk, noise);
    chunk
}

#[test]
fn forests_grow_trees_and_grass() {
    let noise = ChunkNoise::sample(ChunkCoordinate::new(0, 0), &flat(300000, 100000, 0, 0));
    let mut trunks = 0;
    let mut grass = 0;
    let mut heights = std::collections::HashSet::new();
    for seed in 0..20u64 {
        let chunk = decorated(seed, ChunkCoordinate::new(0, 0), &noise);
        for x in 0..16 {
            for z in 0..16 {
                assert_eq!(chunk.get_block(x, 75, z), BlockType::Grass);
                match chunk.get_block(x, 76, z) {
                    BlockType::Log => {
                        trunks += 1;
                        let mut height = 0;
                        while chunk.get_block(x, 76 + height, z) == BlockType::Log {
                            height += 1;
                        }
                        heights.insert(height);
                    }
                    BlockType::TallGrass => grass += 1,
                    BlockType::Air | BlockType::Leaves => {}
                    other => panic!("{:?} on the forest floor", other),
                }
            }
        }
        // A canopy starts one above the foot of its trunk at the lowest.
        let leaves = cells_of(&chunk, &[BlockType::Leaves]);
        assert!(!leaves.is_empty());
        for (_, y, _) in leaves {
            assert!(y >= 77);
        }
    }
    // Trees and grass on the ground; canopies cover a part of it, and what
    // grows there stands on the leaves.
    assert!(trunks > 150 && trunks < 750, "{} trunks", trunks);
    assert!(grass > 400 && grass < 1800, "{} grass", grass);
    assert!(heights.iter().all(|h| (4..=7).contains(h)));
    assert!(heights.contains(&4) && heights.contains(&5) && heights.contains(&6) && heights.contains(&7));
}

#[test]
fn a_single_tree_has_a_trunk_and_a_canopy() {
    // A forest on the block column (8, 8) alone, in an ocean.
    let island = |field: NoiseField, x: i64, _y: i64, z: i64| match field {
        NoiseField::Temperature => 300000,
        NoiseField::Humidity => if (x, z) == (8 * 6500, 8 * 8500) { 100000 } else { -700000 },
        _ => 0,
    };
    let noise = ChunkNoise::sample(ChunkCoordinate::new(0, 0), &island);
    let mut heights = std::collections::HashSet::new();
    let mut leaves_seen = std::collections::HashSet::new();
    for seed in 0..400u64 {
        let chunk = decorated(seed, ChunkCoordinate::new(0, 0), &noise);
        assert_eq!(chunk.get_block(8, 75, 8), BlockType::Grass);
        assert_eq!(chunk.get_block(7, 64, 8), BlockType::Water);
        if chunk.get_block(8, 76, 8) != BlockType::Log {
            assert!(cells_of(&chunk, &[BlockType::Log, BlockType::Leaves]).is_empty());
            continue;
        }
        let mut height = 0;
        while chunk.get_block(8, 76 + height, 8) == BlockType::Log {
            height += 1;
        }
        assert!((4..=7).contains(&height));
        heights.insert(height);
        assert_eq!(cells_of(&chunk, &[BlockType::Log]).len(), height);
        let top = 76 + height as i32;
        let leaves = cells_of(&chunk, &[BlockType::Leaves]);
        assert!(leaves.len() <= 3 * 13 + 2 * 5 - 3);
        for (x, y, z) in leaves {
            let (dx, dz, layer) = (x as i32 - 8, z as i32 - 8, y as i32 - top);
            assert!((-3..=1).contains(&layer));
            let reach = if layer >= 0 { 1 } else { 4 };
            assert!(dx * dx + dz * dz <= reach);
            assert!(layer >= 0 || (dx, dz) != (0, 0));
            leaves_seen.insert((dx, layer, dz));
        }
    }
    assert_eq!(heights.len(), 4);
    // Each cell of the canopy is filled in some tree, and left open in another.
    assert_eq!(leaves_seen.len(), 3 * 12 + 2 * 5);
}

#[test]
fn plains_grow_grass_and_deserts_dead_bushes() {
    let plains = ChunkNoise::sample(ChunkCoordinate::new(0, 0), &flat(0, 0, 0, 0));
    let desert = ChunkNoise::sample(ChunkCoordinate::new(0, 0), &flat(600000, -400000, 0, 0));
    let mut grass = 0;
    let mut bushes = 0;
    for seed in 0..20u64 {
        let chunk = decorated(seed, ChunkCoordinate::new(0, 0), &plains);
        assert_eq!(chunk.block_count(), 256 * 67 + cells_of(&chunk, &[BlockType::TallGrass]).len());
        for (_, y, _) in cells_of(&chunk, &[BlockType::TallGrass]) {
            assert_eq!(y, 67);
            grass += 1;
        }
        let chunk = decorated(seed, ChunkCoordinate::new(0, 0), &desert);
        assert_eq!(chunk.block_count(), 256 * 71 + cells_of(&chunk, &[BlockType::DeadBush]).len());
        for (_, y, _) in cells_of(&chunk, &[BlockType::DeadBush]) {
            assert_eq!(y, 71);
            bushes += 1;
        }
    }
    assert!(grass > 800 && grass < 1250, "{} grass", grass);
    assert!(bushes > 50 && bushes < 160, "{} bushes", bushes);
}

#[test]
fn other_biomes_stay_bare() {
    for (temperature, humidity) in [(-600000, 0), (300000, -100000), (100000, 400000), (300000, -700000)] {
        let noise = ChunkNoise::sample(ChunkCoordinate::new(0, 0), &flat(temperature, humidity, 0, 0));
        let g = WorldGenerator::new(5);
        let mut chunk = Chunk::new(ChunkCoordinate::new(0, 0));
        g.generate_terrain(&mut chunk, &noise);
        let before = chunk.block_count();
        g.generate_surface_features(&mut chunk, &noise);
        assert_eq!(chunk.block_count(), before);
    }
}

#[test]
fn nothing_grows_on_top_of_the_chunk() {
    let noise = ChunkNoise::sample(ChunkCoordinate::new(0, 0), &flat(0, 0, 0, 0));
    let g = WorldGenerator::new(5);
    let mut chunk = Chunk::new(ChunkCoordinate::new(0, 0));
    chunk.fill_region(0, 0, 0, 16, 256, 16, BlockType::Stone);
    g.generate_surface_features(&mut chunk, &noise);
    assert_eq!(chunk.block_count(), 65536);
    assert!(cells_of(&chunk, &[BlockType::TallGrass]).is_empty());
}

#[test]
fn generation_is_deterministic() {
    for seed in [0u64, 42, u64::MAX] {
        let sampler = simplex(seed);
        let g = WorldGenerator::new(seed);
        for coordinate in [ChunkCoordinate::new(0, 0), ChunkCoordinate::new(-7, 13)] {
            let noise = ChunkNoise::sample(coordinate, &sampler);
            let again = ChunkNoise::sample(coordinate, &sampler);
            let first = g.generate_chunk(coordinate, &noise);
            let second = WorldGenerator::new(seed).generate_chunk(coordinate, &again);
            assert!(same_chunk(&first, &second));
            assert_eq!(cells_of(&first, &ORES), cells_of(&second, &ORES));
            assert_eq!(first.coordinate(), coordinate);
        }
    }
}

#[test]
fn generated_chunks_differ_by_seed_and_place() {
    let a = WorldGenerator::new(1).generate_chunk(
        ChunkCoordinate::new(0, 0),
        &ChunkNoise::sample(ChunkCoordinate::new(0, 0), &simplex(1)),
    );
    let b = WorldGenerator::new(2).generate_chunk(
        ChunkCoordinate::new(0, 0),
        &ChunkNoise::sample(ChunkCoordinate::new(0, 0), &simplex(2)),
    );
    let c = WorldGenerator::new(1).generate_chunk(
        ChunkCoordinate::new(40, -3),
        &ChunkNoise::sample(ChunkCoordinate::new(40, -3), &simplex(1)),
    );
    assert!(!same_chunk(&a, &b));
    assert!(!same_chunk(&a, &c));
}

#[test]
fn a_generated_chunk_is_terrain_under_sky_light() {
    let seed = 42;
    let coordinate = ChunkCoordinate::new(3, 5);
    let noise = ChunkNoise::sample(coordinate, &simplex(seed));
    let chunk = WorldGenerator::new(seed).generate_chunk(coordinate, &noise);
    assert!(chunk.is_dirty());
    for x in 0..16 {
        for z in 0..16 {
            assert_eq!(chunk.get_block(x, 0, z), BlockType::Stone);
            let height = chunk.get_height_at(x, z);
            assert!((31..=130).contains(&height));
            assert_ne!(chunk.get_block(x, height - 1, z), BlockType::Air);
            let mut lit = true;
            for y in (0..256).rev() {
                let block = chunk.get_block(x, y, z);
                if y >= height {
                    assert_eq!(block, BlockType::Air);
                }
                if !block.is_transparent() {
                    lit = false;
                }
                assert_eq!(chunk.get_sky_light(x, y, z), if lit { 15 } else { 0 });
            }
        }
    }
}

#[test]
fn generation_on_noise_beyond_its_range() {
    let g = WorldGenerator::new(8);
    let coordinate = ChunkCoordinate::new(i32::MAX, i32::MIN);
    let wild = |field: NoiseField, x: i64, _y: i64, z: i64| match field {
        NoiseField::Caves => i32::MAX,
        _ => ((x ^ z) as i32).wrapping_mul(2654435),
    };
    let noise = ChunkNoise::sample(coordinate, &wild);
    let chunk = g.generate_chunk(coordinate, &noise);
    let again = g.generate_chunk(coordinate, &noise);
    assert!(same_chunk(&chunk, &again));
    for x in 0..16 {
        for z in 0..16 {
            assert!(chunk.get_height_at(x, z) >= 1);
        }
    }
}

#[test]
fn a_vein_spreads_to_the_neighbours_of_a_cell() {
    let g = WorldGenerator::new(1);
    let mut stack = vec![(1, 1, 1)];
    g.spread_vein(&mut stack, 5, 6, 7, false);
    assert_eq!(stack, vec![(1, 1, 1)]);
    g.spread_vein(&mut stack, 5, 6, 7, true);
    assert_eq!(stack, vec![(1, 1, 1), (6, 6, 7), (4, 6, 7), (5, 7, 7), (5, 5, 7), (5, 6, 8), (5, 6, 6)]);
    let mut stack = Vec::new();
    g.spread_vein(&mut stack, 0, 0, 0, true);
    assert_eq!(stack, vec![(1, 0, 0), (0, 1, 0), (0, 0, 1)]);
    let mut stack = Vec::new();
    g.spread_vein(&mut stack, 15, 255, 15, true);
    assert_eq!(stack, vec![(16, 255, 15), (14, 255, 15), (15, 256, 15), (15, 254, 15), (15, 255, 16), (15, 255, 14)]);
}

#[test]
fn leaves_grow_in_air_only() {
    let g = WorldGenerator::new(1);
    let mut chunk = Chunk::new(ChunkCoordinate::new(0, 0));
    chunk.set_block(1, 1, 1, BlockType::Water);
    chunk.set_block(2, 1, 1, BlockType::Log);
    g.place_leaf(&mut chunk, 0, 1, 1, false);
    g.place_leaf(&mut chunk, 1, 1, 1, true);
    g.place_leaf(&mut chunk, 2, 1, 1, true);
    g.place_leaf(&mut chunk, 3, 1, 1, true);
    g.place_leaf(&mut chunk, 16, 1, 1, true);
    assert_eq!(chunk.get_block(0, 1, 1), BlockType::Air);
    assert_eq!(chunk.get_block(1, 1, 1), BlockType::Water);
    assert_eq!(chunk.get_block(2, 1, 1), BlockType::Log);
    assert_eq!(chunk.get_block(3, 1, 1), BlockType::Leaves);
    assert_eq!(chunk.block_count(), 3);
}

#[test]
fn plants_take_the_place_of_what_is_there() {
    let g = WorldGenerator::new(1);
    let mut chunk = Chunk::new(ChunkCoordinate::new(0, 0));
    chunk.set_block(1, 1, 1, BlockType::Water);
    g.place_plant(&mut chunk, 1, 1, 1, BlockType::TallGrass, false);
    assert_eq!(chunk.get_block(1, 1, 1), BlockType::Water);
    g.place_plant(&mut chunk, 1, 1, 1, BlockType::TallGrass, true);
    assert_eq!(chunk.get_block(1, 1, 1), BlockType::TallGrass);
    g.place_plant(&mut chunk, 2, 255, 2, BlockType::DeadBush, true);
    assert_eq!(chunk.get_block(2, 255, 2), BlockType::DeadBush);
    g.place_plant(&mut chunk, 2, 256, 2, BlockType::DeadBush, true);
    assert_eq!(chunk.block_count(), 2);
}

#[test]
fn a_trunk_of_a_height() {
    let g = WorldGenerator::new(1);
    let mut chunk = Chunk::new(ChunkCoordinate::new(0, 0));
    g.place_trunk(&mut chunk, 4, 70, 4, 5);
    for y in 0..256 {
        let expected = if (70..75).contains(&y) { BlockType::Log } else { BlockType::Air };
        assert_eq!(chunk.get_block(4, y, 4), expected);
    }
    g.place_trunk(&mut chunk, 5, 253, 5, 7);
    assert_eq!(chunk.get_block(5, 255, 5), BlockType::Log);
    assert_eq!(chunk.get_block(5, 252, 5), BlockType::Air);
    g.place_trunk(&mut chunk, 6, 10, 6, 0);
    g.place_trunk(&mut chunk, 6, 300, 6, 4);
    assert_eq!(chunk.block_count(), 5 + 3);
}

#[test]
fn a_canopy_around_the_top_of_a_trunk() {
    let g = WorldGenerator::new(1);
    let mut filled = std::collections::HashSet::new();
    for seed in 0..60u64 {
        let mut chunk = Chunk::new(ChunkCoordinate::new(0, 0));
        g.place_trunk(&mut chunk, 8, 70, 8, 5);
        let mut rng = StdRng::seed_from_u64(seed);
        g.place_canopy(&mut chunk, 8, 70, 8, 5, &mut rng);
        assert_eq!(cells_of(&chunk, &[BlockType::Log]).len(), 5);
        for (x, y, z) in cells_of(&chunk, &[BlockType::Leaves]) {
            let (dx, dz) = (x as i32 - 8, z as i32 - 8);
            // The trunk reaches up to 74: wide layers at 72 to 74, narrow ones at 75 and 76.
            assert!((72..=76).contains(&y));
            assert!(dx * dx + dz * dz <= if y >= 75 { 1 } else { 4 });
            filled.insert((x, y, z));
        }
    }
    assert_eq!(filled.len(), 3 * 12 + 2 * 5);
    // At the top of the chunk the canopy is cut off.
    let mut chunk = Chunk::new(ChunkCoordinate::new(0, 0));
    let mut rng = StdRng::seed_from_u64(1);
    g.place_canopy(&mut chunk, 0, 252, 15, 4, &mut rng);
    for (x, y, z) in cells_of(&chunk, &[BlockType::Leaves]) {
        assert!(x <= 2 && z >= 13 && (253..=255).contains(&y));
    }
    assert!(!cells_of(&chunk, &[BlockType::Leaves]).is_empty());
}

#[test]
fn a_tree_has_a_trunk_of_4_to_7_logs() {
    let g = WorldGenerator::new(1);
    let mut heights = std::collections::HashSet::new();
    for seed in 0..80u64 {
        let mut chunk = Chunk::new(ChunkCoordinate::new(0, 0));
        let mut rng = StdRng::seed_from_u64(seed);
        g.place_tree(&mut chunk, 8, 70, 8, &mut rng);
        let logs = cells_of(&chunk, &[BlockType::Log]);
        assert!((4..=7).contains(&logs.len()));
        assert!(logs.iter().all(|&(x, y, z)| (x, z) == (8, 8) && y >= 70 && y < 70 + logs.len()));
        heights.insert(logs.len());
        assert!(!cells_of(&chunk, &[BlockType::Leaves]).is_empty());
    }
    assert_eq!(heights.len(), 4);
}
