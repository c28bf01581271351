//! The world generator: from a seed, a chunk coordinate and the noise sampled
//! for that chunk to a chunk of terrain with caves, ores and decoration.
//!
//! Noise reaches the generator as integers: every sample is a value between
//! -1 and 1 in millionths.

use vstd::prelude::*;
use rand::rngs::StdRng;
use crate::block::BlockType;
use crate::chunk::{Chunk, ChunkCoordinate, ChunkView, column_index, fresh_chunk, in_bounds};
use crate::rng::{pick, range_draw, ratio_draw, rng_state, roll, seeded_rng, seeded_state};

verus! {

/// The kinds of land, which shape the terrain and its decoration.
#[derive(Debug, Clone, Copy, PartialEq, Eq, Structural)]
pub enum Biome {
    Plains,
    Forest,
    Desert,
    Mountains,
    Hills,
    Swamp,
    Ocean,
}

impl Biome {
    /// The display name.
    pub open spec fn display_name(self) -> Seq<char> {
        match self {
            Biome::Plains => "Plains"@,
            Biome::Forest => "Forest"@,
            Biome::Desert => "Desert"@,
            Biome::Mountains => "Mountains"@,
            Biome::Hills => "Hills"@,
            Biome::Swamp => "Swamp"@,
            Biome::Ocean => "Ocean"@,
        }
    }

    /// How far the terrain of the biome rises, in tenths of the standard rise.
    pub open spec fn rise_tenths(self) -> int {
        match self {
            Biome::Mountains => 15,
            Biome::Hills => 12,
            Biome::Plains => 8,
            Biome::Desert => 9,
            Biome::Forest => 10,
            Biome::Swamp => 6,
            Biome::Ocean => 3,
        }
    }

    /// The block on top of the terrain.
    pub open spec fn surface(self) -> BlockType {
        match self {
            Biome::Desert => BlockType::Sand,
            Biome::Ocean | Biome::Swamp => BlockType::Dirt,
            _ => BlockType::Grass,
        }
    }

    /// The block of the band beneath the surface.
    pub open spec fn subsurface(self) -> BlockType {
        match self {
            Biome::Desert => BlockType::Sand,
            _ => BlockType::Dirt,
        }
    }

    pub fn name(&self) -> (r: &'static str)
        ensures
            r@ == self.display_name(),
    {
        match self {
            Biome::Plains => "Plains",
            Biome::Forest => "Forest",
            Biome::Desert => "Desert",
            Biome::Mountains => "Mountains",
            Biome::Hills => "Hills",
            Biome::Swamp => "Swamp",
            Biome::Ocean => "Ocean",
        }
    }
}

/// The lowest height of the terrain.
pub const MIN_HEIGHT: usize = 30;

/// The greatest height of the terrain.
pub const MAX_HEIGHT: usize = 120;

/// The height up to which water fills what the terrain leaves open.
pub const SEA_LEVEL: usize = 64;

/// The lowest height at which caves are carved.
pub const CAVE_FLOOR: usize = 5;

/// The height below which caves are carved.
pub const CAVE_CEILING: usize = 80;

/// The noise value, in millionths, above which a cave is carved.
pub const CAVE_THRESHOLD: i32 = 400000;

/// The number of cave samples of a chunk.
pub const CAVE_SAMPLES: usize = 19200;

/// The biome for a temperature and a humidity in millionths: the first rule
/// that matches decides.
pub open spec fn biome_of(temperature: int, humidity: int) -> Biome {
    if temperature < -500000 {
        Biome::Mountains
    } else if temperature > 500000 && humidity < -300000 {
        Biome::Desert
    } else if temperature < 200000 && humidity > 300000 {
        Biome::Swamp
    } else if humidity < -600000 {
        Biome::Ocean
    } else if temperature > 0 && humidity > 0 {
        Biome::Forest
    } else if temperature > 200000 {
        Biome::Hills
    } else {
        Biome::Plains
    }
}

/// The height of the terrain for three octaves of noise in millionths. The
/// octaves weigh 1/2, 1/4 and 1/8; their sum, brought from [-1, 1] to [0, 1],
/// is scaled by the rise of the biome and by the span of heights, 90, added
/// to the lowest height, 30, and kept between 30 and 120.
pub open spec fn terrain_height(octave1: int, octave2: int, octave3: int, biome: Biome) -> int {
    let eighths = 4 * octave1 + 2 * octave2 + octave3;
    let raw = 30 + ((eighths + 8000000) * 90 * biome.rise_tenths()) / 160000000;
    if raw < 30 {
        30
    } else if raw > 120 {
        120
    } else {
        raw
    }
}

/// The block of the terrain at height `y` of a column whose terrain is
/// `height` high: stone at the bottom, stone below a band of three blocks
/// beneath the surface, the surface block, then water up to the sea level, then air.
pub open spec fn terrain_block(y: int, height: int, biome: Biome) -> BlockType {
    if y == 0 {
        BlockType::Stone
    } else if y <= height {
        if y == height {
            biome.surface()
        } else if y >= (if height >= 3 { height - 3 } else { 0 }) {
            biome.subsurface()
        } else {
            BlockType::Stone
        }
    } else if y <= 64 {
        BlockType::Water
    } else {
        BlockType::Air
    }
}

/// The five fields of noise that shape the world.
#[derive(Debug, Clone, Copy, PartialEq, Eq, Structural)]
pub enum NoiseField {
    Terrain,
    Caves,
    Ore,
    Temperature,
    Humidity,
}

impl NoiseField {
    /// What is added to the world seed to seed the field.
    pub open spec fn offset(self) -> int {
        match self {
            NoiseField::Terrain => 0,
            NoiseField::Caves => 1,
            NoiseField::Ore => 2,
            NoiseField::Temperature => 3,
            NoiseField::Humidity => 4,
        }
    }
}

/// The seed of a field of noise: the low 32 bits of the world seed plus the
/// offset of the field.
pub open spec fn noise_seed(seed: u64, field: NoiseField) -> u32 {
    ((seed + field.offset()) % 4294967296) as u32
}

/// Where a field is sampled for a block position, in millionths: temperature
/// at 0.005 per block; humidity at 0.0065 per block along x and 0.0085 along
/// z; the three octaves of the terrain at 0.01, 0.02 and 0.04 per block;
/// caves at 0.02 per block along x and z and 0.04 along y. The fields other
/// than the caves are flat: they are sampled at y = 0. The ore field is
/// seeded with the others and never sampled: its point is the origin.
pub open spec fn sample_point(field: NoiseField, octave: int, x: int, y: int, z: int) -> (
    int,
    int,
    int,
) {
    match field {
        NoiseField::Temperature => (x * 5000, 0, z * 5000),
        NoiseField::Humidity => (x * 6500, 0, z * 8500),
        NoiseField::Terrain => if octave == 0 {
            (x * 10000, 0, z * 10000)
        } else if octave == 1 {
            (x * 20000, 0, z * 20000)
        } else {
            (x * 40000, 0, z * 40000)
        },
        NoiseField::Caves => (x * 20000, y * 40000, z * 20000),
        NoiseField::Ore => (0, 0, 0),
    }
}

/// Whether a sampler gave a value for a field at the point that belongs to a
/// block position.
pub open spec fn sampled<F: Fn(NoiseField, i64, i64, i64) -> i32>(
    sampler: F,
    field: NoiseField,
    octave: int,
    x: int,
    y: int,
    z: int,
    value: i32,
) -> bool {
    let p = sample_point(field, octave, x, y, z);
    call_ensures(sampler, (field, p.0 as i64, p.1 as i64, p.2 as i64), value)
}

/// The noise sampled for one chunk, in millionths.
pub struct NoiseView {
    /// Temperature per column, at `x + 16 * z`.
    pub temperature: Seq<i32>,
    /// Humidity per column.
    pub humidity: Seq<i32>,
    /// The first octave of terrain noise per column.
    pub octave1: Seq<i32>,
    /// The second octave of terrain noise per column.
    pub octave2: Seq<i32>,
    /// The third octave of terrain noise per column.
    pub octave3: Seq<i32>,
    /// Cave noise per cell of the heights 5 to 79, at `x + 16 * (z + 16 * (y - 5))`.
    pub caves: Seq<i32>,
}

impl NoiseView {
    /// Every field has one sample per column or cell.
    pub open spec fn wf(self) -> bool {
        &&& self.temperature.len() == 256
        &&& self.humidity.len() == 256
        &&& self.octave1.len() == 256
        &&& self.octave2.len() == 256
        &&& self.octave3.len() == 256
        &&& self.caves.len() == 19200
    }

    /// The biome of a column.
    pub open spec fn biome(self, x: int, z: int) -> Biome {
        biome_of(
            self.temperature[column_index(x, z)] as int,
            self.humidity[column_index(x, z)] as int,
        )
    }

    /// The height of the terrain of a column.
    pub open spec fn height(self, x: int, z: int) -> int {
        terrain_height(
            self.octave1[column_index(x, z)] as int,
            self.octave2[column_index(x, z)] as int,
            self.octave3[column_index(x, z)] as int,
            self.biome(x, z),
        )
    }

    /// The cave noise of a cell between the cave floor and the cave ceiling.
    pub open spec fn cave(self, x: int, y: int, z: int) -> int {
        self.caves[x + 16 * (z + 16 * (y - 5))] as int
    }

    /// Whether the samples of the column at place `c` came from a sampler,
    /// each for the block position of the column.
    pub open spec fn column_from<F: Fn(NoiseField, i64, i64, i64) -> i32>(
        self,
        coordinate: ChunkCoordinate,
        sampler: F,
        c: int,
    ) -> bool {
        let x = coordinate.x * 16 + c % 16;
        let z = coordinate.z * 16 + c / 16;
        &&& sampled(sampler, NoiseField::Temperature, 0, x, 0, z, self.temperature[c])
        &&& sampled(sampler, NoiseField::Humidity, 0, x, 0, z, self.humidity[c])
        &&& sampled(sampler, NoiseField::Terrain, 0, x, 0, z, self.octave1[c])
        &&& sampled(sampler, NoiseField::Terrain, 1, x, 0, z, self.octave2[c])
        &&& sampled(sampler, NoiseField::Terrain, 2, x, 0, z, self.octave3[c])
    }

    /// Whether the cave sample at place `k` came from a sampler, for the
    /// block position of its cell.
    pub open spec fn cave_from<F: Fn(NoiseField, i64, i64, i64) -> i32>(
        self,
        coordinate: ChunkCoordinate,
        sampler: F,
        k: int,
    ) -> bool {
        sampled(
            sampler,
            NoiseField::Caves,
            0,
            coordinate.x * 16 + k % 16,
            5 + k / 256,
            coordinate.z * 16 + (k / 16) % 16,
            self.caves[k],
        )
    }

    /// Whether every sample came from a sampler, each for its block position.
    pub open spec fn sampled_from<F: Fn(NoiseField, i64, i64, i64) -> i32>(
        self,
        coordinate: ChunkCoordinate,
        sampler: F,
    ) -> bool {
        &&& self.wf()
        &&& forall|c: int| 0 <= c < 256 ==> #[trigger] self.column_from(coordinate, sampler, c)
        &&& forall|k: int| 0 <= k < 19200 ==> #[trigger] self.cave_from(coordinate, sampler, k)
    }
}

/// The noise sampled for one chunk: temperature, humidity and three octaves
/// of terrain noise per column, and cave noise per cell of the heights in
/// which caves are carved. Every sample is in millionths.
#[derive(Debug, Clone)]
pub struct ChunkNoise {
    temperature: Vec<i32>,
    humidity: Vec<i32>,
    octave1: Vec<i32>,
    octave2: Vec<i32>,
    octave3: Vec<i32>,
    caves: Vec<i32>,
}

impl View for ChunkNoise {
    type V = NoiseView;

    closed spec fn view(&self) -> NoiseView {
        NoiseView {
            temperature: self.temperature@,
            humidity: self.humidity@,
            octave1: self.octave1@,
            octave2: self.octave2@,
            octave3: self.octave3@,
            caves: self.caves@,
        }
    }
}

impl ChunkNoise {
    /// Every field has one sample per column or cell.
    pub open spec fn wf(&self) -> bool {
        self@.wf()
    }

    /// Take the samples of a chunk from a sampler, which gives the value of
    /// a field at a point; both are in millionths. The sampler is asked for
    /// temperature, humidity and the three octaves of the terrain of every
    /// column, then for the cave noise of every cell in which caves are carved.
    #[verifier::rlimit(40)]
    pub fn sample<F: Fn(NoiseField, i64, i64, i64) -> i32>(
        coordinate: ChunkCoordinate,
        sampler: &F,
    ) -> (noise: ChunkNoise)
        requires
            forall|field: NoiseField, x: i64, y: i64, z: i64|
                call_requires(*sampler, (field, x, y, z)),
        ensures
            noise.wf(),
            noise@.sampled_from(coordinate, *sampler),
    {
        let world_x: i64 = coordinate.x as i64 * 16;
        let world_z: i64 = coordinate.z as i64 * 16;
        let mut noise = ChunkNoise {
            temperature: Vec::new(),
            humidity: Vec::new(),
            octave1: Vec::new(),
            octave2: Vec::new(),
            octave3: Vec::new(),
            caves: Vec::new(),
        };
        let mut c: usize = 0;
        while c < 256
            invariant
                0 <= c <= 256,
                world_x == coordinate.x * 16,
                world_z == coordinate.z * 16,
                noise@.temperature.len() == c,
                noise@.humidity.len() == c,
                noise@.octave1.len() == c,
                noise@.octave2.len() == c,
                noise@.octave3.len() == c,
                noise@.caves.len() == 0,
                forall|field: NoiseField, x: i64, y: i64, z: i64|
                    call_requires(*sampler, (field, x, y, z)),
                forall|i: int| 0 <= i < c ==> #[trigger] noise@.column_from(coordinate, *sampler, i),
            decreases 256 - c,
        {
            let x: i64 = world_x + (c % 16) as i64;
            let z: i64 = world_z + (c / 16) as i64;
            let temperature = sampler(NoiseField::Temperature, x * 5000, 0, z * 5000);
            let humidity = sampler(NoiseField::Humidity, x * 6500, 0, z * 8500);
            let octave1 = sampler(NoiseField::Terrain, x * 10000, 0, z * 10000);
            let octave2 = sampler(NoiseField::Terrain, x * 20000, 0, z * 20000);
            let octave3 = sampler(NoiseField::Terrain, x * 40000, 0, z * 40000);
            let ghost before = noise@;
            noise.temperature.push(temperature);
            noise.humidity.push(humidity);
            noise.octave1.push(octave1);
            noise.octave2.push(octave2);
            noise.octave3.push(octave3);
            proof {
                assert forall|i: int| 0 <= i < c + 1 implies #[trigger] noise@.column_from(
                    coordinate,
                    *sampler,
                    i,
                ) by {
                    if i < c {
                        assert(before.column_from(coordinate, *sampler, i));
                    }
                }
            }
            c = c + 1;
        }
        let mut k: usize = 0;
        while k < CAVE_SAMPLES
            invariant
                0 <= k <= 19200,
                world_x == coordinate.x * 16,
                world_z == coordinate.z * 16,
                noise@.temperature.len() == 256,
                noise@.humidity.len() == 256,
                noise@.octave1.len() == 256,
                noise@.octave2.len() == 256,
                noise@.octave3.len() == 256,
                noise@.caves.len() == k,
                forall|field: NoiseField, x: i64, y: i64, z: i64|
                    call_requires(*sampler, (field, x, y, z)),
                forall|i: int| 0 <= i < 256 ==> #[trigger] noise@.column_from(coordinate, *sampler, i),
                forall|i: int| 0 <= i < k ==> #[trigger] noise@.cave_from(coordinate, *sampler, i),
            decreases 19200 - k,
        {
            let x: i64 = world_x + (k % 16) as i64;
            let y: i64 = 5 + (k / 256) as i64;
            let z: i64 = world_z + ((k / 16) % 16) as i64;
            let cave = sampler(NoiseField::Caves, x * 20000, y * 40000, z * 20000);
            let ghost before = noise@;
            noise.caves.push(cave);
            proof {
                assert forall|i: int| 0 <= i < 256 implies #[trigger] noise@.column_from(
                    coordinate,
                    *sampler,
                    i,
                ) by {
                    assert(before.column_from(coordinate, *sampler, i));
                }
                assert forall|i: int| 0 <= i < k + 1 implies #[trigger] noise@.cave_from(
                    coordinate,
                    *sampler,
                    i,
                ) by {
                    if i < k {
                        assert(before.cave_from(coordinate, *sampler, i));
                    }
                }
            }
            k = k + 1;
        }
        noise
    }

    /// Put the samples of a chunk together. The five fields per column hold
    /// 256 samples each, at `x + 16 * z`; the cave field holds 19200, at
    /// `x + 16 * (z + 16 * (y - 5))`. Returns `None` where a field has
    /// another length.
    pub fn from_samples(
        temperature: Vec<i32>,
        humidity: Vec<i32>,
        octave1: Vec<i32>,
        octave2: Vec<i32>,
        octave3: Vec<i32>,
        caves: Vec<i32>,
    ) -> (r: Option<ChunkNoise>)
        ensures
            r is Some <==> (NoiseView {
                temperature: temperature@,
                humidity: humidity@,
                octave1: octave1@,
                octave2: octave2@,
                octave3: octave3@,
                caves: caves@,
            }).wf(),
            r matches Some(noise) ==> noise@ == (NoiseView {
                temperature: temperature@,
                humidity: humidity@,
                octave1: octave1@,
                octave2: octave2@,
                octave3: octave3@,
                caves: caves@,
            }),
    {
        if temperature.len() == 256 && humidity.len() == 256 && octave1.len() == 256
            && octave2.len() == 256 && octave3.len() == 256 && caves.len() == CAVE_SAMPLES {
            Some(ChunkNoise { temperature, humidity, octave1, octave2, octave3, caves })
        } else {
            None
        }
    }
}

/// The chunk after the terrain of one column is laid from height `y` up.
pub open spec fn terrain_column(v: ChunkView, x: int, z: int, height: int, biome: Biome, y: int) -> ChunkView
    decreases 256 - y,
{
    if y >= 256 {
        v
    } else {
        terrain_column(
            v.with_block(x, y, z, terrain_block(y, height, biome)),
            x,
            z,
            height,
            biome,
            y + 1,
        )
    }
}

/// The chunk after the terrain of the columns `z..16` of one row is laid.
pub open spec fn terrain_row(v: ChunkView, noise: NoiseView, x: int, z: int) -> ChunkView
    decreases 16 - z,
{
    if z >= 16 {
        v
    } else {
        terrain_row(
            terrain_column(v, x, z, noise.height(x, z), noise.biome(x, z), 0),
            noise,
            x,
            z + 1,
        )
    }
}

/// The chunk after the terrain of the rows `x..16` is laid.
pub open spec fn terrain_rows(v: ChunkView, noise: NoiseView, x: int) -> ChunkView
    decreases 16 - x,
{
    if x >= 16 {
        v
    } else {
        terrain_rows(terrain_row(v, noise, x, 0), noise, x + 1)
    }
}

/// The chunk after a cave is carved at one cell: where the cave noise
/// exceeds the threshold and the cell holds stone or dirt, it becomes air.
pub open spec fn carved_cell(v: ChunkView, noise: NoiseView, x: int, y: int, z: int) -> ChunkView {
    if noise.cave(x, y, z) > 400000 && (v.block(x, y, z) == BlockType::Stone || v.block(x, y, z)
        == BlockType::Dirt) {
        v.with_block(x, y, z, BlockType::Air)
    } else {
        v
    }
}

/// The chunk after caves are carved in one column from height `y` up to the cave ceiling.
pub open spec fn carved_column(v: ChunkView, noise: NoiseView, x: int, z: int, y: int) -> ChunkView
    decreases 80 - y,
{
    if y >= 80 {
        v
    } else {
        carved_column(carved_cell(v, noise, x, y, z), noise, x, z, y + 1)
    }
}

/// The chunk after caves are carved in the columns `z..16` of one row.
pub open spec fn carved_row(v: ChunkView, noise: NoiseView, x: int, z: int) -> ChunkView
    decreases 16 - z,
{
    if z >= 16 {
        v
    } else {
        carved_row(carved_column(v, noise, x, z, 5), noise, x, z + 1)
    }
}

/// The chunk after caves are carved in the rows `x..16`.
pub open spec fn carved_rows(v: ChunkView, noise: NoiseView, x: int) -> ChunkView
    decreases 16 - x,
{
    if x >= 16 {
        v
    } else {
        carved_rows(carved_row(v, noise, x, 0), noise, x + 1)
    }
}

/// Laying the terrain of a column from height `y` up gives every cell of the
/// column from there up the block of the terrain, and leaves every other
/// cell as it was.
pub proof fn lemma_terrain_column(
    v: ChunkView,
    x: int,
    z: int,
    height: int,
    biome: Biome,
    y: int,
    cx: int,
    cy: int,
    cz: int,
)
    requires
        v.shaped(),
        0 <= y,
        in_bounds(cx, cy, cz),
    ensures
        terrain_column(v, x, z, height, biome, y).shaped(),
        terrain_column(v, x, z, height, biome, y).coordinate == v.coordinate,
        terrain_column(v, x, z, height, biome, y).block(cx, cy, cz) == (if cx == x && cz == z && cy
            >= y {
            terrain_block(cy, height, biome)
        } else {
            v.block(cx, cy, cz)
        }),
    decreases 256 - y,
{
    if y < 256 {
        let w = v.with_block(x, y, z, terrain_block(y, height, biome));
        lemma_terrain_column(w, x, z, height, biome, y + 1, cx, cy, cz);
    }
}

/// Laying the terrain of a row from the column `z` on gives every cell of
/// these columns the block of its terrain, and leaves every other cell as it was.
pub proof fn lemma_terrain_row(v: ChunkView, noise: NoiseView, x: int, z: int, cx: int, cy: int, cz: int)
    requires
        v.shaped(),
        0 <= z,
        in_bounds(cx, cy, cz),
    ensures
        terrain_row(v, noise, x, z).shaped(),
        terrain_row(v, noise, x, z).coordinate == v.coordinate,
        terrain_row(v, noise, x, z).block(cx, cy, cz) == (if cx == x && cz >= z {
            terrain_block(cy, noise.height(cx, cz), noise.biome(cx, cz))
        } else {
            v.block(cx, cy, cz)
        }),
    decreases 16 - z,
{
    if z < 16 {
        let w = terrain_column(v, x, z, noise.height(x, z), noise.biome(x, z), 0);
        lemma_terrain_column(v, x, z, noise.height(x, z), noise.biome(x, z), 0, cx, cy, cz);
        lemma_terrain_row(w, noise, x, z + 1, cx, cy, cz);
    }
}

/// Laying the terrain from the row `x` on gives every cell of these rows the
/// block of its terrain, and leaves every other cell as it was.
pub proof fn lemma_terrain_rows(v: ChunkView, noise: NoiseView, x: int, cx: int, cy: int, cz: int)
    requires
        v.shaped(),
        0 <= x,
        in_bounds(cx, cy, cz),
    ensures
        terrain_rows(v, noise, x).shaped(),
        terrain_rows(v, noise, x).coordinate == v.coordinate,
        terrain_rows(v, noise, x).block(cx, cy, cz) == (if cx >= x {
            terrain_block(cy, noise.height(cx, cz), noise.biome(cx, cz))
        } else {
            v.block(cx, cy, cz)
        }),
    decreases 16 - x,
{
    if x < 16 {
        let w = terrain_row(v, noise, x, 0);
        lemma_terrain_row(v, noise, x, 0, cx, cy, cz);
        lemma_terrain_rows(w, noise, x + 1, cx, cy, cz);
    }
}

/// After the terrain pass every cell holds the block of the terrain of its
/// column: what the biome and the height of the column give for its height.
pub proof fn lemma_terrain(v: ChunkView, noise: NoiseView, x: int, y: int, z: int)
    requires
        v.shaped(),
        in_bounds(x, y, z),
    ensures
        terrain_rows(v, noise, 0).block(x, y, z) == terrain_block(
            y,
            noise.height(x, z),
            noise.biome(x, z),
        ),
        30 <= noise.height(x, z) <= 120,
{
    lemma_terrain_rows(v, noise, 0, x, y, z);
}

/// Whether a cave opens at a cell: the cell lies between the cave floor and
/// the cave ceiling, its cave noise exceeds the threshold, and it holds
/// stone or dirt.
pub open spec fn cave_opens(v: ChunkView, noise: NoiseView, x: int, y: int, z: int) -> bool {
    5 <= y < 80 && noise.cave(x, y, z) > 400000 && (v.block(x, y, z) == BlockType::Stone
        || v.block(x, y, z) == BlockType::Dirt)
}

/// Carving a column from height `y` up turns the cells from there up at
/// which a cave opens to air, and leaves every other cell as it was.
#[verifier::rlimit(40)]
pub proof fn lemma_carved_column(
    v: ChunkView,
    noise: NoiseView,
    x: int,
    z: int,
    y: int,
    cx: int,
    cy: int,
    cz: int,
)
    requires
        v.shaped(),
        5 <= y,
        in_bounds(cx, cy, cz),
    ensures
        carved_column(v, noise, x, z, y).shaped(),
        carved_column(v, noise, x, z, y).coordinate == v.coordinate,
        carved_column(v, noise, x, z, y).block(cx, cy, cz) == (if cx == x && cz == z && cy >= y
            && cave_opens(v, noise, cx, cy, cz) {
            BlockType::Air
        } else {
            v.block(cx, cy, cz)
        }),
    decreases 80 - y,
{
    if y < 80 {
        let w = carved_cell(v, noise, x, y, z);
        lemma_carved_column(w, noise, x, z, y + 1, cx, cy, cz);
    }
}

/// Carving a row from the column `z` on turns the cells of these columns at
/// which a cave opens to air, and leaves every other cell as it was.
pub proof fn lemma_carved_row(v: ChunkView, noise: NoiseView, x: int, z: int, cx: int, cy: int, cz: int)
    requires
        v.shaped(),
        0 <= z,
        in_bounds(cx, cy, cz),
    ensures
        carved_row(v, noise, x, z).shaped(),
        carved_row(v, noise, x, z).coordinate == v.coordinate,
        carved_row(v, noise, x, z).block(cx, cy, cz) == (if cx == x && cz >= z && cave_opens(
            v,
            noise,
            cx,
            cy,
            cz,
        ) {
            BlockType::Air
        } else {
            v.block(cx, cy, cz)
        }),
    decreases 16 - z,
{
    if z < 16 {
        let w = carved_column(v, noise, x, z, 5);
        lemma_carved_column(v, noise, x, z, 5, cx, cy, cz);
        lemma_carved_row(w, noise, x, z + 1, cx, cy, cz);
    }
}

/// Carving from the row `x` on turns the cells of these rows at which a cave
/// opens to air, and leaves every other cell as it was.
pub proof fn lemma_carved_rows(v: ChunkView, noise: NoiseView, x: int, cx: int, cy: int, cz: int)
    requires
        v.shaped(),
        0 <= x,
        in_bounds(cx, cy, cz),
    ensures
        carved_rows(v, noise, x).shaped(),
        carved_rows(v, noise, x).coordinate == v.coordinate,
        carved_rows(v, noise, x).block(cx, cy, cz) == (if cx >= x && cave_opens(
            v,
            noise,
            cx,
            cy,
            cz,
        ) {
            BlockType::Air
        } else {
            v.block(cx, cy, cz)
        }),
    decreases 16 - x,
{
    if x < 16 {
        let w = carved_row(v, noise, x, 0);
        lemma_carved_row(v, noise, x, 0, cx, cy, cz);
        lemma_carved_rows(w, noise, x + 1, cx, cy, cz);
    }
}

/// After the cave pass a cell is air where a cave opens at it, and holds
/// what it held elsewhere.
pub proof fn lemma_caves(v: ChunkView, noise: NoiseView, x: int, y: int, z: int)
    requires
        v.shaped(),
        in_bounds(x, y, z),
    ensures
        carved_rows(v, noise, 0).block(x, y, z) == (if cave_opens(v, noise, x, y, z) {
            BlockType::Air
        } else {
            v.block(x, y, z)
        }),
{
    lemma_carved_rows(v, noise, 0, x, y, z);
}

/// A chunk under generation together with the state of the random number
/// generator that decorates it.
pub type Gen = (ChunkView, Seq<u8>);

/// The seed of the random number generator of one chunk: the world seed plus
/// the block coordinates of the chunk's origin, x in the high half and z in
/// the low half of the 64 bits, wrapping around.
pub open spec fn chunk_seed(seed: u64, coordinate: ChunkCoordinate) -> u64 {
    ((seed + coordinate.x * 16 * 4294967296 + coordinate.z * 16) % 18446744073709551616) as u64
}

/// A stack of cells with the neighbours of a cell of the chunk on top: east,
/// west, up, down, north, south, leaving out those with a negative coordinate.
pub open spec fn with_neighbors(stack: Seq<(usize, usize, usize)>, x: usize, y: usize, z: usize) -> Seq<
    (usize, usize, usize),
> {
    let s = stack.push(((x + 1) as usize, y, z));
    let s = if x >= 1 {
        s.push(((x - 1) as usize, y, z))
    } else {
        s
    };
    let s = s.push((x, (y + 1) as usize, z));
    let s = if y >= 1 {
        s.push((x, (y - 1) as usize, z))
    } else {
        s
    };
    let s = s.push((x, y, (z + 1) as usize));
    if z >= 1 {
        s.push((x, y, (z - 1) as usize))
    } else {
        s
    }
}

/// A stack of cells after a cell of the chunk took ore: with its neighbours
/// on top where the vein spreads, as it was where it does not.
pub open spec fn spread_stack(
    stack: Seq<(usize, usize, usize)>,
    x: usize,
    y: usize,
    z: usize,
    spread: bool,
) -> Seq<(usize, usize, usize)> {
    if spread {
        with_neighbors(stack, x, y, z)
    } else {
        stack
    }
}

/// The chunk and the generator after a vein has grown from a stack of cells.
/// The cell on top of the stack leaves it; where it lies in the chunk and
/// holds stone, it takes the ore, and with a chance of 6 in 10 its neighbours
/// go onto the stack. The vein is grown when the stack is empty or
/// `max_size` cells have taken the ore.
pub open spec fn vein_grown(
    s: Gen,
    stack: Seq<(usize, usize, usize)>,
    ore: BlockType,
    placed: int,
    max_size: int,
) -> Gen
    decreases max_size - placed, stack.len(),
{
    if stack.len() == 0 || placed >= max_size {
        s
    } else {
        let (x, y, z) = stack.last();
        let rest = stack.drop_last();
        if in_bounds(x as int, y as int, z as int) && s.0.block(x as int, y as int, z as int)
            == BlockType::Stone {
            let spread = ratio_draw(s.1, 6, 10);
            vein_grown(
                (s.0.with_block(x as int, y as int, z as int, ore), spread.1),
                spread_stack(rest, x, y, z, spread.0),
                ore,
                placed + 1,
                max_size,
            )
        } else {
            vein_grown(s, rest, ore, placed, max_size)
        }
    }
}

/// A vein changes stone to its ore and nothing else: every cell holds what it
/// held, or held stone and holds the ore.
pub proof fn lemma_vein_in_stone(
    s: Gen,
    stack: Seq<(usize, usize, usize)>,
    ore: BlockType,
    placed: int,
    max_size: int,
    x: int,
    y: int,
    z: int,
)
    requires
        s.0.shaped(),
        in_bounds(x, y, z),
    ensures
        vein_grown(s, stack, ore, placed, max_size).0.shaped(),
        vein_grown(s, stack, ore, placed, max_size).0.coordinate == s.0.coordinate,
        vein_grown(s, stack, ore, placed, max_size).0.block(x, y, z) == s.0.block(x, y, z) || (
        s.0.block(x, y, z) == BlockType::Stone && vein_grown(
            s,
            stack,
            ore,
            placed,
            max_size,
        ).0.block(x, y, z) == ore),
    decreases max_size - placed, stack.len(),
{
    if !(stack.len() == 0 || placed >= max_size) {
        let (cx, cy, cz) = stack.last();
        let rest = stack.drop_last();
        if in_bounds(cx as int, cy as int, cz as int) && s.0.block(cx as int, cy as int, cz as int)
            == BlockType::Stone {
            let spread = ratio_draw(s.1, 6, 10);
            let next = (s.0.with_block(cx as int, cy as int, cz as int, ore), spread.1);
            lemma_vein_in_stone(
                next,
                spread_stack(rest, cx, cy, cz, spread.0),
                ore,
                placed + 1,
                max_size,
                x,
                y,
                z,
            );
        } else {
            lemma_vein_in_stone(s, rest, ore, placed, max_size, x, y, z);
        }
    }
}

/// Whether a block is one of the ores that the generator places.
pub open spec fn placed_ore(block: BlockType) -> bool {
    block == BlockType::CoalOre || block == BlockType::IronOre || block == BlockType::GoldOre
        || block == BlockType::DiamondOre || block == BlockType::RedstoneOre
}

/// Whether a cell holds what it held, or held stone and holds an ore now.
pub open spec fn kept_or_ore(old: ChunkView, new: ChunkView, x: int, y: int, z: int) -> bool {
    new.block(x, y, z) == old.block(x, y, z) || (old.block(x, y, z) == BlockType::Stone
        && placed_ore(new.block(x, y, z)))
}

/// The attempts at veins of one deposit change stone to its ore and nothing else.
pub proof fn lemma_ore_attempts(s: Gen, deposit: OreDeposit, n: int, x: int, y: int, z: int)
    requires
        s.0.shaped(),
        in_bounds(x, y, z),
        placed_ore(deposit.ore),
    ensures
        ore_attempts(s, deposit, n).0.shaped(),
        ore_attempts(s, deposit, n).0.coordinate == s.0.coordinate,
        kept_or_ore(s.0, ore_attempts(s, deposit, n).0, x, y, z),
    decreases n,
{
    if n > 0 {
        let start = ratio_draw(s.1, deposit.per_mille, 1000);
        let next = ore_attempt(s, deposit);
        if start.0 {
            let px = range_draw(start.1, 0, 16);
            let pz = range_draw(px.1, 0, 16);
            let py = range_draw(pz.1, deposit.y_low, deposit.y_high);
            lemma_vein_in_stone(
                (s.0, py.1),
                seq![(px.0 as usize, py.0 as usize, pz.0 as usize)],
                deposit.ore,
                0,
                deposit.vein_size as int,
                x,
                y,
                z,
            );
        }
        lemma_ore_attempts(next, deposit, n - 1, x, y, z);
    }
}

/// The deposits from the `i`-th on change stone to their ores and nothing else.
pub proof fn lemma_ores_from(s: Gen, i: int, x: int, y: int, z: int)
    requires
        s.0.shaped(),
        in_bounds(x, y, z),
    ensures
        ores_from(s, i).0.shaped(),
        ores_from(s, i).0.coordinate == s.0.coordinate,
        kept_or_ore(s.0, ores_from(s, i).0, x, y, z),
    decreases 5 - i,
{
    if 0 <= i < 5 {
        let next = ore_attempts(s, deposits()[i], 4);
        lemma_ore_attempts(s, deposits()[i], 4, x, y, z);
        lemma_ores_from(next, i + 1, x, y, z);
    }
}

/// The ore pass changes stone to ore and nothing else: every cell holds what
/// it held, or held stone and holds one of the five ores.
pub proof fn lemma_ores(v: ChunkView, seed: u64, x: int, y: int, z: int)
    requires
        v.shaped(),
        in_bounds(x, y, z),
    ensures
        kept_or_ore(v, with_ores(v, seed), x, y, z),
{
    lemma_ores_from((v, seeded_state(chunk_seed(seed, v.coordinate))), 0, x, y, z);
}

/// Where one kind of ore is found, how often, and how large its veins grow.
#[derive(Debug, Clone, Copy)]
pub struct OreDeposit {
    /// The ore.
    pub ore: BlockType,
    /// The lowest height at which a vein starts.
    pub y_low: u32,
    /// The height below which a vein starts.
    pub y_high: u32,
    /// The chance in 1000 that an attempt starts a vein.
    pub per_mille: u32,
    /// The number of cells that a vein fills at most.
    pub vein_size: usize,
}

impl OreDeposit {
    /// The heights form a range, and the chance is one.
    pub open spec fn wf(self) -> bool {
        self.y_low < self.y_high && self.per_mille <= 1000
    }
}

/// The chunk and the generator after one attempt at a vein: with the chance
/// of the deposit, a cell is drawn (x, then z, then the height) and a vein
/// grows from it.
pub open spec fn ore_attempt(s: Gen, deposit: OreDeposit) -> Gen {
    let start = ratio_draw(s.1, deposit.per_mille, 1000);
    if start.0 {
        let x = range_draw(start.1, 0, 16);
        let z = range_draw(x.1, 0, 16);
        let y = range_draw(z.1, deposit.y_low, deposit.y_high);
        vein_grown(
            (s.0, y.1),
            seq![(x.0 as usize, y.0 as usize, z.0 as usize)],
            deposit.ore,
            0,
            deposit.vein_size as int,
        )
    } else {
        (s.0, start.1)
    }
}

/// The chunk and the generator after `n` attempts at a vein of one deposit.
pub open spec fn ore_attempts(s: Gen, deposit: OreDeposit, n: int) -> Gen
    decreases n,
{
    if n <= 0 {
        s
    } else {
        ore_attempts(ore_attempt(s, deposit), deposit, n - 1)
    }
}

/// The number of attempts at a vein per deposit and chunk: one per 64 columns.
pub const ORE_ATTEMPTS: usize = 4;

/// The five deposits, in the order in which they are placed.
pub open spec fn deposits() -> Seq<OreDeposit> {
    seq![
        OreDeposit { ore: BlockType::CoalOre, y_low: 10, y_high: 70, per_mille: 20, vein_size: 8 },
        OreDeposit { ore: BlockType::IronOre, y_low: 5, y_high: 50, per_mille: 15, vein_size: 6 },
        OreDeposit { ore: BlockType::GoldOre, y_low: 5, y_high: 35, per_mille: 8, vein_size: 4 },
        OreDeposit { ore: BlockType::DiamondOre, y_low: 1, y_high: 16, per_mille: 3, vein_size: 3 },
        OreDeposit { ore: BlockType::RedstoneOre, y_low: 1, y_high: 20, per_mille: 10, vein_size: 5 },
    ]
}

/// The chunk and the generator after the deposits from the `i`-th on are placed.
pub open spec fn ores_from(s: Gen, i: int) -> Gen
    decreases 5 - i,
{
    if i >= 5 || i < 0 {
        s
    } else {
        ores_from(ore_attempts(s, deposits()[i], 4), i + 1)
    }
}

/// The chunk after its ores are placed, with a generator seeded for the chunk.
pub open spec fn with_ores(v: ChunkView, seed: u64) -> ChunkView {
    ores_from((v, seeded_state(chunk_seed(seed, v.coordinate))), 0).0
}

/// The height of the topmost block of a column below `n` that is neither air
/// nor water.
pub open spec fn surface_below(v: ChunkView, x: int, z: int, n: int) -> Option<usize>
    decreases n,
{
    if n <= 0 {
        None
    } else if v.block(x, n - 1, z) != BlockType::Air && v.block(x, n - 1, z) != BlockType::Water {
        Some((n - 1) as usize)
    } else {
        surface_below(v, x, z, n - 1)
    }
}

/// The chunk after a trunk of logs is set from the `i`-th block up; what
/// would stand above the chunk is left out.
pub open spec fn trunk(v: ChunkView, x: int, y: int, z: int, height: int, i: int) -> ChunkView
    decreases height - i,
{
    if i >= height {
        v
    } else {
        trunk(
            if y + i < 256 {
                v.with_block(x, y + i, z, BlockType::Log)
            } else {
                v
            },
            x,
            y,
            z,
            height,
            i + 1,
        )
    }
}

/// The chunk after a leaf may have grown at a cell: it grows where it is to
/// grow and the cell holds air.
pub open spec fn with_leaf(v: ChunkView, x: int, y: int, z: int, grow: bool) -> ChunkView {
    if grow && v.block(x, y, z) == BlockType::Air {
        v.with_block(x, y, z, BlockType::Leaves)
    } else {
        v
    }
}

/// The chunk after a plant may have been set on a cell: the cell takes the
/// block where the plant is to grow.
pub open spec fn with_plant(v: ChunkView, x: int, y: int, z: int, block: BlockType, grow: bool) -> ChunkView {
    if grow {
        v.with_block(x, y, z, block)
    } else {
        v
    }
}

/// The chunk and the generator after one cell of the canopy around a trunk
/// at (x, z): where the cell lies in the chunk and within the radius of the
/// layer, a leaf grows with a chance of 8 in 10 if the cell holds air.
pub open spec fn leaf_cell(s: Gen, x: int, z: int, leaf_y: int, radius: int, dx: int, dz: int) -> Gen {
    if 0 <= x + dx < 16 && 0 <= z + dz < 16 && dx * dx + dz * dz <= radius * radius {
        let grow = ratio_draw(s.1, 8, 10);
        (with_leaf(s.0, x + dx, leaf_y, z + dz, grow.0), grow.1)
    } else {
        s
    }
}

/// One line of a layer of the canopy, from `dz` on.
pub open spec fn leaf_line(s: Gen, x: int, z: int, leaf_y: int, radius: int, dx: int, dz: int) -> Gen
    decreases radius + 1 - dz,
{
    if dz > radius {
        s
    } else {
        leaf_line(leaf_cell(s, x, z, leaf_y, radius, dx, dz), x, z, leaf_y, radius, dx, dz + 1)
    }
}

/// One layer of the canopy, from the line `dx` on.
pub open spec fn leaf_layer(s: Gen, x: int, z: int, leaf_y: int, radius: int, dx: int) -> Gen
    decreases radius + 1 - dx,
{
    if dx > radius {
        s
    } else {
        leaf_layer(leaf_line(s, x, z, leaf_y, radius, dx, -radius), x, z, leaf_y, radius, dx + 1)
    }
}

/// The layers of the canopy of a tree of a given height that stands on y,
/// from the layer `leaf_y` up to one above the top of the trunk. Layers below
/// the top of the trunk have radius 2, the others radius 1; what would lie
/// above the chunk is left out.
pub open spec fn leaf_layers(s: Gen, x: int, y: int, z: int, height: int, leaf_y: int) -> Gen
    decreases y + height + 2 - leaf_y,
{
    if leaf_y >= y + height + 2 || leaf_y >= 256 {
        s
    } else {
        let radius: int = if leaf_y >= y + height {
            1
        } else {
            2
        };
        leaf_layers(leaf_layer(s, x, z, leaf_y, radius, -radius), x, y, z, height, leaf_y + 1)
    }
}

/// The chunk and the generator after a tree is placed: a trunk of 4 to 7
/// logs, and a canopy from three below the top of the trunk to one above it.
pub open spec fn tree(s: Gen, x: int, y: int, z: int) -> Gen {
    let height = range_draw(s.1, 4, 8);
    leaf_layers(
        (trunk(s.0, x, y, z, height.0 as int, 0), height.1),
        x,
        y,
        z,
        height.0 as int,
        y + height.0 - 3,
    )
}

/// The chunk and the generator after a plant is set on a cell with a chance
/// of `per_hundred` in 100.
pub open spec fn plant(s: Gen, x: int, y: int, z: int, block: BlockType, per_hundred: u32) -> Gen {
    let grow = ratio_draw(s.1, per_hundred, 100);
    (with_plant(s.0, x, y, z, block, grow.0), grow.1)
}

/// The chunk and the generator after one column is decorated, above its
/// topmost block that is neither air nor water. In a forest a tree grows
/// with a chance of 10 in 100, else tall grass with a chance of 30 in 100;
/// in the plains tall grass grows with a chance of 20 in 100; in the desert a
/// dead bush with a chance of 2 in 100. Nothing grows in other biomes, on a
/// column without such a block, or on top of the chunk.
pub open spec fn decorated_column(s: Gen, noise: NoiseView, x: int, z: int) -> Gen {
    match surface_below(s.0, x, z, 256) {
        Some(y) => if y < 255 {
            match noise.biome(x, z) {
                Biome::Forest => {
                    let grow = ratio_draw(s.1, 10, 100);
                    if grow.0 {
                        tree((s.0, grow.1), x, y + 1, z)
                    } else {
                        plant((s.0, grow.1), x, y + 1, z, BlockType::TallGrass, 30)
                    }
                },
                Biome::Plains => plant(s, x, y + 1, z, BlockType::TallGrass, 20),
                Biome::Desert => plant(s, x, y + 1, z, BlockType::DeadBush, 2),
                _ => s,
            }
        } else {
            s
        },
        None => s,
    }
}

/// The chunk and the generator after the columns `z..16` of one row are decorated.
pub open spec fn decorated_row(s: Gen, noise: NoiseView, x: int, z: int) -> Gen
    decreases 16 - z,
{
    if z >= 16 {
        s
    } else {
        decorated_row(decorated_column(s, noise, x, z), noise, x, z + 1)
    }
}

/// The chunk and the generator after the rows `x..16` are decorated.
pub open spec fn decorated_rows(s: Gen, noise: NoiseView, x: int) -> Gen
    decreases 16 - x,
{
    if x >= 16 {
        s
    } else {
        decorated_rows(decorated_row(s, noise, x, 0), noise, x + 1)
    }
}

/// The chunk after it is decorated, with a generator seeded for the chunk.
pub open spec fn with_features(v: ChunkView, noise: NoiseView, seed: u64) -> ChunkView {
    decorated_rows((v, seeded_state(chunk_seed(seed, v.coordinate))), noise, 0).0
}

/// The chunk that a seed, a coordinate and the noise sampled for that
/// coordinate give: terrain, then caves, then ores, then decoration, then
/// the sky light of every column.
pub open spec fn generated(seed: u64, coordinate: ChunkCoordinate, noise: NoiseView) -> ChunkView {
    with_features(
        with_ores(
            carved_rows(terrain_rows(fresh_chunk(coordinate), noise, 0), noise, 0),
            seed,
        ),
        noise,
        seed,
    ).with_sky_pass()
}

/// Whether a block is one that decoration sets: a log, leaves, tall grass or
/// a dead bush.
pub open spec fn grown(block: BlockType) -> bool {
    block == BlockType::Log || block == BlockType::Leaves || block == BlockType::TallGrass
        || block == BlockType::DeadBush
}

/// Whether a cell holds what it held, or holds what decoration sets.
pub open spec fn kept_or_grown(old: ChunkView, new: ChunkView, x: int, y: int, z: int) -> bool {
    new.block(x, y, z) == old.block(x, y, z) || grown(new.block(x, y, z))
}

/// A trunk changes cells to logs and nothing else.
pub proof fn lemma_trunk(
    v: ChunkView,
    x: int,
    y: int,
    z: int,
    height: int,
    i: int,
    cx: int,
    cy: int,
    cz: int,
)
    requires
        v.shaped(),
        in_bounds(cx, cy, cz),
    ensures
        trunk(v, x, y, z, height, i).shaped(),
        trunk(v, x, y, z, height, i).coordinate == v.coordinate,
        kept_or_grown(v, trunk(v, x, y, z, height, i), cx, cy, cz),
    decreases height - i,
{
    if i < height {
        let w = if y + i < 256 {
            v.with_block(x, y + i, z, BlockType::Log)
        } else {
            v
        };
        lemma_trunk(w, x, y, z, height, i + 1, cx, cy, cz);
    }
}

/// A line of a canopy changes cells to leaves and nothing else.
pub proof fn lemma_leaf_line(
    s: Gen,
    x: int,
    z: int,
    leaf_y: int,
    radius: int,
    dx: int,
    dz: int,
    cx: int,
    cy: int,
    cz: int,
)
    requires
        s.0.shaped(),
        in_bounds(cx, cy, cz),
    ensures
        leaf_line(s, x, z, leaf_y, radius, dx, dz).0.shaped(),
        leaf_line(s, x, z, leaf_y, radius, dx, dz).0.coordinate == s.0.coordinate,
        kept_or_grown(s.0, leaf_line(s, x, z, leaf_y, radius, dx, dz).0, cx, cy, cz),
    decreases radius + 1 - dz,
{
    if dz <= radius {
        lemma_leaf_line(leaf_cell(s, x, z, leaf_y, radius, dx, dz), x, z, leaf_y, radius, dx, dz + 1, cx, cy, cz);
    }
}

/// A layer of a canopy changes cells to leaves and nothing else.
pub proof fn lemma_leaf_layer(
    s: Gen,
    x: int,
    z: int,
    leaf_y: int,
    radius: int,
    dx: int,
    cx: int,
    cy: int,
    cz: int,
)
    requires
        s.0.shaped(),
        in_bounds(cx, cy, cz),
    ensures
        leaf_layer(s, x, z, leaf_y, radius, dx).0.shaped(),
        leaf_layer(s, x, z, leaf_y, radius, dx).0.coordinate == s.0.coordinate,
        kept_or_grown(s.0, leaf_layer(s, x, z, leaf_y, radius, dx).0, cx, cy, cz),
    decreases radius + 1 - dx,
{
    if dx <= radius {
        let next = leaf_line(s, x, z, leaf_y, radius, dx, -radius);
        lemma_leaf_line(s, x, z, leaf_y, radius, dx, -radius, cx, cy, cz);
        lemma_leaf_layer(next, x, z, leaf_y, radius, dx + 1, cx, cy, cz);
    }
}

/// A canopy changes cells to leaves and nothing else.
pub proof fn lemma_leaf_layers(
    s: Gen,
    x: int,
    y: int,
    z: int,
    height: int,
    leaf_y: int,
    cx: int,
    cy: int,
    cz: int,
)
    requires
        s.0.shaped(),
        in_bounds(cx, cy, cz),
    ensures
        leaf_layers(s, x, y, z, height, leaf_y).0.shaped(),
        leaf_layers(s, x, y, z, height, leaf_y).0.coordinate == s.0.coordinate,
        kept_or_grown(s.0, leaf_layers(s, x, y, z, height, leaf_y).0, cx, cy, cz),
    decreases y + height + 2 - leaf_y,
{
    if !(leaf_y >= y + height + 2 || leaf_y >= 256) {
        let radius: int = if leaf_y >= y + height {
            1
        } else {
            2
        };
        let next = leaf_layer(s, x, z, leaf_y, radius, -radius);
        lemma_leaf_layer(s, x, z, leaf_y, radius, -radius, cx, cy, cz);
        lemma_leaf_layers(next, x, y, z, height, leaf_y + 1, cx, cy, cz);
    }
}

/// Decorating a column changes cells to logs, leaves, tall grass or a dead
/// bush and nothing else.
pub proof fn lemma_decorated_column(s: Gen, noise: NoiseView, x: int, z: int, cx: int, cy: int, cz: int)
    requires
        s.0.shaped(),
        in_bounds(cx, cy, cz),
    ensures
        decorated_column(s, noise, x, z).0.shaped(),
        decorated_column(s, noise, x, z).0.coordinate == s.0.coordinate,
        kept_or_grown(s.0, decorated_column(s, noise, x, z).0, cx, cy, cz),
{
    match surface_below(s.0, x, z, 256) {
        Some(y) => {
            if y < 255 && noise.biome(x, z) == Biome::Forest {
                let grow = ratio_draw(s.1, 10, 100);
                if grow.0 {
                    let height = range_draw(grow.1, 4, 8);
                    let with_trunk = trunk(s.0, x, y + 1, z, height.0 as int, 0);
                    lemma_trunk(s.0, x, y + 1, z, height.0 as int, 0, cx, cy, cz);
                    lemma_leaf_layers(
                        (with_trunk, height.1),
                        x,
                        y + 1,
                        z,
                        height.0 as int,
                        y + 1 + height.0 - 3,
                        cx,
                        cy,
                        cz,
                    );
                }
            }
        },
        None => {},
    }
}

/// Decorating a row from the column `z` on changes cells to what decoration
/// sets and nothing else.
pub proof fn lemma_decorated_row(s: Gen, noise: NoiseView, x: int, z: int, cx: int, cy: int, cz: int)
    requires
        s.0.shaped(),
        in_bounds(cx, cy, cz),
    ensures
        decorated_row(s, noise, x, z).0.shaped(),
        decorated_row(s, noise, x, z).0.coordinate == s.0.coordinate,
        kept_or_grown(s.0, decorated_row(s, noise, x, z).0, cx, cy, cz),
    decreases 16 - z,
{
    if z < 16 {
        lemma_decorated_column(s, noise, x, z, cx, cy, cz);
        lemma_decorated_row(decorated_column(s, noise, x, z), noise, x, z + 1, cx, cy, cz);
    }
}

/// Decorating from the row `x` on changes cells to what decoration sets and
/// nothing else.
pub proof fn lemma_decorated_rows(s: Gen, noise: NoiseView, x: int, cx: int, cy: int, cz: int)
    requires
        s.0.shaped(),
        in_bounds(cx, cy, cz),
    ensures
        decorated_rows(s, noise, x).0.shaped(),
        decorated_rows(s, noise, x).0.coordinate == s.0.coordinate,
        kept_or_grown(s.0, decorated_rows(s, noise, x).0, cx, cy, cz),
    decreases 16 - x,
{
    if x < 16 {
        lemma_decorated_row(s, noise, x, 0, cx, cy, cz);
        lemma_decorated_rows(decorated_row(s, noise, x, 0), noise, x + 1, cx, cy, cz);
    }
}

/// What a cell of a generated chunk holds: the block of the terrain of its
/// column; or air, where a cave opens in stone or dirt of the terrain; or an
/// ore, where the terrain is stone; or what decoration sets. Its sky light
/// is 15 where it and all cells above it are transparent, and 0 elsewhere.
pub proof fn lemma_generated_cell(
    seed: u64,
    coordinate: ChunkCoordinate,
    noise: NoiseView,
    x: int,
    y: int,
    z: int,
)
    requires
        in_bounds(x, y, z),
    ensures
        ({
            let g = generated(seed, coordinate, noise);
            let t = terrain_block(y, noise.height(x, z), noise.biome(x, z));
            &&& g.shaped()
            &&& g.coordinate == coordinate
            &&& g.sky(x, y, z) == g.sky_level(x, y, z)
            &&& {
                ||| g.block(x, y, z) == t
                ||| g.block(x, y, z) == BlockType::Air && 5 <= y < 80 && noise.cave(x, y, z) > 400000
                    && (t == BlockType::Stone || t == BlockType::Dirt)
                ||| t == BlockType::Stone && placed_ore(g.block(x, y, z))
                ||| grown(g.block(x, y, z))
            }
        }),
{
    let fresh = fresh_chunk(coordinate);
    let a = terrain_rows(fresh, noise, 0);
    let b = carved_rows(a, noise, 0);
    let c = with_ores(b, seed);
    let d = with_features(c, noise, seed);
    let g = d.with_sky_pass();
    lemma_terrain(fresh, noise, x, y, z);
    lemma_terrain_rows(fresh, noise, 0, x, y, z);
    lemma_caves(a, noise, x, y, z);
    lemma_carved_rows(a, noise, 0, x, y, z);
    lemma_ores(b, seed, x, y, z);
    lemma_ores_from((b, seeded_state(chunk_seed(seed, b.coordinate))), 0, x, y, z);
    lemma_decorated_rows((c, seeded_state(chunk_seed(seed, c.coordinate))), noise, 0, x, y, z);
    crate::chunk::lemma_sky_pass_cell(d, x, y, z);
    crate::chunk::lemma_sky_exposed_agrees(g, d, x, y, z);
}

/// Creates chunks from a seed.
pub struct WorldGenerator {
    seed: u64,
    sea_level: usize,
    max_height: usize,
    min_height: usize,
}

impl View for WorldGenerator {
    type V = u64;

    /// The seed.
    closed spec fn view(&self) -> u64 {
        self.seed
    }
}

impl WorldGenerator {
    /// The limits of the terrain are the ones every generator has.
    #[verifier::type_invariant]
    spec fn limits(self) -> bool {
        self.sea_level == 64 && self.max_height == 120 && self.min_height == 30
    }

    pub fn new(seed: u64) -> (g: Self)
        ensures
            g@ == seed,
    {
        Self { seed, sea_level: SEA_LEVEL, max_height: MAX_HEIGHT, min_height: MIN_HEIGHT }
    }

    /// The seed of one of the five fields of noise.
    #[verifier::rlimit(40)]
    pub fn noise_seed(&self, field: NoiseField) -> (s: u32)
        ensures
            s == noise_seed(self@, field),
    {
        let offset: u64 = match field {
            NoiseField::Terrain => 0,
            NoiseField::Caves => 1,
            NoiseField::Ore => 2,
            NoiseField::Temperature => 3,
            NoiseField::Humidity => 4,
        };
        let low: u64 = self.seed % 4294967296;
        ((low + offset) % 4294967296) as u32
    }

    /// The seed of the generator.
    pub fn seed(&self) -> (s: u64)
        ensures
            s == self@,
    {
        self.seed
    }

    /// Determine the biome from temperature and humidity in millionths.
    pub fn get_biome(&self, temperature: i32, humidity: i32) -> (b: Biome)
        ensures
            b == biome_of(temperature as int, humidity as int),
    {
        if temperature < -500000 {
            Biome::Mountains
        } else if temperature > 500000 && humidity < -300000 {
            Biome::Desert
        } else if temperature < 200000 && humidity > 300000 {
            Biome::Swamp
        } else if humidity < -600000 {
            Biome::Ocean
        } else if temperature > 0 && humidity > 0 {
            Biome::Forest
        } else if temperature > 200000 {
            Biome::Hills
        } else {
            Biome::Plains
        }
    }

    /// Calculate the height of the terrain from three octaves of noise in millionths.
    #[verifier::rlimit(40)]
    pub fn get_terrain_height(&self, octave1: i32, octave2: i32, octave3: i32, biome: &Biome) -> (h:
        usize)
        ensures
            h == terrain_height(octave1 as int, octave2 as int, octave3 as int, *biome),
            30 <= h <= 120,
    {
        proof {
            use_type_invariant(self);
        }
        let rise: i64 = match biome {
            Biome::Mountains => 15,
            Biome::Hills => 12,
            Biome::Plains => 8,
            Biome::Desert => 9,
            Biome::Forest => 10,
            Biome::Swamp => 6,
            Biome::Ocean => 3,
        };
        let eighths: i64 = 4 * (octave1 as i64) + 2 * (octave2 as i64) + (octave3 as i64);
        let span: i64 = (self.max_height - self.min_height) as i64;
        let scaled: i64 = (eighths + 8000000) * span * rise;
        if scaled <= 0 {
            return self.min_height;
        }
        let above: i64 = scaled / 160000000;
        if above >= span {
            self.max_height
        } else {
            self.min_height + above as usize
        }
    }

    /// Fill a column with its terrain, from the bottom up.
    pub fn fill_terrain_column(
        &self,
        chunk: &mut Chunk,
        x: usize,
        z: usize,
        height: usize,
        biome: &Biome,
    )
        requires
            old(chunk).wf(),
        ensures
            final(chunk).wf(),
            final(chunk)@.coordinate == old(chunk)@.coordinate,
            final(chunk)@ == terrain_column(
                old(chunk)@,
                x as int,
                z as int,
                height as int,
                *biome,
                0,
            ),
    {
        proof {
            use_type_invariant(self);
        }
        let mut y: usize = 0;
        while y < 256
            invariant
                0 <= y <= 256,
                chunk.wf(),
                chunk@.coordinate == old(chunk)@.coordinate,
                self.sea_level == 64,
                terrain_column(chunk@, x as int, z as int, height as int, *biome, y as int)
                    == terrain_column(old(chunk)@, x as int, z as int, height as int, *biome, 0),
            decreases 256 - y,
        {
            let block = if y == 0 {
                BlockType::Stone
            } else if y <= height {
                if y == height {
                    match biome {
                        Biome::Desert => BlockType::Sand,
                        Biome::Ocean | Biome::Swamp => BlockType::Dirt,
                        _ => BlockType::Grass,
                    }
                } else if y >= (if height >= 3 { height - 3 } else { 0 }) {
                    match biome {
                        Biome::Desert => BlockType::Sand,
                        _ => BlockType::Dirt,
                    }
                } else {
                    BlockType::Stone
                }
            } else if y <= self.sea_level {
                BlockType::Water
            } else {
                BlockType::Air
            };
            chunk.set_block(x, y, z, block);
            y = y + 1;
        }
    }

    /// Lay the terrain of every column of the chunk.
    pub fn generate_terrain(&self, chunk: &mut Chunk, noise: &ChunkNoise)
        requires
            old(chunk).wf(),
            noise.wf(),
        ensures
            final(chunk).wf(),
            final(chunk)@.coordinate == old(chunk)@.coordinate,
            final(chunk)@ == terrain_rows(old(chunk)@, noise@, 0),
    {
        let ghost target = terrain_rows(chunk@, noise@, 0);
        let mut local_x: usize = 0;
        while local_x < 16
            invariant
                0 <= local_x <= 16,
                chunk.wf(),
                chunk@.coordinate == old(chunk)@.coordinate,
                noise.wf(),
                terrain_rows(chunk@, noise@, local_x as int) == target,
            decreases 16 - local_x,
        {
            let mut local_z: usize = 0;
            while local_z < 16
                invariant
                    0 <= local_x < 16,
                    0 <= local_z <= 16,
                    chunk.wf(),
                    chunk@.coordinate == old(chunk)@.coordinate,
                    noise.wf(),
                    terrain_rows(
                        terrain_row(chunk@, noise@, local_x as int, local_z as int),
                        noise@,
                        local_x + 1,
                    ) == target,
                decreases 16 - local_z,
            {
                let c = local_x + 16 * local_z;
                let biome = self.get_biome(noise.temperature[c], noise.humidity[c]);
                let height = self.get_terrain_height(
                    noise.octave1[c],
                    noise.octave2[c],
                    noise.octave3[c],
                    &biome,
                );
                self.fill_terrain_column(chunk, local_x, local_z, height, &biome);
                local_z = local_z + 1;
            }
            local_x = local_x + 1;
        }
    }

    /// Generate a chunk: terrain, caves, ores, decoration, and sky light.
    pub fn generate_chunk(&self, coord: ChunkCoordinate, noise: &ChunkNoise) -> (chunk: Chunk)
        requires
            noise.wf(),
        ensures
            chunk.wf(),
            chunk@.coordinate == coord,
            chunk@ == generated(self@, coord, noise@),
    {
        let mut chunk = Chunk::new(coord);
        self.generate_terrain(&mut chunk, noise);
        self.generate_caves(&mut chunk, noise);
        self.generate_ores(&mut chunk);
        self.generate_surface_features(&mut chunk, noise);
        chunk.calculate_lighting();
        chunk
    }

    /// Decorate the surface of the chunk with trees, grass and bushes.
    pub fn generate_surface_features(&self, chunk: &mut Chunk, noise: &ChunkNoise)
        requires
            old(chunk).wf(),
            noise.wf(),
        ensures
            final(chunk).wf(),
            final(chunk)@.coordinate == old(chunk)@.coordinate,
            final(chunk)@ == with_features(old(chunk)@, noise@, self@),
    {
        let mut rng = seeded_rng(self.chunk_seed(chunk.coordinate()));
        let ghost target = decorated_rows((chunk@, rng_state(rng)), noise@, 0);
        let mut local_x: usize = 0;
        while local_x < 16
            invariant
                0 <= local_x <= 16,
                chunk.wf(),
                chunk@.coordinate == old(chunk)@.coordinate,
                noise.wf(),
                decorated_rows((chunk@, rng_state(rng)), noise@, local_x as int) == target,
            decreases 16 - local_x,
        {
            let mut local_z: usize = 0;
            while local_z < 16
                invariant
                    0 <= local_x < 16,
                    0 <= local_z <= 16,
                    chunk.wf(),
                    chunk@.coordinate == old(chunk)@.coordinate,
                    noise.wf(),
                    decorated_rows(
                        decorated_row(
                            (chunk@, rng_state(rng)),
                            noise@,
                            local_x as int,
                            local_z as int,
                        ),
                        noise@,
                        local_x + 1,
                    ) == target,
                decreases 16 - local_z,
            {
                self.decorate_column(chunk, noise, local_x, local_z, &mut rng);
                local_z = local_z + 1;
            }
            local_x = local_x + 1;
        }
    }

    /// Decorate one column.
    fn decorate_column(
        &self,
        chunk: &mut Chunk,
        noise: &ChunkNoise,
        x: usize,
        z: usize,
        rng: &mut StdRng,
    )
        requires
            old(chunk).wf(),
            noise.wf(),
            x < 16,
            z < 16,
        ensures
            final(chunk).wf(),
            final(chunk)@.coordinate == old(chunk)@.coordinate,
            (final(chunk)@, rng_state(*final(rng))) == decorated_column(
                (old(chunk)@, rng_state(*old(rng))),
                noise@,
                x as int,
                z as int,
            ),
    {
        let c = x + 16 * z;
        let biome = self.get_biome(noise.temperature[c], noise.humidity[c]);
        let surface_y = self.find_surface_level(chunk, x, z);
        if let Some(y) = surface_y {
            if y < 255 {
                match biome {
                    Biome::Forest => {
                        if roll(rng, 10, 100) {
                            self.place_tree(chunk, x, y + 1, z, rng);
                        } else {
                            let grow = roll(rng, 30, 100);
                            self.place_plant(chunk, x, y + 1, z, BlockType::TallGrass, grow);
                        }
                    },
                    Biome::Plains => {
                        let grow = roll(rng, 20, 100);
                        self.place_plant(chunk, x, y + 1, z, BlockType::TallGrass, grow);
                    },
                    Biome::Desert => {
                        let grow = roll(rng, 2, 100);
                        self.place_plant(chunk, x, y + 1, z, BlockType::DeadBush, grow);
                    },
                    _ => {},
                }
            }
        }
    }

    /// Find the height of the topmost block of a column that is neither air nor water.
    pub fn find_surface_level(&self, chunk: &Chunk, x: usize, z: usize) -> (r: Option<usize>)
        requires
            chunk@.shaped(),
        ensures
            r == surface_below(chunk@, x as int, z as int, 256),
            r matches Some(y) ==> y < 256,
    {
        let mut y: usize = 256;
        while y > 0
            invariant
                0 <= y <= 256,
                chunk@.shaped(),
                surface_below(chunk@, x as int, z as int, y as int) == surface_below(
                    chunk@,
                    x as int,
                    z as int,
                    256,
                ),
            decreases y,
        {
            y = y - 1;
            let block = chunk.get_block(x, y, z);
            if block != BlockType::Air && block != BlockType::Water {
                return Some(y);
            }
        }
        None
    }

    /// Set a plant on a cell where it is to grow.
    pub fn place_plant(
        &self,
        chunk: &mut Chunk,
        x: usize,
        y: usize,
        z: usize,
        block: BlockType,
        grow: bool,
    )
        requires
            old(chunk).wf(),
        ensures
            final(chunk).wf(),
            final(chunk)@ == with_plant(old(chunk)@, x as int, y as int, z as int, block, grow),
    {
        if grow {
            chunk.set_block(x, y, z, block);
        }
    }

    /// Let a leaf grow at a cell where it is to grow and the cell holds air.
    pub fn place_leaf(&self, chunk: &mut Chunk, x: usize, y: usize, z: usize, grow: bool)
        requires
            old(chunk).wf(),
        ensures
            final(chunk).wf(),
            final(chunk)@ == with_leaf(old(chunk)@, x as int, y as int, z as int, grow),
    {
        if grow {
            let current = chunk.get_block(x, y, z);
            if current == BlockType::Air {
                chunk.set_block(x, y, z, BlockType::Leaves);
            }
        }
    }

    /// Place a tree whose trunk stands on the cell (x, y, z): a trunk of 4
    /// to 7 logs and its canopy.
    pub fn place_tree(&self, chunk: &mut Chunk, x: usize, y: usize, z: usize, rng: &mut StdRng)
        requires
            old(chunk).wf(),
            in_bounds(x as int, y as int, z as int),
        ensures
            final(chunk).wf(),
            final(chunk)@.coordinate == old(chunk)@.coordinate,
            (final(chunk)@, rng_state(*final(rng))) == tree(
                (old(chunk)@, rng_state(*old(rng))),
                x as int,
                y as int,
                z as int,
            ),
    {
        let tree_height = pick(rng, 4, 8) as usize;
        self.place_trunk(chunk, x, y, z, tree_height);
        self.place_canopy(chunk, x, y, z, tree_height, rng);
    }

    /// Place a trunk of logs of a height on the cell (x, y, z); what would
    /// stand above the chunk is left out.
    pub fn place_trunk(&self, chunk: &mut Chunk, x: usize, y: usize, z: usize, height: usize)
        requires
            old(chunk).wf(),
            y + height <= usize::MAX,
        ensures
            final(chunk).wf(),
            final(chunk)@.coordinate == old(chunk)@.coordinate,
            final(chunk)@ == trunk(old(chunk)@, x as int, y as int, z as int, height as int, 0),
    {
        let ghost with_trunk = trunk(chunk@, x as int, y as int, z as int, height as int, 0);
        let mut h: usize = 0;
        while h < height
            invariant
                0 <= h <= height,
                y + height <= usize::MAX,
                chunk.wf(),
                chunk@.coordinate == old(chunk)@.coordinate,
                trunk(chunk@, x as int, y as int, z as int, height as int, h as int) == with_trunk,
            decreases height - h,
        {
            if y + h < 256 {
                chunk.set_block(x, y + h, z, BlockType::Log);
            }
            h = h + 1;
        }
    }

    /// Place the canopy of a tree of a height whose trunk stands on the cell
    /// (x, y, z): layers of leaves from three below the top of the trunk to
    /// one above it, each leaf with a chance of 8 in 10.
    pub fn place_canopy(
        &self,
        chunk: &mut Chunk,
        x: usize,
        y: usize,
        z: usize,
        tree_height: usize,
        rng: &mut StdRng,
    )
        requires
            old(chunk).wf(),
            in_bounds(x as int, y as int, z as int),
            3 <= tree_height <= 256,
        ensures
            final(chunk).wf(),
            final(chunk)@.coordinate == old(chunk)@.coordinate,
            (final(chunk)@, rng_state(*final(rng))) == leaf_layers(
                (old(chunk)@, rng_state(*old(rng))),
                x as int,
                y as int,
                z as int,
                tree_height as int,
                y + tree_height - 3,
            ),
    {
        let ghost target = leaf_layers(
            (chunk@, rng_state(*rng)),
            x as int,
            y as int,
            z as int,
            tree_height as int,
            y + tree_height - 3,
        );
        let mut leaf_y: usize = y + tree_height - 3;
        while leaf_y < y + tree_height + 2 && leaf_y < 256
            invariant
                3 <= tree_height <= 256,
                x < 16,
                y < 256,
                z < 16,
                y + tree_height - 3 <= leaf_y,
                chunk.wf(),
                chunk@.coordinate == old(chunk)@.coordinate,
                leaf_layers(
                    (chunk@, rng_state(*rng)),
                    x as int,
                    y as int,
                    z as int,
                    tree_height as int,
                    leaf_y as int,
                ) == target,
            decreases y + tree_height + 2 - leaf_y,
        {
            let radius: i64 = if leaf_y >= y + tree_height {
                1
            } else {
                2
            };
            self.place_leaf_layer(chunk, x, z, leaf_y, radius, rng);
            leaf_y = leaf_y + 1;
        }
    }

    /// Place one layer of the canopy of a tree whose trunk stands at (x, z).
    fn place_leaf_layer(
        &self,
        chunk: &mut Chunk,
        x: usize,
        z: usize,
        leaf_y: usize,
        radius: i64,
        rng: &mut StdRng,
    )
        requires
            old(chunk).wf(),
            x < 16,
            z < 16,
            leaf_y < 256,
            1 <= radius <= 2,
        ensures
            final(chunk).wf(),
            final(chunk)@.coordinate == old(chunk)@.coordinate,
            (final(chunk)@, rng_state(*final(rng))) == leaf_layer(
                (old(chunk)@, rng_state(*old(rng))),
                x as int,
                z as int,
                leaf_y as int,
                radius as int,
                -radius,
            ),
    {
        let ghost target = leaf_layer(
            (chunk@, rng_state(*rng)),
            x as int,
            z as int,
            leaf_y as int,
            radius as int,
            -radius,
        );
        let mut dx: i64 = -radius;
        while dx <= radius
            invariant
                x < 16,
                z < 16,
                leaf_y < 256,
                1 <= radius <= 2,
                -radius <= dx <= radius + 1,
                chunk.wf(),
                chunk@.coordinate == old(chunk)@.coordinate,
                leaf_layer(
                    (chunk@, rng_state(*rng)),
                    x as int,
                    z as int,
                    leaf_y as int,
                    radius as int,
                    dx as int,
                ) == target,
            decreases radius + 1 - dx,
        {
            let mut dz: i64 = -radius;
            while dz <= radius
                invariant
                    x < 16,
                    z < 16,
                    leaf_y < 256,
                    1 <= radius <= 2,
                    -radius <= dx <= radius,
                    -radius <= dz <= radius + 1,
                    chunk.wf(),
                    chunk@.coordinate == old(chunk)@.coordinate,
                    leaf_layer(
                        leaf_line(
                            (chunk@, rng_state(*rng)),
                            x as int,
                            z as int,
                            leaf_y as int,
                            radius as int,
                            dx as int,
                            dz as int,
                        ),
                        x as int,
                        z as int,
                        leaf_y as int,
                        radius as int,
                        dx + 1,
                    ) == target,
                decreases radius + 1 - dz,
            {
                let leaf_x: i64 = x as i64 + dx;
                let leaf_z: i64 = z as i64 + dz;
                if leaf_x >= 0 && leaf_x < 16 && leaf_z >= 0 && leaf_z < 16 {
                    assert(0 <= dx * dx <= 4 && 0 <= dz * dz <= 4 && 1 <= radius * radius <= 4)
                        by (nonlinear_arith)
                        requires
                            -2 <= dx <= 2,
                            -2 <= dz <= 2,
                            1 <= radius <= 2,
                    ;
                    let distance: i64 = dx * dx + dz * dz;
                    if distance <= radius * radius {
                        let grow = roll(rng, 8, 10);
                        self.place_leaf(chunk, leaf_x as usize, leaf_y, leaf_z as usize, grow);
                    }
                }
                dz = dz + 1;
            }
            dx = dx + 1;
        }
    }

    /// The seed of the random number generator of a chunk.
    #[verifier::rlimit(40)]
    pub fn chunk_seed(&self, coordinate: ChunkCoordinate) -> (s: u64)
        ensures
            s == chunk_seed(self@, coordinate),
    {
        let world_x: i128 = coordinate.x as i128 * 16;
        let world_z: i128 = coordinate.z as i128 * 16;
        let total: i128 = self.seed as i128 + world_x * 4294967296 + world_z
            + 295147905179352825856;
        let wrapped: u128 = total as u128 % 18446744073709551616;
        wrapped as u64
    }

    /// The deposits of ore, in the order in which they are placed.
    pub fn ore_deposits() -> (d: [OreDeposit; 5])
        ensures
            d@ == deposits(),
    {
        [
            OreDeposit { ore: BlockType::CoalOre, y_low: 10, y_high: 70, per_mille: 20, vein_size: 8 },
            OreDeposit { ore: BlockType::IronOre, y_low: 5, y_high: 50, per_mille: 15, vein_size: 6 },
            OreDeposit { ore: BlockType::GoldOre, y_low: 5, y_high: 35, per_mille: 8, vein_size: 4 },
            OreDeposit {
                ore: BlockType::DiamondOre,
                y_low: 1,
                y_high: 16,
                per_mille: 3,
                vein_size: 3,
            },
            OreDeposit {
                ore: BlockType::RedstoneOre,
                y_low: 1,
                y_high: 20,
                per_mille: 10,
                vein_size: 5,
            },
        ]
    }

    /// Place the ores of the chunk: coal, iron, gold, diamond, redstone.
    pub fn generate_ores(&self, chunk: &mut Chunk)
        requires
            old(chunk).wf(),
        ensures
            final(chunk).wf(),
            final(chunk)@.coordinate == old(chunk)@.coordinate,
            final(chunk)@ == with_ores(old(chunk)@, self@),
    {
        let mut rng = seeded_rng(self.chunk_seed(chunk.coordinate()));
        let table = Self::ore_deposits();
        let ghost target = ores_from((chunk@, rng_state(rng)), 0);
        let mut i: usize = 0;
        while i < 5
            invariant
                0 <= i <= 5,
                chunk.wf(),
                chunk@.coordinate == old(chunk)@.coordinate,
                table@ == deposits(),
                ores_from((chunk@, rng_state(rng)), i as int) == target,
            decreases 5 - i,
        {
            let deposit = table[i];
            self.generate_ore_type(chunk, &mut rng, deposit);
            i = i + 1;
        }
    }

    /// Attempt four veins of one deposit.
    pub fn generate_ore_type(&self, chunk: &mut Chunk, rng: &mut StdRng, deposit: OreDeposit)
        requires
            old(chunk).wf(),
            deposit.wf(),
        ensures
            final(chunk).wf(),
            final(chunk)@.coordinate == old(chunk)@.coordinate,
            (final(chunk)@, rng_state(*final(rng))) == ore_attempts(
                (old(chunk)@, rng_state(*old(rng))),
                deposit,
                4,
            ),
    {
        let ghost target = ore_attempts((chunk@, rng_state(*rng)), deposit, 4);
        let mut left: usize = ORE_ATTEMPTS;
        while left > 0
            invariant
                0 <= left <= 4,
                chunk.wf(),
                chunk@.coordinate == old(chunk)@.coordinate,
                deposit.wf(),
                ore_attempts((chunk@, rng_state(*rng)), deposit, left as int) == target,
            decreases left,
        {
            if roll(rng, deposit.per_mille, 1000) {
                let local_x = pick(rng, 0, 16);
                let local_z = pick(rng, 0, 16);
                let y = pick(rng, deposit.y_low, deposit.y_high);
                self.place_ore_vein(
                    chunk,
                    local_x as usize,
                    y as usize,
                    local_z as usize,
                    deposit.ore,
                    deposit.vein_size,
                    rng,
                );
            }
            left = left - 1;
        }
    }

    /// Grow a vein of ore from a cell through the stone around it, depth
    /// first, until it has `max_size` cells or finds no more stone.
    pub fn place_ore_vein(
        &self,
        chunk: &mut Chunk,
        start_x: usize,
        start_y: usize,
        start_z: usize,
        ore_type: BlockType,
        max_size: usize,
        rng: &mut StdRng,
    )
        requires
            old(chunk).wf(),
        ensures
            final(chunk).wf(),
            final(chunk)@.coordinate == old(chunk)@.coordinate,
            (final(chunk)@, rng_state(*final(rng))) == vein_grown(
                (old(chunk)@, rng_state(*old(rng))),
                seq![(start_x, start_y, start_z)],
                ore_type,
                0,
                max_size as int,
            ),
    {
        let ghost target = vein_grown(
            (chunk@, rng_state(*rng)),
            seq![(start_x, start_y, start_z)],
            ore_type,
            0,
            max_size as int,
        );
        let mut placed: usize = 0;
        let mut positions: Vec<(usize, usize, usize)> = Vec::new();
        positions.push((start_x, start_y, start_z));
        assert(positions@ =~= seq![(start_x, start_y, start_z)]);
        while positions.len() > 0 && placed < max_size
            invariant
                0 <= placed <= max_size,
                chunk.wf(),
                chunk@.coordinate == old(chunk)@.coordinate,
                vein_grown((chunk@, rng_state(*rng)), positions@, ore_type, placed as int, max_size as int)
                    == target,
            decreases max_size - placed, positions.len(),
        {
            let ghost before = positions@;
            let (x, y, z) = match positions.pop() {
                Some(p) => p,
                None => (0, 0, 0),
            };
            assert(positions@ =~= before.drop_last());
            if x < 16 && y < 256 && z < 16 {
                let current_block = chunk.get_block(x, y, z);
                if current_block == BlockType::Stone {
                    chunk.set_block(x, y, z, ore_type);
                    placed = placed + 1;
                    let spread = roll(rng, 6, 10);
                    self.spread_vein(&mut positions, x, y, z, spread);
                }
            }
        }
    }

    /// Let a vein spread from a cell of the chunk that took ore: where it
    /// spreads, the neighbours of the cell go onto the stack, east, west, up,
    /// down, north, south, leaving out those with a negative coordinate.
    pub fn spread_vein(
        &self,
        positions: &mut Vec<(usize, usize, usize)>,
        x: usize,
        y: usize,
        z: usize,
        spread: bool,
    )
        requires
            in_bounds(x as int, y as int, z as int),
        ensures
            final(positions)@ == spread_stack(old(positions)@, x, y, z, spread),
    {
        if spread {
            positions.push((x + 1, y, z));
            if x >= 1 {
                positions.push((x - 1, y, z));
            }
            positions.push((x, y + 1, z));
            if y >= 1 {
                positions.push((x, y - 1, z));
            }
            positions.push((x, y, z + 1));
            if z >= 1 {
                positions.push((x, y, z - 1));
            }
        }
    }

    /// Carve caves between the cave floor and the cave ceiling.
    #[verifier::rlimit(40)]
    pub fn generate_caves(&self, chunk: &mut Chunk, noise: &ChunkNoise)
        requires
            old(chunk).wf(),
            noise.wf(),
        ensures
            final(chunk).wf(),
            final(chunk)@.coordinate == old(chunk)@.coordinate,
            final(chunk)@ == carved_rows(old(chunk)@, noise@, 0),
    {
        let ghost target = carved_rows(chunk@, noise@, 0);
        let mut local_x: usize = 0;
        while local_x < 16
            invariant
                0 <= local_x <= 16,
                chunk.wf(),
                chunk@.coordinate == old(chunk)@.coordinate,
                noise.wf(),
                carved_rows(chunk@, noise@, local_x as int) == target,
            decreases 16 - local_x,
        {
            let mut local_z: usize = 0;
            while local_z < 16
                invariant
                    0 <= local_x < 16,
                    0 <= local_z <= 16,
                    chunk.wf(),
                    chunk@.coordinate == old(chunk)@.coordinate,
                    noise.wf(),
                    carved_rows(
                        carved_row(chunk@, noise@, local_x as int, local_z as int),
                        noise@,
                        local_x + 1,
                    ) == target,
                decreases 16 - local_z,
            {
                let mut y: usize = CAVE_FLOOR;
                while y < CAVE_CEILING
                    invariant
                        0 <= local_x < 16,
                        0 <= local_z < 16,
                        5 <= y <= 80,
                        chunk.wf(),
                        chunk@.coordinate == old(chunk)@.coordinate,
                        noise.wf(),
                        carved_rows(
                            carved_row(
                                carved_column(
                                    chunk@,
                                    noise@,
                                    local_x as int,
                                    local_z as int,
                                    y as int,
                                ),
                                noise@,
                                local_x as int,
                                local_z + 1,
                            ),
                            noise@,
                            local_x + 1,
                        ) == target,
                    decreases 80 - y,
                {
                    let cave_noise = noise.caves[local_x + 16 * (local_z + 16 * (y - 5))];
                    if cave_noise > CAVE_THRESHOLD {
                        let current_block = chunk.get_block(local_x, y, local_z);
                        if current_block == BlockType::Stone || current_block == BlockType::Dirt {
                            chunk.set_block(local_x, y, local_z, BlockType::Air);
                        }
                    }
                    y = y + 1;
                }
                local_z = local_z + 1;
            }
            local_x = local_x + 1;
        }
    }
}

} // verus!
