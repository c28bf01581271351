//! Chunk storage: a 16 x 256 x 16 grid of blocks with a per-column height
//! cache and one packed light byte per cell.

use vstd::prelude::*;
use crate::block::BlockType;

verus! {

/// Size of a chunk in blocks along each horizontal axis.
pub const CHUNK_SIZE: usize = 16;

/// Height of a chunk in blocks.
pub const CHUNK_HEIGHT: usize = 256;

/// Number of cells in a chunk.
pub const CHUNK_VOLUME: usize = 65536;

/// Number of columns in a chunk.
pub const CHUNK_AREA: usize = 256;

/// Coordinate of a chunk in chunk-grid units.
#[derive(Debug, Clone, Copy, PartialEq, Eq, Hash, Structural)]
pub struct ChunkCoordinate {
    pub x: i32,
    pub z: i32,
}

impl ChunkCoordinate {
    /// Whether the origin of the chunk has block coordinates that fit in `i32`.
    pub open spec fn addressable(self) -> bool {
        &&& -134217728 <= self.x <= 134217727
        &&& -134217728 <= self.z <= 134217727
    }

    pub fn new(x: i32, z: i32) -> (c: Self)
        ensures
            c == (ChunkCoordinate { x, z }),
    {
        Self { x, z }
    }

    /// World position of the chunk's origin, in blocks.
    pub fn world_position(&self) -> (p: (i32, i32))
        requires
            self.addressable(),
        ensures
            p.0 == self.x * 16,
            p.1 == self.z * 16,
    {
        (self.x * 16, self.z * 16)
    }

    /// The four chunks that share an edge with this one: east, west, north, south.
    pub fn neighbors(&self) -> (n: [ChunkCoordinate; 4])
        requires
            i32::MIN < self.x < i32::MAX,
            i32::MIN < self.z < i32::MAX,
        ensures
            n@ == seq![
                ChunkCoordinate { x: (self.x + 1) as i32, z: self.z },
                ChunkCoordinate { x: (self.x - 1) as i32, z: self.z },
                ChunkCoordinate { x: self.x, z: (self.z + 1) as i32 },
                ChunkCoordinate { x: self.x, z: (self.z - 1) as i32 },
            ],
    {
        [
            ChunkCoordinate::new(self.x + 1, self.z),
            ChunkCoordinate::new(self.x - 1, self.z),
            ChunkCoordinate::new(self.x, self.z + 1),
            ChunkCoordinate::new(self.x, self.z - 1),
        ]
    }

    /// The eight chunks around this one: the four neighbors, then the diagonals
    /// northeast, southeast, northwest, southwest.
    pub fn surrounding(&self) -> (n: [ChunkCoordinate; 8])
        requires
            i32::MIN < self.x < i32::MAX,
            i32::MIN < self.z < i32::MAX,
        ensures
            n@ == seq![
                ChunkCoordinate { x: (self.x + 1) as i32, z: self.z },
                ChunkCoordinate { x: (self.x - 1) as i32, z: self.z },
                ChunkCoordinate { x: self.x, z: (self.z + 1) as i32 },
                ChunkCoordinate { x: self.x, z: (self.z - 1) as i32 },
                ChunkCoordinate { x: (self.x + 1) as i32, z: (self.z + 1) as i32 },
                ChunkCoordinate { x: (self.x + 1) as i32, z: (self.z - 1) as i32 },
                ChunkCoordinate { x: (self.x - 1) as i32, z: (self.z + 1) as i32 },
                ChunkCoordinate { x: (self.x - 1) as i32, z: (self.z - 1) as i32 },
            ],
    {
        [
            ChunkCoordinate::new(self.x + 1, self.z),
            ChunkCoordinate::new(self.x - 1, self.z),
            ChunkCoordinate::new(self.x, self.z + 1),
            ChunkCoordinate::new(self.x, self.z - 1),
            ChunkCoordinate::new(self.x + 1, self.z + 1),
            ChunkCoordinate::new(self.x + 1, self.z - 1),
            ChunkCoordinate::new(self.x - 1, self.z + 1),
            ChunkCoordinate::new(self.x - 1, self.z - 1),
        ]
    }
}

/// Whether local coordinates lie inside a chunk.
pub open spec fn in_bounds(x: int, y: int, z: int) -> bool {
    0 <= x < 16 && 0 <= y < 256 && 0 <= z < 16
}

/// Position of a cell in the flat arrays of a chunk.
pub open spec fn cell_index(x: int, y: int, z: int) -> int {
    x + 16 * (z + 16 * y)
}

/// Position of a column in the height cache of a chunk.
pub open spec fn column_index(x: int, z: int) -> int {
    x + 16 * z
}

/// A box of cells: from its start corner up to, not including, its end corner.
pub struct Region {
    pub start_x: int,
    pub start_y: int,
    pub start_z: int,
    pub end_x: int,
    pub end_y: int,
    pub end_z: int,
}

impl Region {
    /// Whether a cell of the chunk lies in the box.
    pub open spec fn contains(self, x: int, y: int, z: int) -> bool {
        &&& in_bounds(x, y, z)
        &&& self.start_x <= x < self.end_x
        &&& self.start_y <= y < self.end_y
        &&& self.start_z <= z < self.end_z
    }

    /// Whether a cell lies in the box and comes before the cell (px, py, pz)
    /// in the order in which the box is filled: by x, then by y, then by z.
    pub open spec fn reached(self, px: int, py: int, pz: int, x: int, y: int, z: int) -> bool {
        &&& self.contains(x, y, z)
        &&& (x < px || (x == px && (y < py || (y == py && z < pz))))
    }
}

/// The sky nibble of a light byte.
pub open spec fn sky_of(light: u8) -> int {
    light as int / 16
}

/// The block-light nibble of a light byte.
pub open spec fn glow_of(light: u8) -> int {
    light as int % 16
}

/// What a chunk holds: its coordinate, its dirty flag, and its block, height
/// and light arrays.
pub struct ChunkView {
    pub coordinate: ChunkCoordinate,
    pub dirty: bool,
    pub blocks: Seq<BlockType>,
    pub heights: Seq<usize>,
    pub light: Seq<u8>,
}

impl ChunkView {
    /// The block at a local position; air outside the chunk.
    pub open spec fn block(self, x: int, y: int, z: int) -> BlockType {
        if in_bounds(x, y, z) {
            self.blocks[cell_index(x, y, z)]
        } else {
            BlockType::Air
        }
    }

    /// The light byte at a local position; 0 outside the chunk.
    pub open spec fn light_byte(self, x: int, y: int, z: int) -> u8 {
        if in_bounds(x, y, z) {
            self.light[cell_index(x, y, z)]
        } else {
            0
        }
    }

    /// The sky light at a local position.
    pub open spec fn sky(self, x: int, y: int, z: int) -> int {
        sky_of(self.light_byte(x, y, z))
    }

    /// The block light at a local position.
    pub open spec fn glow(self, x: int, y: int, z: int) -> int {
        glow_of(self.light_byte(x, y, z))
    }

    /// Whether `h` is one more than the height of the topmost block of the
    /// column that is not air, or 0 where the column is all air.
    pub open spec fn tops_at(self, x: int, z: int, h: int) -> bool {
        &&& 0 <= h <= 256
        &&& h > 0 ==> self.block(x, h - 1, z) != BlockType::Air
        &&& forall|y: int| h <= y < 256 ==> #[trigger] self.block(x, y, z) == BlockType::Air
    }

    /// The cached height of a column; 0 outside the chunk.
    pub open spec fn height(self, x: int, z: int) -> int {
        if 0 <= x < 16 && 0 <= z < 16 {
            self.heights[column_index(x, z)] as int
        } else {
            0
        }
    }

    /// The arrays have their sizes.
    pub open spec fn shaped(self) -> bool {
        &&& self.blocks.len() == 65536
        &&& self.heights.len() == 256
        &&& self.light.len() == 65536
    }

    /// One more than the height of the topmost block of the column that is
    /// not air and lies below `n`, or 0 where there is none.
    pub open spec fn top_below(self, x: int, z: int, n: int) -> int
        decreases n,
    {
        if n <= 0 {
            0
        } else if self.block(x, n - 1, z) != BlockType::Air {
            n
        } else {
            self.top_below(x, z, n - 1)
        }
    }

    /// One more than the height of the topmost block of the column that is
    /// not air, or 0 where the column is all air.
    pub open spec fn column_top(self, x: int, z: int) -> int {
        self.top_below(x, z, 256)
    }

    /// The arrays have their sizes and every cached height is that of its column.
    pub open spec fn wf(self) -> bool {
        &&& self.shaped()
        &&& forall|x: int, z: int|
            0 <= x < 16 && 0 <= z < 16 ==> #[trigger] self.height(x, z) == self.column_top(x, z)
    }

    /// The chunk with one light byte replaced; unchanged outside the chunk.
    pub open spec fn with_light(self, x: int, y: int, z: int, light: u8) -> ChunkView {
        if in_bounds(x, y, z) {
            ChunkView { light: self.light.update(cell_index(x, y, z), light), ..self }
        } else {
            self
        }
    }

    /// The chunk with the sky nibble of one light byte replaced.
    pub open spec fn with_sky(self, x: int, y: int, z: int, level: u8) -> ChunkView {
        self.with_light(x, y, z, (16 * (level % 16) + self.glow(x, y, z)) as u8)
    }

    /// The chunk with the block-light nibble of one light byte replaced.
    pub open spec fn with_glow(self, x: int, y: int, z: int, level: u8) -> ChunkView {
        self.with_light(x, y, z, (16 * self.sky(x, y, z) + level % 16) as u8)
    }

    /// The chunk after one block is set. Outside the chunk, and where the cell
    /// holds the block already, nothing changes. Else the cell takes the block,
    /// the chunk is dirty, the height of the column follows, and the light of
    /// the cell is reset: full sky light where only air lies above it, none
    /// otherwise, and no block light.
    pub open spec fn with_block(self, x: int, y: int, z: int, block: BlockType) -> ChunkView {
        if in_bounds(x, y, z) && self.block(x, y, z) != block {
            let placed = ChunkView {
                blocks: self.blocks.update(cell_index(x, y, z), block),
                ..self
            };
            ChunkView {
                coordinate: self.coordinate,
                dirty: true,
                blocks: placed.blocks,
                heights: self.heights.update(column_index(x, z), placed.column_top(x, z) as usize),
                light: self.light.update(
                    cell_index(x, y, z),
                    if self.open_above(x, y, z) {
                        240u8
                    } else {
                        0u8
                    },
                ),
            }
        } else {
            self
        }
    }

    /// Whether nothing but air lies above a cell in its column.
    pub open spec fn open_above(self, x: int, y: int, z: int) -> bool {
        forall|yy: int| y < yy < 256 ==> #[trigger] self.block(x, yy, z) == BlockType::Air
    }

    /// Whether light falls from the sky onto a cell: it and every cell above
    /// it in its column are transparent.
    pub open spec fn sky_exposed(self, x: int, y: int, z: int) -> bool {
        forall|yy: int| y <= yy < 256 ==> (#[trigger] self.block(x, yy, z)).transparent()
    }

    /// The sky light that falls onto a cell: 15 where it is exposed, else 0.
    pub open spec fn sky_level(self, x: int, y: int, z: int) -> int {
        if self.sky_exposed(x, y, z) {
            15
        } else {
            0
        }
    }

    /// The chunk after one column has the sky light that falls onto its
    /// cells; the same chunk where there is no such column.
    pub open spec fn with_sky_column(self, x: int, z: int) -> ChunkView {
        if 0 <= x < 16 && 0 <= z < 16 {
            ChunkView {
                light: Seq::new(
                    65536,
                    |i: int|
                        if i % 16 == x && (i / 16) % 16 == z {
                            (16 * self.sky_level(x, i / 256, z) + glow_of(self.light[i])) as u8
                        } else {
                            self.light[i]
                        },
                ),
                ..self
            }
        } else {
            self
        }
    }

    /// The chunk after the sky pass: every cell has the sky light that falls
    /// onto it and keeps its block light.
    pub open spec fn with_sky_pass(self) -> ChunkView {
        ChunkView {
            light: Seq::new(
                65536,
                |i: int|
                    (16 * self.sky_level(i % 16, i / 256, (i / 16) % 16) + glow_of(
                        self.light[i],
                    )) as u8,
            ),
            ..self
        }
    }

    /// The chunk after a sequence of blocks is set, the first of them first.
    pub open spec fn after_writes(self, writes: Seq<(int, int, int, BlockType)>) -> ChunkView
        decreases writes.len(),
    {
        if writes.len() == 0 {
            self
        } else {
            let w = writes.last();
            self.after_writes(writes.drop_last()).with_block(w.0, w.1, w.2, w.3)
        }
    }

    /// The chunk after the cells of a box that come before (px, py, pz) are
    /// set to one block, in the order x, then y, then z. Every such cell
    /// holds the block; where it held another one, its light is reset as by
    /// `with_block`, with what lay above it before the fill; the heights
    /// follow; and the chunk is dirty if any cell changed.
    pub open spec fn filled(self, r: Region, block: BlockType, px: int, py: int, pz: int) -> ChunkView {
        let blocks = Seq::new(
            65536,
            |i: int|
                if r.reached(px, py, pz, i % 16, i / 256, (i / 16) % 16) {
                    block
                } else {
                    self.blocks[i]
                },
        );
        let placed = ChunkView { blocks, ..self };
        ChunkView {
            coordinate: self.coordinate,
            dirty: self.dirty || blocks != self.blocks,
            blocks,
            heights: Seq::new(256, |c: int| placed.column_top(c % 16, c / 16) as usize),
            light: Seq::new(
                65536,
                |i: int|
                    if r.reached(px, py, pz, i % 16, i / 256, (i / 16) % 16) && self.blocks[i]
                        != block {
                        if self.open_above(i % 16, i / 256, (i / 16) % 16) {
                            240u8
                        } else {
                            0u8
                        }
                    } else {
                        self.light[i]
                    },
            ),
        }
    }

    /// The chunk after all cells of a box are set to one block.
    pub open spec fn with_region(self, r: Region, block: BlockType) -> ChunkView {
        self.filled(r, block, 16, 0, 0)
    }

    /// Whether every cell of the chunk is air.
    pub open spec fn all_air(self) -> bool {
        forall|x: int, y: int, z: int|
            in_bounds(x, y, z) ==> #[trigger] self.block(x, y, z) == BlockType::Air
    }

    /// The number of cells that are not air among the first `n` cells.
    pub open spec fn solid_count(self, n: int) -> int
        decreases n,
    {
        if n <= 0 {
            0
        } else {
            self.solid_count(n - 1) + if self.blocks[n - 1] != BlockType::Air {
                1int
            } else {
                0int
            }
        }
    }
}

/// The height found by scanning a column downward from `n` is one more than
/// the height of its topmost block below `n` that is not air.
pub proof fn lemma_top_below(v: ChunkView, x: int, z: int, n: int)
    requires
        0 <= n <= 256,
    ensures
        0 <= v.top_below(x, z, n) <= n,
        v.top_below(x, z, n) > 0 ==> v.block(x, v.top_below(x, z, n) - 1, z) != BlockType::Air,
        forall|y: int|
            v.top_below(x, z, n) <= y < n ==> #[trigger] v.block(x, y, z) == BlockType::Air,
    decreases n,
{
    if n > 0 && v.block(x, n - 1, z) == BlockType::Air {
        lemma_top_below(v, x, z, n - 1);
    }
}

/// The height of a column is one more than the height of its topmost block
/// that is not air, or 0 where the column is all air; and nothing else is.
pub proof fn lemma_column_top(v: ChunkView, x: int, z: int)
    ensures
        v.tops_at(x, z, v.column_top(x, z)),
        forall|h: int| v.tops_at(x, z, h) ==> h == v.column_top(x, z),
{
    lemma_top_below(v, x, z, 256);
    assert forall|h: int| v.tops_at(x, z, h) implies h == v.column_top(x, z) by {
        lemma_top_unique(v, x, z, h, v.column_top(x, z));
    }
}

/// The height of a column depends on the blocks of that column only.
pub proof fn lemma_top_below_same_column(v: ChunkView, w: ChunkView, x: int, z: int, n: int)
    requires
        forall|y: int| 0 <= y < 256 ==> #[trigger] v.block(x, y, z) == w.block(x, y, z),
        0 <= n <= 256,
    ensures
        v.top_below(x, z, n) == w.top_below(x, z, n),
    decreases n,
{
    if n > 0 {
        assert(v.block(x, n - 1, z) == w.block(x, n - 1, z));
        lemma_top_below_same_column(v, w, x, z, n - 1);
    }
}

/// Whether only air lies above a cell depends on the blocks above it only.
pub proof fn lemma_open_above_agrees(v: ChunkView, w: ChunkView, x: int, y: int, z: int)
    requires
        forall|yy: int|
            #![trigger v.block(x, yy, z)]
            #![trigger w.block(x, yy, z)]
            y < yy < 256 ==> v.block(x, yy, z) == w.block(x, yy, z),
    ensures
        v.open_above(x, y, z) == w.open_above(x, y, z),
{
    if v.open_above(x, y, z) {
        assert forall|yy: int| y < yy < 256 implies #[trigger] w.block(x, yy, z)
            == BlockType::Air by {
            assert(v.block(x, yy, z) == BlockType::Air);
        }
    }
    if w.open_above(x, y, z) {
        assert forall|yy: int| y < yy < 256 implies #[trigger] v.block(x, yy, z)
            == BlockType::Air by {
            assert(w.block(x, yy, z) == BlockType::Air);
        }
    }
}

/// The sky light that falls onto a cell is that of the cell above it, unless
/// the cell itself is not transparent: then it is 0.
pub proof fn lemma_sky_level_step(v: ChunkView, x: int, y: int, z: int)
    requires
        in_bounds(x, y, z),
    ensures
        v.sky_level(x, 256, z) == 15,
        v.sky_level(x, y, z) == (if v.block(x, y, z).transparent() {
            v.sky_level(x, y + 1, z)
        } else {
            0
        }),
{
    if v.block(x, y, z).transparent() {
        if v.sky_exposed(x, y + 1, z) {
            assert forall|yy: int| y <= yy < 256 implies (#[trigger] v.block(
                x,
                yy,
                z,
            )).transparent() by {}
        }
    }
}

/// Two cells of a chunk share their place in its arrays only if they are one cell.
pub proof fn lemma_cell_index_injective(x1: int, y1: int, z1: int, x2: int, y2: int, z2: int)
    requires
        in_bounds(x1, y1, z1),
        in_bounds(x2, y2, z2),
        cell_index(x1, y1, z1) == cell_index(x2, y2, z2),
    ensures
        x1 == x2 && y1 == y2 && z1 == z2,
{
}

/// A chunk of air under full sky light, as `Chunk::new` makes it.
pub open spec fn fresh_chunk(coordinate: ChunkCoordinate) -> ChunkView {
    ChunkView {
        coordinate,
        dirty: false,
        blocks: Seq::new(65536, |i: int| BlockType::Air),
        heights: Seq::new(256, |i: int| 0usize),
        light: Seq::new(65536, |i: int| 255u8),
    }
}

/// A column has one height only.
pub proof fn lemma_top_unique(v: ChunkView, x: int, z: int, h1: int, h2: int)
    requires
        v.tops_at(x, z, h1),
        v.tops_at(x, z, h2),
    ensures
        h1 == h2,
{
    if h1 < h2 {
        assert(v.block(x, h2 - 1, z) == BlockType::Air);
    }
    if h2 < h1 {
        assert(v.block(x, h1 - 1, z) == BlockType::Air);
    }
}

/// Setting a block keeps the cached heights right.
pub proof fn lemma_with_block_wf(v: ChunkView, x: int, y: int, z: int, block: BlockType)
    requires
        v.wf(),
    ensures
        v.with_block(x, y, z, block).wf(),
{
    let w = v.with_block(x, y, z, block);
    if in_bounds(x, y, z) && v.block(x, y, z) != block {
        lemma_top_below(w, x, z, 256);
        assert forall|xx: int, zz: int| 0 <= xx < 16 && 0 <= zz < 16 implies #[trigger] w.height(
            xx,
            zz,
        ) == w.column_top(xx, zz) by {
            if xx == x && zz == z {
                let placed = ChunkView { blocks: v.blocks.update(cell_index(x, y, z), block), ..v };
                lemma_top_below(placed, x, z, 256);
                lemma_top_below_same_column(placed, w, x, z, 256);
            } else {
                assert(v.height(xx, zz) == v.column_top(xx, zz));
                lemma_top_below_same_column(v, w, xx, zz, 256);
            }
        }
    }
}

/// A block that was set inside the chunk is the block that is found there.
pub proof fn lemma_set_then_get(v: ChunkView, x: int, y: int, z: int, block: BlockType)
    requires
        v.shaped(),
        in_bounds(x, y, z),
    ensures
        v.with_block(x, y, z, block).block(x, y, z) == block,
        v.with_block(x, y, z, block).shaped(),
{
}

/// Setting a block leaves every other cell's block and light as they were.
pub proof fn lemma_set_keeps_others(
    v: ChunkView,
    x: int,
    y: int,
    z: int,
    block: BlockType,
    x2: int,
    y2: int,
    z2: int,
)
    requires
        v.shaped(),
        in_bounds(x2, y2, z2),
        x2 != x || y2 != y || z2 != z,
    ensures
        v.with_block(x, y, z, block).block(x2, y2, z2) == v.block(x2, y2, z2),
        v.with_block(x, y, z, block).light_byte(x2, y2, z2) == v.light_byte(x2, y2, z2),
{
}

/// Outside the chunk every block reads as air, and setting one changes nothing.
pub proof fn lemma_out_of_bounds(v: ChunkView, x: int, y: int, z: int, block: BlockType)
    requires
        !in_bounds(x, y, z),
    ensures
        v.block(x, y, z) == BlockType::Air,
        v.with_block(x, y, z, block) == v,
{
}

/// After any sequence of blocks set in a well-formed chunk, the cached height
/// of every column is one more than the height of its topmost block that is
/// not air, or 0 where the column is all air.
pub proof fn lemma_heights_after_writes(
    v: ChunkView,
    writes: Seq<(int, int, int, BlockType)>,
    x: int,
    z: int,
)
    requires
        v.wf(),
        0 <= x < 16,
        0 <= z < 16,
    ensures
        v.after_writes(writes).wf(),
        v.after_writes(writes).tops_at(x, z, v.after_writes(writes).height(x, z)),
    decreases writes.len(),
{
    if writes.len() > 0 {
        let w = writes.last();
        lemma_heights_after_writes(v, writes.drop_last(), x, z);
        lemma_with_block_wf(v.after_writes(writes.drop_last()), w.0, w.1, w.2, w.3);
    }
    let r = v.after_writes(writes);
    assert(r.height(x, z) == r.column_top(x, z));
    lemma_column_top(r, x, z);
}

/// After the sky pass a cell has sky light 15 where it and all cells above it
/// are transparent, and 0 elsewhere; its block light is what it was.
pub proof fn lemma_sky_pass_cell(v: ChunkView, x: int, y: int, z: int)
    requires
        v.shaped(),
        in_bounds(x, y, z),
    ensures
        v.with_sky_pass().sky(x, y, z) == v.sky_level(x, y, z),
        v.with_sky_pass().glow(x, y, z) == v.glow(x, y, z),
        v.with_sky_pass().block(x, y, z) == v.block(x, y, z),
{
    let i = cell_index(x, y, z);
    assert(i % 16 == x && i / 256 == y && (i / 16) % 16 == z);
}

/// The sky pass is idempotent: a second pass changes nothing.
pub proof fn lemma_sky_pass_idempotent(v: ChunkView)
    requires
        v.shaped(),
    ensures
        v.with_sky_pass().with_sky_pass() == v.with_sky_pass(),
{
    let w = v.with_sky_pass();
    assert forall|i: int| 0 <= i < 65536 implies w.with_sky_pass().light[i] == w.light[i] by {
        let (x, y, z) = (i % 16, i / 256, (i / 16) % 16);
        assert(in_bounds(x, y, z) && i == cell_index(x, y, z));
        lemma_sky_exposed_agrees(w, v, x, y, z);
    }
    assert(w.with_sky_pass().light =~= w.light);
}

/// After the sky pass, sky light never grows on the way down a column: below
/// a block that is not transparent it is 0, and above the topmost such block
/// it is 15.
pub proof fn lemma_sky_light_falls(v: ChunkView, x: int, z: int, lower: int, upper: int)
    requires
        v.shaped(),
        in_bounds(x, lower, z),
        in_bounds(x, upper, z),
        lower <= upper,
    ensures
        v.with_sky_pass().sky(x, lower, z) <= v.with_sky_pass().sky(x, upper, z),
        !v.block(x, upper, z).transparent() ==> v.with_sky_pass().sky(x, lower, z) == 0,
        v.sky_exposed(x, upper, z) ==> v.with_sky_pass().sky(x, upper, z) == 15,
{
    lemma_sky_pass_cell(v, x, lower, z);
    lemma_sky_pass_cell(v, x, upper, z);
    if v.sky_exposed(x, lower, z) {
        assert forall|yy: int| upper <= yy < 256 implies (#[trigger] v.block(
            x,
            yy,
            z,
        )).transparent() by {}
        assert(v.block(x, upper, z).transparent());
    }
}

/// Whether a cell is exposed to the sky depends on the blocks only.
pub proof fn lemma_sky_exposed_agrees(v: ChunkView, w: ChunkView, x: int, y: int, z: int)
    requires
        v.blocks == w.blocks,
    ensures
        v.sky_exposed(x, y, z) == w.sky_exposed(x, y, z),
{
    if v.sky_exposed(x, y, z) {
        assert forall|yy: int| y <= yy < 256 implies (#[trigger] w.block(
            x,
            yy,
            z,
        )).transparent() by {
            assert(v.block(x, yy, z).transparent());
        }
    }
    if w.sky_exposed(x, y, z) {
        assert forall|yy: int| y <= yy < 256 implies (#[trigger] v.block(
            x,
            yy,
            z,
        )).transparent() by {
            assert(w.block(x, yy, z).transparent());
        }
    }
}

/// Filling is determined by which cells have been reached.
pub proof fn lemma_filled_congruent(
    v: ChunkView,
    r: Region,
    block: BlockType,
    p: (int, int, int),
    q: (int, int, int),
)
    requires
        forall|x: int, y: int, z: int|
            in_bounds(x, y, z) ==> r.reached(p.0, p.1, p.2, x, y, z) == r.reached(
                q.0,
                q.1,
                q.2,
                x,
                y,
                z,
            ),
    ensures
        v.filled(r, block, p.0, p.1, p.2) == v.filled(r, block, q.0, q.1, q.2),
{
    let a = v.filled(r, block, p.0, p.1, p.2);
    let b = v.filled(r, block, q.0, q.1, q.2);
    assert forall|i: int| 0 <= i < 65536 implies a.blocks[i] == b.blocks[i] && a.light[i]
        == b.light[i] by {
        assert(in_bounds(i % 16, i / 256, (i / 16) % 16));
    }
    assert(a.blocks =~= b.blocks);
    assert(a.light =~= b.light);
    assert(a.heights =~= b.heights);
}

/// Before any cell is reached, filling changes nothing.
pub proof fn lemma_filled_none(v: ChunkView, r: Region, block: BlockType, p: (int, int, int))
    requires
        v.wf(),
        forall|x: int, y: int, z: int| in_bounds(x, y, z) ==> !r.reached(p.0, p.1, p.2, x, y, z),
    ensures
        v.filled(r, block, p.0, p.1, p.2) == v,
{
    let a = v.filled(r, block, p.0, p.1, p.2);
    assert forall|i: int| 0 <= i < 65536 implies a.blocks[i] == v.blocks[i] && a.light[i]
        == v.light[i] by {
        assert(in_bounds(i % 16, i / 256, (i / 16) % 16));
    }
    assert(a.blocks =~= v.blocks);
    assert(a.light =~= v.light);
    let placed = ChunkView { blocks: a.blocks, ..v };
    assert forall|c: int| 0 <= c < 256 implies a.heights[c] == v.heights[c] by {
        assert(v.height(c % 16, c / 16) == v.column_top(c % 16, c / 16));
        lemma_top_below_same_column(placed, v, c % 16, c / 16, 256);
    }
    assert(a.heights =~= v.heights);
}

/// The cell that lies at a place of the flat arrays, and back.
pub proof fn lemma_cell_of_index(i: int)
    requires
        0 <= i < 65536,
    ensures
        in_bounds(i % 16, i / 256, (i / 16) % 16),
        cell_index(i % 16, i / 256, (i / 16) % 16) == i,
{
}

/// The place of a cell in the flat arrays, and back.
pub proof fn lemma_index_of_cell(x: int, y: int, z: int)
    requires
        in_bounds(x, y, z),
    ensures
        0 <= cell_index(x, y, z) < 65536,
        cell_index(x, y, z) % 16 == x,
        cell_index(x, y, z) / 256 == y,
        (cell_index(x, y, z) / 16) % 16 == z,
{
}

/// Setting the next cell of the box takes the blocks of the fill one cell further.
#[verifier::rlimit(40)]
proof fn lemma_filled_step_blocks(
    v: ChunkView,
    r: Region,
    block: BlockType,
    x: int,
    y: int,
    z: int,
)
    requires
        v.shaped(),
        r.contains(x, y, z),
    ensures
        v.filled(r, block, x, y, z).with_block(x, y, z, block).blocks == v.filled(
            r,
            block,
            x,
            y,
            z + 1,
        ).blocks,
        v.filled(r, block, x, y, z).block(x, y, z) == v.block(x, y, z),
        v.filled(r, block, x, y, z).blocks.len() == 65536,
{
    let a = v.filled(r, block, x, y, z);
    let b = v.filled(r, block, x, y, z + 1);
    let s = a.with_block(x, y, z, block);
    let c = cell_index(x, y, z);
    lemma_index_of_cell(x, y, z);
    assert(!r.reached(x, y, z, x, y, z));
    assert(r.reached(x, y, z + 1, x, y, z));
    assert(a.blocks[c] == v.blocks[c]);
    assert forall|i: int| 0 <= i < 65536 implies s.blocks[i] == b.blocks[i] by {
        lemma_cell_of_index(i);
        if i != c {
            assert(r.reached(x, y, z, i % 16, i / 256, (i / 16) % 16) == r.reached(
                x,
                y,
                z + 1,
                i % 16,
                i / 256,
                (i / 16) % 16,
            ));
        }
    }
    assert(s.blocks =~= b.blocks);
}

/// Setting the next cell of the box takes the light of the fill one cell further.
#[verifier::rlimit(40)]
proof fn lemma_filled_step_light(
    v: ChunkView,
    r: Region,
    block: BlockType,
    x: int,
    y: int,
    z: int,
)
    requires
        v.shaped(),
        r.contains(x, y, z),
    ensures
        v.filled(r, block, x, y, z).with_block(x, y, z, block).light == v.filled(
            r,
            block,
            x,
            y,
            z + 1,
        ).light,
{
    let a = v.filled(r, block, x, y, z);
    let b = v.filled(r, block, x, y, z + 1);
    let s = a.with_block(x, y, z, block);
    let c = cell_index(x, y, z);
    lemma_index_of_cell(x, y, z);
    lemma_filled_step_blocks(v, r, block, x, y, z);
    assert(!r.reached(x, y, z, x, y, z));
    assert(r.reached(x, y, z + 1, x, y, z));
    assert forall|yy: int|
        #![trigger a.block(x, yy, z)]
        #![trigger v.block(x, yy, z)]
        y < yy < 256 implies a.block(x, yy, z) == v.block(x, yy, z) by {
        lemma_index_of_cell(x, yy, z);
        assert(!r.reached(x, y, z, x, yy, z));
    }
    lemma_open_above_agrees(a, v, x, y, z);
    assert forall|i: int| 0 <= i < 65536 implies s.light[i] == b.light[i] by {
        lemma_cell_of_index(i);
        if i != c {
            assert(r.reached(x, y, z, i % 16, i / 256, (i / 16) % 16) == r.reached(
                x,
                y,
                z + 1,
                i % 16,
                i / 256,
                (i / 16) % 16,
            ));
        }
    }
    assert(s.light =~= b.light);
}

/// Setting the next cell of the box takes the heights of the fill one cell further.
#[verifier::rlimit(40)]
proof fn lemma_filled_step_heights(
    v: ChunkView,
    r: Region,
    block: BlockType,
    x: int,
    y: int,
    z: int,
)
    requires
        v.shaped(),
        r.contains(x, y, z),
    ensures
        v.filled(r, block, x, y, z).with_block(x, y, z, block).heights == v.filled(
            r,
            block,
            x,
            y,
            z + 1,
        ).heights,
{
    let a = v.filled(r, block, x, y, z);
    let b = v.filled(r, block, x, y, z + 1);
    let s = a.with_block(x, y, z, block);
    let c = cell_index(x, y, z);
    lemma_index_of_cell(x, y, z);
    lemma_filled_step_blocks(v, r, block, x, y, z);
    if a.block(x, y, z) != block {
        let placed = ChunkView { blocks: a.blocks.update(c, block), ..a };
        let placed_b = ChunkView { blocks: b.blocks, ..v };
        let placed_a = ChunkView { blocks: a.blocks, ..v };
        assert(placed.blocks == placed_b.blocks);
        assert forall|k: int| 0 <= k < 256 implies s.heights[k] == b.heights[k] by {
            if k == column_index(x, z) {
                lemma_top_below_same_column(placed, placed_b, x, z, 256);
            } else {
                assert forall|yy: int| 0 <= yy < 256 implies #[trigger] placed_a.block(
                    k % 16,
                    yy,
                    k / 16,
                ) == placed_b.block(k % 16, yy, k / 16) by {
                    let j = cell_index(k % 16, yy, k / 16);
                    assert(j != c);
                    assert(placed.blocks[j] == a.blocks[j]);
                }
                lemma_top_below_same_column(placed_a, placed_b, k % 16, k / 16, 256);
            }
        }
        assert(s.heights =~= b.heights);
    } else {
        assert(a.blocks =~= b.blocks);
    }
}

/// Setting the next cell of the box takes the fill one cell further.
pub proof fn lemma_filled_step(v: ChunkView, r: Region, block: BlockType, x: int, y: int, z: int)
    requires
        v.wf(),
        r.contains(x, y, z),
    ensures
        v.filled(r, block, x, y, z).with_block(x, y, z, block) == v.filled(r, block, x, y, z + 1),
{
    let a = v.filled(r, block, x, y, z);
    let b = v.filled(r, block, x, y, z + 1);
    let c = cell_index(x, y, z);
    lemma_index_of_cell(x, y, z);
    lemma_filled_step_blocks(v, r, block, x, y, z);
    lemma_filled_step_light(v, r, block, x, y, z);
    lemma_filled_step_heights(v, r, block, x, y, z);
    if a.block(x, y, z) != block {
        assert(r.reached(x, y, z + 1, x, y, z));
        assert(b.blocks[c] == block);
        assert(b.blocks[c] != v.blocks[c]);
    } else {
        assert(a.blocks == b.blocks);
    }
}

/// A chunk with the blocks and the heights of a well-formed one is well-formed.
pub proof fn lemma_wf_by_blocks(a: ChunkView, b: ChunkView)
    requires
        a.wf(),
        b.shaped(),
        b.blocks == a.blocks,
        b.heights == a.heights,
    ensures
        b.wf(),
{
    assert forall|x: int, z: int| 0 <= x < 16 && 0 <= z < 16 implies #[trigger] b.height(x, z)
        == b.column_top(x, z) by {
        assert(a.height(x, z) == a.column_top(x, z));
        lemma_top_below_same_column(a, b, x, z, 256);
    }
}

/// Whether a chunk is another in the middle of its sky pass, which has done
/// the columns before the column (x, z), row by row: these columns have their
/// sky light, and everything else is as it was.
pub open spec fn sky_passed(v: ChunkView, w: ChunkView, x: int, z: int) -> bool {
    &&& w.coordinate == v.coordinate
    &&& w.dirty == v.dirty
    &&& w.blocks == v.blocks
    &&& w.heights == v.heights
    &&& w.light.len() == 65536
    &&& forall|i: int|
        0 <= i < 65536 ==> #[trigger] w.light[i] == (if i % 16 < x || (i % 16 == x && (i / 16) % 16
            < z) {
            v.with_sky_pass().light[i]
        } else {
            v.light[i]
        })
}

/// The sky pass over one more column takes the sky pass one column further.
pub proof fn lemma_sky_passed_column(v: ChunkView, w: ChunkView, x: int, z: int)
    requires
        v.shaped(),
        0 <= x < 16,
        0 <= z < 16,
        sky_passed(v, w, x, z),
    ensures
        sky_passed(v, w.with_sky_column(x, z), x, z + 1),
        z + 1 == 16 ==> sky_passed(v, w.with_sky_column(x, z), x + 1, 0),
{
    let next = w.with_sky_column(x, z);
    assert forall|i: int| 0 <= i < 65536 implies #[trigger] next.light[i] == (if i % 16 < x || (i
        % 16 == x && (i / 16) % 16 < z + 1) {
        v.with_sky_pass().light[i]
    } else {
        v.light[i]
    }) by {
        assert(w.light[i] == (if i % 16 < x || (i % 16 == x && (i / 16) % 16 < z) {
            v.with_sky_pass().light[i]
        } else {
            v.light[i]
        }));
        if i % 16 == x && (i / 16) % 16 == z {
            lemma_sky_exposed_agrees(w, v, x, i / 256, z);
        }
    }
}

/// The sky pass keeps the cached heights right.
pub proof fn lemma_sky_pass_wf(v: ChunkView)
    requires
        v.wf(),
    ensures
        v.with_sky_pass().wf(),
{
    let w = v.with_sky_pass();
    assert forall|x: int, z: int| 0 <= x < 16 && 0 <= z < 16 implies #[trigger] w.height(x, z)
        == w.column_top(x, z) by {
        assert(v.height(x, z) == v.column_top(x, z));
        lemma_top_below_same_column(v, w, x, z, 256);
    }
}

/// A 16 x 256 x 16 section of the world.
#[derive(Debug, Clone)]
pub struct Chunk {
    /// Coordinate of this chunk.
    coordinate: ChunkCoordinate,
    /// Blocks, one per cell, at `x + 16 * (z + 16 * y)`.
    blocks: Vec<BlockType>,
    /// One more than the height of the topmost block that is not air, per
    /// column, at `x + 16 * z`.
    height_map: Vec<usize>,
    /// Whether a block has changed since the chunk was made or marked clean.
    dirty: bool,
    /// Light, one byte per cell: sky light in the high nibble, block light in
    /// the low one.
    light_levels: Vec<u8>,
}

impl View for Chunk {
    type V = ChunkView;

    closed spec fn view(&self) -> ChunkView {
        ChunkView {
            coordinate: self.coordinate,
            dirty: self.dirty,
            blocks: self.blocks@,
            heights: self.height_map@,
            light: self.light_levels@,
        }
    }
}

impl Chunk {
    /// The well-formedness of a chunk: that of its arrays.
    pub open spec fn wf(&self) -> bool {
        self@.wf()
    }

    /// Create a chunk of air under full sky light.
    pub fn new(coordinate: ChunkCoordinate) -> (c: Self)
        ensures
            c.wf(),
            c@ == fresh_chunk(coordinate),
    {
        let blocks = vec![BlockType::Air; CHUNK_VOLUME];
        let height_map = vec![0usize; CHUNK_AREA];
        let light_levels = vec![0xFFu8; CHUNK_VOLUME];
        let c = Self { coordinate, blocks, height_map, dirty: false, light_levels };
        assert forall|x: int, z: int| 0 <= x < 16 && 0 <= z < 16 implies #[trigger] c@.height(x, z)
            == c@.column_top(x, z) by {
            assert(c@.tops_at(x, z, 0));
            lemma_column_top(c@, x, z);
        }
        assert(c@.blocks =~= Seq::new(65536, |i: int| BlockType::Air));
        assert(c@.heights =~= Seq::new(256, |i: int| 0usize));
        assert(c@.light =~= Seq::new(65536, |i: int| 255u8));
        c
    }

    /// The coordinate of this chunk.
    pub fn coordinate(&self) -> (c: ChunkCoordinate)
        ensures
            c == self@.coordinate,
    {
        self.coordinate
    }

    /// Whether a block has changed since the chunk was made or marked clean.
    pub fn is_dirty(&self) -> (d: bool)
        ensures
            d == self@.dirty,
    {
        self.dirty
    }

    /// Get the block at local coordinates; air outside the chunk.
    pub fn get_block(&self, x: usize, y: usize, z: usize) -> (b: BlockType)
        requires
            self@.shaped(),
        ensures
            b == self@.block(x as int, y as int, z as int),
    {
        if x >= CHUNK_SIZE || y >= CHUNK_HEIGHT || z >= CHUNK_SIZE {
            return BlockType::Air;
        }
        self.blocks[x + 16 * (z + 16 * y)]
    }

    /// Get the cached height of the column at (x, z); 0 outside the chunk.
    pub fn get_height_at(&self, x: usize, z: usize) -> (h: usize)
        requires
            self.wf(),
        ensures
            h == self@.height(x as int, z as int),
            0 <= x < 16 && 0 <= z < 16 ==> self@.tops_at(x as int, z as int, h as int),
    {
        if x >= CHUNK_SIZE || z >= CHUNK_SIZE {
            return 0;
        }
        proof {
            assert(self@.height(x as int, z as int) == self@.column_top(x as int, z as int));
            lemma_column_top(self@, x as int, z as int);
        }
        self.height_map[x + 16 * z]
    }

    /// Recompute the cached height of one column from its blocks.
    fn update_height_at(&mut self, x: usize, z: usize)
        requires
            old(self)@.shaped(),
        ensures
            final(self)@ == (if x < 16 && z < 16 {
                ChunkView {
                    heights: old(self)@.heights.update(
                        column_index(x as int, z as int),
                        old(self)@.column_top(x as int, z as int) as usize,
                    ),
                    ..old(self)@
                }
            } else {
                old(self)@
            }),
    {
        if x >= CHUNK_SIZE || z >= CHUNK_SIZE {
            return ;
        }
        let mut height: usize = 0;
        let mut y: usize = CHUNK_HEIGHT;
        while y > 0
            invariant_except_break
                height == 0,
                forall|yy: int|
                    y <= yy < 256 ==> #[trigger] self@.block(x as int, yy, z as int)
                        == BlockType::Air,
            invariant
                0 <= y <= 256,
                x < 16,
                z < 16,
                self@ == old(self)@,
                self@.shaped(),
            ensures
                self@.tops_at(x as int, z as int, height as int),
            decreases y,
        {
            y = y - 1;
            if self.blocks[x + 16 * (z + 16 * y)] != BlockType::Air {
                height = y + 1;
                assert(self@.block(x as int, y as int, z as int) != BlockType::Air);
                break ;
            }
            assert(self@.block(x as int, y as int, z as int) == BlockType::Air);
        }
        proof {
            lemma_column_top(self@, x as int, z as int);
        }
        self.height_map[x + 16 * z] = height;
    }

    /// Set the block at local coordinates; nothing happens outside the chunk.
    pub fn set_block(&mut self, x: usize, y: usize, z: usize, block: BlockType)
        requires
            old(self).wf(),
        ensures
            final(self).wf(),
            final(self)@ == old(self)@.with_block(x as int, y as int, z as int, block),
    {
        if x >= CHUNK_SIZE || y >= CHUNK_HEIGHT || z >= CHUNK_SIZE {
            return ;
        }
        let old_block = self.blocks[x + 16 * (z + 16 * y)];
        if old_block != block {
            self.blocks[x + 16 * (z + 16 * y)] = block;
            self.dirty = true;
            let ghost placed = self@;
            self.adjust_height_at(x, y, z, Ghost(old(self)@));
            let ghost lit_before = self@;
            proof {
                lemma_top_below_same_column(placed, lit_before, x as int, z as int, 256);
                lemma_top_below(placed, x as int, z as int, 256);
            }
            self.update_lighting_at(x, y, z);
            proof {
                assert(placed.blocks == old(self)@.blocks.update(
                    cell_index(x as int, y as int, z as int),
                    block,
                ));
                lemma_open_above_agrees(lit_before, old(self)@, x as int, y as int, z as int);
                let target = ChunkView {
                    blocks: old(self)@.blocks.update(
                        cell_index(x as int, y as int, z as int),
                        block,
                    ),
                    ..old(self)@
                };
                lemma_top_below_same_column(placed, target, x as int, z as int, 256);
                lemma_with_block_wf(old(self)@, x as int, y as int, z as int, block);
            }
        }
    }

    /// Recompute the cached heights of all columns from the blocks.
    pub fn update_height_map(&mut self)
        requires
            old(self)@.shaped(),
        ensures
            final(self).wf(),
            final(self)@ == (ChunkView {
                heights: Seq::new(
                    256,
                    |c: int| old(self)@.column_top(c % 16, c / 16) as usize,
                ),
                ..old(self)@
            }),
    {
        let mut x: usize = 0;
        while x < CHUNK_SIZE
            invariant
                0 <= x <= 16,
                self@.shaped(),
                self@.blocks == old(self)@.blocks,
                self@.light == old(self)@.light,
                self@.dirty == old(self)@.dirty,
                self@.coordinate == old(self)@.coordinate,
                forall|xx: int, zz: int|
                    0 <= xx < x && 0 <= zz < 16 ==> #[trigger] self@.height(xx, zz)
                        == old(self)@.column_top(xx, zz),
            decreases 16 - x,
        {
            let mut z: usize = 0;
            while z < CHUNK_SIZE
                invariant
                    0 <= x < 16,
                    0 <= z <= 16,
                    self@.shaped(),
                    self@.blocks == old(self)@.blocks,
                    self@.light == old(self)@.light,
                    self@.dirty == old(self)@.dirty,
                    self@.coordinate == old(self)@.coordinate,
                    forall|xx: int, zz: int|
                        (0 <= xx < x && 0 <= zz < 16) || (xx == x && 0 <= zz < z)
                            ==> #[trigger] self@.height(xx, zz) == old(self)@.column_top(xx, zz),
                decreases 16 - z,
            {
                let ghost before = self@;
                self.update_height_at(x, z);
                proof {
                    assert forall|xx: int, zz: int|
                        (0 <= xx < x && 0 <= zz < 16) || (xx == x && 0 <= zz < z + 1)
                        implies #[trigger] self@.height(xx, zz) == old(self)@.column_top(
                        xx,
                        zz,
                    ) by {
                        lemma_top_below_same_column(before, old(self)@, xx, zz, 256);
                        lemma_top_below(before, xx, zz, 256);
                        if xx == x && zz == z {
                        } else {
                            assert(before.height(xx, zz) == old(self)@.column_top(xx, zz));
                        }
                    }
                }
                z = z + 1;
            }
            x = x + 1;
        }
        proof {
            let target = Seq::new(256, |c: int| old(self)@.column_top(c % 16, c / 16) as usize);
            assert forall|c: int| 0 <= c < 256 implies self@.heights[c] == target[c] by {
                assert(self@.height(c % 16, c / 16) == old(self)@.column_top(c % 16, c / 16));
                lemma_top_below(old(self)@, c % 16, c / 16, 256);
            }
            assert(self@.heights =~= target);
            assert forall|xx: int, zz: int| 0 <= xx < 16 && 0 <= zz < 16 implies #[trigger] self@.height(
                xx,
                zz,
            ) == self@.column_top(xx, zz) by {
                assert(self@.height(xx, zz) == old(self)@.column_top(xx, zz));
                lemma_top_below_same_column(self@, old(self)@, xx, zz, 256);
            }
        }
    }

    /// Get the light byte at a position; 0 outside the chunk.
    pub fn get_light_level(&self, x: usize, y: usize, z: usize) -> (light: u8)
        requires
            self@.shaped(),
        ensures
            light == self@.light_byte(x as int, y as int, z as int),
    {
        if x >= CHUNK_SIZE || y >= CHUNK_HEIGHT || z >= CHUNK_SIZE {
            return 0;
        }
        self.light_levels[x + 16 * (z + 16 * y)]
    }

    /// Set the light byte at a position; nothing happens outside the chunk.
    pub fn set_light_level(&mut self, x: usize, y: usize, z: usize, light: u8)
        requires
            old(self)@.shaped(),
        ensures
            final(self)@ == old(self)@.with_light(x as int, y as int, z as int, light),
            old(self).wf() ==> final(self).wf(),
    {
        if x >= CHUNK_SIZE || y >= CHUNK_HEIGHT || z >= CHUNK_SIZE {
            return ;
        }
        self.light_levels[x + 16 * (z + 16 * y)] = light;
        proof {
            if old(self).wf() {
                lemma_wf_by_blocks(old(self)@, self@);
            }
        }
    }

    /// Get the sky light at a position, from 0 to 15.
    pub fn get_sky_light(&self, x: usize, y: usize, z: usize) -> (level: u8)
        requires
            self@.shaped(),
        ensures
            level == self@.sky(x as int, y as int, z as int),
            level <= 15,
    {
        let light = self.get_light_level(x, y, z);
        assert((light >> 4) & 0x0F == light / 16) by (bit_vector);
        (light >> 4) & 0x0F
    }

    /// Get the block light at a position, from 0 to 15.
    pub fn get_block_light(&self, x: usize, y: usize, z: usize) -> (level: u8)
        requires
            self@.shaped(),
        ensures
            level == self@.glow(x as int, y as int, z as int),
            level <= 15,
    {
        let light = self.get_light_level(x, y, z);
        assert(light & 0x0F == light % 16) by (bit_vector);
        light & 0x0F
    }

    /// Set the sky light at a position to the low four bits of `light`.
    pub fn set_sky_light(&mut self, x: usize, y: usize, z: usize, light: u8)
        requires
            old(self)@.shaped(),
        ensures
            final(self)@ == old(self)@.with_sky(x as int, y as int, z as int, light),
            old(self).wf() ==> final(self).wf(),
    {
        let current = self.get_light_level(x, y, z);
        assert(((current & 0x0F) | ((light & 0x0F) << 4)) == 16 * (light % 16) + current % 16)
            by (bit_vector);
        let new_light = (current & 0x0F) | ((light & 0x0F) << 4);
        self.set_light_level(x, y, z, new_light);
    }

    /// Set the block light at a position to the low four bits of `light`.
    pub fn set_block_light(&mut self, x: usize, y: usize, z: usize, light: u8)
        requires
            old(self)@.shaped(),
        ensures
            final(self)@ == old(self)@.with_glow(x as int, y as int, z as int, light),
            old(self).wf() ==> final(self).wf(),
    {
        let current = self.get_light_level(x, y, z);
        assert(((current & 0xF0) | (light & 0x0F)) == 16 * (current / 16) + light % 16)
            by (bit_vector);
        let new_light = (current & 0xF0) | (light & 0x0F);
        self.set_light_level(x, y, z, new_light);
    }

    /// Bring the cached height of a column up to date after the block at
    /// height `y` changed: a block that is not air may raise the height, and
    /// air in place of the topmost block lowers it to the next block below.
    fn adjust_height_at(&mut self, x: usize, y: usize, z: usize, Ghost(before): Ghost<ChunkView>)
        requires
            in_bounds(x as int, y as int, z as int),
            before.wf(),
            old(self)@.shaped(),
            old(self)@.heights == before.heights,
            old(self)@.blocks == before.blocks.update(
                cell_index(x as int, y as int, z as int),
                old(self)@.block(x as int, y as int, z as int),
            ),
            old(self)@.block(x as int, y as int, z as int) != before.block(
                x as int,
                y as int,
                z as int,
            ),
        ensures
            final(self)@ == (ChunkView {
                heights: old(self)@.heights.update(
                    column_index(x as int, z as int),
                    old(self)@.column_top(x as int, z as int) as usize,
                ),
                ..old(self)@
            }),
    {
        let column = x + 16 * z;
        let old_height = self.height_map[column];
        let block = self.blocks[x + 16 * (z + 16 * y)];
        proof {
            assert(before.height(x as int, z as int) == before.column_top(x as int, z as int));
            lemma_column_top(before, x as int, z as int);
            lemma_column_top(self@, x as int, z as int);
            assert forall|yy: int| 0 <= yy < 256 && yy != y implies #[trigger] self@.block(
                x as int,
                yy,
                z as int,
            ) == before.block(x as int, yy, z as int) by {}
        }
        let mut height: usize = old_height;
        if block != BlockType::Air {
            if y + 1 > old_height {
                height = y + 1;
            }
            proof {
                assert(self@.block(x as int, height - 1, z as int) != BlockType::Air);
                assert forall|yy: int| height <= yy < 256 implies #[trigger] self@.block(
                    x as int,
                    yy,
                    z as int,
                ) == BlockType::Air by {
                    assert(before.block(x as int, yy, z as int) == BlockType::Air);
                }
                assert(self@.tops_at(x as int, z as int, height as int));
            }
        } else {
            proof {
                if old_height <= y {
                    assert(before.block(x as int, y as int, z as int) == BlockType::Air);
                }
            }
            if y + 1 == old_height {
                height = y;
                while height > 0 && self.blocks[x + 16 * (z + 16 * (height - 1))] == BlockType::Air
                    invariant
                        0 <= height <= y < 256,
                        x < 16,
                        z < 16,
                        self@ == old(self)@,
                        self@.shaped(),
                        forall|yy: int|
                            height <= yy < 256 ==> #[trigger] self@.block(x as int, yy, z as int)
                                == BlockType::Air,
                    decreases height,
                {
                    assert(self@.block(x as int, height - 1, z as int) == BlockType::Air);
                    height = height - 1;
                }
                proof {
                    if height > 0 {
                        assert(self@.block(x as int, height - 1, z as int) != BlockType::Air);
                    }
                    assert(self@.tops_at(x as int, z as int, height as int));
                }
            } else {
                proof {
                    assert(self@.block(x as int, old_height - 1, z as int) == before.block(
                        x as int,
                        old_height - 1,
                        z as int,
                    ));
                    assert forall|yy: int| old_height <= yy < 256 implies #[trigger] self@.block(
                        x as int,
                        yy,
                        z as int,
                    ) == BlockType::Air by {
                        assert(before.block(x as int, yy, z as int) == BlockType::Air);
                    }
                    assert(self@.tops_at(x as int, z as int, height as int));
                }
            }
        }
        self.height_map[column] = height;
    }

    /// Reset the light of one cell after its block changed: full sky light
    /// where only air lies above it, none otherwise, and no block light.
    fn update_lighting_at(&mut self, x: usize, y: usize, z: usize)
        requires
            old(self)@.shaped(),
            in_bounds(x as int, y as int, z as int),
            old(self)@.height(x as int, z as int) == old(self)@.column_top(x as int, z as int),
        ensures
            final(self)@ == old(self)@.with_light(
                x as int,
                y as int,
                z as int,
                if old(self)@.open_above(x as int, y as int, z as int) {
                    240u8
                } else {
                    0u8
                },
            ),
    {
        proof {
            lemma_column_top(self@, x as int, z as int);
            let top = self@.column_top(x as int, z as int);
            if top <= y + 1 {
                assert forall|yy: int| y < yy < 256 implies #[trigger] self@.block(
                    x as int,
                    yy,
                    z as int,
                ) == BlockType::Air by {}
            } else {
                assert(self@.block(x as int, top - 1, z as int) != BlockType::Air);
            }
        }
        let sky_light: u8 = if self.height_map[x + 16 * z] <= y + 1 {
            15
        } else {
            0
        };
        self.set_sky_light(x, y, z, sky_light);
        self.set_block_light(x, y, z, 0);
        assert(self@.light =~= old(self)@.with_light(
            x as int,
            y as int,
            z as int,
            if old(self)@.open_above(x as int, y as int, z as int) {
                240u8
            } else {
                0u8
            },
        ).light);
    }

    /// Compute the sky light of one column from the top down.
    #[verifier::rlimit(40)]
    pub(crate) fn calculate_column_lighting(&mut self, x: usize, z: usize)
        requires
            old(self)@.shaped(),
        ensures
            final(self)@ == old(self)@.with_sky_column(x as int, z as int),
            final(self)@.shaped(),
    {
        if x >= 16 || z >= 16 {
            return ;
        }
        let mut sky_light: u8 = 15;
        let mut y: usize = 256;
        while y > 0
            invariant
                0 <= x < 16,
                0 <= z < 16,
                0 <= y <= 256,
                self@.shaped(),
                self@.blocks == old(self)@.blocks,
                self@.heights == old(self)@.heights,
                self@.dirty == old(self)@.dirty,
                self@.coordinate == old(self)@.coordinate,
                sky_light == old(self)@.sky_level(x as int, y as int, z as int),
                forall|i: int|
                    0 <= i < 65536 ==> #[trigger] self@.light[i] == (if i % 16 == x && (i / 16)
                        % 16 == z && i / 256 >= y {
                        old(self)@.with_sky_column(x as int, z as int).light[i]
                    } else {
                        old(self)@.light[i]
                    }),
            decreases y,
        {
            y = y - 1;
            let block = self.blocks[x + 16 * (z + 16 * y)];
            if !block.is_transparent() {
                sky_light = 0;
            }
            proof {
                lemma_sky_level_step(old(self)@, x as int, y as int, z as int);
                lemma_index_of_cell(x as int, y as int, z as int);
            }
            self.set_sky_light(x, y, z, sky_light);
        }
        assert(self@.light =~= old(self)@.with_sky_column(x as int, z as int).light);
    }

    /// Compute the sky light of the whole chunk, column by column from the
    /// top down: 15 down to the first block that is not transparent, 0 from
    /// there on. Block light stays as it is.
    pub fn calculate_lighting(&mut self)
        requires
            old(self)@.shaped(),
        ensures
            final(self)@ == old(self)@.with_sky_pass(),
            old(self).wf() ==> final(self).wf(),
    {
        proof {
            if self.wf() {
                lemma_sky_pass_wf(self@);
            }
        }
        let mut x: usize = 0;
        while x < CHUNK_SIZE
            invariant
                0 <= x <= 16,
                old(self)@.shaped(),
                self@.shaped(),
                sky_passed(old(self)@, self@, x as int, 0),
            decreases 16 - x,
        {
            let mut z: usize = 0;
            while z < CHUNK_SIZE
                invariant
                    0 <= x < 16,
                    0 <= z <= 16,
                    old(self)@.shaped(),
                    self@.shaped(),
                    sky_passed(old(self)@, self@, x as int, z as int),
                decreases 16 - z,
            {
                proof {
                    lemma_sky_passed_column(old(self)@, self@, x as int, z as int);
                }
                self.calculate_column_lighting(x, z);
                z = z + 1;
            }
            x = x + 1;
        }
        assert(self@.light =~= old(self)@.with_sky_pass().light);
    }

    /// Check if the chunk is empty: every cell is air.
    pub fn is_empty(&self) -> (r: bool)
        requires
            self.wf(),
        ensures
            r == self@.all_air(),
    {
        let mut x: usize = 0;
        while x < CHUNK_SIZE
            invariant
                0 <= x <= 16,
                self.wf(),
                forall|xx: int, zz: int|
                    0 <= xx < x && 0 <= zz < 16 ==> #[trigger] self@.height(xx, zz) == 0,
            decreases 16 - x,
        {
            let mut z: usize = 0;
            while z < CHUNK_SIZE
                invariant
                    0 <= x < 16,
                    0 <= z <= 16,
                    self.wf(),
                    forall|xx: int, zz: int|
                        (0 <= xx < x && 0 <= zz < 16) || (xx == x && 0 <= zz < z)
                            ==> #[trigger] self@.height(xx, zz) == 0,
                decreases 16 - z,
            {
                if self.height_map[x + 16 * z] > 0 {
                    proof {
                        let h = self@.height(x as int, z as int);
                        assert(h == self@.column_top(x as int, z as int));
                        lemma_column_top(self@, x as int, z as int);
                        assert(self@.block(x as int, h - 1, z as int) != BlockType::Air);
                    }
                    return false;
                }
                assert(self@.height(x as int, z as int) == 0);
                z = z + 1;
            }
            x = x + 1;
        }
        proof {
            assert forall|xx: int, yy: int, zz: int| in_bounds(xx, yy, zz) implies (
            #[trigger] self@.block(xx, yy, zz)) == BlockType::Air by {
                assert(self@.height(xx, zz) == 0);
                assert(self@.height(xx, zz) == self@.column_top(xx, zz));
                lemma_column_top(self@, xx, zz);
            }
        }
        true
    }

    /// Get the number of blocks in this chunk that are not air.
    pub fn block_count(&self) -> (n: usize)
        requires
            self@.shaped(),
        ensures
            n == self@.solid_count(65536),
    {
        let mut count: usize = 0;
        let mut i: usize = 0;
        while i < CHUNK_VOLUME
            invariant
                0 <= i <= 65536,
                self@.shaped(),
                count == self@.solid_count(i as int),
                count <= i,
            decreases 65536 - i,
        {
            if self.blocks[i] != BlockType::Air {
                count = count + 1;
            }
            i = i + 1;
        }
        count
    }

    /// Fill a box of cells with one block, as by `set_block` on each cell of
    /// the box that lies in the chunk, in the order x, then y, then z.
    #[verifier::rlimit(40)]
    pub fn fill_region(
        &mut self,
        start_x: usize,
        start_y: usize,
        start_z: usize,
        end_x: usize,
        end_y: usize,
        end_z: usize,
        block: BlockType,
    )
        requires
            old(self).wf(),
        ensures
            final(self).wf(),
            final(self)@ == old(self)@.with_region(
                Region {
                    start_x: start_x as int,
                    start_y: start_y as int,
                    start_z: start_z as int,
                    end_x: end_x as int,
                    end_y: end_y as int,
                    end_z: end_z as int,
                },
                block,
            ),
    {
        let ghost r = Region {
            start_x: start_x as int,
            start_y: start_y as int,
            start_z: start_z as int,
            end_x: end_x as int,
            end_y: end_y as int,
            end_z: end_z as int,
        };
        let end_x = if end_x < CHUNK_SIZE {
            end_x
        } else {
            CHUNK_SIZE
        };
        let end_y = if end_y < CHUNK_HEIGHT {
            end_y
        } else {
            CHUNK_HEIGHT
        };
        let end_z = if end_z < CHUNK_SIZE {
            end_z
        } else {
            CHUNK_SIZE
        };
        proof {
            lemma_filled_none(old(self)@, r, block, (start_x as int, start_y as int, start_z as int));
        }
        let mut x: usize = start_x;
        while x < end_x
            invariant
                start_x <= x,
                end_x <= 16,
                end_y <= 256,
                end_z <= 16,
                end_x == (if r.end_x < 16 { r.end_x } else { 16 }),
                end_y == (if r.end_y < 256 { r.end_y } else { 256 }),
                end_z == (if r.end_z < 16 { r.end_z } else { 16 }),
                r.start_x == start_x,
                r.start_y == start_y,
                r.start_z == start_z,
                old(self).wf(),
                self.wf(),
                self@ == old(self)@.filled(r, block, x as int, start_y as int, start_z as int),
            decreases end_x - x,
        {
            let mut y: usize = start_y;
            while y < end_y
                invariant
                    start_x <= x < end_x,
                    start_y <= y,
                    end_x <= 16,
                    end_y <= 256,
                    end_z <= 16,
                    end_x == (if r.end_x < 16 { r.end_x } else { 16 }),
                    end_y == (if r.end_y < 256 { r.end_y } else { 256 }),
                    end_z == (if r.end_z < 16 { r.end_z } else { 16 }),
                    r.start_x == start_x,
                    r.start_y == start_y,
                    r.start_z == start_z,
                    old(self).wf(),
                    self.wf(),
                    self@ == old(self)@.filled(r, block, x as int, y as int, start_z as int),
                decreases end_y - y,
            {
                let mut z: usize = start_z;
                while z < end_z
                    invariant
                        start_x <= x < end_x,
                        start_y <= y < end_y,
                        start_z <= z,
                        end_x <= 16,
                        end_y <= 256,
                        end_z <= 16,
                        end_x == (if r.end_x < 16 { r.end_x } else { 16 }),
                        end_y == (if r.end_y < 256 { r.end_y } else { 256 }),
                        end_z == (if r.end_z < 16 { r.end_z } else { 16 }),
                        r.start_x == start_x,
                        r.start_y == start_y,
                        r.start_z == start_z,
                        old(self).wf(),
                        self.wf(),
                        self@ == old(self)@.filled(r, block, x as int, y as int, z as int),
                    decreases end_z - z,
                {
                    proof {
                        lemma_filled_step(old(self)@, r, block, x as int, y as int, z as int);
                    }
                    self.set_block(x, y, z, block);
                    z = z + 1;
                }
                proof {
                    lemma_filled_congruent(
                        old(self)@,
                        r,
                        block,
                        (x as int, y as int, z as int),
                        (x as int, y + 1, start_z as int),
                    );
                }
                y = y + 1;
            }
            proof {
                lemma_filled_congruent(
                    old(self)@,
                    r,
                    block,
                    (x as int, y as int, start_z as int),
                    (x + 1, start_y as int, start_z as int),
                );
            }
            x = x + 1;
        }
        proof {
            lemma_filled_congruent(
                old(self)@,
                r,
                block,
                (x as int, start_y as int, start_z as int),
                (16, 0, 0),
            );
        }
    }

    /// Mark the chunk as changed.
    pub fn mark_dirty(&mut self)
        ensures
            final(self)@ == (ChunkView { dirty: true, ..old(self)@ }),
            old(self).wf() ==> final(self).wf(),
    {
        self.dirty = true;
        proof {
            if old(self).wf() {
                lemma_wf_by_blocks(old(self)@, self@);
            }
        }
    }

    /// Mark the chunk as unchanged.
    pub fn mark_clean(&mut self)
        ensures
            final(self)@ == (ChunkView { dirty: false, ..old(self)@ }),
            old(self).wf() ==> final(self).wf(),
    {
        self.dirty = false;
        proof {
            if old(self).wf() {
                lemma_wf_by_blocks(old(self)@, self@);
            }
        }
    }
}

} // verus!
