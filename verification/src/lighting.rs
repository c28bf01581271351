//! The lighting engine: sky light from the top of each column, light from
//! emitting blocks, and breadth-first relaxation of block light through
//! transparent cells.

use vstd::prelude::*;
use std::collections::VecDeque;
use crate::chunk::{
    Chunk, ChunkView, cell_index, glow_of, in_bounds, lemma_sky_level_step,
    lemma_sky_passed_column, lemma_wf_by_blocks, sky_of, sky_passed,
};

verus! {

/// A cell that holds light which may still spread to its neighbours.
#[derive(Debug, Clone, Copy)]
pub struct LightNode {
    pub x: usize,
    pub y: usize,
    pub z: usize,
    pub light_level: u8,
}

/// Whether every node of a queue holds a light level that a nibble can hold.
pub open spec fn queue_ok(q: Seq<LightNode>) -> bool {
    forall|i: int| 0 <= i < q.len() ==> (#[trigger] q[i]).light_level <= 15
}

/// The sum of what the block light of the first `n` cells lacks to 15.
pub open spec fn dark_sum(light: Seq<u8>, n: int) -> int
    decreases n,
{
    if n <= 0 {
        0
    } else {
        dark_sum(light, n - 1) + (15 - glow_of(light[n - 1]))
    }
}

/// The sum of what the block light of the cells of a chunk lacks to 15.
pub open spec fn darkness(v: ChunkView) -> int {
    dark_sum(v.light, 65536)
}

/// Light of one level arrives at a cell. Where the cell lies in the chunk, is
/// transparent and holds less block light, it takes the level and joins the
/// queue; else nothing changes.
pub open spec fn spread_into(s: (ChunkView, Seq<LightNode>), x: int, y: int, z: int, level: u8) -> (
    ChunkView,
    Seq<LightNode>,
) {
    if in_bounds(x, y, z) && s.0.block(x, y, z).transparent() && level > s.0.glow(x, y, z) {
        (
            s.0.with_glow(x, y, z, level),
            s.1.push(LightNode { x: x as usize, y: y as usize, z: z as usize, light_level: level }),
        )
    } else {
        s
    }
}

/// The light of one node spreads: a node of level 1 or less is dropped; else
/// light one level lower arrives at its six neighbours, in the order east,
/// west, up, down, north, south.
pub open spec fn spread_from(v: ChunkView, q: Seq<LightNode>, node: LightNode) -> (
    ChunkView,
    Seq<LightNode>,
) {
    if node.light_level <= 1 {
        (v, q)
    } else {
        let level = (node.light_level - 1) as u8;
        let (x, y, z) = (node.x as int, node.y as int, node.z as int);
        let s = spread_into((v, q), x + 1, y, z, level);
        let s = spread_into(s, x - 1, y, z, level);
        let s = spread_into(s, x, y + 1, z, level);
        let s = spread_into(s, x, y - 1, z, level);
        let s = spread_into(s, x, y, z + 1, level);
        spread_into(s, x, y, z - 1, level)
    }
}

/// The chunk after relaxation: the nodes of the queue spread their light one
/// after the other, first in first out, until the queue is empty.
pub open spec fn relaxed(v: ChunkView, q: Seq<LightNode>) -> ChunkView
    decreases darkness(v), q.len(),
    when v.shaped() && queue_ok(q)
{
    if q.len() == 0 {
        v
    } else {
        let s = spread_from(v, q.subrange(1, q.len() as int), q[0]);
        proof {
            lemma_queue_rest(q);
            lemma_spread_from(v, q.subrange(1, q.len() as int), q[0]);
            lemma_dark_sum_bounds(v.light, 65536);
            lemma_dark_sum_bounds(s.0.light, 65536);
        }
        relaxed(s.0, s.1)
    }
}

/// The node that stands for a cell with a light level.
pub open spec fn node_at(x: int, y: int, z: int, level: u8) -> LightNode {
    LightNode { x: x as usize, y: y as usize, z: z as usize, light_level: level }
}

/// The queue after the cells of one column below height `y` that are exposed
/// to the sky have joined it with level 15, from the top down.
pub open spec fn sky_nodes_column(v: ChunkView, q: Seq<LightNode>, x: int, z: int, y: int) -> Seq<
    LightNode,
>
    decreases y,
{
    if y <= 0 {
        q
    } else {
        sky_nodes_column(
            v,
            if v.sky_exposed(x, y - 1, z) {
                q.push(node_at(x, y - 1, z, 15))
            } else {
                q
            },
            x,
            z,
            y - 1,
        )
    }
}

/// The queue after the exposed cells of the columns `z..16` of one row have
/// joined it, column by column.
pub open spec fn sky_nodes_row(v: ChunkView, q: Seq<LightNode>, x: int, z: int) -> Seq<LightNode>
    decreases 16 - z,
{
    if z >= 16 {
        q
    } else {
        sky_nodes_row(v, sky_nodes_column(v, q, x, z, 256), x, z + 1)
    }
}

/// The queue after the exposed cells of the rows `x..16` have joined it, row
/// by row.
pub open spec fn sky_nodes(v: ChunkView, q: Seq<LightNode>, x: int) -> Seq<LightNode>
    decreases 16 - x,
{
    if x >= 16 {
        q
    } else {
        sky_nodes(v, sky_nodes_row(v, q, x, 0), x + 1)
    }
}

/// A box of cells, both corners included.
pub struct LightBox {
    pub start_x: int,
    pub end_x: int,
    pub start_y: int,
    pub end_y: int,
    pub start_z: int,
    pub end_z: int,
}

/// The whole chunk as a box.
pub open spec fn whole_chunk() -> LightBox {
    LightBox { start_x: 0, end_x: 15, start_y: 0, end_y: 255, start_z: 0, end_z: 15 }
}

/// The cube of cells of the chunk within `radius` of a cell along each axis.
pub open spec fn area_around(x: int, y: int, z: int, radius: int) -> LightBox {
    LightBox {
        start_x: if x >= radius { x - radius } else { 0 },
        end_x: if x + radius <= 15 { x + radius } else { 15 },
        start_y: if y >= radius { y - radius } else { 0 },
        end_y: if y + radius <= 255 { y + radius } else { 255 },
        start_z: if z >= radius { z - radius } else { 0 },
        end_z: if z + radius <= 15 { z + radius } else { 15 },
    }
}

/// One cell is seeded with the light its block emits: a cell that emits takes
/// that level as its block light and joins the queue; one that does not
/// loses its block light where `reset` is set, and is left alone otherwise.
pub open spec fn seed_cell(s: (ChunkView, Seq<LightNode>), x: int, y: int, z: int, reset: bool) -> (
    ChunkView,
    Seq<LightNode>,
) {
    let level = s.0.block(x, y, z).emitted_light();
    if level > 0 {
        (s.0.with_glow(x, y, z, level), s.1.push(node_at(x, y, z, level)))
    } else if reset {
        (s.0.with_glow(x, y, z, 0), s.1)
    } else {
        s
    }
}

/// The cells `z..=b.end_z` of one line of a box are seeded.
pub open spec fn seed_line(
    s: (ChunkView, Seq<LightNode>),
    b: LightBox,
    x: int,
    y: int,
    z: int,
    reset: bool,
) -> (ChunkView, Seq<LightNode>)
    decreases b.end_z + 1 - z,
{
    if z > b.end_z {
        s
    } else {
        seed_line(seed_cell(s, x, y, z, reset), b, x, y, z + 1, reset)
    }
}

/// The lines `y..=b.end_y` of one slab of a box are seeded.
pub open spec fn seed_slab(
    s: (ChunkView, Seq<LightNode>),
    b: LightBox,
    x: int,
    y: int,
    reset: bool,
) -> (ChunkView, Seq<LightNode>)
    decreases b.end_y + 1 - y,
{
    if y > b.end_y {
        s
    } else {
        seed_slab(seed_line(s, b, x, y, b.start_z, reset), b, x, y + 1, reset)
    }
}

/// The slabs `x..=b.end_x` of a box are seeded.
pub open spec fn seed_slabs(s: (ChunkView, Seq<LightNode>), b: LightBox, x: int, reset: bool) -> (
    ChunkView,
    Seq<LightNode>,
)
    decreases b.end_x + 1 - x,
{
    if x > b.end_x {
        s
    } else {
        seed_slabs(seed_slab(s, b, x, b.start_y, reset), b, x + 1, reset)
    }
}

/// The cells of a box are seeded with the light their blocks emit, in the
/// order x, then y, then z.
pub open spec fn seed_box(s: (ChunkView, Seq<LightNode>), b: LightBox, reset: bool) -> (
    ChunkView,
    Seq<LightNode>,
) {
    seed_slabs(s, b, b.start_x, reset)
}

/// The larger of two levels.
pub open spec fn brighter(a: int, b: int) -> int {
    if a >= b {
        a
    } else {
        b
    }
}

/// The brightest block light among the six neighbours of a cell.
pub open spec fn neighbor_glow(v: ChunkView, x: int, y: int, z: int) -> int {
    brighter(
        brighter(
            brighter(v.glow(x + 1, y, z), v.glow(x - 1, y, z)),
            brighter(v.glow(x, y + 1, z), v.glow(x, y - 1, z)),
        ),
        brighter(v.glow(x, y, z + 1), v.glow(x, y, z - 1)),
    )
}

/// The chunk after full lighting: the sky pass, then every emitting block
/// seeded, then relaxation from all exposed and all emitting cells.
pub open spec fn lit(v: ChunkView) -> ChunkView {
    let s = seed_box((v.with_sky_pass(), sky_nodes(v, Seq::empty(), 0)), whole_chunk(), false);
    relaxed(s.0, s.1)
}

/// The chunk after the light around a cell is computed anew: the cells within
/// `radius` are seeded, losing the block light they do not emit, and the
/// light relaxes from the emitting ones.
pub open spec fn relit_around(v: ChunkView, x: int, y: int, z: int, radius: int) -> ChunkView {
    let s = seed_box((v, Seq::empty()), area_around(x, y, z, radius), true);
    relaxed(s.0, s.1)
}

/// The chunk after a block was placed at a cell: the cell loses its light,
/// and the light around it is computed anew within a radius of the block
/// light the cell held.
pub open spec fn after_block_added(v: ChunkView, x: int, y: int, z: int) -> ChunkView {
    relit_around(v.with_sky(x, y, z, 0).with_glow(x, y, z, 0), x, y, z, v.glow(x, y, z))
}

/// Light arrives at a cell from its brightest neighbour, one level lower, and
/// relaxes from there; nothing happens where no neighbour holds more than
/// level 1.
pub open spec fn pulled_into(v: ChunkView, x: int, y: int, z: int) -> ChunkView {
    let level = neighbor_glow(v, x, y, z);
    if level > 1 {
        relaxed(
            v.with_glow(x, y, z, (level - 1) as u8),
            seq![node_at(x, y, z, (level - 1) as u8)],
        )
    } else {
        v
    }
}

/// The chunk after a block was removed at a cell: where the block now there
/// emits light, the light around it is computed anew within a radius of that
/// level; then the sky light of the column is computed anew; then light
/// arrives from the brightest neighbour.
pub open spec fn after_block_removed(v: ChunkView, x: int, y: int, z: int) -> ChunkView {
    let level = v.block(x, y, z).emitted_light();
    let a = if level > 0 {
        relit_around(v, x, y, z, level as int)
    } else {
        v
    };
    pulled_into(a.with_sky_column(x, z), x, y, z)
}

/// Among the first `k` cells of the 3 x 3 x 3 cube around a cell, in the
/// order x, then y, then z: how many lie in the chunk and are not
/// transparent, and how many lie in the chunk.
pub open spec fn occlusion_upto(v: ChunkView, x: int, y: int, z: int, k: int) -> (int, int)
    decreases k,
{
    if k <= 0 {
        (0, 0)
    } else {
        let before = occlusion_upto(v, x, y, z, k - 1);
        let j = k - 1;
        let (cx, cy, cz) = (x + j / 9 - 1, y + (j / 3) % 3 - 1, z + j % 3 - 1);
        if in_bounds(cx, cy, cz) {
            (
                before.0 + if v.block(cx, cy, cz).transparent() {
                    0int
                } else {
                    1int
                },
                before.1 + 1,
            )
        } else {
            before
        }
    }
}

/// No sum of missing block light is negative.
pub proof fn lemma_dark_sum_bounds(light: Seq<u8>, n: int)
    ensures
        0 <= dark_sum(light, n),
    decreases n,
{
    if n > 0 {
        lemma_dark_sum_bounds(light, n - 1);
    }
}

/// What is left of a queue of sound nodes when its first node leaves is a
/// queue of sound nodes, and that first node is sound.
pub proof fn lemma_queue_rest(q: Seq<LightNode>)
    requires
        queue_ok(q),
        q.len() > 0,
    ensures
        queue_ok(q.subrange(1, q.len() as int)),
        q[0].light_level <= 15,
{
    let rest = q.subrange(1, q.len() as int);
    assert forall|i: int| 0 <= i < rest.len() implies (#[trigger] rest[i]).light_level <= 15 by {
        assert(rest[i] == q[i + 1]);
    }
}

/// A queue of sound nodes that a sound node joins is a queue of sound nodes.
pub proof fn lemma_queue_push(q: Seq<LightNode>, node: LightNode)
    requires
        queue_ok(q),
        node.light_level <= 15,
    ensures
        queue_ok(q.push(node)),
{
    let p = q.push(node);
    assert forall|i: int| 0 <= i < p.len() implies (#[trigger] p[i]).light_level <= 15 by {
        if i < q.len() {
            assert(p[i] == q[i]);
        }
    }
}

/// Relaxation keeps the shape of the arrays, the blocks, the heights and the
/// sky light, and lowers no block light.
pub proof fn lemma_relaxed_keeps(v: ChunkView, q: Seq<LightNode>)
    requires
        v.shaped(),
        queue_ok(q),
    ensures
        relaxed(v, q).shaped(),
        relaxed(v, q).blocks == v.blocks,
        relaxed(v, q).heights == v.heights,
        relaxed(v, q).coordinate == v.coordinate,
        relaxed(v, q).dirty == v.dirty,
        forall|i: int|
            0 <= i < 65536 ==> sky_of(#[trigger] relaxed(v, q).light[i]) == sky_of(v.light[i])
                && glow_of(relaxed(v, q).light[i]) >= glow_of(v.light[i]),
    decreases darkness(v), q.len(),
{
    if q.len() > 0 {
        let rest = q.subrange(1, q.len() as int);
        let s = spread_from(v, rest, q[0]);
        lemma_queue_rest(q);
        lemma_spread_from(v, rest, q[0]);
        lemma_dark_sum_bounds(v.light, 65536);
        lemma_dark_sum_bounds(s.0.light, 65536);
        lemma_relaxed_keeps(s.0, s.1);
        assert forall|i: int| 0 <= i < 65536 implies sky_of(#[trigger] relaxed(v, q).light[i])
            == sky_of(v.light[i]) && glow_of(relaxed(v, q).light[i]) >= glow_of(v.light[i]) by {
            assert(sky_of(relaxed(s.0, s.1).light[i]) == sky_of(s.0.light[i]));
            assert(sky_of(s.0.light[i]) == sky_of(v.light[i]));
        }
    }
}

/// Whether light that a cell holds has reached a neighbour of it: a
/// neighbour that lies in the chunk and is transparent holds at most one
/// level less.
pub open spec fn reaches(v: ChunkView, x: int, y: int, z: int, nx: int, ny: int, nz: int) -> bool {
    in_bounds(nx, ny, nz) && v.block(nx, ny, nz).transparent() ==> v.glow(nx, ny, nz) >= v.glow(
        x,
        y,
        z,
    ) - 1
}

/// Whether the light of a cell has reached its six neighbours.
pub open spec fn settled(v: ChunkView, x: int, y: int, z: int) -> bool {
    &&& reaches(v, x, y, z, x + 1, y, z)
    &&& reaches(v, x, y, z, x - 1, y, z)
    &&& reaches(v, x, y, z, x, y + 1, z)
    &&& reaches(v, x, y, z, x, y - 1, z)
    &&& reaches(v, x, y, z, x, y, z + 1)
    &&& reaches(v, x, y, z, x, y, z - 1)
}

/// Whether the queue holds a node for a cell with at least a given level.
pub open spec fn announced(q: Seq<LightNode>, x: int, y: int, z: int, level: int) -> bool {
    exists|i: int|
        0 <= i < q.len() && (#[trigger] q[i]).x == x && q[i].y == y && q[i].z == z
            && q[i].light_level >= level
}

/// Whether the light of a cell has reached its neighbours or waits in the
/// queue to spread.
pub open spec fn reached_or_waiting(v: ChunkView, q: Seq<LightNode>, x: int, y: int, z: int) -> bool {
    settled(v, x, y, z) || announced(q, x, y, z, v.glow(x, y, z))
}

/// Whether all light of a chunk has reached the neighbours of its cell or
/// waits in the queue to spread.
pub open spec fn all_reached_or_waiting(v: ChunkView, q: Seq<LightNode>) -> bool {
    forall|x: int, y: int, z: int|
        in_bounds(x, y, z) ==> #[trigger] reached_or_waiting(v, q, x, y, z)
}

/// What light that arrives at one cell does to any cell: the block light of
/// the cell does not fall; where it changes, the cell is the one the light
/// arrived at, holds that level, and waits in the queue with it; a
/// transparent cell at which the light arrived holds at least that level;
/// and what waited in the queue still waits.
pub proof fn lemma_spread_into_cell(
    s: (ChunkView, Seq<LightNode>),
    x: int,
    y: int,
    z: int,
    level: u8,
    cx: int,
    cy: int,
    cz: int,
    waiting: int,
)
    requires
        s.0.shaped(),
        level <= 15,
        in_bounds(cx, cy, cz),
    ensures
        spread_into(s, x, y, z, level).0.shaped(),
        spread_into(s, x, y, z, level).0.blocks == s.0.blocks,
        spread_into(s, x, y, z, level).0.glow(cx, cy, cz) >= s.0.glow(cx, cy, cz),
        spread_into(s, x, y, z, level).0.glow(cx, cy, cz) != s.0.glow(cx, cy, cz) ==> (cx, cy, cz)
            == (x, y, z) && spread_into(s, x, y, z, level).0.glow(cx, cy, cz) == level && announced(
            spread_into(s, x, y, z, level).1,
            cx,
            cy,
            cz,
            level as int,
        ),
        (cx, cy, cz) == (x, y, z) && s.0.block(x, y, z).transparent() ==> spread_into(
            s,
            x,
            y,
            z,
            level,
        ).0.glow(cx, cy, cz) >= level,
        announced(s.1, cx, cy, cz, waiting) ==> announced(
            spread_into(s, x, y, z, level).1,
            cx,
            cy,
            cz,
            waiting,
        ),
{
    let t = spread_into(s, x, y, z, level);
    if t != s {
        let i = cell_index(x, y, z);
        let byte = (16 * s.0.sky(x, y, z) + level % 16) as u8;
        assert(t.0.light == s.0.light.update(i, byte));
        assert(glow_of(byte) == level);
        if (cx, cy, cz) == (x, y, z) {
            assert(t.1[s.1.len() as int] == node_at(x, y, z, level));
        } else {
            crate::chunk::lemma_index_of_cell(x, y, z);
            crate::chunk::lemma_index_of_cell(cx, cy, cz);
            assert(cell_index(cx, cy, cz) != i);
        }
        if announced(s.1, cx, cy, cz, waiting) {
            let k = choose|k: int|
                0 <= k < s.1.len() && (#[trigger] s.1[k]).x == cx && s.1[k].y == cy && s.1[k].z
                    == cz && s.1[k].light_level >= waiting;
            assert(t.1[k] == s.1[k]);
        }
    }
}

/// What the light of one node, as it spreads, does to any cell: the block
/// light of the cell does not fall; where it changes, the cell waits in the
/// queue with its new level; a transparent neighbour of a node of level 2 or
/// more holds at least one level less than the node; and what waited in the
/// queue still waits.
#[verifier::rlimit(40)]
pub proof fn lemma_spread_from_cell(
    v: ChunkView,
    q: Seq<LightNode>,
    node: LightNode,
    cx: int,
    cy: int,
    cz: int,
    waiting: int,
)
    requires
        v.shaped(),
        node.light_level <= 15,
        in_bounds(cx, cy, cz),
    ensures
        spread_from(v, q, node).0.shaped(),
        spread_from(v, q, node).0.blocks == v.blocks,
        spread_from(v, q, node).0.glow(cx, cy, cz) >= v.glow(cx, cy, cz),
        spread_from(v, q, node).0.glow(cx, cy, cz) != v.glow(cx, cy, cz) ==> announced(
            spread_from(v, q, node).1,
            cx,
            cy,
            cz,
            spread_from(v, q, node).0.glow(cx, cy, cz),
        ),
        node.light_level >= 2 && v.block(cx, cy, cz).transparent() && ((cx, cy, cz) == (
            node.x + 1,
            node.y as int,
            node.z as int,
        ) || (cx, cy, cz) == (node.x - 1, node.y as int, node.z as int) || (cx, cy, cz) == (
            node.x as int,
            node.y + 1,
            node.z as int,
        ) || (cx, cy, cz) == (node.x as int, node.y - 1, node.z as int) || (cx, cy, cz) == (
            node.x as int,
            node.y as int,
            node.z + 1,
        ) || (cx, cy, cz) == (node.x as int, node.y as int, node.z - 1)) ==> spread_from(
            v,
            q,
            node,
        ).0.glow(cx, cy, cz) >= node.light_level - 1,
        announced(q, cx, cy, cz, waiting) ==> announced(
            spread_from(v, q, node).1,
            cx,
            cy,
            cz,
            waiting,
        ),
{
    if node.light_level > 1 {
        let level = (node.light_level - 1) as u8;
        let (x, y, z) = (node.x as int, node.y as int, node.z as int);
        let s0 = (v, q);
        let s1 = spread_into(s0, x + 1, y, z, level);
        let s2 = spread_into(s1, x - 1, y, z, level);
        let s3 = spread_into(s2, x, y + 1, z, level);
        let s4 = spread_into(s3, x, y - 1, z, level);
        let s5 = spread_into(s4, x, y, z + 1, level);
        let s6 = spread_into(s5, x, y, z - 1, level);
        lemma_spread_into_cell(s0, x + 1, y, z, level, cx, cy, cz, waiting);
        lemma_spread_into_cell(s1, x - 1, y, z, level, cx, cy, cz, waiting);
        lemma_spread_into_cell(s2, x, y + 1, z, level, cx, cy, cz, waiting);
        lemma_spread_into_cell(s3, x, y - 1, z, level, cx, cy, cz, waiting);
        lemma_spread_into_cell(s4, x, y, z + 1, level, cx, cy, cz, waiting);
        lemma_spread_into_cell(s5, x, y, z - 1, level, cx, cy, cz, waiting);
        // Where the light of the cell rose, it waits with the level of the node's light.
        lemma_spread_into_cell(s1, x - 1, y, z, level, cx, cy, cz, level as int);
        lemma_spread_into_cell(s2, x, y + 1, z, level, cx, cy, cz, level as int);
        lemma_spread_into_cell(s3, x, y - 1, z, level, cx, cy, cz, level as int);
        lemma_spread_into_cell(s4, x, y, z + 1, level, cx, cy, cz, level as int);
        lemma_spread_into_cell(s5, x, y, z - 1, level, cx, cy, cz, level as int);
        assert(spread_from(v, q, node) == s6);
    }
}

/// Relaxation lets all light reach the neighbours of its cell: where all
/// light of a chunk had reached them or waited in the queue, after relaxation
/// no transparent cell is more than one level darker than a neighbour.
pub proof fn lemma_relaxed_settles(v: ChunkView, q: Seq<LightNode>, x: int, y: int, z: int)
    requires
        v.shaped(),
        queue_ok(q),
        all_reached_or_waiting(v, q),
        in_bounds(x, y, z),
    ensures
        settled(relaxed(v, q), x, y, z),
    decreases darkness(v), q.len(),
{
    if q.len() == 0 {
        assert(reached_or_waiting(v, q, x, y, z));
    } else {
        let rest = q.subrange(1, q.len() as int);
        let node = q[0];
        let s = spread_from(v, rest, node);
        lemma_queue_rest(q);
        lemma_spread_from(v, rest, node);
        lemma_dark_sum_bounds(v.light, 65536);
        lemma_dark_sum_bounds(s.0.light, 65536);
        assert forall|cx: int, cy: int, cz: int| in_bounds(cx, cy, cz) implies #[trigger] reached_or_waiting(
            s.0,
            s.1,
            cx,
            cy,
            cz,
        ) by {
            let g = v.glow(cx, cy, cz);
            lemma_spread_from_cell(v, rest, node, cx, cy, cz, g);
            assert(reached_or_waiting(v, q, cx, cy, cz));
            if s.0.glow(cx, cy, cz) == g {
                if settled(v, cx, cy, cz) {
                    // What the neighbours hold did not fall.
                    lemma_neighbors_rise(v, rest, node, cx, cy, cz);
                } else {
                    let i = choose|i: int|
                        0 <= i < q.len() && (#[trigger] q[i]).x == cx && q[i].y == cy && q[i].z
                            == cz && q[i].light_level >= g;
                    if i == 0 {
                        // The node of the cell itself has spread.
                        lemma_node_spreads(v, rest, node, g);
                    } else {
                        assert(rest[i - 1] == q[i]);
                        assert(announced(rest, cx, cy, cz, g));
                    }
                }
            }
        }
        lemma_relaxed_settles(s.0, s.1, x, y, z);
    }
}

/// As the light of one node spreads, no neighbour of any cell gets darker:
/// a cell whose light had reached its neighbours and did not change is
/// still settled.
proof fn lemma_neighbors_rise(v: ChunkView, q: Seq<LightNode>, node: LightNode, x: int, y: int, z: int)
    requires
        v.shaped(),
        node.light_level <= 15,
        in_bounds(x, y, z),
        spread_from(v, q, node).0.glow(x, y, z) == v.glow(x, y, z),
        settled(v, x, y, z),
    ensures
        settled(spread_from(v, q, node).0, x, y, z),
{
    lemma_spread_from_cell(v, q, node, x, y, z, 0);
    if in_bounds(x + 1, y, z) {
        lemma_spread_from_cell(v, q, node, x + 1, y, z, 0);
    }
    if in_bounds(x - 1, y, z) {
        lemma_spread_from_cell(v, q, node, x - 1, y, z, 0);
    }
    if in_bounds(x, y + 1, z) {
        lemma_spread_from_cell(v, q, node, x, y + 1, z, 0);
    }
    if in_bounds(x, y - 1, z) {
        lemma_spread_from_cell(v, q, node, x, y - 1, z, 0);
    }
    if in_bounds(x, y, z + 1) {
        lemma_spread_from_cell(v, q, node, x, y, z + 1, 0);
    }
    if in_bounds(x, y, z - 1) {
        lemma_spread_from_cell(v, q, node, x, y, z - 1, 0);
    }
}

/// When the light of a node has spread, the cell of the node is settled if
/// its light did not change and is not above the level of the node.
proof fn lemma_node_spreads(v: ChunkView, q: Seq<LightNode>, node: LightNode, g: int)
    requires
        v.shaped(),
        node.light_level <= 15,
        in_bounds(node.x as int, node.y as int, node.z as int),
        node.light_level >= g,
        spread_from(v, q, node).0.glow(node.x as int, node.y as int, node.z as int) == g,
    ensures
        settled(spread_from(v, q, node).0, node.x as int, node.y as int, node.z as int),
{
    let (x, y, z) = (node.x as int, node.y as int, node.z as int);
    if in_bounds(x + 1, y, z) {
        lemma_spread_from_cell(v, q, node, x + 1, y, z, 0);
    }
    if in_bounds(x - 1, y, z) {
        lemma_spread_from_cell(v, q, node, x - 1, y, z, 0);
    }
    if in_bounds(x, y + 1, z) {
        lemma_spread_from_cell(v, q, node, x, y + 1, z, 0);
    }
    if in_bounds(x, y - 1, z) {
        lemma_spread_from_cell(v, q, node, x, y - 1, z, 0);
    }
    if in_bounds(x, y, z + 1) {
        lemma_spread_from_cell(v, q, node, x, y, z + 1, 0);
    }
    if in_bounds(x, y, z - 1) {
        lemma_spread_from_cell(v, q, node, x, y, z - 1, 0);
    }
}

/// Whether a neighbour can have given a cell light of a level: it holds more
/// in the chunk `w`, or it waited in the queue `q` with more.
pub open spec fn feeds(w: ChunkView, q: Seq<LightNode>, nx: int, ny: int, nz: int, level: int) -> bool {
    w.glow(nx, ny, nz) > level || announced(q, nx, ny, nz, level + 1)
}

/// Whether one of the six neighbours of a cell can have given it light of a level.
pub open spec fn fed(w: ChunkView, q: Seq<LightNode>, x: int, y: int, z: int, level: int) -> bool {
    ||| feeds(w, q, x + 1, y, z, level)
    ||| feeds(w, q, x - 1, y, z, level)
    ||| feeds(w, q, x, y + 1, z, level)
    ||| feeds(w, q, x, y - 1, z, level)
    ||| feeds(w, q, x, y, z + 1, level)
    ||| feeds(w, q, x, y, z - 1, level)
}

/// Whether the block light of a cell of the chunk `w` is accounted for,
/// where relaxation took the chunk `v` and the queue `q` to `w`: the cell
/// holds what it held in `v`, or it is transparent and a neighbour can have
/// given it its light.
pub open spec fn accounted(v: ChunkView, q: Seq<LightNode>, w: ChunkView, x: int, y: int, z: int) -> bool {
    w.glow(x, y, z) == v.glow(x, y, z) || (w.block(x, y, z).transparent() && fed(
        w,
        q,
        x,
        y,
        z,
        w.glow(x, y, z),
    ))
}

/// Whether every node of a queue `r` holds no more light than its cell holds
/// in the chunk `w`, or waited in the queue `q` before.
pub open spec fn backed(q: Seq<LightNode>, w: ChunkView, r: Seq<LightNode>) -> bool {
    forall|i: int|
        0 <= i < r.len() ==> (#[trigger] r[i]).light_level <= w.glow(
            r[i].x as int,
            r[i].y as int,
            r[i].z as int,
        ) || announced(q, r[i].x as int, r[i].y as int, r[i].z as int, r[i].light_level as int)
}

/// Whether the block light of every cell of the chunk `w` is accounted for.
pub open spec fn all_accounted(v: ChunkView, q: Seq<LightNode>, w: ChunkView) -> bool {
    forall|x: int, y: int, z: int|
        in_bounds(x, y, z) ==> #[trigger] accounted(v, q, w, x, y, z)
}

/// A neighbour that can have given light still can when block light rises.
proof fn lemma_feeds_rise(
    a: ChunkView,
    b: ChunkView,
    q: Seq<LightNode>,
    nx: int,
    ny: int,
    nz: int,
    level: int,
)
    requires
        a.shaped(),
        b.shaped(),
        forall|i: int| 0 <= i < 65536 ==> glow_of(#[trigger] b.light[i]) >= glow_of(a.light[i]),
        feeds(a, q, nx, ny, nz, level),
    ensures
        feeds(b, q, nx, ny, nz, level),
{
    if in_bounds(nx, ny, nz) {
        crate::chunk::lemma_index_of_cell(nx, ny, nz);
        let i = cell_index(nx, ny, nz);
        assert(glow_of(b.light[i]) >= glow_of(a.light[i]));
    }
}

/// What was accounted for still is when block light rises elsewhere.
proof fn lemma_accounted_rise(
    v: ChunkView,
    q: Seq<LightNode>,
    a: ChunkView,
    b: ChunkView,
    x: int,
    y: int,
    z: int,
)
    requires
        a.shaped(),
        b.shaped(),
        in_bounds(x, y, z),
        b.blocks == a.blocks,
        forall|i: int| 0 <= i < 65536 ==> glow_of(#[trigger] b.light[i]) >= glow_of(a.light[i]),
        b.glow(x, y, z) == a.glow(x, y, z),
        accounted(v, q, a, x, y, z),
    ensures
        accounted(v, q, b, x, y, z),
{
    let g = a.glow(x, y, z);
    if a.glow(x, y, z) != v.glow(x, y, z) {
        if feeds(a, q, x + 1, y, z, g) {
            lemma_feeds_rise(a, b, q, x + 1, y, z, g);
        } else if feeds(a, q, x - 1, y, z, g) {
            lemma_feeds_rise(a, b, q, x - 1, y, z, g);
        } else if feeds(a, q, x, y + 1, z, g) {
            lemma_feeds_rise(a, b, q, x, y + 1, z, g);
        } else if feeds(a, q, x, y - 1, z, g) {
            lemma_feeds_rise(a, b, q, x, y - 1, z, g);
        } else if feeds(a, q, x, y, z + 1, g) {
            lemma_feeds_rise(a, b, q, x, y, z + 1, g);
        } else {
            lemma_feeds_rise(a, b, q, x, y, z - 1, g);
        }
    }
}

/// Light that arrives at a cell from a node keeps all light accounted for
/// and every node of the queue backed: where the cell takes the light, the
/// cell of the node can have given it.
#[verifier::rlimit(40)]
proof fn lemma_spread_into_accounted(
    v: ChunkView,
    q: Seq<LightNode>,
    s: (ChunkView, Seq<LightNode>),
    node: LightNode,
    x: int,
    y: int,
    z: int,
)
    requires
        v.shaped(),
        s.0.shaped(),
        queue_ok(s.1),
        2 <= node.light_level <= 15,
        all_accounted(v, q, s.0),
        backed(q, s.0, s.1),
        node.light_level <= s.0.glow(node.x as int, node.y as int, node.z as int) || announced(
            q,
            node.x as int,
            node.y as int,
            node.z as int,
            node.light_level as int,
        ),
        (x, y, z) == (node.x + 1, node.y as int, node.z as int) || (x, y, z) == (
            node.x - 1,
            node.y as int,
            node.z as int,
        ) || (x, y, z) == (node.x as int, node.y + 1, node.z as int) || (x, y, z) == (
            node.x as int,
            node.y - 1,
            node.z as int,
        ) || (x, y, z) == (node.x as int, node.y as int, node.z + 1) || (x, y, z) == (
            node.x as int,
            node.y as int,
            node.z - 1,
        ),
    ensures
        all_accounted(v, q, spread_into(s, x, y, z, (node.light_level - 1) as u8).0),
        backed(q, spread_into(s, x, y, z, (node.light_level - 1) as u8).0, spread_into(
            s,
            x,
            y,
            z,
            (node.light_level - 1) as u8,
        ).1),
        node.light_level <= spread_into(s, x, y, z, (node.light_level - 1) as u8).0.glow(
            node.x as int,
            node.y as int,
            node.z as int,
        ) || announced(q, node.x as int, node.y as int, node.z as int, node.light_level as int),
        spread_into(s, x, y, z, (node.light_level - 1) as u8).0.shaped(),
        queue_ok(spread_into(s, x, y, z, (node.light_level - 1) as u8).1),
{
    let level = (node.light_level - 1) as u8;
    let t = spread_into(s, x, y, z, level);
    lemma_spread_into((s.0, s.1), x, y, z, level);
    let (px, py, pz) = (node.x as int, node.y as int, node.z as int);
    if in_bounds(px, py, pz) {
        lemma_spread_into_cell(s, x, y, z, level, px, py, pz, 0);
    }
    assert forall|cx: int, cy: int, cz: int| in_bounds(cx, cy, cz) implies #[trigger] accounted(
        v,
        q,
        t.0,
        cx,
        cy,
        cz,
    ) by {
        lemma_spread_into_cell(s, x, y, z, level, cx, cy, cz, 0);
        assert(accounted(v, q, s.0, cx, cy, cz));
        if t.0.glow(cx, cy, cz) == s.0.glow(cx, cy, cz) {
            lemma_accounted_rise(v, q, s.0, t.0, cx, cy, cz);
        } else {
            // The cell took the light of the node.
            assert((cx, cy, cz) == (x, y, z));
            assert(feeds(t.0, q, px, py, pz, level as int));
        }
    }
    assert forall|i: int| 0 <= i < t.1.len() implies (#[trigger] t.1[i]).light_level <= t.0.glow(
        t.1[i].x as int,
        t.1[i].y as int,
        t.1[i].z as int,
    ) || announced(q, t.1[i].x as int, t.1[i].y as int, t.1[i].z as int, t.1[i].light_level as int) by {
        if i < s.1.len() {
            assert(t.1[i] == s.1[i]);
            let (ax, ay, az) = (s.1[i].x as int, s.1[i].y as int, s.1[i].z as int);
            if in_bounds(ax, ay, az) {
                lemma_spread_into_cell(s, x, y, z, level, ax, ay, az, 0);
            }
        } else {
            assert(t != s);
            assert(t.1[i] == node_at(x, y, z, level));
            lemma_spread_into_cell(s, x, y, z, level, x, y, z, 0);
        }
    }
}

/// The light of one node, as it spreads, keeps all light accounted for and
/// every node of the queue backed.
proof fn lemma_spread_from_accounted(
    v: ChunkView,
    q: Seq<LightNode>,
    w: ChunkView,
    r: Seq<LightNode>,
    node: LightNode,
)
    requires
        v.shaped(),
        w.shaped(),
        queue_ok(r),
        node.light_level <= 15,
        all_accounted(v, q, w),
        backed(q, w, r),
        node.light_level <= w.glow(node.x as int, node.y as int, node.z as int) || announced(
            q,
            node.x as int,
            node.y as int,
            node.z as int,
            node.light_level as int,
        ),
    ensures
        all_accounted(v, q, spread_from(w, r, node).0),
        backed(q, spread_from(w, r, node).0, spread_from(w, r, node).1),
{
    if node.light_level > 1 {
        let level = (node.light_level - 1) as u8;
        let (x, y, z) = (node.x as int, node.y as int, node.z as int);
        let s0 = (w, r);
        let s1 = spread_into(s0, x + 1, y, z, level);
        let s2 = spread_into(s1, x - 1, y, z, level);
        let s3 = spread_into(s2, x, y + 1, z, level);
        let s4 = spread_into(s3, x, y - 1, z, level);
        let s5 = spread_into(s4, x, y, z + 1, level);
        lemma_spread_into_accounted(v, q, s0, node, x + 1, y, z);
        lemma_spread_into_accounted(v, q, s1, node, x - 1, y, z);
        lemma_spread_into_accounted(v, q, s2, node, x, y + 1, z);
        lemma_spread_into_accounted(v, q, s3, node, x, y - 1, z);
        lemma_spread_into_accounted(v, q, s4, node, x, y, z + 1);
        lemma_spread_into_accounted(v, q, s5, node, x, y, z - 1);
    }
}

/// Relaxation from a chunk `w` and a queue `r`, reached from the chunk `v`
/// and the queue `q`, leaves all block light accounted for.
proof fn lemma_relaxed_accounted_from(
    v: ChunkView,
    q: Seq<LightNode>,
    w: ChunkView,
    r: Seq<LightNode>,
    x: int,
    y: int,
    z: int,
)
    requires
        v.shaped(),
        w.shaped(),
        queue_ok(r),
        all_accounted(v, q, w),
        backed(q, w, r),
        in_bounds(x, y, z),
    ensures
        accounted(v, q, relaxed(w, r), x, y, z),
    decreases darkness(w), r.len(),
{
    if r.len() == 0 {
        assert(accounted(v, q, w, x, y, z));
    } else {
        let rest = r.subrange(1, r.len() as int);
        let node = r[0];
        let s = spread_from(w, rest, node);
        lemma_queue_rest(r);
        lemma_spread_from(w, rest, node);
        lemma_dark_sum_bounds(w.light, 65536);
        lemma_dark_sum_bounds(s.0.light, 65536);
        assert(backed(q, w, rest)) by {
            assert forall|i: int| 0 <= i < rest.len() implies (#[trigger] rest[i]).light_level
                <= w.glow(rest[i].x as int, rest[i].y as int, rest[i].z as int) || announced(
                q,
                rest[i].x as int,
                rest[i].y as int,
                rest[i].z as int,
                rest[i].light_level as int,
            ) by {
                assert(rest[i] == r[i + 1]);
            }
        }
        lemma_spread_from_accounted(v, q, w, rest, node);
        lemma_relaxed_accounted_from(v, q, s.0, s.1, x, y, z);
    }
}

/// After relaxation every block light is accounted for: a cell holds the
/// block light it held before, or it is transparent and holds one level
/// less than a neighbour holds or than waited in the queue for a neighbour.
/// So light comes from the nodes of the queue only, and fades by one level
/// with each step.
pub proof fn lemma_relaxed_accounted(v: ChunkView, q: Seq<LightNode>, x: int, y: int, z: int)
    requires
        v.shaped(),
        queue_ok(q),
        in_bounds(x, y, z),
    ensures
        accounted(v, q, relaxed(v, q), x, y, z),
{
    assert forall|i: int| 0 <= i < q.len() implies (#[trigger] q[i]).light_level <= v.glow(
        q[i].x as int,
        q[i].y as int,
        q[i].z as int,
    ) || announced(q, q[i].x as int, q[i].y as int, q[i].z as int, q[i].light_level as int) by {}
    lemma_relaxed_accounted_from(v, q, v, q, x, y, z);
}

/// What seeding one cell does to any cell of the chunk: where the cell is
/// the seeded one and emits light, it holds that light and waits in the
/// queue with it; else it holds what it held unless it was reset; and what
/// waited in the queue still waits.
pub proof fn lemma_seed_cell_at(
    s: (ChunkView, Seq<LightNode>),
    x: int,
    y: int,
    z: int,
    reset: bool,
    cx: int,
    cy: int,
    cz: int,
    waiting: int,
)
    requires
        s.0.shaped(),
        in_bounds(cx, cy, cz),
    ensures
        seed_cell(s, x, y, z, reset).0.shaped(),
        seed_cell(s, x, y, z, reset).0.blocks == s.0.blocks,
        (cx, cy, cz) != (x, y, z) ==> seed_cell(s, x, y, z, reset).0.glow(cx, cy, cz) == s.0.glow(
            cx,
            cy,
            cz,
        ),
        (cx, cy, cz) == (x, y, z) ==> seed_cell(s, x, y, z, reset).0.glow(cx, cy, cz) == (
        if s.0.block(x, y, z).emitted_light() > 0 || reset {
            s.0.block(x, y, z).emitted_light() as int
        } else {
            s.0.glow(cx, cy, cz)
        }),
        (cx, cy, cz) == (x, y, z) && s.0.block(x, y, z).emitted_light() > 0 ==> announced(
            seed_cell(s, x, y, z, reset).1,
            cx,
            cy,
            cz,
            s.0.block(x, y, z).emitted_light() as int,
        ),
        announced(s.1, cx, cy, cz, waiting) ==> announced(
            seed_cell(s, x, y, z, reset).1,
            cx,
            cy,
            cz,
            waiting,
        ),
{
    let level = s.0.block(x, y, z).emitted_light();
    crate::block::lemma_emitted_light_fits(s.0.block(x, y, z));
    let t = seed_cell(s, x, y, z, reset);
    crate::chunk::lemma_index_of_cell(cx, cy, cz);
    if in_bounds(x, y, z) {
        crate::chunk::lemma_index_of_cell(x, y, z);
        if (cx, cy, cz) != (x, y, z) {
            assert(cell_index(cx, cy, cz) != cell_index(x, y, z));
        }
    }
    if level > 0 {
        if (cx, cy, cz) == (x, y, z) {
            assert(t.1[s.1.len() as int] == node_at(x, y, z, level));
        }
        if announced(s.1, cx, cy, cz, waiting) {
            let k = choose|k: int|
                0 <= k < s.1.len() && (#[trigger] s.1[k]).x == cx && s.1[k].y == cy && s.1[k].z
                    == cz && s.1[k].light_level >= waiting;
            assert(t.1[k] == s.1[k]);
        }
    }
}

/// Whether a cell of a line of a box is seeded from `z` on.
pub open spec fn in_line(b: LightBox, x: int, y: int, z: int, cx: int, cy: int, cz: int) -> bool {
    cx == x && cy == y && z <= cz <= b.end_z
}

/// Whether a cell of a slab of a box is seeded from the line `y` on.
pub open spec fn in_slab(b: LightBox, x: int, y: int, cx: int, cy: int, cz: int) -> bool {
    cx == x && y <= cy <= b.end_y && b.start_z <= cz <= b.end_z
}

/// Whether a cell of a box is seeded from the slab `x` on.
pub open spec fn in_slabs(b: LightBox, x: int, cx: int, cy: int, cz: int) -> bool {
    x <= cx <= b.end_x && b.start_y <= cy <= b.end_y && b.start_z <= cz <= b.end_z
}

/// What a seeded cell holds: the light it emits, if it emits or is reset,
/// and what it held else.
pub open spec fn seeded_glow(v: ChunkView, reset: bool, cx: int, cy: int, cz: int) -> int {
    if v.block(cx, cy, cz).emitted_light() > 0 || reset {
        v.block(cx, cy, cz).emitted_light() as int
    } else {
        v.glow(cx, cy, cz)
    }
}

/// What seeding a line does to any cell of the chunk.
pub proof fn lemma_seed_line_at(
    s: (ChunkView, Seq<LightNode>),
    b: LightBox,
    x: int,
    y: int,
    z: int,
    reset: bool,
    cx: int,
    cy: int,
    cz: int,
    waiting: int,
)
    requires
        s.0.shaped(),
        in_bounds(cx, cy, cz),
    ensures
        seed_line(s, b, x, y, z, reset).0.shaped(),
        seed_line(s, b, x, y, z, reset).0.blocks == s.0.blocks,
        seed_line(s, b, x, y, z, reset).0.glow(cx, cy, cz) == (if in_line(b, x, y, z, cx, cy, cz) {
            seeded_glow(s.0, reset, cx, cy, cz)
        } else {
            s.0.glow(cx, cy, cz)
        }),
        in_line(b, x, y, z, cx, cy, cz) && s.0.block(cx, cy, cz).emitted_light() > 0 ==> announced(
            seed_line(s, b, x, y, z, reset).1,
            cx,
            cy,
            cz,
            s.0.block(cx, cy, cz).emitted_light() as int,
        ),
        announced(s.1, cx, cy, cz, waiting) ==> announced(
            seed_line(s, b, x, y, z, reset).1,
            cx,
            cy,
            cz,
            waiting,
        ),
    decreases b.end_z + 1 - z,
{
    if z <= b.end_z {
        let next = seed_cell(s, x, y, z, reset);
        let e = s.0.block(cx, cy, cz).emitted_light() as int;
        lemma_seed_cell_at(s, x, y, z, reset, cx, cy, cz, waiting);
        lemma_seed_cell_at(s, x, y, z, reset, cx, cy, cz, e);
        lemma_seed_line_at(next, b, x, y, z + 1, reset, cx, cy, cz, waiting);
        lemma_seed_line_at(next, b, x, y, z + 1, reset, cx, cy, cz, e);
        assert(next.0.block(cx, cy, cz) == s.0.block(cx, cy, cz));
    }
}

/// What seeding a slab does to any cell of the chunk.
pub proof fn lemma_seed_slab_at(
    s: (ChunkView, Seq<LightNode>),
    b: LightBox,
    x: int,
    y: int,
    reset: bool,
    cx: int,
    cy: int,
    cz: int,
    waiting: int,
)
    requires
        s.0.shaped(),
        in_bounds(cx, cy, cz),
    ensures
        seed_slab(s, b, x, y, reset).0.shaped(),
        seed_slab(s, b, x, y, reset).0.blocks == s.0.blocks,
        seed_slab(s, b, x, y, reset).0.glow(cx, cy, cz) == (if in_slab(b, x, y, cx, cy, cz) {
            seeded_glow(s.0, reset, cx, cy, cz)
        } else {
            s.0.glow(cx, cy, cz)
        }),
        in_slab(b, x, y, cx, cy, cz) && s.0.block(cx, cy, cz).emitted_light() > 0 ==> announced(
            seed_slab(s, b, x, y, reset).1,
            cx,
            cy,
            cz,
            s.0.block(cx, cy, cz).emitted_light() as int,
        ),
        announced(s.1, cx, cy, cz, waiting) ==> announced(
            seed_slab(s, b, x, y, reset).1,
            cx,
            cy,
            cz,
            waiting,
        ),
    decreases b.end_y + 1 - y,
{
    if y <= b.end_y {
        let next = seed_line(s, b, x, y, b.start_z, reset);
        let e = s.0.block(cx, cy, cz).emitted_light() as int;
        lemma_seed_line_at(s, b, x, y, b.start_z, reset, cx, cy, cz, waiting);
        lemma_seed_line_at(s, b, x, y, b.start_z, reset, cx, cy, cz, e);
        lemma_seed_slab_at(next, b, x, y + 1, reset, cx, cy, cz, waiting);
        lemma_seed_slab_at(next, b, x, y + 1, reset, cx, cy, cz, e);
        assert(next.0.block(cx, cy, cz) == s.0.block(cx, cy, cz));
    }
}

/// What seeding a box from a slab on does to any cell of the chunk.
pub proof fn lemma_seed_slabs_at(
    s: (ChunkView, Seq<LightNode>),
    b: LightBox,
    x: int,
    reset: bool,
    cx: int,
    cy: int,
    cz: int,
    waiting: int,
)
    requires
        s.0.shaped(),
        in_bounds(cx, cy, cz),
    ensures
        seed_slabs(s, b, x, reset).0.shaped(),
        seed_slabs(s, b, x, reset).0.blocks == s.0.blocks,
        seed_slabs(s, b, x, reset).0.glow(cx, cy, cz) == (if in_slabs(b, x, cx, cy, cz) {
            seeded_glow(s.0, reset, cx, cy, cz)
        } else {
            s.0.glow(cx, cy, cz)
        }),
        in_slabs(b, x, cx, cy, cz) && s.0.block(cx, cy, cz).emitted_light() > 0 ==> announced(
            seed_slabs(s, b, x, reset).1,
            cx,
            cy,
            cz,
            s.0.block(cx, cy, cz).emitted_light() as int,
        ),
        announced(s.1, cx, cy, cz, waiting) ==> announced(
            seed_slabs(s, b, x, reset).1,
            cx,
            cy,
            cz,
            waiting,
        ),
    decreases b.end_x + 1 - x,
{
    if x <= b.end_x {
        let next = seed_slab(s, b, x, b.start_y, reset);
        let e = s.0.block(cx, cy, cz).emitted_light() as int;
        lemma_seed_slab_at(s, b, x, b.start_y, reset, cx, cy, cz, waiting);
        lemma_seed_slab_at(s, b, x, b.start_y, reset, cx, cy, cz, e);
        lemma_seed_slabs_at(next, b, x + 1, reset, cx, cy, cz, waiting);
        lemma_seed_slabs_at(next, b, x + 1, reset, cx, cy, cz, e);
        assert(next.0.block(cx, cy, cz) == s.0.block(cx, cy, cz));
    }
}

/// Whether a node waits in a queue.
pub open spec fn waits(q: Seq<LightNode>, a: LightNode) -> bool {
    announced(q, a.x as int, a.y as int, a.z as int, a.light_level as int)
}

/// A node that joins a queue waits in it, and so does what waited before.
pub proof fn lemma_push_waits(q: Seq<LightNode>, joined: LightNode, x: int, y: int, z: int, level: int)
    ensures
        waits(q.push(joined), joined),
        announced(q, x, y, z, level) ==> announced(q.push(joined), x, y, z, level),
{
    let p = q.push(joined);
    assert(p[q.len() as int] == joined);
    if announced(q, x, y, z, level) {
        let k = choose|k: int|
            0 <= k < q.len() && (#[trigger] q[k]).x == x && q[k].y == y && q[k].z == z
                && q[k].light_level >= level;
        assert(p[k] == q[k]);
    }
}

/// The sky pass over a column below height `y` queues every exposed cell of
/// it with level 15, and what waited in the queue still waits.
pub proof fn lemma_sky_column_waits(
    v: ChunkView,
    q: Seq<LightNode>,
    x: int,
    z: int,
    y: int,
    cx: int,
    cy: int,
    cz: int,
    waiting: int,
)
    requires
        in_bounds(cx, cy, cz),
        0 <= x < 16,
        0 <= z < 16,
        y <= 256,
    ensures
        cx == x && cz == z && cy < y && v.sky_exposed(cx, cy, cz) ==> announced(
            sky_nodes_column(v, q, x, z, y),
            cx,
            cy,
            cz,
            15,
        ),
        announced(q, cx, cy, cz, waiting) ==> announced(
            sky_nodes_column(v, q, x, z, y),
            cx,
            cy,
            cz,
            waiting,
        ),
    decreases y,
{
    if y > 0 {
        if v.sky_exposed(x, y - 1, z) {
            let joined = node_at(x, y - 1, z, 15);
            let p = q.push(joined);
            lemma_push_waits(q, joined, cx, cy, cz, waiting);
            lemma_sky_column_waits(v, p, x, z, y - 1, cx, cy, cz, waiting);
            lemma_sky_column_waits(v, p, x, z, y - 1, cx, cy, cz, 15);
        } else {
            lemma_sky_column_waits(v, q, x, z, y - 1, cx, cy, cz, waiting);
        }
    }
}

/// The sky pass over a row from the column `z` on queues every exposed cell
/// of these columns with level 15, and what waited in the queue still waits.
pub proof fn lemma_sky_row_waits(
    v: ChunkView,
    q: Seq<LightNode>,
    x: int,
    z: int,
    cx: int,
    cy: int,
    cz: int,
    waiting: int,
)
    requires
        in_bounds(cx, cy, cz),
        0 <= x < 16,
        0 <= z,
    ensures
        cx == x && cz >= z && v.sky_exposed(cx, cy, cz) ==> announced(
            sky_nodes_row(v, q, x, z),
            cx,
            cy,
            cz,
            15,
        ),
        announced(q, cx, cy, cz, waiting) ==> announced(
            sky_nodes_row(v, q, x, z),
            cx,
            cy,
            cz,
            waiting,
        ),
    decreases 16 - z,
{
    if z < 16 {
        let next = sky_nodes_column(v, q, x, z, 256);
        lemma_sky_column_waits(v, q, x, z, 256, cx, cy, cz, waiting);
        lemma_sky_column_waits(v, q, x, z, 256, cx, cy, cz, 15);
        lemma_sky_row_waits(v, next, x, z + 1, cx, cy, cz, waiting);
        lemma_sky_row_waits(v, next, x, z + 1, cx, cy, cz, 15);
    }
}

/// The sky pass from the row `x` on queues every exposed cell of these rows
/// with level 15, and what waited in the queue still waits.
pub proof fn lemma_sky_waits(
    v: ChunkView,
    q: Seq<LightNode>,
    x: int,
    cx: int,
    cy: int,
    cz: int,
    waiting: int,
)
    requires
        in_bounds(cx, cy, cz),
        0 <= x,
    ensures
        cx >= x && v.sky_exposed(cx, cy, cz) ==> announced(sky_nodes(v, q, x), cx, cy, cz, 15),
        announced(q, cx, cy, cz, waiting) ==> announced(sky_nodes(v, q, x), cx, cy, cz, waiting),
    decreases 16 - x,
{
    if x < 16 {
        let next = sky_nodes_row(v, q, x, 0);
        lemma_sky_row_waits(v, q, x, 0, cx, cy, cz, waiting);
        lemma_sky_row_waits(v, q, x, 0, cx, cy, cz, 15);
        lemma_sky_waits(v, next, x + 1, cx, cy, cz, waiting);
        lemma_sky_waits(v, next, x + 1, cx, cy, cz, 15);
    }
}

/// Whether a node stands for a source of light of a chunk: a cell that is
/// exposed to the sky, with level 15, or a cell that emits light, with the
/// level it emits.
pub open spec fn source_node(v: ChunkView, node: LightNode) -> bool {
    let (x, y, z) = (node.x as int, node.y as int, node.z as int);
    in_bounds(x, y, z) && ((node.light_level == 15 && v.sky_exposed(x, y, z)) || (node.light_level
        > 0 && node.light_level == v.block(x, y, z).emitted_light()))
}

/// Whether every node of a queue stands for a source of light of a chunk.
pub open spec fn from_sources(v: ChunkView, q: Seq<LightNode>) -> bool {
    forall|i: int| 0 <= i < q.len() ==> source_node(v, #[trigger] q[i])
}

/// A queue of sources that a source joins is a queue of sources.
proof fn lemma_push_source(v: ChunkView, q: Seq<LightNode>, node: LightNode)
    requires
        from_sources(v, q),
        source_node(v, node),
    ensures
        from_sources(v, q.push(node)),
{
    let p = q.push(node);
    assert forall|i: int| 0 <= i < p.len() implies source_node(v, #[trigger] p[i]) by {
        if i < q.len() {
            assert(p[i] == q[i]);
        }
    }
}

/// The sky pass over a column queues sources only.
proof fn lemma_sky_column_sources(v: ChunkView, q: Seq<LightNode>, x: int, z: int, y: int)
    requires
        from_sources(v, q),
        0 <= x < 16,
        0 <= z < 16,
        y <= 256,
    ensures
        from_sources(v, sky_nodes_column(v, q, x, z, y)),
    decreases y,
{
    if y > 0 {
        if v.sky_exposed(x, y - 1, z) {
            lemma_push_source(v, q, node_at(x, y - 1, z, 15));
            lemma_sky_column_sources(v, q.push(node_at(x, y - 1, z, 15)), x, z, y - 1);
        } else {
            lemma_sky_column_sources(v, q, x, z, y - 1);
        }
    }
}

/// The sky pass over a row queues sources only.
proof fn lemma_sky_row_sources(v: ChunkView, q: Seq<LightNode>, x: int, z: int)
    requires
        from_sources(v, q),
        0 <= x < 16,
        0 <= z,
    ensures
        from_sources(v, sky_nodes_row(v, q, x, z)),
    decreases 16 - z,
{
    if z < 16 {
        lemma_sky_column_sources(v, q, x, z, 256);
        lemma_sky_row_sources(v, sky_nodes_column(v, q, x, z, 256), x, z + 1);
    }
}

/// The sky pass queues sources only.
proof fn lemma_sky_sources(v: ChunkView, q: Seq<LightNode>, x: int)
    requires
        from_sources(v, q),
        0 <= x,
    ensures
        from_sources(v, sky_nodes(v, q, x)),
    decreases 16 - x,
{
    if x < 16 {
        lemma_sky_row_sources(v, q, x, 0);
        lemma_sky_sources(v, sky_nodes_row(v, q, x, 0), x + 1);
    }
}

/// Whether a box lies in the chunk.
pub open spec fn box_in_chunk(b: LightBox) -> bool {
    0 <= b.start_x && b.end_x <= 15 && 0 <= b.start_y && b.end_y <= 255 && 0 <= b.start_z && b.end_z
        <= 15
}

/// Seeding a line of a box in the chunk queues sources only.
proof fn lemma_seed_line_sources(
    v: ChunkView,
    s: (ChunkView, Seq<LightNode>),
    b: LightBox,
    x: int,
    y: int,
    z: int,
    reset: bool,
)
    requires
        s.0.shaped(),
        s.0.blocks == v.blocks,
        from_sources(v, s.1),
        box_in_chunk(b),
        0 <= x < 16,
        0 <= y < 256,
        0 <= z,
    ensures
        from_sources(v, seed_line(s, b, x, y, z, reset).1),
        seed_line(s, b, x, y, z, reset).0.shaped(),
        seed_line(s, b, x, y, z, reset).0.blocks == v.blocks,
    decreases b.end_z + 1 - z,
{
    if z <= b.end_z {
        let next = seed_cell(s, x, y, z, reset);
        assert(s.0.block(x, y, z) == v.block(x, y, z));
        let level = s.0.block(x, y, z).emitted_light();
        if level > 0 {
            lemma_push_source(v, s.1, node_at(x, y, z, level));
        }
        lemma_seed_line_sources(v, next, b, x, y, z + 1, reset);
    }
}

/// Seeding a slab of a box in the chunk queues sources only.
proof fn lemma_seed_slab_sources(
    v: ChunkView,
    s: (ChunkView, Seq<LightNode>),
    b: LightBox,
    x: int,
    y: int,
    reset: bool,
)
    requires
        s.0.shaped(),
        s.0.blocks == v.blocks,
        from_sources(v, s.1),
        box_in_chunk(b),
        0 <= x < 16,
        0 <= y,
    ensures
        from_sources(v, seed_slab(s, b, x, y, reset).1),
        seed_slab(s, b, x, y, reset).0.shaped(),
        seed_slab(s, b, x, y, reset).0.blocks == v.blocks,
    decreases b.end_y + 1 - y,
{
    if y <= b.end_y {
        lemma_seed_line_sources(v, s, b, x, y, b.start_z, reset);
        lemma_seed_slab_sources(v, seed_line(s, b, x, y, b.start_z, reset), b, x, y + 1, reset);
    }
}

/// Seeding a box in the chunk queues sources only.
proof fn lemma_seed_slabs_sources(
    v: ChunkView,
    s: (ChunkView, Seq<LightNode>),
    b: LightBox,
    x: int,
    reset: bool,
)
    requires
        s.0.shaped(),
        s.0.blocks == v.blocks,
        from_sources(v, s.1),
        box_in_chunk(b),
        0 <= x,
    ensures
        from_sources(v, seed_slabs(s, b, x, reset).1),
    decreases b.end_x + 1 - x,
{
    if x <= b.end_x {
        lemma_seed_slab_sources(v, s, b, x, b.start_y, reset);
        lemma_seed_slabs_sources(v, seed_slab(s, b, x, b.start_y, reset), b, x + 1, reset);
    }
}

/// Whether a neighbour of a cell can have given it light of a level in a
/// chunk that was fully lit: it holds more, or it is exposed to the sky.
pub open spec fn source_feeds(v: ChunkView, w: ChunkView, nx: int, ny: int, nz: int, level: int) -> bool {
    w.glow(nx, ny, nz) > level || (in_bounds(nx, ny, nz) && v.sky_exposed(nx, ny, nz) && level < 15)
}

/// Whether one of the six neighbours of a cell can have given it light of
/// a level in a chunk that was fully lit.
pub open spec fn source_fed(v: ChunkView, w: ChunkView, x: int, y: int, z: int, level: int) -> bool {
    ||| source_feeds(v, w, x + 1, y, z, level)
    ||| source_feeds(v, w, x - 1, y, z, level)
    ||| source_feeds(v, w, x, y + 1, z, level)
    ||| source_feeds(v, w, x, y - 1, z, level)
    ||| source_feeds(v, w, x, y, z + 1, level)
    ||| source_feeds(v, w, x, y, z - 1, level)
}

/// A neighbour that waits in a queue of sources with more than a level, or
/// holds more, is one that can have given light of that level.
proof fn lemma_source_feeds(
    v: ChunkView,
    w: ChunkView,
    q: Seq<LightNode>,
    nx: int,
    ny: int,
    nz: int,
    level: int,
)
    requires
        from_sources(v, q),
        feeds(w, q, nx, ny, nz, level),
        v.shaped(),
        w.shaped(),
        w.blocks == v.blocks,
        in_bounds(nx, ny, nz) ==> w.glow(nx, ny, nz) >= v.block(nx, ny, nz).emitted_light(),
    ensures
        source_feeds(v, w, nx, ny, nz, level),
{
    if !(w.glow(nx, ny, nz) > level) {
        let k = choose|k: int|
            0 <= k < q.len() && (#[trigger] q[k]).x == nx && q[k].y == ny && q[k].z == nz
                && q[k].light_level >= level + 1;
        assert(source_node(v, q[k]));
    }
}

/// In a chunk that was fully lit every block light is accounted for: a cell
/// holds the light it emits, or the block light it held before, or it is
/// transparent and holds one level less than a neighbour, or 14 next to a
/// cell that is exposed to the sky.
pub proof fn lemma_lit_accounted(v: ChunkView, x: int, y: int, z: int)
    requires
        v.shaped(),
        in_bounds(x, y, z),
    ensures
        lit(v).glow(x, y, z) == seeded_glow(v, false, x, y, z) || (lit(v).block(
            x,
            y,
            z,
        ).transparent() && source_fed(v, lit(v), x, y, z, lit(v).glow(x, y, z))),
{
    let passed = v.with_sky_pass();
    let nodes = sky_nodes(v, Seq::empty(), 0);
    lemma_sky_nodes(v, Seq::empty(), 0);
    lemma_sky_sources(v, Seq::empty(), 0);
    let seeded = seed_box((passed, nodes), whole_chunk(), false);
    lemma_seed_slabs((passed, nodes), whole_chunk(), 0, false);
    lemma_seed_slabs_sources(v, (passed, nodes), whole_chunk(), 0, false);
    lemma_seed_slabs_at((passed, nodes), whole_chunk(), 0, false, x, y, z, 0);
    crate::chunk::lemma_sky_pass_cell(v, x, y, z);
    lemma_relaxed_keeps(seeded.0, seeded.1);
    lemma_relaxed_accounted(seeded.0, seeded.1, x, y, z);
    let w = lit(v);
    let g = w.glow(x, y, z);
    if g != seeded_glow(v, false, x, y, z) {
        assert(fed(w, seeded.1, x, y, z, g));
        lemma_lit_emitters(v, x + 1, y, z);
        lemma_lit_emitters(v, x - 1, y, z);
        lemma_lit_emitters(v, x, y + 1, z);
        lemma_lit_emitters(v, x, y - 1, z);
        lemma_lit_emitters(v, x, y, z + 1);
        lemma_lit_emitters(v, x, y, z - 1);
        if feeds(w, seeded.1, x + 1, y, z, g) {
            lemma_source_feeds(v, w, seeded.1, x + 1, y, z, g);
        } else if feeds(w, seeded.1, x - 1, y, z, g) {
            lemma_source_feeds(v, w, seeded.1, x - 1, y, z, g);
        } else if feeds(w, seeded.1, x, y + 1, z, g) {
            lemma_source_feeds(v, w, seeded.1, x, y + 1, z, g);
        } else if feeds(w, seeded.1, x, y - 1, z, g) {
            lemma_source_feeds(v, w, seeded.1, x, y - 1, z, g);
        } else if feeds(w, seeded.1, x, y, z + 1, g) {
            lemma_source_feeds(v, w, seeded.1, x, y, z + 1, g);
        } else {
            lemma_source_feeds(v, w, seeded.1, x, y, z - 1, g);
        }
    }
}

/// In a chunk that was fully lit a cell that emits light holds at least that light.
pub proof fn lemma_lit_emitters(v: ChunkView, x: int, y: int, z: int)
    requires
        v.shaped(),
    ensures
        in_bounds(x, y, z) ==> lit(v).glow(x, y, z) >= v.block(x, y, z).emitted_light(),
        lit(v).shaped(),
        lit(v).blocks == v.blocks,
{
    let passed = v.with_sky_pass();
    let nodes = sky_nodes(v, Seq::empty(), 0);
    lemma_sky_nodes(v, Seq::empty(), 0);
    let seeded = seed_box((passed, nodes), whole_chunk(), false);
    lemma_seed_slabs((passed, nodes), whole_chunk(), 0, false);
    lemma_relaxed_keeps(seeded.0, seeded.1);
    if in_bounds(x, y, z) {
        lemma_seed_slabs_at((passed, nodes), whole_chunk(), 0, false, x, y, z, 0);
        crate::chunk::lemma_sky_pass_cell(v, x, y, z);
        let i = cell_index(x, y, z);
        assert(glow_of(relaxed(seeded.0, seeded.1).light[i]) >= glow_of(seeded.0.light[i]));
    }
}

/// Whether block light is found in a chunk only where full lighting spreads
/// it from: in cells that are exposed to the sky and in cells that emit light.
pub open spec fn dark_but_sources(v: ChunkView) -> bool {
    forall|x: int, y: int, z: int|
        in_bounds(x, y, z) ==> #[trigger] v.glow(x, y, z) <= 1 || v.sky_exposed(x, y, z)
            || v.block(x, y, z).emitted_light() > 0
}

/// Full lighting of a chunk that holds block light only at its sources lets
/// all light reach the neighbours of its cell: no transparent cell is more
/// than one level darker than a neighbour. A cell that emits light holds at
/// least that light.
pub proof fn lemma_lit_settles(v: ChunkView, x: int, y: int, z: int)
    requires
        v.shaped(),
        dark_but_sources(v),
        in_bounds(x, y, z),
    ensures
        settled(lit(v), x, y, z),
        lit(v).glow(x, y, z) >= v.block(x, y, z).emitted_light(),
{
    let passed = v.with_sky_pass();
    let nodes = sky_nodes(v, Seq::empty(), 0);
    lemma_sky_nodes(v, Seq::empty(), 0);
    let seeded = seed_box((passed, nodes), whole_chunk(), false);
    lemma_seed_slabs((passed, nodes), whole_chunk(), 0, false);
    assert forall|cx: int, cy: int, cz: int| in_bounds(cx, cy, cz) implies #[trigger] reached_or_waiting(
        seeded.0,
        seeded.1,
        cx,
        cy,
        cz,
    ) by {
        crate::chunk::lemma_sky_pass_cell(v, cx, cy, cz);
        lemma_sky_waits(v, Seq::empty(), 0, cx, cy, cz, 15);
        lemma_seed_slabs_at((passed, nodes), whole_chunk(), 0, false, cx, cy, cz, 15);
        assert(v.glow(cx, cy, cz) <= 1 || v.sky_exposed(cx, cy, cz) || v.block(
            cx,
            cy,
            cz,
        ).emitted_light() > 0);
        crate::block::lemma_emitted_light_fits(v.block(cx, cy, cz));
        if v.block(cx, cy, cz).emitted_light() > 0 {
        } else if v.sky_exposed(cx, cy, cz) {
            let k = choose|k: int|
                0 <= k < seeded.1.len() && (#[trigger] seeded.1[k]).x == cx && seeded.1[k].y == cy
                    && seeded.1[k].z == cz && seeded.1[k].light_level >= 15;
            assert(seeded.1[k].light_level >= seeded.0.glow(cx, cy, cz));
        } else {
            assert(seeded.0.glow(cx, cy, cz) <= 1);
        }
    }
    lemma_relaxed_settles(seeded.0, seeded.1, x, y, z);
    lemma_relaxed_keeps(seeded.0, seeded.1);
    lemma_seed_slabs_at((passed, nodes), whole_chunk(), 0, false, x, y, z, 0);
    crate::chunk::lemma_sky_pass_cell(v, x, y, z);
    let i = cell_index(x, y, z);
    assert(glow_of(relaxed(seeded.0, seeded.1).light[i]) >= glow_of(seeded.0.light[i]));
}

/// Whether a second chunk is the first but for block light: the same
/// coordinate, dirty flag, blocks and heights, and the same sky light in
/// every cell.
pub open spec fn same_but_glow(a: ChunkView, b: ChunkView) -> bool {
    &&& b.shaped()
    &&& b.coordinate == a.coordinate
    &&& b.dirty == a.dirty
    &&& b.blocks == a.blocks
    &&& b.heights == a.heights
    &&& forall|i: int| 0 <= i < 65536 ==> sky_of(#[trigger] b.light[i]) == sky_of(a.light[i])
}

/// Seeding a cell changes block light only, and keeps the queue sound.
pub proof fn lemma_seed_cell(s: (ChunkView, Seq<LightNode>), x: int, y: int, z: int, reset: bool)
    requires
        s.0.shaped(),
        queue_ok(s.1),
    ensures
        same_but_glow(s.0, seed_cell(s, x, y, z, reset).0),
        queue_ok(seed_cell(s, x, y, z, reset).1),
{
    let level = s.0.block(x, y, z).emitted_light();
    crate::block::lemma_emitted_light_fits(s.0.block(x, y, z));
    if level > 0 {
        lemma_queue_push(s.1, node_at(x, y, z, level));
    }
}

/// Seeding a line of cells changes block light only, and keeps the queue sound.
pub proof fn lemma_seed_line(
    s: (ChunkView, Seq<LightNode>),
    b: LightBox,
    x: int,
    y: int,
    z: int,
    reset: bool,
)
    requires
        s.0.shaped(),
        queue_ok(s.1),
    ensures
        same_but_glow(s.0, seed_line(s, b, x, y, z, reset).0),
        queue_ok(seed_line(s, b, x, y, z, reset).1),
    decreases b.end_z + 1 - z,
{
    if z <= b.end_z {
        let next = seed_cell(s, x, y, z, reset);
        lemma_seed_cell(s, x, y, z, reset);
        lemma_seed_line(next, b, x, y, z + 1, reset);
        let last = seed_line(s, b, x, y, z, reset).0;
        assert forall|i: int| 0 <= i < 65536 implies sky_of(#[trigger] last.light[i]) == sky_of(
            s.0.light[i],
        ) by {
            assert(sky_of(next.0.light[i]) == sky_of(s.0.light[i]));
        }
    }
}

/// Seeding a slab of cells changes block light only, and keeps the queue sound.
pub proof fn lemma_seed_slab(s: (ChunkView, Seq<LightNode>), b: LightBox, x: int, y: int, reset: bool)
    requires
        s.0.shaped(),
        queue_ok(s.1),
    ensures
        same_but_glow(s.0, seed_slab(s, b, x, y, reset).0),
        queue_ok(seed_slab(s, b, x, y, reset).1),
    decreases b.end_y + 1 - y,
{
    if y <= b.end_y {
        let next = seed_line(s, b, x, y, b.start_z, reset);
        lemma_seed_line(s, b, x, y, b.start_z, reset);
        lemma_seed_slab(next, b, x, y + 1, reset);
        let last = seed_slab(s, b, x, y, reset).0;
        assert forall|i: int| 0 <= i < 65536 implies sky_of(#[trigger] last.light[i]) == sky_of(
            s.0.light[i],
        ) by {
            assert(sky_of(next.0.light[i]) == sky_of(s.0.light[i]));
        }
    }
}

/// Seeding a box of cells changes block light only, and keeps the queue sound.
pub proof fn lemma_seed_slabs(s: (ChunkView, Seq<LightNode>), b: LightBox, x: int, reset: bool)
    requires
        s.0.shaped(),
        queue_ok(s.1),
    ensures
        same_but_glow(s.0, seed_slabs(s, b, x, reset).0),
        queue_ok(seed_slabs(s, b, x, reset).1),
    decreases b.end_x + 1 - x,
{
    if x <= b.end_x {
        let next = seed_slab(s, b, x, b.start_y, reset);
        lemma_seed_slab(s, b, x, b.start_y, reset);
        lemma_seed_slabs(next, b, x + 1, reset);
        let last = seed_slabs(s, b, x, reset).0;
        assert forall|i: int| 0 <= i < 65536 implies sky_of(#[trigger] last.light[i]) == sky_of(
            s.0.light[i],
        ) by {
            assert(sky_of(next.0.light[i]) == sky_of(s.0.light[i]));
        }
    }
}

/// Which cells of a column join the queue in the sky pass depends on the
/// blocks only.
pub proof fn lemma_sky_nodes_agree(v: ChunkView, w: ChunkView, q: Seq<LightNode>, x: int, z: int, y: int)
    requires
        v.blocks == w.blocks,
    ensures
        sky_nodes_column(v, q, x, z, y) == sky_nodes_column(w, q, x, z, y),
    decreases y,
{
    if y > 0 {
        crate::chunk::lemma_sky_exposed_agrees(v, w, x, y - 1, z);
        let next = if v.sky_exposed(x, y - 1, z) {
            q.push(node_at(x, y - 1, z, 15))
        } else {
            q
        };
        lemma_sky_nodes_agree(v, w, next, x, z, y - 1);
    }
}

/// The cells that join the queue in the sky pass are sound nodes.
pub proof fn lemma_sky_nodes_column(v: ChunkView, q: Seq<LightNode>, x: int, z: int, y: int)
    requires
        queue_ok(q),
    ensures
        queue_ok(sky_nodes_column(v, q, x, z, y)),
    decreases y,
{
    if y > 0 {
        if v.sky_exposed(x, y - 1, z) {
            lemma_queue_push(q, node_at(x, y - 1, z, 15));
            lemma_sky_nodes_column(v, q.push(node_at(x, y - 1, z, 15)), x, z, y - 1);
        } else {
            lemma_sky_nodes_column(v, q, x, z, y - 1);
        }
    }
}

/// The cells that join the queue in the sky pass are sound nodes.
pub proof fn lemma_sky_nodes_row(v: ChunkView, q: Seq<LightNode>, x: int, z: int)
    requires
        queue_ok(q),
    ensures
        queue_ok(sky_nodes_row(v, q, x, z)),
    decreases 16 - z,
{
    if z < 16 {
        lemma_sky_nodes_column(v, q, x, z, 256);
        lemma_sky_nodes_row(v, sky_nodes_column(v, q, x, z, 256), x, z + 1);
    }
}

/// The cells that join the queue in the sky pass are sound nodes.
pub proof fn lemma_sky_nodes(v: ChunkView, q: Seq<LightNode>, x: int)
    requires
        queue_ok(q),
    ensures
        queue_ok(sky_nodes(v, q, x)),
    decreases 16 - x,
{
    if x < 16 {
        lemma_sky_nodes_row(v, q, x, 0);
        lemma_sky_nodes(v, sky_nodes_row(v, q, x, 0), x + 1);
    }
}

/// Full lighting leaves the blocks and the heights as they are and gives
/// every cell the sky light that falls onto it: 15 where the cell and all
/// cells above it are transparent, 0 elsewhere. So sky light never grows on
/// the way down a column.
pub proof fn lemma_lit_sky(v: ChunkView, x: int, y: int, z: int)
    requires
        v.shaped(),
        in_bounds(x, y, z),
    ensures
        lit(v).shaped(),
        lit(v).blocks == v.blocks,
        lit(v).heights == v.heights,
        lit(v).sky(x, y, z) == v.sky_level(x, y, z),
        y > 0 ==> lit(v).sky(x, y - 1, z) <= lit(v).sky(x, y, z),
        v.wf() ==> lit(v).wf(),
{
    let passed = v.with_sky_pass();
    let nodes = sky_nodes(v, Seq::empty(), 0);
    lemma_sky_nodes(v, Seq::empty(), 0);
    let seeded = seed_box((passed, nodes), whole_chunk(), false);
    lemma_seed_slabs((passed, nodes), whole_chunk(), 0, false);
    lemma_relaxed_keeps(seeded.0, seeded.1);
    let i = cell_index(x, y, z);
    crate::chunk::lemma_sky_pass_cell(v, x, y, z);
    assert(sky_of(lit(v).light[i]) == sky_of(seeded.0.light[i]));
    assert(sky_of(seeded.0.light[i]) == sky_of(passed.light[i]));
    if y > 0 {
        let j = cell_index(x, y - 1, z);
        crate::chunk::lemma_sky_pass_cell(v, x, y - 1, z);
        assert(sky_of(lit(v).light[j]) == sky_of(seeded.0.light[j]));
        assert(sky_of(seeded.0.light[j]) == sky_of(passed.light[j]));
        lemma_sky_level_step(v, x, y - 1, z);
    }
    if v.wf() {
        assert forall|cx: int, cz: int| 0 <= cx < 16 && 0 <= cz < 16 implies #[trigger] lit(
            v,
        ).height(cx, cz) == lit(v).column_top(cx, cz) by {
            assert(v.height(cx, cz) == v.column_top(cx, cz));
            crate::chunk::lemma_top_below_same_column(v, lit(v), cx, cz, 256);
        }
    }
}

/// Replacing one light byte changes the sum of missing block light by what
/// that cell gained.
pub proof fn lemma_dark_sum_update(light: Seq<u8>, i: int, byte: u8, n: int)
    requires
        0 <= i < light.len(),
        0 <= n <= light.len(),
    ensures
        dark_sum(light.update(i, byte), n) == dark_sum(light, n) - (if i < n {
            glow_of(byte) - glow_of(light[i])
        } else {
            0
        }),
    decreases n,
{
    if n > 0 {
        lemma_dark_sum_update(light, i, byte, n - 1);
    }
}

/// Light that arrives at a cell either changes nothing, or raises the block
/// light of that cell alone and adds one node to the queue.
pub proof fn lemma_spread_into(s: (ChunkView, Seq<LightNode>), x: int, y: int, z: int, level: u8)
    requires
        s.0.shaped(),
        queue_ok(s.1),
        level <= 15,
    ensures
        spread_into(s, x, y, z, level).0.shaped(),
        queue_ok(spread_into(s, x, y, z, level).1),
        spread_into(s, x, y, z, level) == s || (darkness(spread_into(s, x, y, z, level).0)
            < darkness(s.0) && spread_into(s, x, y, z, level).1.len() == s.1.len() + 1),
        spread_into(s, x, y, z, level).1.len() >= s.1.len(),
        darkness(spread_into(s, x, y, z, level).0) <= darkness(s.0),
        spread_into(s, x, y, z, level).0.blocks == s.0.blocks,
        spread_into(s, x, y, z, level).0.heights == s.0.heights,
        spread_into(s, x, y, z, level).0.coordinate == s.0.coordinate,
        spread_into(s, x, y, z, level).0.dirty == s.0.dirty,
        forall|i: int|
            0 <= i < 65536 ==> sky_of(#[trigger] spread_into(s, x, y, z, level).0.light[i])
                == sky_of(s.0.light[i]) && glow_of(spread_into(s, x, y, z, level).0.light[i])
                >= glow_of(s.0.light[i]),
{
    let t = spread_into(s, x, y, z, level);
    if t != s {
        let i = cell_index(x, y, z);
        let byte = (16 * s.0.sky(x, y, z) + level % 16) as u8;
        assert(t.0.light == s.0.light.update(i, byte));
        lemma_dark_sum_update(s.0.light, i, byte, 65536);
        assert(glow_of(byte) == level);
        assert(sky_of(byte) == sky_of(s.0.light[i]));
    }
}

/// The light of one node, as it spreads, either leaves chunk and queue as
/// they were or raises the block light of the chunk.
pub proof fn lemma_spread_from(v: ChunkView, q: Seq<LightNode>, node: LightNode)
    requires
        v.shaped(),
        queue_ok(q),
        node.light_level <= 15,
    ensures
        spread_from(v, q, node).0.shaped(),
        queue_ok(spread_from(v, q, node).1),
        spread_from(v, q, node) == (v, q) || darkness(spread_from(v, q, node).0) < darkness(v),
        darkness(spread_from(v, q, node).0) <= darkness(v),
        spread_from(v, q, node).0.blocks == v.blocks,
        spread_from(v, q, node).0.heights == v.heights,
        spread_from(v, q, node).0.coordinate == v.coordinate,
        spread_from(v, q, node).0.dirty == v.dirty,
        forall|i: int|
            0 <= i < 65536 ==> sky_of(#[trigger] spread_from(v, q, node).0.light[i]) == sky_of(
                v.light[i],
            ) && glow_of(spread_from(v, q, node).0.light[i]) >= glow_of(v.light[i]),
{
    if node.light_level > 1 {
        let level = (node.light_level - 1) as u8;
        let (x, y, z) = (node.x as int, node.y as int, node.z as int);
        let s0 = (v, q);
        let s1 = spread_into(s0, x + 1, y, z, level);
        let s2 = spread_into(s1, x - 1, y, z, level);
        let s3 = spread_into(s2, x, y + 1, z, level);
        let s4 = spread_into(s3, x, y - 1, z, level);
        let s5 = spread_into(s4, x, y, z + 1, level);
        let s6 = spread_into(s5, x, y, z - 1, level);
        lemma_spread_into(s0, x + 1, y, z, level);
        lemma_spread_into(s1, x - 1, y, z, level);
        lemma_spread_into(s2, x, y + 1, z, level);
        lemma_spread_into(s3, x, y - 1, z, level);
        lemma_spread_into(s4, x, y, z + 1, level);
        lemma_spread_into(s5, x, y, z - 1, level);
        assert(spread_from(v, q, node) == s6);
        assert forall|i: int| 0 <= i < 65536 implies sky_of(#[trigger] s6.0.light[i]) == sky_of(
            v.light[i],
        ) && glow_of(s6.0.light[i]) >= glow_of(v.light[i]) by {
            assert(sky_of(s1.0.light[i]) == sky_of(s0.0.light[i]));
            assert(sky_of(s2.0.light[i]) == sky_of(s1.0.light[i]));
            assert(sky_of(s3.0.light[i]) == sky_of(s2.0.light[i]));
            assert(sky_of(s4.0.light[i]) == sky_of(s3.0.light[i]));
            assert(sky_of(s5.0.light[i]) == sky_of(s4.0.light[i]));
            assert(sky_of(s6.0.light[i]) == sky_of(s5.0.light[i]));
        }
    }
}

/// Computes and updates the light of chunks. Between calls no work is pending.
pub struct LightingEngine {
    light_queue: VecDeque<LightNode>,
}

impl View for LightingEngine {
    type V = Seq<LightNode>;

    closed spec fn view(&self) -> Seq<LightNode> {
        self.light_queue@
    }
}

impl LightingEngine {
    /// Whether no work is pending.
    pub open spec fn wf(&self) -> bool {
        self@.len() == 0
    }

    pub fn new() -> (e: Self)
        ensures
            e.wf(),
    {
        Self { light_queue: VecDeque::new() }
    }

    /// Calculate the light of a chunk: sky light from the top of each column,
    /// light from emitting blocks, and the spread of both through
    /// transparent cells.
    pub fn calculate_chunk_lighting(&mut self, chunk: &mut Chunk)
        requires
            old(self).wf(),
            old(chunk)@.shaped(),
        ensures
            final(self).wf(),
            final(chunk)@ == lit(old(chunk)@),
            old(chunk).wf() ==> final(chunk).wf(),
    {
        proof {
            lemma_lit_sky(chunk@, 0, 0, 0);
        }
        assert(self@ =~= Seq::empty());
        self.calculate_sky_lighting(chunk);
        self.calculate_block_lighting(chunk);
        self.propagate_lighting(chunk);
    }

    /// Compute the sky light of the chunk and queue every cell that is
    /// exposed to the sky.
    fn calculate_sky_lighting(&mut self, chunk: &mut Chunk)
        requires
            old(chunk)@.shaped(),
            queue_ok(old(self)@),
        ensures
            final(chunk)@ == old(chunk)@.with_sky_pass(),
            final(self)@ == sky_nodes(old(chunk)@, old(self)@, 0),
            queue_ok(final(self)@),
    {
        let ghost v0 = chunk@;
        let ghost target = sky_nodes(chunk@, self@, 0);
        let mut x: usize = 0;
        while x < 16
            invariant
                0 <= x <= 16,
                v0 == old(chunk)@,
                v0.shaped(),
                chunk@.shaped(),
                queue_ok(self@),
                sky_nodes(v0, self@, x as int) == target,
                sky_passed(v0, chunk@, x as int, 0),
            decreases 16 - x,
        {
            let mut z: usize = 0;
            while z < 16
                invariant
                    0 <= x < 16,
                    0 <= z <= 16,
                    v0 == old(chunk)@,
                    v0.shaped(),
                    chunk@.shaped(),
                    queue_ok(self@),
                    sky_nodes(v0, sky_nodes_row(v0, self@, x as int, z as int), x + 1) == target,
                    sky_passed(v0, chunk@, x as int, z as int),
                decreases 16 - z,
            {
                proof {
                    lemma_sky_passed_column(v0, chunk@, x as int, z as int);
                    lemma_sky_nodes_agree(chunk@, v0, self@, x as int, z as int, 256);
                }
                self.sky_column(chunk, x, z);
                z = z + 1;
            }
            x = x + 1;
        }
        assert(chunk@.light =~= v0.with_sky_pass().light);
    }

    /// Compute the sky light of one column and queue its cells that are
    /// exposed to the sky, from the top down.
    #[verifier::rlimit(40)]
    fn sky_column(&mut self, chunk: &mut Chunk, x: usize, z: usize)
        requires
            old(chunk)@.shaped(),
            queue_ok(old(self)@),
            x < 16,
            z < 16,
        ensures
            final(chunk)@ == old(chunk)@.with_sky_column(x as int, z as int),
            final(chunk)@.shaped(),
            final(self)@ == sky_nodes_column(old(chunk)@, old(self)@, x as int, z as int, 256),
            queue_ok(final(self)@),
    {
        let ghost v0 = chunk@;
        let ghost target = sky_nodes_column(v0, self@, x as int, z as int, 256);
        let mut sky_light: u8 = 15;
        let mut y: usize = 256;
        while y > 0
            invariant
                0 <= x < 16,
                0 <= z < 16,
                0 <= y <= 256,
                v0 == old(chunk)@,
                chunk@.shaped(),
                queue_ok(self@),
                sky_nodes_column(v0, self@, x as int, z as int, y as int) == target,
                chunk@.blocks == v0.blocks,
                chunk@.heights == v0.heights,
                chunk@.dirty == v0.dirty,
                chunk@.coordinate == v0.coordinate,
                sky_light == v0.sky_level(x as int, y as int, z as int),
                forall|i: int|
                    0 <= i < 65536 ==> #[trigger] chunk@.light[i] == (if i % 16 == x && (i / 16)
                        % 16 == z && i / 256 >= y {
                        v0.with_sky_column(x as int, z as int).light[i]
                    } else {
                        v0.light[i]
                    }),
            decreases y,
        {
            y = y - 1;
            let block = chunk.get_block(x, y, z);
            if !block.is_transparent() {
                sky_light = 0;
            }
            proof {
                lemma_sky_level_step(v0, x as int, y as int, z as int);
                assert(chunk@.block(x as int, y as int, z as int) == v0.block(
                    x as int,
                    y as int,
                    z as int,
                ));
                crate::chunk::lemma_index_of_cell(x as int, y as int, z as int);
            }
            chunk.set_sky_light(x, y, z, sky_light);
            if sky_light > 0 {
                let ghost q = self@;
                self.light_queue.push_back(LightNode { x, y, z, light_level: sky_light });
                proof {
                    lemma_queue_push(q, LightNode { x, y, z, light_level: sky_light });
                }
            }
        }
        assert(chunk@.light =~= v0.with_sky_column(x as int, z as int).light);
    }

    /// Give every emitting cell of the chunk its own light and queue it.
    fn calculate_block_lighting(&mut self, chunk: &mut Chunk)
        requires
            old(chunk)@.shaped(),
            queue_ok(old(self)@),
        ensures
            (final(chunk)@, final(self)@) == seed_box(
                (old(chunk)@, old(self)@),
                whole_chunk(),
                false,
            ),
            final(chunk)@.shaped(),
            queue_ok(final(self)@),
    {
        self.seed_box(chunk, 0, 15, 0, 255, 0, 15, false);
    }

    /// Seed one cell with the light its block emits.
    fn seed_cell(&mut self, chunk: &mut Chunk, x: usize, y: usize, z: usize, reset: bool)
        requires
            old(chunk)@.shaped(),
            queue_ok(old(self)@),
        ensures
            (final(chunk)@, final(self)@) == seed_cell(
                (old(chunk)@, old(self)@),
                x as int,
                y as int,
                z as int,
                reset,
            ),
            final(chunk)@.shaped(),
            queue_ok(final(self)@),
    {
        let block = chunk.get_block(x, y, z);
        let light_level = block.light_level();
        if light_level > 0 {
            chunk.set_block_light(x, y, z, light_level);
            let ghost q = self@;
            self.light_queue.push_back(LightNode { x, y, z, light_level });
            proof {
                lemma_queue_push(q, LightNode { x, y, z, light_level });
            }
        } else if reset {
            chunk.set_block_light(x, y, z, 0);
        }
    }

    /// Seed the cells of a box with the light their blocks emit.
    #[verifier::rlimit(40)]
    fn seed_box(
        &mut self,
        chunk: &mut Chunk,
        start_x: usize,
        end_x: usize,
        start_y: usize,
        end_y: usize,
        start_z: usize,
        end_z: usize,
        reset: bool,
    )
        requires
            old(chunk)@.shaped(),
            queue_ok(old(self)@),
            end_x <= 15,
            end_y <= 255,
            end_z <= 15,
        ensures
            (final(chunk)@, final(self)@) == seed_box(
                (old(chunk)@, old(self)@),
                LightBox {
                    start_x: start_x as int,
                    end_x: end_x as int,
                    start_y: start_y as int,
                    end_y: end_y as int,
                    start_z: start_z as int,
                    end_z: end_z as int,
                },
                reset,
            ),
            final(chunk)@.shaped(),
            queue_ok(final(self)@),
    {
        let ghost b = LightBox {
            start_x: start_x as int,
            end_x: end_x as int,
            start_y: start_y as int,
            end_y: end_y as int,
            start_z: start_z as int,
            end_z: end_z as int,
        };
        let ghost target = seed_box((chunk@, self@), b, reset);
        let mut x: usize = start_x;
        while x <= end_x
            invariant
                start_x <= x,
                end_x <= 15,
                end_y <= 255,
                end_z <= 15,
                b.start_y == start_y,
                b.start_z == start_z,
                b.end_x == end_x,
                b.end_y == end_y,
                b.end_z == end_z,
                chunk@.shaped(),
                queue_ok(self@),
                seed_slabs((chunk@, self@), b, x as int, reset) == target,
            decreases end_x + 1 - x,
        {
            let mut y: usize = start_y;
            while y <= end_y
                invariant
                    start_x <= x <= end_x,
                    start_y <= y,
                    end_x <= 15,
                    end_y <= 255,
                    end_z <= 15,
                    b.start_y == start_y,
                    b.start_z == start_z,
                    b.end_x == end_x,
                    b.end_y == end_y,
                    b.end_z == end_z,
                    chunk@.shaped(),
                    queue_ok(self@),
                    seed_slabs(seed_slab((chunk@, self@), b, x as int, y as int, reset), b, x + 1, reset)
                        == target,
                decreases end_y + 1 - y,
            {
                let mut z: usize = start_z;
                while z <= end_z
                    invariant
                        start_x <= x <= end_x,
                        start_y <= y <= end_y,
                        start_z <= z,
                        end_x <= 15,
                        end_y <= 255,
                        end_z <= 15,
                        b.start_y == start_y,
                        b.start_z == start_z,
                        b.end_x == end_x,
                        b.end_y == end_y,
                        b.end_z == end_z,
                        chunk@.shaped(),
                        queue_ok(self@),
                        seed_slabs(
                            seed_slab(
                                seed_line((chunk@, self@), b, x as int, y as int, z as int, reset),
                                b,
                                x as int,
                                y + 1,
                                reset,
                            ),
                            b,
                            x + 1,
                            reset,
                        ) == target,
                    decreases end_z + 1 - z,
                {
                    self.seed_cell(chunk, x, y, z, reset);
                    z = z + 1;
                }
                y = y + 1;
            }
            x = x + 1;
        }
    }

    /// Compute the block light anew in the cube of cells within `radius` of
    /// a cell, then let it spread.
    fn recalculate_area_lighting(
        &mut self,
        chunk: &mut Chunk,
        center_x: usize,
        center_y: usize,
        center_z: usize,
        radius: usize,
    )
        requires
            old(chunk)@.shaped(),
            old(self).wf(),
        ensures
            final(chunk)@ == relit_around(
                old(chunk)@,
                center_x as int,
                center_y as int,
                center_z as int,
                radius as int,
            ),
            final(chunk)@.shaped(),
            final(chunk)@.blocks == old(chunk)@.blocks,
            final(chunk)@.heights == old(chunk)@.heights,
            final(self).wf(),
    {
        let start_x = if center_x >= radius { center_x - radius } else { 0 };
        let start_y = if center_y >= radius { center_y - radius } else { 0 };
        let start_z = if center_z >= radius { center_z - radius } else { 0 };
        let end_x = if center_x <= 15 && radius <= 15 - center_x { center_x + radius } else { 15 };
        let end_y = if center_y <= 255 && radius <= 255 - center_y { center_y + radius } else { 255 };
        let end_z = if center_z <= 15 && radius <= 15 - center_z { center_z + radius } else { 15 };
        assert(self@ =~= Seq::empty());
        let ghost bare = (chunk@, self@);
        self.seed_box(chunk, start_x, end_x, start_y, end_y, start_z, end_z, true);
        let ghost seeded = (chunk@, self@);
        self.propagate_lighting(chunk);
        proof {
            lemma_seed_slabs(
                bare,
                area_around(center_x as int, center_y as int, center_z as int, radius as int),
                area_around(center_x as int, center_y as int, center_z as int, radius as int).start_x,
                true,
            );
            lemma_relaxed_keeps(seeded.0, seeded.1);
        }
    }

    /// Compute the sky light of one column anew, from the top down.
    fn recalculate_sky_column(&mut self, chunk: &mut Chunk, x: usize, z: usize)
        requires
            old(chunk)@.shaped(),
        ensures
            final(chunk)@ == old(chunk)@.with_sky_column(x as int, z as int),
            final(chunk)@.shaped(),
            final(chunk)@.blocks == old(chunk)@.blocks,
            final(chunk)@.heights == old(chunk)@.heights,
            final(self)@ == old(self)@,
    {
        chunk.calculate_column_lighting(x, z);
    }

    /// The block light of a cell given by signed coordinates; 0 outside the chunk.
    fn glow_at(chunk: &Chunk, x: i64, y: i64, z: i64) -> (level: u8)
        requires
            chunk@.shaped(),
        ensures
            level == chunk@.glow(x as int, y as int, z as int),
            level <= 15,
    {
        if 0 <= x && x < 16 && 0 <= y && y < 256 && 0 <= z && z < 16 {
            chunk.get_block_light(x as usize, y as usize, z as usize)
        } else {
            0
        }
    }

    /// The brightest block light among the six neighbours of a cell.
    fn brightest_neighbor(chunk: &Chunk, x: usize, y: usize, z: usize) -> (level: u8)
        requires
            chunk@.shaped(),
        ensures
            level == neighbor_glow(chunk@, x as int, y as int, z as int),
            level <= 15,
    {
        if x > 16 || y > 256 || z > 16 {
            return 0;
        }
        let (cx, cy, cz) = (x as i64, y as i64, z as i64);
        let east = Self::glow_at(chunk, cx + 1, cy, cz);
        let west = Self::glow_at(chunk, cx - 1, cy, cz);
        let up = Self::glow_at(chunk, cx, cy + 1, cz);
        let down = Self::glow_at(chunk, cx, cy - 1, cz);
        let north = Self::glow_at(chunk, cx, cy, cz + 1);
        let south = Self::glow_at(chunk, cx, cy, cz - 1);
        let along_x = if east >= west { east } else { west };
        let along_y = if up >= down { up } else { down };
        let along_z = if north >= south { north } else { south };
        let flat = if along_x >= along_y { along_x } else { along_y };
        if flat >= along_z {
            flat
        } else {
            along_z
        }
    }

    /// Take the light of the brightest neighbour of a cell, one level
    /// lower, into the cell and let it spread from there.
    fn propagate_light_to_position(&mut self, chunk: &mut Chunk, x: usize, y: usize, z: usize)
        requires
            old(chunk)@.shaped(),
            old(self).wf(),
        ensures
            final(chunk)@ == pulled_into(old(chunk)@, x as int, y as int, z as int),
            final(chunk)@.shaped(),
            final(chunk)@.blocks == old(chunk)@.blocks,
            final(chunk)@.heights == old(chunk)@.heights,
            final(self).wf(),
    {
        let max_light = Self::brightest_neighbor(chunk, x, y, z);
        if max_light > 1 {
            let new_light = max_light - 1;
            chunk.set_block_light(x, y, z, new_light);
            assert(self@ =~= Seq::empty());
            self.light_queue.push_back(LightNode { x, y, z, light_level: new_light });
            assert(self@ =~= seq![node_at(x as int, y as int, z as int, new_light)]);
            let ghost seeded = (chunk@, self@);
            self.propagate_lighting(chunk);
            proof {
                lemma_relaxed_keeps(seeded.0, seeded.1);
            }
        }
    }

    /// Update the light after a block was placed at a cell.
    pub fn update_lighting_add_block(&mut self, chunk: &mut Chunk, x: usize, y: usize, z: usize)
        requires
            old(self).wf(),
            old(chunk)@.shaped(),
        ensures
            final(self).wf(),
            final(chunk)@ == after_block_added(old(chunk)@, x as int, y as int, z as int),
            old(chunk).wf() ==> final(chunk).wf(),
    {
        let prior = chunk.get_block_light(x, y, z);
        chunk.set_sky_light(x, y, z, 0);
        chunk.set_block_light(x, y, z, 0);
        self.recalculate_area_lighting(chunk, x, y, z, prior as usize);
        proof {
            if old(chunk).wf() {
                lemma_wf_by_blocks(old(chunk)@, chunk@);
            }
        }
    }

    /// Update the light after a block was removed at a cell.
    pub fn update_lighting_remove_block(&mut self, chunk: &mut Chunk, x: usize, y: usize, z: usize)
        requires
            old(self).wf(),
            old(chunk)@.shaped(),
        ensures
            final(self).wf(),
            final(chunk)@ == after_block_removed(old(chunk)@, x as int, y as int, z as int),
            old(chunk).wf() ==> final(chunk).wf(),
    {
        let block = chunk.get_block(x, y, z);
        if block.light_level() > 0 {
            self.remove_light_source(chunk, x, y, z, block.light_level());
        }
        self.recalculate_sky_column(chunk, x, z);
        self.propagate_light_to_position(chunk, x, y, z);
        proof {
            if old(chunk).wf() {
                lemma_wf_by_blocks(old(chunk)@, chunk@);
            }
        }
    }

    /// Take back the light of a source by computing the light around it anew.
    fn remove_light_source(
        &mut self,
        chunk: &mut Chunk,
        x: usize,
        y: usize,
        z: usize,
        light_level: u8,
    )
        requires
            old(chunk)@.shaped(),
            old(self).wf(),
        ensures
            final(chunk)@ == relit_around(
                old(chunk)@,
                x as int,
                y as int,
                z as int,
                light_level as int,
            ),
            final(chunk)@.shaped(),
            final(chunk)@.blocks == old(chunk)@.blocks,
            final(chunk)@.heights == old(chunk)@.heights,
            final(self).wf(),
    {
        self.recalculate_area_lighting(chunk, x, y, z, light_level as usize);
    }

    /// Count, in the 3 x 3 x 3 cube of cells around a block position, the cells
    /// of the chunk that are not transparent, and the cells of the chunk.
    /// A vertex there is darkened by three tenths of the first count
    /// over the second, and not at all where the second is 0.
    pub fn calculate_ambient_occlusion(&self, chunk: &Chunk, x: i32, y: i32, z: i32) -> (r: (
        u32,
        u32,
    ))
        requires
            chunk@.shaped(),
        ensures
            (r.0 as int, r.1 as int) == occlusion_upto(chunk@, x as int, y as int, z as int, 27),
            r.0 <= r.1 <= 27,
    {
        let mut occluded: u32 = 0;
        let mut sample_count: u32 = 0;
        let mut k: i64 = 0;
        while k < 27
            invariant
                0 <= k <= 27,
                chunk@.shaped(),
                occluded <= sample_count <= k,
                (occluded as int, sample_count as int) == occlusion_upto(
                    chunk@,
                    x as int,
                    y as int,
                    z as int,
                    k as int,
                ),
            decreases 27 - k,
        {
            let check_x: i64 = x as i64 + k / 9 - 1;
            let check_y: i64 = y as i64 + (k / 3) % 3 - 1;
            let check_z: i64 = z as i64 + k % 3 - 1;
            if check_x >= 0 && check_x < 16 && check_y >= 0 && check_y < 256 && check_z >= 0
                && check_z < 16 {
                let block = chunk.get_block(check_x as usize, check_y as usize, check_z as usize);
                if !block.is_transparent() {
                    occluded = occluded + 1;
                }
                sample_count = sample_count + 1;
            }
            k = k + 1;
        }
        (occluded, sample_count)
    }

    /// Let light of one level arrive at a cell.
    fn spread_into(&mut self, chunk: &mut Chunk, x: usize, y: usize, z: usize, level: u8)
        requires
            old(chunk)@.shaped(),
            in_bounds(x as int, y as int, z as int),
        ensures
            (final(chunk)@, final(self)@) == spread_into(
                (old(chunk)@, old(self)@),
                x as int,
                y as int,
                z as int,
                level,
            ),
    {
        let neighbor_block = chunk.get_block(x, y, z);
        if neighbor_block.is_transparent() {
            let current_light = chunk.get_block_light(x, y, z);
            if level > current_light {
                chunk.set_block_light(x, y, z, level);
                self.light_queue.push_back(LightNode { x, y, z, light_level: level });
            }
        }
    }

    /// Spread the light of the queued nodes through the chunk until the queue
    /// is empty.
    fn propagate_lighting(&mut self, chunk: &mut Chunk)
        requires
            old(chunk)@.shaped(),
            queue_ok(old(self)@),
        ensures
            final(chunk)@ == relaxed(old(chunk)@, old(self)@),
            final(self)@.len() == 0,
    {
        loop
            invariant
                chunk@.shaped(),
                queue_ok(self@),
                relaxed(chunk@, self@) == relaxed(old(chunk)@, old(self)@),
            ensures
                chunk@ == relaxed(old(chunk)@, old(self)@),
                self@.len() == 0,
            decreases darkness(chunk@), self@.len(),
        {
            let ghost v = chunk@;
            let ghost q = self@;
            let popped = self.light_queue.pop_front();
            let node = match popped {
                Some(node) => node,
                None => {
                    break ;
                },
            };
            proof {
                lemma_queue_rest(q);
                lemma_spread_from(v, q.subrange(1, q.len() as int), node);
                lemma_dark_sum_bounds(v.light, 65536);
                lemma_dark_sum_bounds(
                    spread_from(v, q.subrange(1, q.len() as int), node).0.light,
                    65536,
                );
            }
            if node.light_level > 1 {
                let level = node.light_level - 1;
                if node.y < 256 && node.z < 16 {
                    if node.x < 15 {
                        self.spread_into(chunk, node.x + 1, node.y, node.z, level);
                    }
                    if 1 <= node.x && node.x <= 16 {
                        self.spread_into(chunk, node.x - 1, node.y, node.z, level);
                    }
                }
                if node.x < 16 && node.z < 16 {
                    if node.y < 255 {
                        self.spread_into(chunk, node.x, node.y + 1, node.z, level);
                    }
                    if 1 <= node.y && node.y <= 256 {
                        self.spread_into(chunk, node.x, node.y - 1, node.z, level);
                    }
                }
                if node.x < 16 && node.y < 256 {
                    if node.z < 15 {
                        self.spread_into(chunk, node.x, node.y, node.z + 1, level);
                    }
                    if 1 <= node.z && node.z <= 16 {
                        self.spread_into(chunk, node.x, node.y, node.z - 1, level);
                    }
                }
            }
            assert((chunk@, self@) == spread_from(v, q.subrange(1, q.len() as int), node));
        }
    }
}

impl Default for LightingEngine {
    fn default() -> (e: Self)
        ensures
            e.wf(),
    {
        Self::new()
    }
}

} // verus!
