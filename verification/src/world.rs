//! The world: the chunks that are loaded, streamed by their distance from a
//! position, with block access in world coordinates and ray casting.

use vstd::prelude::*;
use std::collections::hash_map::Entry;
use std::collections::HashMap;
use crate::block::BlockType;
use crate::chunk::{Chunk, ChunkCoordinate, ChunkView};
use crate::generation::{generated, ChunkNoise, NoiseField, NoiseView, WorldGenerator};

verus! {

broadcast use vstd::std_specs::hash::group_hash_axioms;

/// A position in blocks.
#[derive(Debug, Clone, Copy, PartialEq, Eq, Hash, Structural)]
pub struct BlockPosition {
    pub x: i32,
    pub y: i32,
    pub z: i32,
}

/// A point or a displacement in thousandths of a block.
#[derive(Debug, Clone, Copy, PartialEq, Eq, Hash, Structural)]
pub struct MilliVector {
    pub x: i32,
    pub y: i32,
    pub z: i32,
}

/// A ray for picking blocks. All lengths are in thousandths of a block.
#[derive(Debug, Clone, Copy, PartialEq, Eq, Structural)]
pub struct Ray {
    /// Where the ray starts.
    pub origin: MilliVector,
    /// How far the ray gets along each axis per block of travel.
    pub direction: MilliVector,
    /// How far the ray reaches.
    pub max_distance: u32,
}

/// What a ray hit.
#[derive(Debug, Clone, Copy, PartialEq, Eq, Structural)]
pub struct RaycastHit {
    /// The block that was hit.
    pub position: BlockPosition,
    /// How far the ray travelled, in thousandths of a block.
    pub distance: u32,
    /// The kind of the block that was hit.
    pub block_type: BlockType,
}

/// The distance between two samples along a ray, in thousandths of a block.
pub const RAY_STEP: u32 = 100;

/// One coordinate of the point that a ray reaches after a distance, in
/// thousandths of a block.
pub open spec fn ray_reach(origin: int, direction: int, t: int) -> int {
    origin + direction * t / 1000
}

/// The block position that a ray reaches after a distance.
pub open spec fn ray_cell(ray: Ray, t: int) -> (int, int, int) {
    (
        ray_reach(ray.origin.x as int, ray.direction.x as int, t) / 1000,
        ray_reach(ray.origin.y as int, ray.direction.y as int, t) / 1000,
        ray_reach(ray.origin.z as int, ray.direction.z as int, t) / 1000,
    )
}

/// Whether a block position can be named with `i32` coordinates.
pub open spec fn nameable(p: (int, int, int)) -> bool {
    &&& i32::MIN <= p.0 <= i32::MAX
    &&& i32::MIN <= p.1 <= i32::MAX
    &&& i32::MIN <= p.2 <= i32::MAX
}

/// The least render distance, in chunks.
pub const MIN_RENDER_DISTANCE: i32 = 1;

/// The greatest render distance, in chunks.
pub const MAX_RENDER_DISTANCE: i32 = 32;

/// The seed of a world made without one.
pub const DEFAULT_SEED: u64 = 12345;

/// The key of a chunk in the map of chunks.
pub open spec fn chunk_key(c: ChunkCoordinate) -> u64 {
    ((c.x + 2147483648) * 4294967296 + (c.z + 2147483648)) as u64
}

/// Two chunks share a key only if they share their coordinate.
pub proof fn lemma_chunk_key_injective(a: ChunkCoordinate, b: ChunkCoordinate)
    requires
        chunk_key(a) == chunk_key(b),
    ensures
        a == b,
{
}

/// The chunk that holds a block column, by floor division.
pub open spec fn chunk_of(x: int, z: int) -> ChunkCoordinate {
    ChunkCoordinate { x: (x / 16) as i32, z: (z / 16) as i32 }
}

/// The squared distance between a chunk and a centre, in chunks.
pub open spec fn distance_squared(c: ChunkCoordinate, center: ChunkCoordinate) -> int {
    (c.x - center.x) * (c.x - center.x) + (c.z - center.z) * (c.z - center.z)
}

/// Whether a chunk lies within a radius of a centre: in the circle, not the square.
pub open spec fn within(c: ChunkCoordinate, center: ChunkCoordinate, radius: int) -> bool {
    distance_squared(c, center) <= radius * radius
}

/// A distance behind the render distance, in chunks, within which loaded
/// chunks stay loaded.
pub const UNLOAD_MARGIN: i32 = 2;

/// Whether a chunk came out of the generator of a seed, with noise that a
/// sampler gave for it.
pub open spec fn generated_by<F: Fn(NoiseField, i64, i64, i64) -> i32>(
    seed: u64,
    c: ChunkCoordinate,
    sampler: F,
    v: ChunkView,
) -> bool {
    exists|noise: NoiseView| #[trigger] noise.sampled_from(c, sampler) && v == generated(seed, c, noise)
}

/// A list of coordinates without one of them.
pub open spec fn without(list: Seq<ChunkCoordinate>, c: ChunkCoordinate) -> Seq<ChunkCoordinate>
    decreases list.len(),
{
    if list.len() == 0 {
        list
    } else if list.last() == c {
        without(list.drop_last(), c)
    } else {
        without(list.drop_last(), c).push(list.last())
    }
}

/// A list of coordinates without those that lie beyond a radius of a centre.
pub open spec fn without_far(list: Seq<ChunkCoordinate>, center: ChunkCoordinate, radius: int) -> Seq<
    ChunkCoordinate,
>
    decreases list.len(),
{
    if list.len() == 0 {
        list
    } else if within(list.last(), center, radius) {
        without_far(list.drop_last(), center, radius).push(list.last())
    } else {
        without_far(list.drop_last(), center, radius)
    }
}

/// A list that a coordinate joins holds what it held and that coordinate.
pub proof fn lemma_push_contains(list: Seq<ChunkCoordinate>, c: ChunkCoordinate, a: ChunkCoordinate)
    ensures
        list.push(c).contains(a) <==> list.contains(a) || a == c,
{
    let p = list.push(c);
    if list.contains(a) {
        let i = choose|i: int| 0 <= i < list.len() && list[i] == a;
        assert(p[i] == a);
    }
    if a == c {
        assert(p[list.len() as int] == c);
    }
    if p.contains(a) {
        let j = choose|j: int| 0 <= j < p.len() && p[j] == a;
        if j < list.len() {
            assert(list[j] == a);
        }
    }
}

/// A list without duplicates that a new coordinate joins has no duplicates.
pub proof fn lemma_push_no_duplicates(list: Seq<ChunkCoordinate>, c: ChunkCoordinate)
    requires
        list.no_duplicates(),
        !list.contains(c),
    ensures
        list.push(c).no_duplicates(),
{
    let p = list.push(c);
    assert forall|i: int, j: int| 0 <= i < p.len() && 0 <= j < p.len() && i != j implies p[i]
        != p[j] by {
        if i == list.len() {
            assert(list[j] == p[j]);
            assert(list.contains(p[j]));
        } else if j == list.len() {
            assert(list[i] == p[i]);
            assert(list.contains(p[i]));
        }
    }
}

/// A list without duplicates has none when its last coordinate leaves, and
/// holds that coordinate nowhere else.
pub proof fn lemma_drop_last_no_duplicates(list: Seq<ChunkCoordinate>)
    requires
        list.no_duplicates(),
        list.len() > 0,
    ensures
        list.drop_last().no_duplicates(),
        !list.drop_last().contains(list.last()),
{
    let rest = list.drop_last();
    assert forall|i: int, j: int| 0 <= i < rest.len() && 0 <= j < rest.len() && i != j implies rest[i]
        != rest[j] by {
        assert(rest[i] == list[i] && rest[j] == list[j]);
    }
    if rest.contains(list.last()) {
        let i = choose|i: int| 0 <= i < rest.len() && rest[i] == list.last();
        assert(list[i] == list[list.len() - 1]);
    }
}

/// A list without one coordinate holds the others.
pub proof fn lemma_without_contains(list: Seq<ChunkCoordinate>, c: ChunkCoordinate, a: ChunkCoordinate)
    ensures
        without(list, c).contains(a) <==> list.contains(a) && a != c,
    decreases list.len(),
{
    if list.len() > 0 {
        let rest = list.drop_last();
        let last = list.last();
        assert(list == rest.push(last));
        lemma_without_contains(rest, c, a);
        lemma_push_contains(rest, last, a);
        if last != c {
            lemma_push_contains(without(rest, c), last, a);
        }
    } else {
        if list.contains(a) {
            let i = choose|i: int| 0 <= i < list.len() && list[i] == a;
        }
    }
}

/// A list without one coordinate holds the others, each as often as before.
pub proof fn lemma_without(list: Seq<ChunkCoordinate>, c: ChunkCoordinate)
    ensures
        forall|a: ChunkCoordinate| without(list, c).contains(a) <==> list.contains(a) && a != c,
        list.no_duplicates() ==> without(list, c).no_duplicates(),
    decreases list.len(),
{
    assert forall|a: ChunkCoordinate| without(list, c).contains(a) <==> list.contains(a) && a
        != c by {
        lemma_without_contains(list, c, a);
    }
    if list.len() > 0 && list.no_duplicates() {
        let rest = list.drop_last();
        let last = list.last();
        lemma_drop_last_no_duplicates(list);
        lemma_without(rest, c);
        if last != c {
            lemma_without_contains(rest, c, last);
            lemma_push_no_duplicates(without(rest, c), last);
        }
    }
}

/// A list without its far coordinates holds the near ones.
pub proof fn lemma_without_far_contains(
    list: Seq<ChunkCoordinate>,
    center: ChunkCoordinate,
    radius: int,
    a: ChunkCoordinate,
)
    ensures
        without_far(list, center, radius).contains(a) <==> list.contains(a) && within(
            a,
            center,
            radius,
        ),
    decreases list.len(),
{
    if list.len() > 0 {
        let rest = list.drop_last();
        let last = list.last();
        assert(list == rest.push(last));
        lemma_without_far_contains(rest, center, radius, a);
        lemma_push_contains(rest, last, a);
        if within(last, center, radius) {
            lemma_push_contains(without_far(rest, center, radius), last, a);
        }
    } else {
        if list.contains(a) {
            let i = choose|i: int| 0 <= i < list.len() && list[i] == a;
        }
    }
}

/// A list without its far coordinates holds the near ones, each as often as before.
pub proof fn lemma_without_far(list: Seq<ChunkCoordinate>, center: ChunkCoordinate, radius: int)
    ensures
        forall|a: ChunkCoordinate|
            without_far(list, center, radius).contains(a) <==> list.contains(a) && within(
                a,
                center,
                radius,
            ),
        list.no_duplicates() ==> without_far(list, center, radius).no_duplicates(),
    decreases list.len(),
{
    assert forall|a: ChunkCoordinate|
        without_far(list, center, radius).contains(a) <==> list.contains(a) && within(
            a,
            center,
            radius,
        ) by {
        lemma_without_far_contains(list, center, radius, a);
    }
    if list.len() > 0 && list.no_duplicates() {
        let rest = list.drop_last();
        let last = list.last();
        lemma_drop_last_no_duplicates(list);
        lemma_without_far(rest, center, radius);
        if within(last, center, radius) {
            lemma_without_far_contains(rest, center, radius, last);
            lemma_push_no_duplicates(without_far(rest, center, radius), last);
        }
    }
}

/// A chunk within a radius of a centre lies within that many chunks of it
/// along each axis.
pub proof fn lemma_within_box(c: ChunkCoordinate, center: ChunkCoordinate, radius: int)
    requires
        0 <= radius,
        within(c, center, radius),
    ensures
        center.x - radius <= c.x <= center.x + radius,
        center.z - radius <= c.z <= center.z + radius,
{
    let dx = c.x - center.x;
    let dz = c.z - center.z;
    assert(dx * dx <= radius * radius && dz * dz <= radius * radius) by (nonlinear_arith)
        requires
            dx * dx + dz * dz <= radius * radius,
    ;
    assert(-radius <= dx <= radius) by (nonlinear_arith)
        requires
            dx * dx <= radius * radius,
            0 <= radius,
    ;
    assert(-radius <= dz <= radius) by (nonlinear_arith)
        requires
            dz * dz <= radius * radius,
            0 <= radius,
    ;
}

/// The list of loaded chunks after the chunks of one row of the square
/// around a centre were loaded from `z` on: every chunk of the row within the
/// radius that the list does not name joins it.
pub open spec fn loaded_row(
    list: Seq<ChunkCoordinate>,
    center: ChunkCoordinate,
    radius: int,
    x: int,
    z: int,
) -> Seq<ChunkCoordinate>
    decreases center.z + radius + 1 - z,
{
    if z > center.z + radius {
        list
    } else {
        let c = ChunkCoordinate { x: x as i32, z: z as i32 };
        loaded_row(
            if within(c, center, radius) && !list.contains(c) {
                list.push(c)
            } else {
                list
            },
            center,
            radius,
            x,
            z + 1,
        )
    }
}

/// The list of loaded chunks after the chunks of the rows from `x` on of the
/// square around a centre were loaded.
pub open spec fn loaded_rows(list: Seq<ChunkCoordinate>, center: ChunkCoordinate, radius: int, x: int) -> Seq<
    ChunkCoordinate,
>
    decreases center.x + radius + 1 - x,
{
    if x > center.x + radius {
        list
    } else {
        loaded_rows(
            loaded_row(list, center, radius, x, center.z - radius),
            center,
            radius,
            x + 1,
        )
    }
}

/// The list of loaded chunks after the world streamed around a centre: the
/// missing chunks within the radius joined it row by row, then the chunks
/// more than two beyond the radius left it.
pub open spec fn streamed(list: Seq<ChunkCoordinate>, center: ChunkCoordinate, radius: int) -> Seq<
    ChunkCoordinate,
> {
    without_far(loaded_rows(list, center, radius, center.x - radius), center, radius + 2)
}

/// Whether the scan of the square around a centre, row by row along x and
/// within a row along z, has passed a chunk when it stands at (px, pz).
pub open spec fn scanned(c: ChunkCoordinate, center: ChunkCoordinate, radius: int, px: int, pz: int) -> bool {
    &&& center.x - radius <= c.x
    &&& center.z - radius <= c.z <= center.z + radius
    &&& (c.x < px || (c.x == px && c.z < pz))
}

/// A ray that meets nothing but air and what is not loaded, wherever it is
/// sampled, hits nothing.
pub proof fn lemma_ray_through_air(w: WorldView, ray: Ray, t: int)
    requires
        forall|s: int|
            t <= s < ray.max_distance && nameable(ray_cell(ray, s)) ==> {
                let p = ray_cell(ray, s);
                #[trigger] w.block_at(p.0, p.1, p.2) is None || w.block_at(p.0, p.1, p.2) == Some(
                    BlockType::Air,
                )
            },
    ensures
        w.first_hit(ray, t) is None,
    decreases ray.max_distance + 100 - t,
{
    if t < ray.max_distance {
        let p = ray_cell(ray, t);
        if nameable(p) {
            assert(w.block_at(p.0, p.1, p.2) is None || w.block_at(p.0, p.1, p.2) == Some(
                BlockType::Air,
            ));
        }
        lemma_ray_through_air(w, ray, t + 100);
    }
}

/// What a ray hits is a block that is loaded and not air, at the position
/// the ray reaches after the distance of the hit; the distance is a whole
/// number of steps within the reach of the ray, and nothing is hit before.
pub proof fn lemma_first_hit(w: WorldView, ray: Ray, t: int)
    requires
        0 <= t,
        w.first_hit(ray, t) is Some,
    ensures
        ({
            let hit = w.first_hit(ray, t)->0;
            let p = ray_cell(ray, hit.distance as int);
            &&& t <= hit.distance < ray.max_distance
            &&& (hit.distance - t) % 100 == 0
            &&& nameable(p)
            &&& hit.position == (BlockPosition { x: p.0 as i32, y: p.1 as i32, z: p.2 as i32 })
            &&& w.block_at(p.0, p.1, p.2) == Some(hit.block_type)
            &&& hit.block_type != BlockType::Air
            &&& forall|s: int|
                t <= s < hit.distance && (s - t) % 100 == 0 ==> #[trigger] w.sample(ray, s) is None
        }),
    decreases ray.max_distance + 100 - t,
{
    if w.sample(ray, t) is None {
        lemma_first_hit(w, ray, t + 100);
        let hit = w.first_hit(ray, t)->0;
        assert forall|s: int| t <= s < hit.distance && (s - t) % 100 == 0 implies #[trigger] w.sample(
            ray,
            s,
        ) is None by {
            if s != t {
                assert(s >= t + 100);
                assert((s - (t + 100)) % 100 == 0);
            }
        }
    }
}

/// A block that was set in a loaded chunk is the block that is found there,
/// and every other block of the world is as it was. The coordinates are
/// those that `i32` can hold.
pub proof fn lemma_set_then_get_at(
    w: WorldView,
    x: int,
    y: int,
    z: int,
    block: BlockType,
    x2: int,
    y2: int,
    z2: int,
)
    requires
        w.wf(),
        w.block_at(x, y, z) is Some,
        i32::MIN <= x <= i32::MAX,
        i32::MIN <= z <= i32::MAX,
        i32::MIN <= x2 <= i32::MAX,
        i32::MIN <= z2 <= i32::MAX,
    ensures
        w.with_block_at(x, y, z, block).block_at(x, y, z) == Some(block),
        (x2, y2, z2) != (x, y, z) ==> w.with_block_at(x, y, z, block).block_at(x2, y2, z2)
            == w.block_at(x2, y2, z2),
        w.with_block_at(x, y, z, block).wf(),
{
    let c = chunk_of(x, z);
    let v = w.chunks[c];
    assert(w.chunks.contains_key(c));
    assert(v.wf());
    crate::chunk::lemma_with_block_wf(v, x % 16, y, z % 16, block);
    let after = w.with_block_at(x, y, z, block);
    assert forall|d: ChunkCoordinate| after.loaded.contains(d) <==> after.chunks.contains_key(d) by {
        assert(w.loaded.contains(d) <==> w.chunks.contains_key(d));
    }
    assert forall|d: ChunkCoordinate| #[trigger]
        after.chunks.contains_key(d) implies after.chunks[d].wf() && after.chunks[d].coordinate
        == d by {
        assert(w.chunks.contains_key(d));
    }
    if (x2, y2, z2) != (x, y, z) && 0 <= y2 < 256 && w.chunks.contains_key(chunk_of(x2, z2)) {
        if chunk_of(x2, z2) == c {
            assert(x2 / 16 == x / 16 && z2 / 16 == z / 16);
            assert(x2 % 16 != x % 16 || y2 != y || z2 % 16 != z % 16);
        }
    }
}

/// What a world holds.
pub struct WorldView {
    /// The loaded chunks by their coordinate.
    pub chunks: Map<ChunkCoordinate, ChunkView>,
    /// The coordinates of the loaded chunks, in the order in which they were loaded.
    pub loaded: Seq<ChunkCoordinate>,
    /// The radius, in chunks, within which chunks are loaded.
    pub render_distance: int,
    /// The seed from which chunks are generated.
    pub seed: u64,
    /// Where a player enters the world.
    pub spawn_point: BlockPosition,
}

impl WorldView {
    /// The list of loaded chunks names every chunk of the map once and no
    /// other, every chunk is well-formed and stands under its own
    /// coordinate, and the render distance is between 1 and 32.
    pub open spec fn wf(self) -> bool {
        &&& self.loaded.no_duplicates()
        &&& forall|c: ChunkCoordinate| self.loaded.contains(c) <==> self.chunks.contains_key(c)
        &&& forall|c: ChunkCoordinate| #[trigger]
            self.chunks.contains_key(c) ==> self.chunks[c].wf() && self.chunks[c].coordinate == c
        &&& 1 <= self.render_distance <= 32
    }

    /// The block at a world position: none where the height lies outside the
    /// chunks or the chunk is not loaded.
    pub open spec fn block_at(self, x: int, y: int, z: int) -> Option<BlockType> {
        if 0 <= y < 256 && self.chunks.contains_key(chunk_of(x, z)) {
            Some(self.chunks[chunk_of(x, z)].block(x % 16, y, z % 16))
        } else {
            None
        }
    }

    /// What a ray hits after a distance: the block at the position it
    /// reaches, if that block is loaded and is not air.
    pub open spec fn sample(self, ray: Ray, t: int) -> Option<RaycastHit> {
        let p = ray_cell(ray, t);
        if nameable(p) {
            match self.block_at(p.0, p.1, p.2) {
                Some(block) => if block != BlockType::Air {
                    Some(
                        RaycastHit {
                            position: BlockPosition { x: p.0 as i32, y: p.1 as i32, z: p.2 as i32 },
                            distance: t as u32,
                            block_type: block,
                        },
                    )
                } else {
                    None
                },
                None => None,
            }
        } else {
            None
        }
    }

    /// The first hit of a ray that is sampled every tenth of a block from
    /// the distance `t` on, as far as it reaches.
    pub open spec fn first_hit(self, ray: Ray, t: int) -> Option<RaycastHit>
        decreases ray.max_distance + 100 - t,
    {
        if t >= ray.max_distance {
            None
        } else if self.sample(ray, t) is Some {
            self.sample(ray, t)
        } else {
            self.first_hit(ray, t + 100)
        }
    }

    /// The world after a block is set at a world position; the same world
    /// where the height lies outside the chunks or the chunk is not loaded.
    pub open spec fn with_block_at(self, x: int, y: int, z: int, block: BlockType) -> WorldView {
        if 0 <= y < 256 && self.chunks.contains_key(chunk_of(x, z)) {
            WorldView {
                chunks: self.chunks.insert(
                    chunk_of(x, z),
                    self.chunks[chunk_of(x, z)].with_block(x % 16, y, z % 16, block),
                ),
                ..self
            }
        } else {
            self
        }
    }
}

/// The chunks of a map by their coordinates.
pub closed spec fn chunks_by_coordinate(m: Map<u64, Chunk>) -> Map<ChunkCoordinate, ChunkView> {
    Map::new(
        |c: ChunkCoordinate| m.contains_key(chunk_key(c)),
        |c: ChunkCoordinate| m[chunk_key(c)]@,
    )
}

/// Whether every chunk of a map is well-formed and kept under the key of its
/// coordinate.
pub closed spec fn keyed(m: Map<u64, Chunk>) -> bool {
    forall|k: u64| #[trigger]
        m.contains_key(k) ==> chunk_key(m[k]@.coordinate) == k && m[k].wf()
}

/// Replacing a loaded chunk by a well-formed one of the same coordinate
/// keeps a world well-formed, and replaces what the world holds under that
/// coordinate.
proof fn lemma_chunk_changed(m: Map<u64, Chunk>, c: ChunkCoordinate, chunk: Chunk)
    requires
        m.contains_key(chunk_key(c)),
    ensures
        chunks_by_coordinate(m.insert(chunk_key(c), chunk)) == chunks_by_coordinate(m).insert(
            c,
            chunk@,
        ),
        keyed(m) && chunk.wf() && chunk@.coordinate == c ==> keyed(m.insert(chunk_key(c), chunk)),
{
    let a = chunks_by_coordinate(m.insert(chunk_key(c), chunk));
    let b = chunks_by_coordinate(m).insert(c, chunk@);
    assert forall|d: ChunkCoordinate| #[trigger] a.contains_key(d) == b.contains_key(d) by {
        if chunk_key(d) == chunk_key(c) {
            lemma_chunk_key_injective(d, c);
        }
    }
    assert forall|d: ChunkCoordinate| #[trigger] a.contains_key(d) implies a[d] == b[d] by {
        if chunk_key(d) == chunk_key(c) {
            lemma_chunk_key_injective(d, c);
        }
    }
    assert(a =~= b);
}

/// The world: its loaded chunks and what streams them.
pub struct World {
    chunks: HashMap<u64, Chunk>,
    generator: WorldGenerator,
    seed: u64,
    spawn_point: BlockPosition,
    loaded_chunks: Vec<ChunkCoordinate>,
    render_distance: i32,
}

impl View for World {
    type V = WorldView;

    closed spec fn view(&self) -> WorldView {
        WorldView {
            chunks: chunks_by_coordinate(self.chunks@),
            loaded: self.loaded_chunks@,
            render_distance: self.render_distance as int,
            seed: self.seed,
            spawn_point: self.spawn_point,
        }
    }
}

impl World {
    /// The well-formedness of a world: that of what it holds, and every
    /// chunk is kept under the key of its coordinate.
    pub closed spec fn wf(&self) -> bool {
        &&& self@.wf()
        &&& self.generator@ == self.seed
        &&& keyed(self.chunks@)
    }

    /// A well-formed world holds what is well-formed.
    pub proof fn lemma_wf(&self)
        requires
            self.wf(),
        ensures
            self@.wf(),
    {
    }

    /// The key of a chunk in the map of chunks.
    fn key_of(coord: ChunkCoordinate) -> (k: u64)
        ensures
            k == chunk_key(coord),
    {
        let high: u64 = (coord.x as i64 + 2147483648) as u64;
        let low: u64 = (coord.z as i64 + 2147483648) as u64;
        high * 4294967296 + low
    }

    /// Create a world with the default seed.
    pub fn new() -> (w: Self)
        ensures
            w.wf(),
            w@ == (WorldView {
                chunks: Map::empty(),
                loaded: Seq::empty(),
                render_distance: 8,
                seed: DEFAULT_SEED,
                spawn_point: BlockPosition { x: 0, y: 100, z: 0 },
            }),
    {
        Self::with_seed(DEFAULT_SEED)
    }

    /// Create a world with a seed: no chunk loaded, render distance 8, and
    /// the spawn point at height 100 above the origin.
    pub fn with_seed(seed: u64) -> (w: Self)
        ensures
            w.wf(),
            w@ == (WorldView {
                chunks: Map::empty(),
                loaded: Seq::empty(),
                render_distance: 8,
                seed,
                spawn_point: BlockPosition { x: 0, y: 100, z: 0 },
            }),
    {
        let w = Self {
            chunks: HashMap::new(),
            generator: WorldGenerator::new(seed),
            seed,
            spawn_point: BlockPosition { x: 0, y: 100, z: 0 },
            loaded_chunks: Vec::new(),
            render_distance: 8,
        };
        assert(w@.chunks =~= Map::empty());
        assert(w@.loaded =~= Seq::empty());
        w
    }

    /// Advance the world by a span of time in milliseconds: nothing in the
    /// world changes with time yet.
    pub fn update(&mut self, _delta_millis: u32)
        ensures
            *final(self) == *old(self),
    {
    }

    /// Whether the chunk at a coordinate is loaded.
    pub fn is_chunk_loaded(&self, coord: ChunkCoordinate) -> (r: bool)
        ensures
            r == self@.chunks.contains_key(coord),
    {
        let key = Self::key_of(coord);
        self.chunks.contains_key(&key)
    }

    /// The chunk at a coordinate, if it is loaded.
    pub fn get_chunk(&self, coord: ChunkCoordinate) -> (r: Option<&Chunk>)
        requires
            self.wf(),
        ensures
            r is Some <==> self@.chunks.contains_key(coord),
            r matches Some(chunk) ==> chunk@ == self@.chunks[coord] && chunk.wf()
                && chunk@.coordinate == coord,
    {
        let key = Self::key_of(coord);
        let r = self.chunks.get(&key);
        proof {
            if r is Some {
                assert(self.chunks@.contains_key(key));
                lemma_chunk_key_injective(self.chunks@[key]@.coordinate, coord);
            }
        }
        r
    }

    /// The chunk at a coordinate, if it is loaded, to be changed in place.
    /// The world stays well-formed if the chunk is left well-formed.
    pub fn get_chunk_mut(&mut self, coord: ChunkCoordinate) -> (r: Option<&mut Chunk>)
        requires
            old(self).wf(),
        ensures
            r is Some <==> old(self)@.chunks.contains_key(coord),
            match r {
                Some(chunk) => {
                    &&& chunk@ == old(self)@.chunks[coord]
                    &&& chunk.wf()
                    &&& final(self)@ == (WorldView {
                        chunks: old(self)@.chunks.insert(coord, final(chunk)@),
                        ..old(self)@
                    })
                    &&& final(chunk).wf() && final(chunk)@.coordinate == coord ==> final(self).wf()
                },
                None => final(self)@ == old(self)@ && final(self).wf(),
            },
    {
        let key = Self::key_of(coord);
        match self.chunks.entry(key) {
            Entry::Occupied(entry) => {
                let chunk = entry.into_mut();
                proof {
                    assert(old(self).chunks@.contains_key(key));
                    lemma_chunk_key_injective(old(self).chunks@[key]@.coordinate, coord);
                    lemma_chunk_changed(old(self).chunks@, coord, *final(chunk));
                }
                Some(chunk)
            },
            Entry::Vacant(_) => {
                assert(old(self).chunks@.remove(key) =~= old(self).chunks@);
                None
            },
        }
    }

    /// The block at a world position; `None` where the height lies outside
    /// the chunks or the chunk is not loaded.
    pub fn get_block_at(&self, x: i32, y: i32, z: i32) -> (r: Option<BlockType>)
        requires
            self.wf(),
        ensures
            r == self@.block_at(x as int, y as int, z as int),
    {
        if y < 0 || y >= 256 {
            return None;
        }
        let chunk_coord = ChunkCoordinate { x: Self::floor_div_16(x), z: Self::floor_div_16(z) };
        if let Some(chunk) = self.get_chunk(chunk_coord) {
            let local_x = Self::floor_mod_16(x);
            let local_z = Self::floor_mod_16(z);
            Some(chunk.get_block(local_x, y as usize, local_z))
        } else {
            None
        }
    }

    /// Set the block at a world position. Returns whether the position lies
    /// in a loaded chunk; nothing changes where it does not.
    pub fn set_block_at(&mut self, x: i32, y: i32, z: i32, block: BlockType) -> (r: bool)
        requires
            old(self).wf(),
        ensures
            final(self).wf(),
            r == (old(self)@.block_at(x as int, y as int, z as int) is Some),
            final(self)@ == old(self)@.with_block_at(x as int, y as int, z as int, block),
    {
        if y < 0 || y >= 256 {
            return false;
        }
        let chunk_coord = ChunkCoordinate { x: Self::floor_div_16(x), z: Self::floor_div_16(z) };
        let key = Self::key_of(chunk_coord);
        match self.chunks.remove(&key) {
            Some(mut chunk) => {
                let local_x = Self::floor_mod_16(x);
                let local_z = Self::floor_mod_16(z);
                proof {
                    lemma_chunk_key_injective(chunk@.coordinate, chunk_coord);
                }
                chunk.set_block(local_x, y as usize, local_z, block);
                self.chunks.insert(key, chunk);
                proof {
                    let want = old(self)@.with_block_at(x as int, y as int, z as int, block);
                    assert forall|c: ChunkCoordinate| #[trigger]
                        self@.chunks.contains_key(c) == want.chunks.contains_key(c) by {
                        if chunk_key(c) == key {
                            lemma_chunk_key_injective(c, chunk_coord);
                        }
                    }
                    assert forall|c: ChunkCoordinate| #[trigger]
                        self@.chunks.contains_key(c) implies self@.chunks[c] == want.chunks[c] by {
                        if chunk_key(c) == key {
                            lemma_chunk_key_injective(c, chunk_coord);
                        }
                    }
                    assert(self@.chunks =~= want.chunks);
                }
                true
            },
            None => {
                assert(self.chunks@ =~= old(self).chunks@);
                false
            },
        }
    }

    /// Stream the chunks around a block column: generate and load every
    /// chunk within the render distance of the chunk of that column that is
    /// missing, asking the sampler for its noise; then unload every chunk
    /// that lies more than two chunks beyond the render distance.
    pub fn load_chunks_around<F: Fn(NoiseField, i64, i64, i64) -> i32>(
        &mut self,
        x: i32,
        z: i32,
        sampler: &F,
    )
        requires
            old(self).wf(),
            forall|field: NoiseField, px: i64, py: i64, pz: i64|
                call_requires(*sampler, (field, px, py, pz)),
        ensures
            final(self).wf(),
            final(self)@.render_distance == old(self)@.render_distance,
            final(self)@.seed == old(self)@.seed,
            final(self)@.spawn_point == old(self)@.spawn_point,
            final(self)@.loaded == streamed(
                old(self)@.loaded,
                chunk_of(x as int, z as int),
                old(self)@.render_distance,
            ),
            forall|c: ChunkCoordinate|
                within(c, chunk_of(x as int, z as int), old(self)@.render_distance)
                    ==> #[trigger] final(self)@.chunks.contains_key(c),
            forall|c: ChunkCoordinate|
                old(self)@.chunks.contains_key(c) && !within(
                    c,
                    chunk_of(x as int, z as int),
                    old(self)@.render_distance + 2,
                ) ==> !(#[trigger] final(self)@.chunks.contains_key(c)),
            forall|c: ChunkCoordinate| #[trigger]
                final(self)@.chunks.contains_key(c) <==> within(
                    c,
                    chunk_of(x as int, z as int),
                    old(self)@.render_distance,
                ) || (old(self)@.chunks.contains_key(c) && within(
                    c,
                    chunk_of(x as int, z as int),
                    old(self)@.render_distance + 2,
                )),
            forall|c: ChunkCoordinate| #[trigger]
                final(self)@.chunks.contains_key(c) && old(self)@.chunks.contains_key(c)
                    ==> final(self)@.chunks[c] == old(self)@.chunks[c],
            forall|c: ChunkCoordinate| #[trigger]
                final(self)@.chunks.contains_key(c) && !old(self)@.chunks.contains_key(c)
                    ==> generated_by(old(self)@.seed, c, *sampler, final(self)@.chunks[c]),
    {
        let center = ChunkCoordinate { x: Self::floor_div_16(x), z: Self::floor_div_16(z) };
        self.load_missing(center, sampler);
        self.unload_distant(center);
        proof {
            let r = old(self)@.render_distance;
            assert forall|c: ChunkCoordinate| within(c, center, r) implies within(c, center, r + 2) by {
                assert(r * r <= (r + 2) * (r + 2)) by (nonlinear_arith)
                    requires
                        0 <= r,
                ;
            }
        }
    }

    /// Generate and load every chunk within the render distance of a centre
    /// that is missing.
    #[verifier::rlimit(40)]
    fn load_missing<F: Fn(NoiseField, i64, i64, i64) -> i32>(
        &mut self,
        center: ChunkCoordinate,
        sampler: &F,
    )
        requires
            old(self).wf(),
            -134217728 <= center.x <= 134217727,
            -134217728 <= center.z <= 134217727,
            forall|field: NoiseField, px: i64, py: i64, pz: i64|
                call_requires(*sampler, (field, px, py, pz)),
        ensures
            final(self).wf(),
            final(self)@.render_distance == old(self)@.render_distance,
            final(self)@.seed == old(self)@.seed,
            final(self)@.spawn_point == old(self)@.spawn_point,
            final(self)@.loaded == loaded_rows(
                old(self)@.loaded,
                center,
                old(self)@.render_distance,
                center.x - old(self)@.render_distance,
            ),
            forall|c: ChunkCoordinate| #[trigger]
                final(self)@.chunks.contains_key(c) <==> old(self)@.chunks.contains_key(c) || within(
                    c,
                    center,
                    old(self)@.render_distance,
                ),
            forall|c: ChunkCoordinate| #[trigger]
                old(self)@.chunks.contains_key(c) ==> final(self)@.chunks[c] == old(
                    self,
                )@.chunks[c],
            forall|c: ChunkCoordinate| #[trigger]
                final(self)@.chunks.contains_key(c) && !old(self)@.chunks.contains_key(c)
                    ==> generated_by(old(self)@.seed, c, *sampler, final(self)@.chunks[c]),
    {
        let radius = self.render_distance;
        let ghost r = radius as int;
        let first_x: i64 = center.x as i64 - radius as i64;
        let last_x: i64 = center.x as i64 + radius as i64;
        let first_z: i64 = center.z as i64 - radius as i64;
        let last_z: i64 = center.z as i64 + radius as i64;
        let ghost target = loaded_rows(self@.loaded, center, r, center.x - r);
        let mut cx: i64 = first_x;
        while cx <= last_x
            invariant
                self.wf(),
                loaded_rows(self@.loaded, center, r, cx as int) == target,
                1 <= r <= 32,
                r == radius,
                r == old(self)@.render_distance,
                -134217728 <= center.x <= 134217727,
                -134217728 <= center.z <= 134217727,
                first_x == center.x - r,
                last_x == center.x + r,
                first_z == center.z - r,
                last_z == center.z + r,
                first_x <= cx <= last_x + 1,
                self@.render_distance == old(self)@.render_distance,
                self@.seed == old(self)@.seed,
                self@.spawn_point == old(self)@.spawn_point,
                forall|field: NoiseField, px: i64, py: i64, pz: i64|
                    call_requires(*sampler, (field, px, py, pz)),
                forall|c: ChunkCoordinate| #[trigger]
                    self@.chunks.contains_key(c) <==> old(self)@.chunks.contains_key(c) || (within(
                        c,
                        center,
                        r,
                    ) && scanned(c, center, r, cx as int, first_z as int)),
                forall|c: ChunkCoordinate| #[trigger]
                    old(self)@.chunks.contains_key(c) ==> self@.chunks[c] == old(self)@.chunks[c],
                forall|c: ChunkCoordinate| #[trigger]
                    self@.chunks.contains_key(c) && !old(self)@.chunks.contains_key(c)
                        ==> generated_by(old(self)@.seed, c, *sampler, self@.chunks[c]),
            decreases last_x + 1 - cx,
        {
            let mut cz: i64 = first_z;
            while cz <= last_z
                invariant
                    self.wf(),
                    loaded_rows(loaded_row(self@.loaded, center, r, cx as int, cz as int), center, r, cx + 1)
                        == target,
                    1 <= r <= 32,
                    r == radius,
                    r == old(self)@.render_distance,
                    -134217728 <= center.x <= 134217727,
                    -134217728 <= center.z <= 134217727,
                    first_x == center.x - r,
                    last_x == center.x + r,
                    first_z == center.z - r,
                    last_z == center.z + r,
                    first_x <= cx <= last_x,
                    first_z <= cz <= last_z + 1,
                    self@.render_distance == old(self)@.render_distance,
                    self@.seed == old(self)@.seed,
                    self@.spawn_point == old(self)@.spawn_point,
                    forall|field: NoiseField, px: i64, py: i64, pz: i64|
                        call_requires(*sampler, (field, px, py, pz)),
                    forall|c: ChunkCoordinate| #[trigger]
                        self@.chunks.contains_key(c) <==> old(self)@.chunks.contains_key(c) || (
                        within(c, center, r) && scanned(c, center, r, cx as int, cz as int)),
                    forall|c: ChunkCoordinate| #[trigger]
                        old(self)@.chunks.contains_key(c) ==> self@.chunks[c] == old(
                            self,
                        )@.chunks[c],
                    forall|c: ChunkCoordinate| #[trigger]
                        self@.chunks.contains_key(c) && !old(self)@.chunks.contains_key(c)
                            ==> generated_by(old(self)@.seed, c, *sampler, self@.chunks[c]),
                decreases last_z + 1 - cz,
            {
                let coord = ChunkCoordinate { x: cx as i32, z: cz as i32 };
                let ghost before = self@;
                proof {
                    self.lemma_wf();
                    assert(before.loaded.contains(coord) <==> before.chunks.contains_key(coord));
                }
                if !Self::beyond(coord, center, radius) {
                    if !self.is_chunk_loaded(coord) {
                        let noise = ChunkNoise::sample(coord, sampler);
                        self.load_chunk(coord, &noise);
                        assert(generated_by(old(self)@.seed, coord, *sampler, self@.chunks[coord]))
                            by {
                            assert(noise@.sampled_from(coord, *sampler));
                        }
                    }
                }
                proof {
                    assert forall|c: ChunkCoordinate| #[trigger]
                        self@.chunks.contains_key(c) <==> old(self)@.chunks.contains_key(c) || (
                        within(c, center, r) && scanned(c, center, r, cx as int, cz + 1)) by {
                        assert(before.chunks.contains_key(c) <==> old(self)@.chunks.contains_key(c)
                            || (within(c, center, r) && scanned(
                            c,
                            center,
                            r,
                            cx as int,
                            cz as int,
                        )));
                        if c == coord {
                        } else {
                            assert(scanned(c, center, r, cx as int, cz + 1) == scanned(
                                c,
                                center,
                                r,
                                cx as int,
                                cz as int,
                            ));
                        }
                    }
                    assert forall|c: ChunkCoordinate| #[trigger]
                        old(self)@.chunks.contains_key(c) implies self@.chunks[c] == old(
                        self,
                    )@.chunks[c] by {
                        assert(before.chunks.contains_key(c));
                        assert(before.chunks[c] == old(self)@.chunks[c]);
                    }
                    assert forall|c: ChunkCoordinate| #[trigger]
                        self@.chunks.contains_key(c) && !old(self)@.chunks.contains_key(
                            c,
                        ) implies generated_by(old(self)@.seed, c, *sampler, self@.chunks[c]) by {
                        if c != coord {
                            assert(before.chunks.contains_key(c));
                            assert(generated_by(old(self)@.seed, c, *sampler, before.chunks[c]));
                        } else if before.chunks.contains_key(c) {
                            assert(generated_by(old(self)@.seed, c, *sampler, before.chunks[c]));
                        }
                    }
                }
                cz = cz + 1;
            }
            proof {
                assert forall|c: ChunkCoordinate| #[trigger]
                    self@.chunks.contains_key(c) <==> old(self)@.chunks.contains_key(c) || (within(
                        c,
                        center,
                        r,
                    ) && scanned(c, center, r, cx + 1, first_z as int)) by {
                    if within(c, center, r) {
                        lemma_within_box(c, center, r);
                    }
                    assert(within(c, center, r) ==> scanned(c, center, r, cx + 1, first_z as int)
                        == scanned(c, center, r, cx as int, cz as int));
                }
            }
            cx = cx + 1;
        }
        proof {
            assert forall|c: ChunkCoordinate| #[trigger]
                self@.chunks.contains_key(c) <==> old(self)@.chunks.contains_key(c) || within(
                    c,
                    center,
                    r,
                ) by {
                if within(c, center, r) {
                    lemma_within_box(c, center, r);
                    assert(scanned(c, center, r, cx as int, first_z as int));
                }
            }
        }
    }

    /// Unload every chunk that lies more than two chunks beyond the render
    /// distance of a centre.
    #[verifier::rlimit(40)]
    fn unload_distant(&mut self, center: ChunkCoordinate)
        requires
            old(self).wf(),
        ensures
            final(self).wf(),
            final(self)@ == (WorldView {
                chunks: old(self)@.chunks.restrict(
                    Set::new(
                        |c: ChunkCoordinate| within(c, center, old(self)@.render_distance + 2),
                    ),
                ),
                loaded: without_far(old(self)@.loaded, center, old(self)@.render_distance + 2),
                ..old(self)@
            }),
    {
        let limit = self.render_distance + UNLOAD_MARGIN;
        let ghost r = limit as int;
        let mut list: Vec<ChunkCoordinate> = Vec::new();
        core::mem::swap(&mut list, &mut self.loaded_chunks);
        let mut i: usize = 0;
        while i < list.len()
            invariant
                0 <= i <= list.len(),
                3 <= limit <= 34,
                r == limit,
                r == old(self)@.render_distance + 2,
                old(self).wf(),
                list@ == old(self)@.loaded,
                self.loaded_chunks@ == without_far(list@.take(i as int), center, r),
                self.generator == old(self).generator,
                self.seed == old(self).seed,
                self.spawn_point == old(self).spawn_point,
                self.render_distance == old(self).render_distance,
                forall|k: u64| #[trigger]
                    self.chunks@.contains_key(k) ==> old(self).chunks@.contains_key(k)
                        && self.chunks@[k] == old(self).chunks@[k],
                forall|c: ChunkCoordinate| #[trigger]
                    self.chunks@.contains_key(chunk_key(c)) <==> old(self).chunks@.contains_key(
                        chunk_key(c),
                    ) && !(list@.take(i as int).contains(c) && !within(c, center, r)),
            decreases list.len() - i,
        {
            let c = list[i];
            let ghost before = self.chunks@;
            proof {
                assert(list@.take(i + 1).drop_last() =~= list@.take(i as int));
                assert(list@.take(i + 1).last() == c);
            }
            if Self::beyond(c, center, limit) {
                let key = Self::key_of(c);
                self.chunks.remove(&key);
            } else {
                self.loaded_chunks.push(c);
            }
            proof {
                assert forall|a: ChunkCoordinate| #[trigger]
                    self.chunks@.contains_key(chunk_key(a)) <==> old(self).chunks@.contains_key(
                        chunk_key(a),
                    ) && !(list@.take(i + 1).contains(a) && !within(a, center, r)) by {
                    lemma_push_contains(list@.take(i as int), c, a);
                    assert(list@.take(i + 1) == list@.take(i as int).push(c));
                    assert(before.contains_key(chunk_key(a)) <==> old(self).chunks@.contains_key(
                        chunk_key(a),
                    ) && !(list@.take(i as int).contains(a) && !within(a, center, r)));
                    if chunk_key(a) == chunk_key(c) {
                        lemma_chunk_key_injective(a, c);
                    }
                }
            }
            i = i + 1;
        }
        proof {
            assert(list@.take(i as int) =~= list@);
            old(self).lemma_wf();
            lemma_without_far(old(self)@.loaded, center, r);
            let want = WorldView {
                chunks: old(self)@.chunks.restrict(
                    Set::new(|c: ChunkCoordinate| within(c, center, r)),
                ),
                loaded: without_far(old(self)@.loaded, center, r),
                ..old(self)@
            };
            assert forall|c: ChunkCoordinate| #[trigger]
                self@.chunks.contains_key(c) == want.chunks.contains_key(c) by {
                assert(old(self)@.loaded.contains(c) <==> old(self)@.chunks.contains_key(c));
            }
            assert forall|c: ChunkCoordinate| #[trigger]
                self@.chunks.contains_key(c) implies self@.chunks[c] == want.chunks[c] by {
                assert(self.chunks@.contains_key(chunk_key(c)));
            }
            assert(self@.chunks =~= want.chunks);
            assert(self@ == want);
            assert forall|c: ChunkCoordinate|
                want.loaded.contains(c) <==> want.chunks.contains_key(c) by {
                assert(old(self)@.loaded.contains(c) <==> old(self)@.chunks.contains_key(c));
            }
            assert forall|c: ChunkCoordinate| #[trigger] want.chunks.contains_key(c) implies want.chunks[c].wf()
                && want.chunks[c].coordinate == c by {
                assert(old(self)@.chunks.contains_key(c));
            }
            assert(self@.wf());
        }
    }

    /// Whether a chunk lies beyond a radius of a centre.
    fn beyond(c: ChunkCoordinate, center: ChunkCoordinate, radius: i32) -> (r: bool)
        requires
            0 <= radius <= 34,
        ensures
            r == !within(c, center, radius as int),
    {
        let dx: i64 = c.x as i64 - center.x as i64;
        let dz: i64 = c.z as i64 - center.z as i64;
        let limit: i64 = radius as i64;
        if dx > limit || dx < -limit || dz > limit || dz < -limit {
            proof {
                if within(c, center, radius as int) {
                    lemma_within_box(c, center, radius as int);
                }
            }
            return true;
        }
        assert(0 <= dx * dx <= 1156 && 0 <= dz * dz <= 1156 && 0 <= limit * limit <= 1156)
            by (nonlinear_arith)
            requires
                -34 <= dx <= 34,
                -34 <= dz <= 34,
                0 <= limit <= 34,
        ;
        dx * dx + dz * dz > limit * limit
    }

    /// Load the chunk at a coordinate from the noise sampled for it, unless
    /// it is loaded already.
    pub fn load_chunk(&mut self, coord: ChunkCoordinate, noise: &ChunkNoise)
        requires
            old(self).wf(),
            noise.wf(),
        ensures
            final(self).wf(),
            final(self)@ == (if old(self)@.chunks.contains_key(coord) {
                old(self)@
            } else {
                WorldView {
                    chunks: old(self)@.chunks.insert(
                        coord,
                        generated(old(self)@.seed, coord, noise@),
                    ),
                    loaded: old(self)@.loaded.push(coord),
                    ..old(self)@
                }
            }),
    {
        let key = Self::key_of(coord);
        if !self.chunks.contains_key(&key) {
            let chunk = self.generator.generate_chunk(coord, noise);
            self.chunks.insert(key, chunk);
            self.loaded_chunks.push(coord);
            proof {
                let want = WorldView {
                    chunks: old(self)@.chunks.insert(
                        coord,
                        generated(old(self)@.seed, coord, noise@),
                    ),
                    loaded: old(self)@.loaded.push(coord),
                    ..old(self)@
                };
                assert forall|c: ChunkCoordinate| #[trigger]
                    self@.chunks.contains_key(c) == want.chunks.contains_key(c) by {
                    if chunk_key(c) == key {
                        lemma_chunk_key_injective(c, coord);
                    }
                }
                assert forall|c: ChunkCoordinate| #[trigger]
                    self@.chunks.contains_key(c) implies self@.chunks[c] == want.chunks[c] by {
                    if chunk_key(c) == key {
                        lemma_chunk_key_injective(c, coord);
                    }
                }
                assert(self@.chunks =~= want.chunks);
                lemma_push_no_duplicates(old(self)@.loaded, coord);
                assert forall|c: ChunkCoordinate|
                    want.loaded.contains(c) <==> want.chunks.contains_key(c) by {
                    lemma_push_contains(old(self)@.loaded, coord, c);
                }
            }
        }
    }

    /// Unload the chunk at a coordinate; what was changed in it is lost.
    pub fn unload_chunk(&mut self, coord: ChunkCoordinate)
        requires
            old(self).wf(),
        ensures
            final(self).wf(),
            final(self)@ == (WorldView {
                chunks: old(self)@.chunks.remove(coord),
                loaded: without(old(self)@.loaded, coord),
                ..old(self)@
            }),
    {
        let key = Self::key_of(coord);
        self.chunks.remove(&key);
        let mut list: Vec<ChunkCoordinate> = Vec::new();
        core::mem::swap(&mut list, &mut self.loaded_chunks);
        let mut i: usize = 0;
        while i < list.len()
            invariant
                0 <= i <= list.len(),
                list@ == old(self)@.loaded,
                self.loaded_chunks@ == without(list@.take(i as int), coord),
                self.chunks@ == old(self).chunks@.remove(key),
                self.generator == old(self).generator,
                self.seed == old(self).seed,
                self.spawn_point == old(self).spawn_point,
                self.render_distance == old(self).render_distance,
            decreases list.len() - i,
        {
            let c = list[i];
            assert(list@.take(i + 1).drop_last() =~= list@.take(i as int));
            if !(c.x == coord.x && c.z == coord.z) {
                self.loaded_chunks.push(c);
            }
            i = i + 1;
        }
        proof {
            assert(list@.take(i as int) =~= list@);
            lemma_without(old(self)@.loaded, coord);
            let want = WorldView {
                chunks: old(self)@.chunks.remove(coord),
                loaded: without(old(self)@.loaded, coord),
                ..old(self)@
            };
            assert forall|c: ChunkCoordinate| #[trigger]
                self@.chunks.contains_key(c) == want.chunks.contains_key(c) by {
                if chunk_key(c) == key {
                    lemma_chunk_key_injective(c, coord);
                }
            }
            assert(self@.chunks =~= want.chunks);
            assert forall|c: ChunkCoordinate|
                want.loaded.contains(c) <==> want.chunks.contains_key(c) by {
                lemma_without_contains(old(self)@.loaded, coord, c);
                assert(old(self)@.loaded.contains(c) <==> old(self)@.chunks.contains_key(c));
            }
            assert forall|c: ChunkCoordinate| #[trigger] want.chunks.contains_key(c) implies want.chunks[c].wf()
                && want.chunks[c].coordinate == c by {
                assert(old(self)@.chunks.contains_key(c));
            }
            assert(self@ == want);
            assert(self@.wf());
        }
    }

    /// Cast a ray: sample it every tenth of a block from its origin, as far
    /// as it reaches, and return the first block that is loaded and not air.
    pub fn raycast(&self, ray: &Ray) -> (r: Option<RaycastHit>)
        requires
            self.wf(),
        ensures
            r == self@.first_hit(*ray, 0),
    {
        let mut t: u64 = 0;
        while t < ray.max_distance as u64
            invariant
                self.wf(),
                t <= ray.max_distance + 100,
                self@.first_hit(*ray, t as int) == self@.first_hit(*ray, 0),
            decreases ray.max_distance + 100 - t,
        {
            let px = Self::reach(ray.origin.x, ray.direction.x, t as u32);
            let py = Self::reach(ray.origin.y, ray.direction.y, t as u32);
            let pz = Self::reach(ray.origin.z, ray.direction.z, t as u32);
            if px >= -2147483648 && px <= 2147483647 && py >= -2147483648 && py <= 2147483647
                && pz >= -2147483648 && pz <= 2147483647 {
                if let Some(block) = self.get_block_at(px as i32, py as i32, pz as i32) {
                    if block != BlockType::Air {
                        return Some(
                            RaycastHit {
                                position: BlockPosition { x: px as i32, y: py as i32, z: pz as i32 },
                                distance: t as u32,
                                block_type: block,
                            },
                        );
                    }
                }
            }
            t = t + RAY_STEP as u64;
        }
        None
    }

    /// The block coordinate that a ray reaches along one axis after a distance.
    fn reach(origin: i32, direction: i32, t: u32) -> (p: i64)
        ensures
            p == ray_reach(origin as int, direction as int, t as int) / 1000,
    {
        assert(-9223372036854775807 <= direction * t <= 9223372036854775807) by (nonlinear_arith)
            requires
                -2147483648 <= direction <= 2147483647,
                0 <= t <= 4294967295,
        ;
        let travelled: i64 = Self::floor_div_1000(direction as i64 * t as i64);
        Self::floor_div_1000(origin as i64 + travelled)
    }

    /// The floor of a thousandth.
    fn floor_div_1000(a: i64) -> (q: i64)
        requires
            -9223372036854775807 <= a,
        ensures
            q == a as int / 1000,
    {
        if a >= 0 {
            a / 1000
        } else {
            let below: i64 = 0 - (a + 1);
            0 - 1 - below / 1000
        }
    }

    /// The chunk coordinate of a block coordinate: the floor of a sixteenth.
    fn floor_div_16(x: i32) -> (q: i32)
        ensures
            q == x as int / 16,
            -134217728 <= q <= 134217727,
    {
        if x >= 0 {
            x / 16
        } else {
            let up: i64 = (15 - x as i64) / 16;
            (0 - up) as i32
        }
    }

    /// The local coordinate of a block coordinate: what the floor of a
    /// sixteenth leaves.
    fn floor_mod_16(x: i32) -> (r: usize)
        ensures
            r == x as int % 16,
            r < 16,
    {
        let q = Self::floor_div_16(x);
        (x as i64 - 16 * (q as i64)) as usize
    }

    /// Where a player enters the world.
    pub fn spawn_point(&self) -> (p: BlockPosition)
        ensures
            p == self@.spawn_point,
    {
        self.spawn_point
    }

    /// Move the place where a player enters the world.
    pub fn set_spawn_point(&mut self, point: BlockPosition)
        ensures
            final(self)@ == (WorldView { spawn_point: point, ..old(self)@ }),
            old(self).wf() ==> final(self).wf(),
    {
        self.spawn_point = point;
    }

    /// The seed of the world.
    pub fn seed(&self) -> (s: u64)
        ensures
            s == self@.seed,
    {
        self.seed
    }

    /// The coordinates of the loaded chunks, in the order in which they were loaded.
    pub fn loaded_chunks(&self) -> (r: &[ChunkCoordinate])
        ensures
            r@ == self@.loaded,
    {
        self.loaded_chunks.as_slice()
    }

    /// Set the render distance, kept between 1 and 32.
    pub fn set_render_distance(&mut self, distance: i32)
        ensures
            final(self)@ == (WorldView {
                render_distance: if distance < 1 {
                    1
                } else if distance > 32 {
                    32
                } else {
                    distance as int
                },
                ..old(self)@
            }),
            old(self).wf() ==> final(self).wf(),
    {
        self.render_distance = if distance < MIN_RENDER_DISTANCE {
            MIN_RENDER_DISTANCE
        } else if distance > MAX_RENDER_DISTANCE {
            MAX_RENDER_DISTANCE
        } else {
            distance
        };
    }

    /// The render distance, in chunks.
    pub fn render_distance(&self) -> (r: i32)
        ensures
            r == self@.render_distance,
    {
        self.render_distance
    }
}

impl Default for World {
    fn default() -> (w: Self)
        ensures
            w.wf(),
    {
        Self::new()
    }
}

} // verus!
