//! Rules of play that need no more than the world: the game modes, the
//! block that a hotbar slot selects, how far a block is broken, and where a
//! block is placed against a block that a ray hit.

use vstd::prelude::*;
use crate::block::BlockType;
use crate::inventory::{Inventory, InventoryView, ItemStack};
use crate::world::{BlockPosition, MilliVector, RaycastHit, Ray, World, WorldView};

verus! {

/// The modes of play.
#[derive(Debug, Clone, Copy, PartialEq, Eq, Structural)]
pub enum GameMode {
    Survival,
    Creative,
    Adventure,
    Spectator,
}

/// The block that a hotbar slot selects.
pub open spec fn slot_block(slot: int) -> BlockType {
    if slot == 1 {
        BlockType::Dirt
    } else if slot == 2 {
        BlockType::Grass
    } else if slot == 3 {
        BlockType::Wood
    } else if slot == 4 {
        BlockType::Sand
    } else if slot == 5 {
        BlockType::Glass
    } else if slot == 6 {
        BlockType::Cobblestone
    } else if slot == 7 {
        BlockType::Leaves
    } else if slot == 8 {
        BlockType::Torch
    } else {
        BlockType::Stone
    }
}

/// The block that a hotbar slot selects: stone for the first slot and for
/// every slot that the hotbar does not have.
pub fn block_for_hotbar_slot(slot: usize) -> (b: BlockType)
    ensures
        b == slot_block(slot as int),
{
    match slot {
        0 => BlockType::Stone,
        1 => BlockType::Dirt,
        2 => BlockType::Grass,
        3 => BlockType::Wood,
        4 => BlockType::Sand,
        5 => BlockType::Glass,
        6 => BlockType::Cobblestone,
        7 => BlockType::Leaves,
        8 => BlockType::Torch,
        _ => BlockType::Stone,
    }
}

/// How far a block is broken after it was hit for a time, in thousandths:
/// the time over the mining time of the block, 1000 at most.
pub open spec fn breaking_progress(block: BlockType, millis: u32) -> int {
    if millis >= block.mining_millis() {
        1000
    } else {
        millis * 1000 / (block.mining_millis() as int)
    }
}

/// How far a block is broken after it was hit for a time in
/// milliseconds, in thousandths. A block is broken at 1000.
pub fn breaking_progress_of(block: BlockType, millis: u32) -> (p: u32)
    ensures
        p == breaking_progress(block, millis),
        p <= 1000,
        p == 1000 <==> millis >= block.mining_millis(),
{
    let needed = block.mining_time();
    if millis >= needed {
        1000
    } else {
        let p = (millis as u64 * 1000 / needed as u64) as u32;
        assert(millis * 1000 / (needed as int) < 1000) by (nonlinear_arith)
            requires
                0 <= millis < needed,
        ;
        p
    }
}

/// The step from a block that a ray hit to the block in front of it: one
/// block along an axis, against the direction of the ray. Of the six steps
/// east, west, up, down, north, south, the one that points most against
/// the ray, and of several such the first.
pub open spec fn placement_step(direction: MilliVector) -> (int, int, int) {
    let (x, y, z) = (direction.x as int, direction.y as int, direction.z as int);
    let best = (x, (1int, 0int, 0int));
    let best = if -x < best.0 {
        (-x, (-1int, 0int, 0int))
    } else {
        best
    };
    let best = if y < best.0 {
        (y, (0int, 1int, 0int))
    } else {
        best
    };
    let best = if -y < best.0 {
        (-y, (0int, -1int, 0int))
    } else {
        best
    };
    let best = if z < best.0 {
        (z, (0int, 0int, 1int))
    } else {
        best
    };
    let best = if -z < best.0 {
        (-z, (0int, 0int, -1int))
    } else {
        best
    };
    best.1
}

/// Where a block is placed against a block that a ray hit: one step from
/// the hit, against the direction of the ray; nowhere where `i32` cannot
/// hold the position.
pub open spec fn placement_position(hit: RaycastHit, ray: Ray) -> Option<BlockPosition> {
    let step = placement_step(ray.direction);
    let (x, y, z) = (hit.position.x + step.0, hit.position.y + step.1, hit.position.z + step.2);
    if i32::MIN <= x <= i32::MAX && i32::MIN <= y <= i32::MAX && i32::MIN <= z <= i32::MAX {
        Some(BlockPosition { x: x as i32, y: y as i32, z: z as i32 })
    } else {
        None
    }
}

/// Where a block is placed against a block that a ray hit: one step from
/// the hit, against the direction of the ray. `None` where `i32` cannot
/// hold the position.
pub fn calculate_placement_position(hit: &RaycastHit, ray: &Ray) -> (r: Option<BlockPosition>)
    ensures
        r == placement_position(*hit, *ray),
{
    let dx: i64 = ray.direction.x as i64;
    let dy: i64 = ray.direction.y as i64;
    let dz: i64 = ray.direction.z as i64;
    let mut best_dot: i64 = dx;
    let mut best: (i64, i64, i64) = (1, 0, 0);
    if -dx < best_dot {
        best_dot = -dx;
        best = (-1, 0, 0);
    }
    if dy < best_dot {
        best_dot = dy;
        best = (0, 1, 0);
    }
    if -dy < best_dot {
        best_dot = -dy;
        best = (0, -1, 0);
    }
    if dz < best_dot {
        best_dot = dz;
        best = (0, 0, 1);
    }
    if -dz < best_dot {
        best = (0, 0, -1);
    }
    let x: i64 = hit.position.x as i64 + best.0;
    let y: i64 = hit.position.y as i64 + best.1;
    let z: i64 = hit.position.z as i64 + best.2;
    if x < -2147483648 || x > 2147483647 || y < -2147483648 || y > 2147483647 || z < -2147483648
        || z > 2147483647 {
        None
    } else {
        Some(BlockPosition { x: x as i32, y: y as i32, z: z as i32 })
    }
}

/// What a game holds besides its world and its player.
pub struct GameView {
    pub game_mode: GameMode,
    /// The block that the player places.
    pub selected_block_type: BlockType,
    /// How far the block that is being broken is broken, in thousandths.
    pub breaking_progress: u32,
    /// The block that is being broken.
    pub breaking_target: Option<BlockPosition>,
    /// For how long the block has been hit, in milliseconds.
    pub breaking_time: u32,
    pub paused: bool,
    pub debug_mode: bool,
    pub show_inventory: bool,
}

impl GameView {
    /// The game with no block being broken.
    pub open spec fn at_rest(self) -> GameView {
        GameView { breaking_target: None, breaking_progress: 0, breaking_time: 0, ..self }
    }
}

/// A span of time longer by another, as far as `u32` holds it.
pub open spec fn longer(millis: u32, delta: u32) -> u32 {
    if millis + delta > u32::MAX {
        u32::MAX
    } else {
        (millis + delta) as u32
    }
}

/// The inventory after the drops of a block from the `i`-th on were added
/// to it, each as a stack; what finds no room is lost.
pub open spec fn with_drops(inv: InventoryView, drops: Seq<(BlockType, u32)>, i: int) -> InventoryView
    decreases drops.len() - i,
{
    if i < 0 || i >= drops.len() {
        inv
    } else {
        with_drops(
            inv.with_added(
                ItemStack { item_type: drops[i].0, count: drops[i].1, max_stack_size: 64 },
            ).0,
            drops,
            i + 1,
        )
    }
}

/// The game, the world and the inventory after the player hit what a ray
/// hits for a span of time. A ray that hits nothing changes nothing. Else
/// the time starts anew if another block was being broken, and the span is
/// added to it. When the time reaches the mining time of the block, the
/// block becomes air, its drops go to the inventory, and no block is being
/// broken; else the block is being broken.
pub open spec fn after_breaking(g: GameView, w: WorldView, inv: InventoryView, ray: Ray, delta: u32) -> (
    GameView,
    WorldView,
    InventoryView,
) {
    match w.first_hit(ray, 0) {
        None => (g, w, inv),
        Some(hit) => {
            let time = longer(
                if g.breaking_target == Some(hit.position) {
                    g.breaking_time
                } else {
                    0
                },
                delta,
            );
            if breaking_progress(hit.block_type, time) >= 1000 {
                (
                    g.at_rest(),
                    w.with_block_at(
                        hit.position.x as int,
                        hit.position.y as int,
                        hit.position.z as int,
                        BlockType::Air,
                    ),
                    with_drops(inv, hit.block_type.dropped(), 0),
                )
            } else {
                (
                    GameView {
                        breaking_target: Some(hit.position),
                        breaking_progress: breaking_progress(hit.block_type, time) as u32,
                        breaking_time: time,
                        ..g
                    },
                    w,
                    inv,
                )
            }
        },
    }
}

/// The world and the inventory after the player placed the selected block
/// against what a ray hits. Nothing changes where the ray hits nothing,
/// where the place in front of the hit is not loaded, or where the block
/// there cannot be replaced. In survival mode the block is taken from the
/// inventory, and nothing changes where the inventory holds none.
pub open spec fn after_placement(g: GameView, w: WorldView, inv: InventoryView, ray: Ray) -> (
    WorldView,
    InventoryView,
) {
    match w.first_hit(ray, 0) {
        None => (w, inv),
        Some(hit) => match placement_position(hit, ray) {
            None => (w, inv),
            Some(pos) => {
                let placed = w.with_block_at(
                    pos.x as int,
                    pos.y as int,
                    pos.z as int,
                    g.selected_block_type,
                );
                match w.block_at(pos.x as int, pos.y as int, pos.z as int) {
                    None => (w, inv),
                    Some(existing) => if !existing.replaceable() {
                        (w, inv)
                    } else if g.game_mode != GameMode::Survival {
                        (placed, inv)
                    } else if inv.count_of(g.selected_block_type) > 0 {
                        (placed, inv.with_removed(g.selected_block_type, 1).0)
                    } else {
                        (w, inv)
                    },
                }
            },
        },
    }
}

/// The rules of a game: its mode, the block that the player places, and the
/// block that the player is breaking.
pub struct GameManager {
    game_mode: GameMode,
    selected_block_type: BlockType,
    breaking_progress: u32,
    breaking_target: Option<BlockPosition>,
    breaking_time: u32,
    paused: bool,
    debug_mode: bool,
    show_inventory: bool,
}

impl View for GameManager {
    type V = GameView;

    closed spec fn view(&self) -> GameView {
        GameView {
            game_mode: self.game_mode,
            selected_block_type: self.selected_block_type,
            breaking_progress: self.breaking_progress,
            breaking_target: self.breaking_target,
            breaking_time: self.breaking_time,
            paused: self.paused,
            debug_mode: self.debug_mode,
            show_inventory: self.show_inventory,
        }
    }
}

impl GameManager {
    /// A game in creative mode, with stone selected and nothing being broken.
    pub fn new() -> (g: Self)
        ensures
            g@ == (GameView {
                game_mode: GameMode::Creative,
                selected_block_type: BlockType::Stone,
                breaking_progress: 0,
                breaking_target: None,
                breaking_time: 0,
                paused: false,
                debug_mode: false,
                show_inventory: false,
            }),
    {
        Self {
            game_mode: GameMode::Creative,
            selected_block_type: BlockType::Stone,
            breaking_progress: 0,
            breaking_target: None,
            breaking_time: 0,
            paused: false,
            debug_mode: false,
            show_inventory: false,
        }
    }

    /// Advance the game by a span of time in milliseconds: unless the game
    /// is paused, a block that is being broken is hit for that span, and its
    /// progress is that of the selected block after the time.
    pub fn update(&mut self, delta_millis: u32)
        ensures
            final(self)@ == (if !old(self)@.paused && old(self)@.breaking_target is Some {
                GameView {
                    breaking_time: longer(old(self)@.breaking_time, delta_millis),
                    breaking_progress: breaking_progress(
                        old(self)@.selected_block_type,
                        longer(old(self)@.breaking_time, delta_millis),
                    ) as u32,
                    ..old(self)@
                }
            } else {
                old(self)@
            }),
    {
        if self.paused {
            return ;
        }
        if self.breaking_target.is_some() {
            self.breaking_time = Self::add_time(self.breaking_time, delta_millis);
            self.breaking_progress = breaking_progress_of(
                self.selected_block_type,
                self.breaking_time,
            );
        }
    }

    /// A span of time longer by another, as far as `u32` holds it.
    fn add_time(millis: u32, delta: u32) -> (r: u32)
        ensures
            r == longer(millis, delta),
    {
        if delta > u32::MAX - millis {
            u32::MAX
        } else {
            millis + delta
        }
    }

    /// Pause the game, or go on with it.
    pub fn toggle_pause(&mut self)
        ensures
            final(self)@ == (GameView { paused: !old(self)@.paused, ..old(self)@ }),
    {
        self.paused = !self.paused;
    }

    /// Show what helps to find faults, or hide it.
    pub fn toggle_debug(&mut self)
        ensures
            final(self)@ == (GameView { debug_mode: !old(self)@.debug_mode, ..old(self)@ }),
    {
        self.debug_mode = !self.debug_mode;
    }

    /// Open the inventory, or close it.
    pub fn toggle_inventory(&mut self)
        ensures
            final(self)@ == (GameView { show_inventory: !old(self)@.show_inventory, ..old(self)@ }),
    {
        self.show_inventory = !self.show_inventory;
    }

    /// Whether the player acts on the world: the game is not paused and the
    /// inventory is closed.
    pub fn accepts_input(&self) -> (r: bool)
        ensures
            r == (!self@.paused && !self@.show_inventory),
    {
        !(self.paused || self.show_inventory)
    }

    /// Select the block of a hotbar slot.
    pub fn select_hotbar_slot(&mut self, slot: usize)
        ensures
            final(self)@ == (GameView { selected_block_type: slot_block(slot as int), ..old(self)@ }),
    {
        self.selected_block_type = block_for_hotbar_slot(slot);
    }

    /// Stop breaking: no block is being broken.
    pub fn stop_breaking(&mut self)
        ensures
            final(self)@ == old(self)@.at_rest(),
    {
        self.breaking_target = None;
        self.breaking_progress = 0;
        self.breaking_time = 0;
    }

    /// Let the player act on the block they look at: break it, or else
    /// place a block against it, or else stop breaking.
    pub fn handle_block_interaction(
        &mut self,
        break_block: bool,
        place_block: bool,
        ray: &Ray,
        world: &mut World,
        inventory: &mut Inventory,
        delta_millis: u32,
    )
        requires
            old(world).wf(),
        ensures
            final(world).wf(),
            break_block ==> (final(self)@, final(world)@, final(inventory)@) == after_breaking(
                old(self)@,
                old(world)@,
                old(inventory)@,
                *ray,
                delta_millis,
            ),
            !break_block && place_block ==> final(self)@ == old(self)@ && (
                final(world)@,
                final(inventory)@,
            ) == after_placement(old(self)@, old(world)@, old(inventory)@, *ray),
            !break_block && !place_block ==> final(self)@ == old(self)@.at_rest() && final(world)@
                == old(world)@ && final(inventory)@ == old(inventory)@,
    {
        if break_block {
            self.handle_block_breaking(ray, world, inventory, delta_millis);
        } else if place_block {
            self.handle_block_placement(ray, world, inventory);
        } else {
            self.stop_breaking();
        }
    }

    /// Hit the block that a ray hits for a span of time in milliseconds.
    pub fn handle_block_breaking(
        &mut self,
        ray: &Ray,
        world: &mut World,
        inventory: &mut Inventory,
        delta_millis: u32,
    )
        requires
            old(world).wf(),
        ensures
            final(world).wf(),
            (final(self)@, final(world)@, final(inventory)@) == after_breaking(
                old(self)@,
                old(world)@,
                old(inventory)@,
                *ray,
                delta_millis,
            ),
    {
        if let Some(hit) = world.raycast(ray) {
            let same = match self.breaking_target {
                Some(current) => current.x == hit.position.x && current.y == hit.position.y
                    && current.z == hit.position.z,
                None => false,
            };
            if !same {
                self.breaking_target = Some(hit.position);
                self.breaking_progress = 0;
                self.breaking_time = 0;
            }
            self.breaking_time = Self::add_time(self.breaking_time, delta_millis);
            self.breaking_progress = breaking_progress_of(hit.block_type, self.breaking_time);
            if self.breaking_progress >= 1000 {
                let drops = hit.block_type.drops();
                let ghost target = with_drops(inventory@, drops@, 0);
                let mut i: usize = 0;
                while i < drops.len()
                    invariant
                        0 <= i <= drops.len(),
                        with_drops(inventory@, drops@, i as int) == target,
                    decreases drops.len() - i,
                {
                    let (block_type, count) = drops[i];
                    inventory.add_item(ItemStack::new(block_type, count));
                    i = i + 1;
                }
                world.set_block_at(hit.position.x, hit.position.y, hit.position.z, BlockType::Air);
                self.breaking_target = None;
                self.breaking_progress = 0;
                self.breaking_time = 0;
            }
        }
    }

    /// Place the selected block against the block that a ray hits.
    pub fn handle_block_placement(&self, ray: &Ray, world: &mut World, inventory: &mut Inventory)
        requires
            old(world).wf(),
        ensures
            final(world).wf(),
            (final(world)@, final(inventory)@) == after_placement(
                self@,
                old(world)@,
                old(inventory)@,
                *ray,
            ),
    {
        if let Some(hit) = world.raycast(ray) {
            if let Some(pos) = calculate_placement_position(&hit, ray) {
                if let Some(existing) = world.get_block_at(pos.x, pos.y, pos.z) {
                    if existing.is_replaceable() {
                        if self.game_mode == GameMode::Survival {
                            if inventory.has_item(self.selected_block_type) {
                                inventory.remove_item(self.selected_block_type, 1);
                                world.set_block_at(pos.x, pos.y, pos.z, self.selected_block_type);
                            }
                        } else {
                            world.set_block_at(pos.x, pos.y, pos.z, self.selected_block_type);
                        }
                    }
                }
            }
        }
    }

    pub fn game_mode(&self) -> (m: GameMode)
        ensures
            m == self@.game_mode,
    {
        self.game_mode
    }

    pub fn set_game_mode(&mut self, mode: GameMode)
        ensures
            final(self)@ == (GameView { game_mode: mode, ..old(self)@ }),
    {
        self.game_mode = mode;
    }

    pub fn selected_block_type(&self) -> (b: BlockType)
        ensures
            b == self@.selected_block_type,
    {
        self.selected_block_type
    }

    /// How far the block that is being broken is broken, in thousandths.
    pub fn breaking_progress(&self) -> (p: u32)
        ensures
            p == self@.breaking_progress,
    {
        self.breaking_progress
    }

    pub fn breaking_target(&self) -> (t: Option<BlockPosition>)
        ensures
            t == self@.breaking_target,
    {
        self.breaking_target
    }

    pub fn is_paused(&self) -> (r: bool)
        ensures
            r == self@.paused,
    {
        self.paused
    }

    pub fn is_debug_mode(&self) -> (r: bool)
        ensures
            r == self@.debug_mode,
    {
        self.debug_mode
    }

    pub fn is_inventory_open(&self) -> (r: bool)
        ensures
            r == self@.show_inventory,
    {
        self.show_inventory
    }

    pub fn set_paused(&mut self, paused: bool)
        ensures
            final(self)@ == (GameView { paused, ..old(self)@ }),
    {
        self.paused = paused;
    }
}

impl Default for GameManager {
    fn default() -> (g: Self)
        ensures
            g@.game_mode == GameMode::Creative,
    {
        Self::new()
    }
}

} // verus!
