use voxel_world::audio::AudioManager;
use voxel_world::block::BlockType;
use voxel_world::game::{
    block_for_hotbar_slot, breaking_progress_of, calculate_placement_position, GameManager, GameMode,
};
use voxel_world::generation::NoiseField;
use voxel_world::inventory::{Inventory, ItemStack};
use voxel_world::networking::NetworkManager;
use voxel_world::rendering::{CameraMovement, Face};
use voxel_world::world::{BlockPosition, MilliVector, Ray, RaycastHit, World};

/// A sampler for a mountain plateau at height 97 on which nothing grows.
fn plateau(field: NoiseField, _x: i64, _y: i64, _z: i64) -> i32 {
    match field {
        NoiseField::Temperature => -900000,
        _ => 0,
    }
}

fn plateau_world() -> World {
    let mut world = World::with_seed(1);
    world.set_render_distance(1);
    world.load_chunks_around(0, 0, &plateau);
    world
}

/// A ray straight down onto the block column (3, 3), five blocks long.
fn down() -> Ray {
    Ray {
        origin: MilliVector { x: 3500, y: 100500, z: 3500 },
        direction: MilliVector { x: 0, y: -1000, z: 0 },
        max_distance: 5000,
    }
}

#[test]
fn game_modes_are_distinct() {
    let modes = [GameMode::Survival, GameMode::Creative, GameMode::Adventure, GameMode::Spectator];
    for (i, a) in modes.iter().enumerate() {
        for (j, b) in modes.iter().enumerate() {
            assert_eq!(a == b, i == j);
        }
    }
}

#[test]
fn hotbar_slots_select_blocks() {
    let expected = [
        BlockType::Stone,
        BlockType::Dirt,
        BlockType::Grass,
        BlockType::Wood,
        BlockType::Sand,
        BlockType::Glass,
        BlockType::Cobblestone,
        BlockType::Leaves,
        BlockType::Torch,
    ];
    for (slot, block) in expected.iter().enumerate() {
        assert_eq!(block_for_hotbar_slot(slot), *block);
    }
    assert_eq!(block_for_hotbar_slot(9), BlockType::Stone);
    assert_eq!(block_for_hotbar_slot(usize::MAX), BlockType::Stone);
}

#[test]
fn breaking_takes_the_mining_time() {
    assert_eq!(breaking_progress_of(BlockType::Stone, 0), 0);
    assert_eq!(breaking_progress_of(BlockType::Stone, 750), 500);
    assert_eq!(breaking_progress_of(BlockType::Stone, 1499), 999);
    assert_eq!(breaking_progress_of(BlockType::Stone, 1500), 1000);
    assert_eq!(breaking_progress_of(BlockType::Stone, u32::MAX), 1000);
    assert_eq!(breaking_progress_of(BlockType::Obsidian, 14999), 999);
    assert_eq!(breaking_progress_of(BlockType::Obsidian, 5000), 333);
    assert_eq!(breaking_progress_of(BlockType::TallGrass, 99), 990);
    assert_eq!(breaking_progress_of(BlockType::TallGrass, 100), 1000);
    assert_eq!(breaking_progress_of(BlockType::Air, 0), 1000);
}

fn hit_at(x: i32, y: i32, z: i32) -> RaycastHit {
    RaycastHit { position: BlockPosition { x, y, z }, distance: 0, block_type: BlockType::Stone }
}

fn ray_along(x: i32, y: i32, z: i32) -> Ray {
    Ray { origin: MilliVector { x: 0, y: 0, z: 0 }, direction: MilliVector { x, y, z }, max_distance: 5000 }
}

#[test]
fn blocks_are_placed_against_the_ray() {
    let hit = hit_at(10, 20, 30);
    let cases = [
        ((1000, 0, 0), (9, 20, 30)),
        ((-1000, 0, 0), (11, 20, 30)),
        ((0, 1000, 0), (10, 19, 30)),
        ((0, -1000, 0), (10, 21, 30)),
        ((0, 0, 1000), (10, 20, 29)),
        ((0, 0, -1000), (10, 20, 31)),
        ((600, -800, 0), (10, 21, 30)),
        ((-300, 200, 900), (10, 20, 29)),
        ((500, 500, 500), (9, 20, 30)),
        ((-500, -500, -500), (11, 20, 30)),
        // Of two steps that point as much against the ray, the first is taken.
        ((500, -500, 0), (9, 20, 30)),
        ((499, -500, 0), (10, 21, 30)),
        ((0, 0, 0), (11, 20, 30)),
        ((i32::MIN, i32::MAX, 0), (11, 20, 30)),
        ((i32::MAX, i32::MIN, i32::MIN), (10, 21, 30)),
    ];
    for ((dx, dy, dz), (x, y, z)) in cases {
        assert_eq!(
            calculate_placement_position(&hit, &ray_along(dx, dy, dz)),
            Some(BlockPosition { x, y, z }),
            "direction {:?}",
            (dx, dy, dz)
        );
    }
}

#[test]
fn no_block_is_placed_beyond_the_numbers() {
    assert_eq!(calculate_placement_position(&hit_at(i32::MAX, 0, 0), &ray_along(-1, 0, 0)), None);
    assert_eq!(calculate_placement_position(&hit_at(i32::MIN, 0, 0), &ray_along(1, 0, 0)), None);
    assert_eq!(calculate_placement_position(&hit_at(0, i32::MAX, 0), &ray_along(0, -1, 0)), None);
    assert_eq!(calculate_placement_position(&hit_at(0, 0, i32::MIN), &ray_along(0, 0, 1)), None);
    assert_eq!(
        calculate_placement_position(&hit_at(i32::MAX, 0, 0), &ray_along(1, 0, 0)),
        Some(BlockPosition { x: i32::MAX - 1, y: 0, z: 0 })
    );
}

#[test]
fn faces_of_a_block() {
    assert_eq!(Face::all(), [Face::Top, Face::Bottom, Face::Front, Face::Back, Face::Left, Face::Right]);
    assert_eq!(Face::Top.normal(), [0, 1, 0]);
    assert_eq!(Face::Bottom.normal(), [0, -1, 0]);
    assert_eq!(Face::Front.normal(), [0, 0, 1]);
    assert_eq!(Face::Back.normal(), [0, 0, -1]);
    assert_eq!(Face::Left.normal(), [-1, 0, 0]);
    assert_eq!(Face::Right.normal(), [1, 0, 0]);
    assert_eq!(Face::Top.indices(0), [0, 1, 2, 0, 2, 3]);
    assert_eq!(Face::Left.indices(8), [8, 9, 10, 8, 10, 11]);
    assert_eq!(Face::Back.indices(u32::MAX - 3), [u32::MAX - 3, u32::MAX - 2, u32::MAX - 1, u32::MAX - 3, u32::MAX - 1, u32::MAX]);
    assert_ne!(CameraMovement::Forward, CameraMovement::Backward);
    assert_ne!(CameraMovement::Up, CameraMovement::Down);
}

#[test]
fn network_roles() {
    let mut net = NetworkManager::new();
    assert!(!net.is_server() && !net.is_client());
    assert_eq!(net.start_server(25565), Ok(()));
    assert!(net.is_server() && !net.is_client());
    assert_eq!(net.connect_to_server("localhost:25565"), Ok(()));
    net.update();
    assert!(net.is_server() && net.is_client());
    let net = NetworkManager::default();
    assert!(!net.is_server() && !net.is_client());
}

#[test]
fn audio_is_set_up() {
    let mut audio = AudioManager::new().unwrap();
    assert!(audio.is_initialized());
    audio.update();
    audio.play_sound("dig");
    audio.play_music("calm");
    audio.stop_music();
    audio.set_master_volume(80);
    audio.set_sound_volume(100);
    audio.set_music_volume(0);
    assert!(audio.is_initialized());
    assert!(AudioManager::default().is_initialized());
}

#[test]
fn a_new_game() {
    let game = GameManager::new();
    assert_eq!(game.game_mode(), GameMode::Creative);
    assert_eq!(game.selected_block_type(), BlockType::Stone);
    assert_eq!(game.breaking_progress(), 0);
    assert_eq!(game.breaking_target(), None);
    assert!(!game.is_paused() && !game.is_debug_mode() && !game.is_inventory_open());
    assert!(game.accepts_input());
    assert_eq!(GameManager::default().game_mode(), GameMode::Creative);
}

#[test]
fn toggles_and_selection() {
    let mut game = GameManager::new();
    game.toggle_pause();
    assert!(game.is_paused() && !game.accepts_input());
    game.toggle_pause();
    game.toggle_inventory();
    assert!(game.is_inventory_open() && !game.accepts_input());
    game.toggle_inventory();
    game.toggle_debug();
    assert!(game.is_debug_mode() && game.accepts_input());
    game.set_paused(true);
    assert!(game.is_paused());
    game.set_game_mode(GameMode::Survival);
    assert_eq!(game.game_mode(), GameMode::Survival);
    game.select_hotbar_slot(5);
    assert_eq!(game.selected_block_type(), BlockType::Glass);
    game.select_hotbar_slot(20);
    assert_eq!(game.selected_block_type(), BlockType::Stone);
}

#[test]
fn a_block_breaks_after_its_mining_time() {
    let mut world = plateau_world();
    let mut inventory = Inventory::new();
    let mut game = GameManager::new();
    let grass = BlockPosition { x: 3, y: 97, z: 3 };
    // Grass takes a second.
    game.handle_block_breaking(&down(), &mut world, &mut inventory, 400);
    assert_eq!(game.breaking_target(), Some(grass));
    assert_eq!(game.breaking_progress(), 400);
    game.handle_block_breaking(&down(), &mut world, &mut inventory, 599);
    assert_eq!(game.breaking_progress(), 999);
    assert_eq!(world.get_block_at(3, 97, 3), Some(BlockType::Grass));
    assert!(inventory.is_empty());
    game.handle_block_breaking(&down(), &mut world, &mut inventory, 1);
    assert_eq!(world.get_block_at(3, 97, 3), Some(BlockType::Air));
    assert_eq!(game.breaking_target(), None);
    assert_eq!(game.breaking_progress(), 0);
    // Grass drops dirt.
    assert_eq!(inventory.hotbar()[0], ItemStack::new(BlockType::Dirt, 1));
    assert_eq!(inventory.get_item_count(BlockType::Dirt), 1);
    // The dirt beneath comes next, in half a second.
    game.handle_block_breaking(&down(), &mut world, &mut inventory, 499);
    assert_eq!(game.breaking_target(), Some(BlockPosition { x: 3, y: 96, z: 3 }));
    assert_eq!(game.breaking_progress(), 998);
    game.handle_block_breaking(&down(), &mut world, &mut inventory, u32::MAX);
    assert_eq!(world.get_block_at(3, 96, 3), Some(BlockType::Air));
    assert_eq!(inventory.get_item_count(BlockType::Dirt), 2);
}

#[test]
fn another_block_starts_the_time_anew() {
    let mut world = plateau_world();
    let mut inventory = Inventory::new();
    let mut game = GameManager::new();
    game.handle_block_breaking(&down(), &mut world, &mut inventory, 900);
    let aside = Ray { origin: MilliVector { x: 4500, y: 100500, z: 3500 }, ..down() };
    game.handle_block_breaking(&aside, &mut world, &mut inventory, 900);
    assert_eq!(game.breaking_target(), Some(BlockPosition { x: 4, y: 97, z: 3 }));
    assert_eq!(game.breaking_progress(), 900);
    assert_eq!(world.get_block_at(3, 97, 3), Some(BlockType::Grass));
    assert_eq!(world.get_block_at(4, 97, 3), Some(BlockType::Grass));
    // A ray that hits nothing changes nothing.
    let up = Ray { direction: MilliVector { x: 0, y: 1000, z: 0 }, ..down() };
    game.handle_block_breaking(&up, &mut world, &mut inventory, 900);
    assert_eq!(game.breaking_target(), Some(BlockPosition { x: 4, y: 97, z: 3 }));
    assert_eq!(game.breaking_progress(), 900);
    // Neither breaking nor placing stops the breaking.
    game.handle_block_interaction(false, false, &aside, &mut world, &mut inventory, 900);
    assert_eq!(game.breaking_target(), None);
    assert_eq!(game.breaking_progress(), 0);
    game.handle_block_interaction(true, true, &aside, &mut world, &mut inventory, 100);
    assert_eq!(game.breaking_progress(), 100);
}

#[test]
fn time_passes_for_the_block_that_is_being_broken() {
    let mut world = plateau_world();
    let mut inventory = Inventory::new();
    let mut game = GameManager::new();
    game.update(500);
    assert_eq!(game.breaking_progress(), 0);
    game.handle_block_breaking(&down(), &mut world, &mut inventory, 100);
    // The progress between hits is that of the selected block: stone.
    game.update(200);
    assert_eq!(game.breaking_progress(), 200);
    game.set_paused(true);
    game.update(200);
    assert_eq!(game.breaking_progress(), 200);
    game.set_paused(false);
    game.update(u32::MAX);
    assert_eq!(game.breaking_progress(), 1000);
    assert_eq!(world.get_block_at(3, 97, 3), Some(BlockType::Grass));
}

#[test]
fn blocks_are_placed_for_free_in_creative_mode() {
    let mut world = plateau_world();
    let mut inventory = Inventory::new();
    let mut game = GameManager::new();
    game.select_hotbar_slot(6);
    game.handle_block_placement(&down(), &mut world, &mut inventory);
    assert_eq!(world.get_block_at(3, 98, 3), Some(BlockType::Cobblestone));
    assert!(inventory.is_empty());
    game.handle_block_interaction(false, true, &down(), &mut world, &mut inventory, 16);
    assert_eq!(world.get_block_at(3, 99, 3), Some(BlockType::Cobblestone));
    assert_eq!(world.get_block_at(3, 100, 3), Some(BlockType::Air));
}

#[test]
fn blocks_come_from_the_inventory_in_survival_mode() {
    let mut world = plateau_world();
    let mut inventory = Inventory::new();
    let mut game = GameManager::new();
    game.set_game_mode(GameMode::Survival);
    game.select_hotbar_slot(4);
    game.handle_block_placement(&down(), &mut world, &mut inventory);
    assert_eq!(world.get_block_at(3, 98, 3), Some(BlockType::Air));
    inventory.add_item(ItemStack::new(BlockType::Sand, 2));
    game.handle_block_placement(&down(), &mut world, &mut inventory);
    game.handle_block_placement(&down(), &mut world, &mut inventory);
    game.handle_block_placement(&down(), &mut world, &mut inventory);
    assert_eq!(world.get_block_at(3, 98, 3), Some(BlockType::Sand));
    assert_eq!(world.get_block_at(3, 99, 3), Some(BlockType::Sand));
    assert_eq!(world.get_block_at(3, 100, 3), Some(BlockType::Air));
    assert!(inventory.is_empty());
}

#[test]
fn blocks_replace_only_what_can_be_replaced() {
    let mut world = plateau_world();
    let mut inventory = Inventory::new();
    let game = GameManager::new();
    world.set_block_at(3, 98, 3, BlockType::TallGrass);
    // From the side: the ray hits the grass block at (3, 97, 3) from the west.
    let east = Ray {
        origin: MilliVector { x: 1500, y: 97500, z: 3500 },
        direction: MilliVector { x: 1000, y: 0, z: 0 },
        max_distance: 5000,
    };
    // The block in front of the first hit, (1, 97, 3), is grass: nothing is placed.
    game.handle_block_placement(&east, &mut world, &mut inventory);
    assert_eq!(world.get_block_at(1, 97, 3), Some(BlockType::Grass));
    assert_eq!(world.get_block_at(0, 97, 3), Some(BlockType::Grass));
    // From above onto the tall grass: the stone goes above it.
    game.handle_block_placement(&down(), &mut world, &mut inventory);
    assert_eq!(world.get_block_at(3, 98, 3), Some(BlockType::TallGrass));
    assert_eq!(world.get_block_at(3, 99, 3), Some(BlockType::Stone));
    // Water can be replaced.
    world.set_block_at(5, 98, 5, BlockType::Water);
    world.set_block_at(5, 97, 5, BlockType::Water);
    let into_water = Ray { origin: MilliVector { x: 5500, y: 99500, z: 5500 }, ..down() };
    game.handle_block_placement(&into_water, &mut world, &mut inventory);
    assert_eq!(world.get_block_at(5, 99, 5), Some(BlockType::Stone));
}
