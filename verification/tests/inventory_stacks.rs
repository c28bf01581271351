use voxel_world::block::BlockType;
use voxel_world::inventory::{Inventory, ItemStack};

fn stack(item_type: BlockType, count: u32) -> ItemStack {
    ItemStack::new(item_type, count)
}

#[test]
fn new_and_empty_stacks() {
    let s = ItemStack::new(BlockType::Stone, 5);
    assert_eq!(s, ItemStack { item_type: BlockType::Stone, count: 5, max_stack_size: 64 });
    let e = ItemStack::empty();
    assert_eq!(e, ItemStack { item_type: BlockType::Air, count: 0, max_stack_size: 64 });
    assert!(e.is_empty());
    assert!(!s.is_empty());
    assert!(ItemStack::new(BlockType::Stone, 0).is_empty());
    assert!(ItemStack::new(BlockType::Air, 7).is_empty());
}

#[test]
fn full_stacks_and_stacking() {
    assert!(!stack(BlockType::Dirt, 63).is_full());
    assert!(stack(BlockType::Dirt, 64).is_full());
    assert!(stack(BlockType::Dirt, 65).is_full());
    assert!(stack(BlockType::Dirt, 1).can_stack_with(&stack(BlockType::Dirt, 64)));
    assert!(!stack(BlockType::Dirt, 64).can_stack_with(&stack(BlockType::Dirt, 1)));
    assert!(!stack(BlockType::Dirt, 1).can_stack_with(&stack(BlockType::Sand, 1)));
    assert!(ItemStack::empty().can_stack_with(&stack(BlockType::Air, 3)));
}

#[test]
fn adding_to_a_stack() {
    let mut s = stack(BlockType::Dirt, 60);
    assert_eq!(s.add(3), 0);
    assert_eq!(s.count, 63);
    assert_eq!(s.add(10), 9);
    assert_eq!(s.count, 64);
    assert_eq!(s.add(5), 5);
    assert_eq!(s.count, 64);
    assert_eq!(s.add(0), 0);
    let mut s = stack(BlockType::Dirt, 0);
    assert_eq!(s.add(u32::MAX), u32::MAX - 64);
    assert_eq!(s, stack(BlockType::Dirt, 64));
}

#[test]
fn removing_from_a_stack() {
    let mut s = stack(BlockType::Dirt, 10);
    assert_eq!(s.remove(4), 4);
    assert_eq!(s, stack(BlockType::Dirt, 6));
    assert_eq!(s.remove(0), 0);
    assert_eq!(s, stack(BlockType::Dirt, 6));
    assert_eq!(s.remove(100), 6);
    assert_eq!(s, ItemStack::empty());
    assert_eq!(s.remove(1), 0);
    let mut hollow = stack(BlockType::Sand, 0);
    assert_eq!(hollow.remove(0), 0);
    assert_eq!(hollow.item_type, BlockType::Air);
}

#[test]
fn a_new_inventory_is_empty() {
    let inv = Inventory::new();
    assert!(inv.is_empty());
    assert!(!inv.is_full());
    assert_eq!(inv.hotbar().len(), 9);
    assert_eq!(inv.main().len(), 27);
    assert_eq!(inv.armor().len(), 4);
    assert!(inv.hotbar().iter().chain(inv.main()).chain(inv.armor()).all(|s| *s == ItemStack::empty()));
    assert_eq!(*inv.offhand(), ItemStack::empty());
    assert_eq!(inv.get_item_count(BlockType::Stone), 0);
    assert!(!inv.has_item(BlockType::Stone));
    assert!(Inventory::default().is_empty());
}

#[test]
fn items_go_to_the_first_empty_slot() {
    let mut inv = Inventory::new();
    assert_eq!(inv.add_item(stack(BlockType::Stone, 10)), ItemStack::empty());
    assert_eq!(inv.hotbar()[0], stack(BlockType::Stone, 10));
    assert_eq!(inv.add_item(stack(BlockType::Dirt, 3)), ItemStack::empty());
    assert_eq!(inv.hotbar()[1], stack(BlockType::Dirt, 3));
    assert_eq!(inv.get_item_count(BlockType::Stone), 10);
    assert_eq!(inv.get_item_count(BlockType::Dirt), 3);
    assert!(inv.has_item(BlockType::Dirt));
    assert!(!inv.has_item(BlockType::Sand));
    assert!(!inv.is_empty());
}

#[test]
fn items_join_the_stacks_of_their_kind_first() {
    let mut inv = Inventory::new();
    inv.add_item(stack(BlockType::Stone, 60));
    inv.add_item(stack(BlockType::Dirt, 1));
    assert_eq!(inv.add_item(stack(BlockType::Stone, 10)), ItemStack::empty());
    assert_eq!(inv.hotbar()[0], stack(BlockType::Stone, 64));
    assert_eq!(inv.hotbar()[1], stack(BlockType::Dirt, 1));
    assert_eq!(inv.hotbar()[2], stack(BlockType::Stone, 6));
    assert_eq!(inv.add_item(stack(BlockType::Stone, 58)), ItemStack::empty());
    assert_eq!(inv.hotbar()[2], stack(BlockType::Stone, 64));
    assert_eq!(inv.hotbar()[3], ItemStack::empty());
    assert_eq!(inv.get_item_count(BlockType::Stone), 128);
}

#[test]
fn empty_stacks_change_nothing() {
    let mut inv = Inventory::new();
    assert_eq!(inv.add_item(ItemStack::empty()), ItemStack::empty());
    assert_eq!(inv.add_item(stack(BlockType::Stone, 0)), stack(BlockType::Stone, 0));
    assert_eq!(inv.add_item(stack(BlockType::Air, 9)), stack(BlockType::Air, 9));
    assert!(inv.is_empty());
}

#[test]
fn a_large_stack_is_kept_whole_in_an_empty_slot() {
    let mut inv = Inventory::new();
    assert_eq!(inv.add_item(stack(BlockType::Stone, 100)), ItemStack::empty());
    assert_eq!(inv.hotbar()[0], stack(BlockType::Stone, 100));
    assert_eq!(inv.get_item_count(BlockType::Stone), 100);
}

#[test]
fn a_full_inventory_gives_the_stack_back() {
    let mut inv = Inventory::new();
    for _ in 0..36 {
        assert_eq!(inv.add_item(stack(BlockType::Stone, 64)), ItemStack::empty());
    }
    assert!(inv.is_full());
    assert_eq!(inv.get_item_count(BlockType::Stone), 36 * 64);
    assert_eq!(inv.add_item(stack(BlockType::Stone, 5)), stack(BlockType::Stone, 5));
    assert_eq!(inv.add_item(stack(BlockType::Dirt, 5)), stack(BlockType::Dirt, 5));
    assert!(inv.main().iter().all(|s| *s == stack(BlockType::Stone, 64)));
    assert!(inv.armor().iter().all(|s| s.is_empty()));
    assert_eq!(inv.remove_item(BlockType::Stone, 10), 10);
    assert!(!inv.is_full());
    assert_eq!(inv.hotbar()[0], stack(BlockType::Stone, 54));
    // What fits joins the stack, what does not comes back.
    assert_eq!(inv.add_item(stack(BlockType::Stone, 15)), stack(BlockType::Stone, 5));
    assert!(inv.is_full());
}

#[test]
fn items_are_removed_from_the_hotbar_first() {
    let mut inv = Inventory::new();
    inv.add_item(stack(BlockType::Stone, 64));
    inv.add_item(stack(BlockType::Dirt, 5));
    inv.add_item(stack(BlockType::Stone, 64));
    inv.add_item(stack(BlockType::Stone, 10));
    assert_eq!(inv.remove_item(BlockType::Stone, 70), 70);
    assert_eq!(inv.hotbar()[0], ItemStack::empty());
    assert_eq!(inv.hotbar()[1], stack(BlockType::Dirt, 5));
    assert_eq!(inv.hotbar()[2], stack(BlockType::Stone, 58));
    assert_eq!(inv.hotbar()[3], stack(BlockType::Stone, 10));
    assert_eq!(inv.remove_item(BlockType::Stone, 1000), 68);
    assert_eq!(inv.get_item_count(BlockType::Stone), 0);
    assert_eq!(inv.remove_item(BlockType::Stone, 1), 0);
    assert_eq!(inv.remove_item(BlockType::Dirt, 0), 0);
    assert_eq!(inv.get_item_count(BlockType::Dirt), 5);
    assert_eq!(inv.remove_item(BlockType::Dirt, 5), 5);
    assert!(inv.is_empty());
}

#[test]
fn removal_reaches_the_main_storage() {
    let mut inv = Inventory::new();
    for _ in 0..10 {
        inv.add_item(stack(BlockType::Sand, 64));
    }
    assert_eq!(inv.main()[0], stack(BlockType::Sand, 64));
    assert_eq!(inv.main()[1], ItemStack::empty());
    assert_eq!(inv.remove_item(BlockType::Sand, 9 * 64 + 1), 9 * 64 + 1);
    assert!(inv.hotbar().iter().all(|s| *s == ItemStack::empty()));
    assert_eq!(inv.main()[0], stack(BlockType::Sand, 63));
    assert_eq!(inv.get_item_count(BlockType::Sand), 63);
}

#[test]
fn hotbar_slots_can_be_read_and_set() {
    let mut inv = Inventory::new();
    assert_eq!(inv.get_hotbar_item(0), Some(&ItemStack::empty()));
    assert_eq!(inv.get_hotbar_item(8), Some(&ItemStack::empty()));
    assert_eq!(inv.get_hotbar_item(9), None);
    assert_eq!(inv.get_hotbar_item(usize::MAX), None);
    assert_eq!(inv.set_hotbar_item(4, stack(BlockType::Glass, 7)), None);
    assert_eq!(inv.get_hotbar_item(4), Some(&stack(BlockType::Glass, 7)));
    assert_eq!(inv.set_hotbar_item(4, stack(BlockType::Torch, 1)), Some(stack(BlockType::Glass, 7)));
    assert_eq!(inv.set_hotbar_item(9, stack(BlockType::Torch, 2)), Some(stack(BlockType::Torch, 2)));
    assert_eq!(inv.set_hotbar_item(4, ItemStack::empty()), Some(stack(BlockType::Torch, 1)));
    assert!(inv.is_empty());
    // A stack beyond its size is full and takes no more.
    inv.set_hotbar_item(0, ItemStack { item_type: BlockType::Stone, count: 70, max_stack_size: 64 });
    assert_eq!(inv.add_item(stack(BlockType::Stone, 1)), ItemStack::empty());
    assert_eq!(inv.hotbar()[0].count, 70);
    assert_eq!(inv.hotbar()[1], stack(BlockType::Stone, 1));
}

#[test]
fn clearing_empties_every_slot() {
    let mut inv = Inventory::new();
    inv.add_item(stack(BlockType::Stone, 64));
    inv.set_hotbar_item(8, stack(BlockType::Dirt, 2));
    inv.update(16);
    assert_eq!(inv.get_item_count(BlockType::Dirt), 2);
    inv.clear();
    assert!(inv.is_empty());
    assert_eq!(inv.get_item_count(BlockType::Stone), 0);
}
