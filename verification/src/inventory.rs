//! Stacks of items and the inventory of a player: a hotbar, main storage,
//! armor and an offhand slot.

use vstd::prelude::*;
use crate::block::BlockType;

verus! {

/// The number of slots of the hotbar.
pub const HOTBAR_SLOTS: usize = 9;

/// The number of slots of the main storage.
pub const MAIN_SLOTS: usize = 27;

/// The number of slots for armor.
pub const ARMOR_SLOTS: usize = 4;

/// The number of items that a stack holds at most.
pub const MAX_STACK_SIZE: u32 = 64;

/// A stack of items of one kind.
#[derive(Debug, Clone, Copy, PartialEq, Eq, Structural)]
pub struct ItemStack {
    pub item_type: BlockType,
    pub count: u32,
    pub max_stack_size: u32,
}

/// The stack that an empty slot holds: no item, of the kind air.
pub open spec fn empty_stack() -> ItemStack {
    ItemStack { item_type: BlockType::Air, count: 0, max_stack_size: 64 }
}

/// The smaller of two numbers.
pub open spec fn smaller(a: int, b: int) -> int {
    if a <= b {
        a
    } else {
        b
    }
}

impl ItemStack {
    /// Whether the stack holds nothing: no item, or items of the kind air.
    pub open spec fn vacant(self) -> bool {
        self.count == 0 || self.item_type == BlockType::Air
    }

    /// Whether the stack has no room left.
    pub open spec fn full(self) -> bool {
        self.count >= self.max_stack_size
    }

    /// Whether items of another stack may join this one: they are of its
    /// kind, and it has room.
    pub open spec fn stacks_with(self, other: ItemStack) -> bool {
        self.item_type == other.item_type && !self.full()
    }

    /// How many of `count` items the stack takes: as many as it has room for.
    pub open spec fn takes(self, count: u32) -> int {
        smaller(self.max_stack_size - self.count, count as int)
    }

    /// The stack after it took what it has room for of `count` items.
    pub open spec fn with_added(self, count: u32) -> ItemStack {
        ItemStack { count: (self.count + self.takes(count)) as u32, ..self }
    }

    /// The stack after up to `count` items left it; a stack that nothing is
    /// left of is of the kind air.
    pub open spec fn with_removed(self, count: u32) -> ItemStack {
        let left = self.count - smaller(self.count as int, count as int);
        ItemStack {
            count: left as u32,
            item_type: if left == 0 {
                BlockType::Air
            } else {
                self.item_type
            },
            ..self
        }
    }

    /// A stack of `count` items of a kind.
    pub fn new(item_type: BlockType, count: u32) -> (s: Self)
        ensures
            s == (ItemStack { item_type, count, max_stack_size: 64 }),
    {
        Self { item_type, count, max_stack_size: Self::get_max_stack_size(item_type) }
    }

    /// The stack of an empty slot.
    pub fn empty() -> (s: Self)
        ensures
            s == empty_stack(),
    {
        Self { item_type: BlockType::Air, count: 0, max_stack_size: MAX_STACK_SIZE }
    }

    pub fn is_empty(&self) -> (r: bool)
        ensures
            r == self.vacant(),
    {
        self.count == 0 || self.item_type == BlockType::Air
    }

    pub fn is_full(&self) -> (r: bool)
        ensures
            r == self.full(),
    {
        self.count >= self.max_stack_size
    }

    pub fn can_stack_with(&self, other: &ItemStack) -> (r: bool)
        ensures
            r == self.stacks_with(*other),
    {
        self.item_type == other.item_type && !self.is_full()
    }

    /// Add up to `count` items; returns how many found no room.
    pub fn add(&mut self, count: u32) -> (leftover: u32)
        requires
            old(self).count <= old(self).max_stack_size,
        ensures
            *final(self) == old(self).with_added(count),
            leftover == count - old(self).takes(count),
    {
        let room = self.max_stack_size - self.count;
        let can_add = if room < count {
            room
        } else {
            count
        };
        self.count = self.count + can_add;
        count - can_add
    }

    /// Remove up to `count` items; returns how many were removed.
    pub fn remove(&mut self, count: u32) -> (removed: u32)
        ensures
            *final(self) == old(self).with_removed(count),
            removed == smaller(old(self).count as int, count as int),
    {
        let removed = if self.count < count {
            self.count
        } else {
            count
        };
        self.count = self.count - removed;
        if self.count == 0 {
            self.item_type = BlockType::Air;
        }
        removed
    }

    /// The number of items of a kind that one stack holds at most.
    fn get_max_stack_size(_item_type: BlockType) -> (n: u32)
        ensures
            n == 64,
    {
        MAX_STACK_SIZE
    }
}

/// What an inventory holds.
pub struct InventoryView {
    pub hotbar: Seq<ItemStack>,
    pub main: Seq<ItemStack>,
    pub armor: Seq<ItemStack>,
    pub offhand: ItemStack,
}

/// The slots and the rest of a stack after the stack went through the slots
/// from the `i`-th on: every slot that stacks with it takes what it has
/// room for. Once nothing is left of the stack, what is left is the stack of
/// an empty slot and the other slots are not looked at.
pub open spec fn stacked(slots: Seq<ItemStack>, item: ItemStack, i: int) -> (Seq<ItemStack>, ItemStack)
    decreases slots.len() - i,
{
    if i < 0 || i >= slots.len() {
        (slots, item)
    } else if slots[i].stacks_with(item) {
        let filled = slots.update(i, slots[i].with_added(item.count));
        let left = item.count - slots[i].takes(item.count);
        if left == 0 {
            (filled, empty_stack())
        } else {
            stacked(filled, ItemStack { count: left as u32, ..item }, i + 1)
        }
    } else {
        stacked(slots, item, i + 1)
    }
}

/// The first slot from the `i`-th on that holds nothing, if there is one.
pub open spec fn first_vacant(slots: Seq<ItemStack>, i: int) -> Option<int>
    decreases slots.len() - i,
{
    if i < 0 || i >= slots.len() {
        None
    } else if slots[i].vacant() {
        Some(i)
    } else {
        first_vacant(slots, i + 1)
    }
}

/// The slots, how many items are still to be removed, and whether the
/// removal has ended, after up to `remaining` items of a kind were removed
/// from the slots from the `i`-th on. The removal ends at the first slot of
/// the kind after which nothing is left to remove.
pub open spec fn removed_from(slots: Seq<ItemStack>, item_type: BlockType, remaining: u32, i: int) -> (
    Seq<ItemStack>,
    u32,
    bool,
)
    decreases slots.len() - i,
{
    if i < 0 || i >= slots.len() {
        (slots, remaining, false)
    } else if slots[i].item_type == item_type {
        let taken = smaller(slots[i].count as int, remaining as int);
        let emptied = slots.update(i, slots[i].with_removed(remaining));
        if remaining - taken == 0 {
            (emptied, 0u32, true)
        } else {
            removed_from(emptied, item_type, (remaining - taken) as u32, i + 1)
        }
    } else {
        removed_from(slots, item_type, remaining, i + 1)
    }
}

/// The number of items of a kind in the first `n` slots.
pub open spec fn count_in(slots: Seq<ItemStack>, item_type: BlockType, n: int) -> int
    decreases n,
{
    if n <= 0 {
        0
    } else {
        count_in(slots, item_type, n - 1) + if slots[n - 1].item_type == item_type {
            slots[n - 1].count as int
        } else {
            0
        }
    }
}

impl InventoryView {
    /// The four parts have their numbers of slots.
    pub open spec fn wf(self) -> bool {
        self.hotbar.len() == 9 && self.main.len() == 27 && self.armor.len() == 4
    }

    /// The number of items of a kind in the hotbar and the main storage.
    pub open spec fn count_of(self, item_type: BlockType) -> int {
        count_in(self.hotbar, item_type, 9) + count_in(self.main, item_type, 27)
    }

    /// The inventory and what is left of a stack after it went through the
    /// stacks of the hotbar, then through those of the main storage.
    pub open spec fn stacked_onto(self, item: ItemStack) -> (InventoryView, ItemStack) {
        let h = stacked(self.hotbar, item, 0);
        if h.1.count == 0 {
            (InventoryView { hotbar: h.0, ..self }, h.1)
        } else {
            let m = stacked(self.main, h.1, 0);
            (InventoryView { hotbar: h.0, main: m.0, ..self }, m.1)
        }
    }

    /// The inventory and what is left of a stack after it was put into the
    /// first empty slot, of the hotbar first, then of the main storage;
    /// the stack is left where no slot is empty.
    pub open spec fn placed(self, item: ItemStack) -> (InventoryView, ItemStack) {
        match first_vacant(self.hotbar, 0) {
            Some(i) => (InventoryView { hotbar: self.hotbar.update(i, item), ..self }, empty_stack()),
            None => match first_vacant(self.main, 0) {
                Some(i) => (InventoryView { main: self.main.update(i, item), ..self }, empty_stack()),
                None => (self, item),
            },
        }
    }

    /// The inventory and what is left of a stack after the stack was
    /// added: a stack that holds nothing changes nothing; else it goes
    /// through the stacks of its kind, and what is left goes into the first
    /// empty slot.
    pub open spec fn with_added(self, item: ItemStack) -> (InventoryView, ItemStack) {
        if item.vacant() {
            (self, item)
        } else {
            let s = self.stacked_onto(item);
            if s.1.vacant() {
                s
            } else {
                s.0.placed(s.1)
            }
        }
    }

    /// The inventory and the number of items removed after up to `count`
    /// items of a kind were removed, from the hotbar first, then from the
    /// main storage.
    pub open spec fn with_removed(self, item_type: BlockType, count: u32) -> (InventoryView, u32) {
        let h = removed_from(self.hotbar, item_type, count, 0);
        if h.2 {
            (InventoryView { hotbar: h.0, ..self }, count)
        } else {
            let m = removed_from(self.main, item_type, h.1, 0);
            (InventoryView { hotbar: h.0, main: m.0, ..self }, (count - m.1) as u32)
        }
    }

    /// Whether no slot holds anything.
    pub open spec fn vacant(self) -> bool {
        &&& forall|i: int| 0 <= i < self.hotbar.len() ==> (#[trigger] self.hotbar[i]).vacant()
        &&& forall|i: int| 0 <= i < self.main.len() ==> (#[trigger] self.main[i]).vacant()
        &&& forall|i: int| 0 <= i < self.armor.len() ==> (#[trigger] self.armor[i]).vacant()
        &&& self.offhand.vacant()
    }

    /// Whether no slot of the hotbar or the main storage has room left.
    pub open spec fn full(self) -> bool {
        &&& forall|i: int| 0 <= i < self.hotbar.len() ==> (#[trigger] self.hotbar[i]).full()
        &&& forall|i: int| 0 <= i < self.main.len() ==> (#[trigger] self.main[i]).full()
    }
}

/// The inventory of a player.
pub struct Inventory {
    hotbar: [ItemStack; 9],
    main: [ItemStack; 27],
    armor: [ItemStack; 4],
    offhand: ItemStack,
}

impl View for Inventory {
    type V = InventoryView;

    closed spec fn view(&self) -> InventoryView {
        InventoryView {
            hotbar: self.hotbar@,
            main: self.main@,
            armor: self.armor@,
            offhand: self.offhand,
        }
    }
}

impl Inventory {
    /// An inventory of empty slots.
    pub fn new() -> (inv: Self)
        ensures
            inv@.wf(),
            inv@.hotbar == Seq::new(9, |i: int| empty_stack()),
            inv@.main == Seq::new(27, |i: int| empty_stack()),
            inv@.armor == Seq::new(4, |i: int| empty_stack()),
            inv@.offhand == empty_stack(),
    {
        let e = ItemStack::empty();
        let inv = Self {
            hotbar: [e, e, e, e, e, e, e, e, e],
            main: [e, e, e, e, e, e, e, e, e, e, e, e, e, e, e, e, e, e, e, e, e, e, e, e, e, e, e],
            armor: [e, e, e, e],
            offhand: e,
        };
        assert(inv@.hotbar =~= Seq::new(9, |i: int| empty_stack()));
        assert(inv@.main =~= Seq::new(27, |i: int| empty_stack()));
        assert(inv@.armor =~= Seq::new(4, |i: int| empty_stack()));
        inv
    }

    /// Advance the inventory by a span of time in milliseconds: nothing in
    /// it changes with time yet.
    pub fn update(&mut self, _delta_millis: u32)
        ensures
            final(self)@ == old(self)@,
    {
    }

    /// Add a stack to the inventory; returns what found no room.
    pub fn add_item(&mut self, item: ItemStack) -> (leftover: ItemStack)
        ensures
            (final(self)@, leftover) == old(self)@.with_added(item),
    {
        if item.is_empty() {
            return item;
        }
        let item = self.add_to_existing_stacks(item);
        if item.is_empty() {
            return item;
        }
        self.add_to_empty_slots(item)
    }

    /// Let a stack go through the stacks of its kind.
    fn add_to_existing_stacks(&mut self, item: ItemStack) -> (leftover: ItemStack)
        ensures
            (final(self)@, leftover) == old(self)@.stacked_onto(item),
    {
        let mut rest = item;
        let ghost target = stacked(self.hotbar@, item, 0);
        let mut i: usize = 0;
        while i < 9
            invariant
                0 <= i <= 9,
                self.main == old(self).main,
                self.armor == old(self).armor,
                self.offhand == old(self).offhand,
                stacked(self.hotbar@, rest, i as int) == target,
                target == stacked(old(self).hotbar@, item, 0),
            decreases 9 - i,
        {
            let mut slot = self.hotbar[i];
            if slot.can_stack_with(&rest) {
                let leftover = slot.add(rest.count);
                self.hotbar[i] = slot;
                if leftover == 0 {
                    assert(self.hotbar@ == target.0 && target.1 == empty_stack());
                    return ItemStack::empty();
                }
                rest.count = leftover;
            }
            i = i + 1;
        }
        if rest.count == 0 {
            return rest;
        }
        let ghost target_main = stacked(self.main@, rest, 0);
        let mut j: usize = 0;
        while j < 27
            invariant
                0 <= j <= 27,
                self.hotbar@ == target.0,
                self.armor == old(self).armor,
                self.offhand == old(self).offhand,
                stacked(self.main@, rest, j as int) == target_main,
                target.1.count != 0,
                target == stacked(old(self).hotbar@, item, 0),
                target_main == stacked(old(self).main@, target.1, 0),
            decreases 27 - j,
        {
            let mut slot = self.main[j];
            if slot.can_stack_with(&rest) {
                let leftover = slot.add(rest.count);
                self.main[j] = slot;
                if leftover == 0 {
                    assert(self.main@ == target_main.0 && target_main.1 == empty_stack());
                    return ItemStack::empty();
                }
                rest.count = leftover;
            }
            j = j + 1;
        }
        rest
    }

    /// Put a stack into the first empty slot.
    fn add_to_empty_slots(&mut self, item: ItemStack) -> (leftover: ItemStack)
        ensures
            (final(self)@, leftover) == old(self)@.placed(item),
    {
        let mut i: usize = 0;
        while i < 9
            invariant
                0 <= i <= 9,
                *self == *old(self),
                first_vacant(self.hotbar@, i as int) == first_vacant(self.hotbar@, 0),
            decreases 9 - i,
        {
            if self.hotbar[i].is_empty() {
                self.hotbar[i] = item;
                return ItemStack::empty();
            }
            i = i + 1;
        }
        let mut j: usize = 0;
        while j < 27
            invariant
                0 <= j <= 27,
                *self == *old(self),
                first_vacant(self.hotbar@, 0) is None,
                first_vacant(self.main@, j as int) == first_vacant(self.main@, 0),
            decreases 27 - j,
        {
            if self.main[j].is_empty() {
                self.main[j] = item;
                return ItemStack::empty();
            }
            j = j + 1;
        }
        item
    }

    /// Remove up to `count` items of a kind; returns how many were removed.
    pub fn remove_item(&mut self, item_type: BlockType, count: u32) -> (removed: u32)
        ensures
            (final(self)@, removed) == old(self)@.with_removed(item_type, count),
            removed <= count,
    {
        let mut remaining = count;
        let ghost target = removed_from(self.hotbar@, item_type, count, 0);
        let mut i: usize = 0;
        while i < 9
            invariant
                0 <= i <= 9,
                remaining <= count,
                self.main == old(self).main,
                self.armor == old(self).armor,
                self.offhand == old(self).offhand,
                removed_from(self.hotbar@, item_type, remaining, i as int) == target,
                target == removed_from(old(self).hotbar@, item_type, count, 0),
            decreases 9 - i,
        {
            if self.hotbar[i].item_type == item_type {
                let mut slot = self.hotbar[i];
                let removed = slot.remove(remaining);
                self.hotbar[i] = slot;
                if remaining - removed == 0 {
                    assert(self.hotbar@ == target.0 && target.2);
                    return count;
                }
                remaining = remaining - removed;
            }
            i = i + 1;
        }
        let ghost target_main = removed_from(self.main@, item_type, remaining, 0);
        let mut j: usize = 0;
        while j < 27
            invariant
                0 <= j <= 27,
                remaining <= count,
                self.hotbar@ == target.0,
                !target.2,
                self.armor == old(self).armor,
                self.offhand == old(self).offhand,
                removed_from(self.main@, item_type, remaining, j as int) == target_main,
                target == removed_from(old(self).hotbar@, item_type, count, 0),
                target_main == removed_from(old(self).main@, item_type, target.1, 0),
            decreases 27 - j,
        {
            if self.main[j].item_type == item_type {
                let mut slot = self.main[j];
                let removed = slot.remove(remaining);
                self.main[j] = slot;
                if remaining - removed == 0 {
                    assert(self.main@ == target_main.0 && target_main.1 == 0);
                    return count;
                }
                remaining = remaining - removed;
            }
            j = j + 1;
        }
        count - remaining
    }

    /// Check if the inventory holds an item of a kind, in the hotbar or the
    /// main storage.
    pub fn has_item(&self, item_type: BlockType) -> (r: bool)
        ensures
            r == (self@.count_of(item_type) > 0),
    {
        let mut i: usize = 0;
        while i < 9
            invariant
                0 <= i <= 9,
                count_in(self.hotbar@, item_type, i as int) == 0,
            decreases 9 - i,
        {
            if self.hotbar[i].item_type == item_type && self.hotbar[i].count > 0 {
                proof {
                    lemma_count_in_grows(self.hotbar@, item_type, i + 1, 9);
                    lemma_count_in_grows(self.main@, item_type, 0, 27);
                }
                return true;
            }
            i = i + 1;
        }
        let mut j: usize = 0;
        while j < 27
            invariant
                0 <= j <= 27,
                count_in(self.hotbar@, item_type, 9) == 0,
                count_in(self.main@, item_type, j as int) == 0,
            decreases 27 - j,
        {
            if self.main[j].item_type == item_type && self.main[j].count > 0 {
                proof {
                    lemma_count_in_grows(self.main@, item_type, j + 1, 27);
                }
                return true;
            }
            j = j + 1;
        }
        false
    }

    /// The number of items of a kind in the hotbar and the main storage.
    pub fn get_item_count(&self, item_type: BlockType) -> (total: u32)
        requires
            self@.count_of(item_type) <= u32::MAX,
        ensures
            total == self@.count_of(item_type),
    {
        proof {
            lemma_count_in_grows(self.hotbar@, item_type, 0, 9);
            lemma_count_in_grows(self.main@, item_type, 0, 27);
        }
        let mut total: u32 = 0;
        let mut i: usize = 0;
        while i < 9
            invariant
                0 <= i <= 9,
                total == count_in(self.hotbar@, item_type, i as int),
                count_in(self.hotbar@, item_type, 9) <= u32::MAX,
            decreases 9 - i,
        {
            proof {
                lemma_count_in_grows(self.hotbar@, item_type, i + 1, 9);
            }
            if self.hotbar[i].item_type == item_type {
                total = total + self.hotbar[i].count;
            }
            i = i + 1;
        }
        let mut j: usize = 0;
        while j < 27
            invariant
                0 <= j <= 27,
                total == count_in(self.hotbar@, item_type, 9) + count_in(
                    self.main@,
                    item_type,
                    j as int,
                ),
                self@.count_of(item_type) <= u32::MAX,
            decreases 27 - j,
        {
            proof {
                lemma_count_in_grows(self.main@, item_type, j + 1, 27);
            }
            if self.main[j].item_type == item_type {
                total = total + self.main[j].count;
            }
            j = j + 1;
        }
        total
    }

    /// The slots of the hotbar.
    pub fn hotbar(&self) -> (r: &[ItemStack; 9])
        ensures
            r@ == self@.hotbar,
    {
        &self.hotbar
    }

    /// The slots of the main storage.
    pub fn main(&self) -> (r: &[ItemStack; 27])
        ensures
            r@ == self@.main,
    {
        &self.main
    }

    /// The slots for armor.
    pub fn armor(&self) -> (r: &[ItemStack; 4])
        ensures
            r@ == self@.armor,
    {
        &self.armor
    }

    /// The offhand slot.
    pub fn offhand(&self) -> (r: &ItemStack)
        ensures
            *r == self@.offhand,
    {
        &self.offhand
    }

    /// The stack in a slot of the hotbar; `None` where there is no such slot.
    pub fn get_hotbar_item(&self, slot: usize) -> (r: Option<&ItemStack>)
        ensures
            r == (if slot < 9 {
                Some(&self@.hotbar[slot as int])
            } else {
                None
            }),
    {
        if slot < 9 {
            Some(&self.hotbar[slot])
        } else {
            None
        }
    }

    /// Put a stack into a slot of the hotbar. Returns the stack that the
    /// slot held, if it held anything; where there is no such slot, the
    /// stack comes back.
    pub fn set_hotbar_item(&mut self, slot: usize, item: ItemStack) -> (r: Option<ItemStack>)
        ensures
            slot < 9 ==> final(self)@ == (InventoryView {
                hotbar: old(self)@.hotbar.update(slot as int, item),
                ..old(self)@
            }) && r == (if old(self)@.hotbar[slot as int].vacant() {
                None
            } else {
                Some(old(self)@.hotbar[slot as int])
            }),
            slot >= 9 ==> final(self)@ == old(self)@ && r == Some(item),
    {
        if slot < 9 {
            let old_item = self.hotbar[slot];
            self.hotbar[slot] = item;
            if old_item.is_empty() {
                None
            } else {
                Some(old_item)
            }
        } else {
            Some(item)
        }
    }

    /// Empty every slot.
    pub fn clear(&mut self)
        ensures
            final(self)@.wf(),
            final(self)@.hotbar == Seq::new(9, |i: int| empty_stack()),
            final(self)@.main == Seq::new(27, |i: int| empty_stack()),
            final(self)@.armor == Seq::new(4, |i: int| empty_stack()),
            final(self)@.offhand == empty_stack(),
    {
        *self = Self::new();
    }

    /// Check if no slot holds anything.
    pub fn is_empty(&self) -> (r: bool)
        ensures
            r == self@.vacant(),
    {
        let mut i: usize = 0;
        while i < 9
            invariant
                0 <= i <= 9,
                forall|k: int| 0 <= k < i ==> (#[trigger] self.hotbar@[k]).vacant(),
            decreases 9 - i,
        {
            if !self.hotbar[i].is_empty() {
                assert(!self@.hotbar[i as int].vacant());
                return false;
            }
            i = i + 1;
        }
        let mut j: usize = 0;
        while j < 27
            invariant
                0 <= j <= 27,
                forall|k: int| 0 <= k < 9 ==> (#[trigger] self.hotbar@[k]).vacant(),
                forall|k: int| 0 <= k < j ==> (#[trigger] self.main@[k]).vacant(),
            decreases 27 - j,
        {
            if !self.main[j].is_empty() {
                assert(!self@.main[j as int].vacant());
                return false;
            }
            j = j + 1;
        }
        let mut a: usize = 0;
        while a < 4
            invariant
                0 <= a <= 4,
                forall|k: int| 0 <= k < 9 ==> (#[trigger] self.hotbar@[k]).vacant(),
                forall|k: int| 0 <= k < 27 ==> (#[trigger] self.main@[k]).vacant(),
                forall|k: int| 0 <= k < a ==> (#[trigger] self.armor@[k]).vacant(),
            decreases 4 - a,
        {
            if !self.armor[a].is_empty() {
                assert(!self@.armor[a as int].vacant());
                return false;
            }
            a = a + 1;
        }
        self.offhand.is_empty()
    }

    /// Check if no slot of the hotbar or the main storage has room left.
    pub fn is_full(&self) -> (r: bool)
        ensures
            r == self@.full(),
    {
        let mut i: usize = 0;
        while i < 9
            invariant
                0 <= i <= 9,
                forall|k: int| 0 <= k < i ==> (#[trigger] self.hotbar@[k]).full(),
            decreases 9 - i,
        {
            if !self.hotbar[i].is_full() {
                assert(!self@.hotbar[i as int].full());
                return false;
            }
            i = i + 1;
        }
        let mut j: usize = 0;
        while j < 27
            invariant
                0 <= j <= 27,
                forall|k: int| 0 <= k < 9 ==> (#[trigger] self.hotbar@[k]).full(),
                forall|k: int| 0 <= k < j ==> (#[trigger] self.main@[k]).full(),
            decreases 27 - j,
        {
            if !self.main[j].is_full() {
                assert(!self@.main[j as int].full());
                return false;
            }
            j = j + 1;
        }
        true
    }
}

impl Default for Inventory {
    fn default() -> (inv: Self)
        ensures
            inv@.wf(),
    {
        Self::new()
    }
}

/// The number of items of a kind never shrinks as more slots are counted.
pub proof fn lemma_count_in_grows(slots: Seq<ItemStack>, item_type: BlockType, n: int, m: int)
    requires
        n <= m,
    ensures
        0 <= count_in(slots, item_type, n) <= count_in(slots, item_type, m),
    decreases m,
{
    if m > 0 {
        if n < m {
            lemma_count_in_grows(slots, item_type, n, m - 1);
        } else {
            lemma_count_in_grows(slots, item_type, n - 1, m - 1);
        }
    }
}

} // verus!
