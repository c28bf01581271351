//! The block catalog: a closed set of block kinds and their static properties.

use vstd::prelude::*;

verus! {

/// Every kind of block that can occupy a cell of the world.
#[derive(Debug, Clone, Copy, PartialEq, Eq, Hash, Structural)]
pub enum BlockType {
    // Basic blocks
    Air,
    Stone,
    Grass,
    Dirt,
    Cobblestone,
    Wood,
    Sand,
    Gravel,
    // Ores
    CoalOre,
    IronOre,
    GoldOre,
    DiamondOre,
    RedstoneOre,
    LapisOre,
    EmeraldOre,
    // Nature blocks
    Leaves,
    Log,
    Cactus,
    DeadBush,
    TallGrass,
    Flower,
    Mushroom,
    // Liquids
    Water,
    Lava,
    // Crafted blocks
    Planks,
    Glass,
    Brick,
    MossyCobblestone,
    Obsidian,
    // Redstone
    Redstone,
    RedstoneTorch,
    RedstoneWire,
    Lever,
    Button,
    PressurePlate,
    // Utility blocks
    Chest,
    Furnace,
    CraftingTable,
    Bed,
    Door,
    Ladder,
    Torch,
    // Building blocks
    Wool,
    Clay,
    Sandstone,
    Netherrack,
    SoulSand,
    Glowstone,
}

impl BlockType {
    /// Whether an entity collides with the block.
    pub open spec fn solid(self) -> bool {
        !(self is Air || self is Water || self is Lava || self is TallGrass || self is Flower
            || self is Mushroom || self is DeadBush || self is Torch || self is RedstoneWire
            || self is RedstoneTorch)
    }

    /// Whether light passes through the block.
    pub open spec fn transparent(self) -> bool {
        self is Air || self is Glass || self is Water || self is Leaves || self is TallGrass
            || self is Flower || self is Mushroom || self is DeadBush || self is Torch
            || self is RedstoneWire || self is RedstoneTorch
    }

    /// The light the block emits, from 0 (none) to 15.
    pub open spec fn emitted_light(self) -> u8 {
        match self {
            BlockType::Torch => 14,
            BlockType::RedstoneTorch => 7,
            BlockType::Glowstone => 15,
            BlockType::Lava => 15,
            _ => 0,
        }
    }

    /// Whether the block yields to a bare hand.
    pub open spec fn hand_minable(self) -> bool {
        !(self is Stone || self is Cobblestone || self is CoalOre || self is IronOre
            || self is GoldOre || self is DiamondOre || self is RedstoneOre || self is LapisOre
            || self is EmeraldOre || self is Obsidian)
    }

    /// Time to mine the block, in milliseconds.
    pub open spec fn mining_millis(self) -> u32 {
        match self {
            BlockType::Air => 0,
            BlockType::TallGrass
            | BlockType::Flower
            | BlockType::Mushroom
            | BlockType::DeadBush
            | BlockType::Torch
            | BlockType::RedstoneWire
            | BlockType::RedstoneTorch => 100,
            BlockType::Dirt | BlockType::Sand | BlockType::Gravel => 500,
            BlockType::Wood | BlockType::Planks | BlockType::Leaves => 750,
            BlockType::Stone | BlockType::Cobblestone => 1500,
            BlockType::CoalOre | BlockType::IronOre => 3000,
            BlockType::GoldOre | BlockType::DiamondOre => 4000,
            BlockType::Obsidian => 15000,
            _ => 1000,
        }
    }

    /// What mining the block yields: kinds with their counts, in order.
    pub open spec fn dropped(self) -> Seq<(BlockType, u32)> {
        match self {
            BlockType::Stone => seq![(BlockType::Cobblestone, 1u32)],
            BlockType::Grass => seq![(BlockType::Dirt, 1u32)],
            BlockType::CoalOre => seq![(BlockType::Redstone, 1u32)],
            BlockType::DiamondOre => seq![(BlockType::Redstone, 1u32)],
            BlockType::RedstoneOre => seq![(BlockType::Redstone, 4u32)],
            BlockType::Leaves => seq![],
            BlockType::TallGrass => seq![],
            _ => seq![(self, 1u32)],
        }
    }

    /// Whether the block falls when nothing is beneath it.
    pub open spec fn falls(self) -> bool {
        self is Sand || self is Gravel
    }

    /// Whether another block may be placed over this one.
    pub open spec fn replaceable(self) -> bool {
        self is Air || self is TallGrass || self is Flower || self is Mushroom || self is DeadBush
            || self is Water
    }

    /// Hardness, in tenths.
    pub open spec fn hardness_tenths(self) -> u32 {
        match self {
            BlockType::Air => 0,
            BlockType::TallGrass | BlockType::Flower | BlockType::Mushroom | BlockType::DeadBush => 0,
            BlockType::Dirt | BlockType::Sand | BlockType::Gravel => 5,
            BlockType::Wood | BlockType::Planks => 20,
            BlockType::Stone => 15,
            BlockType::Cobblestone => 20,
            BlockType::CoalOre | BlockType::IronOre => 30,
            BlockType::GoldOre => 30,
            BlockType::DiamondOre => 30,
            BlockType::Obsidian => 500,
            _ => 10,
        }
    }

    /// Resistance to explosions, in tenths.
    pub open spec fn blast_resistance_tenths(self) -> u32 {
        match self {
            BlockType::Air => 0,
            BlockType::TallGrass | BlockType::Flower | BlockType::Mushroom | BlockType::DeadBush => 0,
            BlockType::Dirt | BlockType::Sand | BlockType::Gravel => 25,
            BlockType::Stone | BlockType::Cobblestone => 300,
            BlockType::Obsidian => 60000,
            _ => 150,
        }
    }

    /// Whether the block breaks when the block beneath it goes.
    pub open spec fn supported(self) -> bool {
        self is TallGrass || self is Flower || self is Mushroom || self is DeadBush || self is Torch
            || self is RedstoneTorch
    }

    /// The legacy numeric id; 255 stands for every kind that has none.
    pub open spec fn legacy_id(self) -> u16 {
        match self {
            BlockType::Air => 0,
            BlockType::Stone => 1,
            BlockType::Grass => 2,
            BlockType::Dirt => 3,
            BlockType::Cobblestone => 4,
            BlockType::Wood => 5,
            BlockType::Sand => 12,
            BlockType::Gravel => 13,
            BlockType::CoalOre => 16,
            BlockType::IronOre => 15,
            BlockType::GoldOre => 14,
            BlockType::DiamondOre => 56,
            BlockType::RedstoneOre => 73,
            BlockType::LapisOre => 21,
            BlockType::EmeraldOre => 129,
            BlockType::Leaves => 18,
            BlockType::Log => 17,
            BlockType::Water => 8,
            BlockType::Lava => 10,
            BlockType::Planks => 5,
            BlockType::Glass => 20,
            BlockType::Torch => 50,
            _ => 255,
        }
    }

    /// The kind a legacy id stands for, where it stands for one.
    pub open spec fn of_legacy_id(id: u16) -> Option<BlockType> {
        if id == 0 {
            Some(BlockType::Air)
        } else if id == 1 {
            Some(BlockType::Stone)
        } else if id == 2 {
            Some(BlockType::Grass)
        } else if id == 3 {
            Some(BlockType::Dirt)
        } else if id == 4 {
            Some(BlockType::Cobblestone)
        } else if id == 5 {
            Some(BlockType::Wood)
        } else if id == 12 {
            Some(BlockType::Sand)
        } else if id == 13 {
            Some(BlockType::Gravel)
        } else if id == 16 {
            Some(BlockType::CoalOre)
        } else if id == 15 {
            Some(BlockType::IronOre)
        } else if id == 14 {
            Some(BlockType::GoldOre)
        } else if id == 56 {
            Some(BlockType::DiamondOre)
        } else if id == 73 {
            Some(BlockType::RedstoneOre)
        } else if id == 21 {
            Some(BlockType::LapisOre)
        } else if id == 129 {
            Some(BlockType::EmeraldOre)
        } else if id == 18 {
            Some(BlockType::Leaves)
        } else if id == 17 {
            Some(BlockType::Log)
        } else if id == 8 {
            Some(BlockType::Water)
        } else if id == 10 {
            Some(BlockType::Lava)
        } else if id == 20 {
            Some(BlockType::Glass)
        } else if id == 50 {
            Some(BlockType::Torch)
        } else {
            None
        }
    }

    /// The display name.
    pub open spec fn display_name(self) -> Seq<char> {
        match self {
            BlockType::Air => "Air"@,
            BlockType::Stone => "Stone"@,
            BlockType::Grass => "Grass Block"@,
            BlockType::Dirt => "Dirt"@,
            BlockType::Cobblestone => "Cobblestone"@,
            BlockType::Wood => "Wood"@,
            BlockType::Sand => "Sand"@,
            BlockType::Gravel => "Gravel"@,
            BlockType::CoalOre => "Coal Ore"@,
            BlockType::IronOre => "Iron Ore"@,
            BlockType::GoldOre => "Gold Ore"@,
            BlockType::DiamondOre => "Diamond Ore"@,
            BlockType::RedstoneOre => "Redstone Ore"@,
            BlockType::LapisOre => "Lapis Lazuli Ore"@,
            BlockType::EmeraldOre => "Emerald Ore"@,
            BlockType::Leaves => "Leaves"@,
            BlockType::Log => "Log"@,
            BlockType::Cactus => "Cactus"@,
            BlockType::DeadBush => "Dead Bush"@,
            BlockType::TallGrass => "Tall Grass"@,
            BlockType::Flower => "Flower"@,
            BlockType::Mushroom => "Mushroom"@,
            BlockType::Water => "Water"@,
            BlockType::Lava => "Lava"@,
            BlockType::Planks => "Wooden Planks"@,
            BlockType::Glass => "Glass"@,
            BlockType::Brick => "Brick"@,
            BlockType::MossyCobblestone => "Mossy Cobblestone"@,
            BlockType::Obsidian => "Obsidian"@,
            BlockType::Redstone => "Redstone"@,
            BlockType::RedstoneTorch => "Redstone Torch"@,
            BlockType::RedstoneWire => "Redstone Wire"@,
            BlockType::Lever => "Lever"@,
            BlockType::Button => "Button"@,
            BlockType::PressurePlate => "Pressure Plate"@,
            BlockType::Chest => "Chest"@,
            BlockType::Furnace => "Furnace"@,
            BlockType::CraftingTable => "Crafting Table"@,
            BlockType::Bed => "Bed"@,
            BlockType::Door => "Door"@,
            BlockType::Ladder => "Ladder"@,
            BlockType::Torch => "Torch"@,
            BlockType::Wool => "Wool"@,
            BlockType::Clay => "Clay"@,
            BlockType::Sandstone => "Sandstone"@,
            BlockType::Netherrack => "Netherrack"@,
            BlockType::SoulSand => "Soul Sand"@,
            BlockType::Glowstone => "Glowstone"@,
        }
    }

    /// Check if the block is solid (an entity cannot pass through it).
    pub fn is_solid(&self) -> (r: bool)
        ensures
            r == self.solid(),
    {
        match self {
            BlockType::Air
            | BlockType::Water
            | BlockType::Lava
            | BlockType::TallGrass
            | BlockType::Flower
            | BlockType::Mushroom
            | BlockType::DeadBush
            | BlockType::Torch
            | BlockType::RedstoneWire
            | BlockType::RedstoneTorch => false,
            _ => true,
        }
    }

    /// Check if the block is transparent (light passes through it).
    pub fn is_transparent(&self) -> (r: bool)
        ensures
            r == self.transparent(),
    {
        match self {
            BlockType::Air
            | BlockType::Glass
            | BlockType::Water
            | BlockType::Leaves
            | BlockType::TallGrass
            | BlockType::Flower
            | BlockType::Mushroom
            | BlockType::DeadBush
            | BlockType::Torch
            | BlockType::RedstoneWire
            | BlockType::RedstoneTorch => true,
            _ => false,
        }
    }

    /// The light level the block emits.
    pub fn light_level(&self) -> (r: u8)
        ensures
            r == self.emitted_light(),
            r <= 15,
    {
        match self {
            BlockType::Torch => 14,
            BlockType::RedstoneTorch => 7,
            BlockType::Glowstone => 15,
            BlockType::Lava => 15,
            _ => 0,
        }
    }

    /// Check if the block can be mined by hand.
    pub fn can_mine_by_hand(&self) -> (r: bool)
        ensures
            r == self.hand_minable(),
    {
        match self {
            BlockType::Stone
            | BlockType::Cobblestone
            | BlockType::CoalOre
            | BlockType::IronOre
            | BlockType::GoldOre
            | BlockType::DiamondOre
            | BlockType::RedstoneOre
            | BlockType::LapisOre
            | BlockType::EmeraldOre
            | BlockType::Obsidian => false,
            _ => true,
        }
    }

    /// Mining time in milliseconds.
    pub fn mining_time(&self) -> (r: u32)
        ensures
            r == self.mining_millis(),
    {
        match self {
            BlockType::Air => 0,
            BlockType::TallGrass
            | BlockType::Flower
            | BlockType::Mushroom
            | BlockType::DeadBush
            | BlockType::Torch
            | BlockType::RedstoneWire
            | BlockType::RedstoneTorch => 100,
            BlockType::Dirt | BlockType::Sand | BlockType::Gravel => 500,
            BlockType::Wood | BlockType::Planks | BlockType::Leaves => 750,
            BlockType::Stone | BlockType::Cobblestone => 1500,
            BlockType::CoalOre | BlockType::IronOre => 3000,
            BlockType::GoldOre | BlockType::DiamondOre => 4000,
            BlockType::Obsidian => 15000,
            _ => 1000,
        }
    }

    /// The blocks that drop when this block is mined.
    pub fn drops(&self) -> (r: Vec<(BlockType, u32)>)
        ensures
            r@ == self.dropped(),
    {
        match self {
            BlockType::Stone => vec![(BlockType::Cobblestone, 1u32)],
            BlockType::Grass => vec![(BlockType::Dirt, 1u32)],
            BlockType::CoalOre => vec![(BlockType::Redstone, 1u32)],
            BlockType::DiamondOre => vec![(BlockType::Redstone, 1u32)],
            BlockType::RedstoneOre => vec![(BlockType::Redstone, 4u32)],
            BlockType::Leaves => Vec::new(),
            BlockType::TallGrass => Vec::new(),
            _ => vec![(*self, 1u32)],
        }
    }

    /// Check if the block is affected by gravity.
    pub fn is_affected_by_gravity(&self) -> (r: bool)
        ensures
            r == self.falls(),
    {
        match self {
            BlockType::Sand | BlockType::Gravel => true,
            _ => false,
        }
    }

    /// Check if the block can be replaced by a placed block.
    pub fn is_replaceable(&self) -> (r: bool)
        ensures
            r == self.replaceable(),
    {
        match self {
            BlockType::Air
            | BlockType::TallGrass
            | BlockType::Flower
            | BlockType::Mushroom
            | BlockType::DeadBush
            | BlockType::Water => true,
            _ => false,
        }
    }

    /// Hardness in tenths.
    pub fn hardness(&self) -> (r: u32)
        ensures
            r == self.hardness_tenths(),
    {
        match self {
            BlockType::Air => 0,
            BlockType::TallGrass | BlockType::Flower | BlockType::Mushroom | BlockType::DeadBush => 0,
            BlockType::Dirt | BlockType::Sand | BlockType::Gravel => 5,
            BlockType::Wood | BlockType::Planks => 20,
            BlockType::Stone => 15,
            BlockType::Cobblestone => 20,
            BlockType::CoalOre | BlockType::IronOre => 30,
            BlockType::GoldOre => 30,
            BlockType::DiamondOre => 30,
            BlockType::Obsidian => 500,
            _ => 10,
        }
    }

    /// Explosion resistance in tenths.
    pub fn explosion_resistance(&self) -> (r: u32)
        ensures
            r == self.blast_resistance_tenths(),
    {
        match self {
            BlockType::Air => 0,
            BlockType::TallGrass | BlockType::Flower | BlockType::Mushroom | BlockType::DeadBush => 0,
            BlockType::Dirt | BlockType::Sand | BlockType::Gravel => 25,
            BlockType::Stone | BlockType::Cobblestone => 300,
            BlockType::Obsidian => 60000,
            _ => 150,
        }
    }

    /// Check if the block needs a supporting block beneath it.
    pub fn needs_support(&self) -> (r: bool)
        ensures
            r == self.supported(),
    {
        match self {
            BlockType::TallGrass
            | BlockType::Flower
            | BlockType::Mushroom
            | BlockType::DeadBush
            | BlockType::Torch
            | BlockType::RedstoneTorch => true,
            _ => false,
        }
    }

    /// The legacy numeric id of the block.
    pub fn id(&self) -> (r: u16)
        ensures
            r == self.legacy_id(),
    {
        match self {
            BlockType::Air => 0,
            BlockType::Stone => 1,
            BlockType::Grass => 2,
            BlockType::Dirt => 3,
            BlockType::Cobblestone => 4,
            BlockType::Wood => 5,
            BlockType::Sand => 12,
            BlockType::Gravel => 13,
            BlockType::CoalOre => 16,
            BlockType::IronOre => 15,
            BlockType::GoldOre => 14,
            BlockType::DiamondOre => 56,
            BlockType::RedstoneOre => 73,
            BlockType::LapisOre => 21,
            BlockType::EmeraldOre => 129,
            BlockType::Leaves => 18,
            BlockType::Log => 17,
            BlockType::Water => 8,
            BlockType::Lava => 10,
            BlockType::Planks => 5,
            BlockType::Glass => 20,
            BlockType::Torch => 50,
            _ => 255,
        }
    }

    /// The block a legacy numeric id stands for.
    pub fn from_id(id: u16) -> (r: Option<BlockType>)
        ensures
            r == BlockType::of_legacy_id(id),
    {
        match id {
            0 => Some(BlockType::Air),
            1 => Some(BlockType::Stone),
            2 => Some(BlockType::Grass),
            3 => Some(BlockType::Dirt),
            4 => Some(BlockType::Cobblestone),
            5 => Some(BlockType::Wood),
            12 => Some(BlockType::Sand),
            13 => Some(BlockType::Gravel),
            16 => Some(BlockType::CoalOre),
            15 => Some(BlockType::IronOre),
            14 => Some(BlockType::GoldOre),
            56 => Some(BlockType::DiamondOre),
            73 => Some(BlockType::RedstoneOre),
            21 => Some(BlockType::LapisOre),
            129 => Some(BlockType::EmeraldOre),
            18 => Some(BlockType::Leaves),
            17 => Some(BlockType::Log),
            8 => Some(BlockType::Water),
            10 => Some(BlockType::Lava),
            20 => Some(BlockType::Glass),
            50 => Some(BlockType::Torch),
            _ => None,
        }
    }

    /// The display name of the block.
    pub fn name(&self) -> (r: &'static str)
        ensures
            r@ == self.display_name(),
    {
        match self {
            BlockType::Air => "Air",
            BlockType::Stone => "Stone",
            BlockType::Grass => "Grass Block",
            BlockType::Dirt => "Dirt",
            BlockType::Cobblestone => "Cobblestone",
            BlockType::Wood => "Wood",
            BlockType::Sand => "Sand",
            BlockType::Gravel => "Gravel",
            BlockType::CoalOre => "Coal Ore",
            BlockType::IronOre => "Iron Ore",
            BlockType::GoldOre => "Gold Ore",
            BlockType::DiamondOre => "Diamond Ore",
            BlockType::RedstoneOre => "Redstone Ore",
            BlockType::LapisOre => "Lapis Lazuli Ore",
            BlockType::EmeraldOre => "Emerald Ore",
            BlockType::Leaves => "Leaves",
            BlockType::Log => "Log",
            BlockType::Cactus => "Cactus",
            BlockType::DeadBush => "Dead Bush",
            BlockType::TallGrass => "Tall Grass",
            BlockType::Flower => "Flower",
            BlockType::Mushroom => "Mushroom",
            BlockType::Water => "Water",
            BlockType::Lava => "Lava",
            BlockType::Planks => "Wooden Planks",
            BlockType::Glass => "Glass",
            BlockType::Brick => "Brick",
            BlockType::MossyCobblestone => "Mossy Cobblestone",
            BlockType::Obsidian => "Obsidian",
            BlockType::Redstone => "Redstone",
            BlockType::RedstoneTorch => "Redstone Torch",
            BlockType::RedstoneWire => "Redstone Wire",
            BlockType::Lever => "Lever",
            BlockType::Button => "Button",
            BlockType::PressurePlate => "Pressure Plate",
            BlockType::Chest => "Chest",
            BlockType::Furnace => "Furnace",
            BlockType::CraftingTable => "Crafting Table",
            BlockType::Bed => "Bed",
            BlockType::Door => "Door",
            BlockType::Ladder => "Ladder",
            BlockType::Torch => "Torch",
            BlockType::Wool => "Wool",
            BlockType::Clay => "Clay",
            BlockType::Sandstone => "Sandstone",
            BlockType::Netherrack => "Netherrack",
            BlockType::SoulSand => "Soul Sand",
            BlockType::Glowstone => "Glowstone",
        }
    }
}

impl Default for BlockType {
    fn default() -> (r: Self)
        ensures
            r == BlockType::Air,
    {
        BlockType::Air
    }
}

/// Every legacy id that stands for a kind is the id of that kind.
pub proof fn lemma_from_id_then_id(id: u16)
    ensures
        BlockType::of_legacy_id(id) matches Some(b) ==> b.legacy_id() == id,
{
}

/// A kind's id leads back to the kind, except for kinds without an id of
/// their own: those with id 255, and planks, which share the id of wood.
pub proof fn lemma_id_then_from_id(b: BlockType)
    ensures
        b.legacy_id() != 255 && b != BlockType::Planks ==> BlockType::of_legacy_id(b.legacy_id())
            == Some(b),
        b.legacy_id() == 255 ==> BlockType::of_legacy_id(b.legacy_id()) is None,
        BlockType::of_legacy_id(BlockType::Planks.legacy_id()) == Some(BlockType::Wood),
{
}

/// Everything that emits light does so at a level a light nibble can hold.
pub proof fn lemma_emitted_light_fits(b: BlockType)
    ensures
        b.emitted_light() <= 15,
{
}

} // verus!
