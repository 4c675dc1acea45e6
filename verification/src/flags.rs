use vstd::prelude::*;

verus! {

/// One independent surface property of a collision material.  The archive
/// stores a material as a 32-bit bitmask; each variant here names one bit.
#[derive(Clone, Copy, Debug, PartialEq, Eq, Structural)]
pub enum CollisionMaterialFlags {
    Unknown,
    Stone,
    Metal,
    Grass,
    Ice,
    Pillar,
    MetalGrating,
    Phazon,
    Dirt,
    Lava,
    LavaStone,
    Snow,
    MudSlow,
    Halfpipe,
    Mud,
    Glass,
    Shield,
    Sand,
    ShootThru,
    Solid,
    /// Functionality unclear; name taken from community research.
    NoPlatformCollision,
    CameraThru,
    Wood,
    Organic,
    /// Functionality unclear; name taken from community research.
    NoEdgeCollision,
    RedundantEdgeOrFlippedTri,
    /// Seems to affect shadows/lights.
    SeeThru,
    ScanThru,
    AIWalkThru,
    Ceiling,
    Wall,
    Floor,
}

impl CollisionMaterialFlags {
    /// The single bit this flag occupies in a material bitmask.
    pub open spec fn spec_mask(&self) -> u32 {
        match self {
            CollisionMaterialFlags::Unknown => 0x0000_0001,
            CollisionMaterialFlags::Stone => 0x0000_0002,
            CollisionMaterialFlags::Metal => 0x0000_0004,
            CollisionMaterialFlags::Grass => 0x0000_0008,
            CollisionMaterialFlags::Ice => 0x0000_0010,
            CollisionMaterialFlags::Pillar => 0x0000_0020,
            CollisionMaterialFlags::MetalGrating => 0x0000_0040,
            CollisionMaterialFlags::Phazon => 0x0000_0080,
            CollisionMaterialFlags::Dirt => 0x0000_0100,
            CollisionMaterialFlags::Lava => 0x0000_0200,
            CollisionMaterialFlags::LavaStone => 0x0000_0400,
            CollisionMaterialFlags::Snow => 0x0000_0800,
            CollisionMaterialFlags::MudSlow => 0x0000_1000,
            CollisionMaterialFlags::Halfpipe => 0x0000_2000,
            CollisionMaterialFlags::Mud => 0x0000_4000,
            CollisionMaterialFlags::Glass => 0x0000_8000,
            CollisionMaterialFlags::Shield => 0x0001_0000,
            CollisionMaterialFlags::Sand => 0x0002_0000,
            CollisionMaterialFlags::ShootThru => 0x0004_0000,
            CollisionMaterialFlags::Solid => 0x0008_0000,
            CollisionMaterialFlags::NoPlatformCollision => 0x0010_0000,
            CollisionMaterialFlags::CameraThru => 0x0020_0000,
            CollisionMaterialFlags::Wood => 0x0040_0000,
            CollisionMaterialFlags::Organic => 0x0080_0000,
            CollisionMaterialFlags::NoEdgeCollision => 0x0100_0000,
            CollisionMaterialFlags::RedundantEdgeOrFlippedTri => 0x0200_0000,
            CollisionMaterialFlags::SeeThru => 0x0400_0000,
            CollisionMaterialFlags::ScanThru => 0x0800_0000,
            CollisionMaterialFlags::AIWalkThru => 0x1000_0000,
            CollisionMaterialFlags::Ceiling => 0x2000_0000,
            CollisionMaterialFlags::Wall => 0x4000_0000,
            CollisionMaterialFlags::Floor => 0x8000_0000,
        }
    }

    /// Exec form of [`Self::spec_mask`].
    #[verifier::when_used_as_spec(spec_mask)]
    pub fn mask(&self) -> (r: u32)
        ensures
            r == self.spec_mask(),
    {
        match self {
            CollisionMaterialFlags::Unknown => 0x0000_0001,
            CollisionMaterialFlags::Stone => 0x0000_0002,
            CollisionMaterialFlags::Metal => 0x0000_0004,
            CollisionMaterialFlags::Grass => 0x0000_0008,
            CollisionMaterialFlags::Ice => 0x0000_0010,
            CollisionMaterialFlags::Pillar => 0x0000_0020,
            CollisionMaterialFlags::MetalGrating => 0x0000_0040,
            CollisionMaterialFlags::Phazon => 0x0000_0080,
            CollisionMaterialFlags::Dirt => 0x0000_0100,
            CollisionMaterialFlags::Lava => 0x0000_0200,
            CollisionMaterialFlags::LavaStone => 0x0000_0400,
            CollisionMaterialFlags::Snow => 0x0000_0800,
            CollisionMaterialFlags::MudSlow => 0x0000_1000,
            CollisionMaterialFlags::Halfpipe => 0x0000_2000,
            CollisionMaterialFlags::Mud => 0x0000_4000,
            CollisionMaterialFlags::Glass => 0x0000_8000,
            CollisionMaterialFlags::Shield => 0x0001_0000,
            CollisionMaterialFlags::Sand => 0x0002_0000,
            CollisionMaterialFlags::ShootThru => 0x0004_0000,
            CollisionMaterialFlags::Solid => 0x0008_0000,
            CollisionMaterialFlags::NoPlatformCollision => 0x0010_0000,
            CollisionMaterialFlags::CameraThru => 0x0020_0000,
            CollisionMaterialFlags::Wood => 0x0040_0000,
            CollisionMaterialFlags::Organic => 0x0080_0000,
            CollisionMaterialFlags::NoEdgeCollision => 0x0100_0000,
            CollisionMaterialFlags::RedundantEdgeOrFlippedTri => 0x0200_0000,
            CollisionMaterialFlags::SeeThru => 0x0400_0000,
            CollisionMaterialFlags::ScanThru => 0x0800_0000,
            CollisionMaterialFlags::AIWalkThru => 0x1000_0000,
            CollisionMaterialFlags::Ceiling => 0x2000_0000,
            CollisionMaterialFlags::Wall => 0x4000_0000,
            CollisionMaterialFlags::Floor => 0x8000_0000,
        }
    }

    /// The label text for this flag.
    pub open spec fn spec_name(self) -> Seq<char> {
        match self {
            CollisionMaterialFlags::Unknown => "Unknown"@,
            CollisionMaterialFlags::Stone => "Stone"@,
            CollisionMaterialFlags::Metal => "Metal"@,
            CollisionMaterialFlags::Grass => "Grass"@,
            CollisionMaterialFlags::Ice => "Ice"@,
            CollisionMaterialFlags::Pillar => "Pillar"@,
            CollisionMaterialFlags::MetalGrating => "MetalGrating"@,
            CollisionMaterialFlags::Phazon => "Phazon"@,
            CollisionMaterialFlags::Dirt => "Dirt"@,
            CollisionMaterialFlags::Lava => "Lava"@,
            CollisionMaterialFlags::LavaStone => "LavaStone"@,
            CollisionMaterialFlags::Snow => "Snow"@,
            CollisionMaterialFlags::MudSlow => "MudSlow"@,
            CollisionMaterialFlags::Halfpipe => "Halfpipe"@,
            CollisionMaterialFlags::Mud => "Mud"@,
            CollisionMaterialFlags::Glass => "Glass"@,
            CollisionMaterialFlags::Shield => "Shield"@,
            CollisionMaterialFlags::Sand => "Sand"@,
            CollisionMaterialFlags::ShootThru => "ShootThru"@,
            CollisionMaterialFlags::Solid => "Solid"@,
            CollisionMaterialFlags::NoPlatformCollision => "NoPlatformCollision"@,
            CollisionMaterialFlags::CameraThru => "CameraThru"@,
            CollisionMaterialFlags::Wood => "Wood"@,
            CollisionMaterialFlags::Organic => "Organic"@,
            CollisionMaterialFlags::NoEdgeCollision => "NoEdgeCollision"@,
            CollisionMaterialFlags::RedundantEdgeOrFlippedTri => "RedundantEdgeOrFlippedTri"@,
            CollisionMaterialFlags::SeeThru => "SeeThru"@,
            CollisionMaterialFlags::ScanThru => "ScanThru"@,
            CollisionMaterialFlags::AIWalkThru => "AIWalkThru"@,
            CollisionMaterialFlags::Ceiling => "Ceiling"@,
            CollisionMaterialFlags::Wall => "Wall"@,
            CollisionMaterialFlags::Floor => "Floor"@,
        }
    }

    /// The human-readable label of this flag, used on exported textures.
    pub fn name(&self) -> (r: &'static str)
        ensures
            r@ == self.spec_name(),
    {
        match self {
            CollisionMaterialFlags::Unknown => "Unknown",
            CollisionMaterialFlags::Stone => "Stone",
            CollisionMaterialFlags::Metal => "Metal",
            CollisionMaterialFlags::Grass => "Grass",
            CollisionMaterialFlags::Ice => "Ice",
            CollisionMaterialFlags::Pillar => "Pillar",
            CollisionMaterialFlags::MetalGrating => "MetalGrating",
            CollisionMaterialFlags::Phazon => "Phazon",
            CollisionMaterialFlags::Dirt => "Dirt",
            CollisionMaterialFlags::Lava => "Lava",
            CollisionMaterialFlags::LavaStone => "LavaStone",
            CollisionMaterialFlags::Snow => "Snow",
            CollisionMaterialFlags::MudSlow => "MudSlow",
            CollisionMaterialFlags::Halfpipe => "Halfpipe",
            CollisionMaterialFlags::Mud => "Mud",
            CollisionMaterialFlags::Glass => "Glass",
            CollisionMaterialFlags::Shield => "Shield",
            CollisionMaterialFlags::Sand => "Sand",
            CollisionMaterialFlags::ShootThru => "ShootThru",
            CollisionMaterialFlags::Solid => "Solid",
            CollisionMaterialFlags::NoPlatformCollision => "NoPlatformCollision",
            CollisionMaterialFlags::CameraThru => "CameraThru",
            CollisionMaterialFlags::Wood => "Wood",
            CollisionMaterialFlags::Organic => "Organic",
            CollisionMaterialFlags::NoEdgeCollision => "NoEdgeCollision",
            CollisionMaterialFlags::RedundantEdgeOrFlippedTri => "RedundantEdgeOrFlippedTri",
            CollisionMaterialFlags::SeeThru => "SeeThru",
            CollisionMaterialFlags::ScanThru => "ScanThru",
            CollisionMaterialFlags::AIWalkThru => "AIWalkThru",
            CollisionMaterialFlags::Ceiling => "Ceiling",
            CollisionMaterialFlags::Wall => "Wall",
            CollisionMaterialFlags::Floor => "Floor",
        }
    }

    /// The twenty ground-material flags whose label may appear as the first
    /// text line of an exported texture, in priority order from lowest to
    /// highest (the last match wins).
    pub fn material_flags() -> (r: Vec<CollisionMaterialFlags>)
        ensures
            r@ =~= material_flags_list(),
    {
        let v = vec![
            CollisionMaterialFlags::Unknown,
            CollisionMaterialFlags::Stone,
            CollisionMaterialFlags::Metal,
            CollisionMaterialFlags::Grass,
            CollisionMaterialFlags::Ice,
            CollisionMaterialFlags::Pillar,
            CollisionMaterialFlags::MetalGrating,
            CollisionMaterialFlags::Phazon,
            CollisionMaterialFlags::Dirt,
            CollisionMaterialFlags::Lava,
            CollisionMaterialFlags::LavaStone,
            CollisionMaterialFlags::Snow,
            CollisionMaterialFlags::MudSlow,
            CollisionMaterialFlags::Halfpipe,
            CollisionMaterialFlags::Mud,
            CollisionMaterialFlags::Glass,
            CollisionMaterialFlags::Shield,
            CollisionMaterialFlags::Sand,
            CollisionMaterialFlags::Wood,
            CollisionMaterialFlags::Organic,
        ];
        v
    }
}

/// The list returned by [`CollisionMaterialFlags::material_flags`].
pub open spec fn material_flags_list() -> Seq<CollisionMaterialFlags> {
    seq![
        CollisionMaterialFlags::Unknown,
        CollisionMaterialFlags::Stone,
        CollisionMaterialFlags::Metal,
        CollisionMaterialFlags::Grass,
        CollisionMaterialFlags::Ice,
        CollisionMaterialFlags::Pillar,
        CollisionMaterialFlags::MetalGrating,
        CollisionMaterialFlags::Phazon,
        CollisionMaterialFlags::Dirt,
        CollisionMaterialFlags::Lava,
        CollisionMaterialFlags::LavaStone,
        CollisionMaterialFlags::Snow,
        CollisionMaterialFlags::MudSlow,
        CollisionMaterialFlags::Halfpipe,
        CollisionMaterialFlags::Mud,
        CollisionMaterialFlags::Glass,
        CollisionMaterialFlags::Shield,
        CollisionMaterialFlags::Sand,
        CollisionMaterialFlags::Wood,
        CollisionMaterialFlags::Organic,
    ]
}

} // verus!
