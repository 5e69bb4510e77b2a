//! The textures the editor draws with, and where their image files lie.

use vstd::prelude::*;

verus! {

/// One texture of the tile set.
#[derive(Debug, Clone, Copy, PartialEq, Eq, Structural)]
pub enum TextureId {
    Ground,
    Wall,
    SideWall,
    GatewayWall,
    Door,
    SideDoor,
    Shadow,
}

impl TextureId {
    /// The number under which draw commands and render descriptors name
    /// this texture.
    pub open spec fn spec_id(self) -> u32 {
        match self {
            TextureId::Ground => 0,
            TextureId::Wall => 1,
            TextureId::SideWall => 2,
            TextureId::GatewayWall => 3,
            TextureId::Door => 4,
            TextureId::SideDoor => 5,
            TextureId::Shadow => 6,
        }
    }

    /// The path of this texture's image file.
    pub open spec fn spec_path(self) -> Seq<char> {
        match self {
            TextureId::Ground => "assets/textures/tiles/ground.png"@,
            TextureId::Wall => "assets/textures/tiles/wall.png"@,
            TextureId::SideWall => "assets/textures/tiles/side_wall.png"@,
            TextureId::GatewayWall => "assets/textures/tiles/gateway_wall.png"@,
            TextureId::Door => "assets/textures/tiles/door.png"@,
            TextureId::SideDoor => "assets/textures/tiles/side_door.png"@,
            TextureId::Shadow => "assets/textures/tiles/shadow.png"@,
        }
    }

    /// The number under which draw commands and render descriptors name
    /// this texture.
    #[verifier::when_used_as_spec(spec_id)]
    pub fn id(self) -> (id: u32)
        ensures
            id == self.spec_id(),
    {
        match self {
            TextureId::Ground => 0,
            TextureId::Wall => 1,
            TextureId::SideWall => 2,
            TextureId::GatewayWall => 3,
            TextureId::Door => 4,
            TextureId::SideDoor => 5,
            TextureId::Shadow => 6,
        }
    }

    /// This texture's number together with the path of its image file: what
    /// a loader needs to know of it.
    pub fn entry(&self) -> (entry: (u32, &str))
        ensures
            entry.0 == self.spec_id(),
            entry.1@ == self.spec_path(),
    {
        match self {
            TextureId::Ground => (self.id(), "assets/textures/tiles/ground.png"),
            TextureId::Wall => (self.id(), "assets/textures/tiles/wall.png"),
            TextureId::SideWall => (self.id(), "assets/textures/tiles/side_wall.png"),
            TextureId::GatewayWall => (self.id(), "assets/textures/tiles/gateway_wall.png"),
            TextureId::Door => (self.id(), "assets/textures/tiles/door.png"),
            TextureId::SideDoor => (self.id(), "assets/textures/tiles/side_door.png"),
            TextureId::Shadow => (self.id(), "assets/textures/tiles/shadow.png"),
        }
    }
}

} // verus!
