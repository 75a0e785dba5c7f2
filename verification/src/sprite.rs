//! Where a sprite lies on its sprite sheet.
use vstd::prelude::*;
use crate::names::SpriteSheetName;

verus! {

/// The column and row of a sprite on its sheet.
pub struct SpritePosition {
    pub x: u8,
    pub y: u8,
}

impl SpritePosition {
    pub fn new(x: u8, y: u8) -> (r: SpritePosition)
        ensures
            r.x == x,
            r.y == y,
    {
        SpritePosition { x, y }
    }
}

/// A sprite: the sheet it is on and its position there.
pub struct SpriteDescriptor {
    sprite_sheet: SpriteSheetName,
    pub position: SpritePosition,
}

impl SpriteDescriptor {
    pub closed spec fn spec_sprite_sheet(&self) -> Seq<char> {
        self.sprite_sheet@
    }

    /// The column and row of the sprite.
    pub closed spec fn spec_position(&self) -> (u8, u8) {
        (self.position.x, self.position.y)
    }

    pub fn new(sprite_sheet: SpriteSheetName, position: SpritePosition) -> (r: SpriteDescriptor)
        ensures
            r.spec_sprite_sheet() == sprite_sheet@,
            r.spec_position() == (position.x, position.y),
    {
        SpriteDescriptor { sprite_sheet, position }
    }

    pub fn sprite_sheet(&self) -> (r: &SpriteSheetName)
        ensures
            r@ == self.spec_sprite_sheet(),
    {
        &self.sprite_sheet
    }
}

} // verus!
