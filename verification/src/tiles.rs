//! Tile kinds, the neighbourhood bit masks and the collision shapes of water tiles.

use vstd::prelude::*;

verus! {

/// The number of tiles along each side of a chunk.
pub const CHUNK_SIZE: u32 = 16;
/// How many chunks around the camera chunk are kept rendered.
pub const RENDERED_CHUNKS_RADIUS: u32 = 3;

/// Type flag of a tile that has not been collapsed yet.
pub const EMPTY_TYPE_MASK: u8 = 1;
/// Type flag of a water tile.
pub const WATER_TYPE_MASK: u8 = 2;
/// Type flag of a grass tile.
pub const GRASS_TYPE_MASK: u8 = 4;
/// Type flag of a path tile.
pub const PATH_TYPE_MASK: u8 = 8;
/// Type flag of a water tile with a sparkle animation.
pub const WATER_SPARKLE_TYPE_MASK: u8 = 16;
/// Atlas index that stands for "no tile chosen".
pub const INVALID_TILE: u16 = 240;

/// Neighbourhood bit of the top right corner.
pub const BITMASK_TOP_RIGHT: u16 = 1;
/// Neighbourhood bit of the bottom right corner.
pub const BITMASK_BOT_RIGHT: u16 = 2;
/// Neighbourhood bit of the bottom left corner.
pub const BITMASK_BOT_LEFT: u16 = 4;
/// Neighbourhood bit of the top left corner.
pub const BITMASK_TOP_LEFT: u16 = 8;

/// The neighbourhood mask with a bit set for each corner that holds.
pub open spec fn corner_mask(bot_left: bool, top_left: bool, top_right: bool, bot_right: bool) -> u16 {
    ((if bot_left { 4int } else { 0int }) + (if top_left { 8int } else { 0int })
        + (if top_right { 1int } else { 0int }) + (if bot_right { 2int } else { 0int })) as u16
}

/// Computes the neighbourhood mask of four corner flags.
pub fn make_corner_mask(bot_left: bool, top_left: bool, top_right: bool, bot_right: bool) -> (mask: u16)
    ensures
        mask == corner_mask(bot_left, top_left, top_right, bot_right),
        mask < 16,
{
    let mut mask: u16 = 0;
    if bot_left {
        mask = mask + BITMASK_BOT_LEFT;
    }
    if top_left {
        mask = mask + BITMASK_TOP_LEFT;
    }
    if top_right {
        mask = mask + BITMASK_TOP_RIGHT;
    }
    if bot_right {
        mask = mask + BITMASK_BOT_RIGHT;
    }
    mask
}

/// The collider that a water tile gets from the grass/water layout of its corners.
#[derive(Clone, Copy, Debug, PartialEq, Eq, Structural)]
pub enum TileCollision {
    NoCollision,
    BotRect,
    LeftRect,
    TopRect,
    RightRect,
    BotLeftTri,
    TopLeftTri,
    TopRightTri,
    BotRightTri,
}

/// The collider for a grass mask (a set bit marks a grass corner): two grass
/// corners on one side give a thin rectangle on the opposite side, one grass
/// corner gives the triangle that fills the rest of the tile.
pub open spec fn spec_collision_for_mask(mask: u16) -> TileCollision {
    if mask == 9 {
        TileCollision::BotRect
    } else if mask == 3 {
        TileCollision::LeftRect
    } else if mask == 6 {
        TileCollision::TopRect
    } else if mask == 12 {
        TileCollision::RightRect
    } else if mask == 1 {
        TileCollision::BotLeftTri
    } else if mask == 2 {
        TileCollision::TopLeftTri
    } else if mask == 4 {
        TileCollision::TopRightTri
    } else if mask == 8 {
        TileCollision::BotRightTri
    } else {
        TileCollision::NoCollision
    }
}

/// The corner of a tile that a triangle collider fills, as its neighbourhood
/// bit; 0 for a collider that is no triangle.
pub open spec fn triangle_corner(c: TileCollision) -> u16 {
    match c {
        TileCollision::BotLeftTri => BITMASK_BOT_LEFT,
        TileCollision::TopLeftTri => BITMASK_TOP_LEFT,
        TileCollision::TopRightTri => BITMASK_TOP_RIGHT,
        TileCollision::BotRightTri => BITMASK_BOT_RIGHT,
        _ => 0,
    }
}

/// The two corners of a tile along whose side a rectangle collider lies, as
/// neighbourhood bits; 0 for a collider that is no rectangle.
pub open spec fn rect_side(c: TileCollision) -> u16 {
    match c {
        TileCollision::BotRect => (BITMASK_BOT_LEFT + BITMASK_BOT_RIGHT) as u16,
        TileCollision::LeftRect => (BITMASK_BOT_LEFT + BITMASK_TOP_LEFT) as u16,
        TileCollision::TopRect => (BITMASK_TOP_LEFT + BITMASK_TOP_RIGHT) as u16,
        TileCollision::RightRect => (BITMASK_TOP_RIGHT + BITMASK_BOT_RIGHT) as u16,
        _ => 0,
    }
}

/// The corner diagonally across the tile from the corner with bit `b`.
pub open spec fn diagonal_corner(b: u16) -> u16 {
    if b == BITMASK_TOP_RIGHT {
        BITMASK_BOT_LEFT
    } else if b == BITMASK_BOT_LEFT {
        BITMASK_TOP_RIGHT
    } else if b == BITMASK_BOT_RIGHT {
        BITMASK_TOP_LEFT
    } else {
        BITMASK_BOT_RIGHT
    }
}

/// Whether the corners `a` and `b` (neighbourhood bits) share a side of the
/// tile: they differ and are not diagonal.
pub open spec fn adjacent_corners(a: u16, b: u16) -> bool {
    a != b && b != diagonal_corner(a)
}

/// Whether `b` is the bit of one corner.
pub open spec fn is_corner(b: u16) -> bool {
    b == BITMASK_TOP_RIGHT || b == BITMASK_BOT_RIGHT || b == BITMASK_BOT_LEFT || b == BITMASK_TOP_LEFT
}

/// Water tiles get colliders that keep the player out of the water: with a
/// single grass corner, a triangle fills the corner diagonally across from
/// it; with two grass corners along a side, a rectangle lies along the
/// opposite side (the two water corners); with no, three or four grass
/// corners, or two diagonal ones, there is no collider.
pub proof fn lemma_colliders_cover_water(a: u16, b: u16)
    requires
        is_corner(a),
        is_corner(b),
    ensures
        triangle_corner(spec_collision_for_mask(a)) == diagonal_corner(a),
        adjacent_corners(a, b) ==> rect_side(spec_collision_for_mask((a + b) as u16)) == 15 - (a + b),
        !adjacent_corners(a, b) && a != b ==> spec_collision_for_mask((a + b) as u16) == TileCollision::NoCollision,
        spec_collision_for_mask(0) == TileCollision::NoCollision,
        spec_collision_for_mask((15 - a) as u16) == TileCollision::NoCollision,
        spec_collision_for_mask(15) == TileCollision::NoCollision,
{
}

/// The collider that belongs to a grass mask of the four corners of a tile.
pub fn collision_for_mask(mask: u16) -> (c: TileCollision)
    ensures
        c == spec_collision_for_mask(mask),
{
    let bl = BITMASK_BOT_LEFT;
    let tl = BITMASK_TOP_LEFT;
    let tr = BITMASK_TOP_RIGHT;
    let br = BITMASK_BOT_RIGHT;
    assert(!4u16 & 8u16 | 1u16 & !2u16 == 9u16) by (bit_vector);
    assert(!4u16 & !8u16 & 1u16 | 2u16 == 3u16) by (bit_vector);
    assert(4u16 & !8u16 & !1u16 | 2u16 == 6u16) by (bit_vector);
    assert(4u16 | 8u16 & !1u16 & !2u16 == 12u16) by (bit_vector);
    assert(!4u16 & !8u16 & 1u16 & !2u16 == 1u16) by (bit_vector);
    assert(!4u16 & !8u16 & !1u16 & 2u16 == 2u16) by (bit_vector);
    assert(4u16 & !8u16 & !1u16 & !2u16 == 4u16) by (bit_vector);
    assert(!4u16 & 8u16 & !1u16 & !2u16 == 8u16) by (bit_vector);
    if mask == !bl & tl | tr & !br {
        TileCollision::BotRect
    } else if mask == !bl & !tl & tr | br {
        TileCollision::LeftRect
    } else if mask == bl & !tl & !tr | br {
        TileCollision::TopRect
    } else if mask == bl | tl & !tr & !br {
        TileCollision::RightRect
    } else if mask == !bl & !tl & tr & !br {
        TileCollision::BotLeftTri
    } else if mask == !bl & !tl & !tr & br {
        TileCollision::TopLeftTri
    } else if mask == bl & !tl & !tr & !br {
        TileCollision::TopRightTri
    } else if mask == !bl & tl & !tr & !br {
        TileCollision::BotRightTri
    } else {
        TileCollision::NoCollision
    }
}

} // verus!
