//! Tile atlas lookups: which atlas tiles may stand for a neighbourhood mask.

use std::collections::HashMap;

use rand::{thread_rng, Rng};
use vstd::prelude::*;

use crate::tiles::INVALID_TILE;

verus! {

broadcast use vstd::std_specs::hash::group_hash_axioms;

/// The path table's entry that asks for a grass tile with or without flowers.
pub const GRASS_FLOWER_SUPER_POSITION: u16 = 15;

/// The atlas index of the tile in column `x` and row `y`.
pub open spec fn spec_grid_to_index(x: int, y: int) -> int {
    x + y * 16
}

/// Atlas index of the tile at column `x`, row `y` of the 16-wide atlas.
pub fn grid_to_index(x: u16, y: u16) -> (index: u16)
    requires
        x + y * 16 <= u16::MAX,
    ensures
        index == spec_grid_to_index(x as int, y as int),
{
    x + y * 16
}

/// Short hand for an atlas index in the specifications below.
pub open spec fn g(x: int, y: int) -> u16 {
    spec_grid_to_index(x, y) as u16
}

/// The grass/water table: for each grass mask (a set bit marks a grass
/// corner), the atlas tiles that may be drawn.
pub open spec fn grass_table(mask: u16) -> Option<Seq<u16>> {
    if mask == 0 {
        Some(seq![g(11, 13), g(12, 13), g(13, 13), g(12, 14), g(13, 14)])
    } else if mask == 15 {
        Some(seq![g(0, 1)])
    } else if mask == 13 {
        Some(seq![g(5, 0)])
    } else if mask == 11 {
        Some(seq![g(8, 0)])
    } else if mask == 7 {
        Some(seq![g(8, 2)])
    } else if mask == 14 {
        Some(seq![g(5, 2)])
    } else if mask == 9 {
        Some(seq![g(6, 0), g(7, 0)])
    } else if mask == 6 {
        Some(seq![g(6, 2), g(7, 2)])
    } else if mask == 3 {
        Some(seq![g(7, 1), g(8, 1)])
    } else if mask == 12 {
        Some(seq![g(5, 1), g(6, 1)])
    } else if mask == 2 {
        Some(seq![g(5, 3)])
    } else if mask == 4 {
        Some(seq![g(6, 3)])
    } else if mask == 8 {
        Some(seq![g(6, 4)])
    } else if mask == 1 {
        Some(seq![g(5, 4)])
    } else if mask == 10 {
        Some(seq![g(7, 3)])
    } else if mask == 5 {
        Some(seq![g(7, 4)])
    } else {
        None
    }
}

/// The path table: for each path mask (a set bit marks a path corner), the
/// atlas tiles that may be drawn.
pub open spec fn path_table(mask: u16) -> Option<Seq<u16>> {
    if mask == 0 {
        Some(seq![GRASS_FLOWER_SUPER_POSITION])
    } else if mask == 15 {
        Some(seq![g(2, 1)])
    } else if mask == 13 {
        Some(seq![g(1, 3)])
    } else if mask == 11 {
        Some(seq![g(2, 3)])
    } else if mask == 7 {
        Some(seq![g(2, 4)])
    } else if mask == 14 {
        Some(seq![g(1, 4)])
    } else if mask == 9 {
        Some(seq![g(2, 2), g(4, 5)])
    } else if mask == 6 {
        Some(seq![g(2, 0), g(3, 5)])
    } else if mask == 3 {
        Some(seq![g(1, 1), g(2, 5)])
    } else if mask == 12 {
        Some(seq![g(3, 1), g(1, 5)])
    } else if mask == 2 {
        Some(seq![g(1, 0)])
    } else if mask == 4 {
        Some(seq![g(3, 0)])
    } else if mask == 8 {
        Some(seq![g(3, 2)])
    } else if mask == 1 {
        Some(seq![g(1, 2)])
    } else if mask == 10 {
        Some(seq![g(3, 4)])
    } else if mask == 5 {
        Some(seq![g(3, 3)])
    } else {
        None
    }
}

/// The flower table: plain grass (key 0) or grass with flowers (key 1).
pub open spec fn flower_table(mask: u16) -> Option<Seq<u16>> {
    if mask == 0 {
        Some(seq![g(0, 1), g(0, 2), g(0, 3), g(0, 4)])
    } else if mask == 1 {
        Some(seq![g(0, 6), g(1, 6), g(2, 6), g(3, 6), g(0, 7), g(1, 7), g(2, 7), g(3, 7)])
    } else {
        None
    }
}

/// The tiles that a lookup of `mask` chooses from in a table: the table's
/// entry, or the invalid tile alone where the table has none.
pub open spec fn choices(table: Option<Seq<u16>>) -> Seq<u16> {
    match table {
        Some(s) => s,
        None => seq![INVALID_TILE],
    }
}

/// A table from neighbourhood masks to the atlas tiles that fit them.
pub struct BitMasks {
    masks: HashMap<u16, Vec<u16>>,
}

impl BitMasks {
    /// The entry of `mask`, if the table has one.
    pub closed spec fn entry(&self, mask: u16) -> Option<Seq<u16>> {
        if self.masks@.contains_key(mask) {
            Some(self.masks@[mask]@)
        } else {
            None
        }
    }

    /// Every entry of the table offers at least one tile.
    pub closed spec fn wf(&self) -> bool {
        forall|mask: u16| self.masks@.contains_key(mask) ==> #[trigger] self.masks@[mask]@.len() > 0
    }

    fn empty() -> (m: Self)
        ensures
            m.wf(),
            forall|mask: u16| #[trigger] m.entry(mask) == None::<Seq<u16>>,
    {
        BitMasks { masks: HashMap::new() }
    }

    fn add(&mut self, mask: u16, tiles: Vec<u16>)
        requires
            old(self).wf(),
            tiles@.len() > 0,
        ensures
            final(self).wf(),
            forall|k: u16| #[trigger] final(self).entry(k) == if k == mask {
                Some(tiles@)
            } else {
                old(self).entry(k)
            },
    {
        self.masks.insert(mask, tiles);
    }

    /// The grass/water table.
    pub fn grass() -> (m: Self)
        ensures
            m.wf(),
            forall|mask: u16| #[trigger] m.entry(mask) == grass_table(mask),
    {
        let mut m = Self::empty();
        m.add(0, vec![grid_to_index(11, 13), grid_to_index(12, 13), grid_to_index(13, 13), grid_to_index(12, 14), grid_to_index(13, 14)]);
        m.add(15, vec![grid_to_index(0, 1)]);
        m.add(13, vec![grid_to_index(5, 0)]);
        m.add(11, vec![grid_to_index(8, 0)]);
        m.add(7, vec![grid_to_index(8, 2)]);
        m.add(14, vec![grid_to_index(5, 2)]);
        m.add(9, vec![grid_to_index(6, 0), grid_to_index(7, 0)]);
        m.add(6, vec![grid_to_index(6, 2), grid_to_index(7, 2)]);
        m.add(3, vec![grid_to_index(7, 1), grid_to_index(8, 1)]);
        m.add(12, vec![grid_to_index(5, 1), grid_to_index(6, 1)]);
        m.add(2, vec![grid_to_index(5, 3)]);
        m.add(4, vec![grid_to_index(6, 3)]);
        m.add(8, vec![grid_to_index(6, 4)]);
        m.add(1, vec![grid_to_index(5, 4)]);
        m.add(10, vec![grid_to_index(7, 3)]);
        m.add(5, vec![grid_to_index(7, 4)]);
        m
    }

    /// The path table.
    pub fn path() -> (m: Self)
        ensures
            m.wf(),
            forall|mask: u16| #[trigger] m.entry(mask) == path_table(mask),
    {
        let mut m = Self::empty();
        m.add(0, vec![GRASS_FLOWER_SUPER_POSITION]);
        m.add(15, vec![grid_to_index(2, 1)]);
        m.add(13, vec![grid_to_index(1, 3)]);
        m.add(11, vec![grid_to_index(2, 3)]);
        m.add(7, vec![grid_to_index(2, 4)]);
        m.add(14, vec![grid_to_index(1, 4)]);
        m.add(9, vec![grid_to_index(2, 2), grid_to_index(4, 5)]);
        m.add(6, vec![grid_to_index(2, 0), grid_to_index(3, 5)]);
        m.add(3, vec![grid_to_index(1, 1), grid_to_index(2, 5)]);
        m.add(12, vec![grid_to_index(3, 1), grid_to_index(1, 5)]);
        m.add(2, vec![grid_to_index(1, 0)]);
        m.add(4, vec![grid_to_index(3, 0)]);
        m.add(8, vec![grid_to_index(3, 2)]);
        m.add(1, vec![grid_to_index(1, 2)]);
        m.add(10, vec![grid_to_index(3, 4)]);
        m.add(5, vec![grid_to_index(3, 3)]);
        m
    }

    /// The flower table.
    pub fn flower() -> (m: Self)
        ensures
            m.wf(),
            forall|mask: u16| #[trigger] m.entry(mask) == flower_table(mask),
    {
        let mut m = Self::empty();
        m.add(0, vec![grid_to_index(0, 1), grid_to_index(0, 2), grid_to_index(0, 3), grid_to_index(0, 4)]);
        m.add(1, vec![
            grid_to_index(0, 6), grid_to_index(1, 6), grid_to_index(2, 6), grid_to_index(3, 6),
            grid_to_index(0, 7), grid_to_index(1, 7), grid_to_index(2, 7), grid_to_index(3, 7),
        ]);
        m
    }

    /// One of the tiles that fit `mask`, picked at random: an element of the
    /// table's entry for `mask`, or the invalid tile where there is none.
    pub fn get_index(&self, mask: u16) -> (tile: u16)
        requires
            self.wf(),
        ensures
            choices(self.entry(mask)).contains(tile),
    {
        let pick = random_below(self.choice_count(mask));
        self.tile_at(mask, pick)
    }

    /// How many tiles the lookup of `mask` chooses from.
    pub fn choice_count(&self, mask: u16) -> (n: usize)
        requires
            self.wf(),
        ensures
            n == choices(self.entry(mask)).len(),
            n > 0,
    {
        match self.masks.get(&mask) {
            Some(r) => r.len(),
            None => 1,
        }
    }

    /// The `pick`-th of the tiles that the lookup of `mask` chooses from.
    pub fn tile_at(&self, mask: u16, pick: usize) -> (tile: u16)
        requires
            self.wf(),
            pick < choices(self.entry(mask)).len(),
        ensures
            tile == choices(self.entry(mask))[pick as int],
    {
        match self.masks.get(&mask) {
            Some(r) => r[pick],
            None => INVALID_TILE,
        }
    }
}

/// Calls `rand::Rng::gen_range(0..len)` on the thread-local generator
/// (`rand::thread_rng`). The claim: the result lies in `0..len`; which value
/// comes is left open, as it rests on chance. `gen_range` panics on an empty
/// range, hence `len > 0`.
#[verifier::external_body]
fn random_below(len: usize) -> (r: usize)
    requires
        len > 0,
    ensures
        r < len,
{
    thread_rng().gen_range(0..len)
}

} // verus!
