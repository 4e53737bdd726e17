//! Which flora grows on a map tile: trees, bushes and rocks need grass on
//! the tiles around them, and never stand on a chunk's border.

use vstd::prelude::*;

use crate::bitmap::{has_flag, in_map, BitMap, TilePos};
use crate::tiles::{CHUNK_SIZE, GRASS_TYPE_MASK};

verus! {

/// The size class of a flora point, from its sampling radius: above 3 a
/// tree, above 2.25 a bush, above 1.25 a small bush, above 1 a rock, else
/// nothing.
#[derive(Clone, Copy, Debug, PartialEq, Eq, Structural)]
pub enum FloraSize {
    Tree,
    Bush,
    SmallBush,
    Rock,
    Nothing,
}

/// The flora that is spawned.
#[derive(Clone, Copy, Debug, PartialEq, Eq, Structural)]
pub enum FloraKind {
    Tree,
    Bush,
    SmallBush,
    Rock,
}

/// Whether flora may stand on `(x, y)` of the map `m`: the tile and its
/// right, upper and upper-right neighbours are grass.
pub open spec fn flora_flag(m: Map<(int, int), (u8, u16)>, x: int, y: int) -> bool {
    &&& has_flag(m[(x, y)].0, GRASS_TYPE_MASK)
    &&& has_flag(m[(x + 1, y)].0, GRASS_TYPE_MASK)
    &&& has_flag(m[(x, y + 1)].0, GRASS_TYPE_MASK)
    &&& has_flag(m[(x + 1, y + 1)].0, GRASS_TYPE_MASK)
}

/// The absolute value of `x`.
pub open spec fn abs(x: int) -> int {
    if x < 0 {
        -x
    } else {
        x
    }
}

/// The flora that grows at the map tile `(x, y)` for a point of size
/// `size`: none on a chunk border; a tree where flora may stand on the tile,
/// its right, upper and upper-right neighbours and two tiles to either
/// side; a bush where it may on the tile, below and to either side; a small
/// bush on the tile and below; a rock on the tile.
pub open spec fn flora_at(m: Map<(int, int), (u8, u16)>, x: int, y: int, size: FloraSize) -> Option<
    FloraKind,
> {
    if abs(x) % (CHUNK_SIZE as int) == 0 || abs(y) % (CHUNK_SIZE as int) == 0 {
        None
    } else {
        match size {
            FloraSize::Tree => if flora_flag(m, x, y) && flora_flag(m, x + 1, y) && flora_flag(
                m,
                x,
                y + 1,
            ) && flora_flag(m, x + 1, y + 1) && flora_flag(m, x + 2, y) && flora_flag(m, x - 2, y) {
                Some(FloraKind::Tree)
            } else {
                None
            },
            FloraSize::Bush => if flora_flag(m, x, y) && flora_flag(m, x, y - 1) && flora_flag(
                m,
                x + 1,
                y,
            ) && flora_flag(m, x - 1, y) {
                Some(FloraKind::Bush)
            } else {
                None
            },
            FloraSize::SmallBush => if flora_flag(m, x, y) && flora_flag(m, x, y - 1) {
                Some(FloraKind::SmallBush)
            } else {
                None
            },
            FloraSize::Rock => if flora_flag(m, x, y) {
                Some(FloraKind::Rock)
            } else {
                None
            },
            FloraSize::Nothing => None,
        }
    }
}

/// Whether flora may stand on `v`; see `flora_flag`.
fn flag_at(bitmap: &mut BitMap, x: i32, y: i32) -> (b: bool)
    requires
        old(bitmap).wf(),
        in_map(x as int, y as int),
        in_map(x + 1, y + 1),
    ensures
        final(bitmap).wf(),
        final(bitmap)@ == old(bitmap)@,
        final(bitmap).path_edges() == old(bitmap).path_edges(),
        b == flora_flag(old(bitmap)@, x as int, y as int),
{
    let v = TilePos::new(x, y);
    bitmap.get_flora_flag(v)
}

/// The flora that a point of size `size` at `ipos` within the chunk `chunk`
/// grows; see `flora_at`.
pub fn spawn_flora(bitmap: &mut BitMap, chunk: (i32, i32), ipos: (i32, i32), size: FloraSize) -> (kind: Option<FloraKind>)
    requires
        old(bitmap).wf(),
        -1048575 < chunk.0 < 1048575,
        -1048575 < chunk.1 < 1048575,
        0 <= ipos.0 < CHUNK_SIZE,
        0 <= ipos.1 < CHUNK_SIZE,
    ensures
        final(bitmap).wf(),
        final(bitmap)@ == old(bitmap)@,
        final(bitmap).path_edges() == old(bitmap).path_edges(),
        kind == flora_at(
            old(bitmap)@,
            ipos.0 + chunk.0 * CHUNK_SIZE,
            ipos.1 + chunk.1 * CHUNK_SIZE,
            size,
        ),
{
    let size16: i32 = CHUNK_SIZE as i32;
    let x = ipos.0 + chunk.0 * size16;
    let y = ipos.1 + chunk.1 * size16;
    let ax: i32 = if x < 0 {
        -x
    } else {
        x
    };
    let ay: i32 = if y < 0 {
        -y
    } else {
        y
    };
    if ax % size16 == 0 || ay % size16 == 0 {
        return None;
    }
    match size {
        FloraSize::Tree => {
            if flag_at(bitmap, x, y) && flag_at(bitmap, x + 1, y) && flag_at(bitmap, x, y + 1)
                && flag_at(bitmap, x + 1, y + 1) && flag_at(bitmap, x + 2, y) && flag_at(
                bitmap,
                x - 2,
                y,
            ) {
                Some(FloraKind::Tree)
            } else {
                None
            }
        },
        FloraSize::Bush => {
            if flag_at(bitmap, x, y) && flag_at(bitmap, x, y - 1) && flag_at(bitmap, x + 1, y)
                && flag_at(bitmap, x - 1, y) {
                Some(FloraKind::Bush)
            } else {
                None
            }
        },
        FloraSize::SmallBush => {
            if flag_at(bitmap, x, y) && flag_at(bitmap, x, y - 1) {
                Some(FloraKind::SmallBush)
            } else {
                None
            }
        },
        FloraSize::Rock => {
            if flag_at(bitmap, x, y) {
                Some(FloraKind::Rock)
            } else {
                None
            }
        },
        FloraSize::Nothing => None,
    }
}

/// Whether `p` occurs in `points` before position `i`.
pub open spec fn seen_before(points: Seq<(i32, i32)>, i: int, p: (i32, i32)) -> bool {
    exists|j: int| 0 <= j < i && points[j] == p
}

/// For each point, whether it is the first at its position: later points
/// at the same tile are dropped.
pub fn unique_points(points: &Vec<(i32, i32)>) -> (keep: Vec<bool>)
    ensures
        keep@.len() == points@.len(),
        forall|i: int|
            0 <= i < points@.len() ==> (#[trigger] keep@[i]) == !seen_before(points@, i, points@[i]),
{
    let mut keep: Vec<bool> = Vec::new();
    let mut i: usize = 0;
    while i < points.len()
        invariant
            i <= points@.len(),
            keep@.len() == i,
            forall|k: int| 0 <= k < i ==> (#[trigger] keep@[k]) == !seen_before(points@, k, points@[k]),
        decreases points@.len() - i,
    {
        let p = points[i];
        let mut j: usize = 0;
        let mut seen = false;
        while j < i
            invariant
                j <= i < points@.len(),
                p == points@[i as int],
                seen == exists|m: int| 0 <= m < j && points@[m] == p,
            decreases i - j,
        {
            let q = points[j];
            if q.0 == p.0 && q.1 == p.1 {
                assert(points@[j as int] == p);
                seen = true;
            }
            j = j + 1;
        }
        keep.push(!seen);
        i = i + 1;
    }
    keep
}

} // verus!
