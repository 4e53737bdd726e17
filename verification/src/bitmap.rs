//! The lazily generated tile map of the world, stored as four growable
//! quadrant grids.

use vstd::prelude::*;

use crate::bitmask::{flower_table, grass_table, path_table, BitMasks};
use crate::bitmask::{choices, GRASS_FLOWER_SUPER_POSITION};
use crate::tiles::{
    corner_mask, make_corner_mask, spec_collision_for_mask, collision_for_mask, TileCollision,
    CHUNK_SIZE, EMPTY_TYPE_MASK, GRASS_TYPE_MASK, INVALID_TILE, PATH_TYPE_MASK,
    RENDERED_CHUNKS_RADIUS, WATER_SPARKLE_TYPE_MASK, WATER_TYPE_MASK,
};

verus! {

/// The largest distance from the origin, in tiles, that the map holds.
/// The quadrant grids grow to hold every tile that is read or written, so
/// this bounds the memory the map may take.
pub const COORD_LIMIT: i32 = 16777216;

/// The type flags and atlas tile of a tile that was never touched.
pub open spec fn default_cell() -> (u8, u16) {
    (EMPTY_TYPE_MASK, INVALID_TILE)
}

/// One quadrant grid: a row per `|x|`, a column per `|y|`.
pub type Quadrant = Vec<Vec<(u8, u16)>>;

/// The content of a quadrant grid at row `i`, column `j`: what is stored
/// there, or the default where the grid does not reach.
pub open spec fn cell(q: Seq<Vec<(u8, u16)>>, i: int, j: int) -> (u8, u16) {
    if 0 <= i < q.len() && 0 <= j < q[i]@.len() {
        q[i]@[j]
    } else {
        default_cell()
    }
}

/// A quadrant grid has at least one row; row 0 is the shortest and every
/// row is at most three times as long; the sizes stay within what the
/// coordinate limit lets the grid grow to.
pub open spec fn quad_wf(q: Seq<Vec<(u8, u16)>>) -> bool {
    &&& 1 <= q.len() <= COORD_LIMIT + 16
    &&& 1 <= q[0]@.len() <= 2 * COORD_LIMIT
    &&& forall|i: int| 0 <= i < q.len() ==> q[0]@.len() <= #[trigger] q[i]@.len() <= 3 * q[0]@.len()
}

fn default_row(n: usize) -> (row: Vec<(u8, u16)>)
    ensures
        row@.len() == n,
        forall|j: int| 0 <= j < n ==> #[trigger] row@[j] == default_cell(),
{
    let mut row: Vec<(u8, u16)> = Vec::new();
    let mut k: usize = 0;
    while k < n
        invariant
            k <= n,
            row@.len() == k,
            forall|j: int| 0 <= j < k ==> #[trigger] row@[j] == default_cell(),
        decreases n - k,
    {
        row.push((EMPTY_TYPE_MASK, INVALID_TILE));
        k = k + 1;
    }
    row
}

fn new_quadrant(n: usize) -> (q: Quadrant)
    requires
        1 <= n <= COORD_LIMIT,
    ensures
        quad_wf(q@),
        q@.len() == n,
        forall|i: int, j: int| #[trigger] cell(q@, i, j) == default_cell(),
{
    let mut q: Quadrant = Vec::new();
    let mut k: usize = 0;
    while k < n
        invariant
            k <= n,
            q@.len() == k,
            forall|i: int| 0 <= i < k ==> (#[trigger] q@[i])@.len() == n,
            forall|i: int, j: int| 0 <= i < k && 0 <= j < n ==> #[trigger] q@[i]@[j] == default_cell(),
        decreases n - k,
    {
        q.push(default_row(n));
        k = k + 1;
    }
    assert forall|i: int, j: int| #[trigger] cell(q@, i, j) == default_cell() by {
        if 0 <= i < q@.len() && 0 <= j < q@[i]@.len() {
            assert(q@[i]@[j] == default_cell());
        }
    }
    q
}

/// Grows the grid until it holds row `i` and, in row 0, column `j`: rows
/// are added `CHUNK_SIZE` at a time, and every row is lengthened by the
/// then current length of row 0.
fn fit_quadrant(q: &mut Quadrant, i: usize, j: usize)
    requires
        quad_wf(old(q)@),
        i < COORD_LIMIT,
        j < COORD_LIMIT,
    ensures
        quad_wf(final(q)@),
        i < final(q)@.len(),
        j < final(q)@[0]@.len(),
        forall|a: int, b: int| #[trigger] cell(final(q)@, a, b) == cell(old(q)@, a, b),
{
    let ghost orig = q@;
    let mut fitting_size = false;
    while !fitting_size
        invariant
            quad_wf(q@),
            i < COORD_LIMIT,
            j < COORD_LIMIT,
            forall|a: int, b: int| #[trigger] cell(q@, a, b) == cell(orig, a, b),
            fitting_size ==> i < q@.len() && j < q@[0]@.len(),
        decreases
            (COORD_LIMIT + 16 - q@.len()) + (2 * COORD_LIMIT - q@[0]@.len()),
            if fitting_size { 0int } else { 1int },
    {
        fitting_size = true;
        if q.len() <= i {
            fitting_size = false;
            let w = q[0].len();
            let ghost before = q@;
            let mut k: u32 = 0;
            while k < CHUNK_SIZE
                invariant
                    k <= CHUNK_SIZE,
                    q@.len() == before.len() + k,
                    before.len() <= i < COORD_LIMIT,
                    w == before[0]@.len(),
                    forall|a: int| 0 <= a < before.len() ==> #[trigger] q@[a] == before[a],
                    forall|a: int| before.len() <= a < q@.len() ==> (#[trigger] q@[a])@.len() == w,
                    forall|a: int, b: int| before.len() <= a < q@.len() && 0 <= b < w
                        ==> #[trigger] q@[a]@[b] == default_cell(),
                decreases CHUNK_SIZE - k,
            {
                q.push(default_row(w));
                k = k + 1;
            }
            assert(quad_wf(q@)) by {
                assert(q@[0] == before[0]);
                assert forall|a: int| 0 <= a < q@.len() implies q@[0]@.len() <= #[trigger] q@[a]@.len()
                    <= 3 * q@[0]@.len() by {
                    if a < before.len() {
                        assert(q@[a] == before[a]);
                    }
                }
            }
            assert forall|a: int, b: int| #[trigger] cell(q@, a, b) == cell(orig, a, b) by {
                assert(cell(before, a, b) == cell(orig, a, b));
                if 0 <= a < before.len() {
                    assert(q@[a] == before[a]);
                } else if before.len() <= a < q@.len() && 0 <= b < q@[a]@.len() {
                    assert(q@[a]@[b] == default_cell());
                }
            }
        }
        if q[0].len() <= j {
            fitting_size = false;
            let ghost before = q@;
            let n = q.len();
            let mut r: usize = 0;
            while r < n
                invariant
                    n == q@.len() == before.len(),
                    r <= n,
                    quad_wf(before),
                    before[0]@.len() <= j < COORD_LIMIT,
                    r > 0 ==> q@[0]@.len() == 2 * before[0]@.len(),
                    forall|a: int| r <= a < n ==> #[trigger] q@[a] == before[a],
                    forall|a: int| 0 < a < r ==> (#[trigger] q@[a])@.len() == before[a]@.len() + 2 * before[0]@.len(),
                    forall|a: int, b: int| 0 <= a < r && 0 <= b < before[a]@.len()
                        ==> #[trigger] q@[a]@[b] == before[a]@[b],
                    forall|a: int, b: int| 0 <= a < r && before[a]@.len() <= b < q@[a]@.len()
                        ==> #[trigger] q@[a]@[b] == default_cell(),
                    r == 0 ==> q@ == before,
                decreases n - r,
            {
                let add = q[0].len();
                let mut row = default_row(add);
                q[r].append(&mut row);
                r = r + 1;
            }
            assert(quad_wf(q@)) by {
                assert forall|a: int| 0 <= a < q@.len() implies q@[0]@.len() <= #[trigger] q@[a]@.len()
                    <= 3 * q@[0]@.len() by {
                    assert(before[a]@.len() <= 3 * before[0]@.len());
                }
            }
            assert forall|a: int, b: int| #[trigger] cell(q@, a, b) == cell(orig, a, b) by {
                assert(cell(before, a, b) == cell(orig, a, b));
                if 0 <= a < q@.len() && 0 <= b < q@[a]@.len() {
                    if b < before[a]@.len() {
                        assert(q@[a]@[b] == before[a]@[b]);
                    } else {
                        assert(q@[a]@[b] == default_cell());
                    }
                }
            }
        }
    }
}

fn read_quadrant(q: &Quadrant, i: usize, j: usize) -> (t: (u8, u16))
    requires
        quad_wf(q@),
        i < q@.len(),
        j < q@[0]@.len(),
    ensures
        t == cell(q@, i as int, j as int),
{
    q[i][j]
}

fn write_quadrant(q: &mut Quadrant, i: usize, j: usize, t: (u8, u16))
    requires
        quad_wf(old(q)@),
        i < old(q)@.len(),
        j < old(q)@[0]@.len(),
    ensures
        quad_wf(final(q)@),
        final(q)@.len() == old(q)@.len(),
        final(q)@[0]@.len() == old(q)@[0]@.len(),
        forall|a: int, b: int| #[trigger] cell(final(q)@, a, b) == if a == i && b == j {
            t
        } else {
            cell(old(q)@, a, b)
        },
{
    let ghost before = q@;
    q[i].set(j, t);
    assert forall|a: int| 0 <= a < q@.len() implies #[trigger] q@[a]@.len() == before[a]@.len() by {
        if a != i {
            assert(q@[a] == before[a]);
        }
    }
    assert forall|a: int, b: int| #[trigger] cell(q@, a, b) == if a == i && b == j {
        t
    } else {
        cell(before, a, b)
    } by {
        if a != i && 0 <= a < q@.len() {
            assert(q@[a] == before[a]);
        }
    }
}

/// A tile position on the map, in tiles.
#[derive(Clone, Copy, Debug, PartialEq, Eq, Structural)]
pub struct TilePos {
    pub x: i32,
    pub y: i32,
}

impl TilePos {
    /// The position `(x, y)`.
    pub fn new(x: i32, y: i32) -> (v: Self)
        ensures
            v.x == x,
            v.y == y,
    {
        TilePos { x, y }
    }

    /// The position moved by `(dx, dy)`.
    pub fn offset(self, dx: i32, dy: i32) -> (v: Self)
        requires
            i32::MIN <= self.x + dx <= i32::MAX,
            i32::MIN <= self.y + dy <= i32::MAX,
        ensures
            v.x == self.x + dx,
            v.y == self.y + dy,
    {
        TilePos { x: self.x + dx, y: self.y + dy }
    }

    /// The position as a key of the map's view.
    pub open spec fn key(self) -> (int, int) {
        (self.x as int, self.y as int)
    }

    /// The position moved by `(dx, dy)`, as a key of the map's view.
    pub open spec fn shifted(self, dx: int, dy: int) -> (int, int) {
        (self.x + dx, self.y + dy)
    }
}

/// Whether the tile `(x, y)` lies within the coordinate limit.
pub open spec fn in_map(x: int, y: int) -> bool {
    -COORD_LIMIT < x < COORD_LIMIT && -COORD_LIMIT < y < COORD_LIMIT
}

/// Which quadrant grid holds the tile `(x, y)`.
pub open spec fn quadrant_of(x: int, y: int) -> u16 {
    if x >= 0 && y >= 0 {
        1
    } else if x < 0 && y >= 0 {
        2
    } else if x < 0 && y < 0 {
        3
    } else {
        4
    }
}

/// `|x|`.
pub open spec fn abs(x: int) -> int {
    if x < 0 {
        -x
    } else {
        x
    }
}

/// What the height noise says of one tile: whether it lies below the sea
/// level, whether its water sparkles, and whether its grass has flowers.
#[derive(Clone, Copy, Debug, PartialEq, Eq, Structural)]
pub struct TerrainSample {
    pub water: bool,
    pub sparkle: bool,
    pub flowers: bool,
}

/// The terrain samples of the four corners of a tile `v`: `v` itself
/// (bottom left), `v + (0, 1)`, `v + (1, 1)` and `v + (1, 0)`.
#[derive(Clone, Copy, Debug, PartialEq, Eq, Structural)]
pub struct CornerSamples {
    pub bot_left: TerrainSample,
    pub top_left: TerrainSample,
    pub top_right: TerrainSample,
    pub bot_right: TerrainSample,
}

/// Whether the type flags `t` hold `flag`.
pub open spec fn has_flag(t: u8, flag: u8) -> bool {
    t & flag == flag
}

/// The type flags after setting the type `ty` on a tile with flags `old`:
/// a sparkle keeps the water flag of the tile, any other type replaces
/// the flags.
pub open spec fn type_after_set(old: u8, ty: u8) -> u8 {
    if ty == WATER_SPARKLE_TYPE_MASK {
        (old & WATER_TYPE_MASK) | ty
    } else {
        ty
    }
}

/// The type flags of a tile with flags `t` once its water is collapsed with
/// the sample `s`: an empty tile becomes water (sparkling if the sample says
/// so) or grass; any other tile keeps its flags.
pub open spec fn collapsed_type(t: u8, s: TerrainSample) -> u8 {
    if has_flag(t, EMPTY_TYPE_MASK) {
        if s.water {
            if s.sparkle {
                type_after_set(WATER_TYPE_MASK, WATER_SPARKLE_TYPE_MASK)
            } else {
                WATER_TYPE_MASK
            }
        } else {
            GRASS_TYPE_MASK
        }
    } else {
        t
    }
}

/// The map after collapsing the water of the tile at `p` with sample `s`.
pub open spec fn collapse_at(m: Map<(int, int), (u8, u16)>, p: (int, int), s: TerrainSample) -> Map<
    (int, int),
    (u8, u16),
> {
    m.insert(p, (collapsed_type(m[p].0, s), m[p].1))
}

/// Whether the tile at `p` is water once collapsed with sample `s`.
pub open spec fn water_after(m: Map<(int, int), (u8, u16)>, p: (int, int), s: TerrainSample) -> bool {
    has_flag(collapsed_type(m[p].0, s), WATER_TYPE_MASK)
}

/// Whether the tile at `p` is path once collapsed with sample `s`.
pub open spec fn path_after(m: Map<(int, int), (u8, u16)>, p: (int, int), s: TerrainSample) -> bool {
    has_flag(collapsed_type(m[p].0, s), PATH_TYPE_MASK)
}

/// The map after collapsing the water of the four corners of `v`.
pub open spec fn collapse_corners(m: Map<(int, int), (u8, u16)>, v: TilePos, c: CornerSamples) -> Map<
    (int, int),
    (u8, u16),
> {
    let m1 = collapse_at(m, v.key(), c.bot_left);
    let m2 = collapse_at(m1, v.shifted(0, 1), c.top_left);
    let m3 = collapse_at(m2, v.shifted(1, 1), c.top_right);
    collapse_at(m3, v.shifted(1, 0), c.bot_right)
}

/// The mask of the corners of `v` that are grass (not water) once collapsed.
pub open spec fn grass_corner_mask(m: Map<(int, int), (u8, u16)>, v: TilePos, c: CornerSamples) -> u16 {
    corner_mask(
        !water_after(m, v.key(), c.bot_left),
        !water_after(m, v.shifted(0, 1), c.top_left),
        !water_after(m, v.shifted(1, 1), c.top_right),
        !water_after(m, v.shifted(1, 0), c.bot_right),
    )
}

/// The mask of the corners of `v` that are path once collapsed.
pub open spec fn path_corner_mask(m: Map<(int, int), (u8, u16)>, v: TilePos, c: CornerSamples) -> u16 {
    corner_mask(
        path_after(m, v.key(), c.bot_left),
        path_after(m, v.shifted(0, 1), c.top_left),
        path_after(m, v.shifted(1, 1), c.top_right),
        path_after(m, v.shifted(1, 0), c.bot_right),
    )
}

/// Whether any corner of `v` is water once collapsed.
pub open spec fn any_corner_water(m: Map<(int, int), (u8, u16)>, v: TilePos, c: CornerSamples) -> bool {
    ||| water_after(m, v.key(), c.bot_left)
    ||| water_after(m, v.shifted(0, 1), c.top_left)
    ||| water_after(m, v.shifted(1, 1), c.top_right)
    ||| water_after(m, v.shifted(1, 0), c.bot_right)
}

/// The table entry that the tile of `v` is drawn from: the grass/water
/// table where a corner is water, else the path table.
pub open spec fn tile_candidates(m: Map<(int, int), (u8, u16)>, v: TilePos, c: CornerSamples) -> Option<
    Seq<u16>,
> {
    if any_corner_water(m, v, c) {
        grass_table(grass_corner_mask(m, v, c))
    } else {
        path_table(path_corner_mask(m, v, c))
    }
}

/// Whether `t` may be the tile drawn from `candidates`: a candidate other
/// than the grass/flower super position, or, where the super position is a
/// candidate, a plain grass tile or (with `flowers`) a flower tile.
pub open spec fn valid_tile_choice(candidates: Option<Seq<u16>>, flowers: bool, t: u16) -> bool {
    ||| t != GRASS_FLOWER_SUPER_POSITION && choices(candidates).contains(t)
    ||| choices(candidates).contains(GRASS_FLOWER_SUPER_POSITION) && choices(
        flower_table(if flowers { 1 } else { 0 }),
    ).contains(t)
}

proof fn lemma_type_flags(t: u8)
    ensures
        type_after_set(WATER_TYPE_MASK, WATER_SPARKLE_TYPE_MASK) == 18,
        has_flag(18, WATER_TYPE_MASK),
        !has_flag(18, EMPTY_TYPE_MASK),
        !has_flag(18, PATH_TYPE_MASK),
        !has_flag(18, GRASS_TYPE_MASK),
        has_flag(18, WATER_SPARKLE_TYPE_MASK),
        has_flag(2, WATER_TYPE_MASK),
        !has_flag(2, EMPTY_TYPE_MASK),
        !has_flag(2, PATH_TYPE_MASK),
        !has_flag(2, GRASS_TYPE_MASK),
        !has_flag(4, WATER_TYPE_MASK),
        !has_flag(4, EMPTY_TYPE_MASK),
        !has_flag(4, PATH_TYPE_MASK),
        has_flag(4, GRASS_TYPE_MASK),
        has_flag(type_after_set(t, WATER_SPARKLE_TYPE_MASK), WATER_TYPE_MASK) == has_flag(t, WATER_TYPE_MASK),
        has_flag(type_after_set(t, WATER_SPARKLE_TYPE_MASK), WATER_SPARKLE_TYPE_MASK),
        !has_flag(type_after_set(t, WATER_SPARKLE_TYPE_MASK), EMPTY_TYPE_MASK),
{
    assert((2u8 & 2u8) | 16u8 == 18u8) by (bit_vector);
    assert(18u8 & 2u8 == 2u8) by (bit_vector);
    assert(18u8 & 1u8 != 1u8) by (bit_vector);
    assert(18u8 & 8u8 != 8u8) by (bit_vector);
    assert(18u8 & 4u8 != 4u8) by (bit_vector);
    assert(18u8 & 16u8 == 16u8) by (bit_vector);
    assert(2u8 & 2u8 == 2u8) by (bit_vector);
    assert(2u8 & 1u8 != 1u8) by (bit_vector);
    assert(2u8 & 8u8 != 8u8) by (bit_vector);
    assert(2u8 & 4u8 != 4u8) by (bit_vector);
    assert(4u8 & 2u8 != 2u8) by (bit_vector);
    assert(4u8 & 1u8 != 1u8) by (bit_vector);
    assert(4u8 & 8u8 != 8u8) by (bit_vector);
    assert(4u8 & 4u8 == 4u8) by (bit_vector);
    assert(((t & 2u8) | 16u8) & 2u8 == 2u8 <==> t & 2u8 == 2u8) by (bit_vector);
    assert(((t & 2u8) | 16u8) & 16u8 == 16u8) by (bit_vector);
    assert(((t & 2u8) | 16u8) & 1u8 != 1u8) by (bit_vector);
}

/// Collapsing a tile twice with any samples is collapsing it once: once a
/// tile is decided, later samples do not change it.
pub proof fn lemma_collapse_idempotent(t: u8, s1: TerrainSample, s2: TerrainSample)
    ensures
        collapsed_type(collapsed_type(t, s1), s2) == collapsed_type(t, s1),
{
    lemma_type_flags(t);
}

/// Setting a type on a tile and reading the tile back gives the type, with
/// the tile's atlas index kept; a sparkle keeps the water flag that was
/// there. No other tile changes.
pub proof fn lemma_set_type_read_back(
    m: Map<(int, int), (u8, u16)>,
    v: (int, int),
    ty: u8,
    p: (int, int),
)
    ensures
        p != v ==> m.insert(v, (type_after_set(m[v].0, ty), m[v].1))[p] == m[p],
        m.insert(v, (type_after_set(m[v].0, ty), m[v].1))[v].1 == m[v].1,
        ty != WATER_SPARKLE_TYPE_MASK ==> m.insert(v, (type_after_set(m[v].0, ty), m[v].1))[v].0
            == ty,
        ty == WATER_SPARKLE_TYPE_MASK ==> {
            let t = m.insert(v, (type_after_set(m[v].0, ty), m[v].1))[v].0;
            &&& has_flag(t, WATER_SPARKLE_TYPE_MASK)
            &&& has_flag(t, WATER_TYPE_MASK) == has_flag(m[v].0, WATER_TYPE_MASK)
        },
{
    lemma_type_flags(m[v].0);
}

/// The four corners of `v` are distinct positions.
proof fn lemma_corners_distinct(v: TilePos)
    ensures
        v.key() != v.shifted(0, 1),
        v.key() != v.shifted(1, 1),
        v.key() != v.shifted(1, 0),
        v.shifted(0, 1) != v.shifted(1, 1),
        v.shifted(0, 1) != v.shifted(1, 0),
        v.shifted(1, 1) != v.shifted(1, 0),
{
}

/// Collapsing the corners of `v` a second time, or after collapsing `v`
/// alone, changes nothing, and sees the same water and path corners.
pub proof fn lemma_corners_stable(m: Map<(int, int), (u8, u16)>, v: TilePos, c: CornerSamples)
    ensures
        collapse_corners(collapse_corners(m, v, c), v, c) == collapse_corners(m, v, c),
        collapse_corners(collapse_at(m, v.key(), c.bot_left), v, c) == collapse_corners(m, v, c),
        any_corner_water(collapse_corners(m, v, c), v, c) == any_corner_water(m, v, c),
        grass_corner_mask(collapse_corners(m, v, c), v, c) == grass_corner_mask(m, v, c),
        path_corner_mask(collapse_corners(m, v, c), v, c) == path_corner_mask(m, v, c),
        any_corner_water(collapse_at(m, v.key(), c.bot_left), v, c) == any_corner_water(m, v, c),
        grass_corner_mask(collapse_at(m, v.key(), c.bot_left), v, c) == grass_corner_mask(m, v, c),
        path_corner_mask(collapse_at(m, v.key(), c.bot_left), v, c) == path_corner_mask(m, v, c),
{
    lemma_corners_distinct(v);
    let n = collapse_corners(m, v, c);
    lemma_collapse_idempotent(m[v.key()].0, c.bot_left, c.bot_left);
    lemma_collapse_idempotent(m[v.shifted(0, 1)].0, c.top_left, c.top_left);
    lemma_collapse_idempotent(m[v.shifted(1, 1)].0, c.top_right, c.top_right);
    lemma_collapse_idempotent(m[v.shifted(1, 0)].0, c.bot_right, c.bot_right);
    assert(n[v.key()].0 == collapsed_type(m[v.key()].0, c.bot_left));
    assert(n[v.shifted(0, 1)].0 == collapsed_type(m[v.shifted(0, 1)].0, c.top_left));
    assert(n[v.shifted(1, 1)].0 == collapsed_type(m[v.shifted(1, 1)].0, c.top_right));
    assert(n[v.shifted(1, 0)].0 == collapsed_type(m[v.shifted(1, 0)].0, c.bot_right));
    assert(collapse_corners(n, v, c) =~= n);
    let m1 = collapse_at(m, v.key(), c.bot_left);
    assert(collapse_corners(m1, v, c) =~= n);
}

/// The generated tile map.
pub struct BitMap {
    tile_q1: Quadrant,
    tile_q2: Quadrant,
    tile_q3: Quadrant,
    tile_q4: Quadrant,
    grass_mask: BitMasks,
    path_mask: BitMasks,
    flower_mask: BitMasks,
    edges: Vec<(usize, usize)>,
}

impl BitMap {
    /// The type flags and atlas tile of `(x, y)`.
    pub closed spec fn tile_at(&self, x: int, y: int) -> (u8, u16) {
        let q = quadrant_of(x, y);
        let (i, j) = (abs(x), abs(y));
        if q == 1 {
            cell(self.tile_q1@, i, j)
        } else if q == 2 {
            cell(self.tile_q2@, i, j)
        } else if q == 3 {
            cell(self.tile_q3@, i, j)
        } else {
            cell(self.tile_q4@, i, j)
        }
    }

    /// The map: every position to its type flags and atlas tile.
    pub closed spec fn tiles(&self) -> Map<(int, int), (u8, u16)> {
        Map::new(|p: (int, int)| true, |p: (int, int)| self.tile_at(p.0, p.1))
    }

    /// The edges of the path graph that the map was generated along.
    pub closed spec fn path_edges(&self) -> Seq<(usize, usize)> {
        self.edges@
    }

    /// The quadrant grids are well formed and the three tile tables hold
    /// the grass, path and flower tables.
    pub closed spec fn wf(&self) -> bool {
        &&& quad_wf(self.tile_q1@)
        &&& quad_wf(self.tile_q2@)
        &&& quad_wf(self.tile_q3@)
        &&& quad_wf(self.tile_q4@)
        &&& self.grass_mask.wf()
        &&& self.path_mask.wf()
        &&& self.flower_mask.wf()
        &&& forall|m: u16| #[trigger] self.grass_mask.entry(m) == grass_table(m)
        &&& forall|m: u16| #[trigger] self.path_mask.entry(m) == path_table(m)
        &&& forall|m: u16| #[trigger] self.flower_mask.entry(m) == flower_table(m)
    }

    /// A map in which every tile is still empty, with no path edges.
    pub fn new() -> (m: Self)
        ensures
            m.wf(),
            m@ == Map::new(|p: (int, int)| true, |p: (int, int)| default_cell()),
            m.path_edges() == Seq::<(usize, usize)>::empty(),
    {
        let length = (CHUNK_SIZE * RENDERED_CHUNKS_RADIUS) as usize;
        let m = BitMap {
            tile_q1: new_quadrant(length),
            tile_q2: new_quadrant(length),
            tile_q3: new_quadrant(length),
            tile_q4: new_quadrant(length),
            grass_mask: BitMasks::grass(),
            path_mask: BitMasks::path(),
            flower_mask: BitMasks::flower(),
            edges: Vec::new(),
        };
        assert(m@ =~= Map::new(|p: (int, int)| true, |p: (int, int)| default_cell()));
        m
    }

    /// Which quadrant grid holds `v`.
    fn tileset_quadrant(&self, v: TilePos) -> (q: u16)
        ensures
            q == quadrant_of(v.x as int, v.y as int),
    {
        if v.x >= 0 && v.y >= 0 {
            1
        } else if v.x < 0 && v.y >= 0 {
            2
        } else if v.x < 0 && v.y < 0 {
            3
        } else {
            4
        }
    }

    /// Expands the quadrant grid that holds `v` until it reaches `v`; the
    /// map itself does not change.
    fn fit_tileset_size(&mut self, v: TilePos)
        requires
            old(self).wf(),
            in_map(v.x as int, v.y as int),
        ensures
            final(self).wf(),
            final(self)@ == old(self)@,
            final(self).edges == old(self).edges,
            final(self).reaches(v),
    {
        let i = abs_index(v.x);
        let j = abs_index(v.y);
        let q = self.tileset_quadrant(v);
        if q == 1 {
            fit_quadrant(&mut self.tile_q1, i, j);
        } else if q == 2 {
            fit_quadrant(&mut self.tile_q2, i, j);
        } else if q == 3 {
            fit_quadrant(&mut self.tile_q3, i, j);
        } else {
            fit_quadrant(&mut self.tile_q4, i, j);
        }
        assert(self@ =~= old(self)@);
    }

    /// The quadrant grid of `v` reaches `v`.
    closed spec fn reaches(&self, v: TilePos) -> bool {
        let q = quadrant_of(v.x as int, v.y as int);
        let (i, j) = (abs(v.x as int), abs(v.y as int));
        let g = if q == 1 {
            self.tile_q1@
        } else if q == 2 {
            self.tile_q2@
        } else if q == 3 {
            self.tile_q3@
        } else {
            self.tile_q4@
        };
        i < g.len() && j < g[0]@.len()
    }

    /// The type flags and atlas tile of `v`; the map does not change.
    pub fn get_tileset_raw(&mut self, v: TilePos) -> (t: (u8, u16))
        requires
            old(self).wf(),
            in_map(v.x as int, v.y as int),
        ensures
            final(self).wf(),
            final(self)@ == old(self)@,
            final(self).path_edges() == old(self).path_edges(),
            t == old(self)@[v.key()],
    {
        self.fit_tileset_size(v);
        let i = abs_index(v.x);
        let j = abs_index(v.y);
        let q = self.tileset_quadrant(v);
        if q == 1 {
            read_quadrant(&self.tile_q1, i, j)
        } else if q == 2 {
            read_quadrant(&self.tile_q2, i, j)
        } else if q == 3 {
            read_quadrant(&self.tile_q3, i, j)
        } else {
            read_quadrant(&self.tile_q4, i, j)
        }
    }

    /// Stores `t` as the type flags and atlas tile of `v`.
    fn put_tile(&mut self, v: TilePos, t: (u8, u16))
        requires
            old(self).wf(),
            in_map(v.x as int, v.y as int),
        ensures
            final(self).wf(),
            final(self)@ == old(self)@.insert(v.key(), t),
            final(self).path_edges() == old(self).path_edges(),
    {
        self.fit_tileset_size(v);
        let ghost mid = *self;
        let i = abs_index(v.x);
        let j = abs_index(v.y);
        let q = self.tileset_quadrant(v);
        if q == 1 {
            write_quadrant(&mut self.tile_q1, i, j, t);
        } else if q == 2 {
            write_quadrant(&mut self.tile_q2, i, j, t);
        } else if q == 3 {
            write_quadrant(&mut self.tile_q3, i, j, t);
        } else {
            write_quadrant(&mut self.tile_q4, i, j, t);
        }
        assert forall|p: (int, int)| #[trigger] self.tile_at(p.0, p.1) == if p == v.key() {
            t
        } else {
            mid.tile_at(p.0, p.1)
        } by {
            if quadrant_of(p.0, p.1) == q && abs(p.0) == i && abs(p.1) == j {
                assert(p == v.key());
            }
        }
        assert(self@ =~= old(self)@.insert(v.key(), t));
    }
}

impl BitMap {
    /// The atlas tile of `v`; the map does not change.
    fn get_tileset(&mut self, v: TilePos) -> (tile: u16)
        requires
            old(self).wf(),
            in_map(v.x as int, v.y as int),
        ensures
            final(self).wf(),
            final(self)@ == old(self)@,
            final(self).path_edges() == old(self).path_edges(),
            tile == old(self)@[v.key()].1,
    {
        self.get_tileset_raw(v).1
    }

    /// Sets the type `tile_type` on `v`, keeping its atlas tile. A sparkle
    /// keeps the tile's water flag; any other type replaces its flags.
    pub fn set_type_index(&mut self, v: TilePos, tile_type: u8)
        requires
            old(self).wf(),
            in_map(v.x as int, v.y as int),
        ensures
            final(self).wf(),
            final(self)@ == old(self)@.insert(
                v.key(),
                (type_after_set(old(self)@[v.key()].0, tile_type), old(self)@[v.key()].1),
            ),
            final(self).path_edges() == old(self).path_edges(),
    {
        let t = self.get_tileset_raw(v);
        let tile_type = if tile_type == WATER_SPARKLE_TYPE_MASK {
            (t.0 & WATER_TYPE_MASK) | tile_type
        } else {
            tile_type
        };
        self.put_tile(v, (tile_type, t.1));
    }

    /// Sets the atlas tile of `v`, keeping its type flags.
    fn set_tileset(&mut self, v: TilePos, tile: u16)
        requires
            old(self).wf(),
            in_map(v.x as int, v.y as int),
        ensures
            final(self).wf(),
            final(self)@ == old(self)@.insert(v.key(), (old(self)@[v.key()].0, tile)),
            final(self).path_edges() == old(self).path_edges(),
    {
        let tile_type = self.get_tileset_raw(v).0;
        self.put_tile(v, (tile_type, tile));
    }

    fn get_empty_flag(&mut self, v: TilePos) -> (b: bool)
        requires
            old(self).wf(),
            in_map(v.x as int, v.y as int),
        ensures
            final(self).wf(),
            final(self)@ == old(self)@,
            final(self).path_edges() == old(self).path_edges(),
            b == has_flag(old(self)@[v.key()].0, EMPTY_TYPE_MASK),
    {
        self.get_tileset_raw(v).0 & EMPTY_TYPE_MASK == EMPTY_TYPE_MASK
    }

    fn get_water_flag(&mut self, v: TilePos) -> (b: bool)
        requires
            old(self).wf(),
            in_map(v.x as int, v.y as int),
        ensures
            final(self).wf(),
            final(self)@ == old(self)@,
            final(self).path_edges() == old(self).path_edges(),
            b == has_flag(old(self)@[v.key()].0, WATER_TYPE_MASK),
    {
        self.get_tileset_raw(v).0 & WATER_TYPE_MASK == WATER_TYPE_MASK
    }

    fn get_grass_flag(&mut self, v: TilePos) -> (b: bool)
        requires
            old(self).wf(),
            in_map(v.x as int, v.y as int),
        ensures
            final(self).wf(),
            final(self)@ == old(self)@,
            final(self).path_edges() == old(self).path_edges(),
            b == has_flag(old(self)@[v.key()].0, GRASS_TYPE_MASK),
    {
        self.get_tileset_raw(v).0 & GRASS_TYPE_MASK == GRASS_TYPE_MASK
    }

    /// Whether `v` holds the path flag; the map does not change.
    pub fn get_path_flag(&mut self, v: TilePos) -> (b: bool)
        requires
            old(self).wf(),
            in_map(v.x as int, v.y as int),
        ensures
            final(self).wf(),
            final(self)@ == old(self)@,
            final(self).path_edges() == old(self).path_edges(),
            b == has_flag(old(self)@[v.key()].0, PATH_TYPE_MASK),
    {
        self.get_tileset_raw(v).0 & PATH_TYPE_MASK == PATH_TYPE_MASK
    }

    fn set_water_flag(&mut self, v: TilePos)
        requires
            old(self).wf(),
            in_map(v.x as int, v.y as int),
        ensures
            final(self).wf(),
            final(self)@ == old(self)@.insert(v.key(), (WATER_TYPE_MASK, old(self)@[v.key()].1)),
            final(self).path_edges() == old(self).path_edges(),
    {
        self.set_type_index(v, WATER_TYPE_MASK);
    }

    fn set_grass_flag(&mut self, v: TilePos)
        requires
            old(self).wf(),
            in_map(v.x as int, v.y as int),
        ensures
            final(self).wf(),
            final(self)@ == old(self)@.insert(v.key(), (GRASS_TYPE_MASK, old(self)@[v.key()].1)),
            final(self).path_edges() == old(self).path_edges(),
    {
        self.set_type_index(v, GRASS_TYPE_MASK);
    }

    fn set_water_sparkle_flag(&mut self, v: TilePos)
        requires
            old(self).wf(),
            in_map(v.x as int, v.y as int),
        ensures
            final(self).wf(),
            final(self)@ == old(self)@.insert(
                v.key(),
                (type_after_set(old(self)@[v.key()].0, WATER_SPARKLE_TYPE_MASK), old(self)@[v.key()].1),
            ),
            final(self).path_edges() == old(self).path_edges(),
    {
        self.set_type_index(v, WATER_SPARKLE_TYPE_MASK);
    }

    /// Decides whether `v` is water or grass, if it is still empty, from its
    /// terrain sample; returns whether it is water. Only the type flags
    /// change, not the atlas tile.
    fn collapse_water(&mut self, v: TilePos, s: TerrainSample) -> (is_water: bool)
        requires
            old(self).wf(),
            in_map(v.x as int, v.y as int),
        ensures
            final(self).wf(),
            final(self)@ == collapse_at(old(self)@, v.key(), s),
            final(self).path_edges() == old(self).path_edges(),
            is_water == water_after(old(self)@, v.key(), s),
    {
        let ghost t = old(self)@[v.key()];
        proof {
            lemma_type_flags(t.0);
            lemma_type_flags(WATER_TYPE_MASK);
        }
        if !self.get_empty_flag(v) {
            let w = self.get_water_flag(v);
            assert(self@ =~= collapse_at(old(self)@, v.key(), s));
            return w;
        }
        if s.water {
            self.set_water_flag(v);
            if s.sparkle {
                self.set_water_sparkle_flag(v);
            }
        } else {
            self.set_grass_flag(v);
        }
        assert(self@ =~= collapse_at(old(self)@, v.key(), s));
        s.water
    }
}

enum TileType {
    // At least one corner is water.
    GrassWater,
    // No corner is water: full grass, full path or anything in between.
    PathOrGrass,
}

impl BitMap {
    /// Collapses the four corners of `v` and returns the mask of the ones
    /// that are grass (not water).
    fn neigbhor_bitmask_grass(&mut self, v: TilePos, c: CornerSamples) -> (mask: u16)
        requires
            old(self).wf(),
            in_map(v.x as int, v.y as int),
            in_map(v.x + 1, v.y + 1),
        ensures
            final(self).wf(),
            final(self)@ == collapse_corners(old(self)@, v, c),
            final(self).path_edges() == old(self).path_edges(),
            mask == grass_corner_mask(old(self)@, v, c),
    {
        proof {
            lemma_corners_distinct(v);
        }
        let bl = !self.collapse_water(v, c.bot_left);
        let tl = !self.collapse_water(v.offset(0, 1), c.top_left);
        let tr = !self.collapse_water(v.offset(1, 1), c.top_right);
        let br = !self.collapse_water(v.offset(1, 0), c.bot_right);
        make_corner_mask(bl, tl, tr, br)
    }

    /// The mask of the corners of `v` that hold the path flag.
    fn neigbhor_bitmask_path(&mut self, v: TilePos) -> (mask: u16)
        requires
            old(self).wf(),
            in_map(v.x as int, v.y as int),
            in_map(v.x + 1, v.y + 1),
        ensures
            final(self).wf(),
            final(self)@ == old(self)@,
            final(self).path_edges() == old(self).path_edges(),
            mask == corner_mask(
                has_flag(old(self)@[v.key()].0, PATH_TYPE_MASK),
                has_flag(old(self)@[v.shifted(0, 1)].0, PATH_TYPE_MASK),
                has_flag(old(self)@[v.shifted(1, 1)].0, PATH_TYPE_MASK),
                has_flag(old(self)@[v.shifted(1, 0)].0, PATH_TYPE_MASK),
            ),
    {
        let bl = self.get_path_flag(v);
        let tl = self.get_path_flag(v.offset(0, 1));
        let tr = self.get_path_flag(v.offset(1, 1));
        let br = self.get_path_flag(v.offset(1, 0));
        make_corner_mask(bl, tl, tr, br)
    }

    /// Collapses the four corners of `v`; whether any of them is water.
    fn tile_type(&mut self, v: TilePos, c: CornerSamples) -> (t: TileType)
        requires
            old(self).wf(),
            in_map(v.x as int, v.y as int),
            in_map(v.x + 1, v.y + 1),
        ensures
            final(self).wf(),
            final(self)@ == collapse_corners(old(self)@, v, c),
            final(self).path_edges() == old(self).path_edges(),
            (t is GrassWater) == any_corner_water(old(self)@, v, c),
    {
        proof {
            lemma_corners_distinct(v);
        }
        let a = self.collapse_water(v, c.bot_left);
        let b = self.collapse_water(v.offset(0, 1), c.top_left);
        let d = self.collapse_water(v.offset(1, 1), c.top_right);
        let e = self.collapse_water(v.offset(1, 0), c.bot_right);
        if a || b || d || e {
            TileType::GrassWater
        } else {
            TileType::PathOrGrass
        }
    }

    /// A plain grass tile, or a flower tile where the flower noise says so.
    fn get_flower_tile(&self, flowers: bool) -> (tile: u16)
        requires
            self.wf(),
        ensures
            choices(flower_table(if flowers { 1 } else { 0 })).contains(tile),
    {
        if flowers {
            self.flower_mask.get_index(1)
        } else {
            self.flower_mask.get_index(0)
        }
    }

    /// Chooses the atlas tile of `v` from the grass/water or the path table,
    /// after collapsing its four corners; returns the chosen tile.
    fn collapse_tile(&mut self, v: TilePos, c: CornerSamples) -> (tile: u16)
        requires
            old(self).wf(),
            in_map(v.x as int, v.y as int),
            in_map(v.x + 1, v.y + 1),
        ensures
            final(self).wf(),
            final(self)@ == collapse_corners(old(self)@, v, c).insert(
                v.key(),
                (collapse_corners(old(self)@, v, c)[v.key()].0, tile),
            ),
            final(self).path_edges() == old(self).path_edges(),
            valid_tile_choice(tile_candidates(old(self)@, v, c), c.bot_left.flowers, tile),
    {
        proof {
            lemma_corners_stable(old(self)@, v, c);
            lemma_corners_distinct(v);
        }
        let ghost n = collapse_corners(old(self)@, v, c);
        let tile = match self.tile_type(v, c) {
            TileType::GrassWater => {
                let t = self.neigbhor_bitmask_grass(v, c);
                self.grass_mask.get_index(t)
            },
            TileType::PathOrGrass => {
                let t = self.neigbhor_bitmask_path(v);
                assert(t == path_corner_mask(old(self)@, v, c));
                self.path_mask.get_index(t)
            },
        };
        assert(self@ == n);
        assert(choices(tile_candidates(old(self)@, v, c)).contains(tile));
        if tile == GRASS_FLOWER_SUPER_POSITION {
            let f = self.get_flower_tile(c.bot_left.flowers);
            proof {
                assert(f != GRASS_FLOWER_SUPER_POSITION);
            }
            self.set_tileset(v, f);
            f
        } else {
            self.set_tileset(v, tile);
            tile
        }
    }

    /// The atlas tile of `v`, chosen (once the corners of `v` are collapsed)
    /// at random among the tiles that fit the grass/water or path layout of
    /// its corners. The tile is stored on `v`.
    pub fn get_tile_index(&mut self, v: TilePos, c: CornerSamples) -> (tile: u16)
        requires
            old(self).wf(),
            in_map(v.x as int, v.y as int),
            in_map(v.x + 1, v.y + 1),
        ensures
            final(self).wf(),
            final(self)@ == collapse_corners(old(self)@, v, c).insert(
                v.key(),
                (collapse_corners(old(self)@, v, c)[v.key()].0, tile),
            ),
            final(self).path_edges() == old(self).path_edges(),
            valid_tile_choice(tile_candidates(old(self)@, v, c), c.bot_left.flowers, tile),
    {
        proof {
            lemma_corners_stable(old(self)@, v, c);
        }
        self.collapse_water(v, c.bot_left);
        let t = self.collapse_tile(v, c);
        let r = self.get_tileset(v);
        assert(r == t);
        r
    }

    /// The collider of `v`: from the mask of its grass corners, once its
    /// corners are collapsed.
    pub fn get_tile_collision(&mut self, v: TilePos, c: CornerSamples) -> (collision: TileCollision)
        requires
            old(self).wf(),
            in_map(v.x as int, v.y as int),
            in_map(v.x + 1, v.y + 1),
        ensures
            final(self).wf(),
            final(self)@ == collapse_corners(old(self)@, v, c),
            final(self).path_edges() == old(self).path_edges(),
            collision == spec_collision_for_mask(grass_corner_mask(old(self)@, v, c)),
    {
        let mask = self.neigbhor_bitmask_grass(v, c);
        collision_for_mask(mask)
    }

    /// Whether `v` shows sparkling water: it holds the sparkle flag and,
    /// once its corners are collapsed, none of them is grass. Where `v`
    /// holds no sparkle flag, nothing is collapsed.
    pub fn get_water_sparkle_flag(&mut self, v: TilePos, c: CornerSamples) -> (b: bool)
        requires
            old(self).wf(),
            in_map(v.x as int, v.y as int),
            in_map(v.x + 1, v.y + 1),
        ensures
            final(self).wf(),
            final(self).path_edges() == old(self).path_edges(),
            if has_flag(old(self)@[v.key()].0, WATER_SPARKLE_TYPE_MASK) {
                &&& final(self)@ == collapse_corners(old(self)@, v, c)
                &&& b == (grass_corner_mask(old(self)@, v, c) == 0)
            } else {
                &&& final(self)@ == old(self)@
                &&& !b
            },
    {
        if self.get_tileset_raw(v).0 & WATER_SPARKLE_TYPE_MASK != WATER_SPARKLE_TYPE_MASK {
            return false;
        }
        self.neigbhor_bitmask_grass(v, c) == 0
    }

    /// Whether flora may stand on `v`: `v`, `v + (1, 0)`, `v + (0, 1)` and
    /// `v + (1, 1)` all hold the grass flag.
    pub fn get_flora_flag(&mut self, v: TilePos) -> (b: bool)
        requires
            old(self).wf(),
            in_map(v.x as int, v.y as int),
            in_map(v.x + 1, v.y + 1),
        ensures
            final(self).wf(),
            final(self)@ == old(self)@,
            final(self).path_edges() == old(self).path_edges(),
            b == (has_flag(old(self)@[v.key()].0, GRASS_TYPE_MASK)
                && has_flag(old(self)@[v.shifted(1, 0)].0, GRASS_TYPE_MASK)
                && has_flag(old(self)@[v.shifted(0, 1)].0, GRASS_TYPE_MASK)
                && has_flag(old(self)@[v.shifted(1, 1)].0, GRASS_TYPE_MASK)),
    {
        self.get_grass_flag(v) && self.get_grass_flag(v.offset(1, 0)) && self.get_grass_flag(
            v.offset(0, 1),
        ) && self.get_grass_flag(v.offset(1, 1))
    }

    /// Whether the tile `v`, or one of the tiles `v - (1, 0)`, `v - (0, 1)`,
    /// `v - (1, 1)`, `v + (-1, 1)`, `v + (1, -1)`, holds the water flag.
    pub fn is_position_water(&mut self, v: TilePos) -> (b: bool)
        requires
            old(self).wf(),
            in_map(v.x - 1, v.y - 1),
            in_map(v.x + 1, v.y + 1),
        ensures
            final(self).wf(),
            final(self)@ == old(self)@,
            final(self).path_edges() == old(self).path_edges(),
            b == (has_flag(old(self)@[v.key()].0, WATER_TYPE_MASK)
                || has_flag(old(self)@[v.shifted(-1, 0)].0, WATER_TYPE_MASK)
                || has_flag(old(self)@[v.shifted(0, -1)].0, WATER_TYPE_MASK)
                || has_flag(old(self)@[v.shifted(-1, -1)].0, WATER_TYPE_MASK)
                || has_flag(old(self)@[v.shifted(-1, 1)].0, WATER_TYPE_MASK)
                || has_flag(old(self)@[v.shifted(1, -1)].0, WATER_TYPE_MASK)),
    {
        self.get_water_flag(v) || self.get_water_flag(v.offset(-1, 0)) || self.get_water_flag(
            v.offset(0, -1),
        ) || self.get_water_flag(v.offset(-1, -1)) || self.get_water_flag(v.offset(-1, 1))
            || self.get_water_flag(v.offset(1, -1))
    }
}

/// The other endpoint of each edge that touches vertex 0, in edge order.
pub open spec fn origin_neighbors(edges: Seq<(usize, usize)>) -> Seq<usize>
    decreases edges.len(),
{
    if edges.len() == 0 {
        Seq::empty()
    } else {
        let rest = origin_neighbors(edges.drop_last());
        let (u, v) = edges.last();
        if u == 0 {
            rest.push(v)
        } else if v == 0 {
            rest.push(u)
        } else {
            rest
        }
    }
}

/// The tile at offset `(dx, dy)` from the centre of a path point, with
/// type and tile `t`, once the point is painted: path within `radius`,
/// grass (where it is not path already) within `radius_grass`, both
/// measured by squared distance and only inside the square of half side
/// `radius_grass`.
pub open spec fn painted_path_cell(t: (u8, u16), dx: int, dy: int, radius: int, radius_grass: int) -> (u8, u16) {
    let dis = dx * dx + dy * dy;
    if -radius_grass <= dx <= radius_grass && -radius_grass <= dy <= radius_grass {
        if dis < radius * radius {
            (PATH_TYPE_MASK, t.1)
        } else if dis < radius_grass * radius_grass && !has_flag(t.0, PATH_TYPE_MASK) {
            (GRASS_TYPE_MASK, t.1)
        } else {
            t
        }
    } else {
        t
    }
}

/// The map after painting a path point at `v`.
pub open spec fn paint_path_point(m: Map<(int, int), (u8, u16)>, v: TilePos, radius: int, radius_grass: int) -> Map<
    (int, int),
    (u8, u16),
> {
    Map::new(
        |p: (int, int)| m.dom().contains(p),
        |p: (int, int)| painted_path_cell(m[p], p.0 - v.x, p.1 - v.y, radius, radius_grass),
    )
}

/// Painting a path point never breaks a path: a tile that is path stays
/// path. Every tile closer than `radius` to the point (within the square of
/// half side `radius_grass`) becomes path; a tile that changes becomes path
/// or grass; the atlas tiles stay; and tiles outside the square are left
/// as they were.
pub proof fn lemma_paint_keeps_path(
    m: Map<(int, int), (u8, u16)>,
    v: TilePos,
    radius: int,
    radius_grass: int,
    p: (int, int),
)
    requires
        m.dom().contains(p),
    ensures
        has_flag(m[p].0, PATH_TYPE_MASK) ==> has_flag(
            paint_path_point(m, v, radius, radius_grass)[p].0,
            PATH_TYPE_MASK,
        ),
        ({
            let (dx, dy) = (p.0 - v.x, p.1 - v.y);
            -radius_grass <= dx <= radius_grass && -radius_grass <= dy <= radius_grass && dx * dx + dy
                * dy < radius * radius ==> has_flag(
                paint_path_point(m, v, radius, radius_grass)[p].0,
                PATH_TYPE_MASK,
            )
        }),
        paint_path_point(m, v, radius, radius_grass)[p].1 == m[p].1,
        paint_path_point(m, v, radius, radius_grass)[p] != m[p] ==> paint_path_point(
            m,
            v,
            radius,
            radius_grass,
        )[p].0 == PATH_TYPE_MASK || paint_path_point(m, v, radius, radius_grass)[p].0
            == GRASS_TYPE_MASK,
        !(-radius_grass <= p.0 - v.x <= radius_grass && -radius_grass <= p.1 - v.y <= radius_grass)
            ==> paint_path_point(m, v, radius, radius_grass)[p] == m[p],
{
    assert(8u8 & 8u8 == 8u8) by (bit_vector);
}

/// Radius of the grass disk around the player's starting position.
pub const START_FILL_RADIUS: i32 = 15;

/// The map after filling the starting disk around the origin with grass.
pub open spec fn fill_start(m: Map<(int, int), (u8, u16)>) -> Map<(int, int), (u8, u16)> {
    Map::new(
        |p: (int, int)| m.dom().contains(p),
        |p: (int, int)|
            if -15 <= p.0 <= 15 && -15 <= p.1 <= 15 && p.0 * p.0 + p.1 * p.1 <= 225 {
                (GRASS_TYPE_MASK, m[p].1)
            } else {
                m[p]
            },
    )
}

impl BitMap {
    /// The map's view covers every position.
    pub proof fn lemma_total(&self)
        ensures
            forall|p: (int, int)| #[trigger] self@.dom().contains(p),
    {
    }

    /// Stores the edges of the path graph.
    pub fn set_edges(&mut self, edges: &Vec<(usize, usize)>)
        ensures
            final(self).path_edges() == edges@,
            final(self)@ == old(self)@,
            final(self).wf() == old(self).wf(),
    {
        let mut copy: Vec<(usize, usize)> = Vec::new();
        let mut i: usize = 0;
        while i < edges.len()
            invariant
                i <= edges@.len(),
                copy@ == edges@.take(i as int),
            decreases edges@.len() - i,
        {
            copy.push(edges[i]);
            i = i + 1;
            assert(copy@ =~= edges@.take(i as int));
        }
        assert(copy@ =~= edges@);
        self.edges = copy;
    }

    /// For each path edge that touches vertex 0 (the start), the vertex at
    /// its other end, in edge order.
    pub fn get_origin_edges(&self) -> (ends: Vec<usize>)
        ensures
            ends@ == origin_neighbors(self.path_edges()),
    {
        let mut ends: Vec<usize> = Vec::new();
        let mut i: usize = 0;
        while i < self.edges.len()
            invariant
                i <= self.edges@.len(),
                ends@ == origin_neighbors(self.edges@.take(i as int)),
            decreases self.edges@.len() - i,
        {
            let (u, v) = self.edges[i];
            assert(self.edges@.take(i + 1).drop_last() =~= self.edges@.take(i as int));
            if u == 0 {
                ends.push(v);
            } else if v == 0 {
                ends.push(u);
            }
            i = i + 1;
        }
        assert(self.edges@.take(self.edges@.len() as int) =~= self.edges@);
        ends
    }

    /// Paints the path point `v`: path on the tiles closer than `radius`,
    /// grass on the tiles closer than `radius_grass` that are not path yet
    /// (squared distances, within the square of half side `radius_grass`).
    pub fn fill_path_point(&mut self, v: TilePos, radius: i32, radius_grass: i32)
        requires
            old(self).wf(),
            -46340 <= radius <= 46340,
            -32767 <= radius_grass <= 32767,
            radius_grass >= 0 ==> in_map(v.x - radius_grass, v.y - radius_grass)
                && in_map(v.x + radius_grass, v.y + radius_grass),
        ensures
            final(self).wf(),
            final(self)@ == paint_path_point(old(self)@, v, radius as int, radius_grass as int),
            final(self).path_edges() == old(self).path_edges(),
    {
        let ghost m = old(self)@;
        proof {
            lemma_square_sum_bound(radius as int, 0, 46340);
            lemma_square_sum_bound(radius_grass as int, 0, 32767);
        }
        let sqrt_radius = radius * radius;
        let sqrt_radius_grass = radius_grass * radius_grass;
        let mut x: i32 = -radius_grass;
        while x <= radius_grass
            invariant
                self.wf(),
                self.path_edges() == old(self).path_edges(),
                -32767 <= radius_grass <= 32767,
                -46340 <= radius <= 46340,
                sqrt_radius == radius * radius,
                sqrt_radius_grass == radius_grass * radius_grass,
                radius_grass >= 0 ==> in_map(v.x - radius_grass, v.y - radius_grass)
                    && in_map(v.x + radius_grass, v.y + radius_grass),
                -radius_grass <= x,
                radius_grass >= 0 ==> x <= radius_grass + 1,
                forall|p: (int, int)| #[trigger] self@[p] == if p.0 - v.x < x {
                    painted_path_cell(m[p], p.0 - v.x, p.1 - v.y, radius as int, radius_grass as int)
                } else {
                    m[p]
                },
            decreases radius_grass + 1 - x,
        {
            let mut y: i32 = -radius_grass;
            while y <= radius_grass
                invariant
                    self.wf(),
                    self.path_edges() == old(self).path_edges(),
                    -32767 <= radius_grass <= 32767,
                    -46340 <= radius <= 46340,
                    sqrt_radius == radius * radius,
                    sqrt_radius_grass == radius_grass * radius_grass,
                    in_map(v.x - radius_grass, v.y - radius_grass),
                    in_map(v.x + radius_grass, v.y + radius_grass),
                    -radius_grass <= x <= radius_grass,
                    -radius_grass <= y <= radius_grass + 1,
                    forall|p: (int, int)| #[trigger] self@[p] == if p.0 - v.x < x || (p.0 - v.x == x
                        && p.1 - v.y < y) {
                        painted_path_cell(m[p], p.0 - v.x, p.1 - v.y, radius as int, radius_grass as int)
                    } else {
                        m[p]
                    },
                decreases radius_grass + 1 - y,
            {
                let w = v.offset(x, y);
                proof {
                    lemma_square_sum_bound(x as int, y as int, 32767);
                }
                let dis = x * x + y * y;
                let ghost before = self@;
                if dis < sqrt_radius {
                    self.set_type_index(w, PATH_TYPE_MASK);
                } else if dis < sqrt_radius_grass && !self.get_path_flag(w) {
                    self.set_type_index(w, GRASS_TYPE_MASK);
                }
                assert forall|p: (int, int)| #[trigger] self@[p] == if p.0 - v.x < x || (p.0 - v.x
                    == x && p.1 - v.y < y + 1) {
                    painted_path_cell(m[p], p.0 - v.x, p.1 - v.y, radius as int, radius_grass as int)
                } else {
                    m[p]
                } by {
                    if p != w.key() {
                        assert(self@[p] == before[p]);
                    }
                }
                y = y + 1;
            }
            x = x + 1;
        }
        assert(self@ =~= paint_path_point(m, v, radius as int, radius_grass as int)) by {
            self.lemma_total();
            old(self).lemma_total();
        }
    }

    /// Fills the disk of radius `START_FILL_RADIUS` around the origin with
    /// grass, so the player starts on land.
    pub fn fill_player_starting_position(&mut self)
        requires
            old(self).wf(),
        ensures
            final(self).wf(),
            final(self)@ == fill_start(old(self)@),
            final(self).path_edges() == old(self).path_edges(),
    {
        let ghost m = old(self)@;
        let mut x: i32 = -START_FILL_RADIUS;
        while x <= START_FILL_RADIUS
            invariant
                self.wf(),
                self.path_edges() == old(self).path_edges(),
                -15 <= x <= 16,
                forall|p: (int, int)| #[trigger] self@[p] == if p.0 < x && -15 <= p.0 <= 15 && -15 <= p.1
                    <= 15 && p.0 * p.0 + p.1 * p.1 <= 225 {
                    (GRASS_TYPE_MASK, m[p].1)
                } else {
                    m[p]
                },
            decreases 16 - x,
        {
            let mut y: i32 = -START_FILL_RADIUS;
            while y <= START_FILL_RADIUS
                invariant
                    self.wf(),
                    self.path_edges() == old(self).path_edges(),
                    -15 <= x <= 15,
                    -15 <= y <= 16,
                    forall|p: (int, int)| #[trigger] self@[p] == if (p.0 < x || (p.0 == x && p.1 < y))
                        && -15 <= p.0 <= 15 && -15 <= p.1 <= 15 && p.0 * p.0 + p.1 * p.1 <= 225 {
                        (GRASS_TYPE_MASK, m[p].1)
                    } else {
                        m[p]
                    },
                decreases 16 - y,
            {
                let w = TilePos::new(x, y);
                let ghost before = self@;
                proof {
                    lemma_square_sum_bound(x as int, y as int, 15);
                }
                if x * x + y * y <= START_FILL_RADIUS * START_FILL_RADIUS {
                    self.set_type_index(w, GRASS_TYPE_MASK);
                }
                assert forall|p: (int, int)| #[trigger] self@[p] == if (p.0 < x || (p.0 == x && p.1 < y
                    + 1)) && -15 <= p.0 <= 15 && -15 <= p.1 <= 15 && p.0 * p.0 + p.1 * p.1 <= 225 {
                    (GRASS_TYPE_MASK, m[p].1)
                } else {
                    m[p]
                } by {
                    if p != w.key() {
                        assert(self@[p] == before[p]);
                    }
                }
                y = y + 1;
            }
            x = x + 1;
        }
        assert(self@ =~= fill_start(m)) by {
            self.lemma_total();
            old(self).lemma_total();
        }
    }
}

proof fn lemma_square_sum_bound(x: int, y: int, b: int)
    by (nonlinear_arith)
    requires
        -b <= x <= b,
        -b <= y <= b,
    ensures
        0 <= x * x <= b * b,
        0 <= y * y <= b * b,
        x * x + y * y <= 2 * b * b,
{
}

/// `|x|` as an index into a quadrant grid.
fn abs_index(x: i32) -> (r: usize)
    requires
        -COORD_LIMIT < x < COORD_LIMIT,
    ensures
        r == abs(x as int),
        r < COORD_LIMIT,
{
    if x < 0 {
        (-x) as usize
    } else {
        x as usize
    }
}

impl View for BitMap {
    type V = Map<(int, int), (u8, u16)>;

    open spec fn view(&self) -> Map<(int, int), (u8, u16)> {
        self.tiles()
    }
}

} // verus!
