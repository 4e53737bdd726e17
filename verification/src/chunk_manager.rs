//! Which chunks of the endless map are on screen: those within the render
//! radius of the camera's chunk are spawned, those beyond it despawned.

use vstd::prelude::*;

use crate::tiles::{CHUNK_SIZE, RENDERED_CHUNKS_RADIUS};

verus! {

/// The edge of a tile in world units.
pub const TILE_SIZE: i32 = 16;

/// Rust's `/` on integers: the quotient rounded toward zero.
pub open spec fn div_toward_zero(a: int, b: int) -> int {
    if a >= 0 {
        a / b
    } else {
        -((-a) / b)
    }
}

/// The chunk of a camera at the whole-unit position `(x, y)`: the position
/// divided by a chunk's extent, rounded toward zero, minus one on each
/// negative axis.
pub open spec fn chunk_of(x: int, y: int) -> (int, int) {
    let extent = CHUNK_SIZE * TILE_SIZE;
    (
        div_toward_zero(x, extent) + if x < 0 {
            -1int
        } else {
            0
        },
        div_toward_zero(y, extent) + if y < 0 {
            -1int
        } else {
            0
        },
    )
}

/// The chunk of a camera at the whole-unit position `(x, y)`.
pub fn camera_pos_to_chunk_pos(x: i32, y: i32) -> (chunk: (i32, i32))
    ensures
        chunk.0 == chunk_of(x as int, y as int).0,
        chunk.1 == chunk_of(x as int, y as int).1,
{
    let extent: i32 = CHUNK_SIZE as i32 * TILE_SIZE;
    let ox: i32 = if x < 0 {
        -1
    } else {
        0
    };
    let oy: i32 = if y < 0 {
        -1
    } else {
        0
    };
    let qx: i32 = if x >= 0 {
        x / extent
    } else {
        -((-(x as i64)) / (extent as i64)) as i32
    };
    let qy: i32 = if y >= 0 {
        y / extent
    } else {
        -((-(y as i64)) / (extent as i64)) as i32
    };
    (qx + ox, qy + oy)
}

/// The chunks within the render radius of `camera`, row by row from the
/// lowest, each row from the left.
pub open spec fn visible_chunks(camera: (int, int)) -> Seq<(int, int)> {
    let side = 2 * RENDERED_CHUNKS_RADIUS + 1;
    Seq::new(
        (side * side) as nat,
        |k: int|
            (
                camera.0 - RENDERED_CHUNKS_RADIUS + k % side,
                camera.1 - RENDERED_CHUNKS_RADIUS + k / side,
            ),
    )
}

/// The chunks of `chunks` that are not in `spawned`, in order.
pub open spec fn unspawned(chunks: Seq<(int, int)>, spawned: Set<(int, int)>) -> Seq<(int, int)>
    decreases chunks.len(),
{
    if chunks.len() == 0 {
        Seq::empty()
    } else if spawned.contains(chunks.last()) {
        unspawned(chunks.drop_last(), spawned)
    } else {
        unspawned(chunks.drop_last(), spawned).push(chunks.last())
    }
}

/// Whether `chunk` lies beyond the render radius of `camera` on some axis.
pub open spec fn beyond_radius(chunk: (int, int), camera: (int, int)) -> bool {
    let dx = chunk.0 - camera.0;
    let dy = chunk.1 - camera.1;
    (if dx < 0 {
        -dx
    } else {
        dx
    }) > RENDERED_CHUNKS_RADIUS || (if dy < 0 {
        -dy
    } else {
        dy
    }) > RENDERED_CHUNKS_RADIUS
}

/// No chunk on screen around `camera` lies beyond the render radius: what
/// `spawn_chunks` spawns for a camera, `despawn_chunks` keeps for it.
pub proof fn lemma_visible_within_radius(camera: (int, int), k: int)
    requires
        0 <= k < visible_chunks(camera).len(),
    ensures
        !beyond_radius(visible_chunks(camera)[k], camera),
{
    let side = 2 * RENDERED_CHUNKS_RADIUS + 1;
    assert(side == 7);
    assert(0 <= k % 7 < 7 && 0 <= k / 7 < 7) by (nonlinear_arith)
        requires
            0 <= k < 49,
    ;
}

/// A chunk is despawned for a camera exactly when it is not among the
/// chunks spawned for that camera: what `despawn_chunks` removes is what
/// `spawn_chunks` would not put on screen, on either axis.
pub proof fn lemma_despawned_iff_not_visible(camera: (int, int), chunk: (int, int))
    ensures
        beyond_radius(chunk, camera) <==> !visible_chunks(camera).contains(chunk),
{
    let vis = visible_chunks(camera);
    if vis.contains(chunk) {
        let k = choose|k: int| 0 <= k < vis.len() && vis[k] == chunk;
        lemma_visible_within_radius(camera, k);
    }
    if !beyond_radius(chunk, camera) {
        let a = chunk.0 - camera.0 + 3;
        let b = chunk.1 - camera.1 + 3;
        let k = a + b * 7;
        assert(0 <= k < 49 && k % 7 == a && k / 7 == b) by (nonlinear_arith)
            requires
                0 <= a < 7,
                0 <= b < 7,
                k == a + b * 7,
        ;
        assert(2 * RENDERED_CHUNKS_RADIUS + 1 == 7);
        assert((2 * RENDERED_CHUNKS_RADIUS + 1) * (2 * RENDERED_CHUNKS_RADIUS + 1) == 49) by (nonlinear_arith)
            requires
                RENDERED_CHUNKS_RADIUS == 3,
        ;
        assert(vis.len() == 49);
        assert(vis[k] == (camera.0 - 3 + k % 7, camera.1 - 3 + k / 7));
        assert(vis[k] == chunk);
        assert(vis.contains(chunk));
    }
}

/// A chunk position as mathematical integers.
pub open spec fn as_point(c: (i32, i32)) -> (int, int) {
    (c.0 as int, c.1 as int)
}

/// The chunks that are on screen.
pub struct ChunkManager {
    pub spawned_chunks: Vec<(i32, i32)>,
}

proof fn lemma_push_to_set(s: Seq<(int, int)>, x: (int, int))
    ensures
        s.push(x).to_set() == s.to_set().insert(x),
{
    assert forall|p: (int, int)| s.push(x).to_set().contains(p) implies s.to_set().insert(x).contains(p) by {
        let j = choose|j: int| 0 <= j < s.push(x).len() && s.push(x)[j] == p;
        if j < s.len() {
            assert(s[j] == p);
            assert(s.contains(p));
        }
    }
    assert forall|p: (int, int)| s.to_set().insert(x).contains(p) implies s.push(x).to_set().contains(p) by {
        if p == x {
            assert(s.push(x)[s.len() as int] == p);
            assert(s.push(x).contains(p));
        } else {
            let j = choose|j: int| 0 <= j < s.len() && s[j] == p;
            assert(s.push(x)[j] == p);
            assert(s.push(x).contains(p));
        }
    }
    assert(s.push(x).to_set() =~= s.to_set().insert(x));
}

impl ChunkManager {
    /// The spawned chunks.
    pub open spec fn spawned(&self) -> Set<(int, int)> {
        self.spawned_chunks@.map_values(|c: (i32, i32)| as_point(c)).to_set()
    }

    /// No chunk is listed twice.
    pub open spec fn wf(&self) -> bool {
        forall|i: int, j: int|
            0 <= i < j < self.spawned_chunks@.len() ==> self.spawned_chunks@[i]
                != self.spawned_chunks@[j]
    }

    /// No chunk is on screen.
    pub fn new() -> (m: Self)
        ensures
            m.wf(),
            m.spawned() == Set::<(int, int)>::empty(),
    {
        let m = ChunkManager { spawned_chunks: Vec::new() };
        assert(m.spawned() =~= Set::<(int, int)>::empty());
        m
    }

    /// Whether `c` is spawned.
    fn contains(&self, c: (i32, i32)) -> (b: bool)
        ensures
            b == self.spawned().contains(as_point(c)),
    {
        let ghost pts = self.spawned_chunks@.map_values(|c: (i32, i32)| as_point(c));
        let mut k: usize = 0;
        while k < self.spawned_chunks.len()
            invariant
                k <= self.spawned_chunks@.len(),
                pts == self.spawned_chunks@.map_values(|c: (i32, i32)| as_point(c)),
                forall|j: int| 0 <= j < k ==> pts[j] != as_point(c),
            decreases self.spawned_chunks@.len() - k,
        {
            let d = self.spawned_chunks[k];
            assert(pts[k as int] == as_point(d));
            if d.0 == c.0 && d.1 == c.1 {
                assert(pts.contains(as_point(c)));
                return true;
            }
            k = k + 1;
        }
        proof {
            if pts.to_set().contains(as_point(c)) {
                let j = choose|j: int| 0 <= j < pts.len() && pts[j] == as_point(c);
                assert(pts[j] != as_point(c));
            }
        }
        false
    }

    /// Spawns every chunk within the render radius of the camera's chunk
    /// that is not on screen yet, and gives them back in the order spawned.
    pub fn spawn_chunks(&mut self, camera_chunk: (i32, i32)) -> (new_chunks: Vec<(i32, i32)>)
        requires
            old(self).wf(),
            i32::MIN + RENDERED_CHUNKS_RADIUS <= camera_chunk.0 <= i32::MAX - RENDERED_CHUNKS_RADIUS,
            i32::MIN + RENDERED_CHUNKS_RADIUS <= camera_chunk.1 <= i32::MAX - RENDERED_CHUNKS_RADIUS,
        ensures
            final(self).wf(),
            final(self).spawned() == old(self).spawned() + visible_chunks(
                as_point(camera_chunk),
            ).to_set(),
            new_chunks@.map_values(|c: (i32, i32)| as_point(c)) == unspawned(
                visible_chunks(as_point(camera_chunk)),
                old(self).spawned(),
            ),
    {
        let ghost cam = as_point(camera_chunk);
        let ghost vis = visible_chunks(cam);
        let ghost before = self.spawned();
        let r: i32 = RENDERED_CHUNKS_RADIUS as i32;
        let side: i32 = 2 * r + 1;
        assert(side == 7);
        assert(side * side == 49) by (nonlinear_arith)
            requires
                side == 7,
        ;
        let cells: i32 = 49;
        let mut new_chunks: Vec<(i32, i32)> = Vec::new();
        let mut k: i32 = 0;
        assert(vis.take(0) =~= Seq::<(int, int)>::empty());
        assert(before + vis.take(0).to_set() =~= before);
        while k < cells
            invariant
                0 <= k <= cells,
                cells == side * side,
                cells == 49,
                r == RENDERED_CHUNKS_RADIUS,
                side == 2 * r + 1,
                side == 7,
                cam == as_point(camera_chunk),
                vis == visible_chunks(cam),
                i32::MIN + RENDERED_CHUNKS_RADIUS <= camera_chunk.0 <= i32::MAX - RENDERED_CHUNKS_RADIUS,
                i32::MIN + RENDERED_CHUNKS_RADIUS <= camera_chunk.1 <= i32::MAX - RENDERED_CHUNKS_RADIUS,
                self.wf(),
                self.spawned() == before + vis.take(k as int).to_set(),
                new_chunks@.map_values(|c: (i32, i32)| as_point(c)) == unspawned(
                    vis.take(k as int),
                    before,
                ),
            decreases cells - k,
        {
            assert(0 <= k / side <= 6 && 0 <= k % side <= 6) by (nonlinear_arith)
                requires
                    0 <= k < 49,
                    side == 7,
            ;
            let x = camera_chunk.0 - r + k % side;
            let y = camera_chunk.1 - r + k / side;
            let c = (x, y);
            assert(vis[k as int] == as_point(c));
            assert(vis.take(k + 1) =~= vis.take(k as int).push(as_point(c)));
            assert(vis.take(k + 1).drop_last() =~= vis.take(k as int));
            let ghost pts = self.spawned_chunks@.map_values(|c: (i32, i32)| as_point(c));
            if !self.contains(c) {
                self.spawned_chunks.push(c);
                new_chunks.push(c);
                proof {
                    assert(self.spawned_chunks@.map_values(|c: (i32, i32)| as_point(c)) =~= pts.push(as_point(c)));
                    lemma_push_to_set(pts, as_point(c));
                    lemma_push_to_set(vis.take(k as int), as_point(c));
                    assert(self.spawned() =~= before + vis.take(k + 1).to_set());
                    assert forall|i: int, j: int| 0 <= i < j < self.spawned_chunks@.len() implies self.spawned_chunks@[i] != self.spawned_chunks@[j] by {
                        if j == self.spawned_chunks@.len() - 1 && self.spawned_chunks@[i] == c {
                            assert(pts[i] == as_point(c));
                            assert(pts.to_set().contains(as_point(c)));
                        }
                    }
                    if before.contains(as_point(c)) {
                        assert(self.spawned().contains(as_point(c)));
                    }
                    assert(new_chunks@.map_values(|c: (i32, i32)| as_point(c)) =~= unspawned(vis.take(k + 1), before));
                }
            } else {
                proof {
                    lemma_push_to_set(vis.take(k as int), as_point(c));
                    assert(self.spawned() =~= before + vis.take(k + 1).to_set());
                    if !before.contains(as_point(c)) {
                        assert(vis.take(k as int).to_set().contains(as_point(c)));
                        let j = choose|j: int| 0 <= j < k && vis.take(k as int)[j] == as_point(c);
                        assert(vis[j] == vis[k as int]);
                        assert(false);
                    }
                }
            }
            k = k + 1;
        }
        assert(vis.take(k as int) =~= vis);
        new_chunks
    }

    /// Despawns each of `chunks` (the chunks on screen, in any order) that
    /// lies beyond the render radius of the camera's chunk; tells for each
    /// whether it goes.
    pub fn despawn_chunks(&mut self, camera_chunk: (i32, i32), chunks: &Vec<(i32, i32)>) -> (gone: Vec<bool>)
        requires
            old(self).wf(),
            forall|i: int|
                0 <= i < chunks@.len() ==> i32::MIN < (#[trigger] chunks@[i]).0 - camera_chunk.0
                    <= i32::MAX && i32::MIN < chunks@[i].1 - camera_chunk.1 <= i32::MAX,
        ensures
            final(self).wf(),
            gone@.len() == chunks@.len(),
            forall|i: int|
                0 <= i < chunks@.len() ==> (#[trigger] gone@[i]) == beyond_radius(
                    as_point(chunks@[i]),
                    as_point(camera_chunk),
                ),
            final(self).spawned() == old(self).spawned().filter(
                |c: (int, int)|
                    !(exists|i: int|
                        0 <= i < chunks@.len() && as_point(#[trigger] chunks@[i]) == c
                            && beyond_radius(c, as_point(camera_chunk))),
            ),
    {
        let ghost cam = as_point(camera_chunk);
        let ghost before = self.spawned();
        let r: i32 = RENDERED_CHUNKS_RADIUS as i32;
        let mut gone: Vec<bool> = Vec::new();
        let mut k: usize = 0;
        while k < chunks.len()
            invariant
                k <= chunks@.len(),
                r == RENDERED_CHUNKS_RADIUS,
                cam == as_point(camera_chunk),
                forall|i: int|
                    0 <= i < chunks@.len() ==> i32::MIN < (#[trigger] chunks@[i]).0 - camera_chunk.0
                        <= i32::MAX && i32::MIN < chunks@[i].1 - camera_chunk.1 <= i32::MAX,
                self.wf(),
                gone@.len() == k,
                forall|i: int|
                    0 <= i < k ==> (#[trigger] gone@[i]) == beyond_radius(as_point(chunks@[i]), cam),
                self.spawned() == before.filter(
                    |c: (int, int)|
                        !(exists|i: int|
                            0 <= i < k && as_point(#[trigger] chunks@[i]) == c && beyond_radius(c, cam)),
                ),
            decreases chunks@.len() - k,
        {
            let c = chunks[k];
            let dx = c.0 - camera_chunk.0;
            let dy = c.1 - camera_chunk.1;
            let ax = if dx < 0 {
                -dx
            } else {
                dx
            };
            let ay = if dy < 0 {
                -dy
            } else {
                dy
            };
            let far = ax > r || ay > r;
            assert(far == beyond_radius(as_point(c), cam));
            let ghost pts = self.spawned_chunks@.map_values(|c: (i32, i32)| as_point(c));
            let ghost s0 = self.spawned();
            if far {
                self.remove(c);
            }
            gone.push(far);
            proof {
                let f1 = |p: (int, int)|
                    !(exists|i: int|
                        0 <= i < k + 1 && as_point(#[trigger] chunks@[i]) == p && beyond_radius(p, cam));
                assert forall|p: (int, int)| before.filter(f1).contains(p) == self.spawned().contains(p) by {
                    if p == as_point(c) && far {
                        assert(as_point(chunks@[k as int]) == p);
                    } else if before.contains(p) && (exists|i: int|
                        0 <= i < k + 1 && as_point(#[trigger] chunks@[i]) == p && beyond_radius(p, cam)) {
                        let i = choose|i: int|
                            0 <= i < k + 1 && as_point(#[trigger] chunks@[i]) == p && beyond_radius(p, cam);
                        if i < k {
                            assert(!s0.contains(p));
                        }
                    }
                }
                assert(before.filter(f1) =~= self.spawned());
            }
            k = k + 1;
        }
        gone
    }

    /// Takes `c` off the spawned chunks.
    fn remove(&mut self, c: (i32, i32))
        requires
            old(self).wf(),
        ensures
            final(self).wf(),
            final(self).spawned() == old(self).spawned().remove(as_point(c)),
    {
        let ghost pts = self.spawned_chunks@.map_values(|c: (i32, i32)| as_point(c));
        let mut k: usize = 0;
        while k < self.spawned_chunks.len()
            invariant
                k <= self.spawned_chunks@.len(),
                old(self).wf(),
                self.spawned_chunks == old(self).spawned_chunks,
                pts == self.spawned_chunks@.map_values(|c: (i32, i32)| as_point(c)),
                forall|j: int| 0 <= j < k ==> pts[j] != as_point(c),
            decreases self.spawned_chunks@.len() - k,
        {
            let d = self.spawned_chunks[k];
            assert(pts[k as int] == as_point(d));
            if d.0 == c.0 && d.1 == c.1 {
                self.spawned_chunks.remove(k);
                proof {
                    let now = self.spawned_chunks@.map_values(|c: (i32, i32)| as_point(c));
                    let olds = old(self).spawned_chunks@;
                    assert(now =~= pts.remove(k as int));
                    assert forall|i: int, j: int| 0 <= i < j < self.spawned_chunks@.len() implies self.spawned_chunks@[i] != self.spawned_chunks@[j] by {
                        let oi = if i < k { i } else { i + 1 };
                        let oj = if j < k { j } else { j + 1 };
                        assert(self.spawned_chunks@[i] == olds[oi]);
                        assert(self.spawned_chunks@[j] == olds[oj]);
                        assert(oi < oj);
                        assert(olds[oi] != olds[oj]);
                    }
                    assert forall|p: (int, int)| now.to_set().contains(p) implies pts.to_set().remove(as_point(c)).contains(p) by {
                        let j = choose|j: int| 0 <= j < now.len() && now[j] == p;
                        let oj = if j < k { j } else { j + 1 };
                        assert(pts[oj] == p);
                        assert(pts.contains(p));
                        if p == as_point(c) {
                            assert(pts[oj] == as_point(olds[oj]));
                            assert(olds[oj].0 == c.0 && olds[oj].1 == c.1);
                            assert(olds[oj] == olds[k as int]);
                            if oj < k {
                                assert(olds[oj] != olds[k as int]);
                            } else {
                                assert(olds[k as int] != olds[oj]);
                            }
                        }
                    }
                    assert forall|p: (int, int)| pts.to_set().remove(as_point(c)).contains(p) implies now.to_set().contains(p) by {
                        let j = choose|j: int| 0 <= j < pts.len() && pts[j] == p;
                        assert(j != k);
                        let nj = if j < k { j } else { j - 1 };
                        assert(now[nj] == p);
                        assert(now.contains(p));
                    }
                    assert(now.to_set() =~= pts.to_set().remove(as_point(c)));
                }
                return;
            }
            k = k + 1;
        }
        proof {
            assert(!pts.to_set().contains(as_point(c))) by {
                if pts.to_set().contains(as_point(c)) {
                    let j = choose|j: int| 0 <= j < pts.len() && pts[j] == as_point(c);
                    assert(pts[j] != as_point(c));
                }
            }
            assert(pts.to_set() =~= pts.to_set().remove(as_point(c)));
        }
    }
}

} // verus!
