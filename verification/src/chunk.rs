//! Chunks of voxels and their meshing.
//!
//! A meshing pass visits the 4096 voxels of a chunk in the order of
//! `(x, y, z)`, x slowest, and for each voxel its six faces in the order
//! +X, -X, +Y, -Y, +Z, -Z. At each face it first decides on the quad to
//! draw and then on the quad of the collision surface. A voxel, a direction
//! and one of these two phases make a slot; slots are numbered in the order
//! in which the pass visits them.

use vstd::prelude::*;

use crate::block::{BlockId, Blocks, MeshingData};
use crate::chunk::mesher::{
    collides, draws, lemma_collision_is_one_sided, lemma_same_opacity_draws_nothing, Mesher,
    MesherView,
};

pub mod mesher;

verus! {

/// One cube of world space: 16 x 16 x 16 voxels, indexed `[x][y][z]`.
#[derive(Debug, Copy, Clone, Eq, PartialEq, Hash, Ord, PartialOrd)]
pub struct ChunkData {
    pub blocks: [[[BlockId; 16]; 16]; 16],
}

/// Number of slots of a meshing pass: six faces for each voxel, two phases
/// for each face.
pub open spec fn slot_count() -> nat {
    49152
}

/// Whether a coordinate lies within a chunk.
pub open spec fn inside(c: int) -> bool {
    0 <= c < 16
}

/// The coordinate, within the chunk that holds it, of a position given
/// relative to a chunk: one step outside wraps to the facing layer of the
/// chunk next to it.
pub open spec fn wrap(c: int) -> int {
    if c < 0 {
        15
    } else if c > 15 {
        0
    } else {
        c
    }
}

/// The direction of the neighbour chunk that holds the position
/// `(x, y, z)`, if the position lies one step outside the chunk across
/// exactly one of its faces.
pub open spec fn crossing(x: int, y: int, z: int) -> Option<int> {
    if x == 16 && inside(y) && inside(z) {
        Some(0)
    } else if x == -1 && inside(y) && inside(z) {
        Some(1)
    } else if inside(x) && y == 16 && inside(z) {
        Some(2)
    } else if inside(x) && y == -1 && inside(z) {
        Some(3)
    } else if inside(x) && inside(y) && z == 16 {
        Some(4)
    } else if inside(x) && inside(y) && z == -1 {
        Some(5)
    } else {
        None
    }
}

/// The step along the x axis that direction `d` takes.
pub open spec fn step_x(d: int) -> int {
    if d == 0 {
        1
    } else if d == 1 {
        -1
    } else {
        0
    }
}

/// The step along the y axis that direction `d` takes.
pub open spec fn step_y(d: int) -> int {
    if d == 2 {
        1
    } else if d == 3 {
        -1
    } else {
        0
    }
}

/// The step along the z axis that direction `d` takes.
pub open spec fn step_z(d: int) -> int {
    if d == 4 {
        1
    } else if d == 5 {
        -1
    } else {
        0
    }
}

/// The block that a meshing pass sees at `(x, y, z)`, each coordinate from
/// -1 to 16: the chunk's own block inside the chunk; across a face, the
/// block in the facing layer of the neighbour there; the sentinel where
/// that neighbour is absent, and along the edges and at the corners.
pub open spec fn block_at(
    chunk: ChunkData,
    neighbors: [Option<&ChunkData>; 6],
    x: int,
    y: int,
    z: int,
) -> BlockId {
    if inside(x) && inside(y) && inside(z) {
        chunk.blocks[x][y][z]
    } else {
        match crossing(x, y, z) {
            Some(d) => match neighbors[d] {
                Some(n) => n.blocks[wrap(x)][wrap(y)][wrap(z)],
                None => BlockId(u32::MAX),
            },
            None => BlockId(u32::MAX),
        }
    }
}

/// The meshing data of the voxel at `(x, y, z)` of the chunk.
pub open spec fn occupant(chunk: ChunkData, blocks: Blocks, x: int, y: int, z: int) -> MeshingData {
    blocks.data(chunk.blocks[x][y][z])
}

/// The meshing data of what lies next to the voxel at `(x, y, z)` in
/// direction `d`.
pub open spec fn facing(
    chunk: ChunkData,
    neighbors: [Option<&ChunkData>; 6],
    blocks: Blocks,
    x: int,
    y: int,
    z: int,
    d: int,
) -> MeshingData {
    blocks.data(block_at(chunk, neighbors, x + step_x(d), y + step_y(d), z + step_z(d)))
}

/// Whether the pass draws the face `d` of the voxel at `(x, y, z)`.
pub open spec fn face_drawn(
    chunk: ChunkData,
    neighbors: [Option<&ChunkData>; 6],
    blocks: Blocks,
    x: int,
    y: int,
    z: int,
    d: int,
) -> bool {
    draws(occupant(chunk, blocks, x, y, z), facing(chunk, neighbors, blocks, x, y, z, d))
}

/// Whether the face `d` of the voxel at `(x, y, z)` joins the collision
/// surface.
pub open spec fn face_collides(
    chunk: ChunkData,
    neighbors: [Option<&ChunkData>; 6],
    blocks: Blocks,
    x: int,
    y: int,
    z: int,
    d: int,
) -> bool {
    collides(occupant(chunk, blocks, x, y, z), facing(chunk, neighbors, blocks, x, y, z, d))
}

/// The number of the slot of phase `p` at face `d` of the voxel at
/// `(x, y, z)`. Phase 0 draws, phase 1 collides.
pub open spec fn slot_of(x: int, y: int, z: int, d: int, p: int) -> int {
    (((x * 16 + y) * 16 + z) * 6 + d) * 2 + p
}

/// The phase of a slot.
pub open spec fn slot_phase(slot: int) -> int {
    slot % 2
}

/// The face direction of a slot.
pub open spec fn slot_dir(slot: int) -> int {
    (slot / 2) % 6
}

/// The z coordinate of a slot's voxel.
pub open spec fn slot_z(slot: int) -> int {
    (slot / 12) % 16
}

/// The y coordinate of a slot's voxel.
pub open spec fn slot_y(slot: int) -> int {
    (slot / 192) % 16
}

/// The x coordinate of a slot's voxel.
pub open spec fn slot_x(slot: int) -> int {
    slot / 3072
}

/// A slot's number determines its voxel, its direction and its phase.
pub proof fn lemma_slot_decode(x: int, y: int, z: int, d: int, p: int)
    requires
        inside(x),
        inside(y),
        inside(z),
        0 <= d < 6,
        0 <= p < 2,
    ensures
        0 <= slot_of(x, y, z, d, p) < slot_count(),
        slot_x(slot_of(x, y, z, d, p)) == x,
        slot_y(slot_of(x, y, z, d, p)) == y,
        slot_z(slot_of(x, y, z, d, p)) == z,
        slot_dir(slot_of(x, y, z, d, p)) == d,
        slot_phase(slot_of(x, y, z, d, p)) == p,
{
}

/// What one slot adds to the mesher. In phase 0, if the face is drawn, the
/// quad joins the premesh of the sheet of the voxel's texture for that
/// face; in phase 1, if the face collides, the quad joins the collision
/// surface. `None` if there is no room for the quad.
#[verifier::opaque]
pub open spec fn emit(
    chunk: ChunkData,
    neighbors: [Option<&ChunkData>; 6],
    blocks: Blocks,
    m: MesherView,
    slot: int,
) -> Option<MesherView> {
    let x = slot_x(slot);
    let y = slot_y(slot);
    let z = slot_z(slot);
    let d = slot_dir(slot);
    if slot_phase(slot) == 0 {
        if face_drawn(chunk, neighbors, blocks, x, y, z, d) {
            m.draw(occupant(chunk, blocks, x, y, z).textures[d], x, y, z, d)
        } else {
            Some(m)
        }
    } else {
        if face_collides(chunk, neighbors, blocks, x, y, z, d) {
            m.collide(x, y, z, d)
        } else {
            Some(m)
        }
    }
}

/// The mesher after the first `k` slots of a pass that started from `m`.
/// `None` if one of them found no room.
#[verifier::opaque]
pub open spec fn meshed(
    chunk: ChunkData,
    neighbors: [Option<&ChunkData>; 6],
    blocks: Blocks,
    m: MesherView,
    k: nat,
) -> Option<MesherView>
    decreases k,
{
    if k == 0 {
        Some(m)
    } else {
        match meshed(chunk, neighbors, blocks, m, (k - 1) as nat) {
            Some(p) => emit(chunk, neighbors, blocks, p, k - 1),
            None => None,
        }
    }
}

/// Once a pass has found no room, it stays failed.
pub proof fn lemma_meshed_none_stays(
    chunk: ChunkData,
    neighbors: [Option<&ChunkData>; 6],
    blocks: Blocks,
    m: MesherView,
    j: nat,
    k: nat,
)
    requires
        j <= k,
        meshed(chunk, neighbors, blocks, m, j) is None,
    ensures
        meshed(chunk, neighbors, blocks, m, k) is None,
    decreases k,
{
    reveal(meshed);
    if j < k {
        lemma_meshed_none_stays(chunk, neighbors, blocks, m, j, (k - 1) as nat);
    }
}

/// The two slots of a face: the first draws, the second collides.
pub proof fn lemma_face_slots(
    chunk: ChunkData,
    neighbors: [Option<&ChunkData>; 6],
    blocks: Blocks,
    m: MesherView,
    x: int,
    y: int,
    z: int,
    d: int,
)
    requires
        inside(x),
        inside(y),
        inside(z),
        0 <= d < 6,
    ensures
        meshed(chunk, neighbors, blocks, m, (slot_of(x, y, z, d, 0) + 1) as nat) == (match meshed(
            chunk,
            neighbors,
            blocks,
            m,
            slot_of(x, y, z, d, 0) as nat,
        ) {
            Some(p) => if face_drawn(chunk, neighbors, blocks, x, y, z, d) {
                p.draw(occupant(chunk, blocks, x, y, z).textures[d], x, y, z, d)
            } else {
                Some(p)
            },
            None => None,
        }),
        meshed(chunk, neighbors, blocks, m, (slot_of(x, y, z, d, 0) + 2) as nat) == (match meshed(
            chunk,
            neighbors,
            blocks,
            m,
            (slot_of(x, y, z, d, 0) + 1) as nat,
        ) {
            Some(p) => if face_collides(chunk, neighbors, blocks, x, y, z, d) {
                p.collide(x, y, z, d)
            } else {
                Some(p)
            },
            None => None,
        }),
{
    reveal(meshed);
    reveal(emit);
    lemma_slot_decode(x, y, z, d, 0);
    lemma_slot_decode(x, y, z, d, 1);
}

/// A voxel of opacity class 0 adds nothing in any of its slots.
pub proof fn lemma_transparent_voxel(
    chunk: ChunkData,
    neighbors: [Option<&ChunkData>; 6],
    blocks: Blocks,
    m: MesherView,
    x: int,
    y: int,
    z: int,
    i: nat,
)
    requires
        inside(x),
        inside(y),
        inside(z),
        occupant(chunk, blocks, x, y, z).opacity == 0,
        i <= 12,
    ensures
        meshed(chunk, neighbors, blocks, m, (slot_of(x, y, z, 0, 0) + i) as nat) == meshed(
            chunk,
            neighbors,
            blocks,
            m,
            slot_of(x, y, z, 0, 0) as nat,
        ),
    decreases i,
{
    reveal(meshed);
    reveal(emit);
    if i > 0 {
        lemma_transparent_voxel(chunk, neighbors, blocks, m, x, y, z, (i - 1) as nat);
        let d = (i - 1) / 2;
        let p = (i - 1) % 2;
        lemma_slot_decode(x, y, z, d, p);
        lemma_slot_decode(x, y, z, 0, 0);
        assert(slot_of(x, y, z, 0, 0) + i - 1 == slot_of(x, y, z, d, p));
    }
}

/// Whether the buffer holds, in its cell `[x][y][z]`, what a pass over the
/// chunk sees at `(x - 1, y - 1, z - 1)`.
pub open spec fn is_padded(
    buffer: [[[BlockId; 18]; 18]; 18],
    chunk: ChunkData,
    neighbors: [Option<&ChunkData>; 6],
) -> bool {
    forall|x: int, y: int, z: int|
        0 <= x < 18 && 0 <= y < 18 && 0 <= z < 18 ==> #[trigger] buffer[x][y][z] == block_at(
            chunk,
            neighbors,
            x - 1,
            y - 1,
            z - 1,
        )
}

/// Whether the cell `(x, y, z)` of the working buffer, each coordinate from
/// 0 to 17, lies in the layer that the neighbour in direction `d` fills.
pub open spec fn in_layer(d: int, x: int, y: int, z: int) -> bool {
    crossing(x - 1, y - 1, z - 1) == Some(d)
}

/// The position of a cell within the layer of direction `d`, rows first.
pub open spec fn layer_rank(d: int, x: int, y: int, z: int) -> int {
    if d < 2 {
        (y - 1) * 16 + (z - 1)
    } else if d < 4 {
        (x - 1) * 16 + (z - 1)
    } else {
        (x - 1) * 16 + (y - 1)
    }
}

/// Stores a block in one cell of the working buffer.
fn put(buffer: &mut [[[BlockId; 18]; 18]; 18], x: usize, y: usize, z: usize, v: BlockId)
    requires
        x < 18,
        y < 18,
        z < 18,
    ensures
        forall|i: int, j: int, k: int|
            0 <= i < 18 && 0 <= j < 18 && 0 <= k < 18 ==> #[trigger] final(buffer)[i][j][k] == (
            if i == x && j == y && k == z {
                v
            } else {
                old(buffer)[i][j][k]
            }),
{
    buffer[x][y][z] = v;
}

/// Copies the facing layer of the neighbour in direction `d` into the
/// working buffer.
fn copy_layer(buffer: &mut [[[BlockId; 18]; 18]; 18], neighbor: &ChunkData, d: usize)
    requires
        d < 6,
    ensures
        forall|x: int, y: int, z: int|
            0 <= x < 18 && 0 <= y < 18 && 0 <= z < 18 ==> #[trigger] final(buffer)[x][y][z] == (
            if in_layer(d as int, x, y, z) {
                neighbor.blocks[wrap(x - 1)][wrap(y - 1)][wrap(z - 1)]
            } else {
                old(buffer)[x][y][z]
            }),
{
    let mut a: usize = 0;
    while a < 16
        invariant
            d < 6,
            a <= 16,
            forall|x: int, y: int, z: int|
                0 <= x < 18 && 0 <= y < 18 && 0 <= z < 18 ==> #[trigger] buffer[x][y][z] == (
                if in_layer(d as int, x, y, z) && layer_rank(d as int, x, y, z) < a * 16 {
                    neighbor.blocks[wrap(x - 1)][wrap(y - 1)][wrap(z - 1)]
                } else {
                    old(buffer)[x][y][z]
                }),
        decreases 16 - a,
    {
        let mut b: usize = 0;
        while b < 16
            invariant
                d < 6,
                a < 16,
                b <= 16,
                forall|x: int, y: int, z: int|
                    0 <= x < 18 && 0 <= y < 18 && 0 <= z < 18 ==> #[trigger] buffer[x][y][z] == (
                    if in_layer(d as int, x, y, z) && layer_rank(d as int, x, y, z) < a * 16 + b {
                        neighbor.blocks[wrap(x - 1)][wrap(y - 1)][wrap(z - 1)]
                    } else {
                        old(buffer)[x][y][z]
                    }),
            decreases 16 - b,
        {
            let (cx, cy, cz): (usize, usize, usize) = if d == 0 {
                (17, a + 1, b + 1)
            } else if d == 1 {
                (0, a + 1, b + 1)
            } else if d == 2 {
                (a + 1, 17, b + 1)
            } else if d == 3 {
                (a + 1, 0, b + 1)
            } else if d == 4 {
                (a + 1, b + 1, 17)
            } else {
                (a + 1, b + 1, 0)
            };
            let (sx, sy, sz): (usize, usize, usize) = if d == 0 {
                (0, a, b)
            } else if d == 1 {
                (15, a, b)
            } else if d == 2 {
                (a, 0, b)
            } else if d == 3 {
                (a, 15, b)
            } else if d == 4 {
                (a, b, 0)
            } else {
                (a, b, 15)
            };
            assert(in_layer(d as int, cx as int, cy as int, cz as int));
            assert(layer_rank(d as int, cx as int, cy as int, cz as int) == a * 16 + b);
            assert(sx == wrap(cx - 1) && sy == wrap(cy - 1) && sz == wrap(cz - 1));
            let v = neighbor.blocks[sx][sy][sz];
            let ghost prev = *buffer;
            put(buffer, cx, cy, cz, v);
            assert forall|x: int, y: int, z: int|
                0 <= x < 18 && 0 <= y < 18 && 0 <= z < 18 implies #[trigger] buffer[x][y][z] == (
                if in_layer(d as int, x, y, z) && layer_rank(d as int, x, y, z) < a * 16 + b + 1 {
                    neighbor.blocks[wrap(x - 1)][wrap(y - 1)][wrap(z - 1)]
                } else {
                    old(buffer)[x][y][z]
                }) by {
                assert(prev[x][y][z] == (if in_layer(d as int, x, y, z) && layer_rank(
                    d as int,
                    x,
                    y,
                    z,
                ) < a * 16 + b {
                    neighbor.blocks[wrap(x - 1)][wrap(y - 1)][wrap(z - 1)]
                } else {
                    old(buffer)[x][y][z]
                }));
                if in_layer(d as int, x, y, z) && layer_rank(d as int, x, y, z) == a * 16 + b {
                    assert(x == cx && y == cy && z == cz);
                }
            }
            b += 1;
        }
        a += 1;
    }
}

/// Copies the chunk's own voxels into the middle of the working buffer.
fn copy_interior(buffer: &mut [[[BlockId; 18]; 18]; 18], chunk: &ChunkData)
    ensures
        forall|x: int, y: int, z: int|
            0 <= x < 18 && 0 <= y < 18 && 0 <= z < 18 ==> #[trigger] final(buffer)[x][y][z] == (
            if inside(x - 1) && inside(y - 1) && inside(z - 1) {
                chunk.blocks[x - 1][y - 1][z - 1]
            } else {
                old(buffer)[x][y][z]
            }),
{
    let mut x: usize = 0;
    while x < 16
        invariant
            x <= 16,
            forall|i: int, j: int, k: int|
                0 <= i < 18 && 0 <= j < 18 && 0 <= k < 18 ==> #[trigger] buffer[i][j][k] == (
                if inside(i - 1) && inside(j - 1) && inside(k - 1) && (i - 1) * 256 + (j - 1) * 16
                    + (k - 1) < x * 256 {
                    chunk.blocks[i - 1][j - 1][k - 1]
                } else {
                    old(buffer)[i][j][k]
                }),
        decreases 16 - x,
    {
        let mut y: usize = 0;
        while y < 16
            invariant
                x < 16,
                y <= 16,
                forall|i: int, j: int, k: int|
                    0 <= i < 18 && 0 <= j < 18 && 0 <= k < 18 ==> #[trigger] buffer[i][j][k] == (
                    if inside(i - 1) && inside(j - 1) && inside(k - 1) && (i - 1) * 256 + (j - 1)
                        * 16 + (k - 1) < x * 256 + y * 16 {
                        chunk.blocks[i - 1][j - 1][k - 1]
                    } else {
                        old(buffer)[i][j][k]
                    }),
            decreases 16 - y,
        {
            let mut z: usize = 0;
            while z < 16
                invariant
                    x < 16,
                    y < 16,
                    z <= 16,
                    forall|i: int, j: int, k: int|
                        0 <= i < 18 && 0 <= j < 18 && 0 <= k < 18 ==> #[trigger] buffer[i][j][k]
                            == (if inside(i - 1) && inside(j - 1) && inside(k - 1) && (i - 1) * 256
                            + (j - 1) * 16 + (k - 1) < x * 256 + y * 16 + z {
                            chunk.blocks[i - 1][j - 1][k - 1]
                        } else {
                            old(buffer)[i][j][k]
                        }),
                decreases 16 - z,
            {
                let ghost prev = *buffer;
                put(buffer, x + 1, y + 1, z + 1, chunk.blocks[x][y][z]);
                assert forall|i: int, j: int, k: int|
                    0 <= i < 18 && 0 <= j < 18 && 0 <= k < 18 implies #[trigger] buffer[i][j][k]
                        == (if inside(i - 1) && inside(j - 1) && inside(k - 1) && (i - 1) * 256 + (j
                        - 1) * 16 + (k - 1) < x * 256 + y * 16 + z + 1 {
                        chunk.blocks[i - 1][j - 1][k - 1]
                    } else {
                        old(buffer)[i][j][k]
                    }) by {
                    assert(prev[i][j][k] == (if inside(i - 1) && inside(j - 1) && inside(k - 1)
                        && (i - 1) * 256 + (j - 1) * 16 + (k - 1) < x * 256 + y * 16 + z {
                        chunk.blocks[i - 1][j - 1][k - 1]
                    } else {
                        old(buffer)[i][j][k]
                    }));
                }
                z += 1;
            }
            y += 1;
        }
        x += 1;
    }
}

impl ChunkData {
    /// The working buffer of a meshing pass: the chunk's voxels, surrounded
    /// by one layer from each neighbour that is present.
    pub fn padded(&self, neighbors: [Option<&ChunkData>; 6]) -> (buffer: [[[BlockId; 18]; 18]; 18])
        ensures
            is_padded(buffer, *self, neighbors),
    {
        let mut buffer = [[[BlockId(u32::MAX); 18]; 18]; 18];
        assert(forall|i: int, j: int, k: int|
            0 <= i < 18 && 0 <= j < 18 && 0 <= k < 18 ==> #[trigger] buffer[i][j][k] == BlockId(
                u32::MAX,
            ));
        copy_interior(&mut buffer, self);
        let mut d: usize = 0;
        while d < 6
            invariant
                d <= 6,
                forall|i: int, j: int, k: int|
                    0 <= i < 18 && 0 <= j < 18 && 0 <= k < 18 ==> #[trigger] buffer[i][j][k] == (
                    if crossing(i - 1, j - 1, k - 1) is Some && crossing(i - 1, j - 1, k - 1)->0
                        >= d {
                        BlockId(u32::MAX)
                    } else {
                        block_at(*self, neighbors, i - 1, j - 1, k - 1)
                    }),
            decreases 6 - d,
        {
            match neighbors[d] {
                Some(neighbor) => {
                    copy_layer(&mut buffer, neighbor, d);
                },
                None => {},
            }
            d += 1;
        }
        buffer
    }

    /// Runs the twelve slots of the voxel at `(x, y, z)`.
    fn mesh_voxel(
        &self,
        blocks: &Blocks,
        buffer: &[[[BlockId; 18]; 18]; 18],
        mesher: &mut Mesher,
        x: usize,
        y: usize,
        z: usize,
        Ghost(neighbors): Ghost<[Option<&ChunkData>; 6]>,
        Ghost(start): Ghost<MesherView>,
    ) -> (r: Result<(), ()>)
        requires
            x < 16,
            y < 16,
            z < 16,
            is_padded(*buffer, *self, neighbors),
            meshed(*self, neighbors, *blocks, start, slot_of(x as int, y as int, z as int, 0, 0) as nat)
                == Some(old(mesher)@),
        ensures
            r is Ok ==> meshed(
                *self,
                neighbors,
                *blocks,
                start,
                (slot_of(x as int, y as int, z as int, 0, 0) + 12) as nat,
            ) == Some(final(mesher)@),
            r is Err ==> exists|k: nat|
                k < slot_count() && #[trigger] meshed(*self, neighbors, *blocks, start, k) == Some(
                    final(mesher)@,
                ) && meshed(*self, neighbors, *blocks, start, (k + 1) as nat) is None,
    {
        let me = blocks.get_meshing_data(buffer[x + 1][y + 1][z + 1]);
        assert(me == occupant(*self, *blocks, x as int, y as int, z as int));
        if me.opacity == 0 {
            proof {
                lemma_transparent_voxel(
                    *self,
                    neighbors,
                    *blocks,
                    start,
                    x as int,
                    y as int,
                    z as int,
                    12,
                );
            }
            return Ok(());
        }
        let mut d: usize = 0;
        while d < 6
            invariant
                x < 16,
                y < 16,
                z < 16,
                d <= 6,
                me == occupant(*self, *blocks, x as int, y as int, z as int),
                me.opacity != 0,
                is_padded(*buffer, *self, neighbors),
                meshed(
                    *self,
                    neighbors,
                    *blocks,
                    start,
                    slot_of(x as int, y as int, z as int, d as int, 0) as nat,
                ) == Some(mesher@),
            decreases 6 - d,
        {
            let ghost slot = slot_of(x as int, y as int, z as int, d as int, 0);
            let near = if d == 0 {
                buffer[x + 2][y + 1][z + 1]
            } else if d == 1 {
                buffer[x][y + 1][z + 1]
            } else if d == 2 {
                buffer[x + 1][y + 2][z + 1]
            } else if d == 3 {
                buffer[x + 1][y][z + 1]
            } else if d == 4 {
                buffer[x + 1][y + 1][z + 2]
            } else {
                buffer[x + 1][y + 1][z]
            };
            let other = blocks.get_meshing_data(near);
            proof {
                lemma_slot_decode(x as int, y as int, z as int, d as int, 0);
                lemma_face_slots(
                    *self,
                    neighbors,
                    *blocks,
                    start,
                    x as int,
                    y as int,
                    z as int,
                    d as int,
                );
                assert(other == facing(
                    *self,
                    neighbors,
                    *blocks,
                    x as int,
                    y as int,
                    z as int,
                    d as int,
                ));
            }
            if me.opacity != other.opacity {
                if mesher.draw(me.textures[d], x, y, z, d).is_err() {
                    assert(meshed(*self, neighbors, *blocks, start, slot as nat) == Some(mesher@));
                    assert(meshed(*self, neighbors, *blocks, start, (slot + 1) as nat) is None);
                    return Err(());
                }
            }
            assert(meshed(*self, neighbors, *blocks, start, (slot + 1) as nat) == Some(mesher@));
            if me.solid && !other.solid {
                if mesher.collide(x, y, z, d).is_err() {
                    assert(meshed(*self, neighbors, *blocks, start, (slot + 1) as nat) == Some(
                        mesher@,
                    ));
                    assert(meshed(*self, neighbors, *blocks, start, (slot + 2) as nat) is None);
                    return Err(());
                }
            }
            assert(meshed(*self, neighbors, *blocks, start, (slot + 2) as nat) == Some(mesher@));
            d += 1;
        }
        Ok(())
    }

    /// Meshes the chunk into `mesher`, which keeps what it held: every
    /// slot of the pass adds its quad behind those already there. Fails
    /// at the first slot that finds no room for its quad; the mesher then
    /// holds what the slots before that one have added.
    pub fn compute_mesh(
        &self,
        blocks: &Blocks,
        neighbors: [Option<&ChunkData>; 6],
        mesher: &mut Mesher,
    ) -> (r: Result<(), ()>)
        ensures
            r is Ok <==> meshed(*self, neighbors, *blocks, old(mesher)@, slot_count()) is Some,
            r is Ok ==> meshed(*self, neighbors, *blocks, old(mesher)@, slot_count()) == Some(
                final(mesher)@,
            ),
            r is Err ==> exists|k: nat|
                k < slot_count() && #[trigger] meshed(*self, neighbors, *blocks, old(mesher)@, k)
                    == Some(final(mesher)@) && meshed(
                    *self,
                    neighbors,
                    *blocks,
                    old(mesher)@,
                    (k + 1) as nat,
                ) is None,
    {
        let buffer = self.padded(neighbors);
        let ghost start = mesher@;
        assert(meshed(*self, neighbors, *blocks, start, 0) == Some(start)) by {
            reveal(meshed);
        }
        let mut x: usize = 0;
        while x < 16
            invariant
                x <= 16,
                is_padded(buffer, *self, neighbors),
                start == old(mesher)@,
                meshed(*self, neighbors, *blocks, start, slot_of(x as int, 0, 0, 0, 0) as nat)
                    == Some(mesher@),
            decreases 16 - x,
        {
            let mut y: usize = 0;
            while y < 16
                invariant
                    x < 16,
                    y <= 16,
                    is_padded(buffer, *self, neighbors),
                start == old(mesher)@,
                    meshed(
                        *self,
                        neighbors,
                        *blocks,
                        start,
                        slot_of(x as int, y as int, 0, 0, 0) as nat,
                    ) == Some(mesher@),
                decreases 16 - y,
            {
                let mut z: usize = 0;
                while z < 16
                    invariant
                        x < 16,
                        y < 16,
                        z <= 16,
                        is_padded(buffer, *self, neighbors),
                start == old(mesher)@,
                        meshed(
                            *self,
                            neighbors,
                            *blocks,
                            start,
                            slot_of(x as int, y as int, z as int, 0, 0) as nat,
                        ) == Some(mesher@),
                    decreases 16 - z,
                {
                    let r = self.mesh_voxel(
                        blocks,
                        &buffer,
                        mesher,
                        x,
                        y,
                        z,
                        Ghost(neighbors),
                        Ghost(start),
                    );
                    if r.is_err() {
                        proof {
                            let k = choose|k: nat|
                                k < slot_count() && #[trigger] meshed(
                                    *self,
                                    neighbors,
                                    *blocks,
                                    start,
                                    k,
                                ) == Some(mesher@) && meshed(
                                    *self,
                                    neighbors,
                                    *blocks,
                                    start,
                                    (k + 1) as nat,
                                ) is None;
                            lemma_meshed_none_stays(
                                *self,
                                neighbors,
                                *blocks,
                                start,
                                (k + 1) as nat,
                                slot_count(),
                            );
                        }
                        return Err(());
                    }
                    z += 1;
                }
                y += 1;
            }
            x += 1;
        }
        Ok(())
    }
}

/// The direction that faces `d`.
pub open spec fn opposite(d: int) -> int {
    if d % 2 == 0 {
        d + 1
    } else {
        d - 1
    }
}

/// Whether no neighbour is present.
pub open spec fn alone(neighbors: [Option<&ChunkData>; 6]) -> bool {
    forall|d: int| 0 <= d < 6 ==> (#[trigger] neighbors[d]) is None
}

/// Whether every voxel of the chunk holds the block `b`.
pub open spec fn uniform(chunk: ChunkData, b: BlockId) -> bool {
    forall|x: int, y: int, z: int|
        inside(x) && inside(y) && inside(z) ==> #[trigger] chunk.blocks[x][y][z] == b
}

/// In a chunk without neighbours that one drawn block type fills, a face
/// is drawn exactly where it lies on the chunk's boundary: no face
/// between two voxels, every face that looks out of the chunk. If the
/// block type is solid, the same faces make the collision surface.
pub proof fn lemma_uniform_chunk_faces(
    chunk: ChunkData,
    neighbors: [Option<&ChunkData>; 6],
    blocks: Blocks,
    b: BlockId,
    x: int,
    y: int,
    z: int,
    d: int,
)
    requires
        blocks.wf(),
        uniform(chunk, b),
        alone(neighbors),
        blocks.data(b).opacity != 0,
        inside(x),
        inside(y),
        inside(z),
        0 <= d < 6,
    ensures
        face_drawn(chunk, neighbors, blocks, x, y, z, d) <==> !(inside(x + step_x(d)) && inside(
            y + step_y(d),
        ) && inside(z + step_z(d))),
        face_collides(chunk, neighbors, blocks, x, y, z, d) <==> blocks.data(b).solid && !(inside(
            x + step_x(d),
        ) && inside(y + step_y(d)) && inside(z + step_z(d))),
{
    blocks.lemma_unregistered(BlockId(u32::MAX));
    let nx = x + step_x(d);
    let ny = y + step_y(d);
    let nz = z + step_z(d);
    assert(chunk.blocks[x][y][z] == b);
    if inside(nx) && inside(ny) && inside(nz) {
        assert(chunk.blocks[nx][ny][nz] == b);
    } else {
        assert(crossing(nx, ny, nz) == Some(d));
        assert(neighbors[d] is None);
        assert(block_at(chunk, neighbors, nx, ny, nz) == BlockId(u32::MAX));
    }
}

/// Between two voxels of the chunk whose block types have the same
/// opacity class no face is drawn, from either side: the two slots that
/// draw at the boundary leave every mesher as it is.
pub proof fn lemma_same_opacity_hides_boundary(
    chunk: ChunkData,
    neighbors: [Option<&ChunkData>; 6],
    blocks: Blocks,
    m: MesherView,
    x: int,
    y: int,
    z: int,
    d: int,
)
    requires
        inside(x),
        inside(y),
        inside(z),
        0 <= d < 6,
        inside(x + step_x(d)),
        inside(y + step_y(d)),
        inside(z + step_z(d)),
        occupant(chunk, blocks, x, y, z).opacity == occupant(
            chunk,
            blocks,
            x + step_x(d),
            y + step_y(d),
            z + step_z(d),
        ).opacity,
    ensures
        !face_drawn(chunk, neighbors, blocks, x, y, z, d),
        !face_drawn(
            chunk,
            neighbors,
            blocks,
            x + step_x(d),
            y + step_y(d),
            z + step_z(d),
            opposite(d),
        ),
        emit(chunk, neighbors, blocks, m, slot_of(x, y, z, d, 0)) == Some(m),
        emit(
            chunk,
            neighbors,
            blocks,
            m,
            slot_of(x + step_x(d), y + step_y(d), z + step_z(d), opposite(d), 0),
        ) == Some(m),
{
    let a = occupant(chunk, blocks, x, y, z);
    let b = occupant(chunk, blocks, x + step_x(d), y + step_y(d), z + step_z(d));
    lemma_same_opacity_draws_nothing(a, b);
    reveal(emit);
    lemma_slot_decode(x, y, z, d, 0);
    lemma_slot_decode(x + step_x(d), y + step_y(d), z + step_z(d), opposite(d), 0);
}

/// Where a solid, drawn voxel of the chunk lies next to a voxel that is
/// not solid, the boundary between them joins the collision surface once:
/// as the solid voxel's face towards the other, and not as the other's
/// face towards the solid voxel. The slot that collides at the solid
/// voxel's face adds that face's quad; the slot at the other's face
/// leaves every mesher as it is.
pub proof fn lemma_collision_boundary(
    chunk: ChunkData,
    neighbors: [Option<&ChunkData>; 6],
    blocks: Blocks,
    m: MesherView,
    x: int,
    y: int,
    z: int,
    d: int,
)
    requires
        inside(x),
        inside(y),
        inside(z),
        0 <= d < 6,
        inside(x + step_x(d)),
        inside(y + step_y(d)),
        inside(z + step_z(d)),
        occupant(chunk, blocks, x, y, z).solid,
        occupant(chunk, blocks, x, y, z).opacity != 0,
        !occupant(chunk, blocks, x + step_x(d), y + step_y(d), z + step_z(d)).solid,
    ensures
        face_collides(chunk, neighbors, blocks, x, y, z, d),
        !face_collides(
            chunk,
            neighbors,
            blocks,
            x + step_x(d),
            y + step_y(d),
            z + step_z(d),
            opposite(d),
        ),
        emit(chunk, neighbors, blocks, m, slot_of(x, y, z, d, 1)) == m.collide(x, y, z, d),
        emit(
            chunk,
            neighbors,
            blocks,
            m,
            slot_of(x + step_x(d), y + step_y(d), z + step_z(d), opposite(d), 1),
        ) == Some(m),
{
    let a = occupant(chunk, blocks, x, y, z);
    let b = occupant(chunk, blocks, x + step_x(d), y + step_y(d), z + step_z(d));
    lemma_collision_is_one_sided(a, b);
    reveal(emit);
    lemma_slot_decode(x, y, z, d, 1);
    lemma_slot_decode(x + step_x(d), y + step_y(d), z + step_z(d), opposite(d), 1);
}

/// The number of faces drawn into the premesh of `sheet` by the slots
/// below `k`.
pub open spec fn drawn_before(
    chunk: ChunkData,
    neighbors: [Option<&ChunkData>; 6],
    blocks: Blocks,
    sheet: u16,
    k: nat,
) -> nat
    decreases k,
{
    if k == 0 {
        0
    } else {
        let slot = k - 1;
        let x = slot_x(slot);
        let y = slot_y(slot);
        let z = slot_z(slot);
        let d = slot_dir(slot);
        drawn_before(chunk, neighbors, blocks, sheet, (k - 1) as nat) + (if slot_phase(slot) == 0
            && face_drawn(chunk, neighbors, blocks, x, y, z, d) && occupant(
            chunk,
            blocks,
            x,
            y,
            z,
        ).textures[d].spec_sheet() == sheet {
            1nat
        } else {
            0nat
        })
    }
}

/// The number of faces that the slots below `k` add to the collision
/// surface.
pub open spec fn collided_before(
    chunk: ChunkData,
    neighbors: [Option<&ChunkData>; 6],
    blocks: Blocks,
    k: nat,
) -> nat
    decreases k,
{
    if k == 0 {
        0
    } else {
        let slot = k - 1;
        collided_before(chunk, neighbors, blocks, (k - 1) as nat) + (if slot_phase(slot) == 1
            && face_collides(
            chunk,
            neighbors,
            blocks,
            slot_x(slot),
            slot_y(slot),
            slot_z(slot),
            slot_dir(slot),
        ) {
            1nat
        } else {
            0nat
        })
    }
}

/// A pass adds one quad for each face: four vertices, four normals, four
/// texture coordinates and six indices to the premesh of the sheet of
/// each face that is drawn, and four vertices and two triangles to the
/// collision surface for each face that collides.
pub proof fn lemma_one_quad_per_face(
    chunk: ChunkData,
    neighbors: [Option<&ChunkData>; 6],
    blocks: Blocks,
    m: MesherView,
    k: nat,
    sheet: u16,
)
    requires
        meshed(chunk, neighbors, blocks, m, k) is Some,
    ensures
        ({
            let out = meshed(chunk, neighbors, blocks, m, k).unwrap();
            let drawn = drawn_before(chunk, neighbors, blocks, sheet, k);
            let collided = collided_before(chunk, neighbors, blocks, k);
            &&& out.sheet_mesh(sheet).vertices.len() == m.sheet_mesh(sheet).vertices.len() + 4
                * drawn
            &&& out.sheet_mesh(sheet).normals.len() == m.sheet_mesh(sheet).normals.len() + 4
                * drawn
            &&& out.sheet_mesh(sheet).uv.len() == m.sheet_mesh(sheet).uv.len() + 4 * drawn
            &&& out.sheet_mesh(sheet).triangles.len() == m.sheet_mesh(sheet).triangles.len() + 6
                * drawn
            &&& out.physics_vertices.len() == m.physics_vertices.len() + 4 * collided
            &&& out.physics_triangles.len() == m.physics_triangles.len() + 2 * collided
        }),
    decreases k,
{
    reveal(meshed);
    reveal(emit);
    if k > 0 {
        let j = (k - 1) as nat;
        lemma_one_quad_per_face(chunk, neighbors, blocks, m, j, sheet);
    }
}

} // verus!
