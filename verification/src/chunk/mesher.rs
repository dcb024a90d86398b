//! The buffers that a meshing pass fills, and the quad that each face
//! direction contributes to them.
//!
//! A face direction is a number below 6, in the order +X, -X, +Y, -Y, +Z,
//! -Z. Positions are in half-voxel units relative to the chunk's centre, so
//! the voxel at `(x, y, z)` has its centre at `(2x - 16, 2y - 16, 2z - 16)`
//! and its corners one unit away from it along every axis.

use std::collections::hash_map::Entry;

use fxhash::FxHashMap;
use vstd::prelude::*;
use vstd::std_specs::hash::EntrySpecFns;

use crate::block::texture::{texel, BlockTextureId, SheetCoords};
use crate::block::MeshingData;

verus! {

#[verifier::external_type_specification]
#[verifier::external_body]
#[verifier::reject_recursive_types(H)]
pub struct ExBuildHasherDefault<H>(std::hash::BuildHasherDefault<H>);

#[verifier::external_type_specification]
#[verifier::external_body]
pub struct ExFxHasher(fxhash::FxHasher);

/// A point or a vector from its three coordinates.
pub open spec fn point(x: int, y: int, z: int) -> [i32; 3] {
    [x as i32, y as i32, z as i32]
}

/// A triangle from the indices of its three vertices.
pub open spec fn triangle(a: int, b: int, c: int) -> [u32; 3] {
    [a as u32, b as u32, c as u32]
}

/// The unit vector of a face direction.
pub open spec fn quad_normal(d: int) -> [i32; 3] {
    if d == 0 {
        point(1, 0, 0)
    } else if d == 1 {
        point(-1, 0, 0)
    } else if d == 2 {
        point(0, 1, 0)
    } else if d == 3 {
        point(0, -1, 0)
    } else if d == 4 {
        point(0, 0, 1)
    } else {
        point(0, 0, -1)
    }
}

/// The four corners of the unit cube's face in direction `d`, relative to
/// the cube's centre, in the order in which the quad lists them.
pub open spec fn quad_corners(d: int) -> Seq<[i32; 3]> {
    if d == 0 {
        seq![point(1, -1, -1), point(1, -1, 1), point(1, 1, 1), point(1, 1, -1)]
    } else if d == 1 {
        seq![point(-1, -1, 1), point(-1, -1, -1), point(-1, 1, 1), point(-1, 1, -1)]
    } else if d == 2 {
        seq![point(-1, 1, -1), point(1, 1, -1), point(1, 1, 1), point(-1, 1, 1)]
    } else if d == 3 {
        seq![point(1, -1, 1), point(1, -1, -1), point(-1, -1, 1), point(-1, -1, -1)]
    } else if d == 4 {
        seq![point(-1, -1, 1), point(-1, 1, 1), point(1, 1, 1), point(1, -1, 1)]
    } else {
        seq![point(-1, -1, -1), point(-1, 1, -1), point(1, 1, -1), point(1, -1, -1)]
    }
}

/// The six vertex numbers, relative to the quad's first vertex, of the two
/// triangles that make up the quad facing `d`.
pub open spec fn quad_winding(d: int) -> Seq<int> {
    if d == 0 || d == 2 || d == 4 {
        seq![0, 3, 1, 1, 3, 2]
    } else if d == 1 || d == 3 {
        seq![0, 2, 1, 2, 3, 1]
    } else {
        seq![0, 1, 3, 1, 2, 3]
    }
}

/// The four vertices of the quad on face `d` of the voxel at `(x, y, z)`.
pub open spec fn quad_vertices(x: int, y: int, z: int, d: int) -> Seq<[i32; 3]> {
    Seq::new(
        4,
        |k: int|
            point(
                2 * x - 16 + quad_corners(d)[k][0],
                2 * y - 16 + quad_corners(d)[k][1],
                2 * z - 16 + quad_corners(d)[k][2],
            ),
    )
}

/// The quad's normal, once for each of its vertices.
pub open spec fn quad_normals(d: int) -> Seq<[i32; 3]> {
    Seq::new(4, |k: int| quad_normal(d))
}

/// The texture coordinates of the quad's four vertices: the corners of the
/// tile, in the order that matches the vertices of face `d`.
pub open spec fn quad_uv(c: SheetCoords, d: int) -> Seq<[u32; 2]> {
    let tl = texel(c.left(), c.top());
    let tr = texel(c.right(), c.top());
    let bl = texel(c.left(), c.bottom());
    let br = texel(c.right(), c.bottom());
    if d == 0 {
        seq![bl, br, tr, tl]
    } else if d == 1 {
        seq![br, bl, tr, tl]
    } else if d == 2 {
        seq![tl, tr, br, bl]
    } else if d == 3 {
        seq![bl, tl, br, tr]
    } else if d == 4 {
        seq![bl, tl, tr, br]
    } else {
        seq![tl, bl, br, tr]
    }
}

/// The six indices of a quad whose first vertex has the number `base`.
pub open spec fn quad_indices(base: int, d: int) -> Seq<u16> {
    Seq::new(6, |i: int| (base + quad_winding(d)[i]) as u16)
}

/// The two triangles of a quad whose first vertex has the number `base`.
pub open spec fn quad_triangles(base: int, d: int) -> Seq<[u32; 3]> {
    let w = quad_winding(d);
    seq![
        triangle(base + w[0], base + w[1], base + w[2]),
        triangle(base + w[3], base + w[4], base + w[5]),
    ]
}

/// Whether a block draws the face that it turns towards another: its
/// opacity class is not 0, and the other's class differs from it.
pub open spec fn draws(me: MeshingData, other: MeshingData) -> bool {
    me.opacity != 0 && me.opacity != other.opacity
}

/// Whether the face that a block turns towards another joins the collision
/// surface: the block is drawn at all, it is solid, and the other is not.
pub open spec fn collides(me: MeshingData, other: MeshingData) -> bool {
    me.opacity != 0 && me.solid && !other.solid
}

/// Two blocks of the same opacity class draw no face between them,
/// whatever their solidity.
pub proof fn lemma_same_opacity_draws_nothing(a: MeshingData, b: MeshingData)
    requires
        a.opacity == b.opacity,
    ensures
        !draws(a, b),
        !draws(b, a),
{
}

/// Where a solid block that is drawn meets a block that is not solid, the
/// boundary gets its collision quad from the solid block and none from
/// the other.
pub proof fn lemma_collision_is_one_sided(a: MeshingData, b: MeshingData)
    requires
        a.solid,
        !b.solid,
        a.opacity != 0,
    ensures
        collides(a, b),
        !collides(b, a),
{
}

/// No boundary gets a collision quad from both of its sides.
pub proof fn lemma_collision_never_doubles(a: MeshingData, b: MeshingData)
    ensures
        !(collides(a, b) && collides(b, a)),
{
}

/// The cross product of the edges that lead from `a` to `b` and from `a`
/// to `c`.
pub open spec fn edge_cross(a: [i32; 3], b: [i32; 3], c: [i32; 3]) -> (int, int, int) {
    let u = (b[0] - a[0], b[1] - a[1], b[2] - a[2]);
    let v = (c[0] - a[0], c[1] - a[1], c[2] - a[2]);
    (u.1 * v.2 - u.2 * v.1, u.2 * v.0 - u.0 * v.2, u.0 * v.1 - u.1 * v.0)
}

/// The cross product of two vectors whose coordinates are known is the
/// cross product of those coordinates.
proof fn lemma_cross(
    u0: int,
    u1: int,
    u2: int,
    e0: int,
    e1: int,
    e2: int,
    a0: int,
    a1: int,
    a2: int,
    b0: int,
    b1: int,
    b2: int,
)
    by (nonlinear_arith)
    requires
        u0 == a0 && u1 == a1 && u2 == a2,
        e0 == b0 && e1 == b1 && e2 == b2,
    ensures
        u1 * e2 - u2 * e1 == a1 * b2 - a2 * b1,
        u2 * e0 - u0 * e2 == a2 * b0 - a0 * b2,
        u0 * e1 - u1 * e0 == a0 * b1 - a1 * b0,
{
}

/// Both triangles of a quad wind around the quad's normal: the cross
/// product of a triangle's edges points along the direction that the
/// quad faces, away from the voxel.
pub proof fn lemma_winding_follows_normal(x: int, y: int, z: int, d: int, t: int)
    requires
        0 <= x < 16,
        0 <= y < 16,
        0 <= z < 16,
        0 <= d < 6,
        0 <= t < 2,
    ensures
        ({
            let v = quad_vertices(x, y, z, d);
            let w = quad_winding(d);
            let n = quad_normal(d);
            edge_cross(v[w[3 * t]], v[w[3 * t + 1]], v[w[3 * t + 2]]) == (
                4 * n[0],
                4 * n[1],
                4 * n[2],
            )
        }),
{
    let v = quad_vertices(x, y, z, d);
    let c = quad_corners(d);
    let w = quad_winding(d);
    let i0 = w[3 * t];
    let i1 = w[3 * t + 1];
    let i2 = w[3 * t + 2];
    assert(v[0] == point(2 * x - 16 + c[0][0], 2 * y - 16 + c[0][1], 2 * z - 16 + c[0][2]));
    assert(v[1] == point(2 * x - 16 + c[1][0], 2 * y - 16 + c[1][1], 2 * z - 16 + c[1][2]));
    assert(v[2] == point(2 * x - 16 + c[2][0], 2 * y - 16 + c[2][1], 2 * z - 16 + c[2][2]));
    assert(v[3] == point(2 * x - 16 + c[3][0], 2 * y - 16 + c[3][1], 2 * z - 16 + c[3][2]));
    // The two edges that leave the triangle's first vertex.
    let u = (v[i1][0] - v[i0][0], v[i1][1] - v[i0][1], v[i1][2] - v[i0][2]);
    let e = (v[i2][0] - v[i0][0], v[i2][1] - v[i0][1], v[i2][2] - v[i0][2]);
    if d == 0 && t == 0 {
        lemma_cross(u.0, u.1, u.2, e.0, e.1, e.2, 0, 2, 0, 0, 0, 2);
    }
    if d == 0 && t == 1 {
        lemma_cross(u.0, u.1, u.2, e.0, e.1, e.2, 0, 2, -2, 0, 2, 0);
    }
    if d == 1 && t == 0 {
        lemma_cross(u.0, u.1, u.2, e.0, e.1, e.2, 0, 2, 0, 0, 0, -2);
    }
    if d == 1 && t == 1 {
        lemma_cross(u.0, u.1, u.2, e.0, e.1, e.2, 0, 0, -2, 0, -2, -2);
    }
    if d == 2 && t == 0 {
        lemma_cross(u.0, u.1, u.2, e.0, e.1, e.2, 0, 0, 2, 2, 0, 0);
    }
    if d == 2 && t == 1 {
        lemma_cross(u.0, u.1, u.2, e.0, e.1, e.2, -2, 0, 2, 0, 0, 2);
    }
    if d == 3 && t == 0 {
        lemma_cross(u.0, u.1, u.2, e.0, e.1, e.2, -2, 0, 0, 0, 0, -2);
    }
    if d == 3 && t == 1 {
        lemma_cross(u.0, u.1, u.2, e.0, e.1, e.2, 0, 0, -2, 2, 0, -2);
    }
    if d == 4 && t == 0 {
        lemma_cross(u.0, u.1, u.2, e.0, e.1, e.2, 2, 0, 0, 0, 2, 0);
    }
    if d == 4 && t == 1 {
        lemma_cross(u.0, u.1, u.2, e.0, e.1, e.2, 2, -2, 0, 2, 0, 0);
    }
    if d == 5 && t == 0 {
        lemma_cross(u.0, u.1, u.2, e.0, e.1, e.2, 0, 2, 0, 2, 0, 0);
    }
    if d == 5 && t == 1 {
        lemma_cross(u.0, u.1, u.2, e.0, e.1, e.2, 2, 0, 0, 2, -2, 0);
    }
}

/// The mesh of one sheet: quads, four vertices and six indices each.
#[derive(Clone, PartialEq)]
pub struct Premesh {
    pub vertices: Vec<[i32; 3]>,
    pub triangles: Vec<u16>,
    pub normals: Vec<[i32; 3]>,
    pub uv: Vec<[u32; 2]>,
}

/// What a premesh holds.
pub struct PremeshView {
    pub vertices: Seq<[i32; 3]>,
    pub triangles: Seq<u16>,
    pub normals: Seq<[i32; 3]>,
    pub uv: Seq<[u32; 2]>,
}

impl PremeshView {
    /// The premesh without any quad.
    pub open spec fn empty() -> PremeshView {
        PremeshView { vertices: seq![], triangles: seq![], normals: seq![], uv: seq![] }
    }

    /// Whether the four vertices of one more quad can be numbered with 16
    /// bits.
    pub open spec fn has_room(self) -> bool {
        self.vertices.len() + 3 <= u16::MAX
    }

    /// The premesh with the quad on face `d` of the voxel at `(x, y, z)`
    /// appended, textured with the tile at `c`.
    pub open spec fn push_quad(self, x: int, y: int, z: int, d: int, c: SheetCoords) -> PremeshView {
        PremeshView {
            vertices: self.vertices + quad_vertices(x, y, z, d),
            triangles: self.triangles + quad_indices(self.vertices.len() as int, d),
            normals: self.normals + quad_normals(d),
            uv: self.uv + quad_uv(c, d),
        }
    }
}

impl View for Premesh {
    type V = PremeshView;

    open spec fn view(&self) -> PremeshView {
        PremeshView {
            vertices: self.vertices@,
            triangles: self.triangles@,
            normals: self.normals@,
            uv: self.uv@,
        }
    }
}

impl Default for Premesh {
    fn default() -> (r: Self)
        ensures
            r@ == PremeshView::empty(),
    {
        Premesh { vertices: Vec::new(), triangles: Vec::new(), normals: Vec::new(), uv: Vec::new() }
    }
}

/// The corners of the unit cube's face in direction `d`.
fn face_corners(d: usize) -> (r: [[i32; 3]; 4])
    requires
        d < 6,
    ensures
        r@ == quad_corners(d as int),
{
    let r: [[i32; 3]; 4] = if d == 0 {
        [[1, -1, -1], [1, -1, 1], [1, 1, 1], [1, 1, -1]]
    } else if d == 1 {
        [[-1, -1, 1], [-1, -1, -1], [-1, 1, 1], [-1, 1, -1]]
    } else if d == 2 {
        [[-1, 1, -1], [1, 1, -1], [1, 1, 1], [-1, 1, 1]]
    } else if d == 3 {
        [[1, -1, 1], [1, -1, -1], [-1, -1, 1], [-1, -1, -1]]
    } else if d == 4 {
        [[-1, -1, 1], [-1, 1, 1], [1, 1, 1], [1, -1, 1]]
    } else {
        [[-1, -1, -1], [-1, 1, -1], [1, 1, -1], [1, -1, -1]]
    };
    assert(r@ =~= quad_corners(d as int));
    r
}

/// The unit vector of face direction `d`.
fn face_normal(d: usize) -> (r: [i32; 3])
    requires
        d < 6,
    ensures
        r == quad_normal(d as int),
{
    if d == 0 {
        [1, 0, 0]
    } else if d == 1 {
        [-1, 0, 0]
    } else if d == 2 {
        [0, 1, 0]
    } else if d == 3 {
        [0, -1, 0]
    } else if d == 4 {
        [0, 0, 1]
    } else {
        [0, 0, -1]
    }
}

/// The winding of the quad facing `d`.
fn face_winding(d: usize) -> (r: [u16; 6])
    requires
        d < 6,
    ensures
        forall|i: int| 0 <= i < 6 ==> r[i] as int == #[trigger] quad_winding(d as int)[i],
        forall|i: int| 0 <= i < 6 ==> #[trigger] r[i] <= 3,
{
    if d == 0 || d == 2 || d == 4 {
        [0, 3, 1, 1, 3, 2]
    } else if d == 1 || d == 3 {
        [0, 2, 1, 2, 3, 1]
    } else {
        [0, 1, 3, 1, 2, 3]
    }
}

/// The four vertices of the quad on face `d` of the voxel at `(x, y, z)`.
pub fn face_vertices(x: usize, y: usize, z: usize, d: usize) -> (r: [[i32; 3]; 4])
    requires
        x < 16,
        y < 16,
        z < 16,
        d < 6,
    ensures
        r@ == quad_vertices(x as int, y as int, z as int, d as int),
{
    let cx: i32 = 2 * (x as i32) - 16;
    let cy: i32 = 2 * (y as i32) - 16;
    let cz: i32 = 2 * (z as i32) - 16;
    let o = face_corners(d);
    let r: [[i32; 3]; 4] = [
        [cx + o[0][0], cy + o[0][1], cz + o[0][2]],
        [cx + o[1][0], cy + o[1][1], cz + o[1][2]],
        [cx + o[2][0], cy + o[2][1], cz + o[2][2]],
        [cx + o[3][0], cy + o[3][1], cz + o[3][2]],
    ];
    assert(r@ =~= quad_vertices(x as int, y as int, z as int, d as int));
    r
}

/// The texture coordinates of the quad on face `d`, for the tile at `c`.
pub fn face_uv(c: SheetCoords, d: usize) -> (r: [[u32; 2]; 4])
    requires
        d < 6,
    ensures
        r@ == quad_uv(c, d as int),
{
    let tl = c.top_left();
    let tr = c.top_right();
    let bl = c.bottom_left();
    let br = c.bottom_right();
    let r: [[u32; 2]; 4] = if d == 0 {
        [bl, br, tr, tl]
    } else if d == 1 {
        [br, bl, tr, tl]
    } else if d == 2 {
        [tl, tr, br, bl]
    } else if d == 3 {
        [bl, tl, br, tr]
    } else if d == 4 {
        [bl, tl, tr, br]
    } else {
        [tl, bl, br, tr]
    };
    assert(r@ =~= quad_uv(c, d as int));
    r
}

impl Premesh {
    /// Appends the quad on face `d` of the voxel at `(x, y, z)`, textured
    /// with the tile at `c`. Fails, changing nothing, if the quad's vertices
    /// cannot be numbered with 16 bits.
    pub fn push_quad(&mut self, x: usize, y: usize, z: usize, d: usize, c: SheetCoords) -> (r:
        Result<(), ()>)
        requires
            x < 16,
            y < 16,
            z < 16,
            d < 6,
        ensures
            r is Ok <==> old(self)@.has_room(),
            r is Ok ==> final(self)@ == old(self)@.push_quad(
                x as int,
                y as int,
                z as int,
                d as int,
                c,
            ),
            r is Err ==> final(self)@ == old(self)@,
    {
        let n: usize = self.vertices.len();
        if n > 65532 {
            return Err(());
        }
        let v: u16 = n as u16;
        let q = face_vertices(x, y, z, d);
        let normal = face_normal(d);
        let t = face_uv(c, d);
        let w = face_winding(d);
        self.vertices.push(q[0]);
        self.vertices.push(q[1]);
        self.vertices.push(q[2]);
        self.vertices.push(q[3]);
        self.normals.push(normal);
        self.normals.push(normal);
        self.normals.push(normal);
        self.normals.push(normal);
        self.uv.push(t[0]);
        self.uv.push(t[1]);
        self.uv.push(t[2]);
        self.uv.push(t[3]);
        self.triangles.push(v + w[0]);
        self.triangles.push(v + w[1]);
        self.triangles.push(v + w[2]);
        self.triangles.push(v + w[3]);
        self.triangles.push(v + w[4]);
        self.triangles.push(v + w[5]);
        proof {
            let ghost want = old(self)@.push_quad(x as int, y as int, z as int, d as int, c);
            assert(self.vertices@ =~= want.vertices);
            assert(self.normals@ =~= want.normals);
            assert(self.uv@ =~= want.uv);
            assert(self.triangles@ =~= want.triangles);
        }
        Ok(())
    }
}

/// The output of a meshing pass: one premesh per sheet, keyed by the
/// sheet's number, and one collision surface.
#[derive(Clone, PartialEq)]
pub struct Mesher {
    pub meshes: FxHashMap<u16, Premesh>,
    pub physics_vertices: Vec<[i32; 3]>,
    pub physics_triangles: Vec<[u32; 3]>,
}

/// What a mesher holds.
pub struct MesherView {
    pub meshes: Map<u16, PremeshView>,
    pub physics_vertices: Seq<[i32; 3]>,
    pub physics_triangles: Seq<[u32; 3]>,
}

impl MesherView {
    /// The mesher without any geometry.
    pub open spec fn empty() -> MesherView {
        MesherView { meshes: Map::empty(), physics_vertices: seq![], physics_triangles: seq![] }
    }

    /// The premesh of a sheet; the empty premesh if the sheet has none yet.
    pub open spec fn sheet_mesh(self, sheet: u16) -> PremeshView {
        if self.meshes.contains_key(sheet) {
            self.meshes[sheet]
        } else {
            PremeshView::empty()
        }
    }

    /// The mesher after the face `d` of the voxel at `(x, y, z)` was drawn
    /// with `texture`: the quad joins the premesh of the texture's sheet.
    /// `None` if that premesh has no room for it.
    pub open spec fn draw(self, texture: BlockTextureId, x: int, y: int, z: int, d: int) -> Option<
        MesherView,
    > {
        let sheet = texture.spec_sheet() as u16;
        let mesh = self.sheet_mesh(sheet);
        if mesh.has_room() {
            Some(
                MesherView {
                    meshes: self.meshes.insert(
                        sheet,
                        mesh.push_quad(x, y, z, d, SheetCoords(texture.spec_tile() as u16)),
                    ),
                    ..self
                },
            )
        } else {
            None
        }
    }

    /// Whether the four vertices of one more collision quad can be numbered
    /// with 32 bits.
    pub open spec fn collision_has_room(self) -> bool {
        self.physics_vertices.len() + 3 <= u32::MAX
    }

    /// The mesher after the face `d` of the voxel at `(x, y, z)` joined the
    /// collision surface. `None` if the surface has no room for it.
    pub open spec fn collide(self, x: int, y: int, z: int, d: int) -> Option<MesherView> {
        if self.collision_has_room() {
            Some(
                MesherView {
                    physics_vertices: self.physics_vertices + quad_vertices(x, y, z, d),
                    physics_triangles: self.physics_triangles + quad_triangles(
                        self.physics_vertices.len() as int,
                        d,
                    ),
                    ..self
                },
            )
        } else {
            None
        }
    }
}

impl View for Mesher {
    type V = MesherView;

    open spec fn view(&self) -> MesherView {
        MesherView {
            meshes: self.meshes@.map_values(|p: Premesh| p@),
            physics_vertices: self.physics_vertices@,
            physics_triangles: self.physics_triangles@,
        }
    }
}

impl Default for Mesher {
    fn default() -> (r: Self)
        ensures
            r@ == MesherView::empty(),
    {
        let r = Mesher {
            meshes: FxHashMap::default(),
            physics_vertices: Vec::new(),
            physics_triangles: Vec::new(),
        };
        assert(r@.meshes =~= Map::empty());
        r
    }
}

/// `HashMap::entry`, on a map that hashes its keys with `fxhash`: the
/// entry of `sheet`, which holds what the map holds under that key. What
/// the entry is left with is what the map then holds under `sheet`; no
/// other key changes. This is what vstd states of `entry` for every map
/// whose hasher gives equal keys equal hashes, as `FxHasher` does.
#[verifier::external_body]
fn sheet_entry(meshes: &mut FxHashMap<u16, Premesh>, sheet: u16) -> (entry: Entry<'_, u16, Premesh>)
    ensures
        entry.spec_key() == sheet,
        entry.value() == old(meshes)@.get(sheet),
        final(meshes)@ == (match entry.final_value() {
            Some(mesh) => old(meshes)@.insert(sheet, mesh),
            None => old(meshes)@.remove(sheet),
        }),
{
    meshes.entry(sheet)
}

impl Mesher {
    /// Empties every buffer.
    pub fn clear(&mut self)
        ensures
            final(self)@ == MesherView::empty(),
    {
        self.meshes.clear();
        self.physics_vertices.clear();
        self.physics_triangles.clear();
        assert(self@.meshes =~= Map::empty());
    }

    /// Draws the face `d` of the voxel at `(x, y, z)` with `texture`. Fails,
    /// changing nothing, if the premesh of the texture's sheet has no room.
    pub fn draw(&mut self, texture: BlockTextureId, x: usize, y: usize, z: usize, d: usize) -> (r:
        Result<(), ()>)
        requires
            x < 16,
            y < 16,
            z < 16,
            d < 6,
        ensures
            match old(self)@.draw(texture, x as int, y as int, z as int, d as int) {
                Some(m) => r is Ok && final(self)@ == m,
                None => r is Err && final(self)@ == old(self)@,
            },
    {
        let sheet: u16 = texture.sheet().0;
        let coords = texture.coords();
        let mesh = sheet_entry(&mut self.meshes, sheet).or_insert(Premesh::default());
        let r = mesh.push_quad(x, y, z, d, coords);
        proof {
            let ghost before = old(self)@;
            assert(coords == SheetCoords(texture.spec_tile() as u16));
            match r {
                Ok(_) => {
                    let want = before.draw(texture, x as int, y as int, z as int, d as int);
                    assert(want is Some);
                    assert(self@.meshes =~= want->0.meshes);
                },
                Err(_) => {
                    assert(self@.meshes =~= before.meshes);
                },
            }
        }
        r
    }

    /// Adds the face `d` of the voxel at `(x, y, z)` to the collision
    /// surface. Fails, changing nothing, if the surface has no room.
    pub fn collide(&mut self, x: usize, y: usize, z: usize, d: usize) -> (r: Result<(), ()>)
        requires
            x < 16,
            y < 16,
            z < 16,
            d < 6,
        ensures
            match old(self)@.collide(x as int, y as int, z as int, d as int) {
                Some(m) => r is Ok && final(self)@ == m,
                None => r is Err && final(self)@ == old(self)@,
            },
    {
        let n: usize = self.physics_vertices.len();
        if n > 0xffff_fffc {
            return Err(());
        }
        let v: u32 = n as u32;
        let q = face_vertices(x, y, z, d);
        let w = face_winding(d);
        self.physics_vertices.push(q[0]);
        self.physics_vertices.push(q[1]);
        self.physics_vertices.push(q[2]);
        self.physics_vertices.push(q[3]);
        self.physics_triangles.push([v + w[0] as u32, v + w[1] as u32, v + w[2] as u32]);
        self.physics_triangles.push([v + w[3] as u32, v + w[4] as u32, v + w[5] as u32]);
        proof {
            let ghost want = old(self)@.collide(x as int, y as int, z as int, d as int)->0;
            assert(self.physics_vertices@ =~= want.physics_vertices);
            assert(self.physics_triangles@ =~= want.physics_triangles);
            assert(self@.meshes =~= want.meshes);
        }
        Ok(())
    }
}

} // verus!
