//! Built-in geometry: the unit cube that the editor draws for its ground
//! plane, with its own four vertices per face so that each face has flat
//! normals. Values are in fixed point (`FIXED_ONE` stands for 1.0).

use crate::scene::{MeshData, Vertex, FIXED_ONE};
use vstd::prelude::*;

verus! {

/// Half the cube's edge (0.5).
pub const HALF: i32 = 500;

/// The fixed-point value that stands for -1.0.
pub const MINUS_ONE: i32 = -1000;

/// The outward normal of face `f`: front (+z), back (-z), left (-x),
/// right (+x), top (+y), bottom (-y).
pub open spec fn cube_face_normal(f: int) -> [i32; 3] {
    if f == 0 {
        [0i32, 0i32, FIXED_ONE]
    } else if f == 1 {
        [0i32, 0i32, MINUS_ONE]
    } else if f == 2 {
        [MINUS_ONE, 0i32, 0i32]
    } else if f == 3 {
        [FIXED_ONE, 0i32, 0i32]
    } else if f == 4 {
        [0i32, FIXED_ONE, 0i32]
    } else {
        [0i32, MINUS_ONE, 0i32]
    }
}

/// The tangent of face `f` (the direction in which its texture coordinate
/// u grows, with bitangent sign +1).
pub open spec fn cube_face_tangent(f: int) -> [i32; 4] {
    if f == 1 {
        [MINUS_ONE, 0i32, 0i32, FIXED_ONE]
    } else if f == 2 {
        [0i32, 0i32, FIXED_ONE, FIXED_ONE]
    } else if f == 3 {
        [0i32, 0i32, MINUS_ONE, FIXED_ONE]
    } else {
        [FIXED_ONE, 0i32, 0i32, FIXED_ONE]
    }
}

/// The signs (-1 or +1) of the coordinates of corner `c` of face `f`,
/// corners in the order of their texture coordinates (0,0), (1,0), (1,1),
/// (0,1).
pub open spec fn cube_corner_signs(f: int, c: int) -> (int, int, int) {
    if f == 0 {
        if c == 0 { (-1, -1, 1) } else if c == 1 { (1, -1, 1) } else if c == 2 { (1, 1, 1) } else { (-1, 1, 1) }
    } else if f == 1 {
        if c == 0 { (-1, -1, -1) } else if c == 1 { (1, -1, -1) } else if c == 2 { (1, 1, -1) } else { (-1, 1, -1) }
    } else if f == 2 {
        if c == 0 { (-1, -1, -1) } else if c == 1 { (-1, -1, 1) } else if c == 2 { (-1, 1, 1) } else { (-1, 1, -1) }
    } else if f == 3 {
        if c == 0 { (1, -1, 1) } else if c == 1 { (1, -1, -1) } else if c == 2 { (1, 1, -1) } else { (1, 1, 1) }
    } else if f == 4 {
        if c == 0 { (-1, 1, 1) } else if c == 1 { (1, 1, 1) } else if c == 2 { (1, 1, -1) } else { (-1, 1, -1) }
    } else {
        if c == 0 { (-1, -1, -1) } else if c == 1 { (1, -1, -1) } else if c == 2 { (1, -1, 1) } else { (-1, -1, 1) }
    }
}

/// The texture coordinate of corner `c` of every face.
pub open spec fn cube_corner_uv(c: int) -> [i32; 2] {
    if c == 0 {
        [0i32, 0i32]
    } else if c == 1 {
        [FIXED_ONE, 0i32]
    } else if c == 2 {
        [FIXED_ONE, FIXED_ONE]
    } else {
        [0i32, FIXED_ONE]
    }
}

/// Vertex `4 * f + c` of the cube: corner `c` of face `f`.
pub open spec fn cube_vertex(f: int, c: int) -> Vertex {
    let (x, y, z) = cube_corner_signs(f, c);
    Vertex {
        position: [(x * HALF) as i32, (y * HALF) as i32, (z * HALF) as i32],
        normal: cube_face_normal(f),
        uv: cube_corner_uv(c),
        tangent: cube_face_tangent(f),
    }
}

/// Index `6 * f + k` of the cube: the two triangles of face `f`, wound
/// counter-clockwise seen from outside; the back face lists its corners the
/// other way round.
pub open spec fn cube_index(f: int, k: int) -> u32 {
    let corner = if f == 1 {
        if k == 0 || k == 5 { 0int } else if k == 1 { 3 } else if k == 2 || k == 3 { 2 } else { 1 }
    } else {
        if k == 0 || k == 5 { 0int } else if k == 1 { 1 } else if k == 2 || k == 3 { 2 } else { 3 }
    };
    (4 * f + corner) as u32
}

/// Appends the four corners of a face.
fn push_face(
    out: &mut Vec<Vertex>,
    corners: [[i32; 3]; 4],
    normal: [i32; 3],
    tangent: [i32; 4],
)
    ensures
        final(out)@.len() == old(out)@.len() + 4,
        forall|i: int| 0 <= i < old(out)@.len() ==> final(out)@[i] == old(out)@[i],
        forall|c: int|
            0 <= c < 4 ==> #[trigger] final(out)@[old(out)@.len() + c] == (Vertex {
                position: corners[c],
                normal,
                uv: cube_corner_uv(c),
                tangent,
            }),
{
    out.push(Vertex::with_tangent(corners[0], normal, [0, 0], tangent));
    out.push(Vertex::with_tangent(corners[1], normal, [FIXED_ONE, 0], tangent));
    out.push(Vertex::with_tangent(corners[2], normal, [FIXED_ONE, FIXED_ONE], tangent));
    out.push(Vertex::with_tangent(corners[3], normal, [0, FIXED_ONE], tangent));
}

/// The cube of edge 1 centred on the origin: 24 vertices (four per face,
/// faces in the order front, back, left, right, top, bottom) and 36
/// indices (two triangles per face).
pub fn create_cube() -> (m: MeshData)
    ensures
        m.name@ == "Cube"@,
        m.vertices@.len() == 24,
        forall|f: int, c: int|
            0 <= f < 6 && 0 <= c < 4 ==> #[trigger] m.vertices@[4 * f + c] == cube_vertex(f, c),
        m.indices@.len() == 36,
        forall|f: int, k: int|
            0 <= f < 6 && 0 <= k < 6 ==> #[trigger] m.indices@[6 * f + k] == cube_index(f, k),
{
    let h = HALF;
    let mut v: Vec<Vertex> = Vec::new();
    push_face(&mut v, [[-h, -h, h], [h, -h, h], [h, h, h], [-h, h, h]], [0, 0, FIXED_ONE], [FIXED_ONE, 0, 0, FIXED_ONE]);
    push_face(&mut v, [[-h, -h, -h], [h, -h, -h], [h, h, -h], [-h, h, -h]], [0, 0, MINUS_ONE], [MINUS_ONE, 0, 0, FIXED_ONE]);
    push_face(&mut v, [[-h, -h, -h], [-h, -h, h], [-h, h, h], [-h, h, -h]], [MINUS_ONE, 0, 0], [0, 0, FIXED_ONE, FIXED_ONE]);
    push_face(&mut v, [[h, -h, h], [h, -h, -h], [h, h, -h], [h, h, h]], [FIXED_ONE, 0, 0], [0, 0, MINUS_ONE, FIXED_ONE]);
    push_face(&mut v, [[-h, h, h], [h, h, h], [h, h, -h], [-h, h, -h]], [0, FIXED_ONE, 0], [FIXED_ONE, 0, 0, FIXED_ONE]);
    push_face(&mut v, [[-h, -h, -h], [h, -h, -h], [h, -h, h], [-h, -h, h]], [0, MINUS_ONE, 0], [FIXED_ONE, 0, 0, FIXED_ONE]);
    let indices: Vec<u32> = vec![
        0, 1, 2, 2, 3, 0,
        4, 7, 6, 6, 5, 4,
        8, 9, 10, 10, 11, 8,
        12, 13, 14, 14, 15, 12,
        16, 17, 18, 18, 19, 16,
        20, 21, 22, 22, 23, 20,
    ];
    MeshData { name: String::from_str("Cube"), vertices: v, indices }
}

/// The dot product of two fixed-point 3-vectors (in millionths).
pub open spec fn dot3(a: [i32; 3], b: [i32; 3]) -> int {
    a[0] * b[0] + a[1] * b[1] + a[2] * b[2]
}

/// The cross product of two 3-vectors.
pub open spec fn cross3(a: (int, int, int), b: (int, int, int)) -> (int, int, int) {
    (a.1 * b.2 - a.2 * b.1, a.2 * b.0 - a.0 * b.2, a.0 * b.1 - a.1 * b.0)
}

/// `b - a` for two positions.
pub open spec fn edge(a: [i32; 3], b: [i32; 3]) -> (int, int, int) {
    (b[0] - a[0], b[1] - a[1], b[2] - a[2])
}

/// Vertex `c` of face `f` has a unit axis normal that points away from the
/// centre through the face it lies on: its dot product with the vertex
/// position is half the edge, and it is the normal of the face's first
/// corner.
pub open spec fn normal_points_out(f: int, c: int) -> bool {
    let v = cube_vertex(f, c);
    &&& dot3(v.normal, v.normal) == FIXED_ONE * FIXED_ONE
    &&& dot3(v.normal, v.position) == HALF * FIXED_ONE
    &&& v.normal == cube_vertex(f, 0).normal
}

/// The triangle that starts at index `6 * f + k` is wound counter-clockwise
/// seen from outside: its geometric normal points the same way as its
/// vertices' normal.
pub open spec fn wound_outward(f: int, k: int) -> bool {
    let a = cube_vertex(f, cube_index(f, k) - 4 * f);
    let b = cube_vertex(f, cube_index(f, k + 1) - 4 * f);
    let c = cube_vertex(f, cube_index(f, k + 2) - 4 * f);
    let g = cross3(edge(a.position, b.position), edge(a.position, c.position));
    g.0 * a.normal[0] + g.1 * a.normal[1] + g.2 * a.normal[2] > 0
}

/// Face 0 of the cube has outward normals and outward winding.
proof fn lemma_face_0_points_out()
    ensures
        normal_points_out(0, 0),
        normal_points_out(0, 1),
        normal_points_out(0, 2),
        normal_points_out(0, 3),
        wound_outward(0, 0),
        wound_outward(0, 3),
{
    assert(cube_corner_signs(0, 0) == (-1int, -1int, 1int));
    assert(cube_vertex(0, 0).position == [-500i32, -500i32, 500i32]);
    assert(cube_vertex(0, 0).normal == [0i32, 0i32, 1000i32]);
    assert(cube_corner_signs(0, 1) == (1int, -1int, 1int));
    assert(cube_vertex(0, 1).position == [500i32, -500i32, 500i32]);
    assert(cube_vertex(0, 1).normal == [0i32, 0i32, 1000i32]);
    assert(cube_corner_signs(0, 2) == (1int, 1int, 1int));
    assert(cube_vertex(0, 2).position == [500i32, 500i32, 500i32]);
    assert(cube_vertex(0, 2).normal == [0i32, 0i32, 1000i32]);
    assert(cube_corner_signs(0, 3) == (-1int, 1int, 1int));
    assert(cube_vertex(0, 3).position == [-500i32, 500i32, 500i32]);
    assert(cube_vertex(0, 3).normal == [0i32, 0i32, 1000i32]);
    assert(cube_index(0, 0) == 0);
    assert(cube_index(0, 1) == 1);
    assert(cube_index(0, 2) == 2);
    assert(cube_index(0, 3) == 2);
    assert(cube_index(0, 4) == 3);
    assert(cube_index(0, 5) == 0);
    assert(normal_points_out(0, 0));
    assert(normal_points_out(0, 1));
    assert(normal_points_out(0, 2));
    assert(normal_points_out(0, 3));
    assert(wound_outward(0, 0)) by (nonlinear_arith)
        requires
            cube_index(0, 0) == 0,
            cube_vertex(0, 0).position == [-500i32, -500i32, 500i32],
            cube_index(0, 1) == 1,
            cube_vertex(0, 1).position == [500i32, -500i32, 500i32],
            cube_index(0, 2) == 2,
            cube_vertex(0, 2).position == [500i32, 500i32, 500i32],
            cube_vertex(0, 0).normal == [0i32, 0i32, 1000i32],
    ;
    assert(wound_outward(0, 3)) by (nonlinear_arith)
        requires
            cube_index(0, 3) == 2,
            cube_vertex(0, 2).position == [500i32, 500i32, 500i32],
            cube_index(0, 4) == 3,
            cube_vertex(0, 3).position == [-500i32, 500i32, 500i32],
            cube_index(0, 5) == 0,
            cube_vertex(0, 0).position == [-500i32, -500i32, 500i32],
            cube_vertex(0, 2).normal == [0i32, 0i32, 1000i32],
    ;
}

/// Face 1 of the cube has outward normals and outward winding.
proof fn lemma_face_1_points_out()
    ensures
        normal_points_out(1, 0),
        normal_points_out(1, 1),
        normal_points_out(1, 2),
        normal_points_out(1, 3),
        wound_outward(1, 0),
        wound_outward(1, 3),
{
    assert(cube_corner_signs(1, 0) == (-1int, -1int, -1int));
    assert(cube_vertex(1, 0).position == [-500i32, -500i32, -500i32]);
    assert(cube_vertex(1, 0).normal == [0i32, 0i32, -1000i32]);
    assert(cube_corner_signs(1, 1) == (1int, -1int, -1int));
    assert(cube_vertex(1, 1).position == [500i32, -500i32, -500i32]);
    assert(cube_vertex(1, 1).normal == [0i32, 0i32, -1000i32]);
    assert(cube_corner_signs(1, 2) == (1int, 1int, -1int));
    assert(cube_vertex(1, 2).position == [500i32, 500i32, -500i32]);
    assert(cube_vertex(1, 2).normal == [0i32, 0i32, -1000i32]);
    assert(cube_corner_signs(1, 3) == (-1int, 1int, -1int));
    assert(cube_vertex(1, 3).position == [-500i32, 500i32, -500i32]);
    assert(cube_vertex(1, 3).normal == [0i32, 0i32, -1000i32]);
    assert(cube_index(1, 0) == 4);
    assert(cube_index(1, 1) == 7);
    assert(cube_index(1, 2) == 6);
    assert(cube_index(1, 3) == 6);
    assert(cube_index(1, 4) == 5);
    assert(cube_index(1, 5) == 4);
    assert(normal_points_out(1, 0));
    assert(normal_points_out(1, 1));
    assert(normal_points_out(1, 2));
    assert(normal_points_out(1, 3));
    assert(wound_outward(1, 0)) by (nonlinear_arith)
        requires
            cube_index(1, 0) == 4,
            cube_vertex(1, 0).position == [-500i32, -500i32, -500i32],
            cube_index(1, 1) == 7,
            cube_vertex(1, 3).position == [-500i32, 500i32, -500i32],
            cube_index(1, 2) == 6,
            cube_vertex(1, 2).position == [500i32, 500i32, -500i32],
            cube_vertex(1, 0).normal == [0i32, 0i32, -1000i32],
    ;
    assert(wound_outward(1, 3)) by (nonlinear_arith)
        requires
            cube_index(1, 3) == 6,
            cube_vertex(1, 2).position == [500i32, 500i32, -500i32],
            cube_index(1, 4) == 5,
            cube_vertex(1, 1).position == [500i32, -500i32, -500i32],
            cube_index(1, 5) == 4,
            cube_vertex(1, 0).position == [-500i32, -500i32, -500i32],
            cube_vertex(1, 2).normal == [0i32, 0i32, -1000i32],
    ;
}

/// Face 2 of the cube has outward normals and outward winding.
proof fn lemma_face_2_points_out()
    ensures
        normal_points_out(2, 0),
        normal_points_out(2, 1),
        normal_points_out(2, 2),
        normal_points_out(2, 3),
        wound_outward(2, 0),
        wound_outward(2, 3),
{
    assert(cube_corner_signs(2, 0) == (-1int, -1int, -1int));
    assert(cube_vertex(2, 0).position == [-500i32, -500i32, -500i32]);
    assert(cube_vertex(2, 0).normal == [-1000i32, 0i32, 0i32]);
    assert(cube_corner_signs(2, 1) == (-1int, -1int, 1int));
    assert(cube_vertex(2, 1).position == [-500i32, -500i32, 500i32]);
    assert(cube_vertex(2, 1).normal == [-1000i32, 0i32, 0i32]);
    assert(cube_corner_signs(2, 2) == (-1int, 1int, 1int));
    assert(cube_vertex(2, 2).position == [-500i32, 500i32, 500i32]);
    assert(cube_vertex(2, 2).normal == [-1000i32, 0i32, 0i32]);
    assert(cube_corner_signs(2, 3) == (-1int, 1int, -1int));
    assert(cube_vertex(2, 3).position == [-500i32, 500i32, -500i32]);
    assert(cube_vertex(2, 3).normal == [-1000i32, 0i32, 0i32]);
    assert(cube_index(2, 0) == 8);
    assert(cube_index(2, 1) == 9);
    assert(cube_index(2, 2) == 10);
    assert(cube_index(2, 3) == 10);
    assert(cube_index(2, 4) == 11);
    assert(cube_index(2, 5) == 8);
    assert(normal_points_out(2, 0));
    assert(normal_points_out(2, 1));
    assert(normal_points_out(2, 2));
    assert(normal_points_out(2, 3));
    assert(wound_outward(2, 0)) by (nonlinear_arith)
        requires
            cube_index(2, 0) == 8,
            cube_vertex(2, 0).position == [-500i32, -500i32, -500i32],
            cube_index(2, 1) == 9,
            cube_vertex(2, 1).position == [-500i32, -500i32, 500i32],
            cube_index(2, 2) == 10,
            cube_vertex(2, 2).position == [-500i32, 500i32, 500i32],
            cube_vertex(2, 0).normal == [-1000i32, 0i32, 0i32],
    ;
    assert(wound_outward(2, 3)) by (nonlinear_arith)
        requires
            cube_index(2, 3) == 10,
            cube_vertex(2, 2).position == [-500i32, 500i32, 500i32],
            cube_index(2, 4) == 11,
            cube_vertex(2, 3).position == [-500i32, 500i32, -500i32],
            cube_index(2, 5) == 8,
            cube_vertex(2, 0).position == [-500i32, -500i32, -500i32],
            cube_vertex(2, 2).normal == [-1000i32, 0i32, 0i32],
    ;
}

/// Face 3 of the cube has outward normals and outward winding.
proof fn lemma_face_3_points_out()
    ensures
        normal_points_out(3, 0),
        normal_points_out(3, 1),
        normal_points_out(3, 2),
        normal_points_out(3, 3),
        wound_outward(3, 0),
        wound_outward(3, 3),
{
    assert(cube_corner_signs(3, 0) == (1int, -1int, 1int));
    assert(cube_vertex(3, 0).position == [500i32, -500i32, 500i32]);
    assert(cube_vertex(3, 0).normal == [1000i32, 0i32, 0i32]);
    assert(cube_corner_signs(3, 1) == (1int, -1int, -1int));
    assert(cube_vertex(3, 1).position == [500i32, -500i32, -500i32]);
    assert(cube_vertex(3, 1).normal == [1000i32, 0i32, 0i32]);
    assert(cube_corner_signs(3, 2) == (1int, 1int, -1int));
    assert(cube_vertex(3, 2).position == [500i32, 500i32, -500i32]);
    assert(cube_vertex(3, 2).normal == [1000i32, 0i32, 0i32]);
    assert(cube_corner_signs(3, 3) == (1int, 1int, 1int));
    assert(cube_vertex(3, 3).position == [500i32, 500i32, 500i32]);
    assert(cube_vertex(3, 3).normal == [1000i32, 0i32, 0i32]);
    assert(cube_index(3, 0) == 12);
    assert(cube_index(3, 1) == 13);
    assert(cube_index(3, 2) == 14);
    assert(cube_index(3, 3) == 14);
    assert(cube_index(3, 4) == 15);
    assert(cube_index(3, 5) == 12);
    assert(normal_points_out(3, 0));
    assert(normal_points_out(3, 1));
    assert(normal_points_out(3, 2));
    assert(normal_points_out(3, 3));
    assert(wound_outward(3, 0)) by (nonlinear_arith)
        requires
            cube_index(3, 0) == 12,
            cube_vertex(3, 0).position == [500i32, -500i32, 500i32],
            cube_index(3, 1) == 13,
            cube_vertex(3, 1).position == [500i32, -500i32, -500i32],
            cube_index(3, 2) == 14,
            cube_vertex(3, 2).position == [500i32, 500i32, -500i32],
            cube_vertex(3, 0).normal == [1000i32, 0i32, 0i32],
    ;
    assert(wound_outward(3, 3)) by (nonlinear_arith)
        requires
            cube_index(3, 3) == 14,
            cube_vertex(3, 2).position == [500i32, 500i32, -500i32],
            cube_index(3, 4) == 15,
            cube_vertex(3, 3).position == [500i32, 500i32, 500i32],
            cube_index(3, 5) == 12,
            cube_vertex(3, 0).position == [500i32, -500i32, 500i32],
            cube_vertex(3, 2).normal == [1000i32, 0i32, 0i32],
    ;
}

/// Face 4 of the cube has outward normals and outward winding.
proof fn lemma_face_4_points_out()
    ensures
        normal_points_out(4, 0),
        normal_points_out(4, 1),
        normal_points_out(4, 2),
        normal_points_out(4, 3),
        wound_outward(4, 0),
        wound_outward(4, 3),
{
    assert(cube_corner_signs(4, 0) == (-1int, 1int, 1int));
    assert(cube_vertex(4, 0).position == [-500i32, 500i32, 500i32]);
    assert(cube_vertex(4, 0).normal == [0i32, 1000i32, 0i32]);
    assert(cube_corner_signs(4, 1) == (1int, 1int, 1int));
    assert(cube_vertex(4, 1).position == [500i32, 500i32, 500i32]);
    assert(cube_vertex(4, 1).normal == [0i32, 1000i32, 0i32]);
    assert(cube_corner_signs(4, 2) == (1int, 1int, -1int));
    assert(cube_vertex(4, 2).position == [500i32, 500i32, -500i32]);
    assert(cube_vertex(4, 2).normal == [0i32, 1000i32, 0i32]);
    assert(cube_corner_signs(4, 3) == (-1int, 1int, -1int));
    assert(cube_vertex(4, 3).position == [-500i32, 500i32, -500i32]);
    assert(cube_vertex(4, 3).normal == [0i32, 1000i32, 0i32]);
    assert(cube_index(4, 0) == 16);
    assert(cube_index(4, 1) == 17);
    assert(cube_index(4, 2) == 18);
    assert(cube_index(4, 3) == 18);
    assert(cube_index(4, 4) == 19);
    assert(cube_index(4, 5) == 16);
    assert(normal_points_out(4, 0));
    assert(normal_points_out(4, 1));
    assert(normal_points_out(4, 2));
    assert(normal_points_out(4, 3));
    assert(wound_outward(4, 0)) by (nonlinear_arith)
        requires
            cube_index(4, 0) == 16,
            cube_vertex(4, 0).position == [-500i32, 500i32, 500i32],
            cube_index(4, 1) == 17,
            cube_vertex(4, 1).position == [500i32, 500i32, 500i32],
            cube_index(4, 2) == 18,
            cube_vertex(4, 2).position == [500i32, 500i32, -500i32],
            cube_vertex(4, 0).normal == [0i32, 1000i32, 0i32],
    ;
    assert(wound_outward(4, 3)) by (nonlinear_arith)
        requires
            cube_index(4, 3) == 18,
            cube_vertex(4, 2).position == [500i32, 500i32, -500i32],
            cube_index(4, 4) == 19,
            cube_vertex(4, 3).position == [-500i32, 500i32, -500i32],
            cube_index(4, 5) == 16,
            cube_vertex(4, 0).position == [-500i32, 500i32, 500i32],
            cube_vertex(4, 2).normal == [0i32, 1000i32, 0i32],
    ;
}

/// Face 5 of the cube has outward normals and outward winding.
proof fn lemma_face_5_points_out()
    ensures
        normal_points_out(5, 0),
        normal_points_out(5, 1),
        normal_points_out(5, 2),
        normal_points_out(5, 3),
        wound_outward(5, 0),
        wound_outward(5, 3),
{
    assert(cube_corner_signs(5, 0) == (-1int, -1int, -1int));
    assert(cube_vertex(5, 0).position == [-500i32, -500i32, -500i32]);
    assert(cube_vertex(5, 0).normal == [0i32, -1000i32, 0i32]);
    assert(cube_corner_signs(5, 1) == (1int, -1int, -1int));
    assert(cube_vertex(5, 1).position == [500i32, -500i32, -500i32]);
    assert(cube_vertex(5, 1).normal == [0i32, -1000i32, 0i32]);
    assert(cube_corner_signs(5, 2) == (1int, -1int, 1int));
    assert(cube_vertex(5, 2).position == [500i32, -500i32, 500i32]);
    assert(cube_vertex(5, 2).normal == [0i32, -1000i32, 0i32]);
    assert(cube_corner_signs(5, 3) == (-1int, -1int, 1int));
    assert(cube_vertex(5, 3).position == [-500i32, -500i32, 500i32]);
    assert(cube_vertex(5, 3).normal == [0i32, -1000i32, 0i32]);
    assert(cube_index(5, 0) == 20);
    assert(cube_index(5, 1) == 21);
    assert(cube_index(5, 2) == 22);
    assert(cube_index(5, 3) == 22);
    assert(cube_index(5, 4) == 23);
    assert(cube_index(5, 5) == 20);
    assert(normal_points_out(5, 0));
    assert(normal_points_out(5, 1));
    assert(normal_points_out(5, 2));
    assert(normal_points_out(5, 3));
    assert(wound_outward(5, 0)) by (nonlinear_arith)
        requires
            cube_index(5, 0) == 20,
            cube_vertex(5, 0).position == [-500i32, -500i32, -500i32],
            cube_index(5, 1) == 21,
            cube_vertex(5, 1).position == [500i32, -500i32, -500i32],
            cube_index(5, 2) == 22,
            cube_vertex(5, 2).position == [500i32, -500i32, 500i32],
            cube_vertex(5, 0).normal == [0i32, -1000i32, 0i32],
    ;
    assert(wound_outward(5, 3)) by (nonlinear_arith)
        requires
            cube_index(5, 3) == 22,
            cube_vertex(5, 2).position == [500i32, -500i32, 500i32],
            cube_index(5, 4) == 23,
            cube_vertex(5, 3).position == [-500i32, -500i32, 500i32],
            cube_index(5, 5) == 20,
            cube_vertex(5, 0).position == [-500i32, -500i32, -500i32],
            cube_vertex(5, 2).normal == [0i32, -1000i32, 0i32],
    ;
}

/// The cube's faces are lit from outside: every vertex normal is a unit
/// axis vector pointing away from the centre through the face the vertex
/// lies on, and both triangles of every face are wound counter-clockwise
/// seen from outside.
pub proof fn law_cube_faces_point_out()
    ensures
        forall|f: int, c: int| 0 <= f < 6 && 0 <= c < 4 ==> #[trigger] normal_points_out(f, c),
        forall|f: int, k: int| 0 <= f < 6 && (k == 0 || k == 3) ==> #[trigger] wound_outward(f, k),
{
    lemma_face_0_points_out();
    lemma_face_1_points_out();
    lemma_face_2_points_out();
    lemma_face_3_points_out();
    lemma_face_4_points_out();
    lemma_face_5_points_out();
    assert forall|f: int, c: int| 0 <= f < 6 && 0 <= c < 4 implies #[trigger] normal_points_out(f, c) by {
        assert(f == 0 || f == 1 || f == 2 || f == 3 || f == 4 || f == 5);
        assert(c == 0 || c == 1 || c == 2 || c == 3);
    }
    assert forall|f: int, k: int| 0 <= f < 6 && (k == 0 || k == 3) implies #[trigger] wound_outward(f, k) by {
        assert(f == 0 || f == 1 || f == 2 || f == 3 || f == 4 || f == 5);
    }
}

/// The squared length of a 3-vector.
pub open spec fn len2(e: (int, int, int)) -> int {
    e.0 * e.0 + e.1 * e.1 + e.2 * e.2
}

/// The dot product of two 3-vectors.
pub open spec fn dot_e(a: (int, int, int), b: (int, int, int)) -> int {
    a.0 * b.0 + a.1 * b.1 + a.2 * b.2
}

/// The corners of face `f`, in order, form a square of edge 1 on the cube's
/// surface, with the texture square laid on it: corner 0 carries (0,0), u
/// grows along the edge to corner 1 and v along the edge to corner 3.
pub open spec fn face_is_textured_square(f: int) -> bool {
    let p0 = cube_vertex(f, 0).position;
    let p1 = cube_vertex(f, 1).position;
    let p2 = cube_vertex(f, 2).position;
    let p3 = cube_vertex(f, 3).position;
    &&& edge(p0, p1) == edge(p3, p2)
    &&& dot_e(edge(p0, p1), edge(p0, p3)) == 0
    &&& len2(edge(p0, p1)) == 4 * HALF * HALF
    &&& len2(edge(p0, p3)) == 4 * HALF * HALF
    &&& cube_vertex(f, 0).uv == [0i32, 0i32]
    &&& cube_vertex(f, 1).uv == [FIXED_ONE, 0i32]
    &&& cube_vertex(f, 2).uv == [FIXED_ONE, FIXED_ONE]
    &&& cube_vertex(f, 3).uv == [0i32, FIXED_ONE]
}

/// Vertex `c` of face `f` is a corner of the cube (every coordinate is
/// plus or minus half the edge) and its tangent is a unit vector lying in
/// the face (perpendicular to the normal) with bitangent sign +1.
pub open spec fn vertex_on_cube_with_tangent(f: int, c: int) -> bool {
    let v = cube_vertex(f, c);
    let t = (v.tangent[0] as int, v.tangent[1] as int, v.tangent[2] as int);
    &&& forall|k: int| 0 <= k < 3 ==> #[trigger] v.position[k] == HALF || v.position[k] == -HALF
    &&& len2(t) == FIXED_ONE * FIXED_ONE
    &&& dot_e(t, (v.normal[0] as int, v.normal[1] as int, v.normal[2] as int)) == 0
    &&& v.tangent[3] == FIXED_ONE
}

/// Face 0 of the cube is a textured square with tangents in the face.
proof fn lemma_face_0_square()
    ensures
        face_is_textured_square(0),
        vertex_on_cube_with_tangent(0, 0),
        vertex_on_cube_with_tangent(0, 1),
        vertex_on_cube_with_tangent(0, 2),
        vertex_on_cube_with_tangent(0, 3),
{
    assert(cube_corner_signs(0, 0) == (-1int, -1int, 1int));
    assert(cube_vertex(0, 0).position == [-500i32, -500i32, 500i32]);
    assert(cube_vertex(0, 0).normal == [0i32, 0i32, 1000i32]);
    assert(cube_vertex(0, 0).tangent == [1000i32, 0i32, 0i32, 1000i32]);
    assert(cube_corner_signs(0, 1) == (1int, -1int, 1int));
    assert(cube_vertex(0, 1).position == [500i32, -500i32, 500i32]);
    assert(cube_vertex(0, 1).normal == [0i32, 0i32, 1000i32]);
    assert(cube_vertex(0, 1).tangent == [1000i32, 0i32, 0i32, 1000i32]);
    assert(cube_corner_signs(0, 2) == (1int, 1int, 1int));
    assert(cube_vertex(0, 2).position == [500i32, 500i32, 500i32]);
    assert(cube_vertex(0, 2).normal == [0i32, 0i32, 1000i32]);
    assert(cube_vertex(0, 2).tangent == [1000i32, 0i32, 0i32, 1000i32]);
    assert(cube_corner_signs(0, 3) == (-1int, 1int, 1int));
    assert(cube_vertex(0, 3).position == [-500i32, 500i32, 500i32]);
    assert(cube_vertex(0, 3).normal == [0i32, 0i32, 1000i32]);
    assert(cube_vertex(0, 3).tangent == [1000i32, 0i32, 0i32, 1000i32]);
    assert(face_is_textured_square(0)) by (nonlinear_arith)
        requires
            cube_vertex(0, 0).position == [-500i32, -500i32, 500i32],
            cube_vertex(0, 1).position == [500i32, -500i32, 500i32],
            cube_vertex(0, 2).position == [500i32, 500i32, 500i32],
            cube_vertex(0, 3).position == [-500i32, 500i32, 500i32],
    ;
    assert(vertex_on_cube_with_tangent(0, 0)) by (nonlinear_arith)
        requires
            cube_vertex(0, 0).position == [-500i32, -500i32, 500i32],
            cube_vertex(0, 0).normal == [0i32, 0i32, 1000i32],
            cube_vertex(0, 0).tangent == [1000i32, 0i32, 0i32, 1000i32],
    ;
    assert(vertex_on_cube_with_tangent(0, 1)) by (nonlinear_arith)
        requires
            cube_vertex(0, 1).position == [500i32, -500i32, 500i32],
            cube_vertex(0, 1).normal == [0i32, 0i32, 1000i32],
            cube_vertex(0, 1).tangent == [1000i32, 0i32, 0i32, 1000i32],
    ;
    assert(vertex_on_cube_with_tangent(0, 2)) by (nonlinear_arith)
        requires
            cube_vertex(0, 2).position == [500i32, 500i32, 500i32],
            cube_vertex(0, 2).normal == [0i32, 0i32, 1000i32],
            cube_vertex(0, 2).tangent == [1000i32, 0i32, 0i32, 1000i32],
    ;
    assert(vertex_on_cube_with_tangent(0, 3)) by (nonlinear_arith)
        requires
            cube_vertex(0, 3).position == [-500i32, 500i32, 500i32],
            cube_vertex(0, 3).normal == [0i32, 0i32, 1000i32],
            cube_vertex(0, 3).tangent == [1000i32, 0i32, 0i32, 1000i32],
    ;
}

/// Face 1 of the cube is a textured square with tangents in the face.
proof fn lemma_face_1_square()
    ensures
        face_is_textured_square(1),
        vertex_on_cube_with_tangent(1, 0),
        vertex_on_cube_with_tangent(1, 1),
        vertex_on_cube_with_tangent(1, 2),
        vertex_on_cube_with_tangent(1, 3),
{
    assert(cube_corner_signs(1, 0) == (-1int, -1int, -1int));
    assert(cube_vertex(1, 0).position == [-500i32, -500i32, -500i32]);
    assert(cube_vertex(1, 0).normal == [0i32, 0i32, -1000i32]);
    assert(cube_vertex(1, 0).tangent == [-1000i32, 0i32, 0i32, 1000i32]);
    assert(cube_corner_signs(1, 1) == (1int, -1int, -1int));
    assert(cube_vertex(1, 1).position == [500i32, -500i32, -500i32]);
    assert(cube_vertex(1, 1).normal == [0i32, 0i32, -1000i32]);
    assert(cube_vertex(1, 1).tangent == [-1000i32, 0i32, 0i32, 1000i32]);
    assert(cube_corner_signs(1, 2) == (1int, 1int, -1int));
    assert(cube_vertex(1, 2).position == [500i32, 500i32, -500i32]);
    assert(cube_vertex(1, 2).normal == [0i32, 0i32, -1000i32]);
    assert(cube_vertex(1, 2).tangent == [-1000i32, 0i32, 0i32, 1000i32]);
    assert(cube_corner_signs(1, 3) == (-1int, 1int, -1int));
    assert(cube_vertex(1, 3).position == [-500i32, 500i32, -500i32]);
    assert(cube_vertex(1, 3).normal == [0i32, 0i32, -1000i32]);
    assert(cube_vertex(1, 3).tangent == [-1000i32, 0i32, 0i32, 1000i32]);
    assert(face_is_textured_square(1)) by (nonlinear_arith)
        requires
            cube_vertex(1, 0).position == [-500i32, -500i32, -500i32],
            cube_vertex(1, 1).position == [500i32, -500i32, -500i32],
            cube_vertex(1, 2).position == [500i32, 500i32, -500i32],
            cube_vertex(1, 3).position == [-500i32, 500i32, -500i32],
    ;
    assert(vertex_on_cube_with_tangent(1, 0)) by (nonlinear_arith)
        requires
            cube_vertex(1, 0).position == [-500i32, -500i32, -500i32],
            cube_vertex(1, 0).normal == [0i32, 0i32, -1000i32],
            cube_vertex(1, 0).tangent == [-1000i32, 0i32, 0i32, 1000i32],
    ;
    assert(vertex_on_cube_with_tangent(1, 1)) by (nonlinear_arith)
        requires
            cube_vertex(1, 1).position == [500i32, -500i32, -500i32],
            cube_vertex(1, 1).normal == [0i32, 0i32, -1000i32],
            cube_vertex(1, 1).tangent == [-1000i32, 0i32, 0i32, 1000i32],
    ;
    assert(vertex_on_cube_with_tangent(1, 2)) by (nonlinear_arith)
        requires
            cube_vertex(1, 2).position == [500i32, 500i32, -500i32],
            cube_vertex(1, 2).normal == [0i32, 0i32, -1000i32],
            cube_vertex(1, 2).tangent == [-1000i32, 0i32, 0i32, 1000i32],
    ;
    assert(vertex_on_cube_with_tangent(1, 3)) by (nonlinear_arith)
        requires
            cube_vertex(1, 3).position == [-500i32, 500i32, -500i32],
            cube_vertex(1, 3).normal == [0i32, 0i32, -1000i32],
            cube_vertex(1, 3).tangent == [-1000i32, 0i32, 0i32, 1000i32],
    ;
}

/// Face 2 of the cube is a textured square with tangents in the face.
proof fn lemma_face_2_square()
    ensures
        face_is_textured_square(2),
        vertex_on_cube_with_tangent(2, 0),
        vertex_on_cube_with_tangent(2, 1),
        vertex_on_cube_with_tangent(2, 2),
        vertex_on_cube_with_tangent(2, 3),
{
    assert(cube_corner_signs(2, 0) == (-1int, -1int, -1int));
    assert(cube_vertex(2, 0).position == [-500i32, -500i32, -500i32]);
    assert(cube_vertex(2, 0).normal == [-1000i32, 0i32, 0i32]);
    assert(cube_vertex(2, 0).tangent == [0i32, 0i32, 1000i32, 1000i32]);
    assert(cube_corner_signs(2, 1) == (-1int, -1int, 1int));
    assert(cube_vertex(2, 1).position == [-500i32, -500i32, 500i32]);
    assert(cube_vertex(2, 1).normal == [-1000i32, 0i32, 0i32]);
    assert(cube_vertex(2, 1).tangent == [0i32, 0i32, 1000i32, 1000i32]);
    assert(cube_corner_signs(2, 2) == (-1int, 1int, 1int));
    assert(cube_vertex(2, 2).position == [-500i32, 500i32, 500i32]);
    assert(cube_vertex(2, 2).normal == [-1000i32, 0i32, 0i32]);
    assert(cube_vertex(2, 2).tangent == [0i32, 0i32, 1000i32, 1000i32]);
    assert(cube_corner_signs(2, 3) == (-1int, 1int, -1int));
    assert(cube_vertex(2, 3).position == [-500i32, 500i32, -500i32]);
    assert(cube_vertex(2, 3).normal == [-1000i32, 0i32, 0i32]);
    assert(cube_vertex(2, 3).tangent == [0i32, 0i32, 1000i32, 1000i32]);
    assert(face_is_textured_square(2)) by (nonlinear_arith)
        requires
            cube_vertex(2, 0).position == [-500i32, -500i32, -500i32],
            cube_vertex(2, 1).position == [-500i32, -500i32, 500i32],
            cube_vertex(2, 2).position == [-500i32, 500i32, 500i32],
            cube_vertex(2, 3).position == [-500i32, 500i32, -500i32],
    ;
    assert(vertex_on_cube_with_tangent(2, 0)) by (nonlinear_arith)
        requires
            cube_vertex(2, 0).position == [-500i32, -500i32, -500i32],
            cube_vertex(2, 0).normal == [-1000i32, 0i32, 0i32],
            cube_vertex(2, 0).tangent == [0i32, 0i32, 1000i32, 1000i32],
    ;
    assert(vertex_on_cube_with_tangent(2, 1)) by (nonlinear_arith)
        requires
            cube_vertex(2, 1).position == [-500i32, -500i32, 500i32],
            cube_vertex(2, 1).normal == [-1000i32, 0i32, 0i32],
            cube_vertex(2, 1).tangent == [0i32, 0i32, 1000i32, 1000i32],
    ;
    assert(vertex_on_cube_with_tangent(2, 2)) by (nonlinear_arith)
        requires
            cube_vertex(2, 2).position == [-500i32, 500i32, 500i32],
            cube_vertex(2, 2).normal == [-1000i32, 0i32, 0i32],
            cube_vertex(2, 2).tangent == [0i32, 0i32, 1000i32, 1000i32],
    ;
    assert(vertex_on_cube_with_tangent(2, 3)) by (nonlinear_arith)
        requires
            cube_vertex(2, 3).position == [-500i32, 500i32, -500i32],
            cube_vertex(2, 3).normal == [-1000i32, 0i32, 0i32],
            cube_vertex(2, 3).tangent == [0i32, 0i32, 1000i32, 1000i32],
    ;
}

/// Face 3 of the cube is a textured square with tangents in the face.
proof fn lemma_face_3_square()
    ensures
        face_is_textured_square(3),
        vertex_on_cube_with_tangent(3, 0),
        vertex_on_cube_with_tangent(3, 1),
        vertex_on_cube_with_tangent(3, 2),
        vertex_on_cube_with_tangent(3, 3),
{
    assert(cube_corner_signs(3, 0) == (1int, -1int, 1int));
    assert(cube_vertex(3, 0).position == [500i32, -500i32, 500i32]);
    assert(cube_vertex(3, 0).normal == [1000i32, 0i32, 0i32]);
    assert(cube_vertex(3, 0).tangent == [0i32, 0i32, -1000i32, 1000i32]);
    assert(cube_corner_signs(3, 1) == (1int, -1int, -1int));
    assert(cube_vertex(3, 1).position == [500i32, -500i32, -500i32]);
    assert(cube_vertex(3, 1).normal == [1000i32, 0i32, 0i32]);
    assert(cube_vertex(3, 1).tangent == [0i32, 0i32, -1000i32, 1000i32]);
    assert(cube_corner_signs(3, 2) == (1int, 1int, -1int));
    assert(cube_vertex(3, 2).position == [500i32, 500i32, -500i32]);
    assert(cube_vertex(3, 2).normal == [1000i32, 0i32, 0i32]);
    assert(cube_vertex(3, 2).tangent == [0i32, 0i32, -1000i32, 1000i32]);
    assert(cube_corner_signs(3, 3) == (1int, 1int, 1int));
    assert(cube_vertex(3, 3).position == [500i32, 500i32, 500i32]);
    assert(cube_vertex(3, 3).normal == [1000i32, 0i32, 0i32]);
    assert(cube_vertex(3, 3).tangent == [0i32, 0i32, -1000i32, 1000i32]);
    assert(face_is_textured_square(3)) by (nonlinear_arith)
        requires
            cube_vertex(3, 0).position == [500i32, -500i32, 500i32],
            cube_vertex(3, 1).position == [500i32, -500i32, -500i32],
            cube_vertex(3, 2).position == [500i32, 500i32, -500i32],
            cube_vertex(3, 3).position == [500i32, 500i32, 500i32],
    ;
    assert(vertex_on_cube_with_tangent(3, 0)) by (nonlinear_arith)
        requires
            cube_vertex(3, 0).position == [500i32, -500i32, 500i32],
            cube_vertex(3, 0).normal == [1000i32, 0i32, 0i32],
            cube_vertex(3, 0).tangent == [0i32, 0i32, -1000i32, 1000i32],
    ;
    assert(vertex_on_cube_with_tangent(3, 1)) by (nonlinear_arith)
        requires
            cube_vertex(3, 1).position == [500i32, -500i32, -500i32],
            cube_vertex(3, 1).normal == [1000i32, 0i32, 0i32],
            cube_vertex(3, 1).tangent == [0i32, 0i32, -1000i32, 1000i32],
    ;
    assert(vertex_on_cube_with_tangent(3, 2)) by (nonlinear_arith)
        requires
            cube_vertex(3, 2).position == [500i32, 500i32, -500i32],
            cube_vertex(3, 2).normal == [1000i32, 0i32, 0i32],
            cube_vertex(3, 2).tangent == [0i32, 0i32, -1000i32, 1000i32],
    ;
    assert(vertex_on_cube_with_tangent(3, 3)) by (nonlinear_arith)
        requires
            cube_vertex(3, 3).position == [500i32, 500i32, 500i32],
            cube_vertex(3, 3).normal == [1000i32, 0i32, 0i32],
            cube_vertex(3, 3).tangent == [0i32, 0i32, -1000i32, 1000i32],
    ;
}

/// Face 4 of the cube is a textured square with tangents in the face.
proof fn lemma_face_4_square()
    ensures
        face_is_textured_square(4),
        vertex_on_cube_with_tangent(4, 0),
        vertex_on_cube_with_tangent(4, 1),
        vertex_on_cube_with_tangent(4, 2),
        vertex_on_cube_with_tangent(4, 3),
{
    assert(cube_corner_signs(4, 0) == (-1int, 1int, 1int));
    assert(cube_vertex(4, 0).position == [-500i32, 500i32, 500i32]);
    assert(cube_vertex(4, 0).normal == [0i32, 1000i32, 0i32]);
    assert(cube_vertex(4, 0).tangent == [1000i32, 0i32, 0i32, 1000i32]);
    assert(cube_corner_signs(4, 1) == (1int, 1int, 1int));
    assert(cube_vertex(4, 1).position == [500i32, 500i32, 500i32]);
    assert(cube_vertex(4, 1).normal == [0i32, 1000i32, 0i32]);
    assert(cube_vertex(4, 1).tangent == [1000i32, 0i32, 0i32, 1000i32]);
    assert(cube_corner_signs(4, 2) == (1int, 1int, -1int));
    assert(cube_vertex(4, 2).position == [500i32, 500i32, -500i32]);
    assert(cube_vertex(4, 2).normal == [0i32, 1000i32, 0i32]);
    assert(cube_vertex(4, 2).tangent == [1000i32, 0i32, 0i32, 1000i32]);
    assert(cube_corner_signs(4, 3) == (-1int, 1int, -1int));
    assert(cube_vertex(4, 3).position == [-500i32, 500i32, -500i32]);
    assert(cube_vertex(4, 3).normal == [0i32, 1000i32, 0i32]);
    assert(cube_vertex(4, 3).tangent == [1000i32, 0i32, 0i32, 1000i32]);
    assert(face_is_textured_square(4)) by (nonlinear_arith)
        requires
            cube_vertex(4, 0).position == [-500i32, 500i32, 500i32],
            cube_vertex(4, 1).position == [500i32, 500i32, 500i32],
            cube_vertex(4, 2).position == [500i32, 500i32, -500i32],
            cube_vertex(4, 3).position == [-500i32, 500i32, -500i32],
    ;
    assert(vertex_on_cube_with_tangent(4, 0)) by (nonlinear_arith)
        requires
            cube_vertex(4, 0).position == [-500i32, 500i32, 500i32],
            cube_vertex(4, 0).normal == [0i32, 1000i32, 0i32],
            cube_vertex(4, 0).tangent == [1000i32, 0i32, 0i32, 1000i32],
    ;
    assert(vertex_on_cube_with_tangent(4, 1)) by (nonlinear_arith)
        requires
            cube_vertex(4, 1).position == [500i32, 500i32, 500i32],
            cube_vertex(4, 1).normal == [0i32, 1000i32, 0i32],
            cube_vertex(4, 1).tangent == [1000i32, 0i32, 0i32, 1000i32],
    ;
    assert(vertex_on_cube_with_tangent(4, 2)) by (nonlinear_arith)
        requires
            cube_vertex(4, 2).position == [500i32, 500i32, -500i32],
            cube_vertex(4, 2).normal == [0i32, 1000i32, 0i32],
            cube_vertex(4, 2).tangent == [1000i32, 0i32, 0i32, 1000i32],
    ;
    assert(vertex_on_cube_with_tangent(4, 3)) by (nonlinear_arith)
        requires
            cube_vertex(4, 3).position == [-500i32, 500i32, -500i32],
            cube_vertex(4, 3).normal == [0i32, 1000i32, 0i32],
            cube_vertex(4, 3).tangent == [1000i32, 0i32, 0i32, 1000i32],
    ;
}

/// Face 5 of the cube is a textured square with tangents in the face.
proof fn lemma_face_5_square()
    ensures
        face_is_textured_square(5),
        vertex_on_cube_with_tangent(5, 0),
        vertex_on_cube_with_tangent(5, 1),
        vertex_on_cube_with_tangent(5, 2),
        vertex_on_cube_with_tangent(5, 3),
{
    assert(cube_corner_signs(5, 0) == (-1int, -1int, -1int));
    assert(cube_vertex(5, 0).position == [-500i32, -500i32, -500i32]);
    assert(cube_vertex(5, 0).normal == [0i32, -1000i32, 0i32]);
    assert(cube_vertex(5, 0).tangent == [1000i32, 0i32, 0i32, 1000i32]);
    assert(cube_corner_signs(5, 1) == (1int, -1int, -1int));
    assert(cube_vertex(5, 1).position == [500i32, -500i32, -500i32]);
    assert(cube_vertex(5, 1).normal == [0i32, -1000i32, 0i32]);
    assert(cube_vertex(5, 1).tangent == [1000i32, 0i32, 0i32, 1000i32]);
    assert(cube_corner_signs(5, 2) == (1int, -1int, 1int));
    assert(cube_vertex(5, 2).position == [500i32, -500i32, 500i32]);
    assert(cube_vertex(5, 2).normal == [0i32, -1000i32, 0i32]);
    assert(cube_vertex(5, 2).tangent == [1000i32, 0i32, 0i32, 1000i32]);
    assert(cube_corner_signs(5, 3) == (-1int, -1int, 1int));
    assert(cube_vertex(5, 3).position == [-500i32, -500i32, 500i32]);
    assert(cube_vertex(5, 3).normal == [0i32, -1000i32, 0i32]);
    assert(cube_vertex(5, 3).tangent == [1000i32, 0i32, 0i32, 1000i32]);
    assert(face_is_textured_square(5)) by (nonlinear_arith)
        requires
            cube_vertex(5, 0).position == [-500i32, -500i32, -500i32],
            cube_vertex(5, 1).position == [500i32, -500i32, -500i32],
            cube_vertex(5, 2).position == [500i32, -500i32, 500i32],
            cube_vertex(5, 3).position == [-500i32, -500i32, 500i32],
    ;
    assert(vertex_on_cube_with_tangent(5, 0)) by (nonlinear_arith)
        requires
            cube_vertex(5, 0).position == [-500i32, -500i32, -500i32],
            cube_vertex(5, 0).normal == [0i32, -1000i32, 0i32],
            cube_vertex(5, 0).tangent == [1000i32, 0i32, 0i32, 1000i32],
    ;
    assert(vertex_on_cube_with_tangent(5, 1)) by (nonlinear_arith)
        requires
            cube_vertex(5, 1).position == [500i32, -500i32, -500i32],
            cube_vertex(5, 1).normal == [0i32, -1000i32, 0i32],
            cube_vertex(5, 1).tangent == [1000i32, 0i32, 0i32, 1000i32],
    ;
    assert(vertex_on_cube_with_tangent(5, 2)) by (nonlinear_arith)
        requires
            cube_vertex(5, 2).position == [500i32, -500i32, 500i32],
            cube_vertex(5, 2).normal == [0i32, -1000i32, 0i32],
            cube_vertex(5, 2).tangent == [1000i32, 0i32, 0i32, 1000i32],
    ;
    assert(vertex_on_cube_with_tangent(5, 3)) by (nonlinear_arith)
        requires
            cube_vertex(5, 3).position == [-500i32, -500i32, 500i32],
            cube_vertex(5, 3).normal == [0i32, -1000i32, 0i32],
            cube_vertex(5, 3).tangent == [1000i32, 0i32, 0i32, 1000i32],
    ;
}

/// The cube is made of six textured squares on its surface: each face's
/// corners form a square of edge 1 whose corners are corners of the cube,
/// the texture square is laid on it from corner 0, and every tangent is a
/// unit vector in the face with bitangent sign +1.
pub proof fn law_cube_faces_are_textured_squares()
    ensures
        forall|f: int| 0 <= f < 6 ==> #[trigger] face_is_textured_square(f),
        forall|f: int, c: int| 0 <= f < 6 && 0 <= c < 4 ==> #[trigger] vertex_on_cube_with_tangent(f, c),
{
    lemma_face_0_square();
    lemma_face_1_square();
    lemma_face_2_square();
    lemma_face_3_square();
    lemma_face_4_square();
    lemma_face_5_square();
    assert forall|f: int| 0 <= f < 6 implies #[trigger] face_is_textured_square(f) by {
        assert(f == 0 || f == 1 || f == 2 || f == 3 || f == 4 || f == 5);
    }
    assert forall|f: int, c: int| 0 <= f < 6 && 0 <= c < 4 implies #[trigger] vertex_on_cube_with_tangent(f, c) by {
        assert(f == 0 || f == 1 || f == 2 || f == 3 || f == 4 || f == 5);
        assert(c == 0 || c == 1 || c == 2 || c == 3);
    }
}

} // verus!
