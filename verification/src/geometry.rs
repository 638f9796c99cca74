//! Index topology of the built-in meshes: the cube with a vertex of its own
//! for every face corner, and the edges of a grid of lines.
//!
//! Vertex positions are floating point and are computed by the caller; what
//! is decided here is which vertex every face corner or edge end refers to.

use vstd::prelude::*;

verus! {

/// The triangles of the cube over its 8 corners, two per side.
pub open spec fn cube_faces_spec() -> Seq<[u32; 3]> {
    seq![
        [2, 1, 0], [2, 0, 3], [4, 5, 6], [7, 4, 6], [5, 0, 1], [4, 0, 5],
        [7, 6, 3], [3, 6, 2], [3, 0, 4], [3, 4, 7], [6, 5, 1], [6, 1, 2],
    ]
}

/// Corner `i` of the cube of side 2 around the origin: the four corners of
/// the side `z = -1` counter-clockwise from `(-1, -1)`, then those of the
/// side `z = 1` in the same order.
pub open spec fn cube_corner(i: u32) -> (int, int, int) {
    let x: int = if i == 1 || i == 2 || i == 5 || i == 6 { 1 } else { -1 };
    let y: int = if i == 2 || i == 3 || i == 6 || i == 7 { 1 } else { -1 };
    let z: int = if i >= 4 { 1 } else { -1 };
    (x, y, z)
}

/// The scalar product of two vectors.
pub open spec fn dot3(n: (int, int, int), p: (int, int, int)) -> int {
    n.0 * p.0 + n.1 * p.1 + n.2 * p.2
}

/// The normal of a triangle of cube corners by its winding:
/// `(b - a) x (c - a)`.
pub open spec fn cube_face_normal(f: [u32; 3]) -> (int, int, int) {
    let (a, b, c) = (cube_corner(f[0]), cube_corner(f[1]), cube_corner(f[2]));
    let u = (b.0 - a.0, b.1 - a.1, b.2 - a.2);
    let v = (c.0 - a.0, c.1 - a.1, c.2 - a.2);
    (u.1 * v.2 - u.2 * v.1, u.2 * v.0 - u.0 * v.2, u.0 * v.1 - u.1 * v.0)
}

/// A triangle of cube corners lies in one side of the cube and is wound so
/// that its normal points out of the cube: all three corners have the same
/// coordinate along the normal, and it is on the side the normal points to.
pub open spec fn wound_outward(f: [u32; 3]) -> bool {
    let n = cube_face_normal(f);
    &&& f[0] < 8 && f[1] < 8 && f[2] < 8
    &&& dot3(n, cube_corner(f[0])) > 0
    &&& dot3(n, cube_corner(f[1])) == dot3(n, cube_corner(f[0]))
    &&& dot3(n, cube_corner(f[2])) == dot3(n, cube_corner(f[0]))
}

proof fn lemma_cube_face_normals()
    ensures
        cube_face_normal([2u32, 1, 0]) == (0int, 0int, -4int),
        cube_face_normal([2u32, 0, 3]) == (0int, 0int, -4int),
        cube_face_normal([4u32, 5, 6]) == (0int, 0int, 4int),
        cube_face_normal([7u32, 4, 6]) == (0int, 0int, 4int),
        cube_face_normal([5u32, 0, 1]) == (0int, -4int, 0int),
        cube_face_normal([4u32, 0, 5]) == (0int, -4int, 0int),
        cube_face_normal([7u32, 6, 3]) == (0int, 4int, 0int),
        cube_face_normal([3u32, 6, 2]) == (0int, 4int, 0int),
        cube_face_normal([3u32, 0, 4]) == (-4int, 0int, 0int),
        cube_face_normal([3u32, 4, 7]) == (-4int, 0int, 0int),
        cube_face_normal([6u32, 5, 1]) == (4int, 0int, 0int),
        cube_face_normal([6u32, 1, 2]) == (4int, 0int, 0int),
        wound_outward([2u32, 1, 0]),
        wound_outward([2u32, 0, 3]),
        wound_outward([4u32, 5, 6]),
        wound_outward([7u32, 4, 6]),
        wound_outward([5u32, 0, 1]),
        wound_outward([4u32, 0, 5]),
        wound_outward([7u32, 6, 3]),
        wound_outward([3u32, 6, 2]),
        wound_outward([3u32, 0, 4]),
        wound_outward([3u32, 4, 7]),
        wound_outward([6u32, 5, 1]),
        wound_outward([6u32, 1, 2]),
{
    assert(cube_face_normal([2u32, 1, 0]) == (0int, 0int, -4int)) by (nonlinear_arith);
    assert(wound_outward([2u32, 1, 0]));
    assert(cube_face_normal([2u32, 0, 3]) == (0int, 0int, -4int)) by (nonlinear_arith);
    assert(wound_outward([2u32, 0, 3]));
    assert(cube_face_normal([4u32, 5, 6]) == (0int, 0int, 4int)) by (nonlinear_arith);
    assert(wound_outward([4u32, 5, 6]));
    assert(cube_face_normal([7u32, 4, 6]) == (0int, 0int, 4int)) by (nonlinear_arith);
    assert(wound_outward([7u32, 4, 6]));
    assert(cube_face_normal([5u32, 0, 1]) == (0int, -4int, 0int)) by (nonlinear_arith);
    assert(wound_outward([5u32, 0, 1]));
    assert(cube_face_normal([4u32, 0, 5]) == (0int, -4int, 0int)) by (nonlinear_arith);
    assert(wound_outward([4u32, 0, 5]));
    assert(cube_face_normal([7u32, 6, 3]) == (0int, 4int, 0int)) by (nonlinear_arith);
    assert(wound_outward([7u32, 6, 3]));
    assert(cube_face_normal([3u32, 6, 2]) == (0int, 4int, 0int)) by (nonlinear_arith);
    assert(wound_outward([3u32, 6, 2]));
    assert(cube_face_normal([3u32, 0, 4]) == (-4int, 0int, 0int)) by (nonlinear_arith);
    assert(wound_outward([3u32, 0, 4]));
    assert(cube_face_normal([3u32, 4, 7]) == (-4int, 0int, 0int)) by (nonlinear_arith);
    assert(wound_outward([3u32, 4, 7]));
    assert(cube_face_normal([6u32, 5, 1]) == (4int, 0int, 0int)) by (nonlinear_arith);
    assert(wound_outward([6u32, 5, 1]));
    assert(cube_face_normal([6u32, 1, 2]) == (4int, 0int, 0int)) by (nonlinear_arith);
    assert(wound_outward([6u32, 1, 2]));
}

/// Every triangle of the cube lies in a side of the cube and is wound to
/// face out of it, and each of the six sides is covered by two of them.
pub proof fn law_cube_faces_face_outward()
    ensures
        cube_faces_spec().len() == 12,
        forall|i: int| 0 <= i < 12 ==> wound_outward(#[trigger] cube_faces_spec()[i]),
        forall|k: int|
            0 <= k < 6 ==> cube_face_normal(#[trigger] cube_faces_spec()[2 * k]) == cube_face_normal(
                cube_faces_spec()[2 * k + 1],
            ),
        cube_face_normal(cube_faces_spec()[0]) == (0int, 0int, -4int),
        cube_face_normal(cube_faces_spec()[2]) == (0int, 0int, 4int),
        cube_face_normal(cube_faces_spec()[4]) == (0int, -4int, 0int),
        cube_face_normal(cube_faces_spec()[6]) == (0int, 4int, 0int),
        cube_face_normal(cube_faces_spec()[8]) == (-4int, 0int, 0int),
        cube_face_normal(cube_faces_spec()[10]) == (4int, 0int, 0int),
{
    let f = cube_faces_spec();
    lemma_cube_face_normals();
    assert(f[0] == [2u32, 1, 0]);
    assert(f[1] == [2u32, 0, 3]);
    assert(f[2] == [4u32, 5, 6]);
    assert(f[3] == [7u32, 4, 6]);
    assert(f[4] == [5u32, 0, 1]);
    assert(f[5] == [4u32, 0, 5]);
    assert(f[6] == [7u32, 6, 3]);
    assert(f[7] == [3u32, 6, 2]);
    assert(f[8] == [3u32, 0, 4]);
    assert(f[9] == [3u32, 4, 7]);
    assert(f[10] == [6u32, 5, 1]);
    assert(f[11] == [6u32, 1, 2]);
    assert forall|i: int| 0 <= i < 12 implies wound_outward(#[trigger] f[i]) by {
        assert(0 <= i < 12);
    }
    assert forall|k: int| 0 <= k < 6 implies cube_face_normal(#[trigger] f[2 * k]) == cube_face_normal(f[2 * k + 1]) by {
        assert(0 <= k < 6);
    }
}

/// The triangles of the cube over its 8 corners, two per side.
pub fn cube_faces() -> (r: Vec<[u32; 3]>)
    ensures
        r@ == cube_faces_spec(),
        forall|i: int| 0 <= i < r@.len() ==> wound_outward(#[trigger] r@[i]),
{
    let r: Vec<[u32; 3]> = vec![
        [2, 1, 0], [2, 0, 3], [4, 5, 6], [7, 4, 6], [5, 0, 1], [4, 0, 5],
        [7, 6, 3], [3, 6, 2], [3, 0, 4], [3, 4, 7], [6, 5, 1], [6, 1, 2],
    ];
    proof {
        assert(r@ =~= cube_faces_spec());
        law_cube_faces_face_outward();
    }
    r
}

/// Gives every face corner a vertex of its own, so that each corner can
/// carry the normal of its face. For face `i` with corners `(a, b, c)` the new
/// vertices `3i`, `3i + 1`, `3i + 2` are copies of the old vertices `a`, `c`,
/// `b`, and the new face is `(3i + 2, 3i + 1, 3i)`. Returns, for each new
/// vertex, the old vertex it copies, and the new faces.
#[verifier::spinoff_prover]
pub fn duplicate_face_vertices(faces: &Vec<[u32; 3]>) -> (r: (Vec<u32>, Vec<[u32; 3]>))
    requires
        3 * faces@.len() <= u32::MAX,
    ensures
        r.0@.len() == 3 * faces@.len(),
        r.1@.len() == faces@.len(),
        forall|i: int|
            0 <= i < faces@.len() ==> {
                &&& r.0@[3 * i] == (#[trigger] faces@[i])[0]
                &&& r.0@[3 * i + 1] == faces@[i][2]
                &&& r.0@[3 * i + 2] == faces@[i][1]
                &&& r.1@[i][0] == 3 * i + 2
                &&& r.1@[i][1] == 3 * i + 1
                &&& r.1@[i][2] == 3 * i
            },
{
    let mut source: Vec<u32> = Vec::new();
    let mut new_faces: Vec<[u32; 3]> = Vec::new();
    let mut i: usize = 0;
    while i < faces.len()
        invariant
            i <= faces@.len(),
            3 * faces@.len() <= u32::MAX,
            source@.len() == 3 * i,
            new_faces@.len() == i,
            forall|k: int|
                0 <= k < i ==> {
                    &&& source@[3 * k] == (#[trigger] faces@[k])[0]
                    &&& source@[3 * k + 1] == faces@[k][2]
                    &&& source@[3 * k + 2] == faces@[k][1]
                    &&& new_faces@[k][0] == 3 * k + 2
                    &&& new_faces@[k][1] == 3 * k + 1
                    &&& new_faces@[k][2] == 3 * k
                },
        decreases faces@.len() - i,
    {
        let f = faces[i];
        source.push(f[0]);
        source.push(f[2]);
        source.push(f[1]);
        let v_size = source.len() as u32;
        new_faces.push([v_size - 1, v_size - 2, v_size - 3]);
        i = i + 1;
    }
    (source, new_faces)
}

/// The duplicated mesh draws the same triangles, wound the same way: each
/// new face, read through the vertices its corners copy, is the old face
/// turned by one corner.
pub proof fn law_duplicated_faces_are_the_same_triangles(faces: Seq<[u32; 3]>, source: Seq<u32>, new_faces: Seq<[u32; 3]>)
    requires
        source.len() == 3 * faces.len(),
        new_faces.len() == faces.len(),
        forall|i: int|
            0 <= i < faces.len() ==> {
                &&& source[3 * i] == (#[trigger] faces[i])[0]
                &&& source[3 * i + 1] == faces[i][2]
                &&& source[3 * i + 2] == faces[i][1]
                &&& new_faces[i][0] == 3 * i + 2
                &&& new_faces[i][1] == 3 * i + 1
                &&& new_faces[i][2] == 3 * i
            },
        3 * faces.len() <= u32::MAX,
    ensures
        forall|i: int|
            0 <= i < faces.len() ==> {
                &&& source[(#[trigger] new_faces[i])[0] as int] == faces[i][1]
                &&& source[new_faces[i][1] as int] == faces[i][2]
                &&& source[new_faces[i][2] as int] == faces[i][0]
            },
{
}


/// The two triangles of a plane over its 4 corners, listed
/// counter-clockwise.
pub open spec fn plane_faces_spec() -> Seq<[u32; 3]> {
    seq![[2, 1, 0], [3, 2, 0]]
}

/// The two triangles of a plane over its 4 corners, listed
/// counter-clockwise.
pub fn plane_faces() -> (r: Vec<[u32; 3]>)
    ensures
        r@ == plane_faces_spec(),
{
    let r: Vec<[u32; 3]> = vec![[2, 1, 0], [3, 2, 0]];
    proof {
        assert(r@ =~= plane_faces_spec());
    }
    r
}

/// Lines of a grid in one direction: at least two.
pub open spec fn grid_lines(n: u32) -> int {
    if n < 2 {
        2
    } else {
        n as int
    }
}

/// The vertex at row `y`, column `x` of a grid with `nx` vertices per row.
pub open spec fn grid_vertex(nx: int, y: int, x: int) -> int {
    y * nx + x
}

/// Where the edge from vertex `(y, x)` to its right neighbour is listed.
pub open spec fn h_slot(nx: int, y: int, x: int) -> int {
    y * (nx - 1) + x
}

/// Where the edge from vertex `(y, x)` to the one in the next row is listed:
/// after all edges along the rows.
pub open spec fn v_slot(nx: int, ny: int, y: int, x: int) -> int {
    ny * (nx - 1) + y * nx + x
}

/// `r` lists the edges of a grid of `nx` by `ny` vertices, vertex `(y, x)`
/// being number `y * nx + x`: first, row by row, each vertex joined to its
/// right neighbour, then each vertex but those of the last row joined to the
/// vertex below it.
pub open spec fn is_grid_edge_list(nx: int, ny: int, r: Seq<(u32, u32)>) -> bool {
    &&& r.len() == ny * (nx - 1) + (ny - 1) * nx
    &&& forall|y: int, x: int|
        0 <= y < ny && 0 <= x < nx - 1 ==> r[#[trigger] h_slot(nx, y, x)] == (
            grid_vertex(nx, y, x) as u32,
            (grid_vertex(nx, y, x) + 1) as u32,
        )
    &&& forall|y: int, x: int|
        0 <= y < ny - 1 && 0 <= x < nx ==> r[#[trigger] v_slot(nx, ny, y, x)] == (
            grid_vertex(nx, y, x) as u32,
            grid_vertex(nx, y + 1, x) as u32,
        )
}

proof fn lemma_mul_succ(a: int, b: int)
    ensures
        (a + 1) * b == a * b + b,
{
    assert((a + 1) * b == a * b + b) by (nonlinear_arith);
}

proof fn lemma_vertex_below(nx: int, ny: int, y: int, x: int)
    requires
        0 <= y < ny,
        0 <= x < nx,
    ensures
        0 <= y * nx + x < nx * ny,
{
    assert(0 <= y * nx + x < nx * ny) by (nonlinear_arith)
        requires
            0 <= y < ny,
            0 <= x < nx,
    ;
}

/// The edges of a grid of `nr_lines_x` by `nr_lines_y` vertices (each at
/// least two), vertex `(y, x)` being number `y * nx + x`: first, row by row,
/// each vertex joined to its right neighbour, then each vertex but those of
/// the last row joined to the vertex below it.
pub fn grid_edges(nr_lines_x: u32, nr_lines_y: u32) -> (r: Vec<(u32, u32)>)
    requires
        grid_lines(nr_lines_x) * grid_lines(nr_lines_y) <= u32::MAX + 1,
    ensures
        is_grid_edge_list(grid_lines(nr_lines_x), grid_lines(nr_lines_y), r@),
{
    let nx: u32 = if nr_lines_x < 2 { 2 } else { nr_lines_x };
    let ny: u32 = if nr_lines_y < 2 { 2 } else { nr_lines_y };
    let ghost gx = nx as int;
    let ghost gy = ny as int;
    let mut edges: Vec<(u32, u32)> = Vec::new();
    // along the rows
    let mut y: u32 = 0;
    while y < ny
        invariant
            gx == nx, gy == ny, 2 <= nx, 2 <= ny,
            nx * ny <= u32::MAX + 1,
            y <= ny,
            edges@.len() == y * (gx - 1),
            forall|yy: int, xx: int|
                0 <= yy < y && 0 <= xx < gx - 1 ==> edges@[#[trigger] h_slot(gx, yy, xx)] == (
                    grid_vertex(gx, yy, xx) as u32,
                    (grid_vertex(gx, yy, xx) + 1) as u32,
                ),
        decreases ny - y,
    {
        let mut x: u32 = 0;
        while x < nx - 1
            invariant
                gx == nx, gy == ny, 2 <= nx, 2 <= ny,
                nx * ny <= u32::MAX + 1,
                y < ny,
                x <= nx - 1,
                edges@.len() == y * (gx - 1) + x,
                forall|yy: int, xx: int|
                    (0 <= yy < y && 0 <= xx < gx - 1) || (yy == y && 0 <= xx < x) ==> edges@[#[trigger] h_slot(gx, yy, xx)] == (
                        grid_vertex(gx, yy, xx) as u32,
                        (grid_vertex(gx, yy, xx) + 1) as u32,
                    ),
            decreases nx - 1 - x,
        {
            proof {
                lemma_vertex_below(gx, gy, y as int, x as int + 1);
            }
            let idx_cur = y * nx + x;
            let idx_next = y * nx + x + 1;
            let ghost before = edges@;
            edges.push((idx_cur, idx_next));
            proof {
                assert forall|yy: int, xx: int|
                    (0 <= yy < y && 0 <= xx < gx - 1) || (yy == y && 0 <= xx < x + 1) implies edges@[#[trigger] h_slot(gx, yy, xx)] == (
                        grid_vertex(gx, yy, xx) as u32,
                        (grid_vertex(gx, yy, xx) + 1) as u32,
                    ) by {
                    if yy < y {
                        assert(h_slot(gx, yy, xx) < y * (gx - 1)) by (nonlinear_arith)
                            requires 0 <= yy < y, 0 <= xx < gx - 1;
                        assert(edges@[h_slot(gx, yy, xx)] == before[h_slot(gx, yy, xx)]);
                    } else if xx < x {
                        assert(edges@[h_slot(gx, yy, xx)] == before[h_slot(gx, yy, xx)]);
                    }
                }
            }
            x = x + 1;
        }
        proof {
            lemma_mul_succ(y as int, gx - 1);
        }
        y = y + 1;
    }
    let ghost hcount = gy * (gx - 1);
    // down the columns
    let mut y: u32 = 0;
    while y < ny - 1
        invariant
            gx == nx, gy == ny, 2 <= nx, 2 <= ny,
            nx * ny <= u32::MAX + 1,
            hcount == gy * (gx - 1),
            y <= ny - 1,
            edges@.len() == hcount + y * gx,
            forall|yy: int, xx: int|
                0 <= yy < gy && 0 <= xx < gx - 1 ==> edges@[#[trigger] h_slot(gx, yy, xx)] == (
                    grid_vertex(gx, yy, xx) as u32,
                    (grid_vertex(gx, yy, xx) + 1) as u32,
                ),
            forall|yy: int, xx: int|
                0 <= yy < y && 0 <= xx < gx ==> edges@[#[trigger] v_slot(gx, gy, yy, xx)] == (
                    grid_vertex(gx, yy, xx) as u32,
                    grid_vertex(gx, yy + 1, xx) as u32,
                ),
        decreases ny - 1 - y,
    {
        let mut x: u32 = 0;
        while x < nx
            invariant
                gx == nx, gy == ny, 2 <= nx, 2 <= ny,
                nx * ny <= u32::MAX + 1,
                hcount == gy * (gx - 1),
                y < ny - 1,
                x <= nx,
                edges@.len() == hcount + y * gx + x,
                forall|yy: int, xx: int|
                    0 <= yy < gy && 0 <= xx < gx - 1 ==> edges@[#[trigger] h_slot(gx, yy, xx)] == (
                        grid_vertex(gx, yy, xx) as u32,
                        (grid_vertex(gx, yy, xx) + 1) as u32,
                    ),
                forall|yy: int, xx: int|
                    (0 <= yy < y && 0 <= xx < gx) || (yy == y && 0 <= xx < x) ==> edges@[#[trigger] v_slot(gx, gy, yy, xx)] == (
                        grid_vertex(gx, yy, xx) as u32,
                        grid_vertex(gx, yy + 1, xx) as u32,
                    ),
            decreases nx - x,
        {
            proof {
                lemma_vertex_below(gx, gy, y as int + 1, x as int);
                lemma_mul_succ(y as int, gx);
            }
            let idx_cur = y * nx + x;
            let idx_next = (y + 1) * nx + x;
            let ghost before = edges@;
            edges.push((idx_cur, idx_next));
            proof {
                assert forall|yy: int, xx: int|
                    0 <= yy < gy && 0 <= xx < gx - 1 implies edges@[#[trigger] h_slot(gx, yy, xx)] == (
                        grid_vertex(gx, yy, xx) as u32,
                        (grid_vertex(gx, yy, xx) + 1) as u32,
                    ) by {
                    assert(h_slot(gx, yy, xx) < hcount) by (nonlinear_arith)
                        requires 0 <= yy < gy, 0 <= xx < gx - 1, hcount == gy * (gx - 1);
                    assert(edges@[h_slot(gx, yy, xx)] == before[h_slot(gx, yy, xx)]);
                }
                assert forall|yy: int, xx: int|
                    (0 <= yy < y && 0 <= xx < gx) || (yy == y && 0 <= xx < x + 1) implies edges@[#[trigger] v_slot(gx, gy, yy, xx)] == (
                        grid_vertex(gx, yy, xx) as u32,
                        grid_vertex(gx, yy + 1, xx) as u32,
                    ) by {
                    if yy < y {
                        assert(yy * gx + xx < y * gx) by (nonlinear_arith)
                            requires 0 <= yy < y, 0 <= xx < gx;
                        assert(edges@[v_slot(gx, gy, yy, xx)] == before[v_slot(gx, gy, yy, xx)]);
                    } else if xx < x {
                        assert(edges@[v_slot(gx, gy, yy, xx)] == before[v_slot(gx, gy, yy, xx)]);
                    } else {
                        assert(grid_vertex(gx, yy + 1, xx) == (y + 1) * gx + x);
                    }
                }
            }
            x = x + 1;
        }
        proof {
            lemma_mul_succ(y as int, gx);
        }
        y = y + 1;
    }
    proof {
        lemma_mul_succ(gy - 1, gx);
    }
    edges
}

/// An edge joins two vertices of an `nx` by `ny` grid that are neighbours:
/// the second is right of the first in the same row, or just below it.
pub open spec fn joins_grid_neighbours(nx: int, ny: int, e: (u32, u32)) -> bool {
    let (a, b) = (e.0 as int, e.1 as int);
    &&& a < nx * ny
    &&& b < nx * ny
    &&& (b == a + 1 && a % nx != nx - 1) || b == a + nx
}

/// Where an edge between grid neighbours is listed among the grid's edges.
spec fn slot_of_edge(nx: int, ny: int, e: (u32, u32)) -> int {
    let a = e.0 as int;
    if e.1 == a + 1 {
        h_slot(nx, a / nx, a % nx)
    } else {
        v_slot(nx, ny, a / nx, a % nx)
    }
}

proof fn lemma_grid_edge_at(nx: int, ny: int, r: Seq<(u32, u32)>, i: int)
    requires
        2 <= nx,
        2 <= ny,
        nx * ny <= u32::MAX + 1,
        is_grid_edge_list(nx, ny, r),
        0 <= i < r.len(),
    ensures
        joins_grid_neighbours(nx, ny, r[i]),
        slot_of_edge(nx, ny, r[i]) == i,
{
    let hcount = ny * (nx - 1);
    if i < hcount {
        let d = nx - 1;
        let y = i / d;
        let x = i % d;
        vstd::arithmetic::div_mod::lemma_fundamental_div_mod(i, d);
        vstd::arithmetic::div_mod::lemma_mod_pos_bound(i, d);
        assert(0 <= y < ny) by (nonlinear_arith)
            requires i == d * y + x, 0 <= x < d, 0 <= i < ny * d, 1 <= d;
        assert(h_slot(nx, y, x) == i) by (nonlinear_arith)
            requires i == d * y + x, d == nx - 1;
        let v = grid_vertex(nx, y, x);
        lemma_vertex_below(nx, ny, y, x + 1);
        assert(r[h_slot(nx, y, x)] == (v as u32, (v + 1) as u32));
        vstd::arithmetic::div_mod::lemma_fundamental_div_mod_converse(v, nx, y, x);
    } else {
        let k = i - hcount;
        let y = k / nx;
        let x = k % nx;
        vstd::arithmetic::div_mod::lemma_fundamental_div_mod(k, nx);
        vstd::arithmetic::div_mod::lemma_mod_pos_bound(k, nx);
        assert(0 <= y < ny - 1) by (nonlinear_arith)
            requires k == nx * y + x, 0 <= x < nx, 0 <= k < (ny - 1) * nx, 2 <= nx;
        assert(v_slot(nx, ny, y, x) == i) by (nonlinear_arith)
            requires k == nx * y + x, k == i - hcount, hcount == ny * (nx - 1);
        let v = grid_vertex(nx, y, x);
        lemma_vertex_below(nx, ny, y + 1, x);
        lemma_mul_succ(y, nx);
        assert(r[v_slot(nx, ny, y, x)] == (v as u32, grid_vertex(nx, y + 1, x) as u32));
        vstd::arithmetic::div_mod::lemma_fundamental_div_mod_converse(v, nx, y, x);
    }
}

/// The edges of a grid are pairwise distinct, and each joins two vertices
/// of the grid that are neighbours in a row or in a column.
pub proof fn law_grid_edges_are_distinct_neighbours(nx: int, ny: int, r: Seq<(u32, u32)>)
    requires
        2 <= nx,
        2 <= ny,
        nx * ny <= u32::MAX + 1,
        is_grid_edge_list(nx, ny, r),
    ensures
        forall|i: int| 0 <= i < r.len() ==> joins_grid_neighbours(nx, ny, #[trigger] r[i]),
        forall|i: int, j: int| 0 <= i < j < r.len() ==> #[trigger] r[i] != #[trigger] r[j],
{
    assert forall|i: int| 0 <= i < r.len() implies joins_grid_neighbours(nx, ny, #[trigger] r[i]) by {
        lemma_grid_edge_at(nx, ny, r, i);
    }
    assert forall|i: int, j: int| 0 <= i < j < r.len() implies #[trigger] r[i] != #[trigger] r[j] by {
        lemma_grid_edge_at(nx, ny, r, i);
        lemma_grid_edge_at(nx, ny, r, j);
    }
}


/// Position of entry `(i, j)` of a matrix with `ncols` columns stored row by
/// row.
pub open spec fn cell(ncols: int, i: int, j: int) -> int {
    i * ncols + j
}

/// The end of an edge that `col_id` picks: 0 the first, 1 the second.
pub open spec fn edge_end(e: (u32, u32), col_id: usize) -> u32 {
    if col_id == 0 {
        e.0
    } else {
        e.1
    }
}

proof fn lemma_cell_bounds(ncols: int, nrows: int, i: int, j: int)
    requires
        0 < ncols,
        0 <= i < nrows,
        0 <= j < ncols,
    ensures
        0 <= cell(ncols, i, j) < nrows * ncols,
        cell(ncols, i, j) < cell(ncols, i + 1, 0),
        cell(ncols, i + 1, 0) == cell(ncols, i, ncols),
{
    assert(0 <= i * ncols + j < nrows * ncols) by (nonlinear_arith)
        requires 0 < ncols, 0 <= i < nrows, 0 <= j < ncols;
    assert((i + 1) * ncols == i * ncols + ncols) by (nonlinear_arith);
}

/// For each edge, the row of `verts` (a matrix of `ncols` columns, stored row
/// by row) at the edge's end picked by `col_id`: the positions of the first
/// (0) or second (1) vertex of every edge, as a matrix with one row per edge.
/// Rows of no columns give nothing.
pub fn index_vertices_from_edges<T: Copy>(verts: &Vec<T>, ncols: usize, edges: &Vec<(u32, u32)>, col_id: usize) -> (r: Vec<T>)
    requires
        col_id < 2,
        0 < ncols ==> (verts@.len() as int) % (ncols as int) == 0,
        edges@.len() * ncols <= usize::MAX,
        0 < ncols ==> forall|i: int|
            0 <= i < edges@.len() ==> (edge_end(#[trigger] edges@[i], col_id) as int) < (verts@.len() as int) / (ncols as int),
    ensures
        r@.len() == edges@.len() * ncols,
        forall|i: int, j: int|
            0 <= i < edges@.len() && 0 <= j < ncols ==> r@[#[trigger] cell(ncols as int, i, j)] == verts@[cell(
                ncols as int,
                edge_end(edges@[i], col_id) as int,
                j,
            )],
{
    if ncols == 0 {
        return Vec::new();
    }
    let ghost nrows = (verts@.len() as int) / (ncols as int);
    proof {
        assert(verts@.len() == nrows * ncols) by (nonlinear_arith)
            requires (verts@.len() as int) % (ncols as int) == 0, 0 < ncols, nrows == (verts@.len() as int) / (ncols as int);
    }
    let mut out: Vec<T> = Vec::new();
    let mut i: usize = 0;
    while i < edges.len()
        invariant
            col_id < 2,
            0 < ncols,
            verts@.len() == nrows * ncols,
            edges@.len() * ncols <= usize::MAX,
            forall|k: int| 0 <= k < edges@.len() ==> (edge_end(#[trigger] edges@[k], col_id) as int) < nrows,
            i <= edges@.len(),
            out@.len() == i * ncols,
            forall|a: int, b: int|
                0 <= a < i && 0 <= b < ncols ==> out@[#[trigger] cell(ncols as int, a, b)] == verts@[cell(
                    ncols as int,
                    edge_end(edges@[a], col_id) as int,
                    b,
                )],
        decreases edges@.len() - i,
    {
        let e = edges[i];
        let row: usize = if col_id == 0 { e.0 as usize } else { e.1 as usize };
        assert(row as int == edge_end(edges@[i as int], col_id));
        let mut j: usize = 0;
        while j < ncols
            invariant
                0 < ncols,
                verts@.len() == nrows * ncols,
                edges@.len() * ncols <= usize::MAX,
                i < edges@.len(),
                row < nrows,
                row as int == edge_end(edges@[i as int], col_id),
                j <= ncols,
                out@.len() == i * ncols + j,
                forall|a: int, b: int|
                    (0 <= a < i && 0 <= b < ncols) || (a == i && 0 <= b < j) ==> out@[#[trigger] cell(ncols as int, a, b)] == verts@[cell(
                        ncols as int,
                        edge_end(edges@[a], col_id) as int,
                        b,
                    )],
            decreases ncols - j,
        {
            proof {
                lemma_cell_bounds(ncols as int, nrows, row as int, j as int);
                lemma_cell_bounds(ncols as int, edges@.len() as int, i as int, j as int);
                assert(row * ncols + j == cell(ncols as int, row as int, j as int));
                assert(verts@.len() == verts.len());
                assert(row * ncols <= usize::MAX);
            }
            let v = verts[row * ncols + j];
            let ghost before = out@;
            out.push(v);
            proof {
                assert forall|a: int, b: int|
                    (0 <= a < i && 0 <= b < ncols) || (a == i && 0 <= b < j + 1) implies out@[#[trigger] cell(ncols as int, a, b)] == verts@[cell(
                        ncols as int,
                        edge_end(edges@[a], col_id) as int,
                        b,
                    )] by {
                    if a < i {
                        lemma_cell_bounds(ncols as int, i as int, a, b);
                        assert(cell(ncols as int, a, b) < i * ncols) by (nonlinear_arith)
                            requires cell(ncols as int, a, b) < cell(ncols as int, a + 1, 0), a + 1 <= i, 0 < ncols,
                                cell(ncols as int, a + 1, 0) == (a + 1) * ncols;
                        assert(out@[cell(ncols as int, a, b)] == before[cell(ncols as int, a, b)]);
                    } else if b < j {
                        assert(out@[cell(ncols as int, a, b)] == before[cell(ncols as int, a, b)]);
                    }
                }
            }
            j = j + 1;
        }
        proof {
            lemma_cell_bounds(ncols as int, edges@.len() as int, i as int, 0);
        }
        i = i + 1;
    }
    out
}

} // verus!
