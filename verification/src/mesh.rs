//! Meshes: vertex and index buffers, and the index patterns of the
//! generated cube, quad, sphere and capsule meshes.
use vstd::prelude::*;

verus! {

/// A mesh: vertices of type `V` and 16-bit triangle indices into them.
pub struct Mesh<V> {
    pub vertices: Vec<V>,
    pub indices: Vec<u16>,
}

impl<V> Mesh<V> {
    pub fn new(vertices: Vec<V>, indices: Vec<u16>) -> (m: Self)
        ensures
            m.vertices@ == vertices@,
            m.indices@ == indices@,
    {
        Self { vertices, indices }
    }
}

/// The player's capsule ("pill") mesh.
pub struct PlayerMesh;

/// The sun's sphere mesh.
pub struct SunMesh;

/// How the two triangles of a grid cell are wound.
#[derive(Clone, Copy, PartialEq, Eq, Structural)]
pub enum Winding {
    /// `c, n, c+1` and `n, n+1, c+1` (sphere and sun).
    Sphere,
    /// `c, n, c+1` and `c+1, n, n+1` (capsule top hemisphere).
    CapsuleTop,
    /// `c, c+1, n` and `c+1, n+1, n` (capsule cylinder).
    CapsuleSide,
    /// `n, c, c+1` and `n, c+1, n+1` (capsule bottom hemisphere).
    CapsuleBottom,
}

/// Corner `t` (0..6) of the two triangles of the cell whose first vertex is
/// `c`, where `n = c + row` is the vertex below it.
pub open spec fn corner(w: Winding, c: int, row: int, t: int) -> int {
    let n = c + row;
    let corners = match w {
        Winding::Sphere => seq![c, n, c + 1, n, n + 1, c + 1],
        Winding::CapsuleTop => seq![c, n, c + 1, c + 1, n, n + 1],
        Winding::CapsuleSide => seq![c, c + 1, n, c + 1, n + 1, n],
        Winding::CapsuleBottom => seq![n, c, c + 1, n, c + 1, n + 1],
    };
    corners[t]
}

/// Entry `t` of cell `(i, j)` in a buffer of six indices per cell, `cols`
/// cells per row, starting at position `base`.
pub open spec fn cell_entry(s: Seq<u16>, base: int, cols: int, i: int, j: int, t: int) -> u16 {
    s[base + 6 * (i * cols + j) + t]
}

proof fn lemma_cell_offsets(i: int, j: int, cols: int, t: int)
    requires
        0 <= j < cols,
        0 <= i,
        0 <= t < 6,
    ensures
        6 * (i * cols + j) + t < 6 * (i * cols + j + 1),
        i * cols + j + 1 <= (i + 1) * cols,
        (i + 1) * cols == i * cols + cols,
{
    assert((i + 1) * cols == i * cols + cols) by (nonlinear_arith);
}

/// Appends the triangles of a grid of `rows x cols` cells over a vertex grid
/// of `cols + 1` vertices per row whose first vertex is `first_vertex`.
fn push_cells(indices: &mut Vec<u16>, rows: u32, cols: u32, first_vertex: u16, w: Winding)
    requires
        cols > 0,
        first_vertex + (rows + 1) * (cols + 1) <= 65536,
    ensures
        final(indices)@.len() == old(indices)@.len() + 6 * (rows * cols),
        final(indices)@.subrange(0, old(indices)@.len() as int) == old(indices)@,
        forall|i: int, j: int, t: int|
            0 <= i < rows && 0 <= j < cols && 0 <= t < 6 ==> #[trigger] cell_entry(
                final(indices)@,
                old(indices)@.len() as int,
                cols as int,
                i,
                j,
                t,
            ) == corner(w, first_vertex + i * (cols + 1) + j, cols + 1, t),
{
    let ghost start = indices@.len() as int;
    let mut i: u32 = 0;
    while i < rows
        invariant
            cols > 0,
            first_vertex + (rows + 1) * (cols + 1) <= 65536,
            i <= rows,
            start == old(indices)@.len(),
            indices@.len() == start + 6 * (i * cols),
            indices@.subrange(0, start) == old(indices)@,
            forall|a: int, b: int, t: int|
                0 <= a < i && 0 <= b < cols && 0 <= t < 6 ==> #[trigger] cell_entry(
                    indices@,
                    start,
                    cols as int,
                    a,
                    b,
                    t,
                ) == corner(w, first_vertex + a * (cols + 1) + b, cols + 1, t),
        decreases rows - i,
    {
        let mut j: u32 = 0;
        while j < cols
            invariant
                cols > 0,
                first_vertex + (rows + 1) * (cols + 1) <= 65536,
                i < rows,
                j <= cols,
                start == old(indices)@.len(),
                indices@.len() == start + 6 * (i * cols + j),
                indices@.subrange(0, start) == old(indices)@,
                forall|a: int, b: int, t: int|
                    0 <= a < i && 0 <= b < cols && 0 <= t < 6 ==> #[trigger] cell_entry(
                        indices@,
                        start,
                        cols as int,
                        a,
                        b,
                        t,
                    ) == corner(w, first_vertex + a * (cols + 1) + b, cols + 1, t),
                forall|b: int, t: int|
                    0 <= b < j && 0 <= t < 6 ==> #[trigger] cell_entry(
                        indices@,
                        start,
                        cols as int,
                        i as int,
                        b,
                        t,
                    ) == corner(w, first_vertex + i * (cols + 1) + b, cols + 1, t),
            decreases cols - j,
        {
            proof {
                assert((i + 1) * (cols + 1) <= rows * (cols + 1)) by (nonlinear_arith)
                    requires i + 1 <= rows, cols >= 0;
                assert(rows * (cols + 1) + cols + 1 == (rows + 1) * (cols + 1)) by (nonlinear_arith);
                assert((i + 1) * (cols + 1) == i * (cols + 1) + cols + 1) by (nonlinear_arith);
            }
            let current = first_vertex + (i * (cols + 1) + j) as u16;
            let next = current + (cols + 1) as u16;
            let ghost old_idx = indices@;
            let ghost base = indices@.len();
            assert(current as int == first_vertex + i * (cols + 1) + j);
            assert(next as int == current + cols + 1);
            match w {
                Winding::Sphere => {
                    indices.push(current);
                    indices.push(next);
                    indices.push(current + 1);
                    indices.push(next);
                    indices.push(next + 1);
                    indices.push(current + 1);
                },
                Winding::CapsuleTop => {
                    indices.push(current);
                    indices.push(next);
                    indices.push(current + 1);
                    indices.push(current + 1);
                    indices.push(next);
                    indices.push(next + 1);
                },
                Winding::CapsuleSide => {
                    indices.push(current);
                    indices.push(current + 1);
                    indices.push(next);
                    indices.push(current + 1);
                    indices.push(next + 1);
                    indices.push(next);
                },
                Winding::CapsuleBottom => {
                    indices.push(next);
                    indices.push(current);
                    indices.push(current + 1);
                    indices.push(next);
                    indices.push(current + 1);
                    indices.push(next + 1);
                },
            }
            proof {
                assert(indices@.subrange(0, start) =~= old_idx.subrange(0, start));
                lemma_cell_offsets(i as int, j as int, cols as int, 0);
                assert forall|a: int, b: int, t: int|
                    0 <= a < i && 0 <= b < cols && 0 <= t < 6 implies #[trigger] cell_entry(
                        indices@,
                        start,
                        cols as int,
                        a,
                        b,
                        t,
                    ) == corner(w, first_vertex + a * (cols + 1) + b, cols + 1, t) by {
                    lemma_cell_offsets(a, b, cols as int, t);
                    assert((a + 1) * cols <= i * cols) by (nonlinear_arith)
                        requires a + 1 <= i, cols >= 0;
                    assert(cell_entry(old_idx, start, cols as int, a, b, t) == corner(
                        w,
                        first_vertex + a * (cols + 1) + b,
                        cols + 1,
                        t,
                    ));
                }
                assert forall|b: int, t: int|
                    0 <= b < j + 1 && 0 <= t < 6 implies #[trigger] cell_entry(
                        indices@,
                        start,
                        cols as int,
                        i as int,
                        b,
                        t,
                    ) == corner(w, first_vertex + i * (cols + 1) + b, cols + 1, t) by {
                    lemma_cell_offsets(i as int, b, cols as int, t);
                    if b < j {
                        assert(cell_entry(old_idx, start, cols as int, i as int, b, t) == corner(
                            w,
                            first_vertex + i * (cols + 1) + b,
                            cols + 1,
                            t,
                        ));
                    } else {
                        assert(start + 6 * (i * cols + b) + t == base + t);
                    }
                }
            }
            j = j + 1;
        }
        proof {
            assert(i * cols + cols == (i + 1) * cols) by (nonlinear_arith);
        }
        i = i + 1;
    }
}

/// Indices of a latitude/longitude sphere of `stacks` rows and `slices`
/// columns of cells over a `(stacks + 1) x (slices + 1)` vertex grid: six
/// per cell, cells in row order (the index pattern of `Mesh::sphere` and
/// `SunMesh::sun`).
pub fn sphere_indices(stacks: u32, slices: u32) -> (r: Vec<u16>)
    requires
        stacks == 0 || slices == 0 || (stacks + 1) * (slices + 1) <= 65536,
    ensures
        r@.len() == 6 * stacks * slices,
        forall|i: int, j: int, t: int|
            0 <= i < stacks && 0 <= j < slices && 0 <= t < 6 ==> #[trigger] cell_entry(
                r@,
                0,
                slices as int,
                i,
                j,
                t,
            ) == corner(Winding::Sphere, i * (slices + 1) + j, slices + 1, t),
{
    let mut indices: Vec<u16> = Vec::new();
    if stacks == 0 || slices == 0 {
        assert(6 * stacks * slices == 0) by (nonlinear_arith)
            requires stacks == 0 || slices == 0;
        return indices;
    }
    push_cells(&mut indices, stacks, slices, 0, Winding::Sphere);
    assert(6 * (stacks * slices) == 6 * stacks * slices) by (nonlinear_arith);
    indices
}

/// Indices of the capsule mesh of `PlayerMesh::capsule` with `segments`
/// cells around and `rings` rows per hemisphere: first the top hemisphere
/// (cell rows `0 .. rings`), then the cylinder (cell row `rings`), then the
/// bottom hemisphere (cell rows `rings + 1 .. 2 * rings + 1`). The vertex
/// grid holds `(rings + 1) * (segments + 1)` top vertices, then two rows of
/// `segments + 1` cylinder vertices, then the bottom vertices.
pub fn capsule_indices(segments: u32, rings: u32) -> (r: Vec<u16>)
    requires
        segments == 0 || 2 * (rings + 1) * (segments + 1) + 2 * (segments + 1) <= 65536,
    ensures
        r@.len() == 6 * (2 * rings + 1) * segments,
        forall|i: int, j: int, t: int|
            0 <= i < rings && 0 <= j < segments && 0 <= t < 6 ==> #[trigger] cell_entry(
                r@,
                0,
                segments as int,
                i,
                j,
                t,
            ) == corner(Winding::CapsuleTop, i * (segments + 1) + j, segments + 1, t),
        forall|j: int, t: int|
            0 <= j < segments && 0 <= t < 6 ==> #[trigger] cell_entry(
                r@,
                0,
                segments as int,
                rings as int,
                j,
                t,
            ) == corner(
                Winding::CapsuleSide,
                (rings + 1) * (segments + 1) + j,
                segments + 1,
                t,
            ),
        forall|i: int, j: int, t: int|
            0 <= i < rings && 0 <= j < segments && 0 <= t < 6 ==> #[trigger] cell_entry(
                r@,
                0,
                segments as int,
                rings + 1 + i,
                j,
                t,
            ) == corner(
                Winding::CapsuleBottom,
                (rings + 1) * (segments + 1) + 2 * (segments + 1) + i * (segments + 1) + j,
                segments + 1,
                t,
            ),
{
    let mut indices: Vec<u16> = Vec::new();
    if segments == 0 {
        assert(6 * (2 * rings + 1) * segments == 0) by (nonlinear_arith)
            requires segments == 0;
        return indices;
    }
    proof {
        let r1 = rings + 1;
        let s1 = segments + 1;
        assert(r1 * s1 <= 32768 - s1) by (nonlinear_arith)
            requires 2 * r1 * s1 + 2 * s1 <= 65536;
        assert(r1 <= r1 * s1 && s1 <= r1 * s1) by (nonlinear_arith)
            requires r1 >= 1, s1 >= 1;
    }
    let top_vertices = (rings + 1) * (segments + 1);
    let cylinder_start = top_vertices as u16;
    let bottom_start = cylinder_start + (2 * (segments + 1)) as u16;
    push_cells(&mut indices, rings, segments, 0, Winding::CapsuleTop);
    let ghost after_top = indices@;
    push_cells(&mut indices, 1, segments, cylinder_start, Winding::CapsuleSide);
    let ghost after_side = indices@;
    push_cells(&mut indices, rings, segments, bottom_start, Winding::CapsuleBottom);
    proof {
        let s = segments as int;
        let r = rings as int;
        assert(6 * (r * s) + 6 * (1 * s) + 6 * (r * s) == 6 * (2 * r + 1) * s) by (nonlinear_arith);
        assert forall|i: int, j: int, t: int|
            0 <= i < rings && 0 <= j < segments && 0 <= t < 6 implies #[trigger] cell_entry(
                indices@,
                0,
                s,
                i,
                j,
                t,
            ) == corner(Winding::CapsuleTop, i * (segments + 1) + j, segments + 1, t) by {
            lemma_cell_offsets(i, j, s, t);
            assert((i + 1) * s <= r * s) by (nonlinear_arith)
                requires i + 1 <= r, s >= 0;
            assert(cell_entry(after_top, 0, s, i, j, t) == corner(
                Winding::CapsuleTop,
                0 + i * (segments + 1) + j,
                segments + 1,
                t,
            ));
            assert(after_side.subrange(0, after_top.len() as int)[6 * (i * s + j) + t] == after_top[6 * (i * s + j) + t]);
            assert(indices@.subrange(0, after_side.len() as int)[6 * (i * s + j) + t] == after_side[6 * (i * s + j) + t]);
        }
        assert forall|j: int, t: int|
            0 <= j < segments && 0 <= t < 6 implies #[trigger] cell_entry(
                indices@,
                0,
                s,
                r,
                j,
                t,
            ) == corner(Winding::CapsuleSide, (rings + 1) * (segments + 1) + j, segments + 1, t) by {
            lemma_cell_offsets(0, j, s, t);
            assert(cell_entry(after_side, 6 * (r * s), s, 0, j, t) == corner(
                Winding::CapsuleSide,
                cylinder_start + 0 * (segments + 1) + j,
                segments + 1,
                t,
            ));
            assert(6 * (r * s) + 6 * (0 * s + j) + t == 6 * (r * s + j) + t);
            assert(indices@.subrange(0, after_side.len() as int)[6 * (r * s + j) + t] == after_side[6 * (r * s + j) + t]);
        }
        assert forall|i: int, j: int, t: int|
            0 <= i < rings && 0 <= j < segments && 0 <= t < 6 implies #[trigger] cell_entry(
                indices@,
                0,
                s,
                r + 1 + i,
                j,
                t,
            ) == corner(
                Winding::CapsuleBottom,
                (rings + 1) * (segments + 1) + 2 * (segments + 1) + i * (segments + 1) + j,
                segments + 1,
                t,
            ) by {
            assert(cell_entry(indices@, 6 * (r * s) + 6 * (1 * s), s, i, j, t) == corner(
                Winding::CapsuleBottom,
                bottom_start + i * (segments + 1) + j,
                segments + 1,
                t,
            ));
            assert(6 * (r * s) + 6 * (1 * s) + 6 * (i * s + j) + t == 6 * ((r + 1 + i) * s + j) + t) by (nonlinear_arith);
        }
    }
    indices
}

/// Every corner of a cell of a grid with `rows x cols` cells whose first
/// vertex is `first` names a vertex of that grid: `first` up to, but not
/// including, `first + (rows + 1) * (cols + 1)`.
pub proof fn law_grid_corners_in_range(w: Winding, first: int, rows: int, cols: int, i: int, j: int, t: int)
    requires
        0 <= first,
        0 <= i < rows,
        0 <= j < cols,
        0 <= t < 6,
    ensures
        first <= corner(w, first + i * (cols + 1) + j, cols + 1, t) < first + (rows + 1) * (cols + 1),
{
    assert(0 <= i * (cols + 1)) by (nonlinear_arith)
        requires i >= 0, cols >= 0;
    assert(i * (cols + 1) + (cols + 1) <= rows * (cols + 1)) by (nonlinear_arith)
        requires i + 1 <= rows, cols >= 0;
    assert(rows * (cols + 1) + (cols + 1) == (rows + 1) * (cols + 1)) by (nonlinear_arith);
}

/// Entry `t` of the two triangles `b, b+1, b+2` and `b, b+2, b+3` that
/// cover a quad whose four corners are numbered from `b` on.
pub open spec fn fan_entry(b: int, t: int) -> int {
    if t == 0 || t == 3 {
        b
    } else if t == 1 {
        b + 1
    } else if t == 2 || t == 4 {
        b + 2
    } else {
        b + 3
    }
}

/// Entry `t` of the triangles of face `f` in an index list with six
/// entries per face.
pub open spec fn face_entry(r: Seq<u16>, f: int, t: int) -> int {
    r[6 * f + t] as int
}

/// The indices of `Mesh::quad`: one quad over four vertices, as two
/// triangles.
pub fn quad_indices() -> (r: Vec<u16>)
    ensures
        r@.len() == 6,
        forall|t: int| 0 <= t < 6 ==> #[trigger] face_entry(r@, 0, t) == fan_entry(0, t),
{
    let r: Vec<u16> = vec![0, 1, 2, 0, 2, 3];
    r
}

/// The indices of `Mesh::cube`: six faces of four vertices each, face `f`
/// using vertices `4f .. 4f + 3`, two triangles per face.
pub fn cube_indices() -> (r: Vec<u16>)
    ensures
        r@.len() == 36,
        forall|f: int, t: int| 0 <= f < 6 && 0 <= t < 6 ==> #[trigger] face_entry(r@, f, t) == fan_entry(4 * f, t),
{
    let mut r: Vec<u16> = Vec::new();
    let mut f: u16 = 0;
    while f < 6
        invariant
            f <= 6,
            r@.len() == 6 * f,
            forall|g: int, t: int| 0 <= g < f && 0 <= t < 6 ==> #[trigger] face_entry(r@, g, t) == fan_entry(4 * g, t),
        decreases 6 - f,
    {
        let b: u16 = 4 * f;
        let ghost before = r@;
        r.push(b);
        r.push(b + 1);
        r.push(b + 2);
        r.push(b);
        r.push(b + 2);
        r.push(b + 3);
        proof {
            assert forall|g: int, t: int| 0 <= g <= f && 0 <= t < 6 implies #[trigger] face_entry(r@, g, t) == fan_entry(4 * g, t) by {
                if g < f {
                    assert(6 * g + t < 6 * f) by (nonlinear_arith)
                        requires g < f, t < 6;
                    assert(r@[6 * g + t] == before[6 * g + t]);
                    assert(face_entry(before, g, t) == fan_entry(4 * g, t));
                } else {
                    assert(6 * g + t == 6 * f + t);
                }
            }
        }
        f = f + 1;
    }
    r
}

/// Every cell of a grid is wound the same way: the corners of a cell are
/// its first vertex plus offsets that depend only on the winding, the row
/// length and the corner, never on where the cell lies. For the sphere the
/// two triangles of the cell at `c` are `c, c + row, c + 1` and
/// `c + row, c + row + 1, c + 1`.
pub proof fn law_cells_share_winding(w: Winding, c1: int, c2: int, row: int, t: int)
    requires
        0 <= t < 6,
    ensures
        corner(w, c1, row, t) - c1 == corner(w, c2, row, t) - c2,
        corner(Winding::Sphere, c1, row, 0) == c1,
        corner(Winding::Sphere, c1, row, 1) == c1 + row,
        corner(Winding::Sphere, c1, row, 2) == c1 + 1,
        corner(Winding::Sphere, c1, row, 3) == c1 + row,
        corner(Winding::Sphere, c1, row, 4) == c1 + row + 1,
        corner(Winding::Sphere, c1, row, 5) == c1 + 1,
{
}

/// A quad's two triangles use exactly its four corners `b .. b + 3`, share
/// the diagonal from `b` to `b + 2`, and both start at `b`, so every face
/// of the cube and the particle quad is wound the same way.
pub proof fn law_quad_fan(b: int, t: int)
    requires
        0 <= t < 6,
    ensures
        b <= fan_entry(b, t) <= b + 3,
        fan_entry(b, 0) == b && fan_entry(b, 3) == b,
        fan_entry(b, 2) == b + 2 && fan_entry(b, 4) == b + 2,
        fan_entry(b, 1) == b + 1 && fan_entry(b, 5) == b + 3,
        fan_entry(b, t) - b == fan_entry(0, t),
{
}

} // verus!
