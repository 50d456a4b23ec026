//! The triangles and lines that obstacles are drawn with, as numbered points of their surface.

use vstd::prelude::*;

verus! {

// ---------------------------------------------------------------------------
// Boxes
// ---------------------------------------------------------------------------

/// On which side of the centre a corner of a box is, along each axis: corners 0 to 3 go round the
/// bottom and 4 to 7 round the top.
pub open spec fn corner_side(corner: int, axis: int) -> bool {
    if axis == 0 {
        corner % 4 == 1 || corner % 4 == 2
    } else if axis == 1 {
        corner % 4 >= 2
    } else {
        corner >= 4
    }
}

/// The corners of a box: for each axis whether it is on the positive side.
pub fn box_corners() -> (corners: [[bool; 3]; 8])
    ensures
        forall|c: int, axis: int|
            0 <= c < 8 && 0 <= axis < 3 ==> #[trigger] corners[c][axis] == corner_side(c, axis),
{
    let corners = [
        [false, false, false],
        [true, false, false],
        [true, true, false],
        [false, true, false],
        [false, false, true],
        [true, false, true],
        [true, true, true],
        [false, true, true],
    ];
    assert forall|c: int, axis: int| 0 <= c < 8 && 0 <= axis < 3 implies #[trigger] corners[c][axis]
        == corner_side(c, axis) by {
        assert(c == 0 || c == 1 || c == 2 || c == 3 || c == 4 || c == 5 || c == 6 || c == 7);
        assert(axis == 0 || axis == 1 || axis == 2);
    }
    corners
}

/// The corners of a face of a box: bottom, top, front, back, left and right, each going round.
pub open spec fn face_corner(face: int, k: int) -> usize {
    if face == 0 {
        if k == 0 { 0 } else if k == 1 { 1 } else if k == 2 { 2 } else { 3 }
    } else if face == 1 {
        if k == 0 { 4 } else if k == 1 { 7 } else if k == 2 { 6 } else { 5 }
    } else if face == 2 {
        if k == 0 { 0 } else if k == 1 { 4 } else if k == 2 { 5 } else { 1 }
    } else if face == 3 {
        if k == 0 { 2 } else if k == 1 { 6 } else if k == 2 { 7 } else { 3 }
    } else if face == 4 {
        if k == 0 { 0 } else if k == 1 { 3 } else if k == 2 { 7 } else { 4 }
    } else {
        if k == 0 { 1 } else if k == 1 { 5 } else if k == 2 { 6 } else { 2 }
    }
}

/// Which corner of its face a point of its two triangles is.
pub open spec fn triangle_corner(k: int) -> int {
    if k < 3 {
        k
    } else if k == 3 {
        0
    } else {
        k - 2
    }
}

/// The triangles of a box, three corners each: two for each face.
pub open spec fn box_mesh() -> Seq<usize> {
    Seq::new(36, |i: int| face_corner(i / 6, triangle_corner(i % 6)))
}

/// The triangles of a box, three corners each.
pub fn triangulate_box() -> (mesh: Vec<usize>)
    ensures
        mesh@ == box_mesh(),
{
    let faces: [[usize; 4]; 6] = [
        [0, 1, 2, 3],
        [4, 7, 6, 5],
        [0, 4, 5, 1],
        [2, 6, 7, 3],
        [0, 3, 7, 4],
        [1, 5, 6, 2],
    ];
    assert forall|f: int, k: int| 0 <= f < 6 && 0 <= k < 4 implies #[trigger] faces[f][k]
        == face_corner(f, k) by {
        assert(f == 0 || f == 1 || f == 2 || f == 3 || f == 4 || f == 5);
        assert(k == 0 || k == 1 || k == 2 || k == 3);
    }
    let mut mesh: Vec<usize> = Vec::new();
    let mut f: usize = 0;
    assert(mesh@ =~= box_mesh().take(0));
    while f < 6
        invariant
            f <= 6,
            forall|f: int, k: int|
                0 <= f < 6 && 0 <= k < 4 ==> #[trigger] faces[f][k] == face_corner(f, k),
            mesh@ == box_mesh().take(6 * f),
        decreases 6 - f,
    {
        let face = faces[f];
        assert(face[0] == faces[f as int][0]);
        assert(face[1] == faces[f as int][1]);
        assert(face[2] == faces[f as int][2]);
        assert(face[3] == faces[f as int][3]);
        mesh.push(face[0]);
        mesh.push(face[1]);
        mesh.push(face[2]);
        mesh.push(face[0]);
        mesh.push(face[2]);
        mesh.push(face[3]);
        assert(mesh@ =~= box_mesh().take(6 * (f + 1)));
        f = f + 1;
    }
    assert(box_mesh().take(36) =~= box_mesh());
    mesh
}

/// Where an edge of a list of triangles ends: it leads to the next point of its triangle.
pub open spec fn edge_end(edge: int) -> int {
    if edge % 3 == 2 {
        edge - 2
    } else {
        edge + 1
    }
}

/// The edge of the box mesh that runs along an edge in the other direction.
pub open spec fn box_opposite(e: int) -> int {
    if e == 0 { 17 } else if e == 1 { 35 } else if e == 2 { 3 } else if e == 3 { 2 }
    else if e == 4 { 23 } else if e == 5 { 24 } else if e == 6 { 28 } else if e == 7 { 19 }
    else if e == 8 { 9 } else if e == 9 { 8 } else if e == 10 { 31 } else if e == 11 { 13 }
    else if e == 12 { 29 } else if e == 13 { 11 } else if e == 14 { 15 } else if e == 15 { 14 }
    else if e == 16 { 30 } else if e == 17 { 0 } else if e == 18 { 34 } else if e == 19 { 7 }
    else if e == 20 { 21 } else if e == 21 { 20 } else if e == 22 { 25 } else if e == 23 { 4 }
    else if e == 24 { 5 } else if e == 25 { 22 } else if e == 26 { 27 } else if e == 27 { 26 }
    else if e == 28 { 6 } else if e == 29 { 12 } else if e == 30 { 16 } else if e == 31 { 10 }
    else if e == 32 { 33 } else if e == 33 { 32 } else if e == 34 { 18 } else { 1 }
}

/// The surface of a box is closed: along every edge of a triangle another triangle has the same
/// edge in the other direction.
pub proof fn law_box_closed(e: int)
    requires
        0 <= e < 36,
    ensures
        0 <= box_opposite(e) < 36,
        box_opposite(e) / 3 != e / 3,
        box_mesh()[box_opposite(e)] == box_mesh()[edge_end(e)],
        box_mesh()[edge_end(box_opposite(e))] == box_mesh()[e],
{
}

/// The edges of a box, two corners each: round the bottom, round the top, and upright.
pub open spec fn box_edges() -> Seq<(usize, usize)> {
    Seq::new(
        12,
        |i: int|
            if i < 4 {
                (i as usize, ((i + 1) % 4) as usize)
            } else if i < 8 {
                (i as usize, (4 + (i + 1) % 4) as usize)
            } else {
                ((i - 8) as usize, (i - 4) as usize)
            },
    )
}

/// The edges of a box.
pub fn wireframe_box() -> (edges: Vec<(usize, usize)>)
    ensures
        edges@ == box_edges(),
{
    let mut edges: Vec<(usize, usize)> = Vec::new();
    let mut i: usize = 0;
    assert(edges@ =~= box_edges().take(0));
    while i < 12
        invariant
            i <= 12,
            edges@ == box_edges().take(i as int),
        decreases 12 - i,
    {
        if i < 4 {
            edges.push((i, (i + 1) % 4));
        } else if i < 8 {
            edges.push((i, 4 + (i + 1) % 4));
        } else {
            edges.push((i - 8, i - 4));
        }
        assert(edges@ =~= box_edges().take(i + 1));
        i = i + 1;
    }
    assert(box_edges().take(12) =~= box_edges());
    edges
}

/// Every edge of a box joins corners that differ along one axis.
pub proof fn law_box_edges(i: int)
    requires
        0 <= i < 12,
    ensures
        ({
            let (a, b) = box_edges()[i];
            let differs = |axis: int|
                corner_side(a as int, axis) != corner_side(b as int, axis);
            &&& a < 8 && b < 8
            &&& (differs(0) && !differs(1) && !differs(2)) || (!differs(0) && differs(1)
                && !differs(2)) || (!differs(0) && !differs(1) && differs(2))
        }),
{
}

// ---------------------------------------------------------------------------
// Cylinders
// ---------------------------------------------------------------------------

/// The points on the rim of a cylinder.
pub const SEGMENTS: usize = 24;

/// A point of a cylinder: the centre of a cap, or a point on its rim.
#[derive(Debug, Clone, Copy, PartialEq, Eq, Structural)]
pub struct RingPoint {
    /// The place on the rim; none at the centre.
    pub segment: Option<usize>,
    pub top: bool,
}

/// A point on the rim.
pub open spec fn rim(segment: int, top: bool) -> RingPoint {
    RingPoint { segment: Some((segment % 24) as usize), top }
}

/// The centre of a cap.
pub open spec fn cap_centre(top: bool) -> RingPoint {
    RingPoint { segment: None, top }
}

/// The twelve points of the four triangles of a segment: bottom cap, top cap and two at the
/// side.
pub open spec fn segment_point(i: int, k: int) -> RingPoint {
    if k == 0 {
        cap_centre(false)
    } else if k == 1 {
        rim(i + 1, false)
    } else if k == 2 {
        rim(i, false)
    } else if k == 3 {
        cap_centre(true)
    } else if k == 4 {
        rim(i, true)
    } else if k == 5 {
        rim(i + 1, true)
    } else if k == 6 {
        rim(i, false)
    } else if k == 7 {
        rim(i + 1, false)
    } else if k == 8 {
        rim(i + 1, true)
    } else if k == 9 {
        rim(i, false)
    } else if k == 10 {
        rim(i + 1, true)
    } else {
        rim(i, true)
    }
}

/// The triangles of a cylinder, three points each.
pub open spec fn cylinder_mesh() -> Seq<RingPoint> {
    Seq::new(288, |n: int| segment_point(n / 12, n % 12))
}

/// The triangles of a cylinder, three points each.
pub fn triangulate_cylinder() -> (mesh: Vec<RingPoint>)
    ensures
        mesh@ == cylinder_mesh(),
{
    let mut mesh: Vec<RingPoint> = Vec::new();
    let mut i: usize = 0;
    assert(mesh@ =~= cylinder_mesh().take(0));
    while i < SEGMENTS
        invariant
            i <= 24,
            mesh@ == cylinder_mesh().take(12 * i),
        decreases 24 - i,
    {
        let j: usize = (i + 1) % SEGMENTS;
        let centre = RingPoint { segment: None, top: false };
        let b0 = RingPoint { segment: Some(i), top: false };
        let b1 = RingPoint { segment: Some(j), top: false };
        let top_centre = RingPoint { segment: None, top: true };
        let t0 = RingPoint { segment: Some(i), top: true };
        let t1 = RingPoint { segment: Some(j), top: true };
        mesh.push(centre);
        mesh.push(b1);
        mesh.push(b0);
        mesh.push(top_centre);
        mesh.push(t0);
        mesh.push(t1);
        mesh.push(b0);
        mesh.push(b1);
        mesh.push(t1);
        mesh.push(b0);
        mesh.push(t1);
        mesh.push(t0);
        assert(mesh@ =~= cylinder_mesh().take(12 * (i + 1)));
        i = i + 1;
    }
    assert(cylinder_mesh().take(288) =~= cylinder_mesh());
    mesh
}

/// The edge of the cylinder mesh that runs along an edge in the other direction.
pub open spec fn cylinder_opposite(e: int) -> int {
    let i = e / 12;
    let k = e % 12;
    let next = if i == 23 {
        0int
    } else {
        i + 1
    };
    let last = if i == 0 {
        23int
    } else {
        i - 1
    };
    if k == 0 {
        12 * next + 2
    } else if k == 1 {
        12 * i + 6
    } else if k == 2 {
        12 * last
    } else if k == 3 {
        12 * last + 5
    } else if k == 4 {
        12 * i + 10
    } else if k == 5 {
        12 * next + 3
    } else if k == 6 {
        12 * i + 1
    } else if k == 7 {
        12 * next + 11
    } else if k == 8 {
        12 * i + 9
    } else if k == 9 {
        12 * i + 8
    } else if k == 10 {
        12 * i + 4
    } else {
        12 * last + 7
    }
}

/// The surface of a cylinder is closed: along every edge of a triangle another triangle has the
/// same edge in the other direction.
pub proof fn law_cylinder_closed(e: int)
    requires
        0 <= e < 288,
    ensures
        0 <= cylinder_opposite(e) < 288,
        cylinder_opposite(e) / 3 != e / 3,
        cylinder_mesh()[cylinder_opposite(e)] == cylinder_mesh()[edge_end(e)],
        cylinder_mesh()[edge_end(cylinder_opposite(e))] == cylinder_mesh()[e],
{
    let i = e / 12;
    let k = e % 12;
    let f = cylinder_opposite(e);
    assert(e == 12 * i + k);
    assert(0 <= i < 24 && 0 <= k < 12);
    let fi = f / 12;
    let fk = f % 12;
    assert(f == 12 * fi + fk);
    let m = edge_end(e);
    assert(m / 12 == i && m % 12 == (if k % 3 == 2 { k - 2 } else { k + 1 }));
    let g = edge_end(f);
    assert(g / 12 == fi && g % 12 == (if fk % 3 == 2 { fk - 2 } else { fk + 1 }));
    assert(cylinder_mesh()[e] == segment_point(i, k));
    assert(cylinder_mesh()[m] == segment_point(i, m % 12));
    assert(cylinder_mesh()[f] == segment_point(fi, fk));
    assert(cylinder_mesh()[g] == segment_point(fi, g % 12));
}

/// The lines of the first `n` segments of a cylinder, two points each: along the bottom rim,
/// along the top rim, and at every fourth segment one upright.
pub open spec fn cylinder_lines(n: nat) -> Seq<(RingPoint, RingPoint)>
    decreases n,
{
    if n == 0 {
        Seq::empty()
    } else {
        let i = n - 1;
        let rims = cylinder_lines((n - 1) as nat).push((rim(i, false), rim(i + 1, false))).push(
            (rim(i, true), rim(i + 1, true)),
        );
        if i % 4 == 0 {
            rims.push((rim(i, false), rim(i, true)))
        } else {
            rims
        }
    }
}

/// The lines of a cylinder, two points each.
pub fn wireframe_cylinder() -> (lines: Vec<(RingPoint, RingPoint)>)
    ensures
        lines@ == cylinder_lines(24),
{
    let mut lines: Vec<(RingPoint, RingPoint)> = Vec::new();
    let mut i: usize = 0;
    while i < SEGMENTS
        invariant
            i <= 24,
            lines@ == cylinder_lines(i as nat),
        decreases 24 - i,
    {
        let j: usize = (i + 1) % SEGMENTS;
        let b0 = RingPoint { segment: Some(i), top: false };
        let b1 = RingPoint { segment: Some(j), top: false };
        let t0 = RingPoint { segment: Some(i), top: true };
        let t1 = RingPoint { segment: Some(j), top: true };
        lines.push((b0, b1));
        lines.push((t0, t1));
        if i % 4 == 0 {
            lines.push((b0, t0));
        }
        i = i + 1;
    }
    lines
}

/// The faces of a box lie flat: the bottom has the lower corners, the top the upper ones, the
/// front and the back those at either end of the y-axis, and the left and the right those at
/// either end of the x-axis. The two triangles of a face use all of its corners.
pub proof fn law_box_faces(face: int, k: int)
    requires
        0 <= face < 6,
        0 <= k < 4,
    ensures
        0 <= face_corner(face, k) < 8,
        face == 0 ==> face_corner(face, k) < 4,
        face == 1 ==> face_corner(face, k) >= 4,
        face == 2 ==> !corner_side(face_corner(face, k) as int, 1),
        face == 3 ==> corner_side(face_corner(face, k) as int, 1),
        face == 4 ==> !corner_side(face_corner(face, k) as int, 0),
        face == 5 ==> corner_side(face_corner(face, k) as int, 0),
        forall|m: int| 0 <= m < 4 && m != k ==> #[trigger] face_corner(face, m) != face_corner(
            face,
            k,
        ),
        triangle_corner(0) == 0 && triangle_corner(1) == 1 && triangle_corner(2) == 2,
        triangle_corner(3) == 0 && triangle_corner(4) == 2 && triangle_corner(5) == 3,
{
}

/// Corners of a box differ by the side they are on along some axis. A corner of the bottom stands
/// under the one four further on.
pub proof fn law_corners(a: int, b: int)
    requires
        0 <= a < 8,
        0 <= b < 8,
    ensures
        corner_side(a, 0) == corner_side(b, 0) && corner_side(a, 1) == corner_side(b, 1)
            && corner_side(a, 2) == corner_side(b, 2) ==> a == b,
        a < 4 ==> corner_side(a, 0) == corner_side(a + 4, 0) && corner_side(a, 1) == corner_side(
            a + 4,
            1,
        ) && !corner_side(a, 2) && corner_side(a + 4, 2),
        !corner_side(0, 0) && !corner_side(0, 1),
        corner_side(1, 0) && !corner_side(1, 1),
{
}

/// The surface of a cylinder goes round its rim: each segment has a triangle of either cap with
/// its centre, and every point of the side is on the rim at the segment or the next one.
pub proof fn law_segment_points(i: int, k: int)
    requires
        0 <= i < 24,
        0 <= k < 12,
    ensures
        segment_point(i, k).segment is None <==> k == 0 || k == 3,
        k < 3 ==> !segment_point(i, k).top,
        3 <= k < 6 ==> segment_point(i, k).top,
        segment_point(i, k).segment matches Some(s) ==> s == i || s == (i + 1) % 24,
        6 <= k ==> segment_point(i, k).segment is Some,
{
}

/// The lines of a cylinder run along the rims from each segment to the next, and upright at every
/// fourth one: two for every segment, and one more for every fourth.
pub proof fn law_cylinder_lines(n: nat, j: int)
    requires
        n <= 24,
    ensures
        cylinder_lines(n).len() == 2 * n + (n + 3) / 4,
        0 <= j < cylinder_lines(n).len() ==> {
            let (a, b) = cylinder_lines(n)[j];
            &&& a.segment matches Some(s) && b.segment matches Some(t) && s < 24 && t < 24 && (if a.top
                == b.top {
                t == (s + 1) % 24
            } else {
                s == t && s % 4 == 0 && !a.top
            })
        },
        forall|i: int, top: bool|
            0 <= i < n ==> #[trigger] cylinder_lines(n).contains((rim(i, top), rim(i + 1, top))),
    decreases n,
{
    if n > 0 {
        let m = (n - 1) as nat;
        let before = cylinder_lines(m);
        let all = cylinder_lines(n);
        law_cylinder_lines(m, j);
        assert(all[before.len() as int] == (rim(m as int, false), rim(m as int + 1, false)));
        assert(all[before.len() as int + 1] == (rim(m as int, true), rim(m as int + 1, true)));
        assert forall|i: int, top: bool| 0 <= i < n implies #[trigger] all.contains(
            (rim(i, top), rim(i + 1, top)),
        ) by {
            if i < m {
                let p = before.index_of((rim(i, top), rim(i + 1, top)));
                assert(before.contains((rim(i, top), rim(i + 1, top))));
                assert(all[p] == before[p]);
            } else if top {
                assert(all[before.len() as int + 1] == (rim(i, top), rim(i + 1, top)));
            } else {
                assert(all[before.len() as int] == (rim(i, top), rim(i + 1, top)));
            }
        }
        if 0 <= j < before.len() {
            assert(all[j] == before[j]);
        }
    }
}

} // verus!
