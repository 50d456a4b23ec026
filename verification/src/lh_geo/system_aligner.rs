//! Aligning a geometry with the room: the origin, points on the x-axis and points on the floor.

use crate::float_bits;
use vstd::prelude::*;

verus! {

/// Aligns a geometry with the room.
pub struct LighthouseSystemAligner;

/// A measured point.
#[derive(Debug, Clone, Copy, PartialEq, Eq, Structural)]
pub enum AlignPoint {
    Origin,
    XAxis(usize),
    XyPlane(usize),
}

/// A coordinate of a measured point that is to become zero.
#[derive(Debug, Clone, Copy, PartialEq, Eq, Structural)]
pub struct ResidualRow {
    pub point: AlignPoint,
    pub axis: usize,
}

/// What is to become zero: all three coordinates of the origin, two of each point on the x-axis
/// and the height of each point in the xy-plane.
pub open spec fn residual_rows(n_x: nat, n_xy: nat) -> Seq<ResidualRow> {
    Seq::new(3, |i: int| ResidualRow { point: AlignPoint::Origin, axis: i as usize }) + Seq::new(
        2 * n_x,
        |i: int|
            ResidualRow { point: AlignPoint::XAxis((i / 2) as usize), axis: (1 + i % 2) as usize },
    ) + Seq::new(
        n_xy,
        |i: int| ResidualRow { point: AlignPoint::XyPlane(i as usize), axis: 2 },
    )
}

impl LighthouseSystemAligner {
    /// The residuals of the alignment, in order.
    pub fn calc_residual(n_x: usize, n_xy: usize) -> (rows: Vec<ResidualRow>)
        requires
            3 + 2 * n_x + n_xy <= usize::MAX,
        ensures
            rows@ == residual_rows(n_x as nat, n_xy as nat),
            rows@.len() == 3 + 2 * n_x + n_xy,
    {
        let ghost all = residual_rows(n_x as nat, n_xy as nat);
        let mut rows: Vec<ResidualRow> = Vec::new();
        rows.push(ResidualRow { point: AlignPoint::Origin, axis: 0 });
        rows.push(ResidualRow { point: AlignPoint::Origin, axis: 1 });
        rows.push(ResidualRow { point: AlignPoint::Origin, axis: 2 });
        let mut i: usize = 0;
        assert(rows@ =~= all.take(3));
        while i < n_x
            invariant
                i <= n_x,
                all == residual_rows(n_x as nat, n_xy as nat),
                rows@ == all.take(3 + 2 * i),
            decreases n_x - i,
        {
            rows.push(ResidualRow { point: AlignPoint::XAxis(i), axis: 1 });
            rows.push(ResidualRow { point: AlignPoint::XAxis(i), axis: 2 });
            assert(rows@ =~= all.take(3 + 2 * (i + 1)));
            i = i + 1;
        }
        let mut j: usize = 0;
        while j < n_xy
            invariant
                j <= n_xy,
                all == residual_rows(n_x as nat, n_xy as nat),
                rows@ == all.take(3 + 2 * n_x + j),
            decreases n_xy - j,
        {
            rows.push(ResidualRow { point: AlignPoint::XyPlane(j), axis: 2 });
            assert(rows@ =~= all.take(3 + 2 * n_x + j + 1));
            j = j + 1;
        }
        assert(all.take(all.len() as int) =~= all);
        rows
    }

    /// Whether an alignment is to be turned around: about the z-axis if the points on the x-axis
    /// came out on its negative side, and about the x-axis if the base stations came out below
    /// the floor.
    pub fn de_flip_transformation(x_axis_mean: u64, bs_z_mean: u64) -> (flips: (bool, bool))
        ensures
            flips.0 == float_bits::double_less(x_axis_mean, 0),
            flips.1 == float_bits::double_less(bs_z_mean, 0),
    {
        (float_bits::less_double(x_axis_mean, 0), float_bits::less_double(bs_z_mean, 0))
    }
}

/// No coordinate is asked to be zero twice.
pub proof fn law_residuals_differ(n_x: nat, n_xy: nat, i: int, j: int)
    requires
        3 + 2 * n_x + n_xy <= usize::MAX,
        0 <= i < j < residual_rows(n_x, n_xy).len(),
    ensures
        residual_rows(n_x, n_xy)[i] != residual_rows(n_x, n_xy)[j],
{
}

/// All coordinates of the origin are asked to be zero, then the second and the third of each point
/// on the x-axis, and then the third of each point in the xy-plane.
pub proof fn law_residual_rows(n_x: nat, n_xy: nat, k: int)
    requires
        3 + 2 * n_x + n_xy <= usize::MAX,
        0 <= k,
    ensures
        residual_rows(n_x, n_xy).len() == 3 + 2 * n_x + n_xy,
        k < 3 ==> residual_rows(n_x, n_xy)[k] == (ResidualRow {
            point: AlignPoint::Origin,
            axis: k as usize,
        }),
        k < n_x ==> residual_rows(n_x, n_xy)[3 + 2 * k] == (ResidualRow {
            point: AlignPoint::XAxis(k as usize),
            axis: 1,
        }),
        k < n_x ==> residual_rows(n_x, n_xy)[4 + 2 * k] == (ResidualRow {
            point: AlignPoint::XAxis(k as usize),
            axis: 2,
        }),
        k < n_xy ==> residual_rows(n_x, n_xy)[3 + 2 * n_x + k] == (ResidualRow {
            point: AlignPoint::XyPlane(k as usize),
            axis: 2,
        }),
{
    assert((2 * k) / 2 == k && (2 * k) % 2 == 0);
    assert((2 * k + 1) / 2 == k && (2 * k + 1) % 2 == 1);
}

} // verus!
