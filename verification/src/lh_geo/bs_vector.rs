//! Directions from a base station, as pairs of sweep angles.

use vstd::prelude::*;

verus! {

/// A direction in the frame of a base station: the angles of the horizontal and the vertical
/// sweep.
#[derive(Debug, Clone, Copy)]
pub struct LighthouseBsVector {
    pub lh_v1_horiz_angle: u64,
    pub lh_v1_vert_angle: u64,
}

impl LighthouseBsVector {
    /// A direction of the given angles.
    pub fn new(lh_v1_horiz_angle: u64, lh_v1_vert_angle: u64) -> (v: LighthouseBsVector)
        ensures
            v == (LighthouseBsVector { lh_v1_horiz_angle, lh_v1_vert_angle }),
    {
        LighthouseBsVector { lh_v1_horiz_angle, lh_v1_vert_angle }
    }

    /// The horizontal and the vertical angle.
    pub fn lh_v1_angle_pair(&self) -> (pair: (u64, u64))
        ensures
            pair == (self.lh_v1_horiz_angle, self.lh_v1_vert_angle),
    {
        (self.lh_v1_horiz_angle, self.lh_v1_vert_angle)
    }
}

/// One direction for each sensor of the deck.
pub type LighthouseBsVectors = [LighthouseBsVector; 4];

/// The angles of all sensors, horizontal and vertical in turn.
pub open spec fn flat_angles(vectors: Seq<LighthouseBsVector>) -> Seq<u64> {
    Seq::new(
        2 * vectors.len(),
        |i: int|
            if i % 2 == 0 {
                vectors[i / 2].lh_v1_horiz_angle
            } else {
                vectors[i / 2].lh_v1_vert_angle
            },
    )
}

/// The angles of all sensors as one list: horizontal and vertical of the first sensor, of the
/// second and so on.
pub fn angle_list(vectors: &LighthouseBsVectors) -> (angles: [u64; 8])
    ensures
        angles@ == flat_angles(vectors@),
{
    let angles = [
        vectors[0].lh_v1_horiz_angle,
        vectors[0].lh_v1_vert_angle,
        vectors[1].lh_v1_horiz_angle,
        vectors[1].lh_v1_vert_angle,
        vectors[2].lh_v1_horiz_angle,
        vectors[2].lh_v1_vert_angle,
        vectors[3].lh_v1_horiz_angle,
        vectors[3].lh_v1_vert_angle,
    ];
    assert(angles@ =~= flat_angles(vectors@));
    angles
}

/// The angles of a sensor stand next to each other, the horizontal one first.
pub proof fn law_flat_angles(vectors: Seq<LighthouseBsVector>, k: int)
    requires
        0 <= k < vectors.len(),
    ensures
        flat_angles(vectors).len() == 2 * vectors.len(),
        flat_angles(vectors)[2 * k] == vectors[k].lh_v1_horiz_angle,
        flat_angles(vectors)[2 * k + 1] == vectors[k].lh_v1_vert_angle,
{
}

} // verus!
