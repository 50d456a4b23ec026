//! Poses and the layout of the Lighthouse deck, as bits of doubles.

use crate::float_bits;
use vstd::prelude::*;

verus! {

/// The position and orientation of an object.
#[derive(Debug, Clone, Copy)]
pub struct Pose {
    /// The rotation matrix, by rows.
    pub rot_matrix: [[u64; 3]; 3],
    pub translation: [u64; 3],
}

/// The identity matrix.
pub open spec fn identity_matrix() -> [[u64; 3]; 3] {
    [
        [float_bits::DOUBLE_ONE, 0, 0],
        [0, float_bits::DOUBLE_ONE, 0],
        [0, 0, float_bits::DOUBLE_ONE],
    ]
}

/// No rotation, at the origin.
pub open spec fn identity_pose() -> Pose {
    Pose { rot_matrix: identity_matrix(), translation: [0, 0, 0] }
}

impl Default for Pose {
    fn default() -> (pose: Pose)
        ensures
            pose == identity_pose(),
    {
        Pose {
            rot_matrix: [
                [float_bits::DOUBLE_ONE, 0, 0],
                [0, float_bits::DOUBLE_ONE, 0],
                [0, 0, float_bits::DOUBLE_ONE],
            ],
            translation: [0, 0, 0],
        }
    }
}

/// Whether the three coordinates of two vectors are equal as doubles.
pub open spec fn equal_rows(a: [u64; 3], b: [u64; 3]) -> bool {
    float_bits::double_equal(a[0], b[0]) && float_bits::double_equal(a[1], b[1])
        && float_bits::double_equal(a[2], b[2])
}

fn rows_equal(a: &[u64; 3], b: &[u64; 3]) -> (r: bool)
    ensures
        r == equal_rows(*a, *b),
{
    float_bits::equal_double(a[0], b[0]) && float_bits::equal_double(a[1], b[1])
        && float_bits::equal_double(a[2], b[2])
}

/// Whether two poses are equal, number by number.
pub open spec fn equal_poses(a: Pose, b: Pose) -> bool {
    equal_rows(a.rot_matrix[0], b.rot_matrix[0]) && equal_rows(a.rot_matrix[1], b.rot_matrix[1])
        && equal_rows(a.rot_matrix[2], b.rot_matrix[2]) && equal_rows(a.translation, b.translation)
}

impl PartialEq for Pose {
    fn eq(&self, other: &Pose) -> (r: bool) {
        rows_equal(&self.rot_matrix[0], &other.rot_matrix[0]) && rows_equal(
            &self.rot_matrix[1],
            &other.rot_matrix[1],
        ) && rows_equal(&self.rot_matrix[2], &other.rot_matrix[2]) && rows_equal(
            &self.translation,
            &other.translation,
        )
    }
}

impl vstd::std_specs::cmp::PartialEqSpecImpl for Pose {
    open spec fn obeys_eq_spec() -> bool {
        true
    }

    open spec fn eq_spec(&self, other: &Pose) -> bool {
        equal_poses(*self, *other)
    }
}

impl Pose {
    /// A pose of the given rotation and translation.
    pub fn new(rot_matrix: [[u64; 3]; 3], translation: [u64; 3]) -> (pose: Pose)
        ensures
            pose == (Pose { rot_matrix, translation }),
    {
        Pose { rot_matrix, translation }
    }
}

/// Half the length of the sensor rectangle, 0.015 m.
pub const HALF_LENGTH: u64 = 0x3f8e_b851_eb85_1eb8;

/// Half the width of the sensor rectangle, 0.0075 m.
pub const HALF_WIDTH: u64 = 0x3f7e_b851_eb85_1eb8;

/// The bit that makes a double negative.
pub const NEGATIVE: u64 = 0x8000_0000_0000_0000;

/// The four light sensors of the Lighthouse deck.
pub struct LhDeck4SensorPositions;

impl LhDeck4SensorPositions {
    /// The sensors in the frame of the Crazyflie: the corners of a rectangle, back left, back
    /// right, front left and front right.
    pub fn positions() -> (corners: [[u64; 3]; 4])
        ensures
            corners@ == sensor_corners(),
    {
        let corners = [
            [NEGATIVE + HALF_LENGTH, HALF_WIDTH, 0],
            [NEGATIVE + HALF_LENGTH, NEGATIVE + HALF_WIDTH, 0],
            [HALF_LENGTH, HALF_WIDTH, 0],
            [HALF_LENGTH, NEGATIVE + HALF_WIDTH, 0],
        ];
        assert(corners@ =~= sensor_corners());
        corners
    }
}

/// The corners of the sensor rectangle.
pub open spec fn sensor_corners() -> Seq<[u64; 3]> {
    seq![
        [(NEGATIVE + HALF_LENGTH) as u64, HALF_WIDTH, 0],
        [(NEGATIVE + HALF_LENGTH) as u64, (NEGATIVE + HALF_WIDTH) as u64, 0],
        [HALF_LENGTH, HALF_WIDTH, 0],
        [HALF_LENGTH, (NEGATIVE + HALF_WIDTH) as u64, 0],
    ]
}

/// All sensors are at height zero, and each has one opposite to it through the centre.
pub proof fn law_sensors_flat_and_centred()
    ensures
        sensor_corners().len() == 4,
        forall|i: int| 0 <= i < 4 ==> (#[trigger] sensor_corners()[i])[2] == 0,
        forall|i: int, axis: int|
            0 <= i < 4 && 0 <= axis < 2 ==> float_bits::double_key(
                (#[trigger] sensor_corners()[i])[axis],
            )->0 + float_bits::double_key(sensor_corners()[3 - i][axis])->0 == 0 && #[trigger]
            float_bits::double_key(sensor_corners()[i][axis]) is Some,
{
    let c = sensor_corners();
    assert forall|i: int, axis: int| 0 <= i < 4 && 0 <= axis < 2 implies float_bits::double_key(
        (#[trigger] c[i])[axis],
    )->0 + float_bits::double_key(c[3 - i][axis])->0 == 0 && #[trigger] float_bits::double_key(
        c[i][axis],
    ) is Some by {
        assert(i == 0 || i == 1 || i == 2 || i == 3);
        assert(axis == 0 || axis == 1);
    }
}

/// The sensors are 0.03 m apart along the deck and 0.015 m across it: the first two at the back,
/// the last two at the front, the first and the third to the left.
pub proof fn law_sensor_places()
    ensures
        sensor_corners()[0] == [0xbf8e_b851_eb85_1eb8u64, 0x3f7e_b851_eb85_1eb8u64, 0u64],
        sensor_corners()[1] == [0xbf8e_b851_eb85_1eb8u64, 0xbf7e_b851_eb85_1eb8u64, 0u64],
        sensor_corners()[2] == [0x3f8e_b851_eb85_1eb8u64, 0x3f7e_b851_eb85_1eb8u64, 0u64],
        sensor_corners()[3] == [0x3f8e_b851_eb85_1eb8u64, 0xbf7e_b851_eb85_1eb8u64, 0u64],
{
}

/// The identity has ones on its diagonal and zeros elsewhere, and stands at the origin.
pub proof fn law_identity(r: int, c: int)
    requires
        0 <= r < 3,
        0 <= c < 3,
    ensures
        identity_matrix()[r][c] == (if r == c {
            0x3ff0_0000_0000_0000u64
        } else {
            0
        }),
        identity_pose().rot_matrix == identity_matrix(),
        identity_pose().translation[c] == 0,
{
}

/// Poses are equal if and only if all nine numbers of the rotation and all three of the
/// translation are.
pub proof fn law_equal_poses(a: Pose, b: Pose)
    ensures
        equal_poses(a, b) <==> (forall|r: int, c: int|
            0 <= r < 3 && 0 <= c < 3 ==> float_bits::double_equal(
                #[trigger] a.rot_matrix[r][c],
                b.rot_matrix[r][c],
            )) && (forall|c: int|
            0 <= c < 3 ==> float_bits::double_equal(#[trigger] a.translation[c], b.translation[c])),
{
    if (forall|r: int, c: int|
        0 <= r < 3 && 0 <= c < 3 ==> float_bits::double_equal(
            #[trigger] a.rot_matrix[r][c],
            b.rot_matrix[r][c],
        )) && (forall|c: int|
        0 <= c < 3 ==> float_bits::double_equal(#[trigger] a.translation[c], b.translation[c])) {
        assert(equal_rows(a.rot_matrix[0], b.rot_matrix[0]));
        assert(equal_rows(a.rot_matrix[1], b.rot_matrix[1]));
        assert(equal_rows(a.rot_matrix[2], b.rot_matrix[2]));
        assert(equal_rows(a.translation, b.translation));
    }
}

} // verus!
