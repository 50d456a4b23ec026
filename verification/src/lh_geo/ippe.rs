//! The two poses that four points in a plane may have.

use crate::float_bits;
use vstd::prelude::*;

verus! {

/// Estimates the pose of a plane from the directions of its points.
pub struct IppeCf;

impl IppeCf {
    /// Whether there are enough points for an estimate: four or more, each with its direction.
    pub fn enough_points(model: usize, image: usize) -> (r: bool)
        ensures
            r == (model >= 4 && image == model),
    {
        !(model < 4 || image != model)
    }

    /// The order of two solutions by their errors: the better one first. If an error is not a
    /// number, the second one comes first.
    pub fn sort_solutions(err1: u64, err2: u64) -> (order: [usize; 2])
        ensures
            order@ == (if float_bits::double_at_least(err2, err1) {
                seq![0usize, 1usize]
            } else {
                seq![1usize, 0usize]
            }),
    {
        let order: [usize; 2] = if float_bits::at_least_double(err2, err1) {
            [0, 1]
        } else {
            [1, 0]
        };
        assert(order@ =~= (if float_bits::double_at_least(err2, err1) {
            seq![0usize, 1usize]
        } else {
            seq![1usize, 0usize]
        }));
        order
    }
}

} // verus!
