//! How far beams from different base stations miss each other.

use crate::float_bits;
use vstd::prelude::*;

verus! {

/// Two beams that should meet in a sensor; how far they miss each other is the error.
pub struct LighthouseCrossingBeam;

/// The larger of two doubles; the first one if the second is not a number.
pub open spec fn larger(a: u64, b: u64) -> u64 {
    if float_bits::double_less(a, b) {
        b
    } else {
        a
    }
}

/// The greatest of all distances, at least zero.
pub open spec fn greatest(distances: Seq<u64>) -> u64
    decreases distances.len(),
{
    if distances.len() == 0 {
        0
    } else {
        larger(greatest(distances.drop_last()), distances.last())
    }
}

/// The greatest distance is not below zero nor below any of them, and it is zero or one of
/// them.
pub proof fn law_greatest(distances: Seq<u64>, i: int)
    requires
        0 <= i < distances.len(),
    ensures
        float_bits::double_key(greatest(distances)) is Some,
        float_bits::double_key(greatest(distances))->0 >= 0,
        !float_bits::double_less(greatest(distances), distances[i]),
        greatest(distances) == 0 || distances.contains(greatest(distances)),
    decreases distances.len(),
{
    lemma_greatest(distances);
    let rest = distances.drop_last();
    lemma_greatest(rest);
    if i < rest.len() {
        law_greatest(rest, i);
        assert(rest[i] == distances[i]);
    }
    if greatest(distances) != 0 {
        if greatest(distances) == distances.last() {
            assert(distances[distances.len() - 1] == greatest(distances));
        } else {
            assert(rest.len() > 0);
            law_greatest(rest, 0);
            let k = choose|k: int| 0 <= k < rest.len() && rest[k] == greatest(rest);
            assert(distances[k] == greatest(distances));
        }
    }
}

proof fn lemma_greatest(distances: Seq<u64>)
    ensures
        float_bits::double_key(greatest(distances)) is Some,
        float_bits::double_key(greatest(distances))->0 >= 0,
    decreases distances.len(),
{
    if distances.len() > 0 {
        lemma_greatest(distances.drop_last());
    }
}

impl LighthouseCrossingBeam {
    /// The greatest of the distances between the beams of all sensors, or of all pairs of base
    /// stations.
    pub fn max_distance_all_permutations(distances: &Vec<u64>) -> (max: u64)
        ensures
            max == greatest(distances@),
    {
        let mut max: u64 = 0;
        let mut i: usize = 0;
        assert(distances@.take(0) =~= Seq::empty());
        while i < distances.len()
            invariant
                i <= distances@.len(),
                max == greatest(distances@.take(i as int)),
            decreases distances.len() - i,
        {
            assert(distances@.take(i + 1).drop_last() =~= distances@.take(i as int));
            if float_bits::less_double(max, distances[i]) {
                max = distances[i];
            }
            i = i + 1;
        }
        assert(distances@.take(distances@.len() as int) =~= distances@);
        max
    }
}

} // verus!
