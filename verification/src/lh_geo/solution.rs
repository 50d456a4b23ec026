//! What an estimation of the geometry found.

use crate::lh_geo::sample;
use crate::lh_geo::sample::{LhCfPoseSampleWrapper, WrapperView};
use crate::lh_geo::station_map::StationMap;
use crate::lh_geo::types::Pose;
use vstd::prelude::*;
use vstd::string::*;

verus! {

/// The errors of samples in metres.
#[derive(Debug, Clone, Copy)]
pub struct ErrorStats {
    pub mean: u64,
    pub max: u64,
    pub deviation: u64,
}

/// An estimated geometry and how the estimation went.
pub struct LighthouseGeometrySolution {
    pub samples: Vec<LhCfPoseSampleWrapper>,
    pub bs_poses: StationMap<Pose>,
    pub error_stats: Option<ErrorStats>,
    pub verification_stats: Option<ErrorStats>,
    pub has_converged: bool,
    pub progress_info: String,
    pub progress_is_ok: bool,
    pub is_origin_sample_valid: bool,
    pub origin_sample_info: String,
    pub is_x_axis_samples_valid: bool,
    pub x_axis_samples_info: String,
    pub is_xy_plane_samples_valid: bool,
    pub xy_plane_samples_info: String,
    pub xyz_space_samples_info: String,
    pub general_failure_info: String,
    /// In how many samples two base stations are both in sight.
    pub link_count: StationMap<StationMap<u32>>,
    /// In how many samples a base station is in sight.
    pub bs_sample_count: StationMap<u32>,
    pub link_count_ok_threshold: u32,
    pub contains_samples: bool,
}

/// A solution as sequences.
#[verifier::ext_equal]
pub struct SolutionView {
    pub samples: Seq<WrapperView>,
    pub bs_poses: Seq<(u8, Pose)>,
    pub error_stats: Option<ErrorStats>,
    pub verification_stats: Option<ErrorStats>,
    pub has_converged: bool,
    pub progress_info: Seq<char>,
    pub progress_is_ok: bool,
    pub is_origin_sample_valid: bool,
    pub origin_sample_info: Seq<char>,
    pub is_x_axis_samples_valid: bool,
    pub x_axis_samples_info: Seq<char>,
    pub is_xy_plane_samples_valid: bool,
    pub xy_plane_samples_info: Seq<char>,
    pub xyz_space_samples_info: Seq<char>,
    pub general_failure_info: Seq<char>,
    pub link_count: Seq<(u8, Seq<(u8, u32)>)>,
    pub bs_sample_count: Seq<(u8, u32)>,
    pub link_count_ok_threshold: u32,
    pub contains_samples: bool,
}

/// The counts of links as sequences.
pub open spec fn link_views(links: Seq<(u8, StationMap<u32>)>) -> Seq<(u8, Seq<(u8, u32)>)> {
    Seq::new(links.len(), |i: int| (links[i].0, links[i].1@))
}

impl View for LighthouseGeometrySolution {
    type V = SolutionView;

    open spec fn view(&self) -> SolutionView {
        SolutionView {
            samples: sample::wrapper_views(self.samples@),
            bs_poses: self.bs_poses@,
            error_stats: self.error_stats,
            verification_stats: self.verification_stats,
            has_converged: self.has_converged,
            progress_info: self.progress_info@,
            progress_is_ok: self.progress_is_ok,
            is_origin_sample_valid: self.is_origin_sample_valid,
            origin_sample_info: self.origin_sample_info@,
            is_x_axis_samples_valid: self.is_x_axis_samples_valid,
            x_axis_samples_info: self.x_axis_samples_info@,
            is_xy_plane_samples_valid: self.is_xy_plane_samples_valid,
            xy_plane_samples_info: self.xy_plane_samples_info@,
            xyz_space_samples_info: self.xyz_space_samples_info@,
            general_failure_info: self.general_failure_info@,
            link_count: link_views(self.link_count@),
            bs_sample_count: self.bs_sample_count@,
            link_count_ok_threshold: self.link_count_ok_threshold,
            contains_samples: self.contains_samples,
        }
    }
}

/// A solution of which nothing is known but its samples.
pub open spec fn fresh(samples: Seq<WrapperView>) -> SolutionView {
    SolutionView {
        samples,
        bs_poses: Seq::empty(),
        error_stats: None,
        verification_stats: None,
        has_converged: false,
        progress_info: Seq::empty(),
        progress_is_ok: true,
        is_origin_sample_valid: true,
        origin_sample_info: Seq::empty(),
        is_x_axis_samples_valid: true,
        x_axis_samples_info: Seq::empty(),
        is_xy_plane_samples_valid: true,
        xy_plane_samples_info: Seq::empty(),
        xyz_space_samples_info: Seq::empty(),
        general_failure_info: Seq::empty(),
        link_count: Seq::empty(),
        bs_sample_count: Seq::empty(),
        link_count_ok_threshold: 1,
        contains_samples: false,
    }
}

impl LighthouseGeometrySolution {
    /// A solution of which nothing is known but its samples.
    pub fn new(samples: Vec<LhCfPoseSampleWrapper>) -> (solution: LighthouseGeometrySolution)
        ensures
            solution@ == fresh(sample::wrapper_views(samples@)),
    {
        let ghost views = sample::wrapper_views(samples@);
        let solution = LighthouseGeometrySolution {
            samples,
            bs_poses: StationMap::new(),
            error_stats: None,
            verification_stats: None,
            has_converged: false,
            progress_info: String::new(),
            progress_is_ok: true,
            is_origin_sample_valid: true,
            origin_sample_info: String::new(),
            is_x_axis_samples_valid: true,
            x_axis_samples_info: String::new(),
            is_xy_plane_samples_valid: true,
            xy_plane_samples_info: String::new(),
            xyz_space_samples_info: String::new(),
            general_failure_info: String::new(),
            link_count: StationMap::new(),
            bs_sample_count: StationMap::new(),
            link_count_ok_threshold: 1,
            contains_samples: false,
        };
        assert(solution@ =~= fresh(views));
        solution
    }

    /// A solution without samples.
    pub fn empty() -> (solution: LighthouseGeometrySolution)
        ensures
            solution@ == fresh(Seq::empty()),
    {
        let samples: Vec<LhCfPoseSampleWrapper> = Vec::new();
        assert(sample::wrapper_views(samples@) =~= Seq::empty());
        Self::new(samples)
    }
}

/// Of a fresh solution nothing is refused yet, nothing is known, nothing is counted, and one link
/// is asked for.
pub proof fn law_fresh(samples: Seq<WrapperView>)
    ensures
        ({
            let s = fresh(samples);
            &&& s.samples == samples
            &&& s.bs_poses.len() == 0 && s.error_stats is None && s.verification_stats is None
            &&& !s.has_converged && !s.contains_samples
            &&& s.progress_is_ok && s.is_origin_sample_valid && s.is_x_axis_samples_valid
                && s.is_xy_plane_samples_valid
            &&& s.progress_info.len() == 0 && s.origin_sample_info.len() == 0
                && s.x_axis_samples_info.len() == 0 && s.xy_plane_samples_info.len() == 0
                && s.xyz_space_samples_info.len() == 0 && s.general_failure_info.len() == 0
            &&& s.link_count.len() == 0 && s.bs_sample_count.len() == 0
            &&& s.link_count_ok_threshold == 1
        }),
{
}

} // verus!
