//! The estimation of a geometry from the collected samples, step by step.

use crate::lh_geo::container;
use crate::lh_geo::container::{ContainerView, LhGeoInputContainerData};
use crate::lh_geo::crossing_beam;
use crate::lh_geo::crossing_beam::LighthouseCrossingBeam;
use crate::lh_geo::geometry_solver;
use crate::lh_geo::geometry_solver::{LighthouseGeometrySolver, SolverLayout};
use crate::lh_geo::initial_estimator;
use crate::lh_geo::initial_estimator::LighthouseInitialEstimator;
use crate::lh_geo::link_search;
use crate::lh_geo::linking;
use crate::lh_geo::sample;
use crate::lh_geo::sample::{
    BsPairPoses, LhCfPoseSampleStatus, LhCfPoseSampleType, LhCfPoseSampleWrapper, WrapperView,
};
use crate::lh_geo::solution;
use crate::lh_geo::solution::{ErrorStats, LighthouseGeometrySolution, SolutionView};
use crate::lh_geo::station_map;
use crate::lh_geo::station_map::StationMap;
use crate::lh_geo::types;
use crate::lh_geo::types::Pose;
use crate::lists;
use crate::text;
use vstd::prelude::*;
use vstd::string::*;

verus! {

/// Runs the estimation.
pub struct LhGeoEstimationManager;

// ---------------------------------------------------------------------------
// Validation
// ---------------------------------------------------------------------------

/// What validation makes of the state of a sample: the origin needs base stations in sight at
/// all, and every sample at least two.
pub open spec fn validated_status(s: WrapperView, place: int) -> LhCfPoseSampleStatus {
    if place == 0 && s.sample.angles.len() == 0 {
        LhCfPoseSampleStatus::NoData
    } else if s.sample.angles.len() < 2 {
        LhCfPoseSampleStatus::TooFewBs
    } else {
        s.status
    }
}

/// The sample at a place takes part: the origin always, others if they see two base stations and
/// are not for verification, or if they are mandatory and see fewer.
pub open spec fn takes_part(s: WrapperView, place: int) -> bool {
    place == 0 || (if s.sample.angles.len() >= 2 {
        !(s.sample_type is Verification)
    } else {
        s.is_mandatory
    })
}

/// The samples that take part.
pub open spec fn valid_places(samples: Seq<WrapperView>) -> Seq<int> {
    lists::positions_where(samples.len(), |i: int| takes_part(samples[i], i))
}

/// The samples with the states that validation gives them.
pub open spec fn validated_samples(samples: Seq<WrapperView>) -> Seq<WrapperView> {
    Seq::new(
        samples.len(),
        |i: int| WrapperView { status: validated_status(samples[i], i), ..samples[i] },
    )
}

/// A mandatory sample, or the origin, sees fewer than two base stations.
pub open spec fn blocked_by(samples: Seq<WrapperView>, n: int) -> bool {
    exists|i: int|
        0 <= i < n && (#[trigger] samples[i]).sample.angles.len() < 2 && (i == 0
            || samples[i].is_mandatory)
}

/// The solution after validation, given how many samples are on the x-axis and in the xy-plane.
pub open spec fn validated(
    s: SolutionView,
    samples: Seq<WrapperView>,
    n_x: nat,
    n_xy: nat,
) -> SolutionView {
    if samples.len() == 0 {
        SolutionView {
            is_origin_sample_valid: false,
            origin_sample_info: "No data"@,
            progress_is_ok: false,
            ..s
        }
    } else {
        SolutionView {
            is_x_axis_samples_valid: s.is_x_axis_samples_valid && n_x > 0,
            x_axis_samples_info: if n_x == 0 {
                "No data"@
            } else {
                s.x_axis_samples_info
            },
            is_xy_plane_samples_valid: s.is_xy_plane_samples_valid && n_xy > 0,
            xy_plane_samples_info: if n_xy == 0 {
                "No data"@
            } else {
                s.xy_plane_samples_info
            },
            progress_is_ok: s.progress_is_ok && n_x > 0 && n_xy > 0 && !blocked_by(
                samples,
                samples.len() as int,
            ),
            contains_samples: valid_places(samples).len() > 1 || validated_status(
                samples[0],
                0,
            ) is Valid,
            ..s
        }
    }
}

// ---------------------------------------------------------------------------
// Reports
// ---------------------------------------------------------------------------

/// What is wrong with the samples of a kind.
pub open spec fn status_words(samples: Seq<WrapperView>, kind: LhCfPoseSampleType) -> Seq<
    Seq<char>,
>
    decreases samples.len(),
{
    if samples.len() == 0 {
        Seq::empty()
    } else {
        let rest = status_words(samples.drop_last(), kind);
        if samples.last().sample_type == kind && !(samples.last().status is Valid) {
            rest.push(samples.last().status.word())
        } else {
            rest
        }
    }
}

/// The report on the samples of a kind.
pub open spec fn error_info(samples: Seq<WrapperView>, kind: LhCfPoseSampleType) -> Seq<char> {
    text::joined(status_words(samples, kind), ", "@)
}

/// Nothing is wrong with the samples of a kind.
pub open spec fn all_fine(samples: Seq<WrapperView>, kind: LhCfPoseSampleType) -> bool {
    status_words(samples, kind).len() == 0
}

/// The solution with the reports on its samples; one that was refused before keeps its report.
pub open spec fn humanized(s: SolutionView) -> SolutionView {
    SolutionView {
        is_origin_sample_valid: s.is_origin_sample_valid && all_fine(
            s.samples,
            LhCfPoseSampleType::Origin,
        ),
        origin_sample_info: if s.is_origin_sample_valid {
            error_info(s.samples, LhCfPoseSampleType::Origin)
        } else {
            s.origin_sample_info
        },
        is_x_axis_samples_valid: s.is_x_axis_samples_valid && all_fine(
            s.samples,
            LhCfPoseSampleType::XAxis,
        ),
        x_axis_samples_info: if s.is_x_axis_samples_valid {
            error_info(s.samples, LhCfPoseSampleType::XAxis)
        } else {
            s.x_axis_samples_info
        },
        is_xy_plane_samples_valid: s.is_xy_plane_samples_valid && all_fine(
            s.samples,
            LhCfPoseSampleType::XyPlane,
        ),
        xy_plane_samples_info: if s.is_xy_plane_samples_valid {
            error_info(s.samples, LhCfPoseSampleType::XyPlane)
        } else {
            s.xy_plane_samples_info
        },
        ..s
    }
}

/// A sample with something wrong spoils the report on its kind, which names what is wrong unless
/// the kind was refused before. It does not spoil the reports on other kinds.
pub proof fn law_report(s: SolutionView, i: int)
    requires
        0 <= i < s.samples.len(),
        !(s.samples[i].status is Valid),
    ensures
        s.samples[i].sample_type is Origin ==> {
            &&& !humanized(s).is_origin_sample_valid
            &&& s.is_origin_sample_valid ==> text::occurs_in(
                humanized(s).origin_sample_info,
                s.samples[i].status.word(),
            )
        },
        s.samples[i].sample_type is XAxis ==> {
            &&& !humanized(s).is_x_axis_samples_valid
            &&& s.is_x_axis_samples_valid ==> text::occurs_in(
                humanized(s).x_axis_samples_info,
                s.samples[i].status.word(),
            )
        },
        s.samples[i].sample_type is XyPlane ==> {
            &&& !humanized(s).is_xy_plane_samples_valid
            &&& s.is_xy_plane_samples_valid ==> text::occurs_in(
                humanized(s).xy_plane_samples_info,
                s.samples[i].status.word(),
            )
        },
{
    let kind = s.samples[i].sample_type;
    lemma_status_words(s.samples, kind, i);
    let k = status_words(s.samples, kind).index_of(s.samples[i].status.word());
    lemma_joined_part(status_words(s.samples, kind), ", "@, k);
}

proof fn lemma_joined_part(parts: Seq<Seq<char>>, sep: Seq<char>, k: int)
    requires
        0 <= k < parts.len(),
    ensures
        text::occurs_in(text::joined(parts, sep), parts[k]),
    decreases parts.len(),
{
    let none = Seq::<char>::empty();
    let all = text::joined(parts, sep);
    if parts.len() == 1 {
        text::law_occurs(none, parts[0], none, all);
        assert(none + parts[0] + none =~= parts[0]);
    } else {
        let rest = text::joined(parts.drop_last(), sep);
        if k < parts.len() - 1 {
            lemma_joined_part(parts.drop_last(), sep, k);
            let at = choose|at: int| #[trigger] text::occurs_at(rest, parts[k], at);
            let before = rest.take(at);
            let behind = rest.skip(at + parts[k].len()) + sep + parts.last();
            text::law_occurs(before, parts[k], behind, all);
            assert(rest =~= before + parts[k] + rest.skip(at + parts[k].len())) by {
                assert(rest.subrange(at, at + parts[k].len()) == parts[k]);
                assert(before + rest.subrange(at, at + parts[k].len()) + rest.skip(
                    at + parts[k].len(),
                ) =~= rest);
            }
            assert(all =~= before + parts[k] + behind);
        } else {
            text::law_occurs(rest + sep, parts.last(), none, all);
            assert(rest + sep + parts.last() + none =~= all);
        }
    }
}

/// Where nothing is wrong with the samples of a kind, the report on the kind stays as it was, and
/// is empty unless the kind was refused before.
pub proof fn law_clean_report(s: SolutionView)
    ensures
        (forall|i: int|
            0 <= i < s.samples.len() && s.samples[i].sample_type is Origin ==> (
            #[trigger] s.samples[i]).status is Valid) ==> {
            &&& humanized(s).is_origin_sample_valid == s.is_origin_sample_valid
            &&& s.is_origin_sample_valid ==> humanized(s).origin_sample_info.len() == 0
        },
        (forall|i: int|
            0 <= i < s.samples.len() && s.samples[i].sample_type is XAxis ==> (
            #[trigger] s.samples[i]).status is Valid) ==> {
            &&& humanized(s).is_x_axis_samples_valid == s.is_x_axis_samples_valid
            &&& s.is_x_axis_samples_valid ==> humanized(s).x_axis_samples_info.len() == 0
        },
        (forall|i: int|
            0 <= i < s.samples.len() && s.samples[i].sample_type is XyPlane ==> (
            #[trigger] s.samples[i]).status is Valid) ==> {
            &&& humanized(s).is_xy_plane_samples_valid == s.is_xy_plane_samples_valid
            &&& s.is_xy_plane_samples_valid ==> humanized(s).xy_plane_samples_info.len() == 0
        },
        !s.is_origin_sample_valid ==> humanized(s).origin_sample_info == s.origin_sample_info,
        !s.is_x_axis_samples_valid ==> humanized(s).x_axis_samples_info == s.x_axis_samples_info,
        !s.is_xy_plane_samples_valid ==> humanized(s).xy_plane_samples_info
            == s.xy_plane_samples_info,
        humanized(s).samples == s.samples,
        humanized(s).bs_poses == s.bs_poses,
        humanized(s).progress_is_ok == s.progress_is_ok,
        humanized(s).xyz_space_samples_info == s.xyz_space_samples_info,
        humanized(s).general_failure_info == s.general_failure_info,
{
    lemma_no_words(s.samples, LhCfPoseSampleType::Origin);
    lemma_no_words(s.samples, LhCfPoseSampleType::XAxis);
    lemma_no_words(s.samples, LhCfPoseSampleType::XyPlane);
}

proof fn lemma_no_words(samples: Seq<WrapperView>, kind: LhCfPoseSampleType)
    ensures
        (forall|i: int|
            0 <= i < samples.len() && samples[i].sample_type == kind ==> (#[trigger] samples[i]).status
                is Valid) ==> status_words(samples, kind).len() == 0,
    decreases samples.len(),
{
    if samples.len() > 0 {
        let rest = samples.drop_last();
        lemma_no_words(rest, kind);
        if forall|i: int|
            0 <= i < samples.len() && samples[i].sample_type == kind ==> (#[trigger] samples[i]).status
                is Valid {
            assert forall|i: int|
                0 <= i < rest.len() && rest[i].sample_type == kind implies (#[trigger] rest[i]).status
                is Valid by {
                assert(rest[i] == samples[i]);
            }
            assert(samples[samples.len() - 1] == samples.last());
        }
    }
}

proof fn lemma_status_words(samples: Seq<WrapperView>, kind: LhCfPoseSampleType, i: int)
    requires
        0 <= i < samples.len(),
        samples[i].sample_type == kind,
        !(samples[i].status is Valid),
    ensures
        status_words(samples, kind).contains(samples[i].status.word()),
    decreases samples.len(),
{
    let words = status_words(samples, kind);
    let rest = status_words(samples.drop_last(), kind);
    if i < samples.len() - 1 {
        lemma_status_words(samples.drop_last(), kind, i);
        let k = rest.index_of(samples[i].status.word());
        assert(words[k] == rest[k]);
    } else {
        assert(words[words.len() - 1] == samples[i].status.word());
    }
}

impl LhGeoEstimationManager {
    /// Checks the samples and records in the solution what is missing. Gives the places of the
    /// samples that take part.
    pub fn data_validation(
        matched_samples: &mut Vec<LhCfPoseSampleWrapper>,
        n_x: usize,
        n_xy: usize,
        solution: &mut LighthouseGeometrySolution,
    ) -> (valid: Vec<usize>)
        ensures
            lists::ints(valid@) == valid_places(sample::wrapper_views(old(matched_samples)@)),
            sample::wrapper_views(final(matched_samples)@) == validated_samples(
                sample::wrapper_views(old(matched_samples)@),
            ),
            final(solution)@ == validated(
                old(solution)@,
                sample::wrapper_views(old(matched_samples)@),
                n_x as nat,
                n_xy as nat,
            ),
    {
        let ghost before = sample::wrapper_views(matched_samples@);
        let ghost list = matched_samples@;
        let ghost start = solution@;
        let ghost keep = |i: int| takes_part(before[i], i);
        let mut valid: Vec<usize> = Vec::new();
        if matched_samples.len() == 0 {
            solution.is_origin_sample_valid = false;
            solution.origin_sample_info = "No data".to_string();
            solution.progress_is_ok = false;
            assert(lists::ints(valid@) =~= valid_places(before));
            assert(sample::wrapper_views(matched_samples@) =~= validated_samples(before));
            return valid;
        }
        if n_x == 0 {
            solution.is_x_axis_samples_valid = false;
            solution.x_axis_samples_info = "No data".to_string();
            solution.progress_is_ok = false;
        }
        if n_xy == 0 {
            solution.is_xy_plane_samples_valid = false;
            solution.xy_plane_samples_info = "No data".to_string();
            solution.progress_is_ok = false;
        }
        let ghost checked = solution@;
        let n: usize = matched_samples.len();
        let mut i: usize = 0;
        assert(lists::ints(valid@) =~= lists::positions_where(0, keep));
        while i < n
            invariant
                i <= n,
                n == list.len(),
                n > 0,
                matched_samples@.len() == n,
                before == sample::wrapper_views(list),
                keep == (|i: int| takes_part(before[i], i)),
                lists::ints(valid@) == lists::positions_where(i as nat, keep),
                forall|k: int|
                    0 <= k < i ==> (#[trigger] matched_samples@[k])@ == validated_samples(
                        before,
                    )[k],
                forall|k: int| i <= k < n ==> #[trigger] matched_samples@[k] == list[k],
                solution@ == (SolutionView {
                    progress_is_ok: checked.progress_is_ok && !blocked_by(before, i as int),
                    ..checked
                }),
            decreases n - i,
        {
            let ghost at = matched_samples@;
            let ghost valid_before = valid@;
            assert(matched_samples@[i as int] == list[i as int]);
            assert(before[i as int] == list[i as int]@);
            let seen: usize = matched_samples[i].pose_sample.angles_calibrated.len();
            let mandatory: bool = matched_samples[i].is_mandatory;
            let verifies: bool = matched_samples[i].sample_type
                == LhCfPoseSampleType::Verification;
            if seen < 2 {
                let sample = &mut matched_samples[i];
                if i == 0 && seen == 0 {
                    sample.status = LhCfPoseSampleStatus::NoData;
                } else {
                    sample.status = LhCfPoseSampleStatus::TooFewBs;
                }
                if i == 0 || mandatory {
                    solution.progress_is_ok = false;
                }
            }
            let part: bool = i == 0 || (if seen >= 2 {
                !verifies
            } else {
                mandatory
            });
            if part {
                valid.push(i);
                assert(lists::ints(valid@) =~= lists::ints(valid_before).push(i as int));
            }
            assert(part == keep(i as int));
            assert(blocked_by(before, i + 1) == (blocked_by(before, i as int) || (seen < 2 && (i
                == 0 || mandatory)))) by {
                if blocked_by(before, i + 1) {
                    let k = choose|k: int|
                        0 <= k < i + 1 && (#[trigger] before[k]).sample.angles.len() < 2 && (k == 0
                            || before[k].is_mandatory);
                    if k < i {
                        assert(blocked_by(before, i as int));
                    }
                }
                if blocked_by(before, i as int) {
                    let k = choose|k: int|
                        0 <= k < i && (#[trigger] before[k]).sample.angles.len() < 2 && (k == 0
                            || before[k].is_mandatory);
                    assert(blocked_by(before, i + 1));
                }
                assert(before[i as int].sample.angles.len() == seen);
            }
            assert forall|k: int| 0 <= k < i + 1 implies (#[trigger] matched_samples@[k])@
                == validated_samples(before)[k] by {
                if k < i {
                    assert(matched_samples@[k] == at[k]);
                }
            }
            i = i + 1;
        }
        assert(sample::wrapper_views(matched_samples@) =~= validated_samples(before));
        assert(lists::ints(valid@).len() == valid@.len());
        let origin_valid: bool = matched_samples[0].is_valid();
        proof {
            lists::lemma_positions_where(before.len(), keep);
            assert(keep(0));
            assert(valid_places(before).contains(0));
        }
        solution.contains_samples = valid.len() > 1 || origin_valid;
        valid
    }

    /// The report on the samples of a kind: whether nothing is wrong, and what is.
    pub fn error_info_for(
        samples: &Vec<LhCfPoseSampleWrapper>,
        sample_type: LhCfPoseSampleType,
    ) -> (report: (bool, String))
        ensures
            report.0 == all_fine(sample::wrapper_views(samples@), sample_type),
            report.1@ == error_info(sample::wrapper_views(samples@), sample_type),
    {
        let ghost views = sample::wrapper_views(samples@);
        let mut infos: Vec<String> = Vec::new();
        let mut i: usize = 0;
        assert(views.take(0) =~= Seq::empty());
        assert(text::texts(infos@) =~= Seq::empty());
        while i < samples.len()
            invariant
                i <= samples@.len(),
                views == sample::wrapper_views(samples@),
                text::texts(infos@) == status_words(views.take(i as int), sample_type),
            decreases samples.len() - i,
        {
            assert(views.take(i + 1).drop_last() =~= views.take(i as int));
            assert(views.take(i + 1).last() == samples@[i as int]@);
            let ghost before = infos@;
            if samples[i].sample_type == sample_type && samples[i].status
                != LhCfPoseSampleStatus::Valid {
                let word = samples[i].status.text().to_string();
                infos.push(word);
                assert(text::texts(infos@) =~= text::texts(before).push(word@));
            }
            i = i + 1;
        }
        assert(views.take(views.len() as int) =~= views);
        assert(text::texts(infos@).len() == infos@.len());
        let info = text::join(infos.as_slice(), ", ");
        (infos.len() == 0, info)
    }

    /// Records the reports on the samples in the solution.
    pub fn humanize_error_info(solution: &mut LighthouseGeometrySolution)
        ensures
            final(solution)@ == humanized(old(solution)@),
    {
        if solution.is_origin_sample_valid {
            let (fine, info) = Self::error_info_for(&solution.samples, LhCfPoseSampleType::Origin);
            solution.is_origin_sample_valid = fine;
            solution.origin_sample_info = info;
        }
        if solution.is_x_axis_samples_valid {
            let (fine, info) = Self::error_info_for(&solution.samples, LhCfPoseSampleType::XAxis);
            solution.is_x_axis_samples_valid = fine;
            solution.x_axis_samples_info = info;
        }
        if solution.is_xy_plane_samples_valid {
            let (fine, info) = Self::error_info_for(&solution.samples, LhCfPoseSampleType::XyPlane);
            solution.is_xy_plane_samples_valid = fine;
            solution.xy_plane_samples_info = info;
        }
    }

    /// Starts an estimation: collects the samples and checks them. Where something is missing
    /// the estimation is over at once.
    pub fn estimate_geometry(
        container: &mut LhGeoInputContainerData,
        estimates: &Vec<Vec<Option<BsPairPoses>>>,
        counter: &mut u64,
    ) -> (estimation: Estimation)
        requires
            container::estimates_fit(old(container)@, estimates@),
        ensures
            final(container)@ == container::augmented_samples(old(container)@, estimates@),
            *final(counter) == (if old(container)@.origin is Some {
                *old(counter)
            } else if *old(counter) == u64::MAX {
                0
            } else {
                (*old(counter) + 1) as u64
            }),
            started(estimation, old(container)@, estimates@, *old(counter)),
    {
        let mut matched_samples = container.get_matched_samples(estimates, counter);
        let copies = copied_samples(&matched_samples);
        let mut solution = LighthouseGeometrySolution::new(copies);
        solution.progress_info = "Data validation".to_string();
        let n_x: usize = container.x_axis_sample_count();
        let n_xy: usize = container.xy_plane_sample_count();
        Self::data_validation(&mut matched_samples, n_x, n_xy, &mut solution);
        let phase: EstimationPhase;
        if solution.progress_is_ok {
            solution.progress_info = "Initial estimation of geometry".to_string();
            phase = EstimationPhase::InitialEstimate;
        } else {
            Self::humanize_error_info(&mut solution);
            phase = EstimationPhase::Finished;
        }
        Estimation {
            solution,
            phase,
            n_x,
            n_xy,
            errors: Vec::new(),
            verification_errors: Vec::new(),
        }
    }
}

/// An estimation that was started on the given samples: they were checked, and where something
/// is missing the estimation is over.
pub open spec fn started(
    estimation: Estimation,
    c: ContainerView,
    estimates: Seq<Vec<Option<BsPairPoses>>>,
    counter: u64,
) -> bool {
    let samples = container::matched(container::augmented_samples(c, estimates), counter);
    let checked = validated(
        (SolutionView { progress_info: "Data validation"@, ..solution::fresh(samples) }),
        samples,
        c.x_axis.len(),
        c.xy_plane.len(),
    );
    &&& estimation.n_x == c.x_axis.len()
    &&& estimation.n_xy == c.xy_plane.len()
    &&& estimation.errors@.len() == 0
    &&& estimation.verification_errors@.len() == 0
    &&& if checked.progress_is_ok {
        &&& estimation.phase is InitialEstimate
        &&& estimation.solution@ == (SolutionView {
            progress_info: "Initial estimation of geometry"@,
            ..checked
        })
    } else {
        &&& estimation.phase is Finished
        &&& estimation.solution@ == humanized(checked)
    }
}

/// An estimation goes on after its start if and only if there are samples on the x-axis and in
/// the xy-plane and the origin and all mandatory samples see two base stations. Whether or not,
/// no pose is known then.
pub proof fn law_start(
    estimation: Estimation,
    c: ContainerView,
    estimates: Seq<Vec<Option<BsPairPoses>>>,
    counter: u64,
)
    requires
        started(estimation, c, estimates, counter),
    ensures
        estimation.phase is InitialEstimate <==> c.x_axis.len() > 0 && c.xy_plane.len() > 0
            && !blocked_by(
            container::matched(container::augmented_samples(c, estimates), counter),
            container::places(c),
        ),
        estimation.phase is InitialEstimate || estimation.phase is Finished,
        estimation.solution@.bs_poses.len() == 0,
        !estimation.solution@.has_converged,
{
}

fn copied_samples(samples: &Vec<LhCfPoseSampleWrapper>) -> (r: Vec<LhCfPoseSampleWrapper>)
    ensures
        sample::wrapper_views(r@) == sample::wrapper_views(samples@),
{
    let mut r: Vec<LhCfPoseSampleWrapper> = Vec::new();
    let mut i: usize = 0;
    while i < samples.len()
        invariant
            i <= samples@.len(),
            r@.len() == i,
            forall|k: int| 0 <= k < i ==> (#[trigger] r@[k])@ == samples@[k]@,
        decreases samples.len() - i,
    {
        r.push(samples[i].copied());
        i = i + 1;
    }
    assert(sample::wrapper_views(r@) =~= sample::wrapper_views(samples@));
    r
}

// ---------------------------------------------------------------------------
// The steps
// ---------------------------------------------------------------------------

/// What an estimation waits for.
#[derive(Debug, Clone, Copy, PartialEq, Eq, Structural)]
pub enum EstimationPhase {
    /// The first estimate of all poses.
    InitialEstimate,
    /// The refined poses.
    Refine,
    /// The aligned and scaled poses.
    AlignAndScale,
    /// The errors of the samples.
    Errors,
    /// The statistics of the errors.
    Statistics,
    /// Nothing.
    Finished,
}

/// An estimation under way.
pub struct Estimation {
    pub solution: LighthouseGeometrySolution,
    pub phase: EstimationPhase,
    /// How many samples are on the x-axis.
    pub n_x: usize,
    /// How many samples are in the xy-plane.
    pub n_xy: usize,
    /// The errors of the samples that the geometry was estimated from.
    pub errors: Vec<u64>,
    /// The errors of the samples for verification.
    pub verification_errors: Vec<u64>,
}

/// What the alignment starts from.
pub struct AlignmentInput {
    pub origin: [u64; 3],
    pub x_axis: Vec<[u64; 3]>,
    pub xy_plane: Vec<[u64; 3]>,
    /// The poses of all samples that have one, in order.
    pub cf_poses: Vec<Pose>,
}

/// The positions of the samples from place `from` up to `to` that have a pose.
pub open spec fn positions_between(samples: Seq<WrapperView>, from: int, to: int) -> Seq<[u64; 3]>
    decreases to - from,
{
    if to <= from {
        Seq::empty()
    } else {
        let rest = positions_between(samples, from, to - 1);
        if to - 1 < samples.len() && samples[to - 1].pose is Some {
            rest.push(samples[to - 1].pose->0.translation)
        } else {
            rest
        }
    }
}

/// The poses of the samples that have one.
pub open spec fn known_poses(samples: Seq<WrapperView>) -> Seq<Pose>
    decreases samples.len(),
{
    if samples.len() == 0 {
        Seq::empty()
    } else {
        let rest = known_poses(samples.drop_last());
        match samples.last().pose {
            Some(pose) => rest.push(pose),
            None => rest,
        }
    }
}

/// The samples with new poses, in order, for those that have one. Left over samples keep theirs.
pub open spec fn reposed(samples: Seq<WrapperView>, poses: Seq<Pose>) -> Seq<WrapperView> {
    Seq::new(
        samples.len(),
        |i: int|
            if samples[i].pose is Some && known_poses(samples.take(i)).len() < poses.len() {
                WrapperView {
                    pose: Some(poses[known_poses(samples.take(i)).len() as int]),
                    ..samples[i]
                }
            } else {
                samples[i]
            },
    )
}

/// The base stations whose beams are crossed in a sample: those of known pose, if there are two.
/// For a sample for verification all must be known.
pub open spec fn crossed(s: WrapperView, bs_poses: Seq<(u8, Pose)>) -> Seq<u8> {
    let ids = station_map::ids_of(s.sample.angles);
    let known = link_search::stations_known(ids, bs_poses);
    if known.len() < 2 || (s.sample_type is Verification && known.len() < ids.len()) {
        Seq::empty()
    } else {
        known
    }
}

/// Some base station in sight has no pose.
pub open spec fn some_unknown(s: WrapperView, bs_poses: Seq<(u8, Pose)>) -> bool {
    link_search::stations_known(station_map::ids_of(s.sample.angles), bs_poses).len()
        < s.sample.angles.len()
}

/// What the beams of a sample tell: how far they miss each other, and where they cross.
#[derive(Debug, Clone, Copy)]
pub struct BeamResult {
    pub distance: u64,
    pub position: [u64; 3],
}

/// A sample with its error. A sample for verification also gets its position, or is marked if a
/// base station is unknown.
pub open spec fn with_error(
    s: WrapperView,
    bs_poses: Seq<(u8, Pose)>,
    result: BeamResult,
) -> WrapperView {
    if s.sample_type is Verification {
        if some_unknown(s, bs_poses) {
            WrapperView { status: LhCfPoseSampleStatus::BsUnknown, ..s }
        } else if crossed(s, bs_poses).len() > 0 {
            WrapperView {
                pose: Some(
                    Pose { rot_matrix: types::identity_matrix(), translation: result.position },
                ),
                error_distance: result.distance,
                ..s
            }
        } else {
            s
        }
    } else if crossed(s, bs_poses).len() > 0 {
        WrapperView { error_distance: result.distance, ..s }
    } else {
        s
    }
}

/// The errors of the samples, those for verification or the others.
pub open spec fn errors_of(
    samples: Seq<WrapperView>,
    bs_poses: Seq<(u8, Pose)>,
    results: Seq<BeamResult>,
    verification: bool,
    n: nat,
) -> Seq<u64>
    decreases n,
{
    if n == 0 {
        Seq::empty()
    } else {
        let rest = errors_of(samples, bs_poses, results, verification, (n - 1) as nat);
        let s = samples[n - 1];
        if (s.sample_type is Verification) == verification && crossed(s, bs_poses).len() > 0 {
            rest.push(results[n - 1].distance)
        } else {
            rest
        }
    }
}

fn crossed_stations(sample: &LhCfPoseSampleWrapper, bs_poses: &StationMap<Pose>) -> (r: (
    Vec<u8>,
    bool,
))
    ensures
        r.0@ == crossed(sample@, bs_poses@),
        r.1 == some_unknown(sample@, bs_poses@),
{
    let ids = sample.base_station_ids();
    let known = link_search::known_stations(&ids, bs_poses);
    let unknown: bool = known.len() < ids.len();
    if known.len() < 2 || (sample.sample_type == LhCfPoseSampleType::Verification && unknown) {
        let none: Vec<u8> = Vec::new();
        assert(none@ =~= crossed(sample@, bs_poses@));
        (none, unknown)
    } else {
        (known, unknown)
    }
}

fn positions_in(samples: &Vec<LhCfPoseSampleWrapper>, from: usize, to: usize) -> (r: Vec<[u64; 3]>)
    requires
        from <= to,
    ensures
        r@ == positions_between(sample::wrapper_views(samples@), from as int, to as int),
{
    let ghost views = sample::wrapper_views(samples@);
    let mut r: Vec<[u64; 3]> = Vec::new();
    let mut i: usize = from;
    while i < to
        invariant
            from <= i <= to,
            views == sample::wrapper_views(samples@),
            r@ == positions_between(views, from as int, i as int),
        decreases to - i,
    {
        if i < samples.len() {
            assert(views[i as int] == samples@[i as int]@);
            if let Some(pose) = samples[i].pose() {
                r.push(pose.translation);
            }
        }
        i = i + 1;
    }
    r
}

fn poses_of(samples: &Vec<LhCfPoseSampleWrapper>) -> (r: Vec<Pose>)
    ensures
        r@ == known_poses(sample::wrapper_views(samples@)),
{
    let ghost views = sample::wrapper_views(samples@);
    let mut r: Vec<Pose> = Vec::new();
    let mut i: usize = 0;
    assert(views.take(0) =~= Seq::empty());
    while i < samples.len()
        invariant
            i <= samples@.len(),
            views == sample::wrapper_views(samples@),
            r@ == known_poses(views.take(i as int)),
        decreases samples.len() - i,
    {
        assert(views.take(i + 1).drop_last() =~= views.take(i as int));
        assert(views.take(i + 1).last() == samples@[i as int]@);
        if let Some(pose) = samples[i].pose() {
            r.push(pose);
        }
        i = i + 1;
    }
    assert(views.take(views.len() as int) =~= views);
    r
}

/// Which samples of a solution are kept, and with which poses.
pub open spec fn selected(
    s: SolutionView,
    distances: Seq<Vec<Option<[u64; 4]>>>,
) -> initial_estimator::SelectionView {
    initial_estimator::selection(
        s.samples,
        initial_estimator::distance_lists(distances),
        s.progress_is_ok,
        s.xyz_space_samples_info,
        s.samples.len(),
    )
}

/// The solution once the poses in its samples were selected, with the counts of another.
pub open spec fn counted(
    s: SolutionView,
    distances: Seq<Vec<Option<[u64; 4]>>>,
    counts: SolutionView,
) -> SolutionView {
    SolutionView {
        samples: initial_estimator::with_statuses(s.samples, selected(s, distances).statuses),
        progress_is_ok: selected(s, distances).progress_is_ok,
        xyz_space_samples_info: selected(s, distances).info,
        link_count: counts.link_count,
        bs_sample_count: counts.bs_sample_count,
        link_count_ok_threshold: if counts.link_count.len() > 2 {
            2
        } else {
            s.link_count_ok_threshold
        },
        ..s
    }
}

proof fn lemma_marking_keeps_sight(
    samples: Seq<WrapperView>,
    statuses: Seq<LhCfPoseSampleStatus>,
    kept: Seq<usize>,
)
    requires
        forall|i: int| 0 <= i < kept.len() ==> (#[trigger] kept[i]) < samples.len(),
    ensures
        linking::seen_by(initial_estimator::with_statuses(samples, statuses), kept)
            =~= linking::seen_by(samples, kept),
        linking::linked_by(initial_estimator::with_statuses(samples, statuses), kept)
            =~= linking::linked_by(samples, kept),
    decreases kept.len(),
{
    let marked = initial_estimator::with_statuses(samples, statuses);
    if kept.len() > 0 {
        let rest = kept.drop_last();
        assert forall|i: int| 0 <= i < rest.len() implies (#[trigger] rest[i]) < samples.len() by {
            assert(rest[i] == kept[i]);
        }
        lemma_marking_keeps_sight(samples, statuses, rest);
        assert(kept[kept.len() - 1] < samples.len());
        assert forall|a: u8| #[trigger] linking::times_seen(marked, kept, a) == linking::times_seen(
            samples,
            kept,
            a,
        ) by {
            assert(linking::seen_by(marked, rest)(a) == linking::seen_by(samples, rest)(a));
        }
        assert forall|a: u8, b: u8| #[trigger]
            linking::times_linked(marked, kept, a, b) == linking::times_linked(
            samples,
            kept,
            a,
            b,
        ) by {
            assert(linking::linked_by(marked, rest)(a, b) == linking::linked_by(samples, rest)(
                a,
                b,
            ));
        }
    }
}

impl Estimation {
    /// The counts of the solution start at zero and the samples are few enough to count.
    pub open spec fn counts_start(&self) -> bool {
        &&& self.solution@.link_count.len() == 0
        &&& self.solution@.bs_sample_count.len() == 0
        &&& self.solution@.samples.len() <= u32::MAX
    }

    /// Finds the poses that fit in each sample, given the distances of the possible ones from
    /// what is expected, and counts the links. Gives the poses and the samples they are of; or
    /// nothing, and the estimation is over, if a mandatory sample is ambiguous.
    pub fn select_poses(&mut self, distances: &Vec<Vec<Option<[u64; 4]>>>) -> (found: Option<
        (Vec<StationMap<Pose>>, Vec<usize>),
    >)
        requires
            old(self).phase is InitialEstimate,
            old(self).counts_start(),
            initial_estimator::distances_fit(
                old(self).solution@.samples,
                initial_estimator::distance_lists(distances@),
            ),
        ensures
            found is Some <==> selected(old(self).solution@, distances@).progress_is_ok,
            found matches Some(f) ==> {
                &&& initial_estimator::pose_lists(f.0@) == selected(
                    old(self).solution@,
                    distances@,
                ).poses
                &&& lists::ints(f.1@) == selected(old(self).solution@, distances@).kept
                &&& forall|i: int|
                    0 <= i < f.1@.len() ==> (#[trigger] f.1@[i]) < old(
                        self,
                    ).solution@.samples.len()
            },
            exists|kept: Seq<usize>|
                {
                    &&& lists::ints(kept) == selected(old(self).solution@, distances@).kept
                    &&& #[trigger] linking::counts_grown(
                        Seq::empty(),
                        final(self).solution@.bs_sample_count,
                        linking::seen_by(old(self).solution@.samples, kept),
                    )
                    &&& linking::links_grown(
                        Seq::empty(),
                        final(self).solution@.link_count,
                        linking::linked_by(old(self).solution@.samples, kept),
                    )
                },
            final(self).solution@ == (if found is Some {
                counted(old(self).solution@, distances@, final(self).solution@)
            } else {
                humanized(counted(old(self).solution@, distances@, final(self).solution@))
            }),
            final(self).phase == (if found is Some {
                EstimationPhase::InitialEstimate
            } else {
                EstimationPhase::Finished
            }),
            final(self).n_x == old(self).n_x,
            final(self).n_xy == old(self).n_xy,
            final(self).errors == old(self).errors,
            final(self).verification_errors == old(self).verification_errors,
    {
        let ghost start = self.solution@;
        let mut samples: Vec<LhCfPoseSampleWrapper> = Vec::new();
        std::mem::swap(&mut samples, &mut self.solution.samples);
        assert(self.solution.samples@.len() == 0);
        assert(sample::wrapper_views(self.solution.samples@) =~= Seq::empty());
        let (poses, kept) = LighthouseInitialEstimator::angles_to_poses(
            &mut samples,
            distances,
            &mut self.solution,
        );
        proof {
            initial_estimator::lemma_selection_kept(
                start.samples,
                initial_estimator::distance_lists(distances@),
                start.progress_is_ok,
                start.xyz_space_samples_info,
                start.samples.len(),
            );
            let s = initial_estimator::selection(
                start.samples,
                initial_estimator::distance_lists(distances@),
                start.progress_is_ok,
                start.xyz_space_samples_info,
                start.samples.len(),
            );
            assert(lists::ints(kept@).len() == kept@.len());
            assert(sample::wrapper_views(samples@).len() == samples@.len());
            assert forall|i: int| 0 <= i < kept@.len() implies (#[trigger] kept@[i])
                < samples@.len() by {
                assert(lists::ints(kept@)[i] == kept@[i]);
                assert(0 <= s.kept[i] < start.samples.len());
            }
            assert(self.solution@.link_count =~= Seq::empty());
            assert(self.solution@.bs_sample_count =~= Seq::empty());
            assert forall|a: u8| station_map::ascending(
                #[trigger] linking::links_of(self.solution@.link_count, a),
            ) by {
                assert(!station_map::holds(self.solution@.link_count, a));
            }
            assert forall|a: u8| #[trigger]
                linking::count_of(self.solution@.bs_sample_count, a) + kept@.len()
                <= u32::MAX by {
                assert(!station_map::holds(self.solution@.bs_sample_count, a));
            }
            assert forall|a: u8, b: u8| #[trigger]
                linking::link_of(self.solution@.link_count, a, b) + kept@.len() <= u32::MAX by {
                assert(!station_map::holds(self.solution@.link_count, a));
                assert(!station_map::holds(linking::links_of(self.solution@.link_count, a), b));
            }
        }
        LighthouseInitialEstimator::build_link_stats(&samples, &kept, &mut self.solution);
        self.solution.samples = samples;
        proof {
            lemma_marking_keeps_sight(
                start.samples,
                selected(start, distances@).statuses,
                kept@,
            );
            assert(linking::counts_grown(
                Seq::empty(),
                self.solution@.bs_sample_count,
                linking::seen_by(start.samples, kept@),
            ));
            assert(linking::links_grown(
                Seq::empty(),
                self.solution@.link_count,
                linking::linked_by(start.samples, kept@),
            ));
        }
        if self.solution.progress_is_ok {
            Some((poses, kept))
        } else {
            LhGeoEstimationManager::humanize_error_info(&mut self.solution);
            self.phase = EstimationPhase::Finished;
            None
        }
    }

    /// Takes over the first estimate: the poses of the base stations and of the Crazyflie in
    /// each kept sample, or the reason why there are none, which ends the estimation.
    pub fn initial_estimated(
        &mut self,
        kept: &Vec<usize>,
        outcome: Result<(StationMap<Pose>, Vec<Pose>), String>,
    )
        requires
            old(self).phase is InitialEstimate,
            old(self).solution@.progress_is_ok,
            forall|i: int|
                0 <= i < kept@.len() ==> (#[trigger] kept@[i]) < old(self).solution@.samples.len(),
        ensures
            match outcome {
                Ok((bs_poses, cf_poses)) => {
                    &&& final(self).phase is Refine
                    &&& final(self).solution@ == (SolutionView {
                        samples: initial_estimator::with_cf_poses(
                            old(self).solution@.samples,
                            kept@,
                            cf_poses@,
                            kept@.len(),
                        ),
                        bs_poses: bs_poses@,
                        progress_info: "Refining geometry solution"@,
                        ..old(self).solution@
                    })
                },
                Err(reason) => {
                    &&& final(self).phase is Finished
                    &&& final(self).solution@ == humanized(
                        (SolutionView {
                            progress_is_ok: false,
                            general_failure_info: reason@,
                            ..old(self).solution@
                        }),
                    )
                },
            },
            final(self).n_x == old(self).n_x,
            final(self).n_xy == old(self).n_xy,
            final(self).errors == old(self).errors,
            final(self).verification_errors == old(self).verification_errors,
    {
        let mut samples: Vec<LhCfPoseSampleWrapper> = Vec::new();
        std::mem::swap(&mut samples, &mut self.solution.samples);
        LighthouseInitialEstimator::estimate_full(
            &mut samples,
            kept,
            outcome,
            &mut self.solution,
        );
        self.solution.samples = samples;
        if self.solution.progress_is_ok {
            self.solution.progress_info = "Refining geometry solution".to_string();
            self.phase = EstimationPhase::Refine;
        } else {
            LhGeoEstimationManager::humanize_error_info(&mut self.solution);
            self.phase = EstimationPhase::Finished;
        }
    }

    /// The problem to refine the poses with.
    pub fn refinement(&self) -> (layout: SolverLayout)
        requires
            self.phase is Refine,
            self.solution@.samples.len() > 0,
            geometry_solver::stations_known(self.solution@.samples, self.solution@.bs_poses),
        ensures
            ({
                let views = self.solution@.samples;
                let bs_poses = self.solution@.bs_poses;
                &&& layout.bs_ids@ == station_map::ids_of(bs_poses)
                &&& layout.pairs@ == geometry_solver::all_pairs(views, bs_poses, views.len())
                &&& layout.target_angles@ == geometry_solver::all_targets(views, views.len())
                &&& layout.bs_poses@ == Seq::new(bs_poses.len(), |i: int| bs_poses[i].1)
                &&& layout.cf_poses@ == geometry_solver::starting_poses(views)
            }),
    {
        LighthouseGeometrySolver::prepare(&self.solution.samples, &self.solution.bs_poses)
    }

    /// Takes over the refined poses.
    pub fn refined(
        &mut self,
        layout: &SolverLayout,
        bs_poses: &Vec<Pose>,
        cf_poses: &Vec<Pose>,
        converged: bool,
    )
        requires
            old(self).phase is Refine,
            old(self).solution@.samples.len() > 0,
            cf_poses@.len() == old(self).solution@.samples.len() - 1,
            bs_poses@.len() == layout.bs_ids@.len(),
            forall|i: int, j: int|
                0 <= i < j < layout.bs_ids@.len() ==> #[trigger] layout.bs_ids@[i]
                    < #[trigger] layout.bs_ids@[j],
        ensures
            final(self).phase is AlignAndScale,
            final(self).solution@ == (SolutionView {
                samples: geometry_solver::refined(old(self).solution@.samples, cf_poses@),
                bs_poses: Seq::new(
                    bs_poses@.len(),
                    |i: int| (layout.bs_ids@[i], bs_poses@[i]),
                ),
                has_converged: converged,
                progress_info: "Align and scale solution"@,
                ..old(self).solution@
            }),
            final(self).n_x == old(self).n_x,
            final(self).n_xy == old(self).n_xy,
            final(self).errors == old(self).errors,
            final(self).verification_errors == old(self).verification_errors,
    {
        let mut samples: Vec<LhCfPoseSampleWrapper> = Vec::new();
        std::mem::swap(&mut samples, &mut self.solution.samples);
        LighthouseGeometrySolver::solve(
            &mut samples,
            layout,
            bs_poses,
            cf_poses,
            converged,
            &mut self.solution,
        );
        self.solution.samples = samples;
        self.solution.progress_info = "Align and scale solution".to_string();
        self.phase = EstimationPhase::AlignAndScale;
    }

    /// What the alignment starts from: the origin, the positions on the x-axis and in the
    /// xy-plane, and all poses. Nothing where one of the three is missing.
    pub fn align_and_scale_solution(&self) -> (input: Option<AlignmentInput>)
        requires
            1 + self.n_x + self.n_xy <= usize::MAX,
        ensures
            ({
                let samples = self.solution@.samples;
                let x_axis = positions_between(samples, 1, 1 + self.n_x);
                let xy_plane = positions_between(samples, 1 + self.n_x, 1 + self.n_x + self.n_xy);
                &&& input is Some <==> samples.len() > 0 && samples[0].pose is Some && x_axis.len()
                    > 0 && xy_plane.len() > 0
                &&& input matches Some(i) ==> {
                    &&& i.origin == samples[0].pose->0.translation
                    &&& i.x_axis@ == x_axis
                    &&& i.xy_plane@ == xy_plane
                    &&& i.cf_poses@ == known_poses(samples)
                }
            }),
    {
        let samples = &self.solution.samples;
        if samples.len() == 0 {
            return None;
        }
        assert(self.solution@.samples[0] == samples@[0]@);
        let origin = match samples[0].pose() {
            Some(pose) => pose.translation,
            None => {
                return None;
            },
        };
        let x_axis = positions_in(samples, 1, 1 + self.n_x);
        let xy_plane = positions_in(samples, 1 + self.n_x, 1 + self.n_x + self.n_xy);
        if x_axis.len() == 0 || xy_plane.len() == 0 {
            return None;
        }
        Some(AlignmentInput { origin, x_axis, xy_plane, cf_poses: poses_of(samples) })
    }

    /// Takes over the aligned and scaled poses. Where there is nothing to scale by, the poses
    /// stay as they are.
    pub fn aligned(&mut self, scaled: Option<(StationMap<Pose>, Vec<Pose>)>)
        requires
            old(self).phase is AlignAndScale,
        ensures
            final(self).phase is Errors,
            final(self).solution@ == (match scaled {
                Some((bs_poses, cf_poses)) => SolutionView {
                    samples: reposed(old(self).solution@.samples, cf_poses@),
                    bs_poses: bs_poses@,
                    ..old(self).solution@
                },
                None => old(self).solution@,
            }),
            final(self).n_x == old(self).n_x,
            final(self).n_xy == old(self).n_xy,
            final(self).errors == old(self).errors,
            final(self).verification_errors == old(self).verification_errors,
    {
        if let Some((bs_poses, cf_poses)) = scaled {
            self.solution.bs_poses = bs_poses;
            let ghost before = self.solution@.samples;
            let mut samples: Vec<LhCfPoseSampleWrapper> = Vec::new();
            std::mem::swap(&mut samples, &mut self.solution.samples);
            let ghost list = samples@;
            let n: usize = samples.len();
            let mut next: usize = 0;
            let mut i: usize = 0;
            assert(before.take(0) =~= Seq::empty());
            while i < n
                invariant
                    i <= n,
                    n == list.len(),
                    samples@.len() == n,
                    before == sample::wrapper_views(list),
                    next == (if known_poses(before.take(i as int)).len() < cf_poses@.len() {
                        known_poses(before.take(i as int)).len()
                    } else {
                        cf_poses@.len()
                    }),
                    forall|k: int|
                        0 <= k < i ==> (#[trigger] samples@[k])@ == reposed(before, cf_poses@)[k],
                    forall|k: int| i <= k < n ==> #[trigger] samples@[k] == list[k],
                decreases n - i,
            {
                let ghost at = samples@;
                assert(samples@[i as int] == list[i as int]);
                assert(before[i as int] == list[i as int]@);
                assert(before.take(i + 1).drop_last() =~= before.take(i as int));
                assert(before.take(i + 1).last() == before[i as int]);
                if samples[i].has_pose() && next < cf_poses.len() {
                    let sample = &mut samples[i];
                    sample.set_pose(cf_poses[next]);
                    next = next + 1;
                }
                assert forall|k: int| 0 <= k < i + 1 implies (#[trigger] samples@[k])@ == reposed(
                    before,
                    cf_poses@,
                )[k] by {
                    if k < i {
                        assert(samples@[k] == at[k]);
                    }
                }
                i = i + 1;
            }
            assert(sample::wrapper_views(samples@) =~= reposed(before, cf_poses@));
            self.solution.samples = samples;
        }
        self.phase = EstimationPhase::Errors;
    }

    /// The base stations whose beams are to be crossed in each sample; none where the sample
    /// gets no error.
    pub fn beams_to_cross(&self) -> (sets: Vec<Vec<u8>>)
        ensures
            sets@.len() == self.solution@.samples.len(),
            forall|i: int|
                0 <= i < sets@.len() ==> (#[trigger] sets@[i])@ == crossed(
                    self.solution@.samples[i],
                    self.solution@.bs_poses,
                ),
    {
        let mut sets: Vec<Vec<u8>> = Vec::new();
        let mut i: usize = 0;
        while i < self.solution.samples.len()
            invariant
                i <= self.solution.samples@.len(),
                sets@.len() == i,
                forall|k: int|
                    0 <= k < i ==> (#[trigger] sets@[k])@ == crossed(
                        self.solution@.samples[k],
                        self.solution@.bs_poses,
                    ),
            decreases self.solution.samples.len() - i,
        {
            let (set, _) = crossed_stations(&self.solution.samples[i], &self.solution.bs_poses);
            sets.push(set);
            i = i + 1;
        }
        sets
    }

    /// Takes over the errors of the samples.
    pub fn create_solution_stats(&mut self, results: &Vec<BeamResult>)
        requires
            old(self).phase is Errors,
            results@.len() == old(self).solution@.samples.len(),
        ensures
            final(self).phase is Statistics,
            ({
                let before = old(self).solution@;
                let n = before.samples.len();
                &&& final(self).solution@ == (SolutionView {
                    samples: Seq::new(
                        n,
                        |i: int| with_error(before.samples[i], before.bs_poses, results@[i]),
                    ),
                    ..before
                })
                &&& final(self).errors@ == errors_of(
                    before.samples,
                    before.bs_poses,
                    results@,
                    false,
                    n,
                )
                &&& final(self).verification_errors@ == errors_of(
                    before.samples,
                    before.bs_poses,
                    results@,
                    true,
                    n,
                )
            }),
            final(self).n_x == old(self).n_x,
            final(self).n_xy == old(self).n_xy,
    {
        let ghost before = self.solution@;
        let mut samples: Vec<LhCfPoseSampleWrapper> = Vec::new();
        std::mem::swap(&mut samples, &mut self.solution.samples);
        let ghost list = samples@;
        let ghost known = before.bs_poses;
        let n: usize = samples.len();
        let mut errors: Vec<u64> = Vec::new();
        let mut verification_errors: Vec<u64> = Vec::new();
        let mut i: usize = 0;
        while i < n
            invariant
                i <= n,
                n == list.len(),
                samples@.len() == n,
                results@.len() == n,
                before.samples == sample::wrapper_views(list),
                known == before.bs_poses,
                self.solution.bs_poses@ == known,
                errors@ == errors_of(before.samples, known, results@, false, i as nat),
                verification_errors@ == errors_of(
                    before.samples,
                    known,
                    results@,
                    true,
                    i as nat,
                ),
                forall|k: int|
                    0 <= k < i ==> (#[trigger] samples@[k])@ == with_error(
                        before.samples[k],
                        known,
                        results@[k],
                    ),
                forall|k: int| i <= k < n ==> #[trigger] samples@[k] == list[k],
            decreases n - i,
        {
            let ghost at = samples@;
            assert(samples@[i as int] == list[i as int]);
            assert(before.samples[i as int] == list[i as int]@);
            let (set, unknown) = crossed_stations(&samples[i], &self.solution.bs_poses);
            let verifies: bool = samples[i].sample_type == LhCfPoseSampleType::Verification;
            let result: BeamResult = results[i];
            let sample = &mut samples[i];
            if verifies {
                if unknown {
                    sample.status = LhCfPoseSampleStatus::BsUnknown;
                } else if set.len() > 0 {
                    let turned = Pose::default();
                    sample.set_pose(Pose::new(turned.rot_matrix, result.position));
                    sample.error_distance = result.distance;
                    verification_errors.push(result.distance);
                }
            } else if set.len() > 0 {
                sample.error_distance = result.distance;
                errors.push(result.distance);
            }
            assert forall|k: int| 0 <= k < i + 1 implies (#[trigger] samples@[k])@ == with_error(
                before.samples[k],
                known,
                results@[k],
            ) by {
                if k < i {
                    assert(samples@[k] == at[k]);
                }
            }
            i = i + 1;
        }
        assert(sample::wrapper_views(samples@) =~= Seq::new(
            n as nat,
            |i: int| with_error(before.samples[i], known, results@[i]),
        ));
        self.solution.samples = samples;
        self.errors = errors;
        self.verification_errors = verification_errors;
        self.phase = EstimationPhase::Statistics;
    }

    /// Takes over the means and deviations of the errors and ends the estimation. Where there
    /// are no errors there are no statistics.
    pub fn create_verification_stats(
        &mut self,
        mean: u64,
        deviation: u64,
        verification_mean: u64,
        verification_deviation: u64,
    )
        requires
            old(self).phase is Statistics,
        ensures
            final(self).phase is Finished,
            final(self).solution@ == humanized(
                (SolutionView {
                    error_stats: if old(self).errors@.len() > 0 {
                        Some(
                            ErrorStats {
                                mean,
                                max: crossing_beam::greatest(old(self).errors@),
                                deviation,
                            },
                        )
                    } else {
                        old(self).solution@.error_stats
                    },
                    verification_stats: if old(self).verification_errors@.len() > 0 {
                        Some(
                            ErrorStats {
                                mean: verification_mean,
                                max: crossing_beam::greatest(old(self).verification_errors@),
                                deviation: verification_deviation,
                            },
                        )
                    } else {
                        old(self).solution@.verification_stats
                    },
                    ..old(self).solution@
                }),
            ),
            final(self).n_x == old(self).n_x,
            final(self).n_xy == old(self).n_xy,
            final(self).errors == old(self).errors,
            final(self).verification_errors == old(self).verification_errors,
    {
        if self.errors.len() > 0 {
            let max: u64 = LighthouseCrossingBeam::max_distance_all_permutations(&self.errors);
            self.solution.error_stats = Some(ErrorStats { mean, max, deviation });
        }
        if self.verification_errors.len() > 0 {
            let max: u64 = LighthouseCrossingBeam::max_distance_all_permutations(
                &self.verification_errors,
            );
            self.solution.verification_stats = Some(
                ErrorStats { mean: verification_mean, max, deviation: verification_deviation },
            );
        }
        LhGeoEstimationManager::humanize_error_info(&mut self.solution);
        self.phase = EstimationPhase::Finished;
    }
}

/// Validation marks a sample that sees one base station, and one other than the origin that sees
/// none, as seeing too few; the origin without any has no data. Other samples keep their state.
pub proof fn law_sight_validated(s: WrapperView, place: int)
    ensures
        s.sample.angles.len() >= 2 ==> validated_status(s, place) == s.status,
        s.sample.angles.len() == 1 ==> validated_status(s, place) is TooFewBs,
        s.sample.angles.len() == 0 && place == 0 ==> validated_status(s, place) is NoData,
        s.sample.angles.len() == 0 && place != 0 ==> validated_status(s, place) is TooFewBs,
{
}

/// The origin takes part in any case. Another sample that sees two base stations takes part
/// unless it is for verification; one that sees fewer only if it can not be left out.
pub proof fn law_who_takes_part(s: WrapperView, place: int)
    ensures
        takes_part(s, 0),
        place != 0 && s.sample.angles.len() >= 2 ==> (takes_part(s, place) <==> s.sample_type
            != LhCfPoseSampleType::Verification),
        place != 0 && s.sample.angles.len() < 2 ==> (takes_part(s, place) <==> s.is_mandatory),
{
}

/// The samples that take part are listed by their places, ascending.
pub proof fn law_participants(samples: Seq<WrapperView>, p: int)
    ensures
        valid_places(samples).contains(p) <==> 0 <= p < samples.len() && takes_part(samples[p], p),
        forall|i: int, j: int|
            #![trigger valid_places(samples)[i], valid_places(samples)[j]]
            0 <= i < j < valid_places(samples).len() ==> valid_places(samples)[i] < valid_places(
                samples,
            )[j],
{
    let keep = |i: int| takes_part(samples[i], i);
    lists::lemma_positions_where(samples.len(), keep);
    if 0 <= p < samples.len() && takes_part(samples[p], p) {
        assert(keep(p));
    }
    if valid_places(samples).contains(p) {
        let k = valid_places(samples).index_of(p);
        assert(keep(valid_places(samples)[k]));
    }
}

/// Validation refuses a geometry without samples for want of an origin. Otherwise it refuses the
/// x-axis and the xy-plane for want of samples, and goes on if and only if both have some and no
/// sample that can not be left out sees too few base stations. Samples and poses stay.
pub proof fn law_validation(s: SolutionView, samples: Seq<WrapperView>, n_x: nat, n_xy: nat)
    ensures
        ({
            let v = validated(s, samples, n_x, n_xy);
            &&& v.samples == s.samples && v.bs_poses == s.bs_poses
            &&& samples.len() == 0 ==> {
                &&& !v.is_origin_sample_valid && v.origin_sample_info == "No data"@
                &&& !v.progress_is_ok
                &&& v.x_axis_samples_info == s.x_axis_samples_info
                &&& v.xy_plane_samples_info == s.xy_plane_samples_info
            }
            &&& samples.len() > 0 ==> {
                &&& v.is_origin_sample_valid == s.is_origin_sample_valid
                &&& v.origin_sample_info == s.origin_sample_info
                &&& n_x == 0 ==> !v.is_x_axis_samples_valid && v.x_axis_samples_info == "No data"@
                &&& n_x > 0 ==> v.is_x_axis_samples_valid == s.is_x_axis_samples_valid
                    && v.x_axis_samples_info == s.x_axis_samples_info
                &&& n_xy == 0 ==> !v.is_xy_plane_samples_valid && v.xy_plane_samples_info
                    == "No data"@
                &&& n_xy > 0 ==> v.is_xy_plane_samples_valid == s.is_xy_plane_samples_valid
                    && v.xy_plane_samples_info == s.xy_plane_samples_info
                &&& s.progress_is_ok ==> (v.progress_is_ok <==> n_x > 0 && n_xy > 0
                    && samples[0].sample.angles.len() >= 2 && forall|i: int|
                    0 <= i < samples.len() && samples[i].is_mandatory ==> (
                    #[trigger] samples[i]).sample.angles.len() >= 2)
                &&& !s.progress_is_ok ==> !v.progress_is_ok
            }
        }),
{
    let v = validated(s, samples, n_x, n_xy);
    if samples.len() > 0 {
        if samples[0].sample.angles.len() < 2 {
            assert(blocked_by(samples, samples.len() as int));
        }
        if blocked_by(samples, samples.len() as int) {
            let i = choose|i: int|
                0 <= i < samples.len() && (#[trigger] samples[i]).sample.angles.len() < 2 && (i == 0
                    || samples[i].is_mandatory);
            assert(samples[i].sample.angles.len() < 2);
        }
    }
}

/// The positions between two places are those of the samples there that have a pose, in order.
pub proof fn law_positions_between(samples: Seq<WrapperView>, from: int, mid: int, to: int)
    requires
        0 <= from <= mid <= to <= samples.len(),
    ensures
        positions_between(samples, from, to) == positions_between(samples, from, mid)
            + positions_between(samples, mid, to),
        from < samples.len() && samples[from].pose is Some ==> positions_between(
            samples,
            from,
            from + 1,
        ) == seq![samples[from].pose->0.translation],
        from < samples.len() && samples[from].pose is None ==> positions_between(
            samples,
            from,
            from + 1,
        ).len() == 0,
    decreases to - mid,
{
    reveal_with_fuel(positions_between, 2);
    if mid < to {
        law_positions_between(samples, from, mid, to - 1);
        assert(positions_between(samples, from, to) =~= positions_between(samples, from, mid)
            + positions_between(samples, mid, to));
    } else {
        assert(positions_between(samples, mid, to).len() == 0);
        assert(positions_between(samples, from, to) =~= positions_between(samples, from, mid)
            + positions_between(samples, mid, to));
    }
    if from < samples.len() && samples[from].pose is Some {
        assert(positions_between(samples, from, from).len() == 0);
        assert(positions_between(samples, from, from + 1) =~= seq![
            samples[from].pose->0.translation,
        ]);
    }
}

proof fn lemma_reposed(samples: Seq<WrapperView>, poses: Seq<Pose>, n: int)
    requires
        0 <= n <= samples.len(),
        known_poses(samples).len() == poses.len(),
    ensures
        known_poses(samples.take(n)).len() <= poses.len(),
        known_poses(reposed(samples, poses).take(n)) == poses.take(
            known_poses(samples.take(n)).len() as int,
        ),
    decreases n,
{
    lemma_known_grow(samples, n);
    let now = reposed(samples, poses);
    if n > 0 {
        lemma_reposed(samples, poses, n - 1);
        assert(samples.take(n).drop_last() =~= samples.take(n - 1));
        assert(now.take(n).drop_last() =~= now.take(n - 1));
        assert(samples.take(n).last() == samples[n - 1]);
        assert(now.take(n).last() == now[n - 1]);
        let k = known_poses(samples.take(n - 1)).len() as int;
        if samples[n - 1].pose is Some {
            assert(known_poses(samples.take(n)).len() == k + 1);
            assert(poses.take(k + 1) =~= poses.take(k).push(poses[k]));
        }
    } else {
        assert(known_poses(now.take(n)) =~= poses.take(0));
    }
}

proof fn lemma_known_grow(samples: Seq<WrapperView>, n: int)
    requires
        0 <= n <= samples.len(),
    ensures
        known_poses(samples.take(n)).len() <= known_poses(samples).len(),
    decreases samples.len() - n,
{
    if n < samples.len() {
        lemma_known_grow(samples, n + 1);
        assert(samples.take(n + 1).drop_last() =~= samples.take(n));
    } else {
        assert(samples.take(n) =~= samples);
    }
}

/// New poses for the samples that have one are their poses afterwards, one for each, in order. A
/// sample without a pose gets none, and all else of the samples stays.
pub proof fn law_reposed(samples: Seq<WrapperView>, poses: Seq<Pose>, i: int)
    requires
        known_poses(samples).len() == poses.len(),
    ensures
        known_poses(reposed(samples, poses)) == poses,
        0 <= i < samples.len() ==> {
            &&& reposed(samples, poses)[i].pose is Some <==> samples[i].pose is Some
            &&& reposed(samples, poses)[i].sample == samples[i].sample
            &&& reposed(samples, poses)[i].sample_type == samples[i].sample_type
            &&& reposed(samples, poses)[i].status == samples[i].status
            &&& reposed(samples, poses)[i].error_distance == samples[i].error_distance
        },
{
    let n = samples.len() as int;
    lemma_reposed(samples, poses, n);
    assert(samples.take(n) =~= samples);
    assert(reposed(samples, poses).take(n) =~= reposed(samples, poses));
    assert(poses.take(poses.len() as int) =~= poses);
}

/// The known poses are those of the samples that have one, in order.
pub proof fn law_known_poses(samples: Seq<WrapperView>, w: WrapperView)
    ensures
        known_poses(Seq::empty()).len() == 0,
        known_poses(samples.push(w)) == (match w.pose {
            Some(pose) => known_poses(samples).push(pose),
            None => known_poses(samples),
        }),
{
    assert(samples.push(w).drop_last() =~= samples);
}

proof fn lemma_stations_known(ids: Seq<u8>, known: Seq<(u8, Pose)>, id: u8)
    ensures
        link_search::stations_known(ids, known).contains(id) <==> ids.contains(id)
            && station_map::holds(known, id),
        link_search::stations_known(ids, known).len() <= ids.len(),
        link_search::stations_known(ids, known).len() == ids.len() <==> forall|k: int|
            0 <= k < ids.len() ==> station_map::holds(known, #[trigger] ids[k]),
    decreases ids.len(),
{
    if ids.len() > 0 {
        let rest = ids.drop_last();
        let before = link_search::stations_known(rest, known);
        let all = link_search::stations_known(ids, known);
        lemma_stations_known(rest, known, id);
        assert(ids[ids.len() - 1] == ids.last());
        if all.contains(id) {
            let k = all.index_of(id);
            if k < before.len() {
                assert(before[k] == id);
                let j = rest.index_of(id);
                assert(ids[j] == id);
            }
        }
        if ids.contains(id) && station_map::holds(known, id) {
            let j = ids.index_of(id);
            if j < rest.len() {
                assert(rest[j] == id);
                let k = before.index_of(id);
                assert(all[k] == id);
            } else {
                assert(all[all.len() - 1] == id);
            }
        }
        if all.len() == ids.len() {
            assert forall|k: int| 0 <= k < ids.len() implies station_map::holds(
                known,
                #[trigger] ids[k],
            ) by {
                if k < rest.len() {
                    assert(rest[k] == ids[k]);
                }
            }
        }
        if forall|k: int| 0 <= k < ids.len() ==> station_map::holds(known, #[trigger] ids[k]) {
            assert forall|k: int| 0 <= k < rest.len() implies station_map::holds(
                known,
                #[trigger] rest[k],
            ) by {
                assert(rest[k] == ids[k]);
            }
        }
    }
}

/// Beams are crossed of at least two base stations, all of them in sight and of known pose; of a
/// sample for verification only if all in sight are known. Where enough are known, all of those
/// are crossed.
pub proof fn law_crossed(s: WrapperView, bs_poses: Seq<(u8, Pose)>, id: u8)
    ensures
        ({
            let ids = station_map::ids_of(s.sample.angles);
            let known = link_search::stations_known(ids, bs_poses);
            let c = crossed(s, bs_poses);
            &&& c.len() == 0 || c.len() >= 2
            &&& c.contains(id) ==> ids.contains(id) && station_map::holds(bs_poses, id)
            &&& c.len() > 0 && ids.contains(id) && station_map::holds(bs_poses, id) ==> c.contains(
                id,
            )
            &&& c.len() > 0 && s.sample_type is Verification ==> !some_unknown(s, bs_poses)
            &&& known.len() >= 2 && !(s.sample_type is Verification) ==> c.len() > 0
            &&& known.len() >= 2 && !some_unknown(s, bs_poses) ==> c.len() > 0
            &&& some_unknown(s, bs_poses) <==> exists|k: int|
                0 <= k < ids.len() && !station_map::holds(bs_poses, #[trigger] ids[k])
        }),
{
    let ids = station_map::ids_of(s.sample.angles);
    lemma_stations_known(ids, bs_poses, id);
}

/// The beams give a sample its error. A sample for verification gets its position from them too,
/// unturned; where one of its base stations is unknown it is marked and gets neither. Nothing else
/// of a sample changes.
pub proof fn law_errors_given(s: WrapperView, bs_poses: Seq<(u8, Pose)>, result: BeamResult)
    ensures
        ({
            let now = with_error(s, bs_poses, result);
            let marked = s.sample_type is Verification && some_unknown(s, bs_poses);
            let crosses = crossed(s, bs_poses).len() > 0;
            &&& now.sample == s.sample && now.sample_type == s.sample_type && now.is_mandatory
                == s.is_mandatory
            &&& marked ==> now.status is BsUnknown && now.pose == s.pose && now.error_distance
                == s.error_distance
            &&& !marked ==> now.status == s.status
            &&& !marked && crosses ==> now.error_distance == result.distance
            &&& !crosses ==> now.error_distance == s.error_distance && now.pose == s.pose
            &&& !(s.sample_type is Verification) ==> now.pose == s.pose
            &&& s.sample_type is Verification && !marked && crosses ==> (now.pose matches Some(p)
                && p.translation == result.position && p.rot_matrix == types::identity_matrix())
        }),
{
}

/// The errors are listed in the order of the samples, those for verification apart from the
/// others, and only of samples whose beams are crossed.
pub proof fn law_errors_listed(
    samples: Seq<WrapperView>,
    bs_poses: Seq<(u8, Pose)>,
    results: Seq<BeamResult>,
    verification: bool,
    n: nat,
)
    requires
        n < samples.len(),
    ensures
        errors_of(samples, bs_poses, results, verification, 0).len() == 0,
        ({
            let before = errors_of(samples, bs_poses, results, verification, n);
            let s = samples[n as int];
            errors_of(samples, bs_poses, results, verification, n + 1) == (if crossed(
                s,
                bs_poses,
            ).len() > 0 && (verification <==> s.sample_type is Verification) {
                before.push(results[n as int].distance)
            } else {
                before
            })
        }),
{
}

/// Two links are asked for between base stations once there are more than two of them; before
/// that, what was asked for stays. The poses stay as well.
pub proof fn law_links_asked_for(
    s: SolutionView,
    distances: Seq<Vec<Option<[u64; 4]>>>,
    counts: SolutionView,
)
    ensures
        counts.link_count.len() > 2 ==> counted(s, distances, counts).link_count_ok_threshold == 2,
        counts.link_count.len() <= 2 ==> counted(s, distances, counts).link_count_ok_threshold
            == s.link_count_ok_threshold,
        counted(s, distances, counts).link_count == counts.link_count,
        counted(s, distances, counts).bs_sample_count == counts.bs_sample_count,
        counted(s, distances, counts).bs_poses == s.bs_poses,
{
}

} // verus!
