//! The wizard that guides through the measurement of a lighthouse geometry.

use crate::float_bits;
use crate::lh_geo::container;
use crate::lh_geo::container::{ContainerView, LhGeoInputContainer};
use crate::lh_geo::estimation_manager;
use crate::lh_geo::estimation_manager::{Estimation, LhGeoEstimationManager};
use crate::lh_geo::linking;
use crate::lh_geo::sample;
use crate::lh_geo::sample::{
    BsPairPoses, LhCfPoseSample, LhCfPoseSampleStatus, LhCfPoseSampleType, LhCfPoseSampleWrapper,
    SampleView, WrapperView,
};
use crate::lh_geo::solution::{LighthouseGeometrySolution, SolutionView};
use crate::lh_geo::station_map;
use crate::lh_geo::station_map::StationMap;
use crate::lh_geo::types;
use crate::lh_geo::types::LhDeck4SensorPositions;
use crate::text;
use vstd::prelude::*;
use vstd::string::*;

verus! {

/// The steps of the wizard.
#[derive(Debug, Clone, Copy, PartialEq, Eq, Structural)]
pub enum WizardStep {
    Origin,
    XAxis,
    XyPlane,
    XyzSpace,
    Verification,
}

impl WizardStep {
    /// The number of a step, from zero.
    pub open spec fn number(self) -> int {
        match self {
            WizardStep::Origin => 0,
            WizardStep::XAxis => 1,
            WizardStep::XyPlane => 2,
            WizardStep::XyzSpace => 3,
            WizardStep::Verification => 4,
        }
    }

    /// The name of a step.
    pub open spec fn label(self) -> Seq<char> {
        match self {
            WizardStep::Origin => "Origin"@,
            WizardStep::XAxis => "XAxis"@,
            WizardStep::XyPlane => "XyPlane"@,
            WizardStep::XyzSpace => "XyzSpace"@,
            WizardStep::Verification => "Verification"@,
        }
    }

    /// The step with a number; a number that is no step gives the first one.
    pub fn from_index(idx: i32) -> (step: WizardStep)
        ensures
            0 <= idx < 5 ==> step.number() == idx,
            !(0 <= idx < 5) ==> step is Origin,
    {
        match idx {
            0 => WizardStep::Origin,
            1 => WizardStep::XAxis,
            2 => WizardStep::XyPlane,
            3 => WizardStep::XyzSpace,
            4 => WizardStep::Verification,
            _ => WizardStep::Origin,
        }
    }

    /// The number of a step, from zero.
    pub fn index(&self) -> (idx: i32)
        ensures
            idx == self.number(),
    {
        match self {
            WizardStep::Origin => 0,
            WizardStep::XAxis => 1,
            WizardStep::XyPlane => 2,
            WizardStep::XyzSpace => 3,
            WizardStep::Verification => 4,
        }
    }

    /// The name of a step.
    pub fn name(&self) -> (name: &'static str)
        ensures
            name@ == self.label(),
    {
        match self {
            WizardStep::Origin => "Origin",
            WizardStep::XAxis => "XAxis",
            WizardStep::XyPlane => "XyPlane",
            WizardStep::XyzSpace => "XyzSpace",
            WizardStep::Verification => "Verification",
        }
    }

    /// The step after this one; the last one stays.
    pub fn next(&self) -> (step: WizardStep)
        ensures
            step.number() == (if self.number() < 4 {
                self.number() + 1
            } else {
                4
            }),
    {
        match self {
            WizardStep::Origin => WizardStep::XAxis,
            WizardStep::XAxis => WizardStep::XyPlane,
            WizardStep::XyPlane => WizardStep::XyzSpace,
            WizardStep::XyzSpace => WizardStep::Verification,
            WizardStep::Verification => WizardStep::Verification,
        }
    }

    /// The step before this one; the first one stays.
    pub fn previous(&self) -> (step: WizardStep)
        ensures
            step.number() == (if self.number() > 0 {
                self.number() - 1
            } else {
                0
            }),
    {
        match self {
            WizardStep::Origin => WizardStep::Origin,
            WizardStep::XAxis => WizardStep::Origin,
            WizardStep::XyPlane => WizardStep::XAxis,
            WizardStep::XyzSpace => WizardStep::XyPlane,
            WizardStep::Verification => WizardStep::XyzSpace,
        }
    }

    /// What to do in a step.
    pub fn instructions(&self) -> (text: &'static str)
        ensures
            text@ == (match *self {
                WizardStep::Origin =>
                    "Put the Crazyflie where you want the origin of your coordinate system."@,
                WizardStep::XAxis =>
                    "Put the Crazyflie on the positive X-axis, exactly 1 meter from the origin. This sample defines the X-axis and the scale of the system."@,
                WizardStep::XyPlane =>
                    "Put the Crazyflie somewhere in the XY-plane, but not on the X-axis. This defines the floor plane. You can sample multiple positions."@,
                WizardStep::XyzSpace =>
                    "Sample points in the space to refine the geometry. You need at least two base stations visible. Sample by rotating the Crazyflie quickly left-right, or click the button."@,
                WizardStep::Verification =>
                    "Sample points for verification (optional). These check the geometry quality but don't affect the estimation. When satisfied, use 'Upload Geometry' below to write the result to the Crazyflie."@,
            }),
    {
        match self {
            WizardStep::Origin => "Put the Crazyflie where you want the origin of your coordinate system.",
            WizardStep::XAxis => "Put the Crazyflie on the positive X-axis, exactly 1 meter from the origin. This sample defines the X-axis and the scale of the system.",
            WizardStep::XyPlane => "Put the Crazyflie somewhere in the XY-plane, but not on the X-axis. This defines the floor plane. You can sample multiple positions.",
            WizardStep::XyzSpace => "Sample points in the space to refine the geometry. You need at least two base stations visible. Sample by rotating the Crazyflie quickly left-right, or click the button.",
            WizardStep::Verification => "Sample points for verification (optional). These check the geometry quality but don't affect the estimation. When satisfied, use 'Upload Geometry' below to write the result to the Crazyflie.",
        }
    }

    /// The label of the button that measures.
    pub fn button_text(&self) -> (text: &'static str)
        ensures
            text@ == (match *self {
                WizardStep::Origin => "Measure Origin"@,
                WizardStep::XAxis => "Measure X-Axis"@,
                WizardStep::XyPlane => "Measure XY-Plane"@,
                WizardStep::XyzSpace => "Sample Position"@,
                WizardStep::Verification => "Sample Position"@,
            }),
    {
        match self {
            WizardStep::Origin => "Measure Origin",
            WizardStep::XAxis => "Measure X-Axis",
            WizardStep::XyPlane => "Measure XY-Plane",
            WizardStep::XyzSpace => "Sample Position",
            WizardStep::Verification => "Sample Position",
        }
    }
}

/// A step has a number from zero to four, and no two have the same.
pub proof fn law_steps_numbered(a: WizardStep, b: WizardStep)
    ensures
        0 <= a.number() < 5,
        a.number() == b.number() ==> a == b,
{
}

/// The state of the wizard.
pub struct LhWizardState {
    pub container: LhGeoInputContainer,
    pub current_step: WizardStep,
    pub latest_solution: Option<LighthouseGeometrySolution>,
    pub is_measuring: bool,
    /// The version of the samples when they were last solved.
    pub last_solved_version: u64,
}

impl LhWizardState {
    /// The wizard at its first step.
    pub fn new() -> (state: LhWizardState)
        ensures
            state.container@ == container::no_samples(state.container@.sensor_positions, 0),
            state.container@.sensor_positions@ == types::sensor_corners(),
            state.current_step is Origin,
            state.latest_solution is None,
            !state.is_measuring,
            state.last_solved_version == 0,
    {
        LhWizardState {
            container: LhGeoInputContainer::new(LhDeck4SensorPositions::positions()),
            current_step: WizardStep::Origin,
            latest_solution: None,
            is_measuring: false,
            last_solved_version: 0,
        }
    }

    /// Starts over: no samples, no solution, the first step.
    pub fn clear(&mut self)
        ensures
            final(self).container@ == container::no_samples(
                old(self).container@.sensor_positions,
                1,
            ),
            final(self).current_step is Origin,
            final(self).latest_solution is None,
            final(self).is_measuring == old(self).is_measuring,
            final(self).last_solved_version == old(self).last_solved_version,
    {
        self.container.clear_all_samples();
        self.latest_solution = None;
        self.current_step = WizardStep::Origin;
    }

    /// Adds a measured sample for the current step.
    pub fn add_measured(&mut self, sample: LhCfPoseSample, estimates: Vec<Option<BsPairPoses>>)
        requires
            old(self).container@.version < u64::MAX,
            !sample.is_augmented ==> estimates@.len() == sample@.angles.len(),
        ensures
            final(self).container@ == with_measured(
                old(self).container@,
                old(self).current_step,
                sample::augmented(sample@, estimates@),
            ),
            final(self).current_step == old(self).current_step,
            final(self).latest_solution == old(self).latest_solution,
            final(self).is_measuring == old(self).is_measuring,
            final(self).last_solved_version == old(self).last_solved_version,
    {
        let ghost after = sample::augmented(sample@, estimates@);
        match self.current_step {
            WizardStep::Origin => self.container.set_origin_sample(sample, &estimates),
            WizardStep::XAxis => self.container.set_x_axis_sample(sample, &estimates),
            WizardStep::XyPlane => self.container.append_xy_plane_sample(sample, &estimates),
            WizardStep::XyzSpace => {
                let mut samples: Vec<LhCfPoseSample> = Vec::new();
                samples.push(sample);
                let mut lists: Vec<Vec<Option<BsPairPoses>>> = Vec::new();
                lists.push(estimates);
                let ghost before = self.container@;
                assert(container::augmented_list(samples@, lists@) =~= seq![after]);
                self.container.append_xyz_space_samples(samples, &lists);
                assert(before.xyz_space + seq![after] =~= before.xyz_space.push(after));
            },
            WizardStep::Verification => {
                let mut samples: Vec<LhCfPoseSample> = Vec::new();
                samples.push(sample);
                let mut lists: Vec<Vec<Option<BsPairPoses>>> = Vec::new();
                lists.push(estimates);
                let ghost before = self.container@;
                assert(container::augmented_list(samples@, lists@) =~= seq![after]);
                self.container.append_verification_samples(samples, &lists);
                assert(before.verification + seq![after] =~= before.verification.push(after));
            },
        }
    }
}

/// The samples with one more for a step. There is one origin and one sample on the x-axis; a new
/// one takes the place of the old.
pub open spec fn with_measured(c: ContainerView, step: WizardStep, s: SampleView) -> ContainerView {
    container::bumped(
        match step {
            WizardStep::Origin => ContainerView { origin: Some(s), ..c },
            WizardStep::XAxis => ContainerView { x_axis: seq![s], ..c },
            WizardStep::XyPlane => ContainerView { xy_plane: c.xy_plane.push(s), ..c },
            WizardStep::XyzSpace => ContainerView { xyz_space: c.xyz_space.push(s), ..c },
            WizardStep::Verification => ContainerView {
                verification: c.verification.push(s),
                ..c
            },
        },
    )
}

/// Measuring the origin, or the sample on the x-axis, again leaves the same samples as measuring
/// it once with the later result.
pub proof fn law_measured_again(
    c: ContainerView,
    step: WizardStep,
    first: SampleView,
    second: SampleView,
)
    requires
        step is Origin || step is XAxis,
        c.version < u64::MAX - 1,
    ensures
        with_measured(with_measured(c, step, first), step, second) == (ContainerView {
            version: (c.version + 2) as u64,
            ..with_measured(c, step, second)
        }),
{
}

/// Starts to solve a copy of the samples; they stay as they are.
pub fn run_solver(
    container: &LhGeoInputContainer,
    estimates: &Vec<Vec<Option<BsPairPoses>>>,
    counter: &mut u64,
) -> (estimation: Estimation)
    requires
        container::estimates_fit(container@, estimates@),
    ensures
        estimation_manager::started(estimation, container@, estimates@, *old(counter)),
        *final(counter) == (if container@.origin is Some {
            *old(counter)
        } else if *old(counter) == u64::MAX {
            0
        } else {
            (*old(counter) + 1) as u64
        }),
{
    let mut data = container.get_data_copy();
    LhGeoEstimationManager::estimate_geometry(&mut data, estimates, counter)
}

// ---------------------------------------------------------------------------
// Measuring
// ---------------------------------------------------------------------------

/// The angles averaged for each base station.
pub const SAMPLES_TO_AVERAGE: usize = 50;

/// Angles were collected from some base station, and enough from each.
pub open spec fn collected(counts: Seq<usize>) -> bool {
    counts.len() > 0 && forall|i: int| 0 <= i < counts.len() ==> #[trigger] counts[i] >= 50
}

/// Whether enough angles were collected, given how many from each base station in sight.
pub fn collection_complete(counts: &Vec<usize>) -> (r: bool)
    ensures
        r == collected(counts@),
{
    if counts.len() == 0 {
        return false;
    }
    let mut i: usize = 0;
    while i < counts.len()
        invariant
            i <= counts@.len(),
            forall|k: int| 0 <= k < i ==> #[trigger] counts@[k] >= 50,
        decreases counts.len() - i,
    {
        if counts[i] < SAMPLES_TO_AVERAGE {
            return false;
        }
        i = i + 1;
    }
    true
}

/// The least of the counts and fifty; zero if there are none.
pub open spec fn averaged(counts: Seq<usize>) -> int
    decreases counts.len(),
{
    if counts.len() == 0 {
        0
    } else if counts.len() == 1 {
        least(counts[0] as int, 50)
    } else {
        least(averaged(counts.drop_last()), counts.last() as int)
    }
}

/// The smaller of two numbers.
pub open spec fn least(a: int, b: int) -> int {
    if a < b {
        a
    } else {
        b
    }
}

fn averaged_count(counts: &Vec<usize>) -> (n: usize)
    ensures
        n == averaged(counts@),
{
    if counts.len() == 0 {
        return 0;
    }
    let mut n: usize = if counts[0] < SAMPLES_TO_AVERAGE {
        counts[0]
    } else {
        SAMPLES_TO_AVERAGE
    };
    let mut i: usize = 1;
    assert(counts@.take(1).len() == 1);
    while i < counts.len()
        invariant
            1 <= i <= counts@.len(),
            n == averaged(counts@.take(i as int)),
        decreases counts.len() - i,
    {
        assert(counts@.take(i + 1).drop_last() =~= counts@.take(i as int));
        if counts[i] < n {
            n = counts[i];
        }
        i = i + 1;
    }
    assert(counts@.take(counts@.len() as int) =~= counts@);
    n
}

/// The report on a measurement: the step, how many base stations were in sight and how many
/// angles of each were averaged.
pub fn measured_text(step: WizardStep, counts: &Vec<usize>) -> (s: String)
    requires
        counts@.len() <= u64::MAX,
    ensures
        s@ == step.label() + " measured ("@ + text::decimal(counts@.len()) + " BS, "@
            + text::decimal(averaged(counts@) as nat) + " samples avg)"@,
{
    let mut s = step.name().to_string();
    s.append(" measured (");
    text::push_decimal(&mut s, counts.len() as u64);
    s.append(" BS, ");
    let n: usize = averaged_count(counts);
    text::push_decimal(&mut s, n as u64);
    s.append(" samples avg)");
    s
}

/// Why nothing was measured.
#[derive(Debug, Clone, Copy, PartialEq, Eq, Structural)]
pub enum MeasureRefusal {
    NothingSelected,
    NotConnected,
    NoAngleStream,
    NoAngles,
}

/// The report that nothing was measured.
pub fn refusal_text(refusal: MeasureRefusal) -> (text: &'static str)
    ensures
        text@ == (match refusal {
            MeasureRefusal::NothingSelected => "No Crazyflie selected"@,
            MeasureRefusal::NotConnected => "Crazyflie not connected"@,
            MeasureRefusal::NoAngleStream => "Failed to enable angle stream"@,
            MeasureRefusal::NoAngles => "Timeout - no angle data received"@,
        }),
{
    match refusal {
        MeasureRefusal::NothingSelected => "No Crazyflie selected",
        MeasureRefusal::NotConnected => "Crazyflie not connected",
        MeasureRefusal::NoAngleStream => "Failed to enable angle stream",
        MeasureRefusal::NoAngles => "Timeout - no angle data received",
    }
}

// ---------------------------------------------------------------------------
// What is shown of a solution
// ---------------------------------------------------------------------------

/// The number of samples of a kind.
pub open spec fn count_of_kind(samples: Seq<WrapperView>, kind: LhCfPoseSampleType) -> nat
    decreases samples.len(),
{
    if samples.len() == 0 {
        0
    } else {
        count_of_kind(samples.drop_last(), kind) + (if samples.last().sample_type == kind {
            1nat
        } else {
            0nat
        })
    }
}

/// The number of samples of a kind in a solution.
pub fn sample_count(samples: &Vec<LhCfPoseSampleWrapper>, kind: LhCfPoseSampleType) -> (n: usize)
    ensures
        n == count_of_kind(sample::wrapper_views(samples@), kind),
{
    let ghost views = sample::wrapper_views(samples@);
    let mut n: usize = 0;
    let mut i: usize = 0;
    assert(views.take(0) =~= Seq::empty());
    while i < samples.len()
        invariant
            i <= samples@.len(),
            n <= i,
            views == sample::wrapper_views(samples@),
            n == count_of_kind(views.take(i as int), kind),
        decreases samples.len() - i,
    {
        assert(views.take(i + 1).drop_last() =~= views.take(i as int));
        assert(views.take(i + 1).last() == samples@[i as int]@);
        if samples[i].sample_type == kind {
            n = n + 1;
        }
        i = i + 1;
    }
    assert(views.take(views.len() as int) =~= views);
    n
}

/// The numbers of a sample as they are written.
pub struct SampleNumbers {
    pub x: String,
    pub y: String,
    pub z: String,
    pub error: String,
}

/// What is shown of a sample.
pub struct SampleDetail {
    pub sample_type: String,
    pub x: String,
    pub y: String,
    pub z: String,
    pub error: String,
    pub is_verification: bool,
    pub is_invalid: bool,
    pub is_large_error: bool,
}

/// What is shown of a sample: its numbers where it has them, a dash otherwise.
pub open spec fn shows(d: SampleDetail, s: WrapperView, n: SampleNumbers) -> bool {
    let posed = s.pose is Some;
    &&& d.sample_type@ == s.sample_type.name()
    &&& d.x@ == (if posed {
        n.x@
    } else {
        "—"@
    })
    &&& d.y@ == (if posed {
        n.y@
    } else {
        "—"@
    })
    &&& d.z@ == (if posed {
        n.z@
    } else {
        "—"@
    })
    &&& d.error@ == (if float_bits::double_less(0, s.error_distance) {
        n.error@
    } else {
        "—"@
    })
    &&& d.is_verification == (s.sample_type is Verification)
    &&& d.is_invalid == !(s.status is Valid)
    &&& d.is_large_error == float_bits::double_less(
        sample::LARGE_ERROR_THRESHOLD,
        s.error_distance,
    )
}

/// What is shown of the samples of a solution, given their numbers as they are written.
pub fn get_sample_details(
    solution: &LighthouseGeometrySolution,
    numbers: &Vec<SampleNumbers>,
) -> (details: Vec<SampleDetail>)
    requires
        numbers@.len() == solution@.samples.len(),
    ensures
        details@.len() == solution@.samples.len(),
        forall|i: int|
            0 <= i < details@.len() ==> shows(
                #[trigger] details@[i],
                solution@.samples[i],
                numbers@[i],
            ),
{
    let mut details: Vec<SampleDetail> = Vec::new();
    let mut i: usize = 0;
    while i < solution.samples.len()
        invariant
            i <= solution.samples@.len(),
            numbers@.len() == solution@.samples.len(),
            details@.len() == i,
            forall|k: int|
                0 <= k < i ==> shows(
                    #[trigger] details@[k],
                    solution@.samples[k],
                    numbers@[k],
                ),
        decreases solution.samples.len() - i,
    {
        let s = &solution.samples[i];
        let n = &numbers[i];
        assert(solution@.samples[i as int] == s@);
        let posed: bool = s.has_pose();
        let detail = SampleDetail {
            sample_type: s.sample_type.text().to_string(),
            x: if posed {
                n.x.clone()
            } else {
                "—".to_string()
            },
            y: if posed {
                n.y.clone()
            } else {
                "—".to_string()
            },
            z: if posed {
                n.z.clone()
            } else {
                "—".to_string()
            },
            error: if float_bits::less_double(0, s.error_distance) {
                n.error.clone()
            } else {
                "—".to_string()
            },
            is_verification: s.sample_type == LhCfPoseSampleType::Verification,
            is_invalid: s.status != LhCfPoseSampleStatus::Valid,
            is_large_error: s.is_error_large(),
        };
        details.push(detail);
        i = i + 1;
    }
    details
}

/// The position of a base station as it is written.
pub struct BsNumbers {
    pub x: String,
    pub y: String,
    pub z: String,
}

/// What is shown of a base station.
pub struct BsDetail {
    pub id: i32,
    pub x: String,
    pub y: String,
    pub z: String,
    pub samples: i32,
    pub links: i32,
    pub low_links: bool,
}

/// The sum of the counts.
pub open spec fn total(counts: Seq<(u8, u32)>) -> int
    decreases counts.len(),
{
    if counts.len() == 0 {
        0
    } else {
        total(counts.drop_last()) + counts.last().1
    }
}

proof fn lemma_total(counts: Seq<(u8, u32)>, n: int)
    requires
        0 <= n <= counts.len(),
    ensures
        0 <= total(counts.take(n)) <= total(counts),
    decreases counts.len() - n,
{
    if n < counts.len() {
        lemma_total(counts, n + 1);
        assert(counts.take(n + 1).drop_last() =~= counts.take(n));
        lemma_total_positive(counts.take(n));
    } else {
        assert(counts.take(n) =~= counts);
        lemma_total_positive(counts);
    }
}

proof fn lemma_total_positive(counts: Seq<(u8, u32)>)
    ensures
        0 <= total(counts),
    decreases counts.len(),
{
    if counts.len() > 0 {
        lemma_total_positive(counts.drop_last());
    }
}

fn total_of(counts: &StationMap<u32>) -> (n: u32)
    requires
        total(counts@) <= u32::MAX,
    ensures
        n == total(counts@),
{
    let mut n: u32 = 0;
    let mut i: usize = 0;
    assert(counts@.take(0) =~= Seq::empty());
    while i < counts.len()
        invariant
            i <= counts@.len(),
            total(counts@) <= u32::MAX,
            n == total(counts@.take(i as int)),
        decreases counts@.len() - i,
    {
        assert(counts@.take(i + 1).drop_last() =~= counts@.take(i as int));
        proof {
            lemma_total(counts@, i + 1);
        }
        n = n + counts.entry(i).1;
        i = i + 1;
    }
    assert(counts@.take(counts@.len() as int) =~= counts@);
    n
}

/// What is shown of a base station: its number and position, in how many samples it was in
/// sight, and how many links it has; too few of those are marked.
pub open spec fn shows_station(d: BsDetail, s: SolutionView, i: int, n: BsNumbers) -> bool {
    let id = s.bs_poses[i].0;
    let links = total(linking::links_of(s.link_count, id));
    &&& d.id == id
    &&& d.x@ == n.x@
    &&& d.y@ == n.y@
    &&& d.z@ == n.z@
    &&& d.samples == linking::count_of(s.bs_sample_count, id) as u32 as i32
    &&& d.links == links as u32 as i32
    &&& d.low_links == (links < s.link_count_ok_threshold)
}

/// The links of each base station can be added up.
pub open spec fn links_countable(s: SolutionView) -> bool {
    forall|id: u8| total(#[trigger] linking::links_of(s.link_count, id)) <= u32::MAX
}

/// What is shown of the base stations of a solution, in ascending order of their numbers, given
/// their positions as they are written.
pub fn get_bs_details(
    solution: &LighthouseGeometrySolution,
    numbers: &Vec<BsNumbers>,
) -> (details: Vec<BsDetail>)
    requires
        numbers@.len() == solution@.bs_poses.len(),
        links_countable(solution@),
    ensures
        details@.len() == solution@.bs_poses.len(),
        forall|i: int|
            0 <= i < details@.len() ==> shows_station(
                #[trigger] details@[i],
                solution@,
                i,
                numbers@[i],
            ),
        forall|i: int, j: int|
            0 <= i < j < details@.len() ==> (#[trigger] details@[i]).id < (
            #[trigger] details@[j]).id,
{
    let mut details: Vec<BsDetail> = Vec::new();
    let mut i: usize = 0;
    while i < solution.bs_poses.len()
        invariant
            i <= solution@.bs_poses.len(),
            numbers@.len() == solution@.bs_poses.len(),
            links_countable(solution@),
            details@.len() == i,
            forall|k: int|
                0 <= k < i ==> shows_station(
                    #[trigger] details@[k],
                    solution@,
                    k,
                    numbers@[k],
                ),
        decreases solution@.bs_poses.len() - i,
    {
        let id: u8 = solution.bs_poses.entry(i).0;
        let n = &numbers[i];
        let samples: u32 = match solution.bs_sample_count.get(id) {
            Some(n) => *n,
            None => 0,
        };
        proof {
            linking::lemma_link_views(solution.link_count@, id);
            assert(total(linking::links_of(solution@.link_count, id)) <= u32::MAX);
        }
        let links: u32 = match solution.link_count.get(id) {
            Some(counts) => total_of(counts),
            None => 0,
        };
        let detail = BsDetail {
            id: id as i32,
            x: n.x.clone(),
            y: n.y.clone(),
            z: n.z.clone(),
            samples: samples as i32,
            links: links as i32,
            low_links: links < solution.link_count_ok_threshold,
        };
        details.push(detail);
        i = i + 1;
    }
    proof {
        assert forall|i: int, j: int| 0 <= i < j < details@.len() implies (
        #[trigger] details@[i]).id < (#[trigger] details@[j]).id by {
            assert(shows_station(details@[i], solution@, i, numbers@[i]));
            assert(shows_station(details@[j], solution@, j, numbers@[j]));
            assert(solution@.bs_poses[i].0 < solution@.bs_poses[j].0);
        }
    }
    details
}

/// A measured sample goes where the step says: it becomes the origin or the only sample on the
/// x-axis, or the last one of the plane, of space or of the verification. The other samples stay.
pub proof fn law_measured_for_step(c: ContainerView, step: WizardStep, s: SampleView)
    requires
        c.version < u64::MAX,
    ensures
        ({
            let now = with_measured(c, step, s);
            &&& now.version == c.version + 1
            &&& now.sensor_positions == c.sensor_positions
            &&& now.origin == (if step is Origin {
                Some(s)
            } else {
                c.origin
            })
            &&& now.x_axis == (if step is XAxis {
                seq![s]
            } else {
                c.x_axis
            })
            &&& now.xy_plane == (if step is XyPlane {
                c.xy_plane.push(s)
            } else {
                c.xy_plane
            })
            &&& now.xyz_space == (if step is XyzSpace {
                c.xyz_space.push(s)
            } else {
                c.xyz_space
            })
            &&& now.verification == (if step is Verification {
                c.verification.push(s)
            } else {
                c.verification
            })
        }),
{
}

/// The steps follow each other as origin, x-axis, plane, space and verification.
pub proof fn law_step_order()
    ensures
        WizardStep::Origin.number() == 0,
        WizardStep::XAxis.number() == WizardStep::Origin.number() + 1,
        WizardStep::XyPlane.number() == WizardStep::XAxis.number() + 1,
        WizardStep::XyzSpace.number() == WizardStep::XyPlane.number() + 1,
        WizardStep::Verification.number() == WizardStep::XyzSpace.number() + 1,
{
}

/// No more angles are averaged than any base station gave, nor more than fifty, and just fifty
/// once enough were collected.
pub proof fn law_averaged(counts: Seq<usize>, i: int)
    ensures
        0 <= averaged(counts) <= 50,
        0 <= i < counts.len() ==> averaged(counts) <= counts[i],
        counts.len() > 0 ==> averaged(counts) == 50 || exists|k: int|
            0 <= k < counts.len() && averaged(counts) == #[trigger] counts[k],
        collected(counts) <==> counts.len() > 0 && averaged(counts) == 50,
    decreases counts.len(),
{
    if counts.len() == 1 {
        assert(counts[0] == counts.last());
    }
    if counts.len() > 1 {
        let rest = counts.drop_last();
        law_averaged(rest, i);
        assert(rest[0] == counts[0]);
        if 0 <= i < rest.len() {
            assert(rest[i] == counts[i]);
        }
        assert(counts[counts.len() - 1] == counts.last());
        if averaged(counts) != 50 && averaged(counts) == averaged(rest) {
            let k = choose|k: int| 0 <= k < rest.len() && averaged(rest) == #[trigger] rest[k];
            assert(counts[k] == rest[k]);
        }
        if collected(counts) {
            assert forall|k: int| 0 <= k < rest.len() implies #[trigger] rest[k] >= 50 by {
                assert(counts[k] >= 50);
            }
        }
        if averaged(counts) == 50 {
            assert(collected(rest));
            assert forall|k: int| 0 <= k < counts.len() implies #[trigger] counts[k] >= 50 by {
                if k < rest.len() {
                    assert(rest[k] >= 50);
                }
            }
        }
    }
}

/// A sample counts for its own kind and for no other.
pub proof fn law_kinds_counted(samples: Seq<WrapperView>, w: WrapperView, kind: LhCfPoseSampleType)
    ensures
        count_of_kind(samples.push(w), kind) == count_of_kind(samples, kind) + (if w.sample_type
            == kind {
            1int
        } else {
            0
        }),
        count_of_kind(Seq::empty(), kind) == 0,
        count_of_kind(samples, kind) <= samples.len(),
    decreases samples.len(),
{
    assert(samples.push(w).drop_last() =~= samples);
    if samples.len() > 0 {
        law_kinds_counted(samples.drop_last(), w, kind);
    }
}

/// What is shown of a sample: its coordinates if it has a pose, its error if there is one, and
/// marks for a verification, for anything but a valid sample, and for an error beyond a centimetre.
pub proof fn law_sample_shown(d: SampleDetail, s: WrapperView, n: SampleNumbers)
    requires
        shows(d, s, n),
    ensures
        d.sample_type@ == s.sample_type.name(),
        s.pose is Some ==> d.x@ == n.x@ && d.y@ == n.y@ && d.z@ == n.z@,
        s.pose is None ==> d.x@ == "—"@ && d.y@ == "—"@ && d.z@ == "—"@,
        float_bits::double_less(0, s.error_distance) ==> d.error@ == n.error@,
        !float_bits::double_less(0, s.error_distance) ==> d.error@ == "—"@,
        d.is_verification <==> s.sample_type == LhCfPoseSampleType::Verification,
        d.is_invalid <==> s.status != LhCfPoseSampleStatus::Valid,
        d.is_large_error <==> float_bits::double_less(0x3f84_7ae1_47ae_147b, s.error_distance),
{
}

/// The links of a base station add up, those of several lists together.
pub proof fn law_links_add_up(a: Seq<(u8, u32)>, b: Seq<(u8, u32)>, one: (u8, u32))
    ensures
        total(a + b) == total(a) + total(b),
        total(seq![one]) == one.1,
    decreases b.len(),
{
    assert(seq![one].drop_last() =~= Seq::<(u8, u32)>::empty());
    assert(total(Seq::<(u8, u32)>::empty()) == 0);
    if b.len() == 0 {
        assert(a + b =~= a);
    } else {
        law_links_add_up(a, b.drop_last(), one);
        assert((a + b).drop_last() =~= a + b.drop_last());
    }
}

/// What is shown of a base station: its own number, position and counts, and a mark where its
/// links are fewer than the solution asks for.
pub proof fn law_station_shown(d: BsDetail, s: SolutionView, i: int, n: BsNumbers)
    requires
        shows_station(d, s, i, n),
        links_countable(s),
        total(linking::links_of(s.link_count, s.bs_poses[i].0)) <= i32::MAX,
        linking::count_of(s.bs_sample_count, s.bs_poses[i].0) <= i32::MAX,
    ensures
        d.id == s.bs_poses[i].0,
        d.x@ == n.x@ && d.y@ == n.y@ && d.z@ == n.z@,
        d.samples == linking::count_of(s.bs_sample_count, s.bs_poses[i].0),
        d.low_links <==> total(linking::links_of(s.link_count, s.bs_poses[i].0))
            < s.link_count_ok_threshold,
        total(linking::links_of(s.link_count, s.bs_poses[i].0)) >= 0 ==> d.links == total(
            linking::links_of(s.link_count, s.bs_poses[i].0),
        ),
{
}

/// The steps are called by their names, which differ.
pub proof fn law_labels(step: WizardStep)
    ensures
        step.label() == "Origin"@ <==> step is Origin,
        step.label() == "XAxis"@ <==> step is XAxis,
        step.label() == "XyPlane"@ <==> step is XyPlane,
        step.label() == "XyzSpace"@ <==> step is XyzSpace,
        step.label() == "Verification"@ <==> step is Verification,
{
    reveal_strlit("Origin");
    reveal_strlit("XAxis");
    reveal_strlit("XyPlane");
    reveal_strlit("XyzSpace");
    reveal_strlit("Verification");
    assert("Origin"@.len() == 6 && "XAxis"@.len() == 5 && "XyPlane"@.len() == 7);
    assert("XyzSpace"@.len() == 8 && "Verification"@.len() == 12);
}

} // verus!
