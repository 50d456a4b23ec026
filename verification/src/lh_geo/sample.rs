//! Measurements of a Crazyflie at one place, and what is known of each.

use crate::float_bits;
use crate::lh_geo::bs_vector::LighthouseBsVectors;
use crate::lh_geo::station_map;
use crate::lh_geo::station_map::StationMap;
use crate::lh_geo::types::Pose;
use vstd::prelude::*;
use vstd::string::*;

verus! {

/// Hands out the next number for a sample; after the last one it starts over.
pub fn next_uid(counter: &mut u64) -> (uid: u64)
    ensures
        uid == *old(counter),
        *final(counter) == (if *old(counter) == u64::MAX {
            0
        } else {
            *old(counter) + 1
        }),
{
    let uid: u64 = *counter;
    *counter = uid.wrapping_add(1);
    uid
}

/// The two poses that a base station may have in the frame of the Crazyflie.
#[derive(Debug, Clone, Copy)]
pub struct BsPairPoses(pub Pose, pub Pose);

impl BsPairPoses {
    /// Both poses.
    pub fn as_slice(&self) -> (poses: [Pose; 2])
        ensures
            poses@ == seq![self.0, self.1],
    {
        let poses = [self.0, self.1];
        assert(poses@ =~= seq![self.0, self.1]);
        poses
    }
}

/// What a sample is for.
#[derive(Debug, Clone, Copy, PartialEq, Eq, Structural)]
pub enum LhCfPoseSampleType {
    Origin,
    XAxis,
    XyPlane,
    XyzSpace,
    Verification,
}

impl LhCfPoseSampleType {
    /// The name that is shown for a kind of sample.
    pub open spec fn name(self) -> Seq<char> {
        match self {
            LhCfPoseSampleType::Origin => "origin"@,
            LhCfPoseSampleType::XAxis => "x-axis"@,
            LhCfPoseSampleType::XyPlane => "xy-plane"@,
            LhCfPoseSampleType::XyzSpace => "xyz-space"@,
            LhCfPoseSampleType::Verification => "verification"@,
        }
    }

    /// A sample of this kind defines the frame and can not be left out.
    pub open spec fn mandatory(self) -> bool {
        self is Origin || self is XAxis || self is XyPlane
    }

    /// The name that is shown for a kind of sample.
    pub fn text(&self) -> (name: &'static str)
        ensures
            name@ == self.name(),
    {
        match self {
            LhCfPoseSampleType::Origin => "origin",
            LhCfPoseSampleType::XAxis => "x-axis",
            LhCfPoseSampleType::XyPlane => "xy-plane",
            LhCfPoseSampleType::XyzSpace => "xyz-space",
            LhCfPoseSampleType::Verification => "verification",
        }
    }
}

/// What is wrong with a sample, if anything.
#[derive(Debug, Clone, Copy, PartialEq, Eq, Structural)]
pub enum LhCfPoseSampleStatus {
    Valid,
    TooFewBs,
    Ambiguous,
    NoData,
    BsUnknown,
}

impl LhCfPoseSampleStatus {
    /// The word that reports a status.
    pub open spec fn word(self) -> Seq<char> {
        match self {
            LhCfPoseSampleStatus::Valid => "Ok"@,
            LhCfPoseSampleStatus::TooFewBs => "TooFewBs"@,
            LhCfPoseSampleStatus::Ambiguous => "Ambiguous"@,
            LhCfPoseSampleStatus::NoData => "NoData"@,
            LhCfPoseSampleStatus::BsUnknown => "BsUnknown"@,
        }
    }

    /// The word that reports a status.
    pub fn text(&self) -> (word: &'static str)
        ensures
            word@ == self.word(),
    {
        match self {
            LhCfPoseSampleStatus::Valid => "Ok",
            LhCfPoseSampleStatus::TooFewBs => "TooFewBs",
            LhCfPoseSampleStatus::Ambiguous => "Ambiguous",
            LhCfPoseSampleStatus::NoData => "NoData",
            LhCfPoseSampleStatus::BsUnknown => "BsUnknown",
        }
    }
}

/// The angles measured at one place from each base station in sight.
pub struct LhCfPoseSample {
    pub angles_calibrated: StationMap<LighthouseBsVectors>,
    /// The poses each base station may have.
    pub ippe_solutions: StationMap<BsPairPoses>,
    /// Whether the possible poses were computed.
    pub is_augmented: bool,
    pub uid: u64,
}

/// A sample as sequences.
#[verifier::ext_equal]
pub struct SampleView {
    pub angles: Seq<(u8, LighthouseBsVectors)>,
    pub ippe: Seq<(u8, BsPairPoses)>,
    pub is_augmented: bool,
    pub uid: u64,
}

impl View for LhCfPoseSample {
    type V = SampleView;

    open spec fn view(&self) -> SampleView {
        SampleView {
            angles: self.angles_calibrated@,
            ippe: self.ippe_solutions@,
            is_augmented: self.is_augmented,
            uid: self.uid,
        }
    }
}

/// The possible poses with those that were found added, each for the base station at its place.
pub open spec fn with_estimates(
    ippe: Seq<(u8, BsPairPoses)>,
    ids: Seq<u8>,
    estimates: Seq<Option<BsPairPoses>>,
) -> Seq<(u8, BsPairPoses)>
    decreases ids.len(),
{
    if ids.len() == 0 {
        ippe
    } else {
        let rest = with_estimates(ippe, ids.drop_last(), estimates);
        match estimates[ids.len() - 1] {
            Some(poses) => station_map::inserted(rest, ids.last(), poses),
            None => rest,
        }
    }
}

/// A sample with its possible poses: they are taken over once.
pub open spec fn augmented(s: SampleView, estimates: Seq<Option<BsPairPoses>>) -> SampleView {
    if s.is_augmented {
        s
    } else {
        SampleView {
            ippe: with_estimates(s.ippe, station_map::ids_of(s.angles), estimates),
            is_augmented: true,
            ..s
        }
    }
}

/// Possible poses are taken over once: later ones change nothing.
pub proof fn law_augmented_once(
    s: SampleView,
    first: Seq<Option<BsPairPoses>>,
    second: Seq<Option<BsPairPoses>>,
)
    ensures
        augmented(augmented(s, first), second) == augmented(s, first),
        augmented(s, first).angles == s.angles,
        augmented(s, first).uid == s.uid,
{
}

/// In a fresh sample a base station has possible poses if and only if some were found for it,
/// and they are those.
pub proof fn law_estimates_found(
    s: SampleView,
    estimates: Seq<Option<BsPairPoses>>,
    i: int,
)
    requires
        station_map::ascending(s.angles),
        s.ippe.len() == 0,
        !s.is_augmented,
        estimates.len() == s.angles.len(),
        0 <= i < s.angles.len(),
    ensures
        station_map::ascending(augmented(s, estimates).ippe),
        station_map::value_of(augmented(s, estimates).ippe, s.angles[i].0) == estimates[i],
{
    lemma_with_estimates(s.angles, estimates, s.angles.len());
    assert(station_map::ids_of(s.angles).take(s.angles.len() as int) =~= station_map::ids_of(
        s.angles,
    ));
    assert(s.ippe =~= Seq::empty());
}

proof fn lemma_with_estimates(
    angles: Seq<(u8, LighthouseBsVectors)>,
    estimates: Seq<Option<BsPairPoses>>,
    n: nat,
)
    requires
        station_map::ascending(angles),
        estimates.len() == angles.len(),
        n <= angles.len(),
    ensures
        ({
            let r = with_estimates(
                Seq::empty(),
                station_map::ids_of(angles).take(n as int),
                estimates,
            );
            &&& station_map::ascending(r)
            &&& forall|i: int|
                0 <= i < n ==> station_map::value_of(r, (#[trigger] angles[i]).0) == estimates[i]
            &&& forall|i: int|
                n <= i < angles.len() ==> station_map::value_of(r, (#[trigger] angles[i]).0) is None
        }),
    decreases n,
{
    let ids = station_map::ids_of(angles);
    if n == 0 {
        assert(ids.take(0) =~= Seq::empty());
    } else {
        lemma_with_estimates(angles, estimates, (n - 1) as nat);
        assert(ids.take(n as int).drop_last() =~= ids.take(n - 1));
        let rest = with_estimates(Seq::empty(), ids.take(n - 1), estimates);
        let r = with_estimates(Seq::empty(), ids.take(n as int), estimates);
        let id = angles[n - 1].0;
        assert(ids.take(n as int).last() == id);
        assert(station_map::value_of(rest, id) is None);
        if let Some(poses) = estimates[n - 1] {
            station_map::law_inserted(rest, id, poses);
            assert forall|i: int| 0 <= i < n implies station_map::value_of(
                r,
                (#[trigger] angles[i]).0,
            ) == estimates[i] by {
                if i < n - 1 {
                    assert(angles[i].0 < angles[n - 1].0);
                }
            }
            assert forall|i: int| n <= i < angles.len() implies station_map::value_of(
                r,
                (#[trigger] angles[i]).0,
            ) is None by {
                assert(angles[n - 1].0 < angles[i].0);
            }
        }
    }
}

impl LhCfPoseSample {
    /// A sample with the next number.
    pub fn new(
        angles_calibrated: StationMap<LighthouseBsVectors>,
        counter: &mut u64,
    ) -> (sample: LhCfPoseSample)
        ensures
            sample@ == (SampleView {
                angles: angles_calibrated@,
                ippe: Seq::empty(),
                is_augmented: false,
                uid: *old(counter),
            }),
            *final(counter) == (if *old(counter) == u64::MAX {
                0
            } else {
                *old(counter) + 1
            }),
    {
        LhCfPoseSample {
            angles_calibrated,
            ippe_solutions: StationMap::new(),
            is_augmented: false,
            uid: next_uid(counter),
        }
    }

    /// The number of the sample.
    pub fn uid(&self) -> (uid: u64)
        ensures
            uid == self@.uid,
    {
        self.uid
    }

    /// Whether no base station was in sight.
    pub fn is_empty(&self) -> (r: bool)
        ensures
            r == (self@.angles.len() == 0),
    {
        self.angles_calibrated.is_empty()
    }

    /// A copy of the sample.
    pub fn copied(&self) -> (sample: LhCfPoseSample)
        ensures
            sample@ == self@,
    {
        LhCfPoseSample {
            angles_calibrated: self.angles_calibrated.copied(),
            ippe_solutions: self.ippe_solutions.copied(),
            is_augmented: self.is_augmented,
            uid: self.uid,
        }
    }

    /// Takes over the possible poses of the base stations in sight, one estimate for each in
    /// ascending order of their numbers. A sample that has its poses keeps them.
    pub fn augment_with_ippe(&mut self, estimates: &Vec<Option<BsPairPoses>>)
        requires
            !old(self).is_augmented ==> estimates@.len() == old(self)@.angles.len(),
        ensures
            final(self)@ == augmented(old(self)@, estimates@),
    {
        if self.is_augmented {
            return ;
        }
        let ids = self.angles_calibrated.ids();
        let ghost before = self.ippe_solutions@;
        let mut i: usize = 0;
        assert(ids@.take(0) =~= Seq::empty());
        while i < ids.len()
            invariant
                i <= ids@.len(),
                ids@.len() == estimates@.len(),
                self.ippe_solutions@ == with_estimates(before, ids@.take(i as int), estimates@),
                self.angles_calibrated@ == old(self).angles_calibrated@,
                self.uid == old(self).uid,
                self.is_augmented == old(self).is_augmented,
            decreases ids.len() - i,
        {
            assert(ids@.take(i + 1).drop_last() =~= ids@.take(i as int));
            if let Some(poses) = estimates[i] {
                self.ippe_solutions.insert(ids[i], poses);
            }
            i = i + 1;
        }
        assert(ids@.take(ids@.len() as int) =~= ids@);
        self.is_augmented = true;
    }
}

/// The error beyond which a sample is marked, 0.01 m.
pub const LARGE_ERROR_THRESHOLD: u64 = 0x3f84_7ae1_47ae_147b;

/// A sample with its kind and what the estimation found out about it.
pub struct LhCfPoseSampleWrapper {
    pub pose_sample: LhCfPoseSample,
    pub sample_type: LhCfPoseSampleType,
    pub is_mandatory: bool,
    pub status: LhCfPoseSampleStatus,
    pub pose: Option<Pose>,
    pub error_distance: u64,
}

/// A wrapped sample as sequences.
#[verifier::ext_equal]
pub struct WrapperView {
    pub sample: SampleView,
    pub sample_type: LhCfPoseSampleType,
    pub is_mandatory: bool,
    pub status: LhCfPoseSampleStatus,
    pub pose: Option<Pose>,
    pub error_distance: u64,
}

impl View for LhCfPoseSampleWrapper {
    type V = WrapperView;

    open spec fn view(&self) -> WrapperView {
        WrapperView {
            sample: self.pose_sample@,
            sample_type: self.sample_type,
            is_mandatory: self.is_mandatory,
            status: self.status,
            pose: self.pose,
            error_distance: self.error_distance,
        }
    }
}

/// A sample of which nothing is known yet.
pub open spec fn wrapped(sample: SampleView, sample_type: LhCfPoseSampleType) -> WrapperView {
    WrapperView {
        sample,
        sample_type,
        is_mandatory: sample_type.mandatory(),
        status: LhCfPoseSampleStatus::Valid,
        pose: None,
        error_distance: 0,
    }
}

/// The wrapped samples of a list.
pub open spec fn wrapper_views(list: Seq<LhCfPoseSampleWrapper>) -> Seq<WrapperView> {
    Seq::new(list.len(), |i: int| list[i]@)
}

impl LhCfPoseSampleWrapper {
    /// Wraps a sample of which nothing is known yet.
    pub fn new(pose_sample: LhCfPoseSample, sample_type: LhCfPoseSampleType) -> (w:
        LhCfPoseSampleWrapper)
        ensures
            w@ == wrapped(pose_sample@, sample_type),
    {
        let is_mandatory = matches!(
            sample_type,
            LhCfPoseSampleType::Origin | LhCfPoseSampleType::XAxis | LhCfPoseSampleType::XyPlane
        );
        LhCfPoseSampleWrapper {
            pose_sample,
            sample_type,
            is_mandatory,
            status: LhCfPoseSampleStatus::Valid,
            pose: None,
            error_distance: 0,
        }
    }

    /// A copy of the wrapped sample.
    pub fn copied(&self) -> (w: LhCfPoseSampleWrapper)
        ensures
            w@ == self@,
    {
        LhCfPoseSampleWrapper {
            pose_sample: self.pose_sample.copied(),
            sample_type: self.sample_type,
            is_mandatory: self.is_mandatory,
            status: self.status,
            pose: self.pose,
            error_distance: self.error_distance,
        }
    }

    /// The number of the sample.
    pub fn uid(&self) -> (uid: u64)
        ensures
            uid == self@.sample.uid,
    {
        self.pose_sample.uid()
    }

    /// Whether the pose of the Crazyflie is known.
    pub fn has_pose(&self) -> (r: bool)
        ensures
            r == (self@.pose is Some),
    {
        self.pose.is_some()
    }

    /// The pose of the Crazyflie, once known.
    pub fn pose(&self) -> (pose: Option<Pose>)
        ensures
            pose == self@.pose,
    {
        self.pose
    }

    /// Sets the pose of the Crazyflie.
    pub fn set_pose(&mut self, pose: Pose)
        ensures
            final(self)@ == (WrapperView { pose: Some(pose), ..old(self)@ }),
    {
        self.pose = Some(pose);
    }

    /// Whether nothing is wrong with the sample.
    pub fn is_valid(&self) -> (r: bool)
        ensures
            r == (self@.status is Valid),
    {
        self.status == LhCfPoseSampleStatus::Valid
    }

    /// Whether the error of the sample is above one centimetre.
    pub fn is_error_large(&self) -> (r: bool)
        ensures
            r == float_bits::double_less(LARGE_ERROR_THRESHOLD, self@.error_distance),
    {
        float_bits::less_double(LARGE_ERROR_THRESHOLD, self.error_distance)
    }

    /// The base stations in sight, ascending.
    pub fn base_station_ids(&self) -> (ids: Vec<u8>)
        ensures
            ids@ == station_map::ids_of(self@.sample.angles),
            station_map::ascending(self@.sample.angles),
    {
        self.pose_sample.angles_calibrated.ids()
    }
}

/// Nothing is known of a wrapped sample but its kind; those that define the frame, the origin, the
/// x-axis and the xy-plane, can not be left out.
pub proof fn law_wrapped(s: SampleView, kind: LhCfPoseSampleType)
    ensures
        wrapped(s, kind).sample == s,
        wrapped(s, kind).sample_type == kind,
        wrapped(s, kind).is_mandatory <==> kind == LhCfPoseSampleType::Origin || kind
            == LhCfPoseSampleType::XAxis || kind == LhCfPoseSampleType::XyPlane,
        wrapped(s, kind).status == LhCfPoseSampleStatus::Valid,
        wrapped(s, kind).pose is None,
        wrapped(s, kind).error_distance == 0,
{
}

/// Every kind of sample and every state has a name of its own.
pub proof fn law_names(kind: LhCfPoseSampleType, status: LhCfPoseSampleStatus)
    ensures
        kind.name() == "origin"@ <==> kind is Origin,
        kind.name() == "x-axis"@ <==> kind is XAxis,
        kind.name() == "xy-plane"@ <==> kind is XyPlane,
        kind.name() == "xyz-space"@ <==> kind is XyzSpace,
        kind.name() == "verification"@ <==> kind is Verification,
        status.word() == "Ok"@ <==> status is Valid,
        status.word() == "TooFewBs"@ <==> status is TooFewBs,
        status.word() == "Ambiguous"@ <==> status is Ambiguous,
        status.word() == "NoData"@ <==> status is NoData,
        status.word() == "BsUnknown"@ <==> status is BsUnknown,
{
    reveal_strlit("origin");
    reveal_strlit("x-axis");
    reveal_strlit("xy-plane");
    reveal_strlit("xyz-space");
    reveal_strlit("verification");
    reveal_strlit("Ok");
    reveal_strlit("TooFewBs");
    reveal_strlit("Ambiguous");
    reveal_strlit("NoData");
    reveal_strlit("BsUnknown");
    assert("origin"@[0] == 'o' && "x-axis"@[0] == 'x');
    assert("origin"@.len() == 6 && "x-axis"@.len() == 6 && "xy-plane"@.len() == 8);
    assert("xyz-space"@.len() == 9 && "verification"@.len() == 12);
    assert("Ok"@.len() == 2 && "TooFewBs"@.len() == 8 && "Ambiguous"@.len() == 9);
    assert("NoData"@.len() == 6 && "BsUnknown"@.len() == 9);
    assert("Ambiguous"@[0] == 'A' && "BsUnknown"@[0] == 'B');
}

} // verus!
