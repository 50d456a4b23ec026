//! The samples collected so far, by what they are for.

use crate::lh_geo::bs_vector::LighthouseBsVectors;
use crate::lh_geo::sample;
use crate::lh_geo::sample::{
    BsPairPoses, LhCfPoseSample, LhCfPoseSampleType, LhCfPoseSampleWrapper, SampleView, WrapperView,
};
use crate::lh_geo::station_map::StationMap;
use vstd::multiset::*;
use vstd::prelude::*;

verus! {

/// The collected samples.
pub struct LhGeoInputContainerData {
    pub sensor_positions: [[u64; 3]; 4],
    pub origin: Option<LhCfPoseSample>,
    pub x_axis: Vec<LhCfPoseSample>,
    pub xy_plane: Vec<LhCfPoseSample>,
    pub xyz_space: Vec<LhCfPoseSample>,
    pub verification: Vec<LhCfPoseSample>,
    /// Counts the changes.
    pub version: u64,
}

/// The collected samples as sequences.
#[verifier::ext_equal]
pub struct ContainerView {
    pub sensor_positions: [[u64; 3]; 4],
    pub origin: Option<SampleView>,
    pub x_axis: Seq<SampleView>,
    pub xy_plane: Seq<SampleView>,
    pub xyz_space: Seq<SampleView>,
    pub verification: Seq<SampleView>,
    pub version: u64,
}

/// The samples of a list.
pub open spec fn sample_views(list: Seq<LhCfPoseSample>) -> Seq<SampleView> {
    Seq::new(list.len(), |i: int| list[i]@)
}

impl View for LhGeoInputContainerData {
    type V = ContainerView;

    open spec fn view(&self) -> ContainerView {
        ContainerView {
            sensor_positions: self.sensor_positions,
            origin: match self.origin {
                Some(s) => Some(s@),
                None => None,
            },
            x_axis: sample_views(self.x_axis@),
            xy_plane: sample_views(self.xy_plane@),
            xyz_space: sample_views(self.xyz_space@),
            verification: sample_views(self.verification@),
            version: self.version,
        }
    }
}

/// No samples.
pub open spec fn no_samples(sensor_positions: [[u64; 3]; 4], version: u64) -> ContainerView {
    ContainerView {
        sensor_positions,
        origin: None,
        x_axis: Seq::empty(),
        xy_plane: Seq::empty(),
        xyz_space: Seq::empty(),
        verification: Seq::empty(),
        version,
    }
}

/// There is no sample of any kind.
pub open spec fn has_none(c: ContainerView) -> bool {
    c.origin is None && c.x_axis.len() == 0 && c.xy_plane.len() == 0 && c.xyz_space.len() == 0
        && c.verification.len() == 0
}

/// The number of places in the list of matched samples: one for the origin, taken or not, and
/// one for each other sample.
pub open spec fn places(c: ContainerView) -> int {
    (1 + c.x_axis.len() + c.xy_plane.len() + c.xyz_space.len() + c.verification.len()) as int
}

/// The sample at a place of the list of matched samples, if there is one: the origin, and then
/// the samples on the x-axis, in the xy-plane, in space and for verification.
pub open spec fn sample_at(c: ContainerView, place: int) -> Option<SampleView> {
    let xy = 1 + c.x_axis.len();
    let xyz = xy + c.xy_plane.len();
    let ver = xyz + c.xyz_space.len();
    if place == 0 {
        c.origin
    } else if place < xy {
        Some(c.x_axis[place - 1])
    } else if place < xyz {
        Some(c.xy_plane[place - xy])
    } else if place < ver {
        Some(c.xyz_space[place - xyz])
    } else {
        Some(c.verification[place - ver])
    }
}

/// What the sample at a place is for.
pub open spec fn type_at(c: ContainerView, place: int) -> LhCfPoseSampleType {
    let xy = 1 + c.x_axis.len();
    let xyz = xy + c.xy_plane.len();
    let ver = xyz + c.xyz_space.len();
    if place == 0 {
        LhCfPoseSampleType::Origin
    } else if place < xy {
        LhCfPoseSampleType::XAxis
    } else if place < xyz {
        LhCfPoseSampleType::XyPlane
    } else if place < ver {
        LhCfPoseSampleType::XyzSpace
    } else {
        LhCfPoseSampleType::Verification
    }
}

/// The estimates fit: at each place where poses are to be taken over there is one for each base
/// station in sight.
pub open spec fn estimates_fit(
    c: ContainerView,
    estimates: Seq<Vec<Option<BsPairPoses>>>,
) -> bool {
    &&& estimates.len() == places(c)
    &&& forall|p: int|
        0 <= p < places(c) ==> match #[trigger] sample_at(c, p) {
            Some(s) => s.is_augmented || estimates[p]@.len() == s.angles.len(),
            None => true,
        }
}

/// A part of the samples with its possible poses, its first sample at place `from`.
pub open spec fn augmented_part(
    list: Seq<SampleView>,
    from: int,
    estimates: Seq<Vec<Option<BsPairPoses>>>,
) -> Seq<SampleView> {
    Seq::new(list.len(), |i: int| sample::augmented(list[i], estimates[from + i]@))
}

/// The samples with their possible poses.
pub open spec fn augmented_samples(
    c: ContainerView,
    estimates: Seq<Vec<Option<BsPairPoses>>>,
) -> ContainerView {
    let xy = 1 + c.x_axis.len();
    let xyz = xy + c.xy_plane.len();
    let ver = xyz + c.xyz_space.len();
    ContainerView {
        origin: match c.origin {
            Some(s) => Some(sample::augmented(s, estimates[0]@)),
            None => None,
        },
        x_axis: augmented_part(c.x_axis, 1, estimates),
        xy_plane: augmented_part(c.xy_plane, xy as int, estimates),
        xyz_space: augmented_part(c.xyz_space, xyz as int, estimates),
        verification: augmented_part(c.verification, ver as int, estimates),
        ..c
    }
}

/// The matched samples; an empty sample stands in for a missing origin.
pub open spec fn matched(c: ContainerView, stand_in: u64) -> Seq<WrapperView> {
    Seq::new(
        places(c) as nat,
        |p: int|
            sample::wrapped(
                match sample_at(c, p) {
                    Some(s) => s,
                    None => SampleView {
                        angles: Seq::empty(),
                        ippe: Seq::empty(),
                        is_augmented: false,
                        uid: stand_in,
                    },
                },
                type_at(c, p),
            ),
    )
}

fn augment_part(
    list: &mut Vec<LhCfPoseSample>,
    from: usize,
    estimates: &Vec<Vec<Option<BsPairPoses>>>,
)
    requires
        from + old(list)@.len() <= estimates@.len(),
        forall|i: int|
            0 <= i < old(list)@.len() ==> (!(#[trigger] old(list)@[i]).is_augmented
                ==> estimates@[from + i]@.len() == old(list)@[i]@.angles.len()),
    ensures
        sample_views(final(list)@) == augmented_part(
            sample_views(old(list)@),
            from as int,
            estimates@,
        ),
{
    let n: usize = list.len();
    let total: usize = estimates.len();
    let ghost before = list@;
    let mut i: usize = 0;
    while i < n
        invariant
            i <= n,
            total == estimates@.len(),
            n == before.len(),
            list@.len() == n,
            before == old(list)@,
            from + n <= estimates@.len(),
            forall|k: int| 0 <= k < i ==> (#[trigger] list@[k])@ == sample::augmented(
                before[k]@,
                estimates@[from + k]@,
            ),
            forall|k: int| i <= k < n ==> #[trigger] list@[k] == before[k],
            forall|k: int|
                0 <= k < n ==> (!(#[trigger] before[k]).is_augmented ==> estimates@[from
                    + k]@.len() == before[k]@.angles.len()),
        decreases n - i,
    {
        let ghost at = list@;
        let sample = &mut list[i];
        assert(before[i as int] == at[i as int]);
        sample.augment_with_ippe(&estimates[from + i]);
        assert forall|k: int| 0 <= k < i + 1 implies (#[trigger] list@[k])@ == sample::augmented(
            before[k]@,
            estimates@[from + k]@,
        ) by {
            if k < i {
                assert(list@[k] == at[k]);
            }
        }
        i = i + 1;
    }
    assert(sample_views(list@) =~= augmented_part(sample_views(before), from as int, estimates@));
}

fn wrap_part(
    list: &Vec<LhCfPoseSample>,
    sample_type: LhCfPoseSampleType,
    result: &mut Vec<LhCfPoseSampleWrapper>,
)
    ensures
        sample::wrapper_views(final(result)@) == sample::wrapper_views(old(result)@) + Seq::new(
            list@.len(),
            |i: int| sample::wrapped(list@[i]@, sample_type),
        ),
{
    let ghost part = Seq::new(list@.len(), |i: int| sample::wrapped(list@[i]@, sample_type));
    let ghost before = sample::wrapper_views(result@);
    let mut i: usize = 0;
    assert(sample::wrapper_views(result@) =~= before + part.take(0));
    while i < list.len()
        invariant
            i <= list@.len(),
            part == Seq::new(list@.len(), |i: int| sample::wrapped(list@[i]@, sample_type)),
            sample::wrapper_views(result@) == before + part.take(i as int),
        decreases list.len() - i,
    {
        let ghost at = result@;
        result.push(LhCfPoseSampleWrapper::new(list[i].copied(), sample_type));
        assert(sample::wrapper_views(result@) =~= sample::wrapper_views(at).push(part[i as int]));
        assert(sample::wrapper_views(result@) =~= before + part.take(i + 1));
        i = i + 1;
    }
    assert(part.take(part.len() as int) =~= part);
}

fn copied_list(list: &Vec<LhCfPoseSample>) -> (r: Vec<LhCfPoseSample>)
    ensures
        sample_views(r@) == sample_views(list@),
{
    let mut r: Vec<LhCfPoseSample> = Vec::new();
    let mut i: usize = 0;
    while i < list.len()
        invariant
            i <= list@.len(),
            r@.len() == i,
            forall|k: int| 0 <= k < i ==> (#[trigger] r@[k])@ == list@[k]@,
        decreases list.len() - i,
    {
        r.push(list[i].copied());
        i = i + 1;
    }
    assert(sample_views(r@) =~= sample_views(list@));
    r
}

/// The angles seen at a place, one set for each base station.
pub open spec fn angles_at(c: ContainerView, place: int) -> Seq<LighthouseBsVectors> {
    match sample_at(c, place) {
        Some(s) => Seq::new(s.angles.len(), |i: int| s.angles[i].1),
        None => Seq::empty(),
    }
}

fn angles_of(sample: &LhCfPoseSample) -> (angles: Vec<LighthouseBsVectors>)
    ensures
        angles@ == Seq::new(sample@.angles.len(), |i: int| sample@.angles[i].1),
{
    let mut angles: Vec<LighthouseBsVectors> = Vec::new();
    let mut i: usize = 0;
    while i < sample.angles_calibrated.len()
        invariant
            i <= sample.angles_calibrated@.len(),
            angles@ == Seq::new(i as nat, |k: int| sample@.angles[k].1),
        decreases sample@.angles.len() - i,
    {
        angles.push(sample.angles_calibrated.entry(i).1);
        i = i + 1;
        assert(angles@ =~= Seq::new(i as nat, |k: int| sample@.angles[k].1));
    }
    angles
}

fn push_angles(list: &Vec<LhCfPoseSample>, angles: &mut Vec<Vec<LighthouseBsVectors>>)
    ensures
        final(angles)@.len() == old(angles)@.len() + list@.len(),
        forall|i: int|
            0 <= i < old(angles)@.len() ==> #[trigger] final(angles)@[i] == old(angles)@[i],
        forall|i: int|
            0 <= i < list@.len() ==> (#[trigger] final(angles)@[old(angles)@.len() + i])@ == Seq::new(
                list@[i]@.angles.len(),
                |k: int| list@[i]@.angles[k].1,
            ),
{
    let mut i: usize = 0;
    while i < list.len()
        invariant
            i <= list@.len(),
            angles@.len() == old(angles)@.len() + i,
            forall|k: int|
                0 <= k < old(angles)@.len() ==> #[trigger] angles@[k] == old(angles)@[k],
            forall|k: int|
                0 <= k < i ==> (#[trigger] angles@[old(angles)@.len() + k])@ == Seq::new(
                    list@[k]@.angles.len(),
                    |j: int| list@[k]@.angles[j].1,
                ),
        decreases list.len() - i,
    {
        angles.push(angles_of(&list[i]));
        i = i + 1;
    }
}

impl LhGeoInputContainerData {
    /// A container without samples.
    pub fn new(sensor_positions: [[u64; 3]; 4]) -> (data: LhGeoInputContainerData)
        ensures
            data@ == no_samples(sensor_positions, 0),
    {
        let data = LhGeoInputContainerData {
            sensor_positions,
            origin: None,
            x_axis: Vec::new(),
            xy_plane: Vec::new(),
            xyz_space: Vec::new(),
            verification: Vec::new(),
            version: 0,
        };
        assert(data@ =~= no_samples(sensor_positions, 0));
        data
    }

    /// The place of the origin.
    pub fn origin_index(&self) -> (place: usize)
        ensures
            place == 0,
    {
        0
    }

    /// The place of the first sample on the x-axis.
    pub fn x_axis_start_index(&self) -> (place: usize)
        ensures
            place == 1,
    {
        1
    }

    /// The number of samples on the x-axis.
    pub fn x_axis_sample_count(&self) -> (n: usize)
        ensures
            n == self@.x_axis.len(),
    {
        self.x_axis.len()
    }

    /// The place of the first sample in the xy-plane.
    pub fn xy_plane_start_index(&self) -> (place: usize)
        requires
            places(self@) <= usize::MAX,
        ensures
            place == 1 + self@.x_axis.len(),
    {
        self.x_axis_start_index() + self.x_axis.len()
    }

    /// The number of samples in the xy-plane.
    pub fn xy_plane_sample_count(&self) -> (n: usize)
        ensures
            n == self@.xy_plane.len(),
    {
        self.xy_plane.len()
    }

    /// The place of the first sample in space.
    pub fn xyz_space_start_index(&self) -> (place: usize)
        requires
            places(self@) <= usize::MAX,
        ensures
            place == 1 + self@.x_axis.len() + self@.xy_plane.len(),
    {
        self.xy_plane_start_index() + self.xy_plane.len()
    }

    /// The number of samples in space.
    pub fn xyz_space_sample_count(&self) -> (n: usize)
        ensures
            n == self@.xyz_space.len(),
    {
        self.xyz_space.len()
    }

    /// The angles seen at each place, for which poses are to be estimated.
    pub fn matched_angles(&self) -> (angles: Vec<Vec<LighthouseBsVectors>>)
        ensures
            angles@.len() == places(self@),
            forall|p: int| 0 <= p < places(self@) ==> (#[trigger] angles@[p])@ == angles_at(self@, p),
    {
        let mut angles: Vec<Vec<LighthouseBsVectors>> = Vec::new();
        match &self.origin {
            Some(origin) => angles.push(angles_of(origin)),
            None => angles.push(Vec::new()),
        }
        let ghost c = self@;
        push_angles(&self.x_axis, &mut angles);
        let ghost two = angles@;
        push_angles(&self.xy_plane, &mut angles);
        let ghost three = angles@;
        push_angles(&self.xyz_space, &mut angles);
        let ghost four = angles@;
        push_angles(&self.verification, &mut angles);
        assert forall|p: int| 0 <= p < places(c) implies (#[trigger] angles@[p])@ == angles_at(
            c,
            p,
        ) by {
            let xy = two.len();
            let xyz = three.len();
            let ver = four.len();
            if p >= ver {
                assert(angles@[four.len() + (p - ver)]@ == angles_at(c, p));
            } else {
                assert(angles@[p] == four[p]);
                if p >= xyz {
                    assert(four[three.len() + (p - xyz)]@ == angles_at(c, p));
                } else {
                    assert(four[p] == three[p]);
                    if p >= xy {
                        assert(three[two.len() + (p - xy)]@ == angles_at(c, p));
                    } else {
                        assert(three[p] == two[p]);
                        if p >= 1 {
                            assert(two[1 + (p - 1)]@ == angles_at(c, p));
                        }
                    }
                }
            }
        }
        angles
    }

    /// The list of all samples in order, with their possible poses. An empty sample with the
    /// next number stands in for a missing origin.
    pub fn get_matched_samples(
        &mut self,
        estimates: &Vec<Vec<Option<BsPairPoses>>>,
        counter: &mut u64,
    ) -> (result: Vec<LhCfPoseSampleWrapper>)
        requires
            estimates_fit(old(self)@, estimates@),
        ensures
            final(self)@ == augmented_samples(old(self)@, estimates@),
            sample::wrapper_views(result@) == matched(final(self)@, *old(counter)),
            *final(counter) == (if old(self)@.origin is Some {
                *old(counter)
            } else if *old(counter) == u64::MAX {
                0
            } else {
                (*old(counter) + 1) as u64
            }),
    {
        let ghost c = self@;
        let n_x: usize = self.x_axis.len();
        let n_xy: usize = self.xy_plane.len();
        let n_xyz: usize = self.xyz_space.len();
        let total: usize = estimates.len();
        assert(places(c) == total);
        proof {
            let xy = 1 + c.x_axis.len();
            let xyz = xy + c.xy_plane.len();
            let ver = xyz + c.xyz_space.len();
            assert(sample_at(c, 0) == c.origin);
            assert forall|i: int| 0 <= i < self.x_axis@.len() implies (!(
            #[trigger] self.x_axis@[i]).is_augmented ==> estimates@[1 + i]@.len()
                == self.x_axis@[i]@.angles.len()) by {
                assert(sample_at(c, 1 + i) == Some(c.x_axis[i]));
            }
            assert forall|i: int| 0 <= i < self.xy_plane@.len() implies (!(
            #[trigger] self.xy_plane@[i]).is_augmented ==> estimates@[xy + i]@.len()
                == self.xy_plane@[i]@.angles.len()) by {
                assert(sample_at(c, xy + i) == Some(c.xy_plane[i]));
            }
            assert forall|i: int| 0 <= i < self.xyz_space@.len() implies (!(
            #[trigger] self.xyz_space@[i]).is_augmented ==> estimates@[xyz + i]@.len()
                == self.xyz_space@[i]@.angles.len()) by {
                assert(sample_at(c, xyz + i) == Some(c.xyz_space[i]));
            }
            assert forall|i: int| 0 <= i < self.verification@.len() implies (!(
            #[trigger] self.verification@[i]).is_augmented ==> estimates@[ver + i]@.len()
                == self.verification@[i]@.angles.len()) by {
                assert(sample_at(c, ver + i) == Some(c.verification[i]));
            }
        }
        if let Some(origin) = &mut self.origin {
            origin.augment_with_ippe(&estimates[0]);
        }
        augment_part(&mut self.x_axis, 1, estimates);
        augment_part(&mut self.xy_plane, 1 + n_x, estimates);
        augment_part(&mut self.xyz_space, 1 + n_x + n_xy, estimates);
        augment_part(&mut self.verification, 1 + n_x + n_xy + n_xyz, estimates);
        assert(self@ =~= augmented_samples(c, estimates@));
        let mut result: Vec<LhCfPoseSampleWrapper> = Vec::new();
        let ghost stand_in = *counter;
        match &self.origin {
            Some(origin) => {
                result.push(
                    LhCfPoseSampleWrapper::new(origin.copied(), LhCfPoseSampleType::Origin),
                );
            },
            None => {
                let empty = LhCfPoseSample::new(StationMap::new(), counter);
                result.push(LhCfPoseSampleWrapper::new(empty, LhCfPoseSampleType::Origin));
            },
        }
        wrap_part(&self.x_axis, LhCfPoseSampleType::XAxis, &mut result);
        wrap_part(&self.xy_plane, LhCfPoseSampleType::XyPlane, &mut result);
        wrap_part(&self.xyz_space, LhCfPoseSampleType::XyzSpace, &mut result);
        wrap_part(&self.verification, LhCfPoseSampleType::Verification, &mut result);
        assert(sample::wrapper_views(result@) =~= matched(self@, stand_in));
        result
    }

    /// Whether there is no sample of any kind.
    pub fn is_empty(&self) -> (r: bool)
        ensures
            r == has_none(self@),
    {
        self.origin.is_none() && self.x_axis.len() == 0 && self.xy_plane.len() == 0
            && self.xyz_space.len() == 0 && self.verification.len() == 0
    }

    /// A copy of the samples.
    pub fn copied(&self) -> (data: LhGeoInputContainerData)
        ensures
            data@ == self@,
    {
        let data = LhGeoInputContainerData {
            sensor_positions: self.sensor_positions,
            origin: match &self.origin {
                Some(s) => Some(s.copied()),
                None => None,
            },
            x_axis: copied_list(&self.x_axis),
            xy_plane: copied_list(&self.xy_plane),
            xyz_space: copied_list(&self.xyz_space),
            verification: copied_list(&self.verification),
            version: self.version,
        };
        assert(data@ =~= self@);
        data
    }
}

// ---------------------------------------------------------------------------
// Changes to the samples
// ---------------------------------------------------------------------------

/// The place of the first sample with a number; the length of the list if there is none.
pub open spec fn place_of(list: Seq<SampleView>, uid: u64) -> int
    decreases list.len(),
{
    if list.len() == 0 {
        0
    } else if list[0].uid == uid {
        0
    } else {
        1 + place_of(list.skip(1), uid)
    }
}

/// A sample of the list has the number.
pub open spec fn has_uid(list: Seq<SampleView>, uid: u64) -> bool {
    place_of(list, uid) < list.len()
}

/// The first sample with a number is the first one.
pub proof fn lemma_place_of(list: Seq<SampleView>, uid: u64)
    ensures
        0 <= place_of(list, uid) <= list.len(),
        forall|i: int| 0 <= i < place_of(list, uid) ==> (#[trigger] list[i]).uid != uid,
        has_uid(list, uid) ==> list[place_of(list, uid)].uid == uid,
        has_uid(list, uid) <==> exists|i: int| 0 <= i < list.len() && (#[trigger] list[i]).uid == uid,
    decreases list.len(),
{
    if list.len() > 0 && list[0].uid != uid {
        let rest = list.skip(1);
        lemma_place_of(rest, uid);
        assert forall|i: int| 0 <= i < place_of(list, uid) implies (#[trigger] list[i]).uid
            != uid by {
            if i > 0 {
                assert(rest[i - 1] == list[i]);
            }
        }
    }
}

/// The list without the first sample with a number.
pub open spec fn without(list: Seq<SampleView>, uid: u64) -> Seq<SampleView> {
    list.remove(place_of(list, uid))
}

/// The first sample with a number.
pub open spec fn found(list: Seq<SampleView>, uid: u64) -> SampleView {
    list[place_of(list, uid)]
}

/// One change more.
pub open spec fn bumped(c: ContainerView) -> ContainerView {
    ContainerView { version: (c.version + 1) as u64, ..c }
}

/// The samples without the one with a number. They are searched in order: the origin, the
/// x-axis, the xy-plane, space, verification.
pub open spec fn removed(c: ContainerView, uid: u64) -> ContainerView {
    if c.origin is Some && c.origin->0.uid == uid {
        bumped(ContainerView { origin: None, ..c })
    } else if has_uid(c.x_axis, uid) {
        bumped(ContainerView { x_axis: without(c.x_axis, uid), ..c })
    } else if has_uid(c.xy_plane, uid) {
        bumped(ContainerView { xy_plane: without(c.xy_plane, uid), ..c })
    } else if has_uid(c.xyz_space, uid) {
        bumped(ContainerView { xyz_space: without(c.xyz_space, uid), ..c })
    } else if has_uid(c.verification, uid) {
        bumped(ContainerView { verification: without(c.verification, uid), ..c })
    } else {
        c
    }
}

/// The samples after the one with a number was made a sample for verification.
pub open spec fn turned_to_verification(c: ContainerView, uid: u64) -> ContainerView {
    if has_uid(c.x_axis, uid) {
        bumped(
            ContainerView {
                x_axis: without(c.x_axis, uid),
                verification: c.verification.push(found(c.x_axis, uid)),
                ..c
            },
        )
    } else if has_uid(c.xy_plane, uid) {
        bumped(
            ContainerView {
                xy_plane: without(c.xy_plane, uid),
                verification: c.verification.push(found(c.xy_plane, uid)),
                ..c
            },
        )
    } else if has_uid(c.xyz_space, uid) {
        bumped(
            ContainerView {
                xyz_space: without(c.xyz_space, uid),
                verification: c.verification.push(found(c.xyz_space, uid)),
                ..c
            },
        )
    } else {
        c
    }
}

/// The samples after the one with a number was made a sample in space.
pub open spec fn turned_to_xyz_space(c: ContainerView, uid: u64) -> ContainerView {
    if has_uid(c.xy_plane, uid) {
        bumped(
            ContainerView {
                xy_plane: without(c.xy_plane, uid),
                xyz_space: c.xyz_space.push(found(c.xy_plane, uid)),
                ..c
            },
        )
    } else if has_uid(c.verification, uid) {
        bumped(
            ContainerView {
                verification: without(c.verification, uid),
                xyz_space: c.xyz_space.push(found(c.verification, uid)),
                ..c
            },
        )
    } else {
        c
    }
}

/// Takes the first sample with a number out of a list.
fn take_sample(list: &mut Vec<LhCfPoseSample>, uid: u64) -> (taken: Option<LhCfPoseSample>)
    ensures
        taken is Some <==> has_uid(sample_views(old(list)@), uid),
        taken matches Some(s) ==> {
            &&& s@ == found(sample_views(old(list)@), uid)
            &&& sample_views(final(list)@) == without(sample_views(old(list)@), uid)
        },
        taken is None ==> final(list)@ == old(list)@,
{
    let ghost views = sample_views(list@);
    let mut i: usize = 0;
    assert(views.skip(0) =~= views);
    while i < list.len()
        invariant
            i <= list@.len(),
            list@ == old(list)@,
            views == sample_views(list@),
            place_of(views, uid) == i + place_of(views.skip(i as int), uid),
        decreases list.len() - i,
    {
        assert(views.skip(i as int)[0] == list@[i as int]@);
        assert(views.skip(i as int).skip(1) =~= views.skip(i + 1));
        if list[i].uid == uid {
            let ghost before = list@;
            let taken = list.remove(i);
            assert(sample_views(list@) =~= views.remove(i as int));
            return Some(taken);
        }
        i = i + 1;
    }
    None
}

/// The samples, shared between those who measure and those who estimate.
pub struct LhGeoInputContainer {
    pub data: LhGeoInputContainerData,
}

impl View for LhGeoInputContainer {
    type V = ContainerView;

    open spec fn view(&self) -> ContainerView {
        self.data@
    }
}

/// Samples with their possible poses.
pub open spec fn augmented_list(
    list: Seq<LhCfPoseSample>,
    estimates: Seq<Vec<Option<BsPairPoses>>>,
) -> Seq<SampleView> {
    Seq::new(list.len(), |i: int| sample::augmented(list[i]@, estimates[i]@))
}

/// There is one estimate for each base station in sight, where poses are to be taken over.
pub open spec fn estimates_match(
    samples: Seq<LhCfPoseSample>,
    estimates: Seq<Vec<Option<BsPairPoses>>>,
) -> bool {
    &&& samples.len() == estimates.len()
    &&& forall|i: int|
        0 <= i < samples.len() ==> (!(#[trigger] samples[i]).is_augmented ==> estimates[i]@.len()
            == samples[i]@.angles.len())
}

fn append_augmented(
    list: &mut Vec<LhCfPoseSample>,
    samples: Vec<LhCfPoseSample>,
    estimates: &Vec<Vec<Option<BsPairPoses>>>,
)
    requires
        estimates_match(samples@, estimates@),
    ensures
        sample_views(final(list)@) == sample_views(old(list)@) + augmented_list(
            samples@,
            estimates@,
        ),
{
    let ghost all = samples@;
    let ghost before = sample_views(list@);
    let ghost more = augmented_list(all, estimates@);
    let total: usize = samples.len();
    let mut i: usize = 0;
    assert(sample_views(list@) =~= before + more.take(0));
    for s in iter: samples
        invariant
            iter.seq() == all,
            total == all.len(),
            i == iter.index(),
            estimates_match(all, estimates@),
            more == augmented_list(all, estimates@),
            sample_views(list@) == before + more.take(i as int),
    {
        let mut s = s;
        let ghost at = list@;
        assert(s == all[i as int]);
        s.augment_with_ippe(&estimates[i]);
        assert(s@ == more[i as int]);
        list.push(s);
        assert(sample_views(list@) =~= sample_views(at).push(more[i as int]));
        assert(sample_views(list@) =~= before + more.take(i + 1));
        i = i + 1;
    }
    assert(more.take(more.len() as int) =~= more);
}

impl LhGeoInputContainer {
    /// A container without samples.
    pub fn new(sensor_positions: [[u64; 3]; 4]) -> (c: LhGeoInputContainer)
        ensures
            c@ == no_samples(sensor_positions, 0),
    {
        LhGeoInputContainer { data: LhGeoInputContainerData::new(sensor_positions) }
    }

    /// The number of changes so far.
    pub fn get_data_version(&self) -> (version: u64)
        ensures
            version == self@.version,
    {
        self.data.version
    }

    /// A copy of the samples.
    pub fn get_data_copy(&self) -> (data: LhGeoInputContainerData)
        ensures
            data@ == self@,
    {
        self.data.copied()
    }

    /// Sets the sample at the origin.
    pub fn set_origin_sample(
        &mut self,
        sample: LhCfPoseSample,
        estimates: &Vec<Option<BsPairPoses>>,
    )
        requires
            old(self)@.version < u64::MAX,
            !sample.is_augmented ==> estimates@.len() == sample@.angles.len(),
        ensures
            final(self)@ == bumped(
                (ContainerView {
                    origin: Some(sample::augmented(sample@, estimates@)),
                    ..old(self)@
                }),
            ),
    {
        let mut sample = sample;
        sample.augment_with_ippe(estimates);
        self.data.origin = Some(sample);
        self.data.version = self.data.version + 1;
    }

    /// Sets the one sample on the x-axis.
    pub fn set_x_axis_sample(
        &mut self,
        sample: LhCfPoseSample,
        estimates: &Vec<Option<BsPairPoses>>,
    )
        requires
            old(self)@.version < u64::MAX,
            !sample.is_augmented ==> estimates@.len() == sample@.angles.len(),
        ensures
            final(self)@ == bumped(
                (ContainerView {
                    x_axis: seq![sample::augmented(sample@, estimates@)],
                    ..old(self)@
                }),
            ),
    {
        let mut sample = sample;
        let ghost after = sample::augmented(sample@, estimates@);
        sample.augment_with_ippe(estimates);
        let mut list: Vec<LhCfPoseSample> = Vec::new();
        list.push(sample);
        assert(sample_views(list@) =~= seq![after]);
        self.data.x_axis = list;
        self.data.version = self.data.version + 1;
    }

    /// Adds a sample in the xy-plane.
    pub fn append_xy_plane_sample(
        &mut self,
        sample: LhCfPoseSample,
        estimates: &Vec<Option<BsPairPoses>>,
    )
        requires
            old(self)@.version < u64::MAX,
            !sample.is_augmented ==> estimates@.len() == sample@.angles.len(),
        ensures
            final(self)@ == bumped(
                (ContainerView {
                    xy_plane: old(self)@.xy_plane.push(sample::augmented(sample@, estimates@)),
                    ..old(self)@
                }),
            ),
    {
        let mut sample = sample;
        let ghost after = sample::augmented(sample@, estimates@);
        sample.augment_with_ippe(estimates);
        let ghost before = self.data.xy_plane@;
        self.data.xy_plane.push(sample);
        assert(sample_views(self.data.xy_plane@) =~= sample_views(before).push(after));
        self.data.version = self.data.version + 1;
    }

    /// Adds samples in space.
    pub fn append_xyz_space_samples(
        &mut self,
        samples: Vec<LhCfPoseSample>,
        estimates: &Vec<Vec<Option<BsPairPoses>>>,
    )
        requires
            old(self)@.version < u64::MAX,
            estimates_match(samples@, estimates@),
        ensures
            final(self)@ == bumped(
                (ContainerView {
                    xyz_space: old(self)@.xyz_space + augmented_list(samples@, estimates@),
                    ..old(self)@
                }),
            ),
    {
        append_augmented(&mut self.data.xyz_space, samples, estimates);
        self.data.version = self.data.version + 1;
    }

    /// Adds samples for verification.
    pub fn append_verification_samples(
        &mut self,
        samples: Vec<LhCfPoseSample>,
        estimates: &Vec<Vec<Option<BsPairPoses>>>,
    )
        requires
            old(self)@.version < u64::MAX,
            estimates_match(samples@, estimates@),
        ensures
            final(self)@ == bumped(
                (ContainerView {
                    verification: old(self)@.verification + augmented_list(samples@, estimates@),
                    ..old(self)@
                }),
            ),
    {
        append_augmented(&mut self.data.verification, samples, estimates);
        self.data.version = self.data.version + 1;
    }

    /// Removes the sample with a number, if there is one.
    pub fn remove_sample(&mut self, uid: u64)
        requires
            old(self)@.version < u64::MAX,
        ensures
            final(self)@ == removed(old(self)@, uid),
    {
        let at_origin = match &self.data.origin {
            Some(origin) => origin.uid() == uid,
            None => false,
        };
        if at_origin {
            self.data.origin = None;
            self.data.version = self.data.version + 1;
            return ;
        }
        if take_sample(&mut self.data.x_axis, uid).is_some() || take_sample(
            &mut self.data.xy_plane,
            uid,
        ).is_some() || take_sample(&mut self.data.xyz_space, uid).is_some() || take_sample(
            &mut self.data.verification,
            uid,
        ).is_some() {
            self.data.version = self.data.version + 1;
        }
    }

    /// Makes the sample with a number a sample for verification, if it is on the x-axis, in the
    /// xy-plane or in space.
    pub fn convert_to_verification_sample(&mut self, uid: u64)
        requires
            old(self)@.version < u64::MAX,
        ensures
            final(self)@ == turned_to_verification(old(self)@, uid),
    {
        let mut removed: Option<LhCfPoseSample> = take_sample(&mut self.data.x_axis, uid);
        if removed.is_none() {
            removed = take_sample(&mut self.data.xy_plane, uid);
        }
        if removed.is_none() {
            removed = take_sample(&mut self.data.xyz_space, uid);
        }
        if let Some(sample) = removed {
            let ghost before = self.data.verification@;
            let ghost moved = sample@;
            self.data.verification.push(sample);
            assert(sample_views(self.data.verification@) =~= sample_views(before).push(moved));
            self.data.version = self.data.version + 1;
        }
    }

    /// Makes the sample with a number a sample in space, if it is in the xy-plane or for
    /// verification.
    pub fn convert_to_xyz_space_sample(&mut self, uid: u64)
        requires
            old(self)@.version < u64::MAX,
        ensures
            final(self)@ == turned_to_xyz_space(old(self)@, uid),
    {
        let mut removed: Option<LhCfPoseSample> = take_sample(&mut self.data.xy_plane, uid);
        if removed.is_none() {
            removed = take_sample(&mut self.data.verification, uid);
        }
        if let Some(sample) = removed {
            let ghost before = self.data.xyz_space@;
            let ghost moved = sample@;
            self.data.xyz_space.push(sample);
            assert(sample_views(self.data.xyz_space@) =~= sample_views(before).push(moved));
            self.data.version = self.data.version + 1;
        }
    }

    /// Removes all samples. The count of changes starts over at one.
    pub fn clear_all_samples(&mut self)
        ensures
            final(self)@ == no_samples(old(self)@.sensor_positions, 1),
    {
        let sensor_positions = self.data.sensor_positions;
        self.data = LhGeoInputContainerData::new(sensor_positions);
        self.data.version = self.data.version + 1;
        assert(self@ =~= no_samples(sensor_positions, 1));
    }

    /// Whether there is no sample of any kind.
    pub fn is_empty(&self) -> (r: bool)
        ensures
            r == has_none(self@),
    {
        self.data.is_empty()
    }

    /// Takes over samples that were read back.
    pub fn load(&mut self, new_data: LhGeoInputContainerData)
        requires
            old(self)@.version < u64::MAX,
        ensures
            final(self)@ == (ContainerView {
                version: (old(self)@.version + 1) as u64,
                ..new_data@
            }),
    {
        let version: u64 = self.data.version;
        self.data = new_data;
        self.data.version = version + 1;
    }
}

// ---------------------------------------------------------------------------
// Laws
// ---------------------------------------------------------------------------

/// All samples, whatever they are for.
pub open spec fn all_samples(c: ContainerView) -> Multiset<SampleView> {
    (match c.origin {
        Some(s) => Multiset::singleton(s),
        None => Multiset::empty(),
    }).add(c.x_axis.to_multiset()).add(c.xy_plane.to_multiset()).add(
        c.xyz_space.to_multiset(),
    ).add(c.verification.to_multiset())
}

/// A sample of any kind has the number.
pub open spec fn has_sample(c: ContainerView, uid: u64) -> bool {
    (c.origin is Some && c.origin->0.uid == uid) || has_uid(c.x_axis, uid) || has_uid(
        c.xy_plane,
        uid,
    ) || has_uid(c.xyz_space, uid) || has_uid(c.verification, uid)
}

proof fn lemma_moved(from: Seq<SampleView>, to: Seq<SampleView>, uid: u64)
    requires
        has_uid(from, uid),
    ensures
        without(from, uid).to_multiset().insert(found(from, uid)) =~= from.to_multiset(),
        to.push(found(from, uid)).to_multiset() =~= to.to_multiset().insert(found(from, uid)),
        without(from, uid).to_multiset() =~= from.to_multiset().remove(found(from, uid)),
        from.to_multiset().count(found(from, uid)) > 0,
{
    broadcast use vstd::seq_lib::group_to_multiset_ensures;
    broadcast use vstd::multiset::group_multiset_axioms;

    lemma_place_of(from, uid);
    from.to_multiset_ensures();
    to.to_multiset_ensures();
    assert(from.contains(found(from, uid)));
}

/// Making a sample one for verification, or one in space, keeps all samples: none is lost and
/// none is doubled.
pub proof fn law_conversion_keeps_samples(c: ContainerView, uid: u64)
    ensures
        all_samples(turned_to_verification(c, uid)) =~= all_samples(c),
        all_samples(turned_to_xyz_space(c, uid)) =~= all_samples(c),
{
    broadcast use vstd::multiset::group_multiset_axioms;

    if has_uid(c.x_axis, uid) {
        lemma_moved(c.x_axis, c.verification, uid);
    }
    if has_uid(c.xy_plane, uid) {
        lemma_moved(c.xy_plane, c.verification, uid);
        lemma_moved(c.xy_plane, c.xyz_space, uid);
    }
    if has_uid(c.xyz_space, uid) {
        lemma_moved(c.xyz_space, c.verification, uid);
    }
    if has_uid(c.verification, uid) {
        lemma_moved(c.verification, c.xyz_space, uid);
    }
}

/// Removing takes out exactly one sample with the number, and only where there is one.
pub proof fn law_removal(c: ContainerView, uid: u64)
    requires
        c.version < u64::MAX,
    ensures
        has_sample(c, uid) ==> exists|s: SampleView|
            {
                &&& s.uid == uid
                &&& #[trigger] all_samples(c).count(s) > 0
                &&& all_samples(removed(c, uid)) =~= all_samples(c).remove(s)
            },
        !has_sample(c, uid) ==> removed(c, uid) == c,
        removed(c, uid).version == c.version + (if has_sample(c, uid) {
            1int
        } else {
            0int
        }),
{
    broadcast use vstd::multiset::group_multiset_axioms;

    let r = removed(c, uid);
    if c.origin is Some && c.origin->0.uid == uid {
        let s = c.origin->0;
        assert(all_samples(c).count(s) > 0);
        assert(all_samples(r) =~= all_samples(c).remove(s));
    } else if has_sample(c, uid) {
        let list = if has_uid(c.x_axis, uid) {
            c.x_axis
        } else if has_uid(c.xy_plane, uid) {
            c.xy_plane
        } else if has_uid(c.xyz_space, uid) {
            c.xyz_space
        } else {
            c.verification
        };
        let s = found(list, uid);
        lemma_place_of(list, uid);
        lemma_moved(list, list, uid);
        assert(all_samples(c).count(s) > 0);
        assert(all_samples(r) =~= all_samples(c).remove(s));
    }
}

/// A sample in space that is made one for verification and then one in space again is the last
/// one in space; nothing else changes but the count of changes.
pub proof fn law_conversion_and_back(c: ContainerView, uid: u64)
    requires
        has_uid(c.xyz_space, uid),
        !has_uid(c.x_axis, uid),
        !has_uid(c.xy_plane, uid),
        !has_uid(c.verification, uid),
        c.version < u64::MAX - 1,
    ensures
        turned_to_xyz_space(turned_to_verification(c, uid), uid) == (ContainerView {
            xyz_space: without(c.xyz_space, uid).push(found(c.xyz_space, uid)),
            version: (c.version + 2) as u64,
            ..c
        }),
{
    let s = found(c.xyz_space, uid);
    let more = c.verification.push(s);
    lemma_place_of(c.xyz_space, uid);
    lemma_place_of(c.verification, uid);
    lemma_place_of(more, uid);
    assert(more[c.verification.len() as int].uid == uid);
    assert(place_of(more, uid) == c.verification.len()) by {
        let p = place_of(more, uid);
        if p < c.verification.len() {
            assert(c.verification[p].uid == uid);
        }
    }
    assert(without(more, uid) =~= c.verification);
}

/// A fresh sample that is added in the xy-plane and removed again leaves the samples as they
/// were, two changes later.
pub proof fn law_add_then_remove(c: ContainerView, s: SampleView)
    requires
        !has_sample(c, s.uid),
        c.version < u64::MAX - 1,
    ensures
        removed(bumped(ContainerView { xy_plane: c.xy_plane.push(s), ..c }), s.uid) == (
        ContainerView { version: (c.version + 2) as u64, ..c }),
{
    let more = c.xy_plane.push(s);
    lemma_place_of(c.xy_plane, s.uid);
    lemma_place_of(more, s.uid);
    assert(more[c.xy_plane.len() as int].uid == s.uid);
    let p = place_of(more, s.uid);
    if p < c.xy_plane.len() {
        assert(c.xy_plane[p].uid == s.uid);
    }
    assert(without(more, s.uid) =~= c.xy_plane);
}

/// The places of the samples: the origin comes first, the samples on the x-axis next, those in the
/// xy-plane, in space and for verification after them, each list in its own order.
pub proof fn law_places(c: ContainerView, i: int)
    ensures
        places(c) == 1 + c.x_axis.len() + c.xy_plane.len() + c.xyz_space.len()
            + c.verification.len(),
        sample_at(c, 0) == c.origin && type_at(c, 0) is Origin,
        0 <= i < c.x_axis.len() ==> sample_at(c, 1 + i) == Some(c.x_axis[i]) && type_at(c, 1 + i) is XAxis,
        0 <= i < c.xy_plane.len() ==> {
            let p = 1 + c.x_axis.len() + i;
            sample_at(c, p) == Some(c.xy_plane[i]) && type_at(c, p) is XyPlane
        },
        0 <= i < c.xyz_space.len() ==> {
            let p = 1 + c.x_axis.len() + c.xy_plane.len() + i;
            sample_at(c, p) == Some(c.xyz_space[i]) && type_at(c, p) is XyzSpace
        },
        0 <= i < c.verification.len() ==> {
            let p = 1 + c.x_axis.len() + c.xy_plane.len() + c.xyz_space.len() + i;
            sample_at(c, p) == Some(c.verification[i]) && type_at(c, p) is Verification
        },
{
}

/// A matched sample is the sample of its place with the kind of its place, of which nothing is
/// known yet. A sample without angles, with the given number, stands in for a missing origin.
pub proof fn law_matched(c: ContainerView, stand_in: u64, p: int)
    requires
        0 <= p < places(c),
    ensures
        matched(c, stand_in).len() == places(c),
        ({
            let w = matched(c, stand_in)[p];
            &&& w.sample_type == type_at(c, p)
            &&& w.is_mandatory <==> w.sample_type is Origin || w.sample_type is XAxis
                || w.sample_type is XyPlane
            &&& w.status is Valid && w.pose is None && w.error_distance == 0
            &&& sample_at(c, p) matches Some(s) ==> w.sample == s
            &&& sample_at(c, p) is None ==> p == 0 && w.sample.angles.len() == 0
                && w.sample.ippe.len() == 0 && !w.sample.is_augmented && w.sample.uid == stand_in
        }),
{
}

/// Each sample gets the possible poses that were estimated for its place; no sample changes its
/// place.
pub proof fn law_estimates_by_place(
    c: ContainerView,
    estimates: Seq<Vec<Option<BsPairPoses>>>,
    p: int,
)
    requires
        0 <= p < places(c),
    ensures
        ({
            let now = augmented_samples(c, estimates);
            &&& places(now) == places(c)
            &&& type_at(now, p) == type_at(c, p)
            &&& sample_at(c, p) matches Some(s) ==> sample_at(now, p) == Some(
                sample::augmented(s, estimates[p]@),
            )
            &&& sample_at(c, p) is None ==> sample_at(now, p) is None
            &&& now.version == c.version && now.sensor_positions == c.sensor_positions
        }),
{
}

/// The angles of a place are those of its sample, in order; of a missing origin there are none.
pub proof fn law_angles_of_place(c: ContainerView, p: int, i: int)
    ensures
        sample_at(c, p) is None ==> angles_at(c, p).len() == 0,
        sample_at(c, p) matches Some(s) ==> angles_at(c, p).len() == s.angles.len() && (0 <= i
            < s.angles.len() ==> angles_at(c, p)[i] == s.angles[i].1),
{
}

/// A list gives up its first sample with a number: it is one shorter, what stood before it stays
/// and what stood behind it moves up.
pub proof fn law_list_without(list: Seq<SampleView>, uid: u64, k: int)
    requires
        has_uid(list, uid),
    ensures
        without(list, uid).len() == list.len() - 1,
        found(list, uid).uid == uid,
        list.contains(found(list, uid)),
        0 <= k < place_of(list, uid) ==> without(list, uid)[k] == list[k] && list[k].uid != uid,
        place_of(list, uid) <= k < list.len() - 1 ==> without(list, uid)[k] == list[k + 1],
{
    lemma_place_of(list, uid);
    assert(list[place_of(list, uid)] == found(list, uid));
}

/// Removing takes the sample from one list alone, the first of the origin, the x-axis, the
/// xy-plane, space and the verification that has the number.
pub proof fn law_removed_from(c: ContainerView, uid: u64)
    ensures
        ({
            let now = removed(c, uid);
            let at_origin = c.origin matches Some(s) && s.uid == uid;
            let on_x = !at_origin && has_uid(c.x_axis, uid);
            let on_xy = !at_origin && !on_x && has_uid(c.xy_plane, uid);
            let in_space = !at_origin && !on_x && !on_xy && has_uid(c.xyz_space, uid);
            let to_verify = !at_origin && !on_x && !on_xy && !in_space && has_uid(
                c.verification,
                uid,
            );
            &&& now.origin == (if at_origin {
                None
            } else {
                c.origin
            })
            &&& !on_x ==> now.x_axis == c.x_axis
            &&& !on_xy ==> now.xy_plane == c.xy_plane
            &&& !in_space ==> now.xyz_space == c.xyz_space
            &&& !to_verify ==> now.verification == c.verification
            &&& on_x ==> now.x_axis == without(c.x_axis, uid)
            &&& on_xy ==> now.xy_plane == without(c.xy_plane, uid)
            &&& in_space ==> now.xyz_space == without(c.xyz_space, uid)
            &&& to_verify ==> now.verification == without(c.verification, uid)
        }),
{
}

/// A sample on the x-axis, in the xy-plane or in space can be made one for verification, and one in
/// the xy-plane or for verification one in space: it becomes the last there. The origin can be made
/// neither, nor can a sample on the x-axis become one in space.
pub proof fn law_converted_to(c: ContainerView, uid: u64)
    requires
        c.version < u64::MAX,
    ensures
        ({
            let ver = turned_to_verification(c, uid);
            let convertible = has_uid(c.x_axis, uid) || has_uid(c.xy_plane, uid) || has_uid(
                c.xyz_space,
                uid,
            );
            &&& ver.origin == c.origin
            &&& convertible ==> ver.verification.len() == c.verification.len() + 1
                && ver.verification.last().uid == uid && ver.verification.drop_last()
                == c.verification && ver.version == c.version + 1
            &&& !convertible ==> ver == c
        }),
        ({
            let space = turned_to_xyz_space(c, uid);
            let convertible = has_uid(c.xy_plane, uid) || has_uid(c.verification, uid);
            &&& space.origin == c.origin && space.x_axis == c.x_axis
            &&& convertible ==> space.xyz_space.len() == c.xyz_space.len() + 1
                && space.xyz_space.last().uid == uid && space.xyz_space.drop_last() == c.xyz_space
                && space.version == c.version + 1
            &&& !convertible ==> space == c
        }),
{
    lemma_place_of(c.x_axis, uid);
    lemma_place_of(c.xy_plane, uid);
    lemma_place_of(c.xyz_space, uid);
    lemma_place_of(c.verification, uid);
    assert(turned_to_verification(c, uid).verification.drop_last() =~= c.verification || !(has_uid(
        c.x_axis,
        uid,
    ) || has_uid(c.xy_plane, uid) || has_uid(c.xyz_space, uid)));
    assert(turned_to_xyz_space(c, uid).xyz_space.drop_last() =~= c.xyz_space || !(has_uid(
        c.xy_plane,
        uid,
    ) || has_uid(c.verification, uid)));
}

/// There is no sample if and only if no place has one.
pub proof fn law_empty(c: ContainerView, sensor_positions: [[u64; 3]; 4], version: u64)
    ensures
        has_none(c) <==> c.origin is None && places(c) == 1,
        has_none(no_samples(sensor_positions, version)),
        no_samples(sensor_positions, version).version == version,
        no_samples(sensor_positions, version).sensor_positions == sensor_positions,
{
}

} // verus!
