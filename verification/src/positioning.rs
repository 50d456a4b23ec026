//! What is known of the positioning systems, and the paths that units are to fly. Positions are
//! the bits of singles.

use crate::float_bits;
use vstd::prelude::*;

verus! {

/// The base stations and anchors that the swarm is positioned by.
pub struct PositioningData {
    /// Base stations with their positions.
    pub lighthouse_bs: Vec<(u8, [u32; 3])>,
    /// The anchors that are there now.
    pub loco_anchors: Vec<(u8, [u32; 3])>,
    /// All anchors ever seen, each with the last position it had.
    pub loco_seen: Vec<(u8, [u32; 3])>,
    pub lighthouse_active: u16,
    pub loco_active: u16,
}

/// The last position of each number in a list.
pub open spec fn positions_by_id(list: Seq<(u8, [u32; 3])>) -> Map<u8, [u32; 3]>
    decreases list.len(),
{
    if list.len() == 0 {
        Map::empty()
    } else {
        positions_by_id(list.drop_last()).insert(list.last().0, list.last().1)
    }
}

/// No number occurs twice.
pub open spec fn ids_distinct(list: Seq<(u8, [u32; 3])>) -> bool {
    forall|i: int, j: int|
        0 <= i < j < list.len() ==> (#[trigger] list[i]).0 != (#[trigger] list[j]).0
}

proof fn lemma_by_id(list: Seq<(u8, [u32; 3])>)
    requires
        ids_distinct(list),
    ensures
        forall|i: int|
            0 <= i < list.len() ==> positions_by_id(list).dom().contains((#[trigger] list[i]).0)
                && positions_by_id(list)[list[i].0] == list[i].1,
        forall|id: u8| #[trigger]
            positions_by_id(list).dom().contains(id) ==> exists|i: int|
                0 <= i < list.len() && (#[trigger] list[i]).0 == id,
    decreases list.len(),
{
    if list.len() > 0 {
        let rest = list.drop_last();
        assert forall|i: int, j: int| 0 <= i < j < rest.len() implies (#[trigger] rest[i]).0 != (
        #[trigger] rest[j]).0 by {
            assert(rest[i] == list[i]);
            assert(rest[j] == list[j]);
        }
        lemma_by_id(rest);
        assert forall|i: int| 0 <= i < list.len() implies positions_by_id(list).dom().contains(
            (#[trigger] list[i]).0,
        ) && positions_by_id(list)[list[i].0] == list[i].1 by {
            if i < list.len() - 1 {
                assert(rest[i] == list[i]);
                assert(list[i].0 != list[list.len() - 1].0);
            }
        }
        assert forall|id: u8| #[trigger] positions_by_id(list).dom().contains(id) implies exists|
            i: int,
        | 0 <= i < list.len() && (#[trigger] list[i]).0 == id by {
            if id == list.last().0 {
                assert(list[list.len() - 1].0 == id);
            } else {
                assert(positions_by_id(rest).dom().contains(id));
                let i = choose|i: int| 0 <= i < rest.len() && (#[trigger] rest[i]).0 == id;
                assert(list[i].0 == id);
            }
        }
    }
}

fn remember(list: &mut Vec<(u8, [u32; 3])>, id: u8, pos: [u32; 3])
    requires
        ids_distinct(old(list)@),
    ensures
        ids_distinct(final(list)@),
        positions_by_id(final(list)@) == positions_by_id(old(list)@).insert(id, pos),
{
    let ghost before = list@;
    proof {
        lemma_by_id(before);
    }
    let mut i: usize = 0;
    while i < list.len()
        invariant
            i <= list@.len(),
            list@ == before,
            before == old(list)@,
            ids_distinct(before),
            forall|k: int| 0 <= k < i ==> (#[trigger] before[k]).0 != id,
        decreases list.len() - i,
    {
        if list[i].0 == id {
            list[i] = (id, pos);
            proof {
                let after = list@;
                assert(after =~= before.update(i as int, (id, pos)));
                assert forall|k: int, l: int| 0 <= k < l < after.len() implies (#[trigger] after[k]).0
                    != (#[trigger] after[l]).0 by {
                    assert(after[k].0 == before[k].0);
                    assert(after[l].0 == before[l].0);
                }
                lemma_by_id(before);
                lemma_by_id(after);
                assert forall|d: u8| positions_by_id(after).dom().contains(d) == positions_by_id(
                    before,
                ).insert(id, pos).dom().contains(d) by {
                    if positions_by_id(after).dom().contains(d) {
                        let k = choose|k: int| 0 <= k < after.len() && (#[trigger] after[k]).0 == d;
                        assert(before[k].0 == d);
                    }
                    if positions_by_id(before).dom().contains(d) {
                        let k = choose|k: int| 0 <= k < before.len() && (#[trigger] before[k]).0 == d;
                        assert(after[k].0 == d);
                    }
                    assert(after[i as int].0 == id);
                }
                assert forall|d: u8| positions_by_id(after).dom().contains(d) implies positions_by_id(
                    after,
                )[d] == positions_by_id(before).insert(id, pos)[d] by {
                    let k = choose|k: int| 0 <= k < after.len() && (#[trigger] after[k]).0 == d;
                    if k != i {
                        assert(after[k] == before[k]);
                        if k < i {
                            assert(before[k].0 != before[i as int].0);
                        } else {
                            assert(before[i as int].0 != before[k].0);
                        }
                    }
                }
                assert(positions_by_id(after) =~= positions_by_id(before).insert(id, pos));
            }
            return ;
        }
        i = i + 1;
    }
    list.push((id, pos));
    proof {
        let after = list@;
        assert(after.drop_last() =~= before);
        assert forall|k: int, l: int| 0 <= k < l < after.len() implies (#[trigger] after[k]).0 != (
        #[trigger] after[l]).0 by {
            assert(after[k] == before[k]);
            if l < before.len() {
                assert(after[l] == before[l]);
            }
        }
    }
}

/// One position to draw, bright or dimmed.
#[derive(Debug, Clone, Copy)]
pub struct FixedPoint {
    pub pos: [u32; 3],
    pub bright: bool,
}

/// Bit `id` of a mask.
pub open spec fn mask_bit(mask: u16, id: nat) -> bool
    decreases id,
{
    if id == 0 {
        mask % 2 == 1
    } else {
        mask_bit(mask / 2, (id - 1) as nat)
    }
}

/// Whether bit `id` of a mask is set.
pub fn is_set(mask: u16, id: u8) -> (r: bool)
    ensures
        r == mask_bit(mask, id as nat),
{
    let mut m: u16 = mask;
    let mut k: u8 = id;
    while k > 0
        invariant
            mask_bit(m, k as nat) == mask_bit(mask, id as nat),
        decreases k,
    {
        m = m / 2;
        k = k - 1;
    }
    m % 2 == 1
}

impl PositioningData {
    /// Every anchor is remembered once, and those that are there are remembered where they are.
    pub open spec fn wf(&self) -> bool {
        ids_distinct(self.loco_seen@)
    }

    /// Nothing is known.
    pub fn new() -> (data: PositioningData)
        ensures
            data.wf(),
            data.lighthouse_bs@.len() == 0,
            data.loco_anchors@.len() == 0,
            data.loco_seen@.len() == 0,
            data.lighthouse_active == 0,
            data.loco_active == 0,
    {
        PositioningData {
            lighthouse_bs: Vec::new(),
            loco_anchors: Vec::new(),
            loco_seen: Vec::new(),
            lighthouse_active: 0,
            loco_active: 0,
        }
    }

    /// Takes over what a unit reported. Anchors that are gone stay remembered.
    pub fn store(&mut self, lighthouse: Vec<(u8, [u32; 3])>, loco: Vec<(u8, [u32; 3])>)
        requires
            old(self).wf(),
        ensures
            final(self).wf(),
            final(self).lighthouse_bs == lighthouse,
            final(self).loco_anchors == loco,
            positions_by_id(final(self).loco_seen@) == positions_by_id(
                old(self).loco_seen@,
            ).union_prefer_right(positions_by_id(loco@)),
            final(self).lighthouse_active == old(self).lighthouse_active,
            final(self).loco_active == old(self).loco_active,
    {
        let ghost before = positions_by_id(self.loco_seen@);
        let mut i: usize = 0;
        assert(loco@.take(0) =~= Seq::empty());
        assert(before.union_prefer_right(Map::<u8, [u32; 3]>::empty()) =~= before);
        while i < loco.len()
            invariant
                i <= loco@.len(),
                self.wf(),
                positions_by_id(self.loco_seen@) == before.union_prefer_right(
                    positions_by_id(loco@.take(i as int)),
                ),
                self.lighthouse_active == old(self).lighthouse_active,
                self.loco_active == old(self).loco_active,
            decreases loco.len() - i,
        {
            assert(loco@.take(i + 1).drop_last() =~= loco@.take(i as int));
            let ghost part = positions_by_id(loco@.take(i as int));
            remember(&mut self.loco_seen, loco[i].0, loco[i].1);
            assert(before.union_prefer_right(part).insert(loco@[i as int].0, loco@[i as int].1)
                =~= before.union_prefer_right(
                part.insert(loco@[i as int].0, loco@[i as int].1),
            ));
            i = i + 1;
        }
        assert(loco@.take(loco@.len() as int) =~= loco@);
        self.lighthouse_bs = lighthouse;
        self.loco_anchors = loco;
    }

    /// Takes over which base stations and anchors the source unit receives.
    pub fn set_active(&mut self, lighthouse: u16, loco: u16)
        ensures
            *final(self) == (PositioningData {
                lighthouse_active: lighthouse,
                loco_active: loco,
                ..*old(self)
            }),
    {
        self.lighthouse_active = lighthouse;
        self.loco_active = loco;
    }

    /// The base stations, bright where the source unit receives them.
    pub fn lighthouse_points(&self) -> (points: Vec<FixedPoint>)
        requires
            forall|i: int| 0 <= i < self.lighthouse_bs@.len() ==> (#[trigger] self.lighthouse_bs@[i]).0
                < 16,
        ensures
            points@.len() == self.lighthouse_bs@.len(),
            forall|i: int|
                0 <= i < points@.len() ==> {
                    &&& (#[trigger] points@[i]).pos == self.lighthouse_bs@[i].1
                    &&& points@[i].bright == mask_bit(
                        self.lighthouse_active,
                        self.lighthouse_bs@[i].0 as nat,
                    )
                },
    {
        let mut points: Vec<FixedPoint> = Vec::new();
        let mut i: usize = 0;
        while i < self.lighthouse_bs.len()
            invariant
                i <= self.lighthouse_bs@.len(),
                points@.len() == i,
                forall|k: int|
                    0 <= k < i ==> {
                        &&& (#[trigger] points@[k]).pos == self.lighthouse_bs@[k].1
                        &&& points@[k].bright == mask_bit(
                            self.lighthouse_active,
                            self.lighthouse_bs@[k].0 as nat,
                        )
                    },
            decreases self.lighthouse_bs.len() - i,
        {
            let (id, pos) = self.lighthouse_bs[i];
            points.push(FixedPoint { pos, bright: is_set(self.lighthouse_active, id) });
            i = i + 1;
        }
        points
    }

    /// The anchors: those that are there, bright, and then those remembered but gone, dimmed.
    pub fn loco_points(&self) -> (points: Vec<FixedPoint>)
        requires
            self.wf(),
        ensures
            points@.len() >= self.loco_anchors@.len(),
            forall|i: int|
                0 <= i < self.loco_anchors@.len() ==> (#[trigger] points@[i]).bright
                    && points@[i].pos == self.loco_anchors@[i].1,
            forall|i: int|
                self.loco_anchors@.len() <= i < points@.len() ==> !(#[trigger] points@[i]).bright
                    && exists|k: int|
                    0 <= k < self.loco_seen@.len() && !has_id(
                        self.loco_anchors@,
                        (#[trigger] self.loco_seen@[k]).0,
                    ) && self.loco_seen@[k].1 == points@[i].pos,
            points@.len() == self.loco_anchors@.len() + gone(
                self.loco_anchors@,
                self.loco_seen@,
            ).len(),
            forall|i: int|
                0 <= i < gone(self.loco_anchors@, self.loco_seen@).len() ==> (
                #[trigger] points@[self.loco_anchors@.len() + i]).pos == gone(
                    self.loco_anchors@,
                    self.loco_seen@,
                )[i].1,
    {
        let mut points: Vec<FixedPoint> = Vec::new();
        let mut i: usize = 0;
        while i < self.loco_anchors.len()
            invariant
                i <= self.loco_anchors@.len(),
                points@.len() == i,
                forall|k: int|
                    0 <= k < i ==> (#[trigger] points@[k]).bright && points@[k].pos
                        == self.loco_anchors@[k].1,
            decreases self.loco_anchors.len() - i,
        {
            points.push(FixedPoint { pos: self.loco_anchors[i].1, bright: true });
            i = i + 1;
        }
        let mut j: usize = 0;
        let ghost here = self.loco_anchors@;
        let ghost seen = self.loco_seen@;
        assert(seen.take(0) =~= Seq::empty());
        while j < self.loco_seen.len()
            invariant
                j <= self.loco_seen@.len(),
                here == self.loco_anchors@,
                seen == self.loco_seen@,
                points@.len() == here.len() + gone(here, seen.take(j as int)).len(),
                forall|k: int|
                    0 <= k < here.len() ==> (#[trigger] points@[k]).bright && points@[k].pos
                        == here[k].1,
                forall|k: int|
                    here.len() <= k < points@.len() ==> !(#[trigger] points@[k]).bright
                        && points@[k].pos == gone(here, seen.take(j as int))[k - here.len()].1,
            decreases self.loco_seen.len() - j,
        {
            assert(seen.take(j + 1).drop_last() =~= seen.take(j as int));
            let ghost done = points@;
            if !contains_id(&self.loco_anchors, self.loco_seen[j].0) {
                points.push(FixedPoint { pos: self.loco_seen[j].1, bright: false });
            }
            j = j + 1;
        }
        assert(seen.take(seen.len() as int) =~= seen);
        proof {
            lemma_gone(here, seen);
            assert forall|i: int| 0 <= i < gone(here, seen).len() implies (
            #[trigger] points@[here.len() + i]).pos == gone(here, seen)[i].1 by {}
        }
        points
    }
}

/// A number occurs in the list.
pub open spec fn has_id(list: Seq<(u8, [u32; 3])>, id: u8) -> bool {
    exists|i: int| 0 <= i < list.len() && (#[trigger] list[i]).0 == id
}

fn contains_id(list: &Vec<(u8, [u32; 3])>, id: u8) -> (r: bool)
    ensures
        r == has_id(list@, id),
{
    let mut i: usize = 0;
    while i < list.len()
        invariant
            i <= list@.len(),
            forall|k: int| 0 <= k < i ==> (#[trigger] list@[k]).0 != id,
        decreases list.len() - i,
    {
        if list[i].0 == id {
            return true;
        }
        i = i + 1;
    }
    false
}

/// The remembered anchors that are not there, in order.
pub open spec fn gone(here: Seq<(u8, [u32; 3])>, seen: Seq<(u8, [u32; 3])>) -> Seq<(u8, [u32; 3])>
    decreases seen.len(),
{
    if seen.len() == 0 {
        Seq::empty()
    } else if has_id(here, seen.last().0) {
        gone(here, seen.drop_last())
    } else {
        gone(here, seen.drop_last()).push(seen.last())
    }
}

proof fn lemma_gone(here: Seq<(u8, [u32; 3])>, seen: Seq<(u8, [u32; 3])>)
    ensures
        forall|i: int|
            0 <= i < gone(here, seen).len() ==> exists|k: int|
                0 <= k < seen.len() && !has_id(here, (#[trigger] seen[k]).0) && seen[k]
                    == #[trigger] gone(here, seen)[i],
    decreases seen.len(),
{
    if seen.len() > 0 {
        lemma_gone(here, seen.drop_last());
        assert forall|i: int| 0 <= i < gone(here, seen).len() implies exists|k: int|
            0 <= k < seen.len() && !has_id(here, (#[trigger] seen[k]).0) && seen[k]
                == #[trigger] gone(here, seen)[i] by {
            let shorter = gone(here, seen.drop_last());
            if i < shorter.len() {
                let k = choose|k: int|
                    0 <= k < seen.drop_last().len() && !has_id(
                        here,
                        (#[trigger] seen.drop_last()[k]).0,
                    ) && seen.drop_last()[k] == shorter[i];
                assert(seen[k] == gone(here, seen)[i]);
            } else {
                assert(seen[seen.len() - 1] == gone(here, seen)[i]);
            }
        }
    }
}

// ---------------------------------------------------------------------------
// Trajectories
// ---------------------------------------------------------------------------

/// Points drawn per segment of a trajectory.
pub const STEPS_PER_SEGMENT: usize = 20;

/// The points drawn of a trajectory, each as a segment and a step within it: twenty steps of
/// every segment, and the end of the last.
pub open spec fn trajectory_steps(segments: nat) -> Seq<(int, int)> {
    if segments == 0 {
        Seq::empty()
    } else {
        Seq::new(20 * segments, |i: int| (i / 20, i % 20)).push((segments - 1, 20))
    }
}

/// The points to draw of a trajectory of `segments` segments.
pub fn sample_trajectory(segments: usize) -> (steps: Vec<(usize, usize)>)
    requires
        segments <= usize::MAX / 20,
    ensures
        steps@.len() == trajectory_steps(segments as nat).len(),
        forall|i: int|
            0 <= i < steps@.len() ==> (#[trigger] steps@[i]).0 == trajectory_steps(
                segments as nat,
            )[i].0 && steps@[i].1 == trajectory_steps(segments as nat)[i].1,
{
    let mut steps: Vec<(usize, usize)> = Vec::new();
    let total: usize = segments * STEPS_PER_SEGMENT;
    let mut i: usize = 0;
    while i < total
        invariant
            i <= total,
            steps@.len() == i,
            forall|k: int| 0 <= k < i ==> (#[trigger] steps@[k]).0 == k / 20 && steps@[k].1 == k % 20,
        decreases total - i,
    {
        steps.push((i / STEPS_PER_SEGMENT, i % STEPS_PER_SEGMENT));
        i = i + 1;
    }
    if segments > 0 {
        steps.push((segments - 1, STEPS_PER_SEGMENT));
    }
    steps
}

/// The path of a unit: its points, where it is drawn from, and the points put aside while the
/// unit takes off.
pub struct TrajectoryData {
    pub points: Vec<[u32; 3]>,
    pub duration: u32,
    pub anchor: Option<[u32; 3]>,
    pub saved_points: Option<Vec<[u32; 3]>>,
}

/// The bits of the single 0.5.
pub const SINGLE_HALF: u32 = 0x3f00_0000;

/// The line drawn during take-off: half a metre straight up.
pub open spec fn takeoff_line() -> Seq<[u32; 3]> {
    seq![[0u32, 0u32, 0u32], [0u32, 0u32, SINGLE_HALF]]
}

/// A path as sequences.
pub struct TrajectoryView {
    pub points: Seq<[u32; 3]>,
    pub duration: u32,
    pub anchor: Option<[u32; 3]>,
    pub saved_points: Option<Seq<[u32; 3]>>,
}

impl View for TrajectoryData {
    type V = TrajectoryView;

    open spec fn view(&self) -> TrajectoryView {
        TrajectoryView {
            points: self.points@,
            duration: self.duration,
            anchor: self.anchor,
            saved_points: match self.saved_points {
                Some(saved) => Some(saved@),
                None => None,
            },
        }
    }
}

/// The path while the unit takes off from `pos`.
pub open spec fn taking_off(t: TrajectoryView, pos: [u32; 3]) -> TrajectoryView {
    TrajectoryView {
        points: takeoff_line(),
        anchor: Some(pos),
        saved_points: Some(t.points),
        ..t
    }
}

/// The path once the unit is in the air at `pos`.
pub open spec fn in_the_air(t: TrajectoryView, pos: [u32; 3]) -> TrajectoryView {
    TrajectoryView {
        points: match t.saved_points {
            Some(saved) => saved,
            None => t.points,
        },
        anchor: Some(pos),
        saved_points: None,
        ..t
    }
}

/// Taking off and being in the air brings the path back, drawn from where the unit is then.
pub proof fn law_takeoff_restores(t: TrajectoryView, from: [u32; 3], to: [u32; 3])
    ensures
        in_the_air(taking_off(t, from), to) == (TrajectoryView {
            anchor: Some(to),
            saved_points: None,
            ..t
        }),
{
}

/// Where a path is drawn, and the point of it that goes there.
pub open spec fn path_place(t: TrajectoryView, unit: Option<[u32; 3]>) -> ([u32; 3], [u32; 3]) {
    let base = match (t.anchor, unit) {
        (Some(anchor), _) => anchor,
        (None, Some(pos)) => pos,
        (None, None) => [0u32, 0u32, 0u32],
    };
    if t.points.len() > 0 {
        (base, t.points[0])
    } else {
        (base, [0u32, 0u32, 0u32])
    }
}

/// From the take-off on a path is drawn where the unit was noted, wherever the unit is.
pub proof fn law_path_is_anchored(
    t: TrajectoryView,
    pos: [u32; 3],
    here: Option<[u32; 3]>,
    there: Option<[u32; 3]>,
)
    ensures
        path_place(taking_off(t, pos), here) == path_place(taking_off(t, pos), there),
        path_place(in_the_air(t, pos), here) == path_place(in_the_air(t, pos), there),
        path_place(in_the_air(t, pos), here).0 == pos,
{
}

impl TrajectoryData {
    /// A path that was just uploaded.
    pub fn new(points: Vec<[u32; 3]>, duration: u32) -> (t: TrajectoryData)
        ensures
            t@ == (TrajectoryView {
                points: points@,
                duration,
                anchor: None,
                saved_points: None,
            }),
    {
        TrajectoryData { points, duration, anchor: None, saved_points: None }
    }

    /// The unit takes off from `pos`: its path is put aside and the take-off is drawn.
    pub fn begin_takeoff(&mut self, pos: [u32; 3])
        ensures
            final(self)@ == taking_off(old(self)@, pos),
    {
        let mut line: Vec<[u32; 3]> = Vec::new();
        line.push([0, 0, 0]);
        line.push([0, 0, SINGLE_HALF]);
        assert(line@ =~= takeoff_line());
        std::mem::swap(&mut line, &mut self.points);
        self.saved_points = Some(line);
        self.anchor = Some(pos);
    }

    /// The unit is in the air at `pos`: its path is drawn from there.
    pub fn finish_takeoff(&mut self, pos: [u32; 3])
        ensures
            final(self)@ == in_the_air(old(self)@, pos),
    {
        let saved = self.saved_points.take();
        if let Some(points) = saved {
            self.points = points;
        }
        self.anchor = Some(pos);
    }

    /// Where the path is drawn, and the point of it that goes there: it begins where the unit
    /// was last noted, or else where the unit is.
    pub fn drawn_from(&self, unit: Option<[u32; 3]>) -> (place: ([u32; 3], [u32; 3]))
        ensures
            place == path_place(self@, unit),
    {
        let base = match self.anchor {
            Some(anchor) => anchor,
            None => match unit {
                Some(pos) => pos,
                None => [0, 0, 0],
            },
        };
        let first = if self.points.len() > 0 {
            self.points[0]
        } else {
            [0, 0, 0]
        };
        (base, first)
    }
}

/// A bit of a mask is set if and only if its power of two is in the mask an odd number of times.
pub proof fn law_mask_bit(mask: u16, id: nat)
    ensures
        mask_bit(mask, id) <==> mask as int / vstd::arithmetic::power2::pow2(id) as int % 2 == 1,
    decreases id,
{
    vstd::arithmetic::power2::lemma_pow2_pos(id);
    if id == 0 {
        vstd::arithmetic::power2::lemma2_to64();
    } else {
        let p = vstd::arithmetic::power2::pow2((id - 1) as nat);
        vstd::arithmetic::power2::lemma_pow2_pos((id - 1) as nat);
        law_mask_bit(mask / 2, (id - 1) as nat);
        vstd::arithmetic::power2::lemma_pow2_unfold(id);
        vstd::arithmetic::div_mod::lemma_div_denominator(mask as int, 2, p as int);
    }
}

/// The last position of a number counts, and only numbers of the list have one.
pub proof fn law_last_position(list: Seq<(u8, [u32; 3])>, i: int, id: u8)
    ensures
        positions_by_id(list).dom().contains(id) <==> has_id(list, id),
        0 <= i < list.len() && list[i].0 == id && (forall|j: int|
            i < j < list.len() ==> (#[trigger] list[j]).0 != id) ==> positions_by_id(list)[id]
            == list[i].1,
    decreases list.len(),
{
    if list.len() > 0 {
        let before = list.drop_last();
        law_last_position(before, i, id);
        assert(forall|j: int| 0 <= j < before.len() ==> before[j] == list[j]);
        if has_id(before, id) {
            let j = choose|j: int| 0 <= j < before.len() && (#[trigger] before[j]).0 == id;
            assert(list[j].0 == id);
        }
        if has_id(list, id) {
            let j = choose|j: int| 0 <= j < list.len() && (#[trigger] list[j]).0 == id;
            if j < before.len() {
                assert(before[j].0 == id);
            }
        }
        assert(list[list.len() - 1] == list.last());
    }
}

/// A remembered anchor is drawn as gone if and only if no anchor of its number is there.
pub proof fn law_gone_anchors(here: Seq<(u8, [u32; 3])>, seen: Seq<(u8, [u32; 3])>, a: (u8, [u32; 3]))
    ensures
        gone(here, seen).contains(a) <==> seen.contains(a) && !has_id(here, a.0),
    decreases seen.len(),
{
    if seen.len() > 0 {
        let before = seen.drop_last();
        law_gone_anchors(here, before, a);
        let kept = gone(here, before);
        let all = gone(here, seen);
        if seen.contains(a) {
            let i = seen.index_of(a);
            if i < before.len() {
                assert(before[i] == a);
            }
        }
        if before.contains(a) {
            let i = before.index_of(a);
            assert(seen[i] == a);
        }
        assert(seen[seen.len() - 1] == seen.last());
        if kept.contains(a) {
            let i = kept.index_of(a);
            assert(all[i] == a);
        }
        if !has_id(here, seen.last().0) {
            assert(all == kept.push(seen.last()));
            assert(all[kept.len() as int] == seen.last());
            if all.contains(a) {
                let i = all.index_of(a);
                if i < kept.len() {
                    assert(kept[i] == a);
                }
            }
        }
    }
}

/// A trajectory is drawn from the start of its first segment to the end of its last: each step is
/// followed by the next one of its segment, or the last one before the end by the start of the
/// next segment.
pub proof fn law_steps_of_trajectory(segments: nat, i: int)
    requires
        segments > 0,
        0 <= i < 20 * segments,
    ensures
        ({
            let steps = trajectory_steps(segments);
            &&& steps.len() == 20 * segments + 1
            &&& steps[0] == (0int, 0int)
            &&& steps.last() == (segments - 1, 20int)
            &&& 0 <= steps[i].0 < segments && 0 <= steps[i].1 < 20
            &&& i + 1 < 20 * segments ==> steps[i + 1] == (if steps[i].1 < 19 {
                (steps[i].0, steps[i].1 + 1)
            } else {
                (steps[i].0 + 1, 0int)
            })
            &&& i + 1 == 20 * segments ==> steps[i] == (segments - 1, 19int)
        }),
{
}

/// While a unit takes off its path is drawn from where it started, and the take-off is a line
/// straight up from there. A path without a noted start is drawn from where the unit is, or from
/// the origin where that is not known.
pub proof fn law_path_begins(t: TrajectoryView, pos: [u32; 3], unit: Option<[u32; 3]>)
    ensures
        path_place(taking_off(t, pos), unit).0 == pos,
        taking_off(t, pos).points.len() == 2,
        taking_off(t, pos).points[0] == [0u32, 0u32, 0u32],
        taking_off(t, pos).points[1][0] == 0 && taking_off(t, pos).points[1][1] == 0,
        float_bits::single_less(0, taking_off(t, pos).points[1][2]),
        taking_off(t, pos).duration == t.duration && in_the_air(t, pos).duration == t.duration,
        t.anchor is None ==> (unit matches Some(p) ==> path_place(t, unit).0 == p),
        t.anchor is None && unit is None ==> path_place(t, unit).0 == [0u32, 0u32, 0u32],
        t.anchor matches Some(a) ==> path_place(t, unit).0 == a,
        t.points.len() > 0 ==> path_place(t, unit).1 == t.points[0],
        t.points.len() == 0 ==> path_place(t, unit).1 == [0u32, 0u32, 0u32],
        t.saved_points is None ==> in_the_air(t, pos).points == t.points,
{
}

} // verus!
