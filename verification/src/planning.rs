//! Planning a flight space: obstacles, areas, take-off pads and random waypoints. Coordinates
//! are bits of singles.

use crate::coverage;
use crate::coverage::{BaseStation, SceneBaseStation};
use crate::float_bits;
use crate::text;
use crate::yaml;
use crate::yaml::YamlView;
use vstd::prelude::*;
use vstd::string::*;

verus! {

// ---------------------------------------------------------------------------
// Obstacles
// ---------------------------------------------------------------------------

/// The shape of an obstacle.
#[derive(Debug, Clone, Copy, PartialEq, Eq, Structural)]
pub enum ObstacleKind {
    Box,
    Cylinder,
}

/// Something that blocks the way and the view.
#[derive(Debug, Clone, Copy)]
pub struct Obstacle {
    pub kind: ObstacleKind,
    /// The centre.
    pub pos: [u32; 3],
    pub yaw_deg: u32,
    /// The extents of a box; a cylinder has only a height.
    pub width: u32,
    pub depth: u32,
    pub height: u32,
    /// The radius of a cylinder.
    pub radius: u32,
    pub color: [u32; 3],
    /// Whether the bottom stays on the floor.
    pub on_floor: bool,
}

/// The single 1.
pub const ONE: u32 = 0x3f80_0000;

/// The single 0.5.
pub const HALF: u32 = 0x3f00_0000;

/// The grey that obstacles have unless told otherwise.
pub fn default_color() -> (color: [u32; 3])
    ensures
        color == [0x3ee6_6666u32, 0x3ee6_6666u32, HALF],
{
    [0x3ee6_6666, 0x3ee6_6666, HALF]
}

impl Obstacle {
    /// A box of one metre on the floor.
    pub fn new_box(pos: [u32; 3]) -> (o: Obstacle)
        ensures
            o == (Obstacle {
                kind: ObstacleKind::Box,
                pos,
                yaw_deg: 0,
                width: ONE,
                depth: ONE,
                height: ONE,
                radius: 0,
                color: [0x3ee6_6666u32, 0x3ee6_6666u32, HALF],
                on_floor: true,
            }),
    {
        Obstacle {
            kind: ObstacleKind::Box,
            pos,
            yaw_deg: 0,
            width: ONE,
            depth: ONE,
            height: ONE,
            radius: 0,
            color: default_color(),
            on_floor: true,
        }
    }

    /// A cylinder of one metre on the floor.
    pub fn new_cylinder(pos: [u32; 3]) -> (o: Obstacle)
        ensures
            o == (Obstacle {
                kind: ObstacleKind::Cylinder,
                pos,
                yaw_deg: 0,
                width: 0,
                depth: 0,
                height: ONE,
                radius: HALF,
                color: [0x3ee6_6666u32, 0x3ee6_6666u32, HALF],
                on_floor: true,
            }),
    {
        Obstacle {
            kind: ObstacleKind::Cylinder,
            pos,
            yaw_deg: 0,
            width: 0,
            depth: 0,
            height: ONE,
            radius: HALF,
            color: default_color(),
            on_floor: true,
        }
    }

    /// Whether a point is inside, given it in the frame of the obstacle.
    pub fn contains_point(&self, p: &LocalPoint) -> (r: bool)
        ensures
            r == is_inside(self.kind, *p),
    {
        match self.kind {
            ObstacleKind::Box => float_bits::at_most_single(p.x, p.half_width)
                && float_bits::at_most_single(p.y, p.half_depth) && float_bits::at_most_single(
                p.z,
                p.half_height,
            ),
            ObstacleKind::Cylinder => float_bits::at_most_single(p.radius_squared, p.limit_squared)
                && float_bits::at_most_single(p.z, p.half_height),
        }
    }
}

/// A point in the frame of an obstacle: its distances from the centre along the axes, its
/// squared distance from the vertical axis, and what they are compared with.
#[derive(Debug, Clone, Copy)]
pub struct LocalPoint {
    pub x: u32,
    pub y: u32,
    pub z: u32,
    pub radius_squared: u32,
    pub half_width: u32,
    pub half_depth: u32,
    pub half_height: u32,
    pub limit_squared: u32,
}

/// A point is inside an obstacle, its surface belongs to it.
pub open spec fn is_inside(kind: ObstacleKind, p: LocalPoint) -> bool {
    match kind {
        ObstacleKind::Box => float_bits::single_at_most(p.x, p.half_width)
            && float_bits::single_at_most(p.y, p.half_depth) && float_bits::single_at_most(
            p.z,
            p.half_height,
        ),
        ObstacleKind::Cylinder => float_bits::single_at_most(p.radius_squared, p.limit_squared)
            && float_bits::single_at_most(p.z, p.half_height),
    }
}

// ---------------------------------------------------------------------------
// Rays
// ---------------------------------------------------------------------------

/// A direction counts as parallel below this, 1e-12.
pub const NEARLY_ZERO: u32 = 0x2b8c_bccc;

/// The larger of two singles; the first one if the second is not a number.
pub open spec fn later(a: u32, b: u32) -> u32 {
    if float_bits::single_less(a, b) {
        b
    } else {
        a
    }
}

/// The smaller of two singles; the first one if the second is not a number.
pub open spec fn earlier(a: u32, b: u32) -> u32 {
    if float_bits::single_less(b, a) {
        b
    } else {
        a
    }
}

/// The part of a ray between two times.
#[derive(Debug, Clone, Copy, PartialEq, Eq, Structural)]
pub struct RaySpan {
    pub enters: u32,
    pub leaves: u32,
}

/// The whole ray, from its origin at time zero to its target at time one.
pub open spec fn whole_ray() -> RaySpan {
    RaySpan { enters: 0, leaves: ONE }
}

/// What is left of a part of a ray between two more times, if anything.
pub open spec fn clipped(span: RaySpan, from: u32, to: u32) -> Option<RaySpan> {
    let enters = later(span.enters, from);
    let leaves = earlier(span.leaves, to);
    if float_bits::single_less(leaves, enters) {
        None
    } else {
        Some(RaySpan { enters, leaves })
    }
}

fn clip(span: RaySpan, from: u32, to: u32) -> (r: Option<RaySpan>)
    ensures
        r == clipped(span, from, to),
{
    let enters: u32 = if float_bits::less_single(span.enters, from) {
        from
    } else {
        span.enters
    };
    let leaves: u32 = if float_bits::less_single(to, span.leaves) {
        to
    } else {
        span.leaves
    };
    if float_bits::less_single(leaves, enters) {
        None
    } else {
        Some(RaySpan { enters, leaves })
    }
}

/// A ray and two parallel planes: the size of the direction across them, where the ray starts,
/// where the planes are, and when the ray meets them.
#[derive(Debug, Clone, Copy)]
pub struct Slab {
    pub direction: u32,
    pub origin: u32,
    pub low: u32,
    pub high: u32,
    pub meets_low: u32,
    pub meets_high: u32,
}

/// The part of a ray between two planes. A parallel ray is between them all along or not at
/// all.
pub open spec fn between_planes(span: RaySpan, slab: Slab) -> Option<RaySpan> {
    if float_bits::single_less(slab.direction, NEARLY_ZERO) {
        if float_bits::single_less(slab.origin, slab.low) || float_bits::single_less(
            slab.high,
            slab.origin,
        ) {
            None
        } else {
            Some(span)
        }
    } else if float_bits::single_less(slab.meets_high, slab.meets_low) {
        clipped(span, slab.meets_high, slab.meets_low)
    } else {
        clipped(span, slab.meets_low, slab.meets_high)
    }
}

fn clip_slab(span: RaySpan, slab: &Slab) -> (r: Option<RaySpan>)
    ensures
        r == between_planes(span, *slab),
{
    if float_bits::less_single(slab.direction, NEARLY_ZERO) {
        if float_bits::less_single(slab.origin, slab.low) || float_bits::less_single(
            slab.high,
            slab.origin,
        ) {
            None
        } else {
            Some(span)
        }
    } else if float_bits::less_single(slab.meets_high, slab.meets_low) {
        clip(span, slab.meets_high, slab.meets_low)
    } else {
        clip(span, slab.meets_low, slab.meets_high)
    }
}

/// The part of a ray inside a box given by three pairs of planes.
pub open spec fn inside_box(slabs: [Slab; 3]) -> Option<RaySpan> {
    match between_planes(whole_ray(), slabs[0]) {
        None => None,
        Some(a) => match between_planes(a, slabs[1]) {
            None => None,
            Some(b) => between_planes(b, slabs[2]),
        },
    }
}

/// Whether a ray meets a box.
pub fn ray_aabb_intersect(slabs: &[Slab; 3]) -> (hit: bool)
    ensures
        hit == (inside_box(*slabs) is Some),
{
    let whole = RaySpan { enters: 0, leaves: ONE };
    match clip_slab(whole, &slabs[0]) {
        None => false,
        Some(a) => match clip_slab(a, &slabs[1]) {
            None => false,
            Some(b) => clip_slab(b, &slabs[2]).is_some(),
        },
    }
}

/// A ray and a cylinder: the squared size of its direction across the axis, how far outside it
/// starts, the discriminant of the times it meets the mantle, those times, and its caps.
#[derive(Debug, Clone, Copy)]
pub struct CylinderRay {
    pub across: u32,
    pub outside: u32,
    pub discriminant: u32,
    pub meets_first: u32,
    pub meets_second: u32,
    pub caps: Slab,
}

/// The part of a ray inside a cylinder.
pub open spec fn inside_cylinder(ray: CylinderRay) -> Option<RaySpan> {
    let within_mantle = if float_bits::single_less(ray.across, NEARLY_ZERO) {
        if float_bits::single_less(0, ray.outside) {
            None
        } else {
            Some(whole_ray())
        }
    } else if float_bits::single_less(ray.discriminant, 0) {
        None
    } else {
        clipped(whole_ray(), ray.meets_first, ray.meets_second)
    };
    match within_mantle {
        None => None,
        Some(span) => between_planes(span, ray.caps),
    }
}

/// Whether a ray meets a cylinder.
pub fn ray_cylinder_intersect(ray: &CylinderRay) -> (hit: bool)
    ensures
        hit == (inside_cylinder(*ray) is Some),
{
    let whole = RaySpan { enters: 0, leaves: ONE };
    let within_mantle: Option<RaySpan> = if float_bits::less_single(ray.across, NEARLY_ZERO) {
        if float_bits::less_single(0, ray.outside) {
            None
        } else {
            Some(whole)
        }
    } else if float_bits::less_single(ray.discriminant, 0) {
        None
    } else {
        clip(whole, ray.meets_first, ray.meets_second)
    };
    match within_mantle {
        None => false,
        Some(span) => clip_slab(span, &ray.caps).is_some(),
    }
}

/// A part of a ray lies between its origin and its target.
pub open spec fn proper_span(span: RaySpan) -> bool {
    &&& float_bits::single_key(span.enters) is Some
    &&& float_bits::single_key(span.leaves) is Some
    &&& 0 <= float_bits::single_key(span.enters)->0
    &&& float_bits::single_key(span.enters)->0 <= float_bits::single_key(span.leaves)->0
    &&& float_bits::single_key(span.leaves)->0 <= ONE
}

proof fn lemma_clipped_proper(span: RaySpan, from: u32, to: u32)
    requires
        proper_span(span),
    ensures
        clipped(span, from, to) matches Some(r) ==> proper_span(r),
        float_bits::single_less(ONE, from) ==> clipped(span, from, to) is None,
        float_bits::single_less(to, 0) ==> clipped(span, from, to) is None,
{
}

/// What a ray shares with a box lies between its origin and its target. A ray that meets both
/// planes of a pair only after its target, or only before its origin, does not meet the box.
pub proof fn law_ray_ends(slabs: [Slab; 3], i: int)
    requires
        0 <= i < 3,
    ensures
        inside_box(slabs) matches Some(span) ==> proper_span(span),
        !float_bits::single_less(slabs[i].direction, NEARLY_ZERO) && float_bits::single_less(
            ONE,
            slabs[i].meets_low,
        ) && float_bits::single_less(ONE, slabs[i].meets_high) ==> inside_box(slabs) is None,
        !float_bits::single_less(slabs[i].direction, NEARLY_ZERO) && float_bits::single_less(
            slabs[i].meets_low,
            0,
        ) && float_bits::single_less(slabs[i].meets_high, 0) ==> inside_box(slabs) is None,
{
    lemma_between_proper(whole_ray(), slabs[0]);
    if let Some(a) = between_planes(whole_ray(), slabs[0]) {
        lemma_between_proper(a, slabs[1]);
        if let Some(b) = between_planes(a, slabs[1]) {
            lemma_between_proper(b, slabs[2]);
        }
    }
    assert(i == 0 || i == 1 || i == 2);
}

proof fn lemma_between_proper(span: RaySpan, slab: Slab)
    requires
        proper_span(span),
    ensures
        between_planes(span, slab) matches Some(r) ==> proper_span(r),
        !float_bits::single_less(slab.direction, NEARLY_ZERO) && float_bits::single_less(
            ONE,
            slab.meets_low,
        ) && float_bits::single_less(ONE, slab.meets_high) ==> between_planes(span, slab) is None,
        !float_bits::single_less(slab.direction, NEARLY_ZERO) && float_bits::single_less(
            slab.meets_low,
            0,
        ) && float_bits::single_less(slab.meets_high, 0) ==> between_planes(span, slab) is None,
{
    lemma_clipped_proper(span, slab.meets_low, slab.meets_high);
    lemma_clipped_proper(span, slab.meets_high, slab.meets_low);
}

/// Something in a list is true.
pub open spec fn any_true(list: Seq<bool>) -> bool {
    exists|i: int| 0 <= i < list.len() && #[trigger] list[i]
}

/// Whether any obstacle blocks a ray, given whether each does.
pub fn any_obstacle_blocks(blocks: &Vec<bool>) -> (r: bool)
    ensures
        r == any_true(blocks@),
{
    let mut i: usize = 0;
    while i < blocks.len()
        invariant
            i <= blocks@.len(),
            forall|k: int| 0 <= k < i ==> !(#[trigger] blocks@[k]),
        decreases blocks.len() - i,
    {
        if blocks[i] {
            return true;
        }
        i = i + 1;
    }
    false
}

/// Whether a point is inside any obstacle, given whether it is inside each.
pub fn point_blocked(contains: &Vec<bool>) -> (r: bool)
    ensures
        r == any_true(contains@),
{
    any_obstacle_blocks(contains)
}

/// Whether a straight way passes through any obstacle, given whether each blocks it.
pub fn segment_blocked(blocks: &Vec<bool>) -> (r: bool)
    ensures
        r == any_true(blocks@),
{
    any_obstacle_blocks(blocks)
}

// ---------------------------------------------------------------------------
// Areas
// ---------------------------------------------------------------------------

/// A box that is not turned, in which to fly or to pick waypoints.
#[derive(Debug, Clone)]
pub struct BoxVolume {
    pub min: [u32; 3],
    pub max: [u32; 3],
    pub label: String,
}

/// A point is inside a box, its surface belongs to it.
pub open spec fn in_volume(v: BoxVolume, p: [u32; 3]) -> bool {
    forall|i: int|
        #![trigger p[i]]
        0 <= i < 3 ==> float_bits::single_at_most(v.min[i], p[i]) && float_bits::single_at_most(
            p[i],
            v.max[i],
        )
}

impl BoxVolume {
    /// A box without a label.
    pub fn new(min: [u32; 3], max: [u32; 3]) -> (v: BoxVolume)
        ensures
            v.min == min,
            v.max == max,
            v.label@ == Seq::<char>::empty(),
    {
        BoxVolume { min, max, label: String::new() }
    }

    /// Whether a point is inside the box.
    pub fn contains(&self, p: [u32; 3]) -> (r: bool)
        ensures
            r == in_volume(*self, p),
    {
        let mut i: usize = 0;
        while i < 3
            invariant
                i <= 3,
                forall|k: int|
                    #![trigger p[k]]
                    0 <= k < i ==> float_bits::single_at_most(self.min[k], p[k])
                        && float_bits::single_at_most(p[k], self.max[k]),
            decreases 3 - i,
        {
            if !(float_bits::at_most_single(self.min[i], p[i]) && float_bits::at_most_single(
                p[i],
                self.max[i],
            )) {
                assert(!(float_bits::single_at_most(self.min[i as int], p[i as int])
                    && float_bits::single_at_most(p[i as int], self.max[i as int])));
                return false;
            }
            i = i + 1;
        }
        true
    }
}

/// Whether a point is inside any of the boxes.
pub fn point_in_areas(areas: &Vec<BoxVolume>, p: [u32; 3]) -> (r: bool)
    ensures
        r == exists|i: int| 0 <= i < areas@.len() && in_volume(#[trigger] areas@[i], p),
{
    let mut i: usize = 0;
    while i < areas.len()
        invariant
            i <= areas@.len(),
            forall|k: int| 0 <= k < i ==> !in_volume(#[trigger] areas@[k], p),
        decreases areas.len() - i,
    {
        if areas[i].contains(p) {
            return true;
        }
        i = i + 1;
    }
    false
}

// ---------------------------------------------------------------------------
// Random waypoints
// ---------------------------------------------------------------------------

/// The state after one step of the generator.
pub open spec fn advanced(s: u64) -> u64 {
    let a = s ^ (s << 13);
    let b = a ^ (a >> 7);
    b ^ (b << 17)
}

/// Advances the generator. The result is the numerator of a fraction of 2^53.
pub fn rng_next_unit(state: &mut u64) -> (numerator: u64)
    ensures
        *final(state) == advanced(*old(state)),
        numerator == advanced(*old(state)) >> 11,
        numerator < 0x20_0000_0000_0000,
{
    let s: u64 = *state;
    let a: u64 = s ^ (s << 13);
    let b: u64 = a ^ (a >> 7);
    let c: u64 = b ^ (b << 17);
    *state = c;
    assert(c >> 11 < 0x20_0000_0000_0000) by (bit_vector);
    c >> 11
}

/// The generator never gets stuck at zero, and no two states lead to the same one.
pub proof fn law_generator(s: u64, t: u64)
    ensures
        s != 0 ==> advanced(s) != 0,
        advanced(s) == advanced(t) ==> s == t,
{
    let a = s ^ (s << 13);
    let b = a ^ (a >> 7);
    let c = t ^ (t << 13);
    let d = c ^ (c >> 7);
    assert(b ^ (b << 17) == d ^ (d << 17) ==> b == d) by (bit_vector);
    assert(a ^ (a >> 7) == c ^ (c >> 7) ==> a == c) by (bit_vector);
    assert(s ^ (s << 13) == t ^ (t << 13) ==> s == t) by (bit_vector);
    assert(s != 0 ==> s ^ (s << 13) != 0) by (bit_vector);
    assert(a != 0 ==> a ^ (a >> 7) != 0) by (bit_vector);
    assert(b != 0 ==> b ^ (b << 17) != 0) by (bit_vector);
}

/// A reading of the system clock.
#[verifier::external_type_specification]
#[verifier::external_body]
pub struct ExSystemTime(std::time::SystemTime);

/// The error of a clock that is before the time it is compared with.
#[verifier::external_type_specification]
#[verifier::external_body]
pub struct ExSystemTimeError(std::time::SystemTimeError);

/// `SystemTime::now` reads the clock. Nothing is claimed of the reading.
pub assume_specification[ std::time::SystemTime::now ]() -> std::time::SystemTime
;

/// `SystemTime::duration_since` with the epoch: the time that has passed since it, or an error
/// where the reading is before it. Nothing is claimed of either, which rest on the clock.
#[verifier::external_body]
fn since_epoch(now: std::time::SystemTime) -> (r: Result<
    std::time::Duration,
    std::time::SystemTimeError,
>) {
    now.duration_since(std::time::UNIX_EPOCH)
}

/// `Duration::as_nanos` gives the nanoseconds in a length of time. Nothing is claimed of the
/// number, which rests on the clock here.
pub assume_specification[ std::time::Duration::as_nanos ](
    d: &std::time::Duration,
) -> u128
;

/// The seed for a reading of the clock: its low 64 bits, a fixed one where there is none, and
/// never zero.
pub open spec fn seed_of(nanos: Option<u128>) -> u64 {
    let low: u64 = match nanos {
        Some(n) => (n % 0x1_0000_0000_0000_0000) as u64,
        None => 0x9e37_79b9_7f4a_7c15,
    };
    if low == 0 {
        1
    } else {
        low
    }
}

/// The seed for a reading of the clock.
pub fn seed_from(nanos: Option<u128>) -> (seed: u64)
    ensures
        seed == seed_of(nanos),
        seed >= 1,
{
    let low: u64 = match nanos {
        Some(n) => (n % 0x1_0000_0000_0000_0000) as u64,
        None => 0x9e37_79b9_7f4a_7c15,
    };
    if low == 0 {
        1
    } else {
        low
    }
}

/// A seed for the generator, from the clock. It is never zero.
pub fn rng_seed() -> (seed: u64)
    ensures
        seed >= 1,
        exists|nanos: Option<u128>| seed == #[trigger] seed_of(nanos),
{
    let nanos: Option<u128> = match since_epoch(std::time::SystemTime::now()) {
        Ok(passed) => Some(passed.as_nanos()),
        Err(_) => None,
    };
    seed_from(nanos)
}

/// The area that is picked: the first whose volume is above what is left of the draw there, or
/// the last.
pub open spec fn picked(left: Seq<u32>, volumes: Seq<u32>) -> int
    decreases volumes.len(),
{
    if volumes.len() <= 1 {
        0
    } else if float_bits::single_less(left[0], volumes[0]) {
        0
    } else {
        1 + picked(left.skip(1), volumes.skip(1))
    }
}

/// Picks an area. What is left of the draw is the draw less the volumes of the areas before.
pub fn pick_area(left: &Vec<u32>, volumes: &Vec<u32>) -> (area: usize)
    requires
        volumes@.len() > 0,
        left@.len() == volumes@.len(),
    ensures
        area == picked(left@, volumes@),
        area < volumes@.len(),
{
    let mut i: usize = 0;
    assert(left@.skip(0) =~= left@);
    assert(volumes@.skip(0) =~= volumes@);
    while i < volumes.len() - 1
        invariant
            i < volumes@.len(),
            left@.len() == volumes@.len(),
            picked(left@, volumes@) == i + picked(left@.skip(i as int), volumes@.skip(i as int)),
        decreases volumes.len() - i,
    {
        assert(left@.skip(i as int)[0] == left@[i as int]);
        assert(volumes@.skip(i as int)[0] == volumes@[i as int]);
        assert(left@.skip(i as int).skip(1) =~= left@.skip(i + 1));
        assert(volumes@.skip(i as int).skip(1) =~= volumes@.skip(i + 1));
        if float_bits::less_single(left[i], volumes[i]) {
            return i;
        }
        i = i + 1;
    }
    i
}

/// The search for a waypoint: how many areas there are, whether they have any volume, and how
/// often to try.
#[derive(Debug, Clone, Copy, PartialEq, Eq, Structural)]
pub struct WaypointSearch {
    pub areas: usize,
    pub has_volume: bool,
    pub tries_left: u32,
}

/// What was drawn for one try: which area, where areas have volume, and a place in it.
#[derive(Debug, Clone, Copy, PartialEq, Eq, Structural)]
pub struct WaypointDraws {
    pub area: Option<u64>,
    pub x: u64,
    pub y: u64,
    pub z: u64,
}

/// The state after several steps of the generator.
pub open spec fn after_steps(s: u64, n: nat) -> u64
    decreases n,
{
    if n == 0 {
        s
    } else {
        advanced(after_steps(s, (n - 1) as nat))
    }
}

/// The numerator drawn in a step.
pub open spec fn drawn(s: u64, step: nat) -> u64 {
    after_steps(s, step) >> 11
}

/// Draws for the next try. Nothing where there are no areas or no tries are left; the first area
/// is taken where none has volume.
pub fn sample_waypoint(search: &mut WaypointSearch, rng: &mut u64) -> (draws: Option<WaypointDraws>)
    ensures
        draws is Some <==> old(search).areas > 0 && old(search).tries_left > 0,
        draws is None ==> *final(search) == *old(search) && *final(rng) == *old(rng),
        draws matches Some(d) ==> {
            let s = *old(rng);
            let first: nat = if old(search).has_volume {
                1
            } else {
                0
            };
            &&& *final(search) == (WaypointSearch {
                tries_left: (old(search).tries_left - 1) as u32,
                ..*old(search)
            })
            &&& d.area == (if old(search).has_volume {
                Some(drawn(s, 1))
            } else {
                None
            })
            &&& d.x == drawn(s, first + 1)
            &&& d.y == drawn(s, first + 2)
            &&& d.z == drawn(s, first + 3)
            &&& *final(rng) == after_steps(s, first + 3)
        },
{
    if search.areas == 0 || search.tries_left == 0 {
        return None;
    }
    search.tries_left = search.tries_left - 1;
    proof {
        reveal_with_fuel(after_steps, 5);
    }
    let area: Option<u64> = if search.has_volume {
        Some(rng_next_unit(rng))
    } else {
        None
    };
    let x: u64 = rng_next_unit(rng);
    let y: u64 = rng_next_unit(rng);
    let z: u64 = rng_next_unit(rng);
    Some(WaypointDraws { area, x, y, z })
}

/// What becomes of a point that was drawn.
#[derive(Debug, Clone, Copy, PartialEq, Eq, Structural)]
pub enum WaypointStep {
    /// The point is the waypoint.
    Accept,
    /// Another point is drawn.
    TryAgain,
    /// No waypoint was found.
    GiveUp,
}

/// What becomes of a point: it is taken if it is outside all obstacles; otherwise another one is
/// tried as long as tries are left.
pub open spec fn waypoint_step(blocked: bool, tries_left: nat) -> WaypointStep {
    if !blocked {
        WaypointStep::Accept
    } else if tries_left > 0 {
        WaypointStep::TryAgain
    } else {
        WaypointStep::GiveUp
    }
}

/// Decides on the point that was drawn last; `contains` tells of each obstacle whether the point
/// is inside.
pub fn next_waypoint_try(search: &WaypointSearch, contains: &Vec<bool>) -> (step: WaypointStep)
    ensures
        step == waypoint_step(any_true(contains@), search.tries_left as nat),
        step is Accept <==> forall|i: int| 0 <= i < contains@.len() ==> !#[trigger] contains@[i],
{
    if !point_blocked(contains) {
        WaypointStep::Accept
    } else if search.tries_left > 0 {
        WaypointStep::TryAgain
    } else {
        WaypointStep::GiveUp
    }
}

/// The place, among the points that are drawn, of the one that the search ends with: `blocked`
/// tells of each point whether it is inside an obstacle, and `tries` how many are drawn at most.
pub open spec fn search_result(blocked: Seq<bool>, tries: nat) -> Option<int>
    recommends
        tries <= blocked.len(),
    decreases tries,
{
    if tries == 0 {
        None
    } else {
        let left = (tries - 1) as nat;
        match waypoint_step(blocked[0], left) {
            WaypointStep::Accept => Some(0),
            WaypointStep::GiveUp => None,
            WaypointStep::TryAgain => match search_result(blocked.skip(1), left) {
                Some(k) => Some(k + 1),
                None => None,
            },
        }
    }
}

/// A search ends with the first point that is outside all obstacles, if there is one among the
/// points that are drawn, and otherwise with none.
pub proof fn law_waypoint_outside(blocked: Seq<bool>, tries: nat)
    requires
        tries <= blocked.len(),
    ensures
        match search_result(blocked, tries) {
            Some(k) => {
                &&& 0 <= k < tries
                &&& !blocked[k]
                &&& forall|j: int| 0 <= j < k ==> #[trigger] blocked[j]
            },
            None => forall|j: int| 0 <= j < tries ==> #[trigger] blocked[j],
        },
    decreases tries,
{
    if tries > 0 {
        let rest = blocked.skip(1);
        law_waypoint_outside(rest, (tries - 1) as nat);
        if blocked[0] {
            assert forall|j: int| 0 < j < tries implies blocked[j] == #[trigger] rest[j - 1] by {}
            match search_result(blocked, tries) {
                Some(k) => {
                    assert(blocked[k] == rest[k - 1]);
                    assert forall|j: int| 0 <= j < k implies #[trigger] blocked[j] by {
                        if j > 0 {
                            assert(rest[j - 1]);
                        }
                    }
                },
                None => {
                    assert forall|j: int| 0 <= j < tries implies #[trigger] blocked[j] by {
                        if j > 0 {
                            assert(rest[j - 1] == blocked[j]);
                        }
                    }
                },
            }
        }
    }
}

// ---------------------------------------------------------------------------
// Scenes
// ---------------------------------------------------------------------------

/// An anchor of the radio positioning system.
#[derive(Debug, Clone, Copy)]
pub struct Anchor {
    pub pos: [u32; 3],
}

/// An anchor as a scene stores it.
#[derive(Debug, Clone, Copy)]
pub struct SceneAnchor {
    pub x: u32,
    pub y: u32,
    pub z: u32,
}

/// A place to take off from.
#[derive(Debug, Clone)]
pub struct TakeoffPad {
    pub x: u32,
    pub y: u32,
    pub radius: u32,
    pub label: String,
}

/// The room with all that is planned in it.
pub struct PlanningScene {
    pub room_x: u32,
    pub room_y: u32,
    pub room_z: u32,
    pub resolution: u32,
    pub center_origin: bool,
    pub room_offset: [u32; 3],
    pub base_stations: Vec<SceneBaseStation>,
    pub anchors: Vec<SceneAnchor>,
    pub obstacles: Vec<Obstacle>,
    pub flight_areas: Vec<BoxVolume>,
    pub waypoint_areas: Vec<BoxVolume>,
    pub takeoff_pads: Vec<TakeoffPad>,
    pub receiver_fov_enabled: bool,
    pub max_bs_distance: u32,
    pub show_coverage: [bool; 5],
    pub max_range: u32,
    pub tdoa3_scale_min: u32,
    pub tdoa3_scale_max: u32,
    pub tilt_compensation_enabled: bool,
    pub max_tilt_angle: u32,
}

/// A switch that is on where a scene does not say.
pub fn default_true() -> (r: bool)
    ensures
        r,
{
    true
}

/// All levels of coverage are shown where a scene does not say.
pub fn default_show_coverage() -> (shown: [bool; 5])
    ensures
        forall|i: int| 0 <= i < 5 ==> #[trigger] shown[i],
{
    [true, true, true, true, true]
}

/// The range of base stations where a scene does not say, 5 metres.
pub fn default_max_bs_dist() -> (bits: u32)
    ensures
        bits == 0x40a0_0000,
{
    0x40a0_0000
}

/// The range of anchors where a scene does not say, 15 metres.
pub fn default_max_range() -> (bits: u32)
    ensures
        bits == 0x4170_0000,
{
    0x4170_0000
}

/// The upper end of the error scale where a scene does not say, half a metre.
pub fn default_tdoa3_scale_max() -> (bits: u32)
    ensures
        bits == HALF,
{
    HALF
}

/// The largest tilt where a scene does not say, 10 degrees.
pub fn default_max_tilt() -> (bits: u32)
    ensures
        bits == 0x4120_0000,
{
    0x4120_0000
}

/// An anchor as a scene stores it.
pub open spec fn stored_anchor(a: Anchor) -> SceneAnchor {
    SceneAnchor { x: a.pos[0], y: a.pos[1], z: a.pos[2] }
}

/// The anchor that a scene stores.
pub open spec fn restored_anchor(s: SceneAnchor) -> Anchor {
    Anchor { pos: [s.x, s.y, s.z] }
}

/// The anchors of a scene are those that it was made with.
pub proof fn law_scene_keeps_anchors(anchors: Seq<Anchor>)
    ensures
        ({
            let kept = Seq::new(anchors.len(), |i: int| stored_anchor(anchors[i]));
            Seq::new(kept.len(), |i: int| restored_anchor(kept[i])) == anchors
        }),
{
    let kept = Seq::new(anchors.len(), |i: int| stored_anchor(anchors[i]));
    assert forall|i: int| 0 <= i < kept.len() implies restored_anchor(#[trigger] kept[i])
        == anchors[i] by {
        assert(restored_anchor(kept[i]).pos =~= anchors[i].pos);
    }
    assert(Seq::new(kept.len(), |i: int| restored_anchor(kept[i])) =~= anchors);
}

fn store_anchors(anchors: &Vec<Anchor>) -> (r: Vec<SceneAnchor>)
    ensures
        r@ == Seq::new(anchors@.len(), |i: int| stored_anchor(anchors@[i])),
{
    let mut r: Vec<SceneAnchor> = Vec::new();
    let mut i: usize = 0;
    while i < anchors.len()
        invariant
            i <= anchors@.len(),
            r@ == Seq::new(i as nat, |k: int| stored_anchor(anchors@[k])),
        decreases anchors.len() - i,
    {
        let pos = anchors[i].pos;
        r.push(SceneAnchor { x: pos[0], y: pos[1], z: pos[2] });
        i = i + 1;
        assert(r@ =~= Seq::new(i as nat, |k: int| stored_anchor(anchors@[k])));
    }
    r
}

fn copied_obstacles(obstacles: &Vec<Obstacle>) -> (r: Vec<Obstacle>)
    ensures
        r@ == obstacles@,
{
    let mut r: Vec<Obstacle> = Vec::new();
    let mut i: usize = 0;
    while i < obstacles.len()
        invariant
            i <= obstacles@.len(),
            r@ == obstacles@.take(i as int),
        decreases obstacles.len() - i,
    {
        r.push(obstacles[i]);
        i = i + 1;
        assert(r@ =~= obstacles@.take(i as int));
    }
    assert(obstacles@.take(obstacles@.len() as int) =~= obstacles@);
    r
}

impl PlanningScene {
    /// A scene of all that is planned.
    pub fn new(
        room_x: u32,
        room_y: u32,
        room_z: u32,
        resolution: u32,
        center_origin: bool,
        room_offset: [u32; 3],
        base_stations: &Vec<BaseStation>,
        anchors: &Vec<Anchor>,
        obstacles: &Vec<Obstacle>,
        flight_areas: Vec<BoxVolume>,
        waypoint_areas: Vec<BoxVolume>,
        takeoff_pads: Vec<TakeoffPad>,
        receiver_fov_enabled: bool,
        max_bs_distance: u32,
        show_coverage: [bool; 5],
        max_range: u32,
        tdoa3_scale_min: u32,
        tdoa3_scale_max: u32,
        tilt_compensation_enabled: bool,
        max_tilt_angle: u32,
    ) -> (scene: PlanningScene)
        ensures
            scene.room_x == room_x,
            scene.room_y == room_y,
            scene.room_z == room_z,
            scene.resolution == resolution,
            scene.center_origin == center_origin,
            scene.room_offset == room_offset,
            scene.base_stations@ == Seq::new(
                base_stations@.len(),
                |i: int| coverage::stored(base_stations@[i]),
            ),
            scene.anchors@ == Seq::new(anchors@.len(), |i: int| stored_anchor(anchors@[i])),
            scene.obstacles@ == obstacles@,
            scene.flight_areas == flight_areas,
            scene.waypoint_areas == waypoint_areas,
            scene.takeoff_pads == takeoff_pads,
            scene.receiver_fov_enabled == receiver_fov_enabled,
            scene.max_bs_distance == max_bs_distance,
            scene.show_coverage == show_coverage,
            scene.max_range == max_range,
            scene.tdoa3_scale_min == tdoa3_scale_min,
            scene.tdoa3_scale_max == tdoa3_scale_max,
            scene.tilt_compensation_enabled == tilt_compensation_enabled,
            scene.max_tilt_angle == max_tilt_angle,
    {
        PlanningScene {
            room_x,
            room_y,
            room_z,
            resolution,
            center_origin,
            room_offset,
            base_stations: coverage::store_stations(base_stations),
            anchors: store_anchors(anchors),
            obstacles: copied_obstacles(obstacles),
            flight_areas,
            waypoint_areas,
            takeoff_pads,
            receiver_fov_enabled,
            max_bs_distance,
            show_coverage,
            max_range,
            tdoa3_scale_min,
            tdoa3_scale_max,
            tilt_compensation_enabled,
            max_tilt_angle,
        }
    }

    /// The base stations of the scene.
    pub fn base_stations(&self) -> (r: Vec<BaseStation>)
        ensures
            r@ == Seq::new(
                self.base_stations@.len(),
                |i: int| coverage::restored(self.base_stations@[i]),
            ),
    {
        coverage::restore_stations(&self.base_stations)
    }

    /// The anchors of the scene.
    pub fn anchors(&self) -> (r: Vec<Anchor>)
        ensures
            r@ == Seq::new(self.anchors@.len(), |i: int| restored_anchor(self.anchors@[i])),
    {
        let mut r: Vec<Anchor> = Vec::new();
        let mut i: usize = 0;
        while i < self.anchors.len()
            invariant
                i <= self.anchors@.len(),
                r@ == Seq::new(i as nat, |k: int| restored_anchor(self.anchors@[k])),
            decreases self.anchors.len() - i,
        {
            let s = self.anchors[i];
            let anchor = Anchor { pos: [s.x, s.y, s.z] };
            assert(anchor.pos =~= restored_anchor(s).pos);
            r.push(anchor);
            i = i + 1;
            assert(r@ =~= Seq::new(i as nat, |k: int| restored_anchor(self.anchors@[k])));
        }
        r
    }

    /// The obstacles of the scene.
    pub fn obstacles(&self) -> (r: Vec<Obstacle>)
        ensures
            r@ == self.obstacles@,
    {
        copied_obstacles(&self.obstacles)
    }
}

/// The document that a scene file holds; an empty mapping where there is no file, or none that
/// can be parsed.
pub open spec fn existing_scene(existing: Option<Seq<char>>) -> YamlView {
    match existing {
        Some(content) => match yaml::yaml_document(content) {
            Ok(document) => document,
            Err(_) => YamlView::Mapping(Seq::empty()),
        },
        None => YamlView::Mapping(Seq::empty()),
    }
}

/// The view of a text that may be missing.
pub open spec fn text_view(t: Option<&str>) -> Option<Seq<char>> {
    match t {
        Some(s) => Some(s@),
        None => None,
    }
}

/// The text of a scene file after its take-off pads were replaced, given the text that it has, if
/// it exists. Everything else in the file stays. A text that cannot be parsed is given up for a
/// scene of nothing but the pads.
pub fn save_pads_to_scene(existing: Option<&str>, pads: serde_yaml::Value) -> (r: Result<
    String,
    String,
>)
    ensures
        ({
            let before = existing_scene(text_view(existing));
            if !(yaml::untagged(before) is Mapping) {
                r matches Err(e) && e@ == "Scene file is not a YAML mapping"@
            } else {
                exists|after: YamlView|
                    {
                        &&& #[trigger] yaml::stored_in(
                            before,
                            after,
                            "takeoff_pads"@,
                            yaml::yaml_tree(pads),
                        )
                        &&& match yaml::yaml_text(after) {
                            Ok(content) => r matches Ok(s) && s@ == content,
                            Err(reason) => r matches Err(e) && e@ == "Failed to serialize: "@
                                + reason,
                        }
                    }
            }
        }),
{
    let value = match existing {
        Some(content) => match yaml::read_document(content) {
            Ok(value) => value,
            Err(_) => yaml::empty_mapping(),
        },
        None => yaml::empty_mapping(),
    };
    match yaml::put_entry(value, "takeoff_pads", pads) {
        None => Err("Scene file is not a YAML mapping".to_string()),
        Some(after) => match yaml::write_document(&after) {
            Ok(content) => Ok(content),
            Err(reason) => Err(text::concat2("Failed to serialize: ", reason.as_str())),
        },
    }
}

/// At time `t`, on the number line of singles, the ray of a slab is between its planes: it meets
/// one of them before or then and the other one then or later; a parallel ray starts between them.
pub open spec fn passes_at(slab: Slab, t: int) -> bool {
    if float_bits::single_less(slab.direction, 0x2b8c_bccc) {
        !float_bits::single_less(slab.origin, slab.low) && !float_bits::single_less(
            slab.high,
            slab.origin,
        )
    } else {
        let a = float_bits::single_key(slab.meets_low)->0;
        let b = float_bits::single_key(slab.meets_high)->0;
        a <= t <= b || b <= t <= a
    }
}

/// The times of a slab are numbers.
pub open spec fn has_times(slab: Slab) -> bool {
    float_bits::single_key(slab.meets_low) is Some && float_bits::single_key(slab.meets_high) is Some
}

proof fn lemma_passes(span: RaySpan, slab: Slab, t: int)
    requires
        proper_span(span),
        has_times(slab),
    ensures
        float_bits::single_key(span.enters)->0 <= t <= float_bits::single_key(span.leaves)->0
            && passes_at(slab, t) <==> (between_planes(span, slab) matches Some(r)
            && float_bits::single_key(r.enters)->0 <= t <= float_bits::single_key(r.leaves)->0),
        between_planes(span, slab) matches Some(r) ==> proper_span(r),
{
    lemma_between_proper(span, slab);
}

/// A ray meets a box if and only if at some time between its origin and its target it is between
/// the planes of all three pairs, whichever plane of a pair it meets first.
pub proof fn law_ray_meets_box(slabs: [Slab; 3])
    requires
        forall|i: int| 0 <= i < 3 ==> has_times(#[trigger] slabs[i]),
    ensures
        inside_box(slabs) is Some <==> exists|t: int|
            0 <= t <= ONE && #[trigger] passes_at(slabs[0], t) && passes_at(slabs[1], t)
                && passes_at(slabs[2], t),
{
    assert(has_times(slabs[0]) && has_times(slabs[1]) && has_times(slabs[2]));
    assert forall|t: int|
        0 <= t <= ONE && #[trigger] passes_at(slabs[0], t) && passes_at(slabs[1], t) && passes_at(
            slabs[2],
            t,
        ) implies inside_box(slabs) is Some by {
        lemma_passes(whole_ray(), slabs[0], t);
        let a = between_planes(whole_ray(), slabs[0])->0;
        lemma_passes(a, slabs[1], t);
        let b = between_planes(a, slabs[1])->0;
        lemma_passes(b, slabs[2], t);
    }
    if let Some(span) = inside_box(slabs) {
        let t = float_bits::single_key(span.enters)->0;
        lemma_passes(whole_ray(), slabs[0], t);
        let a = between_planes(whole_ray(), slabs[0])->0;
        lemma_passes(a, slabs[1], t);
        let b = between_planes(a, slabs[1])->0;
        lemma_passes(b, slabs[2], t);
        assert(passes_at(slabs[0], t));
    }
}

/// A slab with the times of its planes exchanged.
pub open spec fn times_exchanged(slab: Slab) -> Slab {
    Slab { meets_low: slab.meets_high, meets_high: slab.meets_low, ..slab }
}

proof fn lemma_same_passage(x: [Slab; 3], y: [Slab; 3])
    requires
        forall|i: int| 0 <= i < 3 ==> has_times(#[trigger] x[i]),
        forall|i: int| 0 <= i < 3 ==> has_times(#[trigger] y[i]),
        forall|t: int| #[trigger] passes_at(x[0], t) ==> passes_at(y[0], t),
        forall|t: int| #[trigger] passes_at(x[1], t) ==> passes_at(y[1], t),
        forall|t: int| #[trigger] passes_at(x[2], t) ==> passes_at(y[2], t),
    ensures
        inside_box(x) is Some ==> inside_box(y) is Some,
{
    law_ray_meets_box(x);
    law_ray_meets_box(y);
    if inside_box(x) is Some {
        let t = choose|t: int|
            0 <= t <= ONE && #[trigger] passes_at(x[0], t) && passes_at(x[1], t) && passes_at(
                x[2],
                t,
            );
        assert(passes_at(y[0], t) && passes_at(y[1], t) && passes_at(y[2], t));
    }
}

/// Whether a ray meets a box does not depend on which plane of a pair it meets first.
pub proof fn law_direction_of_ray(slabs: [Slab; 3], turned: [Slab; 3])
    requires
        forall|i: int| 0 <= i < 3 ==> has_times(#[trigger] slabs[i]),
        forall|i: int|
            0 <= i < 3 ==> (#[trigger] turned[i] == slabs[i] || turned[i] == times_exchanged(
                slabs[i],
            )),
    ensures
        inside_box(turned) is Some <==> inside_box(slabs) is Some,
{
    assert forall|i: int| 0 <= i < 3 implies has_times(#[trigger] turned[i]) by {
        assert(has_times(slabs[i]));
    }
    assert(turned[0] == slabs[0] || turned[0] == times_exchanged(slabs[0]));
    assert(turned[1] == slabs[1] || turned[1] == times_exchanged(slabs[1]));
    assert(turned[2] == slabs[2] || turned[2] == times_exchanged(slabs[2]));
    lemma_same_passage(slabs, turned);
    lemma_same_passage(turned, slabs);
}

/// A ray meets a cylinder if and only if at some time between its origin and its target it is
/// within the mantle and between the caps. A ray along the axis is within the mantle if it does
/// not start outside; any other ray if the mantle is met at all, from the first to the second
/// time.
pub proof fn law_ray_meets_cylinder(ray: CylinderRay)
    requires
        has_times(ray.caps),
        float_bits::single_key(ray.meets_first) is Some,
        float_bits::single_key(ray.meets_second) is Some,
    ensures
        inside_cylinder(ray) is Some <==> exists|t: int|
            {
                &&& 0 <= t <= ONE
                &&& #[trigger] passes_at(ray.caps, t)
                &&& float_bits::single_less(ray.across, 0x2b8c_bccc) ==> !float_bits::single_less(
                    0,
                    ray.outside,
                )
                &&& !float_bits::single_less(ray.across, 0x2b8c_bccc) ==> {
                    &&& !float_bits::single_less(ray.discriminant, 0)
                    &&& float_bits::single_key(ray.meets_first)->0 <= t
                    &&& t <= float_bits::single_key(ray.meets_second)->0
                }
            },
{
    let part = if float_bits::single_less(ray.across, NEARLY_ZERO) {
        Some(whole_ray())
    } else {
        clipped(whole_ray(), ray.meets_first, ray.meets_second)
    };
    lemma_clipped_proper(whole_ray(), ray.meets_first, ray.meets_second);
    if let Some(span) = part {
        assert forall|t: int| true implies #[trigger] passes_at(ray.caps, t) || true by {
            lemma_passes(span, ray.caps, t);
        }
        if let Some(r) = inside_cylinder(ray) {
            let t = float_bits::single_key(r.enters)->0;
            lemma_passes(span, ray.caps, t);
            assert(passes_at(ray.caps, t));
        }
        assert forall|t: int|
            float_bits::single_key(span.enters)->0 <= t <= float_bits::single_key(span.leaves)->0
                && #[trigger] passes_at(ray.caps, t) implies between_planes(span, ray.caps) is Some by {
            lemma_passes(span, ray.caps, t);
        }
    }
}

/// A point is inside a box if it is beyond none of the three extents, and inside a cylinder if it
/// is beyond neither the radius nor the height; the surface belongs to both. What is beyond any
/// of these is outside.
pub proof fn law_inside_extents(p: LocalPoint)
    ensures
        float_bits::single_less(p.half_width, p.x) ==> !is_inside(ObstacleKind::Box, p),
        float_bits::single_less(p.half_depth, p.y) ==> !is_inside(ObstacleKind::Box, p),
        float_bits::single_less(p.half_height, p.z) ==> !is_inside(ObstacleKind::Box, p)
            && !is_inside(ObstacleKind::Cylinder, p),
        float_bits::single_less(p.limit_squared, p.radius_squared) ==> !is_inside(
            ObstacleKind::Cylinder,
            p,
        ),
        float_bits::single_at_most(p.x, p.half_width) && float_bits::single_at_most(
            p.y,
            p.half_depth,
        ) && float_bits::single_at_most(p.z, p.half_height) ==> is_inside(ObstacleKind::Box, p),
        float_bits::single_at_most(p.radius_squared, p.limit_squared) && float_bits::single_at_most(
            p.z,
            p.half_height,
        ) ==> is_inside(ObstacleKind::Cylinder, p),
{
}

/// The area that is picked is the first one whose volume is above what is left of the draw there:
/// it is none of those before, and only the last area may be picked without that.
pub proof fn law_area_picked(left: Seq<u32>, volumes: Seq<u32>, i: int)
    requires
        volumes.len() > 0,
        left.len() == volumes.len(),
        0 <= i < volumes.len(),
    ensures
        0 <= picked(left, volumes) < volumes.len(),
        i < picked(left, volumes) ==> !float_bits::single_less(left[i], volumes[i]),
        i == picked(left, volumes) && i < volumes.len() - 1 ==> float_bits::single_less(
            left[i],
            volumes[i],
        ),
    decreases volumes.len(),
{
    if volumes.len() > 1 {
        law_area_picked(left.skip(1), volumes.skip(1), if i > 0 { i - 1 } else { 0 });
        if i > 0 {
            assert(left.skip(1)[i - 1] == left[i]);
            assert(volumes.skip(1)[i - 1] == volumes[i]);
        }
    }
}

/// A step of the generator can be undone by shifting back by 17 to the left, by 7 to the right
/// and by 13 to the left, each as often as the bits go round.
pub proof fn law_generator_undone(s: u64)
    ensures
        ({
            let t = advanced(s);
            let a = t ^ (t << 17) ^ (t << 34) ^ (t << 51);
            let b = a ^ (a >> 7) ^ (a >> 14) ^ (a >> 21) ^ (a >> 28) ^ (a >> 35) ^ (a >> 42) ^ (a
                >> 49) ^ (a >> 56) ^ (a >> 63);
            b ^ (b << 13) ^ (b << 26) ^ (b << 39) ^ (b << 52) == s
        }),
{
    let x = s ^ (s << 13);
    let y = x ^ (x >> 7);
    let t = y ^ (y << 17);
    assert(t ^ (t << 17) ^ (t << 34) ^ (t << 51) == y) by (bit_vector)
        requires
            t == y ^ (y << 17),
    ;
    assert(y ^ (y >> 7) ^ (y >> 14) ^ (y >> 21) ^ (y >> 28) ^ (y >> 35) ^ (y >> 42) ^ (y >> 49) ^ (
    y >> 56) ^ (y >> 63) == x) by (bit_vector)
        requires
            y == x ^ (x >> 7),
    ;
    assert(x ^ (x << 13) ^ (x << 26) ^ (x << 39) ^ (x << 52) == s) by (bit_vector)
        requires
            x == s ^ (s << 13),
    ;
}

/// A point is inside an area if each of its coordinates lies between the two of the area; a
/// coordinate beyond either of them, or one that is no number, puts it outside.
pub proof fn law_inside_area(v: BoxVolume, p: [u32; 3])
    ensures
        in_volume(v, p) ==> float_bits::single_at_most(v.min[0], p[0]) && float_bits::single_at_most(
            p[0],
            v.max[0],
        ) && float_bits::single_at_most(v.min[1], p[1]) && float_bits::single_at_most(
            p[1],
            v.max[1],
        ) && float_bits::single_at_most(v.min[2], p[2]) && float_bits::single_at_most(p[2], v.max[2]),
        float_bits::single_at_most(v.min[0], p[0]) && float_bits::single_at_most(p[0], v.max[0])
            && float_bits::single_at_most(v.min[1], p[1]) && float_bits::single_at_most(
            p[1],
            v.max[1],
        ) && float_bits::single_at_most(v.min[2], p[2]) && float_bits::single_at_most(p[2], v.max[2])
            ==> in_volume(v, p),
        float_bits::single_at_most(v.min[0], v.max[0]) && float_bits::single_at_most(
            v.min[1],
            v.max[1],
        ) && float_bits::single_at_most(v.min[2], v.max[2]) ==> in_volume(v, v.min) && in_volume(
            v,
            v.max,
        ),
{
    if in_volume(v, p) {
        assert(p[0] == p[0] && p[1] == p[1] && p[2] == p[2]);
    }
}

/// An anchor is stored with its own coordinates, in order.
pub proof fn law_anchor_stored(a: Anchor, s: SceneAnchor)
    ensures
        a.pos == [stored_anchor(a).x, stored_anchor(a).y, stored_anchor(a).z],
        restored_anchor(s).pos == [s.x, s.y, s.z],
{
    assert([stored_anchor(a).x, stored_anchor(a).y, stored_anchor(a).z] =~= a.pos);
}

/// A point outside all obstacles is taken, however many tries are left; one inside is not, and the
/// search ends with it only if no try is left.
pub proof fn law_point_decided(blocked: bool, tries_left: nat)
    ensures
        waypoint_step(blocked, tries_left) is Accept <==> !blocked,
        waypoint_step(blocked, tries_left) is GiveUp <==> blocked && tries_left == 0,
{
}

/// A seed is the low 64 bits of the nanoseconds, which tell readings apart up to them, and one
/// where they are all zero.
pub proof fn law_seed_of_clock(n: u128)
    ensures
        0 < n < 0x1_0000_0000_0000_0000 ==> seed_of(Some(n)) == n,
        n < 0x1_0000_0000_0000_0000 ==> seed_of(Some((n + 0x1_0000_0000_0000_0000) as u128))
            == seed_of(Some(n)),
        seed_of(Some(0)) == 1,
        seed_of(None) == 0x9e37_79b9_7f4a_7c15,
{
}

/// Steps of the generator add up, and a step leads from every state to the next.
pub proof fn law_steps_add_up(s: u64, m: nat, n: nat)
    ensures
        after_steps(after_steps(s, m), n) == after_steps(s, m + n),
        after_steps(s, 0) == s,
        after_steps(s, 1) == advanced(s),
    decreases n,
{
    reveal_with_fuel(after_steps, 2);
    if n > 0 {
        law_steps_add_up(s, m, (n - 1) as nat);
    }
}

/// Times that are no numbers do not cut a ray. Otherwise what is left begins at the later and ends
/// at the earlier of the times, and nothing is left if they are the wrong way round.
pub proof fn law_clipped(span: RaySpan, from: u32, to: u32)
    requires
        proper_span(span),
    ensures
        float_bits::single_key(from) is None && float_bits::single_key(to) is None ==> clipped(
            span,
            from,
            to,
        ) == Some(span),
        clipped(span, from, to) matches Some(r) ==> {
            &&& !float_bits::single_less(r.enters, span.enters)
            &&& !float_bits::single_less(r.enters, from)
            &&& !float_bits::single_less(span.leaves, r.leaves)
            &&& !float_bits::single_less(to, r.leaves)
            &&& r.enters == span.enters || r.enters == from
            &&& r.leaves == span.leaves || r.leaves == to
        },
        clipped(span, from, to) is None <==> float_bits::single_less(to, span.enters)
            || float_bits::single_less(span.leaves, from) || float_bits::single_less(to, from)
            || float_bits::single_less(span.leaves, span.enters),
{
}

/// A scene file that is missing, or that is no document, counts as an empty one.
pub proof fn law_scene_to_change(content: Seq<char>)
    ensures
        existing_scene(None) == YamlView::Mapping(Seq::empty()),
        yaml::yaml_document(content) is Err ==> existing_scene(Some(content)) == existing_scene(None),
        yaml::yaml_document(content) is Ok ==> existing_scene(Some(content))
            == yaml::yaml_document(content)->Ok_0,
{
}

/// What is drawn in a step is the state after it without its lowest eleven bits, a number below
/// two to the power of 53.
pub proof fn law_drawn(s: u64, step: nat)
    ensures
        drawn(s, step) == after_steps(s, step) / 2048,
        drawn(s, step) < 0x20_0000_0000_0000,
{
    let x = after_steps(s, step);
    assert(x >> 11 == x / 2048) by (bit_vector);
}

/// Something in a list is true if it is before the end or at the end; nothing is in an empty list.
pub proof fn law_any_true(list: Seq<bool>, last: bool)
    ensures
        !any_true(Seq::empty()),
        any_true(list.push(last)) <==> any_true(list) || last,
{
    let all = list.push(last);
    if any_true(list) {
        let i = choose|i: int| 0 <= i < list.len() && #[trigger] list[i];
        assert(all[i]);
    }
    if last {
        assert(all[list.len() as int]);
    }
    if any_true(all) {
        let i = choose|i: int| 0 <= i < all.len() && #[trigger] all[i];
        assert(i < list.len() ==> list[i]);
    }
}

} // verus!
