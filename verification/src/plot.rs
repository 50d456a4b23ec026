//! The live data plot: sample buffers, the view on them, and what a redraw or the hover cursor
//! shows. Sample values are the bits of doubles, view fractions and pixel sizes the bits of
//! singles.

use crate::float_bits;
use crate::lists;
use crate::text;
use vstd::prelude::*;
use vstd::string::*;

verus! {

/// Most samples that a series keeps: the session stays zoomable as a whole, and a run of several
/// days stays bounded.
pub const MAX_POINTS: usize = 2_000_000;

/// One time/value sample. `ts_ms` is monotonic milliseconds, `value` the bits of a double.
#[derive(Debug, Clone, Copy)]
pub struct SeriesPoint {
    pub ts_ms: i64,
    pub value: u64,
}

/// One plotted variable with its samples.
#[derive(Debug, Clone)]
pub struct PlotSlot {
    /// Firmware log variable name ("group.name"), or a synthetic label.
    pub name: String,
    /// Group shown in the picker.
    pub group: String,
    pub color: [u8; 3],
    pub active: bool,
    pub series: Vec<SeriesPoint>,
}

/// What a slot holds.
pub struct SlotView {
    pub name: Seq<char>,
    pub group: Seq<char>,
    pub color: [u8; 3],
    pub active: bool,
    pub series: Seq<SeriesPoint>,
}

impl View for PlotSlot {
    type V = SlotView;

    open spec fn view(&self) -> SlotView {
        SlotView {
            name: self.name@,
            group: self.group@,
            color: self.color,
            active: self.active,
            series: self.series@,
        }
    }
}

/// What the slots hold.
pub open spec fn slot_views(slots: Seq<PlotSlot>) -> Seq<SlotView> {
    Seq::new(slots.len(), |i: int| slots[i]@)
}

/// The last `n` items of `s`, or all of them when there are no more.
pub open spec fn newest<T>(s: Seq<T>, n: nat) -> Seq<T> {
    if s.len() > n {
        s.skip(s.len() - n)
    } else {
        s
    }
}

impl PlotSlot {
    /// Appends a sample and drops the oldest ones beyond [`MAX_POINTS`].
    pub fn push(&mut self, ts_ms: i64, value: u64)
        ensures
            final(self).series@ == newest(
                old(self).series@.push(SeriesPoint { ts_ms, value }),
                MAX_POINTS as nat,
            ),
            final(self).name == old(self).name,
            final(self).group == old(self).group,
            final(self).color == old(self).color,
            final(self).active == old(self).active,
    {
        self.series.push(SeriesPoint { ts_ms, value });
        if self.series.len() > MAX_POINTS {
            let overflow: usize = self.series.len() - MAX_POINTS;
            let ghost all = self.series@;
            let kept = self.series.split_off(overflow);
            self.series = kept;
            assert(self.series@ =~= all.skip(overflow as int));
        }
    }
}

/// A series never holds more than [`MAX_POINTS`] samples after a push, and the newest sample is
/// always among them.
pub proof fn law_push_keeps_newest(before: Seq<SeriesPoint>, p: SeriesPoint)
    ensures
        newest(before.push(p), MAX_POINTS as nat).len() <= MAX_POINTS,
        newest(before.push(p), MAX_POINTS as nat).last() == p,
        before.len() < MAX_POINTS ==> newest(before.push(p), MAX_POINTS as nat) == before.push(p),
{
}

/// The colours of the series, by slot.
pub open spec fn palette() -> Seq<[u8; 3]> {
    seq![
        [0x42u8, 0x9bu8, 0xf5u8],
        [0x66u8, 0xbbu8, 0x6au8],
        [0xefu8, 0x53u8, 0x50u8],
        [0xffu8, 0xa7u8, 0x26u8],
        [0xabu8, 0x47u8, 0xbcu8],
        [0x26u8, 0xc6u8, 0xdau8],
        [0xffu8, 0xcau8, 0x28u8],
        [0x8du8, 0x6eu8, 0x63u8],
        [0x9fu8, 0xa8u8, 0xdau8],
        [0xecu8, 0x40u8, 0x7au8],
    ]
}

/// The colour of the slot at `index`; the palette repeats after ten.
pub fn color_for(index: usize) -> (color: [u8; 3])
    ensures
        color == palette()[index as int % 10],
{
    match index % 10 {
        0 => [0x42, 0x9b, 0xf5],
        1 => [0x66, 0xbb, 0x6a],
        2 => [0xef, 0x53, 0x50],
        3 => [0xff, 0xa7, 0x26],
        4 => [0xab, 0x47, 0xbc],
        5 => [0x26, 0xc6, 0xda],
        6 => [0xff, 0xca, 0x28],
        7 => [0x8d, 0x6e, 0x63],
        8 => [0x9f, 0xa8, 0xda],
        _ => [0xec, 0x40, 0x7a],
    }
}

// ---------------------------------------------------------------------------
// The view
// ---------------------------------------------------------------------------

/// Plot view and zoom state. X in absolute milliseconds; Y as a fraction (the bits of a single)
/// of each series' normalised range. While `user_view` is false the plot follows the data.
#[derive(Debug, Clone)]
pub struct PlotView {
    pub x_min_ms: i64,
    pub x_max_ms: i64,
    pub y_min_frac: u32,
    pub y_max_frac: u32,
    pub pan_start: Option<(i64, i64, u32, u32)>,
    pub user_view: bool,
    pub data_t_min_ms: i64,
    pub data_t_max_ms: i64,
    pub nav_drag_start: Option<(i64, i64, u32)>,
}

/// The view before anything was plotted.
pub open spec fn fresh_view() -> PlotView {
    PlotView {
        x_min_ms: 0,
        x_max_ms: 0,
        y_min_frac: 0,
        y_max_frac: float_bits::SINGLE_ONE,
        pan_start: None,
        user_view: false,
        data_t_min_ms: 0,
        data_t_max_ms: 0,
        nav_drag_start: None,
    }
}

impl Default for PlotView {
    fn default() -> (view: PlotView)
        ensures
            view == fresh_view(),
    {
        PlotView {
            x_min_ms: 0,
            x_max_ms: 0,
            y_min_frac: 0,
            y_max_frac: float_bits::SINGLE_ONE,
            pan_start: None,
            user_view: false,
            data_t_min_ms: 0,
            data_t_max_ms: 0,
            nav_drag_start: None,
        }
    }
}

/// Everything the plot panel works on.
pub struct PlotState {
    pub slots: Vec<PlotSlot>,
    pub view: PlotView,
    /// Last polled plot-area size in pixels, as the bits of singles.
    pub px: (u32, u32),
    /// Set when a size-change rebuild is already queued for the next tick.
    pub rebuild_pending: bool,
    /// Set by the data feed; the redraw timer rebuilds and clears it.
    pub dirty: bool,
    /// Name of the config whose slots are loaded.
    pub loaded_config: Option<String>,
}

impl PlotState {
    /// A state without slots.
    pub fn new() -> (state: PlotState)
        ensures
            state.slots@.len() == 0,
            state.view == fresh_view(),
            state.px == (0u32, 0u32),
            !state.rebuild_pending,
            !state.dirty,
            state.loaded_config is None,
    {
        PlotState {
            slots: Vec::new(),
            view: PlotView::default(),
            px: (0, 0),
            rebuild_pending: false,
            dirty: false,
            loaded_config: None,
        }
    }

    /// Clears the dirty mark and tells whether it was set: one redraw answers any number of
    /// samples that came in since the last.
    pub fn take_dirty(&mut self) -> (was_dirty: bool)
        ensures
            was_dirty == old(self).dirty,
            *final(self) == (PlotState { dirty: false, ..*old(self) }),
    {
        let was_dirty = self.dirty;
        self.dirty = false;
        was_dirty
    }
}

/// Remembers where a pan gesture began.
pub fn plot_pan_start(state: &mut PlotState)
    ensures
        final(state).view == (PlotView {
            pan_start: Some(
                (
                    old(state).view.x_min_ms,
                    old(state).view.x_max_ms,
                    old(state).view.y_min_frac,
                    old(state).view.y_max_frac,
                ),
            ),
            ..old(state).view
        }),
        *final(state) == (PlotState { view: final(state).view, ..*old(state) }),
{
    state.view.pan_start = Some(
        (
            state.view.x_min_ms,
            state.view.x_max_ms,
            state.view.y_min_frac,
            state.view.y_max_frac,
        ),
    );
}

/// Whether both sums fit a machine integer.
pub open spec fn shift_fits(low: i64, high: i64, delta: i64) -> bool {
    i64::MIN <= low + delta <= i64::MAX && i64::MIN <= high + delta <= i64::MAX
}

/// Moves the view by `delta_ms` from where the pan began, with the given new fractions. Without
/// a pan under way nothing changes and no redraw is due.
pub fn plot_pan_move(
    state: &mut PlotState,
    delta_ms: i64,
    y_min_frac: u32,
    y_max_frac: u32,
) -> (redraw: bool)
    requires
        old(state).view.pan_start matches Some(p) ==> shift_fits(p.0, p.1, delta_ms),
    ensures
        redraw == (old(state).view.pan_start is Some),
        old(state).view.pan_start is None ==> *final(state) == *old(state),
        old(state).view.pan_start matches Some(p) ==> final(state).view == (PlotView {
            x_min_ms: (p.0 + delta_ms) as i64,
            x_max_ms: (p.1 + delta_ms) as i64,
            y_min_frac,
            y_max_frac,
            user_view: true,
            ..old(state).view
        }),
        *final(state) == (PlotState { view: final(state).view, ..*old(state) }),
{
    match state.view.pan_start {
        None => false,
        Some((start_min, start_max, _start_y_min, _start_y_max)) => {
            state.view.x_min_ms = start_min + delta_ms;
            state.view.x_max_ms = start_max + delta_ms;
            state.view.y_min_frac = y_min_frac;
            state.view.y_max_frac = y_max_frac;
            state.view.user_view = true;
            true
        },
    }
}

/// Shows `span_ms` milliseconds from `x_min_ms` on; a pan under way ends.
pub fn plot_zoom(state: &mut PlotState, x_min_ms: i64, span_ms: i64)
    requires
        i64::MIN <= x_min_ms + span_ms <= i64::MAX,
    ensures
        final(state).view == (PlotView {
            x_min_ms,
            x_max_ms: (x_min_ms + span_ms) as i64,
            user_view: true,
            pan_start: None,
            ..old(state).view
        }),
        *final(state) == (PlotState { view: final(state).view, ..*old(state) }),
{
    state.view.x_min_ms = x_min_ms;
    state.view.x_max_ms = x_min_ms + span_ms;
    state.view.user_view = true;
    state.view.pan_start = None;
}

/// Goes back to following the data.
pub fn plot_reset(state: &mut PlotState)
    ensures
        final(state).view == fresh_view(),
        *final(state) == (PlotState { view: fresh_view(), ..*old(state) }),
{
    state.view = PlotView::default();
}

/// The slots after the one at `index` was switched on or off.
pub open spec fn toggled(slots: Seq<PlotSlot>, index: i32) -> Seq<PlotSlot> {
    if 0 <= index < slots.len() {
        slots.update(
            index as int,
            PlotSlot { active: !slots[index as int].active, ..slots[index as int] },
        )
    } else {
        slots
    }
}

/// Switches the series of one slot on or off; an index outside the slots changes nothing.
pub fn plot_toggle_series(state: &mut PlotState, slot_index: i32)
    ensures
        final(state).slots@ == toggled(old(state).slots@, slot_index),
        final(state).view == old(state).view,
        final(state).px == old(state).px,
        final(state).rebuild_pending == old(state).rebuild_pending,
        final(state).dirty == old(state).dirty,
        final(state).loaded_config == old(state).loaded_config,
{
    if slot_index >= 0 && (slot_index as usize) < state.slots.len() {
        let i: usize = slot_index as usize;
        let active = state.slots[i].active;
        state.slots[i].active = !active;
    }
    assert(state.slots@ =~= toggled(old(state).slots@, slot_index));
}

/// Switching the same series twice gives the slots back.
pub proof fn law_toggle_twice(slots: Seq<PlotSlot>, index: i32)
    ensures
        toggled(toggled(slots, index), index) == slots,
{
    assert(toggled(toggled(slots, index), index) =~= slots);
}

/// The span between two times, at least one millisecond.
pub open spec fn span_of(min_ms: i64, max_ms: i64) -> int {
    if max_ms - min_ms < 1 {
        1
    } else {
        max_ms - min_ms
    }
}

/// A press on the navigation bar at the fraction `frac`. Outside the thumb the view jumps to
/// `span_ms` milliseconds from `x_min_ms` on; either way a drag begins. With no more than a
/// millisecond of data nothing happens.
pub fn plot_nav_press(
    state: &mut PlotState,
    inside_thumb: bool,
    x_min_ms: i64,
    span_ms: i64,
    frac: u32,
) -> (redraw: bool)
    requires
        i64::MIN <= x_min_ms + span_ms <= i64::MAX,
    ensures
        redraw == (span_of(old(state).view.data_t_min_ms, old(state).view.data_t_max_ms) > 1),
        !redraw ==> *final(state) == *old(state),
        redraw && inside_thumb ==> final(state).view == (PlotView {
            nav_drag_start: Some((old(state).view.x_min_ms, old(state).view.x_max_ms, frac)),
            ..old(state).view
        }),
        redraw && !inside_thumb ==> final(state).view == (PlotView {
            x_min_ms,
            x_max_ms: (x_min_ms + span_ms) as i64,
            user_view: true,
            nav_drag_start: Some((x_min_ms, (x_min_ms + span_ms) as i64, frac)),
            ..old(state).view
        }),
        *final(state) == (PlotState { view: final(state).view, ..*old(state) }),
{
    let span: i128 = state.view.data_t_max_ms as i128 - state.view.data_t_min_ms as i128;
    if span <= 1 {
        return false;
    }
    if !inside_thumb {
        state.view.x_min_ms = x_min_ms;
        state.view.x_max_ms = x_min_ms + span_ms;
        state.view.user_view = true;
    }
    state.view.nav_drag_start = Some((state.view.x_min_ms, state.view.x_max_ms, frac));
    true
}

/// Moves the view by `delta_ms` from where the drag on the navigation bar began; without a drag
/// nothing changes.
pub fn plot_nav_drag(state: &mut PlotState, delta_ms: i64) -> (redraw: bool)
    requires
        old(state).view.nav_drag_start matches Some(p) ==> shift_fits(p.0, p.1, delta_ms),
    ensures
        redraw == (old(state).view.nav_drag_start is Some),
        old(state).view.nav_drag_start is None ==> *final(state) == *old(state),
        old(state).view.nav_drag_start matches Some(p) ==> final(state).view == (PlotView {
            x_min_ms: (p.0 + delta_ms) as i64,
            x_max_ms: (p.1 + delta_ms) as i64,
            user_view: true,
            ..old(state).view
        }),
        *final(state) == (PlotState { view: final(state).view, ..*old(state) }),
{
    match state.view.nav_drag_start {
        None => false,
        Some((start_min, start_max, _start_frac)) => {
            state.view.x_min_ms = start_min + delta_ms;
            state.view.x_max_ms = start_max + delta_ms;
            state.view.user_view = true;
            true
        },
    }
}

/// Takes over a new plot-area size, unless it is within half a pixel of the old one
/// (`same_size`). Answers whether a rebuild has to be queued: one that waits already serves.
pub fn plot_size_changed(state: &mut PlotState, width: u32, height: u32, same_size: bool) -> (schedule:
    bool)
    ensures
        schedule == (!same_size && !old(state).rebuild_pending),
        same_size ==> *final(state) == *old(state),
        !same_size ==> *final(state) == (PlotState {
            px: (width, height),
            rebuild_pending: true,
            ..*old(state)
        }),
{
    if same_size {
        return false;
    }
    state.px = (width, height);
    if state.rebuild_pending {
        false
    } else {
        state.rebuild_pending = true;
        true
    }
}

/// The queued rebuild runs: the next size change queues another.
pub fn plot_rebuild_started(state: &mut PlotState)
    ensures
        *final(state) == (PlotState { rebuild_pending: false, ..*old(state) }),
{
    state.rebuild_pending = false;
}

// ---------------------------------------------------------------------------
// Ranges and labels
// ---------------------------------------------------------------------------

/// Sample `m` is the first of the lowest values of `s`; a NaN has no part in it.
pub open spec fn lowest_at(s: Seq<SeriesPoint>, m: int) -> bool {
    &&& 0 <= m < s.len()
    &&& float_bits::double_key(s[m].value) is Some
    &&& forall|j: int|
        0 <= j < s.len() && float_bits::double_key(#[trigger] s[j].value) is Some ==> {
            &&& float_bits::double_key(s[m].value)->0 <= float_bits::double_key(s[j].value)->0
            &&& j < m ==> float_bits::double_key(s[m].value)->0 < float_bits::double_key(s[j].value)->0
        }
}

/// Sample `m` is the first of the highest values of `s`; a NaN has no part in it.
pub open spec fn highest_at(s: Seq<SeriesPoint>, m: int) -> bool {
    &&& 0 <= m < s.len()
    &&& float_bits::double_key(s[m].value) is Some
    &&& forall|j: int|
        0 <= j < s.len() && float_bits::double_key(#[trigger] s[j].value) is Some ==> {
            &&& float_bits::double_key(s[m].value)->0 >= float_bits::double_key(s[j].value)->0
            &&& j < m ==> float_bits::double_key(s[m].value)->0 > float_bits::double_key(s[j].value)->0
        }
}

/// A series has a range when some value is a number and no value is infinite.
pub open spec fn has_range(s: Seq<SeriesPoint>) -> bool {
    &&& exists|j: int| 0 <= j < s.len() && float_bits::double_key(#[trigger] s[j].value) is Some
    &&& forall|j: int|
        0 <= j < s.len() && float_bits::double_key(#[trigger] s[j].value) is Some ==> float_bits::double_is_finite(
            s[j].value,
        )
}

/// `range` is the pair of the lowest and the highest value of `s`, or the unit range where there
/// is none.
pub open spec fn is_range_of(s: Seq<SeriesPoint>, range: (u64, u64)) -> bool {
    if has_range(s) {
        &&& exists|m: int| #[trigger] lowest_at(s, m) && s[m].value == range.0
        &&& exists|m: int| #[trigger] highest_at(s, m) && s[m].value == range.1
    } else {
        range == (0u64, float_bits::DOUBLE_ONE)
    }
}

spec fn low_so_far(s: Seq<SeriesPoint>, v: u64) -> bool {
    ||| v == float_bits::DOUBLE_INFINITY && forall|j: int|
        0 <= j < s.len() ==> !float_bits::double_less(#[trigger] s[j].value, float_bits::DOUBLE_INFINITY)
    ||| exists|m: int| #[trigger]
        lowest_at(s, m) && s[m].value == v && float_bits::double_less(v, float_bits::DOUBLE_INFINITY)
}

spec fn high_so_far(s: Seq<SeriesPoint>, v: u64) -> bool {
    ||| v == 0xfff0_0000_0000_0000 && forall|j: int|
        0 <= j < s.len() ==> !float_bits::double_less(0xfff0_0000_0000_0000, #[trigger] s[j].value)
    ||| exists|m: int| #[trigger]
        highest_at(s, m) && s[m].value == v && float_bits::double_less(0xfff0_0000_0000_0000, v)
}

/// The lowest and highest value of a series.
pub fn series_y_range(series: &[SeriesPoint]) -> (range: (u64, u64))
    ensures
        is_range_of(series@, range),
{
    let mut y_min: u64 = float_bits::DOUBLE_INFINITY;
    let mut y_max: u64 = 0xfff0_0000_0000_0000;
    let mut i: usize = 0;
    while i < series.len()
        invariant
            i <= series@.len(),
            low_so_far(series@.take(i as int), y_min),
            high_so_far(series@.take(i as int), y_max),
        decreases series.len() - i,
    {
        let ghost done = series@.take(i as int);
        let ghost next = series@.take(i + 1);
        let v: u64 = series[i].value;
        assert(next[i as int].value == v);
        assert(forall|j: int| 0 <= j < i ==> next[j] == done[j]);
        let lower = float_bits::less_double(v, y_min);
        let higher = float_bits::less_double(y_max, v);
        proof {
            if lower {
                assert(lowest_at(next, i as int));
            } else if !(y_min == float_bits::DOUBLE_INFINITY && forall|j: int|
                0 <= j < done.len() ==> !float_bits::double_less(#[trigger] done[j].value, float_bits::DOUBLE_INFINITY)) {
                let m = choose|m: int| #[trigger]
                    lowest_at(done, m) && done[m].value == y_min && float_bits::double_less(
                        y_min,
                        float_bits::DOUBLE_INFINITY,
                    );
                assert(lowest_at(next, m));
            }
            if higher {
                assert(highest_at(next, i as int));
            } else if !(y_max == 0xfff0_0000_0000_0000 && forall|j: int|
                0 <= j < done.len() ==> !float_bits::double_less(
                    0xfff0_0000_0000_0000,
                    #[trigger] done[j].value,
                )) {
                let m = choose|m: int| #[trigger]
                    highest_at(done, m) && done[m].value == y_max && float_bits::double_less(
                        0xfff0_0000_0000_0000,
                        y_max,
                    );
                assert(highest_at(next, m));
            }
        }
        if lower {
            y_min = v;
        }
        if higher {
            y_max = v;
        }
        i = i + 1;
    }
    assert(series@.take(series@.len() as int) =~= series@);
    if !float_bits::is_finite_double(y_min) || !float_bits::is_finite_double(y_max) {
        (0, float_bits::DOUBLE_ONE)
    } else {
        (y_min, y_max)
    }
}

/// The number of decimals shown for values that change in steps of `step`.
pub open spec fn decimals_of(step: u64) -> usize {
    let size = float_bits::double_magnitude(step) as u64;
    if float_bits::double_at_least(size, float_bits::DOUBLE_ONE) {
        0
    } else if float_bits::double_at_least(size, TENTH) {
        1
    } else if float_bits::double_at_least(size, HUNDREDTH) {
        2
    } else if float_bits::double_at_least(size, THOUSANDTH) {
        3
    } else {
        4
    }
}

/// The bits of the doubles 0.1, 0.01, 0.001, 10 and 60.
pub const TENTH: u64 = 0x3fb9_9999_9999_999a;

pub const HUNDREDTH: u64 = 0x3f84_7ae1_47ae_147b;

pub const THOUSANDTH: u64 = 0x3f50_624d_d2f1_a9fc;

pub const TEN: u64 = 0x4024_0000_0000_0000;

pub const SIXTY: u64 = 0x404e_0000_0000_0000;

/// The value without its sign.
pub fn absolute_double(bits: u64) -> (r: u64)
    ensures
        r == float_bits::double_magnitude(bits),
{
    if bits >= 0x8000_0000_0000_0000 {
        bits - 0x8000_0000_0000_0000
    } else {
        bits
    }
}

/// The number of decimals to show for values that change in steps of `step`.
pub fn decimals_for_step(step: u64) -> (decimals: usize)
    ensures
        decimals == decimals_of(step),
{
    let size: u64 = absolute_double(step);
    if float_bits::at_least_double(size, float_bits::DOUBLE_ONE) {
        0
    } else if float_bits::at_least_double(size, TENTH) {
        1
    } else if float_bits::at_least_double(size, HUNDREDTH) {
        2
    } else if float_bits::at_least_double(size, THOUSANDTH) {
        3
    } else {
        4
    }
}

/// The bits of the doubles 2 and 5.
pub const TWO: u64 = 0x4000_0000_0000_0000;

pub const FIVE: u64 = 0x4014_0000_0000_0000;

/// The multiple of a power of ten by which the ticks of an axis are apart, where `n` of that
/// power would give just as many ticks as are wanted: the smallest of 1, 2, 5 and 10 that gives
/// no more.
pub open spec fn nice_multiple(n: u64) -> u64 {
    if float_bits::double_at_least(float_bits::DOUBLE_ONE, n) {
        float_bits::DOUBLE_ONE
    } else if float_bits::double_at_least(TWO, n) {
        TWO
    } else if float_bits::double_at_least(FIVE, n) {
        FIVE
    } else {
        TEN
    }
}

/// The multiple of a power of ten by which the ticks of an axis are apart.
pub fn nice_step(n: u64) -> (multiple: u64)
    ensures
        multiple == nice_multiple(n),
{
    if float_bits::at_least_double(float_bits::DOUBLE_ONE, n) {
        float_bits::DOUBLE_ONE
    } else if float_bits::at_least_double(TWO, n) {
        TWO
    } else if float_bits::at_least_double(FIVE, n) {
        FIVE
    } else {
        TEN
    }
}

/// No more ticks are drawn than are wanted, and no larger step than needed is taken for it.
pub proof fn law_nice_step(n: u64, smaller: u64)
    requires
        float_bits::double_at_least(TEN, n),
    ensures
        float_bits::double_at_least(nice_multiple(n), n),
        (smaller == float_bits::DOUBLE_ONE || smaller == TWO || smaller == FIVE)
            && float_bits::double_less(smaller, nice_multiple(n)) ==> float_bits::double_less(
            smaller,
            n,
        ),
{
}

/// How a time offset is written.
#[derive(Debug, Clone, Copy, PartialEq, Eq, Structural)]
pub enum TimeForm {
    /// Minutes and seconds, `m:ss`.
    MinutesSeconds,
    /// Seconds without decimals.
    Whole,
    /// Seconds with one decimal.
    Tenths,
    /// Seconds with two decimals.
    Hundredths,
}

/// The form in which an offset of `seconds` (the bits of a double) is written.
pub open spec fn time_form_of(seconds: u64) -> TimeForm {
    let size = float_bits::double_magnitude(seconds) as u64;
    if float_bits::double_at_least(size, SIXTY) {
        TimeForm::MinutesSeconds
    } else if float_bits::double_at_least(size, TEN) {
        TimeForm::Whole
    } else if float_bits::double_at_least(size, float_bits::DOUBLE_ONE) {
        TimeForm::Tenths
    } else {
        TimeForm::Hundredths
    }
}

/// The form in which an offset of `seconds` is written.
pub fn time_form(seconds: u64) -> (form: TimeForm)
    ensures
        form == time_form_of(seconds),
{
    let size: u64 = absolute_double(seconds);
    if float_bits::at_least_double(size, SIXTY) {
        TimeForm::MinutesSeconds
    } else if float_bits::at_least_double(size, TEN) {
        TimeForm::Whole
    } else if float_bits::at_least_double(size, float_bits::DOUBLE_ONE) {
        TimeForm::Tenths
    } else {
        TimeForm::Hundredths
    }
}

/// `m:ss` for a whole number of seconds; the sign stands before the minutes when there are any.
pub open spec fn minutes_seconds_of(total: int) -> Seq<char> {
    let size = if total < 0 { (-total) as nat } else { total as nat };
    let minutes = if total < 0 { -((size / 60) as int) } else { (size / 60) as int };
    text::signed_decimal(minutes) + seq![':'] + text::two_digits(size % 60)
}

/// `m:ss` for a whole number of seconds.
pub fn minutes_seconds(total: i64) -> (s: String)
    ensures
        s@ == minutes_seconds_of(total as int),
{
    let size: u64 = if total < 0 {
        (-(total + 1)) as u64 + 1
    } else {
        total as u64
    };
    let mut s = String::new();
    let minutes: i64 = if total < 0 {
        -((size / 60) as i64)
    } else {
        (size / 60) as i64
    };
    text::push_signed(&mut s, minutes);
    s.push(':');
    text::push_two_digits(&mut s, size % 60);
    assert(s@ =~= minutes_seconds_of(total as int));
    s
}

// ---------------------------------------------------------------------------
// Redraw
// ---------------------------------------------------------------------------

/// Slot `i` has enough samples to be listed.
pub open spec fn has_data(slots: Seq<PlotSlot>) -> spec_fn(int) -> bool {
    |i: int| slots[i].series@.len() >= 2
}

/// Slot `i` is drawn.
pub open spec fn is_drawn(slots: Seq<PlotSlot>) -> spec_fn(int) -> bool {
    |i: int| slots[i].series@.len() >= 2 && slots[i].active
}

/// The slots that are listed in the legend.
pub open spec fn listed_slots(slots: Seq<PlotSlot>) -> Seq<int> {
    lists::positions_where(slots.len(), has_data(slots))
}

/// The slots that are drawn.
pub open spec fn drawn_slots(slots: Seq<PlotSlot>) -> Seq<int> {
    lists::positions_where(slots.len(), is_drawn(slots))
}

/// The slots that the axes go by: those drawn, or all listed ones when everything is off.
pub open spec fn range_slots(slots: Seq<PlotSlot>) -> Seq<int> {
    if drawn_slots(slots).len() == 0 {
        listed_slots(slots)
    } else {
        drawn_slots(slots)
    }
}

/// `t` is the earliest first sample of the slots `src`.
pub open spec fn is_earliest(slots: Seq<PlotSlot>, src: Seq<int>, t: i64) -> bool {
    &&& exists|k: int| 0 <= k < src.len() && slots[#[trigger] src[k]].series@[0].ts_ms == t
    &&& forall|k: int| 0 <= k < src.len() ==> t <= slots[#[trigger] src[k]].series@[0].ts_ms
}

/// `t` is the latest last sample of the slots `src`.
pub open spec fn is_latest(slots: Seq<PlotSlot>, src: Seq<int>, t: i64) -> bool {
    &&& exists|k: int| 0 <= k < src.len() && slots[#[trigger] src[k]].series@.last().ts_ms == t
    &&& forall|k: int| 0 <= k < src.len() ==> t >= slots[#[trigger] src[k]].series@.last().ts_ms
}

/// The left end of the view once data from `t_min` on is shown.
pub open spec fn resolved_x_min(view: PlotView, t_min: i64) -> i64 {
    if !view.user_view || view.x_max_ms <= view.x_min_ms {
        t_min
    } else {
        view.x_min_ms
    }
}

/// The view once data from `t_min` to `t_max` is shown: it follows the data unless the user
/// pinned one, and it is never empty.
pub open spec fn resolved(view: PlotView, t_min: i64, t_max: i64) -> PlotView {
    let follows = !view.user_view || view.x_max_ms <= view.x_min_ms;
    let x_min = resolved_x_min(view, t_min);
    let x_max = if follows { t_max } else { view.x_max_ms };
    let y_min = if follows { 0u32 } else { view.y_min_frac };
    let y_max = if follows { float_bits::SINGLE_ONE } else { view.y_max_frac };
    let flat = float_bits::single_at_most(y_max, y_min);
    PlotView {
        x_min_ms: x_min,
        x_max_ms: if x_max <= x_min { (x_min + 1) as i64 } else { x_max },
        y_min_frac: if flat { 0u32 } else { y_min },
        y_max_frac: if flat { float_bits::SINGLE_ONE } else { y_max },
        data_t_min_ms: t_min,
        data_t_max_ms: t_max,
        ..view
    }
}

/// After a redraw the view is never empty, and a pinned one that was not empty stays where it is.
pub proof fn law_resolved_view(view: PlotView, t_min: i64, t_max: i64)
    requires
        resolved_x_min(view, t_min) < i64::MAX,
    ensures
        resolved(view, t_min, t_max).x_min_ms < resolved(view, t_min, t_max).x_max_ms,
        view.user_view && view.x_min_ms < view.x_max_ms ==> resolved(view, t_min, t_max).x_min_ms
            == view.x_min_ms && resolved(view, t_min, t_max).x_max_ms == view.x_max_ms,
        !view.user_view && t_min < t_max ==> resolved(view, t_min, t_max).x_min_ms == t_min
            && resolved(view, t_min, t_max).x_max_ms == t_max,
{
}

/// Every how many samples one is drawn, so that no more than 500 are.
pub open spec fn stride_of(len: nat) -> nat {
    if len == 0 {
        1
    } else {
        (len + 499) as nat / 500
    }
}

/// The positions of the drawn samples of a series of `len` samples: every `stride`-th from the
/// first on, and the last.
pub open spec fn decimation(len: nat) -> Seq<int> {
    let stride = stride_of(len);
    let count = if len == 0 { 0 } else { ((len - 1) / stride as int + 1) as nat };
    let even = Seq::new(count, |i: int| i * stride);
    if len > 0 && even.last() != len - 1 {
        even.push(len - 1)
    } else {
        even
    }
}

/// A drawn line has at most 501 points, the first and the last sample among them, in order.
pub proof fn law_decimation(len: nat)
    requires
        len > 0,
    ensures
        1 <= decimation(len).len() <= 501,
        decimation(len)[0] == 0,
        decimation(len).last() == len - 1,
        forall|i: int, j: int|
            0 <= i < j < decimation(len).len() ==> decimation(len)[i] < decimation(len)[j],
        forall|i: int| 0 <= i < decimation(len).len() ==> 0 <= #[trigger] decimation(len)[i] < len,
{
    let stride = stride_of(len) as int;
    let count = (len - 1) / stride + 1;
    let even = Seq::new(count as nat, |i: int| i * stride);
    assert(1 <= stride && len <= stride * 500) by {
        assert(len <= ((len + 499) / 500) * 500);
    }
    assert((len - 1) / stride < 500) by (nonlinear_arith)
        requires
            len >= 1,
            stride >= 1,
            len <= stride * 500,
    ;
    assert(0 <= (len - 1) / stride) by (nonlinear_arith)
        requires
            len >= 1,
            stride >= 1,
    ;
    assert forall|i: int, j: int| 0 <= i < j < even.len() implies even[i] < even[j] by {
        assert(i * stride < j * stride) by (nonlinear_arith)
            requires
                i < j,
                stride >= 1,
        ;
    }
    assert forall|i: int| 0 <= i < even.len() implies 0 <= #[trigger] even[i] <= len - 1 by {
        assert(0 <= i * stride) by (nonlinear_arith)
            requires
                i >= 0,
                stride >= 1,
        ;
        assert(i * stride <= ((len - 1) / stride) * stride) by (nonlinear_arith)
            requires
                i <= (len - 1) / stride,
                stride >= 1,
        ;
        assert(((len - 1) / stride) * stride <= len - 1) by (nonlinear_arith)
            requires
                stride >= 1,
                len >= 1,
        ;
    }
    assert(even[0] == 0);
}

/// The drawn samples of a series of `len` samples.
pub fn decimate(len: usize) -> (points: Vec<usize>)
    requires
        len > 0,
    ensures
        lists::ints(points@) == decimation(len as nat),
{
    let stride: usize = (len - 1) / 500 + 1;
    assert(stride == stride_of(len as nat)) by {
        assert((len + 499) / 500 == (len - 1) / 500 + 1);
    }
    let count: usize = (len - 1) / stride + 1;
    let ghost even = Seq::new(count as nat, |i: int| i * stride);
    let mut points: Vec<usize> = Vec::new();
    let mut i: usize = 0;
    while i < count
        invariant
            i <= count,
            stride >= 1,
            count == (len - 1) / stride as int + 1,
            len > 0,
            even.len() == count,
            forall|j: int| 0 <= j < count ==> #[trigger] even[j] == j * stride,
            lists::ints(points@) =~= even.take(i as int),
        decreases count - i,
    {
        assert(i * stride <= len - 1) by (nonlinear_arith)
            requires
                i <= (len - 1) / stride as int,
                stride >= 1,
                len > 0,
        ;
        let ghost before = points@;
        let point: usize = i * stride;
        points.push(point);
        assert(even[i as int] == point);
        assert(lists::ints(points@) =~= lists::ints(before).push(point as int));
        assert(even.take(i + 1) =~= even.take(i as int).push(even[i as int]));
        i = i + 1;
    }
    assert(even.take(count as int) =~= even);
    assert(points@[count - 1] == even[count - 1]);
    if points[count - 1] != len - 1 {
        points.push(len - 1);
    }
    assert(lists::ints(points@) =~= decimation(len as nat));
    points
}

/// One line to draw: the slot, the positions of its drawn samples and its full range.
#[derive(Debug, Clone)]
pub struct LinePlan {
    pub slot: usize,
    pub points: Vec<usize>,
    pub y_min: u64,
    pub y_max: u64,
}

/// One entry of the legend: the slot, its full range and whether it is drawn.
#[derive(Debug, Clone)]
pub struct LegendPlan {
    pub slot: usize,
    pub y_min: u64,
    pub y_max: u64,
    pub enabled: bool,
}

/// What a redraw shows.
#[derive(Debug, Clone)]
pub struct PlotPlan {
    pub lines: Vec<LinePlan>,
    pub legend: Vec<LegendPlan>,
    pub data_t_min_ms: i64,
    pub data_t_max_ms: i64,
    /// Number of points over all lines.
    pub total_points: usize,
    /// The slot whose values label the Y axis, when exactly one series is drawn.
    pub single: Option<usize>,
}

/// `line` draws slot `slot`.
pub open spec fn is_line_of(slots: Seq<PlotSlot>, slot: int, line: LinePlan) -> bool {
    &&& line.slot == slot
    &&& lists::ints(line.points@) == decimation(slots[slot].series@.len())
    &&& is_range_of(slots[slot].series@, (line.y_min, line.y_max))
}

/// `entry` lists slot `slot`.
pub open spec fn is_entry_of(slots: Seq<PlotSlot>, slot: int, entry: LegendPlan) -> bool {
    &&& entry.slot == slot
    &&& is_range_of(slots[slot].series@, (entry.y_min, entry.y_max))
    &&& entry.enabled == slots[slot].active
}

/// The number of points over the lines of the slots `src`.
pub open spec fn points_of(slots: Seq<PlotSlot>, src: Seq<int>) -> nat
    decreases src.len(),
{
    if src.len() == 0 {
        0
    } else {
        points_of(slots, src.drop_last()) + decimation(slots[src.last()].series@.len()).len()
    }
}

/// `plan` shows the slots.
pub open spec fn is_plan_of(slots: Seq<PlotSlot>, plan: PlotPlan) -> bool {
    &&& plan.lines@.len() == drawn_slots(slots).len()
    &&& forall|k: int|
        0 <= k < plan.lines@.len() ==> is_line_of(
            slots,
            drawn_slots(slots)[k],
            #[trigger] plan.lines@[k],
        )
    &&& plan.legend@.len() == listed_slots(slots).len()
    &&& forall|k: int|
        0 <= k < plan.legend@.len() ==> is_entry_of(
            slots,
            listed_slots(slots)[k],
            #[trigger] plan.legend@[k],
        )
    &&& is_earliest(slots, range_slots(slots), plan.data_t_min_ms)
    &&& is_latest(slots, range_slots(slots), plan.data_t_max_ms)
    &&& plan.total_points == points_of(slots, drawn_slots(slots))
    &&& match plan.single {
        Some(slot) => drawn_slots(slots).len() == 1 && slot == drawn_slots(slots)[0],
        None => drawn_slots(slots).len() != 1,
    }
}

/// Whether a slot's samples leave room for a view of one millisecond.
pub open spec fn times_fit(state: PlotState) -> bool {
    &&& state.view.user_view && state.view.x_min_ms < state.view.x_max_ms || forall|i: int|
        0 <= i < state.slots@.len() && (#[trigger] state.slots@[i]).series@.len() >= 2
            ==> state.slots@[i].series@[0].ts_ms < i64::MAX
    &&& state.slots@.len() * 501 <= usize::MAX
}

fn listed(slots: &Vec<PlotSlot>) -> (list: Vec<usize>)
    ensures
        lists::ints(list@) == listed_slots(slots@),
{
    let mut list: Vec<usize> = Vec::new();
    let mut i: usize = 0;
    while i < slots.len()
        invariant
            i <= slots@.len(),
            lists::ints(list@) == lists::positions_where(i as nat, has_data(slots@)),
        decreases slots.len() - i,
    {
        if slots[i].series.len() >= 2 {
            let ghost before = list@;
            list.push(i);
            assert(lists::ints(list@) =~= lists::ints(before).push(i as int));
        }
        i = i + 1;
    }
    list
}

fn drawn(slots: &Vec<PlotSlot>) -> (list: Vec<usize>)
    ensures
        lists::ints(list@) == drawn_slots(slots@),
{
    let mut list: Vec<usize> = Vec::new();
    let mut i: usize = 0;
    while i < slots.len()
        invariant
            i <= slots@.len(),
            lists::ints(list@) == lists::positions_where(i as nat, is_drawn(slots@)),
        decreases slots.len() - i,
    {
        if slots[i].series.len() >= 2 && slots[i].active {
            let ghost before = list@;
            list.push(i);
            assert(lists::ints(list@) =~= lists::ints(before).push(i as int));
        }
        i = i + 1;
    }
    list
}

fn time_range(slots: &Vec<PlotSlot>, src: &Vec<usize>) -> (range: (i64, i64))
    requires
        src@.len() > 0,
        forall|k: int|
            0 <= k < src@.len() ==> 0 <= #[trigger] src@[k] < slots@.len()
                && slots@[src@[k] as int].series@.len() >= 2,
    ensures
        is_earliest(slots@, lists::ints(src@), range.0),
        is_latest(slots@, lists::ints(src@), range.1),
{
    let first = &slots[src[0]].series;
    let mut t_min: i64 = first[0].ts_ms;
    let mut t_max: i64 = first[first.len() - 1].ts_ms;
    let mut k: usize = 1;
    let ghost all = lists::ints(src@);
    assert(all.take(1)[0] == src@[0]);
    while k < src.len()
        invariant
            1 <= k <= src@.len(),
            all == lists::ints(src@),
            forall|k: int|
                0 <= k < src@.len() ==> 0 <= #[trigger] src@[k] < slots@.len()
                    && slots@[src@[k] as int].series@.len() >= 2,
            is_earliest(slots@, all.take(k as int), t_min),
            is_latest(slots@, all.take(k as int), t_max),
        decreases src.len() - k,
    {
        let series = &slots[src[k]].series;
        let a: i64 = series[0].ts_ms;
        let b: i64 = series[series.len() - 1].ts_ms;
        let ghost done = all.take(k as int);
        let ghost next = all.take(k + 1);
        assert(forall|j: int| 0 <= j < k ==> next[j] == done[j]);
        assert(next[k as int] == src@[k as int]);
        proof {
            let wa = choose|j: int|
                0 <= j < done.len() && slots@[#[trigger] done[j]].series@[0].ts_ms == t_min;
            let wb = choose|j: int|
                0 <= j < done.len() && slots@[#[trigger] done[j]].series@.last().ts_ms == t_max;
            assert(slots@[next[wa]].series@[0].ts_ms == t_min);
            assert(slots@[next[wb]].series@.last().ts_ms == t_max);
        }
        if a < t_min {
            t_min = a;
        }
        if b > t_max {
            t_max = b;
        }
        assert forall|j: int| 0 <= j < next.len() implies t_min <= slots@[#[trigger]
        next[j]].series@[0].ts_ms && t_max >= slots@[next[j]].series@.last().ts_ms by {
            if j < k {
                assert(next[j] == done[j]);
            }
        }
        k = k + 1;
    }
    assert(all.take(src@.len() as int) =~= all);
    (t_min, t_max)
}

/// Works out what the plot shows and resolves the view. Without any data the view starts over
/// and there is nothing to show.
pub fn rebuild_plot(state: &mut PlotState) -> (plan: Option<PlotPlan>)
    requires
        times_fit(*old(state)),
    ensures
        plan is None <==> listed_slots(old(state).slots@).len() == 0,
        plan is None ==> *final(state) == (PlotState { view: fresh_view(), ..*old(state) }),
        plan matches Some(p) ==> is_plan_of(old(state).slots@, p) && *final(state) == (PlotState {
            view: resolved(old(state).view, p.data_t_min_ms, p.data_t_max_ms),
            ..*old(state)
        }),
{
    let with_data = listed(&state.slots);
    let active = drawn(&state.slots);
    let ghost slots = state.slots@;
    proof {
        lists::lemma_positions_where(slots.len(), has_data(slots));
        lists::lemma_positions_where(slots.len(), is_drawn(slots));
        assert(lists::ints(with_data@).len() == with_data@.len());
        assert(lists::ints(active@).len() == active@.len());
    }
    if with_data.len() == 0 {
        state.view = PlotView::default();
        return None;
    }
    assert forall|k: int| 0 <= k < with_data@.len() implies 0 <= #[trigger] with_data@[k]
        < slots.len() && slots[with_data@[k] as int].series@.len() >= 2 by {
        assert(lists::ints(with_data@)[k] == with_data@[k]);
    }
    assert forall|k: int| 0 <= k < active@.len() implies 0 <= #[trigger] active@[k] < slots.len()
        && slots[active@[k] as int].series@.len() >= 2 by {
        assert(lists::ints(active@)[k] == active@[k]);
    }
    let (t_min, t_max) = if active.len() == 0 {
        time_range(&state.slots, &with_data)
    } else {
        time_range(&state.slots, &active)
    };
    proof {
        let src = range_slots(slots);
        let w = choose|k: int| 0 <= k < src.len() && slots[#[trigger] src[k]].series@[0].ts_ms == t_min;
        assert(slots[src[w]].series@.len() >= 2);
    }

    if !state.view.user_view || state.view.x_max_ms <= state.view.x_min_ms {
        state.view.x_min_ms = t_min;
        state.view.x_max_ms = t_max;
        state.view.y_min_frac = 0;
        state.view.y_max_frac = float_bits::SINGLE_ONE;
    }
    if state.view.x_max_ms <= state.view.x_min_ms {
        state.view.x_max_ms = state.view.x_min_ms + 1;
    }
    if float_bits::at_most_single(state.view.y_max_frac, state.view.y_min_frac) {
        state.view.y_min_frac = 0;
        state.view.y_max_frac = float_bits::SINGLE_ONE;
    }
    state.view.data_t_min_ms = t_min;
    state.view.data_t_max_ms = t_max;

    let mut lines: Vec<LinePlan> = Vec::new();
    let mut total_points: usize = 0;
    let mut k: usize = 0;
    while k < active.len()
        invariant
            k <= active@.len(),
            slots == state.slots@,
            lists::ints(active@) == drawn_slots(slots),
            active@.len() <= slots.len(),
            slots.len() * 501 <= usize::MAX,
            forall|k: int|
                0 <= k < active@.len() ==> 0 <= #[trigger] active@[k] < slots.len()
                    && slots[active@[k] as int].series@.len() >= 2,
            lines@.len() == k,
            forall|j: int|
                0 <= j < k ==> is_line_of(slots, drawn_slots(slots)[j], #[trigger] lines@[j]),
            total_points == points_of(slots, drawn_slots(slots).take(k as int)),
            total_points <= k * 501,
        decreases active.len() - k,
    {
        let i: usize = active[k];
        assert(lists::ints(active@)[k as int] == i);
        let series = &state.slots[i].series;
        let (y_min, y_max) = series_y_range(series.as_slice());
        let points = decimate(series.len());
        proof {
            law_decimation(series@.len());
            assert(lists::ints(points@).len() == points@.len());
            assert(drawn_slots(slots).take(k + 1).drop_last() =~= drawn_slots(slots).take(k as int));
            assert(k * 501 + 501 <= slots.len() * 501) by (nonlinear_arith)
                requires
                    k < slots.len(),
            ;
        }
        total_points = total_points + points.len();
        lines.push(LinePlan { slot: i, points, y_min, y_max });
        k = k + 1;
    }
    assert(drawn_slots(slots).take(active@.len() as int) =~= drawn_slots(slots));

    let mut legend: Vec<LegendPlan> = Vec::new();
    let mut n: usize = 0;
    while n < with_data.len()
        invariant
            n <= with_data@.len(),
            slots == state.slots@,
            lists::ints(with_data@) == listed_slots(slots),
            forall|k: int|
                0 <= k < with_data@.len() ==> 0 <= #[trigger] with_data@[k] < slots.len()
                    && slots[with_data@[k] as int].series@.len() >= 2,
            legend@.len() == n,
            forall|j: int|
                0 <= j < n ==> is_entry_of(slots, listed_slots(slots)[j], #[trigger] legend@[j]),
        decreases with_data.len() - n,
    {
        let i: usize = with_data[n];
        assert(lists::ints(with_data@)[n as int] == i);
        let (y_min, y_max) = series_y_range(state.slots[i].series.as_slice());
        legend.push(LegendPlan { slot: i, y_min, y_max, enabled: state.slots[i].active });
        n = n + 1;
    }
    let single: Option<usize> = if active.len() == 1 {
        Some(active[0])
    } else {
        None
    };
    assert(active@.len() == 1 ==> lists::ints(active@)[0] == active@[0]);
    Some(
        PlotPlan { lines, legend, data_t_min_ms: t_min, data_t_max_ms: t_max, total_points, single },
    )
}

/// The label of the Y axis: the name of the only drawn series, or a note that the values are
/// normalised.
pub fn y_axis_label(slots: &Vec<PlotSlot>, single: Option<usize>) -> (label: String)
    requires
        single matches Some(i) ==> i < slots@.len(),
    ensures
        label@ == (match single {
            Some(i) => slots@[i as int].name@,
            None => "(normalized)"@,
        }),
{
    match single {
        Some(i) => slots[i].name.clone(),
        None => "(normalized)".to_string(),
    }
}

/// The line under the plot; the two spans are given as text.
pub fn summary_text(series: usize, points: usize, view_span: &str, total_span: &str) -> (s: String)
    ensures
        s@ == text::decimal(series as nat) + " series · "@ + text::decimal(points as nat) + " pts · view "@
            + view_span@ + "s of "@ + total_span@ + "s"@,
{
    let mut s = text::decimal_string(series as u64);
    s.append(" series · ");
    text::push_decimal(&mut s, points as u64);
    s.append(" pts · view ");
    s.append(view_span);
    s.append("s of ");
    s.append(total_span);
    s.append("s");
    s
}

// ---------------------------------------------------------------------------
// Hover
// ---------------------------------------------------------------------------

/// Where the value under the cursor comes from.
#[derive(Debug, Clone, Copy, PartialEq, Eq, Structural)]
pub enum HoverPick {
    /// One sample.
    Sample(usize),
    /// A point between two neighbouring samples.
    Between(usize, usize),
}

/// The times of a series never go back.
pub open spec fn times_ascend(s: Seq<SeriesPoint>) -> bool {
    forall|i: int, j: int| 0 <= i <= j < s.len() ==> s[i].ts_ms <= s[j].ts_ms
}

/// `pos` parts the samples before `target` from those at or after it.
pub open spec fn parts_at_time(s: Seq<SeriesPoint>, target: i64, pos: int) -> bool {
    &&& 0 <= pos <= s.len()
    &&& forall|j: int| 0 <= j < pos ==> (#[trigger] s[j]).ts_ms < target
    &&& forall|j: int| pos <= j < s.len() ==> (#[trigger] s[j]).ts_ms >= target
}

/// The pick at a given parting position in a series of `len` samples.
pub open spec fn pick_at(len: int, pos: int) -> HoverPick {
    if pos == 0 {
        HoverPick::Sample(0)
    } else if pos >= len {
        HoverPick::Sample((len - 1) as usize)
    } else {
        HoverPick::Between((pos - 1) as usize, pos as usize)
    }
}

/// `pick` is what the cursor at `target` shows of the series: exact when its times ascend, and
/// always made of samples that exist.
pub open spec fn is_pick_of(s: Seq<SeriesPoint>, target: i64, pick: HoverPick) -> bool {
    &&& exists|pos: int| 0 <= pos <= s.len() && pick == #[trigger] pick_at(s.len() as int, pos)
    &&& times_ascend(s) ==> exists|pos: int| #[trigger]
        parts_at_time(s, target, pos) && pick == pick_at(s.len() as int, pos)
}

/// What the cursor at `target` shows of a series.
pub fn hover_pick(series: &[SeriesPoint], target_ms: i64) -> (pick: HoverPick)
    requires
        series@.len() > 0,
    ensures
        is_pick_of(series@, target_ms, pick),
{
    let mut low: usize = 0;
    let mut high: usize = series.len();
    while low < high
        invariant
            low <= high <= series@.len(),
            times_ascend(series@) ==> forall|j: int|
                0 <= j < low ==> (#[trigger] series@[j]).ts_ms < target_ms,
            times_ascend(series@) ==> forall|j: int|
                high <= j < series@.len() ==> (#[trigger] series@[j]).ts_ms >= target_ms,
        decreases high - low,
    {
        let mid: usize = low + (high - low) / 2;
        if series[mid].ts_ms < target_ms {
            low = mid + 1;
        } else {
            high = mid;
        }
    }
    proof {
        let whole = pick_at(series@.len() as int, low as int);
        assert(times_ascend(series@) ==> parts_at_time(series@, target_ms, low as int));
    }
    if low == 0 {
        HoverPick::Sample(0)
    } else if low >= series.len() {
        HoverPick::Sample(series.len() - 1)
    } else {
        HoverPick::Between(low - 1, low)
    }
}

/// Between two samples the cursor lies after the first and not after the second.
pub proof fn law_hover_between(s: Seq<SeriesPoint>, target: i64, a: usize, b: usize)
    requires
        times_ascend(s),
        s.len() <= usize::MAX,
        is_pick_of(s, target, HoverPick::Between(a, b)),
    ensures
        b == a + 1,
        b < s.len(),
        s[a as int].ts_ms < target <= s[b as int].ts_ms,
{
    let pos = choose|pos: int| #[trigger]
        parts_at_time(s, target, pos) && HoverPick::Between(a, b) == pick_at(s.len() as int, pos);
    assert(s[pos - 1].ts_ms < target);
}

/// The picks of all drawn slots, each with its slot.
pub fn hover_picks(slots: &Vec<PlotSlot>, target_ms: i64) -> (picks: Vec<(usize, HoverPick)>)
    ensures
        picks@.len() == drawn_slots(slots@).len(),
        forall|k: int|
            0 <= k < picks@.len() ==> {
                &&& (#[trigger] picks@[k]).0 == drawn_slots(slots@)[k]
                &&& is_pick_of(slots@[picks@[k].0 as int].series@, target_ms, picks@[k].1)
            },
{
    let active = drawn(slots);
    proof {
        lists::lemma_positions_where(slots@.len(), is_drawn(slots@));
        assert(lists::ints(active@).len() == active@.len());
    }
    let mut picks: Vec<(usize, HoverPick)> = Vec::new();
    let mut k: usize = 0;
    while k < active.len()
        invariant
            k <= active@.len(),
            lists::ints(active@) == drawn_slots(slots@),
            forall|j: int|
                0 <= j < drawn_slots(slots@).len() ==> {
                    &&& 0 <= #[trigger] drawn_slots(slots@)[j] < slots@.len()
                    &&& is_drawn(slots@)(drawn_slots(slots@)[j])
                },
            picks@.len() == k,
            forall|j: int|
                0 <= j < k ==> {
                    &&& (#[trigger] picks@[j]).0 == drawn_slots(slots@)[j]
                    &&& is_pick_of(slots@[picks@[j].0 as int].series@, target_ms, picks@[j].1)
                },
        decreases active.len() - k,
    {
        let i: usize = active[k];
        assert(lists::ints(active@)[k as int] == i);
        assert(lists::ints(active@).len() == active@.len());
        let pick = hover_pick(slots[i].series.as_slice(), target_ms);
        picks.push((i, pick));
        k = k + 1;
    }
    assert(lists::ints(active@).len() == active@.len());
    picks
}

/// Slot `i` is switched on and holds a sample.
pub open spec fn is_sampled(slots: Seq<PlotSlot>) -> spec_fn(int) -> bool {
    |i: int| slots[i].active && slots[i].series@.len() > 0
}

/// The time that hover offsets count from: the earliest first sample of the series that are
/// switched on, or zero.
pub fn hover_reference(slots: &Vec<PlotSlot>) -> (t: i64)
    ensures
        lists::positions_where(slots@.len(), is_sampled(slots@)).len() == 0 ==> t == 0,
        lists::positions_where(slots@.len(), is_sampled(slots@)).len() > 0 ==> is_earliest(
            slots@,
            lists::positions_where(slots@.len(), is_sampled(slots@)),
            t,
        ),
{
    let mut found: Option<i64> = None;
    let mut i: usize = 0;
    let ghost keep = is_sampled(slots@);
    while i < slots.len()
        invariant
            i <= slots@.len(),
            keep == is_sampled(slots@),
            found is None <==> lists::positions_where(i as nat, keep).len() == 0,
            found matches Some(t) ==> is_earliest(slots@, lists::positions_where(i as nat, keep), t),
        decreases slots.len() - i,
    {
        let ghost done = lists::positions_where(i as nat, keep);
        let ghost next = lists::positions_where((i + 1) as nat, keep);
        if slots[i].active && slots[i].series.len() > 0 {
            let t: i64 = slots[i].series[0].ts_ms;
            let ghost before = found;
            found = match found {
                None => Some(t),
                Some(best) => if t < best {
                    Some(t)
                } else {
                    Some(best)
                },
            };
            proof {
                assert(next == done.push(i as int));
                assert(next[done.len() as int] == i);
                assert(slots@[next[done.len() as int]].series@[0].ts_ms == t);
                if let Some(best) = before {
                    let w = choose|k: int|
                        0 <= k < done.len() && slots@[#[trigger] done[k]].series@[0].ts_ms == best;
                    assert(next[w] == done[w]);
                    assert forall|k: int| 0 <= k < next.len() implies found->0
                        <= slots@[#[trigger] next[k]].series@[0].ts_ms by {
                        if k < done.len() {
                            assert(next[k] == done[k]);
                        }
                    }
                }
            }
        }
        i = i + 1;
    }
    match found {
        Some(t) => t,
        None => 0,
    }
}

/// One line of the legend.
#[derive(Debug, Clone)]
pub struct LegendEntry {
    pub label: String,
    pub color: [u8; 3],
    pub range: String,
    pub hover_value: String,
    pub slot_index: usize,
    pub enabled: bool,
}

/// The text of the first update for `slot`, or nothing.
pub open spec fn update_for(updates: Seq<(usize, String)>, slot: usize) -> Seq<char>
    decreases updates.len(),
{
    if updates.len() == 0 {
        Seq::empty()
    } else if updates[0].0 == slot {
        updates[0].1@
    } else {
        update_for(updates.skip(1), slot)
    }
}

/// The part of the tooltip for one legend entry.
pub open spec fn tooltip_line(entry: LegendEntry, value: Seq<char>) -> Seq<char> {
    if value.len() == 0 {
        Seq::empty()
    } else {
        seq!['\n'] + entry.label@ + ": "@ + value
    }
}

/// The tooltip of a legend with the given updates.
pub open spec fn tooltip_of(
    header: Seq<char>,
    legend: Seq<LegendEntry>,
    updates: Seq<(usize, String)>,
) -> Seq<char>
    decreases legend.len(),
{
    if legend.len() == 0 {
        "t = "@ + header
    } else {
        tooltip_of(header, legend.drop_last(), updates) + tooltip_line(
            legend.last(),
            update_for(updates, legend.last().slot_index),
        )
    }
}

/// `now` is `before` but for its hover value, which is `value`.
pub open spec fn shows(before: LegendEntry, now: LegendEntry, value: Seq<char>) -> bool {
    &&& now.label == before.label
    &&& now.color == before.color
    &&& now.range == before.range
    &&& now.slot_index == before.slot_index
    &&& now.enabled == before.enabled
    &&& now.hover_value@ == value
}

fn find_update(updates: &[(usize, String)], slot: usize) -> (value: String)
    ensures
        value@ == update_for(updates@, slot),
{
    let mut i: usize = 0;
    assert(updates@.skip(0) =~= updates@);
    while i < updates.len()
        invariant
            i <= updates@.len(),
            update_for(updates@, slot) == update_for(updates@.skip(i as int), slot),
        decreases updates.len() - i,
    {
        assert(updates@.skip(i as int)[0] == updates@[i as int]);
        if updates[i].0 == slot {
            return updates[i].1.clone();
        }
        assert(updates@.skip(i as int).skip(1) =~= updates@.skip(i + 1));
        i = i + 1;
    }
    String::new()
}

/// Whether the cursor, at a fraction of the width, is over the plot. Elsewhere the hover values
/// are cleared.
pub fn is_over_plot(frac: u32) -> (r: bool)
    ensures
        r == (float_bits::single_at_most(0, frac) && float_bits::single_at_most(
            frac,
            float_bits::SINGLE_ONE,
        )),
{
    float_bits::at_most_single(0, frac) && float_bits::at_most_single(frac, float_bits::SINGLE_ONE)
}

/// Writes the hover values into the legend and gives the tooltip: the time under the cursor, and
/// a line for every series with a value.
pub fn plot_hover(header: &str, legend: &mut Vec<LegendEntry>, updates: &[(usize, String)]) -> (tooltip:
    String)
    ensures
        tooltip@ == tooltip_of(header@, old(legend)@, updates@),
        final(legend)@.len() == old(legend)@.len(),
        forall|i: int|
            0 <= i < old(legend)@.len() ==> shows(
                old(legend)@[i],
                #[trigger] final(legend)@[i],
                update_for(updates@, old(legend)@[i].slot_index),
            ),
{
    let ghost before = legend@;
    let mut tooltip = text::concat2("t = ", header);
    let mut i: usize = 0;
    assert(before.take(0) =~= Seq::empty());
    while i < legend.len()
        invariant
            i <= legend@.len(),
            legend@.len() == before.len(),
            before == old(legend)@,
            tooltip@ == tooltip_of(header@, before.take(i as int), updates@),
            forall|j: int|
                0 <= j < i ==> shows(
                    before[j],
                    #[trigger] legend@[j],
                    update_for(updates@, before[j].slot_index),
                ),
            forall|j: int| i <= j < before.len() ==> legend@[j] == before[j],
        decreases legend.len() - i,
    {
        let value = find_update(updates, legend[i].slot_index);
        assert(before.take(i + 1).drop_last() =~= before.take(i as int));
        if value.as_str().is_empty() {
            assert(tooltip@ + Seq::<char>::empty() =~= tooltip@);
        } else {
            let ghost so_far = tooltip@;
            tooltip.push('\n');
            tooltip.append(legend[i].label.as_str());
            tooltip.append(": ");
            tooltip.append(value.as_str());
            assert(tooltip@ =~= so_far + tooltip_line(before[i as int], value@));
        }
        legend[i].hover_value = value;
        i = i + 1;
    }
    assert(before.take(before.len() as int) =~= before);
    tooltip
}

/// Empties the hover values and tells whether there were any.
pub fn clear_hover(legend: &mut Vec<LegendEntry>) -> (changed: bool)
    ensures
        changed == exists|i: int|
            0 <= i < old(legend)@.len() && (#[trigger] old(legend)@[i]).hover_value@.len() > 0,
        final(legend)@.len() == old(legend)@.len(),
        forall|i: int|
            0 <= i < old(legend)@.len() ==> shows(
                old(legend)@[i],
                #[trigger] final(legend)@[i],
                Seq::empty(),
            ),
{
    let ghost before = legend@;
    let mut changed = false;
    let mut i: usize = 0;
    while i < legend.len()
        invariant
            i <= legend@.len(),
            legend@.len() == before.len(),
            before == old(legend)@,
            changed == exists|j: int|
                0 <= j < i && (#[trigger] before[j]).hover_value@.len() > 0,
            forall|j: int|
                0 <= j < i ==> shows(before[j], #[trigger] legend@[j], Seq::empty()),
            forall|j: int| i <= j < before.len() ==> legend@[j] == before[j],
        decreases legend.len() - i,
    {
        assert(legend@[i as int] == before[i as int]);
        if !legend[i].hover_value.as_str().is_empty() {
            legend[i].hover_value = String::new();
            changed = true;
        } else {
            assert(legend@[i as int].hover_value@ =~= Seq::<char>::empty());
        }
        i = i + 1;
    }
    changed
}

/// A full series drops its oldest sample for the newest one.
pub proof fn law_full_series(before: Seq<SeriesPoint>, p: SeriesPoint)
    requires
        before.len() == MAX_POINTS,
    ensures
        newest(before.push(p), MAX_POINTS as nat) == before.skip(1).push(p),
{
    assert(newest(before.push(p), MAX_POINTS as nat) =~= before.skip(1).push(p));
}

/// The range of a series of finite values is from one of its values to another, and holds all of
/// them. A series without numbers, or with an infinite one, has the range from zero to one.
pub proof fn law_range_holds_values(s: Seq<SeriesPoint>, range: (u64, u64), j: int)
    requires
        is_range_of(s, range),
        0 <= j < s.len(),
    ensures
        (forall|i: int| 0 <= i < s.len() ==> float_bits::double_is_finite(#[trigger] s[i].value)) ==> {
            &&& float_bits::double_at_least(s[j].value, range.0)
            &&& float_bits::double_at_least(range.1, s[j].value)
            &&& exists|i: int| 0 <= i < s.len() && #[trigger] s[i].value == range.0
            &&& exists|i: int| 0 <= i < s.len() && #[trigger] s[i].value == range.1
        },
        s[j].value == float_bits::DOUBLE_INFINITY ==> range == (0u64, float_bits::DOUBLE_ONE),
        (forall|i: int| 0 <= i < s.len() ==> float_bits::double_key(#[trigger] s[i].value) is None)
            ==> range == (0u64, float_bits::DOUBLE_ONE),
{
    if forall|i: int| 0 <= i < s.len() ==> float_bits::double_is_finite(#[trigger] s[i].value) {
        assert(float_bits::double_is_finite(s[j].value));
        assert(float_bits::double_key(s[j].value) is Some);
        assert(has_range(s));
        let low = choose|m: int| #[trigger] lowest_at(s, m) && s[m].value == range.0;
        let high = choose|m: int| #[trigger] highest_at(s, m) && s[m].value == range.1;
        assert(s[low].value == range.0 && s[high].value == range.1);
    }
    if s[j].value == float_bits::DOUBLE_INFINITY {
        assert(float_bits::double_key(s[j].value) is Some);
        assert(!float_bits::double_is_finite(s[j].value));
    }
}

/// Values that change in steps of one or more are shown without decimals, and each tenth of that
/// takes one more, up to four.
pub proof fn law_decimals(step: u64)
    ensures
        ({
            let size = (step % 0x8000_0000_0000_0000) as u64;
            &&& decimals_of(step) <= 4
            &&& decimals_of(step) == 0 <==> float_bits::double_at_least(size, float_bits::DOUBLE_ONE)
            &&& decimals_of(step) <= 1 <==> float_bits::double_at_least(size, TENTH)
            &&& decimals_of(step) <= 2 <==> float_bits::double_at_least(size, HUNDREDTH)
            &&& decimals_of(step) <= 3 <==> float_bits::double_at_least(size, THOUSANDTH)
        }),
{
}

/// An offset of a minute or more is written in minutes and seconds; a shorter one in seconds,
/// with no decimals from ten on, one from one on, and else two. Its sign has no part in that.
pub proof fn law_time_form(seconds: u64)
    ensures
        ({
            let size = (seconds % 0x8000_0000_0000_0000) as u64;
            let form = time_form_of(seconds);
            &&& form is MinutesSeconds <==> float_bits::double_at_least(size, SIXTY)
            &&& form is MinutesSeconds || form is Whole <==> float_bits::double_at_least(size, TEN)
            &&& !(form is Hundredths) <==> float_bits::double_at_least(size, float_bits::DOUBLE_ONE)
        }),
{
}

/// Whole seconds are written as minutes and seconds that make them up; a negative number has a
/// minus sign before its minutes, where there are any.
pub proof fn law_minutes_seconds(m: nat, s: nat)
    requires
        s < 60,
    ensures
        minutes_seconds_of((60 * m + s) as int) == text::decimal(m) + seq![':'] + text::two_digits(s),
        m > 0 ==> minutes_seconds_of(-((60 * m + s) as int)) == seq!['-'] + (text::decimal(m) + seq![
            ':',
        ] + text::two_digits(s)),
        minutes_seconds_of(-(s as int)) == minutes_seconds_of(s as int),
{
    let total = 60 * m + s;
    assert(total / 60 == m && total % 60 == s) by (nonlinear_arith)
        requires
            total == 60 * m + s,
            s < 60,
    ;
    assert(s / 60 == 0 && s % 60 == s);
    if m > 0 {
        assert(minutes_seconds_of(-(total as int)) =~= seq!['-'] + (text::decimal(m) + seq![':']
            + text::two_digits(s)));
    }
}

/// A slot is listed if and only if it has two samples or more, and drawn if and only if it is
/// switched on besides. The axes go by the slots that are drawn, or by all that are listed when
/// none is.
pub proof fn law_shown_slots(slots: Seq<PlotSlot>, i: int)
    requires
        0 <= i < slots.len(),
    ensures
        listed_slots(slots).contains(i) <==> slots[i].series@.len() >= 2,
        drawn_slots(slots).contains(i) <==> slots[i].series@.len() >= 2 && slots[i].active,
        slots[i].active && slots[i].series@.len() >= 2 ==> range_slots(slots) == drawn_slots(slots),
        (forall|k: int| 0 <= k < slots.len() ==> !(#[trigger] slots[k]).active) ==> range_slots(slots)
            == listed_slots(slots),
{
    lists::lemma_positions_where(slots.len(), has_data(slots));
    lists::lemma_positions_where(slots.len(), is_drawn(slots));
    assert(has_data(slots)(i) == (slots[i].series@.len() >= 2));
    assert(is_drawn(slots)(i) == (slots[i].series@.len() >= 2 && slots[i].active));
    if drawn_slots(slots).contains(i) {
        let k = drawn_slots(slots).index_of(i);
        assert(drawn_slots(slots)[k] == i);
    }
    if forall|k: int| 0 <= k < slots.len() ==> !(#[trigger] slots[k]).active {
        if drawn_slots(slots).len() > 0 {
            let k = drawn_slots(slots)[0];
            assert(is_drawn(slots)(k));
            assert(!slots[k].active);
        }
    }
}

/// What is drawn lies within the times of the plot: no drawn series begins before nor ends after
/// them. The legend tells of each series whether it is on.
pub proof fn law_plan_spans_data(slots: Seq<PlotSlot>, plan: PlotPlan, i: int)
    requires
        is_plan_of(slots, plan),
        0 <= i < slots.len(),
        slots[i].series@.len() >= 2,
    ensures
        slots[i].active ==> plan.data_t_min_ms <= slots[i].series@[0].ts_ms
            && slots[i].series@.last().ts_ms <= plan.data_t_max_ms,
        slots[i].active <==> exists|k: int|
            0 <= k < plan.lines@.len() && (#[trigger] plan.lines@[k]).slot == i,
        exists|k: int|
            0 <= k < plan.legend@.len() && (#[trigger] plan.legend@[k]).slot == i
                && plan.legend@[k].enabled == slots[i].active,
        plan.single matches Some(slot) ==> slots[slot as int].active && plan.lines@.len() == 1,
{
    law_shown_slots(slots, i);
    let drawn = drawn_slots(slots);
    let listed = listed_slots(slots);
    lists::lemma_positions_where(slots.len(), is_drawn(slots));
    if slots[i].active {
        let k = drawn.index_of(i);
        assert(drawn[k] == i);
        assert(range_slots(slots)[k] == i);
        assert(is_line_of(slots, drawn[k], plan.lines@[k]));
    }
    if exists|k: int| 0 <= k < plan.lines@.len() && (#[trigger] plan.lines@[k]).slot == i {
        let k = choose|k: int| 0 <= k < plan.lines@.len() && (#[trigger] plan.lines@[k]).slot == i;
        assert(is_line_of(slots, drawn[k], plan.lines@[k]));
        assert(is_drawn(slots)(drawn[k]));
    }
    let k = listed.index_of(i);
    assert(listed[k] == i);
    assert(is_entry_of(slots, listed[k], plan.legend@[k]));
    if let Some(slot) = plan.single {
        assert(is_drawn(slots)(drawn[0]));
    }
}

/// A view that follows the data shows the whole range of values, a pinned one what it showed
/// unless that was empty; the data's times are noted, and what the user does stays under way.
pub proof fn law_view_follows(view: PlotView, t_min: i64, t_max: i64)
    ensures
        ({
            let now = resolved(view, t_min, t_max);
            &&& !view.user_view ==> now.y_min_frac == 0 && now.y_max_frac == float_bits::SINGLE_ONE
            &&& view.user_view && view.x_min_ms < view.x_max_ms && float_bits::single_less(
                view.y_min_frac,
                view.y_max_frac,
            ) ==> now.y_min_frac == view.y_min_frac && now.y_max_frac == view.y_max_frac
            &&& float_bits::single_at_most(view.y_max_frac, view.y_min_frac) ==> now.y_min_frac == 0
                && now.y_max_frac == float_bits::SINGLE_ONE
            &&& now.data_t_min_ms == t_min && now.data_t_max_ms == t_max
            &&& now.user_view == view.user_view && now.pan_start == view.pan_start
                && now.nav_drag_start == view.nav_drag_start
        }),
{
}

/// Up to five hundred samples are all drawn, and of more every so many that five hundred remain:
/// neighbouring drawn samples are never further apart than that takes.
pub proof fn law_even_decimation(len: nat, i: int)
    requires
        0 <= i < len,
    ensures
        len <= 500 ==> decimation(len).len() == len && decimation(len)[i] == i,
        i + 1 < decimation(len).len() ==> 500 * (decimation(len)[i + 1] - decimation(len)[i]) < len
            + 500,
{
    law_decimation(len);
    let stride = stride_of(len);
    assert(500 * stride <= len + 499 && stride >= 1);
    let count = ((len - 1) / stride as int + 1) as nat;
    let even = Seq::new(count, |i: int| i * stride);
    if len <= 500 {
        assert(stride == 1);
        assert(count == len) by (nonlinear_arith)
            requires
                stride == 1,
                count == ((len - 1) / stride as int + 1) as nat,
                len > 0,
        ;
        assert(even.last() == (count - 1) * stride);
        assert(decimation(len)[i] == i * stride);
        assert(i * stride == i) by (nonlinear_arith)
            requires
                stride == 1,
        ;
        assert((count - 1) * stride == len - 1) by (nonlinear_arith)
            requires
                stride == 1,
                count == len,
        ;
    }
    if i + 1 < decimation(len).len() {
        if i + 1 < count {
            assert(decimation(len)[i + 1] == (i + 1) * stride);
            assert(decimation(len)[i] == i * stride);
            assert((i + 1) * stride - i * stride == stride) by (nonlinear_arith);
        } else {
            assert(i == count - 1);
            assert(decimation(len)[i] == i * stride);
            assert(decimation(len)[i + 1] == len - 1);
            assert((len - 1) - i * stride < stride) by (nonlinear_arith)
                requires
                    i == (len - 1) / stride as int,
                    stride >= 1,
                    len > 0,
            ;
        }
    }
}

/// Before the first sample the cursor shows that one, and after the last sample the last one.
pub proof fn law_hover_beyond(s: Seq<SeriesPoint>, target: i64, k: usize)
    requires
        times_ascend(s),
        2 <= s.len() <= usize::MAX,
        is_pick_of(s, target, HoverPick::Sample(k)),
    ensures
        k == 0 && target <= s[0].ts_ms || k == s.len() - 1 && s.last().ts_ms < target,
{
    let pos = choose|pos: int| #[trigger]
        parts_at_time(s, target, pos) && HoverPick::Sample(k) == pick_at(s.len() as int, pos);
    if pos > 0 {
        assert(s[s.len() - 1].ts_ms < target);
    }
}

/// A slot's hover value is that of the first update for it, and nothing without one.
pub proof fn law_update_found(updates: Seq<(usize, String)>, slot: usize, i: int)
    ensures
        0 <= i < updates.len() && updates[i].0 == slot && (forall|j: int|
            0 <= j < i ==> (#[trigger] updates[j]).0 != slot) ==> update_for(updates, slot)
            == updates[i].1@,
        (forall|j: int| 0 <= j < updates.len() ==> (#[trigger] updates[j]).0 != slot) ==> update_for(
            updates,
            slot,
        ).len() == 0,
    decreases updates.len(),
{
    if updates.len() > 0 {
        let rest = updates.skip(1);
        law_update_found(rest, slot, i - 1);
        assert(forall|j: int| 0 <= j < rest.len() ==> rest[j] == updates[j + 1]);
        if 0 < i < updates.len() && updates[i].0 == slot && (forall|j: int|
            0 <= j < i ==> (#[trigger] updates[j]).0 != slot) {
            assert(updates[0].0 != slot);
            assert forall|j: int| 0 <= j < i - 1 implies (#[trigger] rest[j]).0 != slot by {
                assert(updates[j + 1].0 != slot);
            }
            assert(rest[i - 1] == updates[i]);
        }
        if forall|j: int| 0 <= j < updates.len() ==> (#[trigger] updates[j]).0 != slot {
            assert(updates[0].0 != slot);
            assert forall|j: int| 0 <= j < rest.len() implies (#[trigger] rest[j]).0 != slot by {
                assert(updates[j + 1].0 != slot);
            }
        }
    }
}

/// The tooltip begins with the time and has one line, with name and value, for every series that
/// has a value.
pub proof fn law_tooltip_lines(
    header: Seq<char>,
    legend: Seq<LegendEntry>,
    updates: Seq<(usize, String)>,
    entry: LegendEntry,
)
    ensures
        text::begins_with(tooltip_of(header, legend, updates), "t = "@ + header),
        ({
            let value = update_for(updates, entry.slot_index);
            let before = tooltip_of(header, legend, updates);
            let after = tooltip_of(header, legend.push(entry), updates);
            if value.len() == 0 {
                after == before
            } else {
                &&& text::begins_with(after, before)
                &&& after.skip(before.len() as int) == "\n"@ + entry.label@ + ": "@ + value
            }
        }),
    decreases legend.len(),
{
    reveal_strlit("\n");
    let before = tooltip_of(header, legend, updates);
    let after = tooltip_of(header, legend.push(entry), updates);
    let value = update_for(updates, entry.slot_index);
    assert(legend.push(entry).drop_last() =~= legend);
    assert(after.take(before.len() as int) =~= before);
    if value.len() == 0 {
        assert(after =~= before);
    } else {
        assert(after.skip(before.len() as int) =~= "\n"@ + entry.label@ + ": "@ + value);
    }
    if legend.len() > 0 {
        law_tooltip_lines(header, legend.drop_last(), updates, legend.last());
        assert(legend.drop_last().push(legend.last()) =~= legend);
        let start = "t = "@ + header;
        let part = tooltip_of(header, legend.drop_last(), updates);
        assert(part.take(start.len() as int) =~= start);
        assert(before.take(start.len() as int) =~= start);
    } else {
        assert(before.take(before.len() as int) =~= before);
    }
}

/// The ten colours in turn: blue, green, red, orange, purple, cyan, yellow, brown, lavender and
/// pink, each by its red, green and blue part.
pub proof fn law_palette(i: int)
    requires
        0 <= i < 10,
    ensures
        palette().len() == 10,
        palette()[i][0] == seq![0x42u8, 0x66, 0xef, 0xff, 0xab, 0x26, 0xff, 0x8d, 0x9f, 0xec][i],
        palette()[i][1] == seq![0x9bu8, 0xbb, 0x53, 0xa7, 0x47, 0xc6, 0xca, 0x6e, 0xa8, 0x40][i],
        palette()[i][2] == seq![0xf5u8, 0x6a, 0x50, 0x26, 0xbc, 0xda, 0x28, 0x63, 0xda, 0x7a][i],
{
}

/// The span of two times is at least one millisecond, and their distance where that is more.
pub proof fn law_span(min_ms: i64, max_ms: i64)
    ensures
        span_of(min_ms, max_ms) >= 1,
        span_of(min_ms, max_ms) >= max_ms - min_ms,
        span_of(min_ms, max_ms) == 1 || span_of(min_ms, max_ms) == max_ms - min_ms,
        span_of(min_ms, min_ms) == 1,
{
}

/// Switching a slot changes whether it is shown, and nothing else of it; the other slots stay. A
/// place without a slot changes nothing.
pub proof fn law_toggled(slots: Seq<PlotSlot>, index: i32, k: int)
    ensures
        toggled(slots, index).len() == slots.len(),
        0 <= index < slots.len() ==> toggled(slots, index)[index as int] == (PlotSlot {
            active: !slots[index as int].active,
            ..slots[index as int]
        }),
        0 <= k < slots.len() && k != index ==> toggled(slots, index)[k] == slots[k],
        index < 0 || index >= slots.len() ==> toggled(slots, index) == slots,
{
}

/// A legend entry that shows another value is the same entry in all else.
pub proof fn law_value_shown(before: LegendEntry, now: LegendEntry, value: Seq<char>)
    ensures
        shows(before, now, value) <==> now.hover_value@ == value && now.label == before.label
            && now.color == before.color && now.range == before.range && now.slot_index
            == before.slot_index && now.enabled == before.enabled,
{
}

/// What the cursor shows of a series whose times ascend: the first sample before them all, the last
/// one after them all, and otherwise the two samples that it is between, the earlier one first.
pub proof fn law_picked_samples(s: Seq<SeriesPoint>, target: i64, pick: HoverPick)
    requires
        s.len() > 0,
        s.len() <= usize::MAX,
        times_ascend(s),
        is_pick_of(s, target, pick),
    ensures
        match pick {
            HoverPick::Sample(i) => i < s.len() && ((i == 0 && target <= s[0].ts_ms) || (i == s.len()
                - 1 && s[i as int].ts_ms < target)),
            HoverPick::Between(a, b) => b < s.len() && b == a + 1 && s[a as int].ts_ms < target
                && target <= s[b as int].ts_ms,
        },
{
    let pos = choose|pos: int| #[trigger]
        parts_at_time(s, target, pos) && pick == pick_at(s.len() as int, pos);
    assert(parts_at_time(s, target, pos));
    if pos > 0 {
        assert(s[pos - 1].ts_ms < target);
    }
    if pos < s.len() {
        assert(s[pos].ts_ms >= target);
    }
}

} // verus!
