//! Editing what stands in the room: the coverage views of base stations and of anchors, and the
//! planning view with both and with obstacles. The views find out what the mouse points at and
//! how far it drags; what becomes of the scene is decided here. Numbers are the bits of singles.

use crate::coverage::BaseStation;
use crate::float_bits;
use crate::planning;
use crate::planning::Anchor;
use crate::planning::Obstacle;
use crate::planning::ObstacleKind;
use crate::text;
use vstd::prelude::*;
use vstd::string::*;

verus! {

// ---------------------------------------------------------------------------
// Handles
// ---------------------------------------------------------------------------

/// A handle that can be dragged.
#[derive(Debug, Clone, Copy, PartialEq, Eq, Structural)]
pub enum Handle {
    TranslateX,
    TranslateY,
    TranslateZ,
    RotateAzimuth,
    RotateElevation,
    RotateYaw,
}

/// The axis along which a handle moves things.
pub open spec fn axis_of(handle: Handle) -> Option<int> {
    match handle {
        Handle::TranslateX => Some(0),
        Handle::TranslateY => Some(1),
        Handle::TranslateZ => Some(2),
        _ => None,
    }
}

/// A position with one coordinate replaced.
pub open spec fn moved(pos: [u32; 3], axis: int, value: u32) -> [u32; 3] {
    if axis == 0 {
        [value, pos[1], pos[2]]
    } else if axis == 1 {
        [pos[0], value, pos[2]]
    } else {
        [pos[0], pos[1], value]
    }
}

/// Where a dragged thing goes, for a handle that moves things.
fn dragged_to(handle: Handle, start: [u32; 3], value: u32) -> (to: Option<[u32; 3]>)
    ensures
        to == (match axis_of(handle) {
            Some(axis) => Some(moved(start, axis, value)),
            None => None,
        }),
{
    match handle {
        Handle::TranslateX => Some([value, start[1], start[2]]),
        Handle::TranslateY => Some([start[0], value, start[2]]),
        Handle::TranslateZ => Some([start[0], start[1], value]),
        _ => None,
    }
}

/// The single 90.
pub const RIGHT_ANGLE: u32 = 0x42b4_0000;

/// The single -90.
pub const MINUS_RIGHT_ANGLE: u32 = 0xc2b4_0000;

/// An elevation between straight up and straight down; a NaN stays one.
pub open spec fn clamped_elevation(degrees: u32) -> u32 {
    if float_bits::single_less(degrees, MINUS_RIGHT_ANGLE) {
        MINUS_RIGHT_ANGLE
    } else if float_bits::single_less(RIGHT_ANGLE, degrees) {
        RIGHT_ANGLE
    } else {
        degrees
    }
}

/// An elevation between straight up and straight down.
pub fn clamp_elevation(degrees: u32) -> (r: u32)
    ensures
        r == clamped_elevation(degrees),
{
    if float_bits::less_single(degrees, MINUS_RIGHT_ANGLE) {
        MINUS_RIGHT_ANGLE
    } else if float_bits::less_single(RIGHT_ANGLE, degrees) {
        RIGHT_ANGLE
    } else {
        degrees
    }
}

/// Whether a signed position is one of a list of `len`.
pub open spec fn in_list(index: i32, len: nat) -> bool {
    0 <= index < len
}

fn is_in_list(index: i32, len: usize) -> (r: bool)
    ensures
        r == in_list(index, len as nat),
{
    index >= 0 && (index as usize) < len
}

/// The lists behind a stack of lists.
pub open spec fn lists_of<T>(stack: Seq<Vec<T>>) -> Seq<Seq<T>> {
    Seq::new(stack.len(), |i: int| stack[i]@)
}

proof fn lemma_lists_push<T>(stack: Seq<Vec<T>>, top: Vec<T>)
    ensures
        lists_of(stack.push(top)) == lists_of(stack).push(top@),
{
    assert(lists_of(stack.push(top)) =~= lists_of(stack).push(top@));
}

proof fn lemma_lists_pop<T>(stack: Seq<Vec<T>>)
    requires
        stack.len() > 0,
    ensures
        lists_of(stack.drop_last()) == lists_of(stack).drop_last(),
        lists_of(stack).last() == stack.last()@,
{
    assert(lists_of(stack.drop_last()) =~= lists_of(stack).drop_last());
}

// ---------------------------------------------------------------------------
// Base stations in their coverage view
// ---------------------------------------------------------------------------

/// The base stations of a room while they are edited.
pub struct StationEditor {
    pub stations: Vec<BaseStation>,
    /// The base stations as the view draws them: a station that was added is drawn only once the
    /// coverage was computed again.
    pub drawn: Vec<BaseStation>,
    /// The base stations before each drag.
    pub undo: Vec<Vec<BaseStation>>,
    /// The selected base station; negative when there is none.
    pub selected: i32,
    /// The handle that is dragged.
    pub active: Option<Handle>,
    /// The base station when the drag began.
    pub start: BaseStation,
}

/// What a `StationEditor` holds.
pub struct StationEditorView {
    pub stations: Seq<BaseStation>,
    pub drawn: Seq<BaseStation>,
    pub undo: Seq<Seq<BaseStation>>,
    pub selected: i32,
    pub active: Option<Handle>,
    pub start: BaseStation,
}

impl View for StationEditor {
    type V = StationEditorView;

    open spec fn view(&self) -> StationEditorView {
        StationEditorView {
            stations: self.stations@,
            drawn: self.drawn@,
            undo: lists_of(self.undo@),
            selected: self.selected,
            active: self.active,
            start: self.start,
        }
    }
}

/// A base station that was just added: at (4, 4, 3), looking down by 45 degrees.
pub open spec fn new_station() -> BaseStation {
    BaseStation {
        pos: [0x4080_0000u32, 0x4080_0000u32, 0x4040_0000u32],
        azimuth_deg: 0,
        elevation_deg: 0x4234_0000,
    }
}

/// A base station that was just added: at (4, 4, 3), looking down by 45 degrees.
pub fn added_station() -> (bs: BaseStation)
    ensures
        bs == new_station(),
{
    BaseStation {
        pos: [0x4080_0000, 0x4080_0000, 0x4040_0000],
        azimuth_deg: 0,
        elevation_deg: 0x4234_0000,
    }
}

/// The list without one of its items; as it was when the position is not there.
pub open spec fn without<T>(list: Seq<T>, index: i32) -> Seq<T> {
    if in_list(index, list.len()) {
        list.remove(index as int)
    } else {
        list
    }
}

/// The list with one item replaced; as it was when the position is not there.
pub open spec fn with_item<T>(list: Seq<T>, index: i32, item: T) -> Seq<T> {
    if in_list(index, list.len()) {
        list.update(index as int, item)
    } else {
        list
    }
}

fn remove_at<T>(list: &mut Vec<T>, index: i32)
    ensures
        final(list)@ == without(old(list)@, index),
{
    if is_in_list(index, list.len()) {
        list.remove(index as usize);
    }
}

fn replace_at<T>(list: &mut Vec<T>, index: i32, item: T)
    ensures
        final(list)@ == with_item(old(list)@, index, item),
{
    if is_in_list(index, list.len()) {
        list.set(index as usize, item);
    }
}

/// Whether pressing the mouse takes hold of a handle: only those of a base station that is
/// selected and drawn can be held.
pub open spec fn takes_handle(e: StationEditorView, handle: Option<Handle>) -> bool {
    in_list(e.selected, e.drawn.len()) && handle is Some
}

/// The editor after the mouse was pressed over a handle, or over the base station `hit`.
pub open spec fn pressed(
    e: StationEditorView,
    handle: Option<Handle>,
    hit: i32,
) -> StationEditorView {
    if takes_handle(e, handle) {
        StationEditorView {
            undo: e.undo.push(e.stations),
            active: handle,
            start: e.stations[e.selected as int],
            ..e
        }
    } else {
        StationEditorView { selected: hit, active: None, ..e }
    }
}

/// The base station that is dragged to a new coordinate or angle.
pub open spec fn dragged_station(
    bs: BaseStation,
    handle: Handle,
    start: BaseStation,
    value: u32,
) -> BaseStation {
    match axis_of(handle) {
        Some(axis) => BaseStation { pos: moved(start.pos, axis, value), ..bs },
        None => if handle == Handle::RotateAzimuth {
            BaseStation { azimuth_deg: value, ..bs }
        } else if handle == Handle::RotateElevation {
            BaseStation { elevation_deg: clamped_elevation(value), ..bs }
        } else {
            bs
        },
    }
}

/// A base station as it is drawn after a drag: moved when it was moved, turned when it was
/// turned.
pub open spec fn redrawn(drawn: BaseStation, handle: Handle, bs: BaseStation) -> BaseStation {
    if axis_of(handle) is Some {
        BaseStation { pos: bs.pos, ..drawn }
    } else if handle == Handle::RotateAzimuth || handle == Handle::RotateElevation {
        BaseStation { pos: drawn.pos, ..bs }
    } else {
        drawn
    }
}

/// The editor after the mouse was dragged so far that the held coordinate or angle is `value`;
/// none when the view cannot tell.
pub open spec fn dragged(e: StationEditorView, value: Option<u32>) -> StationEditorView {
    match (e.active, value) {
        (Some(handle), Some(v)) => if in_list(e.selected, e.stations.len()) {
            let i = e.selected as int;
            let bs = dragged_station(e.stations[i], handle, e.start, v);
            StationEditorView {
                stations: e.stations.update(i, bs),
                drawn: e.drawn.update(i, redrawn(e.drawn[i], handle, bs)),
                ..e
            }
        } else {
            e
        },
        _ => e,
    }
}

/// The editor after the last drag was taken back.
pub open spec fn undone(e: StationEditorView) -> StationEditorView {
    if e.undo.len() == 0 {
        e
    } else {
        StationEditorView {
            stations: e.undo.last(),
            drawn: e.undo.last(),
            undo: e.undo.drop_last(),
            ..e
        }
    }
}

fn copied_stations(list: &Vec<BaseStation>) -> (r: Vec<BaseStation>)
    ensures
        r@ == list@,
{
    let r = list.clone();
    assert(r@ =~= list@);
    r
}

impl StationEditor {
    /// An empty room.
    pub fn new() -> (e: StationEditor)
        ensures
            e@.stations == Seq::<BaseStation>::empty(),
            e@.drawn == Seq::<BaseStation>::empty(),
            e@.undo == Seq::<Seq<BaseStation>>::empty(),
            e@.selected == 0 - 1,
            e@.active == None::<Handle>,
            e@.start == (BaseStation {
                pos: [0u32, 0u32, 0u32],
                azimuth_deg: 0,
                elevation_deg: 0,
            }),
    {
        let e = StationEditor {
            stations: Vec::new(),
            drawn: Vec::new(),
            undo: Vec::new(),
            selected: -1,
            active: None,
            start: BaseStation { pos: [0, 0, 0], azimuth_deg: 0, elevation_deg: 0 },
        };
        assert(e@.undo =~= Seq::<Seq<BaseStation>>::empty());
        e
    }

    /// Shows the base stations of a scene that was loaded.
    pub fn load(&mut self, stations: Vec<BaseStation>)
        ensures
            final(self)@ == (StationEditorView {
                stations: stations@,
                drawn: stations@,
                undo: Seq::<Seq<BaseStation>>::empty(),
                selected: (0 - 1) as i32,
                ..old(self)@
            }),
    {
        self.drawn = copied_stations(&stations);
        self.stations = stations;
        self.undo = Vec::new();
        self.selected = -1;
        assert(self@.undo =~= Seq::<Seq<BaseStation>>::empty());
    }

    /// Adds a base station.
    pub fn add_bs(&mut self)
        ensures
            final(self)@ == (StationEditorView {
                stations: old(self)@.stations.push(new_station()),
                ..old(self)@
            }),
    {
        self.stations.push(added_station());
    }

    /// Removes a base station.
    pub fn remove_bs(&mut self, index: i32)
        ensures
            final(self)@ == (StationEditorView {
                stations: without(old(self)@.stations, index),
                ..old(self)@
            }),
    {
        remove_at(&mut self.stations, index);
    }

    /// Takes over the base stations of a geometry. Earlier drags can still be taken back.
    pub fn import(&mut self, stations: Vec<BaseStation>)
        ensures
            final(self)@ == (StationEditorView {
                stations: stations@,
                drawn: stations@,
                selected: (0 - 1) as i32,
                ..old(self)@
            }),
    {
        self.drawn = copied_stations(&stations);
        self.stations = stations;
        self.selected = -1;
    }

    /// Replaces a base station by what was typed.
    pub fn update_bs(&mut self, index: i32, bs: BaseStation)
        ensures
            final(self)@ == (StationEditorView {
                stations: with_item(old(self)@.stations, index, bs),
                ..old(self)@
            }),
    {
        replace_at(&mut self.stations, index, bs);
    }

    /// Draws the base stations as they are, once their coverage was computed.
    pub fn redraw(&mut self)
        ensures
            final(self)@ == (StationEditorView {
                drawn: old(self)@.stations,
                ..old(self)@
            }),
    {
        self.drawn = copied_stations(&self.stations);
    }

    /// The mouse was pressed over a handle of the selected base station, or over the base
    /// station `hit`.
    pub fn view_mouse_pressed(&mut self, handle: Option<Handle>, hit: i32)
        requires
            takes_handle(old(self)@, handle) ==> in_list(
                old(self)@.selected,
                old(self)@.stations.len(),
            ),
        ensures
            final(self)@ == pressed(old(self)@, handle, hit),
    {
        if is_in_list(self.selected, self.drawn.len()) && handle.is_some() {
            let snapshot = copied_stations(&self.stations);
            proof {
                lemma_lists_push(self.undo@, snapshot);
            }
            self.start = self.stations[self.selected as usize];
            self.undo.push(snapshot);
            self.active = handle;
        } else {
            self.selected = hit;
            self.active = None;
        }
    }

    /// The mouse was moved while a handle is held.
    pub fn view_mouse_moved(&mut self, value: Option<u32>)
        requires
            old(self)@.active is Some && in_list(old(self)@.selected, old(self)@.stations.len())
                ==> in_list(old(self)@.selected, old(self)@.drawn.len()),
        ensures
            final(self)@ == dragged(old(self)@, value),
    {
        match (self.active, value) {
            (Some(handle), Some(v)) => {
                if is_in_list(self.selected, self.stations.len()) {
                    let i: usize = self.selected as usize;
                    let mut bs = self.stations[i];
                    let mut shown = self.drawn[i];
                    match dragged_to(handle, self.start.pos, v) {
                        Some(to) => {
                            bs.pos = to;
                            shown.pos = to;
                        },
                        None => {
                            match handle {
                                Handle::RotateAzimuth => {
                                    bs.azimuth_deg = v;
                                    shown.azimuth_deg = bs.azimuth_deg;
                                    shown.elevation_deg = bs.elevation_deg;
                                },
                                Handle::RotateElevation => {
                                    bs.elevation_deg = clamp_elevation(v);
                                    shown.azimuth_deg = bs.azimuth_deg;
                                    shown.elevation_deg = bs.elevation_deg;
                                },
                                _ => {},
                            }
                        },
                    }
                    self.stations.set(i, bs);
                    self.drawn.set(i, shown);
                }
            },
            _ => {},
        }
    }

    /// The mouse was released.
    pub fn view_mouse_released(&mut self)
        ensures
            final(self)@ == (StationEditorView { active: None, ..old(self)@ }),
    {
        self.active = None;
    }

    /// Takes back the last drag.
    pub fn undo(&mut self)
        ensures
            final(self)@ == undone(old(self)@),
    {
        proof {
            if self.undo@.len() > 0 {
                lemma_lists_pop(self.undo@);
            }
        }
        match self.undo.pop() {
            Some(previous) => {
                self.drawn = copied_stations(&previous);
                self.stations = previous;
            },
            None => {},
        }
    }
}

/// The editor after a whole drag.
pub open spec fn dragged_through(
    e: StationEditorView,
    values: Seq<Option<u32>>,
) -> StationEditorView
    decreases values.len(),
{
    if values.len() == 0 {
        e
    } else {
        dragged(dragged_through(e, values.drop_last()), values.last())
    }
}

/// However a base station was dragged, one undo brings all of them back to where they were when
/// the handle was taken, and leaves the earlier drags to be taken back.
pub proof fn law_undo_takes_drag_back(
    e: StationEditorView,
    handle: Option<Handle>,
    hit: i32,
    values: Seq<Option<u32>>,
)
    requires
        takes_handle(e, handle),
    ensures
        undone(dragged_through(pressed(e, handle, hit), values)).stations == e.stations,
        undone(dragged_through(pressed(e, handle, hit), values)).undo == e.undo,
{
    lemma_drag_keeps_undo(pressed(e, handle, hit), values);
    assert(e.undo.push(e.stations).drop_last() =~= e.undo);
}

proof fn lemma_drag_keeps_undo(e: StationEditorView, values: Seq<Option<u32>>)
    ensures
        dragged_through(e, values).undo == e.undo,
    decreases values.len(),
{
    if values.len() > 0 {
        lemma_drag_keeps_undo(e, values.drop_last());
    }
}

/// Dragging a base station leaves every other one where it is.
pub proof fn law_drag_moves_one(e: StationEditorView, value: Option<u32>, i: int)
    requires
        0 <= i < e.stations.len(),
        i != e.selected,
    ensures
        dragged(e, value).stations.len() == e.stations.len(),
        dragged(e, value).stations[i] == e.stations[i],
{
}

// ---------------------------------------------------------------------------
// Anchors in their coverage view
// ---------------------------------------------------------------------------

/// The anchors of a room while they are edited.
pub struct AnchorEditor {
    pub anchors: Vec<Anchor>,
    /// The anchors as the view draws them.
    pub drawn: Vec<Anchor>,
    /// The anchors before each one that was added or removed.
    pub undo: Vec<Vec<Anchor>>,
    /// The selected anchor; negative when there is none.
    pub selected: i32,
    /// The handle that is dragged.
    pub active: Option<Handle>,
    /// Where the anchor was when the drag began.
    pub start: [u32; 3],
}

/// What an `AnchorEditor` holds.
pub struct AnchorEditorView {
    pub anchors: Seq<Anchor>,
    pub drawn: Seq<Anchor>,
    pub undo: Seq<Seq<Anchor>>,
    pub selected: i32,
    pub active: Option<Handle>,
    pub start: [u32; 3],
}

impl View for AnchorEditor {
    type V = AnchorEditorView;

    open spec fn view(&self) -> AnchorEditorView {
        AnchorEditorView {
            anchors: self.anchors@,
            drawn: self.drawn@,
            undo: lists_of(self.undo@),
            selected: self.selected,
            active: self.active,
            start: self.start,
        }
    }
}

/// An anchor that was just added: at (0, 0, 2.5).
pub open spec fn new_anchor() -> Anchor {
    Anchor { pos: [0u32, 0u32, 0x4020_0000u32] }
}

/// An anchor that was just added: at (0, 0, 2.5).
pub fn added_anchor() -> (a: Anchor)
    ensures
        a == new_anchor(),
{
    Anchor { pos: [0, 0, 0x4020_0000] }
}

/// The editor with one anchor more.
pub open spec fn anchor_added(e: AnchorEditorView) -> AnchorEditorView {
    AnchorEditorView {
        anchors: e.anchors.push(new_anchor()),
        undo: e.undo.push(e.anchors),
        ..e
    }
}

/// The editor without one of its anchors.
pub open spec fn anchor_removed(e: AnchorEditorView, index: i32) -> AnchorEditorView {
    if in_list(index, e.anchors.len()) {
        AnchorEditorView {
            anchors: e.anchors.remove(index as int),
            undo: e.undo.push(e.anchors),
            selected: (0 - 1) as i32,
            ..e
        }
    } else {
        e
    }
}

/// The editor after the last change to the number of anchors was taken back.
pub open spec fn anchor_undone(e: AnchorEditorView) -> AnchorEditorView {
    if e.undo.len() == 0 {
        e
    } else {
        AnchorEditorView {
            anchors: e.undo.last(),
            undo: e.undo.drop_last(),
            selected: (0 - 1) as i32,
            ..e
        }
    }
}

/// The editor after the mouse was pressed over a handle, or over the anchor `hit`.
pub open spec fn anchor_pressed(
    e: AnchorEditorView,
    handle: Option<Handle>,
    hit: i32,
) -> AnchorEditorView {
    if in_list(e.selected, e.drawn.len()) && handle is Some {
        AnchorEditorView { active: handle, start: e.drawn[e.selected as int].pos, ..e }
    } else {
        AnchorEditorView { selected: hit, active: None, ..e }
    }
}

/// The editor after the mouse was dragged so far that the held coordinate is `value`.
pub open spec fn anchor_dragged(e: AnchorEditorView, value: Option<u32>) -> AnchorEditorView {
    match (e.active, value) {
        (Some(handle), Some(v)) => if in_list(e.selected, e.anchors.len()) && axis_of(
            handle,
        ) is Some {
            let a = Anchor { pos: moved(e.start, axis_of(handle)->0, v) };
            AnchorEditorView {
                anchors: e.anchors.update(e.selected as int, a),
                drawn: e.drawn.update(e.selected as int, a),
                ..e
            }
        } else {
            e
        },
        _ => e,
    }
}

fn copied_anchors(list: &Vec<Anchor>) -> (r: Vec<Anchor>)
    ensures
        r@ == list@,
{
    let r = list.clone();
    assert(r@ =~= list@);
    r
}

impl AnchorEditor {
    /// An empty room.
    pub fn new() -> (e: AnchorEditor)
        ensures
            e@.anchors == Seq::<Anchor>::empty(),
            e@.drawn == Seq::<Anchor>::empty(),
            e@.undo == Seq::<Seq<Anchor>>::empty(),
            e@.selected == 0 - 1,
            e@.active == None::<Handle>,
            e@.start == [0u32, 0u32, 0u32],
    {
        let e = AnchorEditor {
            anchors: Vec::new(),
            drawn: Vec::new(),
            undo: Vec::new(),
            selected: -1,
            active: None,
            start: [0, 0, 0],
        };
        assert(e@.undo =~= Seq::<Seq<Anchor>>::empty());
        e
    }

    /// Takes the anchors of a scene that was loaded.
    pub fn load(&mut self, anchors: Vec<Anchor>)
        ensures
            final(self)@ == (AnchorEditorView { anchors: anchors@, ..old(self)@ }),
    {
        self.anchors = anchors;
    }

    /// Adds an anchor.
    pub fn add_anchor(&mut self)
        ensures
            final(self)@ == anchor_added(old(self)@),
    {
        let snapshot = copied_anchors(&self.anchors);
        proof {
            lemma_lists_push(self.undo@, snapshot);
        }
        self.undo.push(snapshot);
        self.anchors.push(added_anchor());
    }

    /// Removes an anchor.
    pub fn remove_anchor(&mut self, index: i32)
        ensures
            final(self)@ == anchor_removed(old(self)@, index),
    {
        if is_in_list(index, self.anchors.len()) {
            let snapshot = copied_anchors(&self.anchors);
            proof {
                lemma_lists_push(self.undo@, snapshot);
            }
            self.undo.push(snapshot);
            self.anchors.remove(index as usize);
            self.selected = -1;
        }
    }

    /// Replaces an anchor by what was typed.
    pub fn update_anchor(&mut self, index: i32, a: Anchor)
        ensures
            final(self)@ == (AnchorEditorView {
                anchors: with_item(old(self)@.anchors, index, a),
                ..old(self)@
            }),
    {
        replace_at(&mut self.anchors, index, a);
    }

    /// Draws the anchors as they are, once their coverage was computed.
    pub fn redraw(&mut self)
        ensures
            final(self)@ == (AnchorEditorView { drawn: old(self)@.anchors, ..old(self)@ }),
    {
        self.drawn = copied_anchors(&self.anchors);
    }

    /// The mouse was pressed over a handle of the selected anchor, or over the anchor `hit`.
    pub fn view_mouse_pressed(&mut self, handle: Option<Handle>, hit: i32)
        ensures
            final(self)@ == anchor_pressed(old(self)@, handle, hit),
    {
        if is_in_list(self.selected, self.drawn.len()) && handle.is_some() {
            self.start = self.drawn[self.selected as usize].pos;
            self.active = handle;
        } else {
            self.selected = hit;
            self.active = None;
        }
    }

    /// The mouse was moved while a handle is held.
    pub fn view_mouse_moved(&mut self, value: Option<u32>)
        requires
            old(self)@.active is Some && in_list(old(self)@.selected, old(self)@.anchors.len())
                ==> in_list(old(self)@.selected, old(self)@.drawn.len()),
        ensures
            final(self)@ == anchor_dragged(old(self)@, value),
    {
        match (self.active, value) {
            (Some(handle), Some(v)) => {
                if is_in_list(self.selected, self.anchors.len()) {
                    let i: usize = self.selected as usize;
                    match dragged_to(handle, self.start, v) {
                        Some(to) => {
                            self.anchors.set(i, Anchor { pos: to });
                            self.drawn.set(i, Anchor { pos: to });
                        },
                        None => {},
                    }
                }
            },
            _ => {},
        }
    }

    /// The mouse was released.
    pub fn view_mouse_released(&mut self)
        ensures
            final(self)@ == (AnchorEditorView { active: None, ..old(self)@ }),
    {
        self.active = None;
    }

    /// Takes back the last anchor that was added or removed.
    pub fn undo(&mut self)
        ensures
            final(self)@ == anchor_undone(old(self)@),
    {
        proof {
            if self.undo@.len() > 0 {
                lemma_lists_pop(self.undo@);
            }
        }
        match self.undo.pop() {
            Some(previous) => {
                self.anchors = previous;
                self.selected = -1;
            },
            None => {},
        }
    }
}

/// Undo after adding an anchor, or after removing one, brings the anchors back.
pub proof fn law_undo_restores_anchors(e: AnchorEditorView, index: i32)
    ensures
        anchor_undone(anchor_added(e)).anchors == e.anchors,
        anchor_undone(anchor_added(e)).undo == e.undo,
        in_list(index, e.anchors.len()) ==> anchor_undone(anchor_removed(e, index)).anchors
            == e.anchors,
        in_list(index, e.anchors.len()) ==> anchor_undone(anchor_removed(e, index)).undo == e.undo,
{
    assert(e.undo.push(e.anchors).drop_last() =~= e.undo);
}

// ---------------------------------------------------------------------------
// The planning view
// ---------------------------------------------------------------------------

/// What is selected in the planning view.
#[derive(Debug, Clone, Copy, PartialEq, Eq, Structural)]
pub enum Selection {
    Nothing,
    Station(i32),
    Anchor(i32),
    Obstacle(i32),
}

/// All that stands in a planned room.
pub struct PlannedRoom {
    pub stations: Vec<BaseStation>,
    pub anchors: Vec<Anchor>,
    pub obstacles: Vec<Obstacle>,
}

/// What a `PlannedRoom` holds.
pub struct PlannedRoomView {
    pub stations: Seq<BaseStation>,
    pub anchors: Seq<Anchor>,
    pub obstacles: Seq<Obstacle>,
}

impl View for PlannedRoom {
    type V = PlannedRoomView;

    open spec fn view(&self) -> PlannedRoomView {
        PlannedRoomView {
            stations: self.stations@,
            anchors: self.anchors@,
            obstacles: self.obstacles@,
        }
    }
}

/// Where the dragged thing was when the drag began.
#[derive(Debug, Clone, Copy)]
pub struct DragStart {
    pub pos: [u32; 3],
    pub azimuth_deg: u32,
    pub elevation_deg: u32,
    pub yaw_deg: u32,
}

/// A planned room while it is edited.
pub struct PlanningEditor {
    pub room: PlannedRoom,
    pub selection: Selection,
    /// The handle that is dragged.
    pub active: Option<Handle>,
    pub start: DragStart,
    /// Whether the coverage is being computed.
    pub computing: bool,
}

/// What a `PlanningEditor` holds.
pub struct PlanningEditorView {
    pub room: PlannedRoomView,
    pub selection: Selection,
    pub active: Option<Handle>,
    pub start: DragStart,
    pub computing: bool,
}

impl View for PlanningEditor {
    type V = PlanningEditorView;

    open spec fn view(&self) -> PlanningEditorView {
        PlanningEditorView {
            room: self.room@,
            selection: self.selection,
            active: self.active,
            start: self.start,
            computing: self.computing,
        }
    }
}

/// Whether the selected thing is there.
pub open spec fn is_there(room: PlannedRoomView, selection: Selection) -> bool {
    match selection {
        Selection::Nothing => false,
        Selection::Station(i) => in_list(i, room.stations.len()),
        Selection::Anchor(i) => in_list(i, room.anchors.len()),
        Selection::Obstacle(i) => in_list(i, room.obstacles.len()),
    }
}

/// What the drag of the selected thing starts from; what a thing does not have stays as it was.
pub open spec fn started(
    room: PlannedRoomView,
    selection: Selection,
    before: DragStart,
) -> DragStart {
    match selection {
        Selection::Nothing => before,
        Selection::Station(i) => DragStart {
            pos: room.stations[i as int].pos,
            azimuth_deg: room.stations[i as int].azimuth_deg,
            elevation_deg: room.stations[i as int].elevation_deg,
            ..before
        },
        Selection::Anchor(i) => DragStart { pos: room.anchors[i as int].pos, ..before },
        Selection::Obstacle(i) => DragStart {
            pos: room.obstacles[i as int].pos,
            yaw_deg: room.obstacles[i as int].yaw_deg,
            ..before
        },
    }
}

/// What the mouse points at: the first hit among base stations, anchors and obstacles.
pub open spec fn hit_by(station: i32, anchor: i32, obstacle: i32) -> Selection {
    if station >= 0 {
        Selection::Station(station)
    } else if anchor >= 0 {
        Selection::Anchor(anchor)
    } else if obstacle >= 0 {
        Selection::Obstacle(obstacle)
    } else {
        Selection::Nothing
    }
}

/// The editor after the mouse was pressed.
pub open spec fn planning_pressed(
    e: PlanningEditorView,
    handle: Option<Handle>,
    station: i32,
    anchor: i32,
    obstacle: i32,
) -> PlanningEditorView {
    if is_there(e.room, e.selection) && handle is Some {
        PlanningEditorView {
            active: handle,
            start: started(e.room, e.selection, e.start),
            ..e
        }
    } else {
        PlanningEditorView { selection: hit_by(station, anchor, obstacle), ..e }
    }
}

/// The room after the selected thing was dragged. A base station can be moved and turned both
/// ways, an anchor moved, an obstacle moved and turned about the vertical; other handles do
/// nothing.
pub open spec fn room_dragged(
    room: PlannedRoomView,
    selection: Selection,
    handle: Handle,
    start: DragStart,
    value: u32,
) -> PlannedRoomView {
    match selection {
        Selection::Nothing => room,
        Selection::Station(i) => {
            let bs = room.stations[i as int];
            PlannedRoomView {
                stations: with_item(
                    room.stations,
                    i,
                    match axis_of(handle) {
                        Some(axis) => BaseStation { pos: moved(start.pos, axis, value), ..bs },
                        None => if handle == Handle::RotateAzimuth {
                            BaseStation { azimuth_deg: value, ..bs }
                        } else if handle == Handle::RotateElevation {
                            BaseStation { elevation_deg: value, ..bs }
                        } else {
                            bs
                        },
                    },
                ),
                ..room
            }
        },
        Selection::Anchor(i) => PlannedRoomView {
            anchors: with_item(
                room.anchors,
                i,
                match axis_of(handle) {
                    Some(axis) => Anchor { pos: moved(start.pos, axis, value) },
                    None => room.anchors[i as int],
                },
            ),
            ..room
        },
        Selection::Obstacle(i) => {
            let o = room.obstacles[i as int];
            PlannedRoomView {
                obstacles: with_item(
                    room.obstacles,
                    i,
                    match axis_of(handle) {
                        Some(axis) => Obstacle { pos: moved(start.pos, axis, value), ..o },
                        None => if handle == Handle::RotateYaw {
                            Obstacle { yaw_deg: value, ..o }
                        } else {
                            o
                        },
                    },
                ),
                ..room
            }
        },
    }
}

/// The editor after the mouse was dragged so far that the held coordinate or angle is `value`.
pub open spec fn planning_dragged(e: PlanningEditorView, value: u32) -> PlanningEditorView {
    match e.active {
        Some(handle) => PlanningEditorView {
            room: room_dragged(e.room, e.selection, handle, e.start, value),
            ..e
        },
        None => e,
    }
}

/// A list with a copy of one item, put half a metre aside, at its end.
pub open spec fn station_duplicated(list: Seq<BaseStation>, index: i32, x: u32) -> Seq<
    BaseStation,
> {
    if in_list(index, list.len()) {
        let bs = list[index as int];
        list.push(BaseStation { pos: moved(bs.pos, 0, x), ..bs })
    } else {
        list
    }
}

/// A list with a copy of one item, put half a metre aside, at its end.
pub open spec fn anchor_duplicated(list: Seq<Anchor>, index: i32, x: u32) -> Seq<Anchor> {
    if in_list(index, list.len()) {
        list.push(Anchor { pos: moved(list[index as int].pos, 0, x) })
    } else {
        list
    }
}

/// A list with a copy of one item, put half a metre aside, at its end.
pub open spec fn obstacle_duplicated(list: Seq<Obstacle>, index: i32, x: u32) -> Seq<Obstacle> {
    if in_list(index, list.len()) {
        let o = list[index as int];
        list.push(Obstacle { pos: moved(o.pos, 0, x), ..o })
    } else {
        list
    }
}

/// The shape that a name stands for: a cylinder, or else a box.
pub fn kind_from_name(name: &str) -> (kind: ObstacleKind)
    ensures
        kind == (if name@ == "Cylinder"@ {
            ObstacleKind::Cylinder
        } else {
            ObstacleKind::Box
        }),
{
    if text::same_text(name, "Cylinder") {
        ObstacleKind::Cylinder
    } else {
        ObstacleKind::Box
    }
}

/// The name of a shape.
pub fn kind_name(kind: ObstacleKind) -> (name: &'static str)
    ensures
        name@ == (match kind {
            ObstacleKind::Box => "Box"@,
            ObstacleKind::Cylinder => "Cylinder"@,
        }),
{
    match kind {
        ObstacleKind::Box => "Box",
        ObstacleKind::Cylinder => "Cylinder",
    }
}

/// An obstacle as it was typed, with its bottom on the floor where it belongs there.
pub open spec fn grounded(o: Obstacle, half_height: u32) -> Obstacle {
    if o.on_floor {
        Obstacle { pos: moved(o.pos, 2, half_height), ..o }
    } else {
        o
    }
}

impl PlanningEditor {
    /// An empty room.
    pub fn new() -> (e: PlanningEditor)
        ensures
            e@.room == (PlannedRoomView {
                stations: Seq::<BaseStation>::empty(),
                anchors: Seq::<Anchor>::empty(),
                obstacles: Seq::<Obstacle>::empty(),
            }),
            e@.selection == Selection::Nothing,
            e@.active == None::<Handle>,
            e@.start == (DragStart {
                pos: [0u32, 0u32, 0u32],
                azimuth_deg: 0,
                elevation_deg: 0,
                yaw_deg: 0,
            }),
            !e@.computing,
    {
        PlanningEditor {
            room: PlannedRoom { stations: Vec::new(), anchors: Vec::new(), obstacles: Vec::new() },
            selection: Selection::Nothing,
            active: None,
            start: DragStart { pos: [0, 0, 0], azimuth_deg: 0, elevation_deg: 0, yaw_deg: 0 },
            computing: false,
        }
    }

    /// Shows a room that was loaded, with nothing selected.
    pub fn load(&mut self, room: PlannedRoom)
        ensures
            final(self)@ == (PlanningEditorView {
                room: room@,
                selection: Selection::Nothing,
                ..old(self)@
            }),
    {
        self.room = room;
        self.selection = Selection::Nothing;
    }

    /// Takes over the base stations of another scene.
    pub fn import_stations(&mut self, stations: Vec<BaseStation>)
        ensures
            final(self)@ == (PlanningEditorView {
                room: PlannedRoomView { stations: stations@, ..old(self)@.room },
                ..old(self)@
            }),
    {
        self.room.stations = stations;
    }

    /// Takes over the anchors of another scene.
    pub fn import_anchors(&mut self, anchors: Vec<Anchor>)
        ensures
            final(self)@ == (PlanningEditorView {
                room: PlannedRoomView { anchors: anchors@, ..old(self)@.room },
                ..old(self)@
            }),
    {
        self.room.anchors = anchors;
    }

    /// Adds a base station.
    pub fn add_bs(&mut self)
        ensures
            final(self)@ == (PlanningEditorView {
                room: PlannedRoomView {
                    stations: old(self)@.room.stations.push(new_station()),
                    ..old(self)@.room
                },
                ..old(self)@
            }),
    {
        self.room.stations.push(added_station());
    }

    /// Adds an anchor.
    pub fn add_anchor(&mut self)
        ensures
            final(self)@ == (PlanningEditorView {
                room: PlannedRoomView {
                    anchors: old(self)@.room.anchors.push(new_anchor()),
                    ..old(self)@.room
                },
                ..old(self)@
            }),
    {
        self.room.anchors.push(added_anchor());
    }

    /// Adds a box or a cylinder of one metre, standing on the floor at (2, 2).
    pub fn add_obstacle(&mut self, kind: ObstacleKind)
        ensures
            final(self)@.room.obstacles.len() == old(self)@.room.obstacles.len() + 1,
            final(self)@.room.obstacles.drop_last() == old(self)@.room.obstacles,
            final(self)@.room.obstacles.last() == (Obstacle {
                kind,
                pos: [0x4000_0000u32, 0x4000_0000u32, planning::HALF],
                yaw_deg: 0,
                width: if kind == ObstacleKind::Box {
                    planning::ONE
                } else {
                    0
                },
                depth: if kind == ObstacleKind::Box {
                    planning::ONE
                } else {
                    0
                },
                height: planning::ONE,
                radius: if kind == ObstacleKind::Box {
                    0
                } else {
                    planning::HALF
                },
                color: [0x3ee6_6666u32, 0x3ee6_6666u32, planning::HALF],
                on_floor: true,
            }),
            final(self)@ == (PlanningEditorView {
                room: PlannedRoomView {
                    obstacles: final(self)@.room.obstacles,
                    ..old(self)@.room
                },
                ..old(self)@
            }),
    {
        let o = match kind {
            ObstacleKind::Box => Obstacle::new_box([0x4000_0000, 0x4000_0000, planning::HALF]),
            ObstacleKind::Cylinder => Obstacle::new_cylinder(
                [0x4000_0000, 0x4000_0000, planning::HALF],
            ),
        };
        self.room.obstacles.push(o);
        assert(self.room.obstacles@.drop_last() =~= old(self).room.obstacles@);
    }

    /// Removes a base station.
    pub fn remove_bs(&mut self, index: i32)
        ensures
            final(self)@ == (PlanningEditorView {
                room: PlannedRoomView {
                    stations: without(old(self)@.room.stations, index),
                    ..old(self)@.room
                },
                ..old(self)@
            }),
    {
        remove_at(&mut self.room.stations, index);
    }

    /// Removes an anchor.
    pub fn remove_anchor(&mut self, index: i32)
        ensures
            final(self)@ == (PlanningEditorView {
                room: PlannedRoomView {
                    anchors: without(old(self)@.room.anchors, index),
                    ..old(self)@.room
                },
                ..old(self)@
            }),
    {
        remove_at(&mut self.room.anchors, index);
    }

    /// Removes an obstacle.
    pub fn remove_obstacle(&mut self, index: i32)
        ensures
            final(self)@ == (PlanningEditorView {
                room: PlannedRoomView {
                    obstacles: without(old(self)@.room.obstacles, index),
                    ..old(self)@.room
                },
                ..old(self)@
            }),
    {
        remove_at(&mut self.room.obstacles, index);
    }

    /// Copies a base station to the coordinate `x`.
    pub fn duplicate_bs(&mut self, index: i32, x: u32)
        ensures
            final(self)@ == (PlanningEditorView {
                room: PlannedRoomView {
                    stations: station_duplicated(old(self)@.room.stations, index, x),
                    ..old(self)@.room
                },
                ..old(self)@
            }),
    {
        if is_in_list(index, self.room.stations.len()) {
            let mut bs = self.room.stations[index as usize];
            bs.pos = [x, bs.pos[1], bs.pos[2]];
            self.room.stations.push(bs);
        }
    }

    /// Copies an anchor to the coordinate `x`.
    pub fn duplicate_anchor(&mut self, index: i32, x: u32)
        ensures
            final(self)@ == (PlanningEditorView {
                room: PlannedRoomView {
                    anchors: anchor_duplicated(old(self)@.room.anchors, index, x),
                    ..old(self)@.room
                },
                ..old(self)@
            }),
    {
        if is_in_list(index, self.room.anchors.len()) {
            let mut a = self.room.anchors[index as usize];
            a.pos = [x, a.pos[1], a.pos[2]];
            self.room.anchors.push(a);
        }
    }

    /// Copies an obstacle to the coordinate `x`.
    pub fn duplicate_obstacle(&mut self, index: i32, x: u32)
        ensures
            final(self)@ == (PlanningEditorView {
                room: PlannedRoomView {
                    obstacles: obstacle_duplicated(old(self)@.room.obstacles, index, x),
                    ..old(self)@.room
                },
                ..old(self)@
            }),
    {
        if is_in_list(index, self.room.obstacles.len()) {
            let mut o = self.room.obstacles[index as usize];
            o.pos = [x, o.pos[1], o.pos[2]];
            self.room.obstacles.push(o);
        }
    }

    /// Replaces a base station by what was typed.
    pub fn update_bs(&mut self, index: i32, bs: BaseStation)
        ensures
            final(self)@ == (PlanningEditorView {
                room: PlannedRoomView {
                    stations: with_item(old(self)@.room.stations, index, bs),
                    ..old(self)@.room
                },
                ..old(self)@
            }),
    {
        replace_at(&mut self.room.stations, index, bs);
    }

    /// Replaces an anchor by what was typed.
    pub fn update_anchor(&mut self, index: i32, a: Anchor)
        ensures
            final(self)@ == (PlanningEditorView {
                room: PlannedRoomView {
                    anchors: with_item(old(self)@.room.anchors, index, a),
                    ..old(self)@.room
                },
                ..old(self)@
            }),
    {
        replace_at(&mut self.room.anchors, index, a);
    }

    /// Replaces an obstacle by what was typed; one that belongs on the floor is put there, with
    /// its centre at half its height.
    pub fn update_obstacle(&mut self, index: i32, o: Obstacle, half_height: u32)
        ensures
            final(self)@ == (PlanningEditorView {
                room: PlannedRoomView {
                    obstacles: with_item(
                        old(self)@.room.obstacles,
                        index,
                        grounded(o, half_height),
                    ),
                    ..old(self)@.room
                },
                ..old(self)@
            }),
    {
        let mut placed = o;
        if o.on_floor {
            placed.pos = [o.pos[0], o.pos[1], half_height];
        }
        replace_at(&mut self.room.obstacles, index, placed);
    }

    /// The mouse was pressed, over a handle of the selected thing or over things of each kind.
    pub fn view_mouse_pressed(
        &mut self,
        handle: Option<Handle>,
        station: i32,
        anchor: i32,
        obstacle: i32,
    )
        ensures
            final(self)@ == planning_pressed(old(self)@, handle, station, anchor, obstacle),
    {
        let there = match self.selection {
            Selection::Nothing => false,
            Selection::Station(i) => is_in_list(i, self.room.stations.len()),
            Selection::Anchor(i) => is_in_list(i, self.room.anchors.len()),
            Selection::Obstacle(i) => is_in_list(i, self.room.obstacles.len()),
        };
        if there && handle.is_some() {
            match self.selection {
                Selection::Nothing => {},
                Selection::Station(i) => {
                    let bs = self.room.stations[i as usize];
                    self.start.pos = bs.pos;
                    self.start.azimuth_deg = bs.azimuth_deg;
                    self.start.elevation_deg = bs.elevation_deg;
                },
                Selection::Anchor(i) => {
                    self.start.pos = self.room.anchors[i as usize].pos;
                },
                Selection::Obstacle(i) => {
                    let o = self.room.obstacles[i as usize];
                    self.start.pos = o.pos;
                    self.start.yaw_deg = o.yaw_deg;
                },
            }
            self.active = handle;
        } else if station >= 0 {
            self.selection = Selection::Station(station);
        } else if anchor >= 0 {
            self.selection = Selection::Anchor(anchor);
        } else if obstacle >= 0 {
            self.selection = Selection::Obstacle(obstacle);
        } else {
            self.selection = Selection::Nothing;
        }
    }

    /// The mouse was moved while a handle is held.
    pub fn view_mouse_moved(&mut self, value: u32)
        ensures
            final(self)@ == planning_dragged(old(self)@, value),
    {
        match self.active {
            Some(handle) => {
                let to = dragged_to(handle, self.start.pos, value);
                match self.selection {
                    Selection::Nothing => {},
                    Selection::Station(i) => {
                        if is_in_list(i, self.room.stations.len()) {
                            let mut bs = self.room.stations[i as usize];
                            match to {
                                Some(pos) => {
                                    bs.pos = pos;
                                },
                                None => {
                                    match handle {
                                        Handle::RotateAzimuth => {
                                            bs.azimuth_deg = value;
                                        },
                                        Handle::RotateElevation => {
                                            bs.elevation_deg = value;
                                        },
                                        _ => {},
                                    }
                                },
                            }
                            self.room.stations.set(i as usize, bs);
                        }
                    },
                    Selection::Anchor(i) => {
                        if is_in_list(i, self.room.anchors.len()) {
                            let mut a = self.room.anchors[i as usize];
                            match to {
                                Some(pos) => {
                                    a.pos = pos;
                                },
                                None => {},
                            }
                            self.room.anchors.set(i as usize, a);
                        }
                    },
                    Selection::Obstacle(i) => {
                        if is_in_list(i, self.room.obstacles.len()) {
                            let mut o = self.room.obstacles[i as usize];
                            match to {
                                Some(pos) => {
                                    o.pos = pos;
                                },
                                None => {
                                    match handle {
                                        Handle::RotateYaw => {
                                            o.yaw_deg = value;
                                        },
                                        _ => {},
                                    }
                                },
                            }
                            self.room.obstacles.set(i as usize, o);
                        }
                    },
                }
            },
            None => {},
        }
    }

    /// The mouse was released.
    pub fn view_mouse_released(&mut self)
        ensures
            final(self)@ == (PlanningEditorView { active: None, ..old(self)@ }),
    {
        self.active = None;
    }

    /// Begins to compute the coverage, unless it is being computed already.
    pub fn begin_recompute(&mut self) -> (begun: bool)
        ensures
            begun == !old(self)@.computing,
            final(self)@ == (PlanningEditorView { computing: true, ..old(self)@ }),
    {
        let begun = !self.computing;
        self.computing = true;
        begun
    }

    /// The coverage was computed.
    pub fn finish_recompute(&mut self)
        ensures
            final(self)@ == (PlanningEditorView { computing: false, ..old(self)@ }),
    {
        self.computing = false;
    }
}

/// Dragging changes no more than the selected thing: what is not selected stays as it is, and
/// nothing is added or removed.
pub proof fn law_planning_drag(e: PlanningEditorView, value: u32)
    ensures
        ({
            let after = planning_dragged(e, value).room;
            &&& after.stations.len() == e.room.stations.len()
            &&& after.anchors.len() == e.room.anchors.len()
            &&& after.obstacles.len() == e.room.obstacles.len()
            &&& forall|i: int|
                0 <= i < e.room.stations.len() && e.selection != Selection::Station(i as i32)
                    ==> #[trigger] after.stations[i] == e.room.stations[i]
            &&& forall|i: int|
                0 <= i < e.room.anchors.len() && e.selection != Selection::Anchor(i as i32)
                    ==> #[trigger] after.anchors[i] == e.room.anchors[i]
            &&& forall|i: int|
                0 <= i < e.room.obstacles.len() && e.selection != Selection::Obstacle(i as i32)
                    ==> #[trigger] after.obstacles[i] == e.room.obstacles[i]
        }),
{
}

/// A copy that is removed again leaves the list as it was.
pub proof fn law_duplicate_then_remove(list: Seq<Obstacle>, index: i32, x: u32)
    requires
        in_list(index, list.len()),
        list.len() < i32::MAX,
    ensures
        without(obstacle_duplicated(list, index, x), list.len() as i32) == list,
{
    assert(obstacle_duplicated(list, index, x).remove(list.len() as int) =~= list);
}

/// A handle along an axis sets the coordinate of its own axis and leaves the other two where the
/// drag began; handles that turn have no axis.
pub proof fn law_handle_moves(start: [u32; 3], value: u32)
    ensures
        axis_of(Handle::TranslateX) matches Some(a) && moved(start, a, value) == [
            value,
            start[1],
            start[2],
        ],
        axis_of(Handle::TranslateY) matches Some(a) && moved(start, a, value) == [
            start[0],
            value,
            start[2],
        ],
        axis_of(Handle::TranslateZ) matches Some(a) && moved(start, a, value) == [
            start[0],
            start[1],
            value,
        ],
        axis_of(Handle::RotateAzimuth) is None,
        axis_of(Handle::RotateElevation) is None,
        axis_of(Handle::RotateYaw) is None,
{
}

/// An elevation is kept if it lies between -90 and 90 degrees; beyond them it becomes the nearer
/// of the two.
pub proof fn law_elevation_kept(degrees: u32)
    ensures
        float_bits::single_at_most(0xc2b4_0000, degrees) && float_bits::single_at_most(
            degrees,
            0x42b4_0000,
        ) ==> clamped_elevation(degrees) == degrees,
        float_bits::single_less(degrees, 0xc2b4_0000) ==> clamped_elevation(degrees) == 0xc2b4_0000,
        float_bits::single_less(0x42b4_0000, degrees) ==> clamped_elevation(degrees) == 0x42b4_0000,
        !float_bits::single_less(clamped_elevation(degrees), 0xc2b4_0000),
        !float_bits::single_less(0x42b4_0000, clamped_elevation(degrees)),
{
}

/// A new base station stands at (4, 4, 3), looks along the x-axis and down by 45 degrees; a new
/// anchor hangs at (0, 0, 2.5).
pub proof fn law_new_things()
    ensures
        new_station().pos == [0x4080_0000u32, 0x4080_0000u32, 0x4040_0000u32],
        new_station().azimuth_deg == 0,
        new_station().elevation_deg == 0x4234_0000,
        new_anchor().pos == [0u32, 0u32, 0x4020_0000u32],
{
}

/// Removing an item makes the list shorter by one: those before it stay, those behind it move up.
/// Replacing one changes it alone. Positions that are not in the list change nothing.
pub proof fn law_list_edits<T>(list: Seq<T>, index: i32, item: T, k: int)
    ensures
        0 <= index < list.len() ==> {
            &&& without(list, index).len() == list.len() - 1
            &&& 0 <= k < index ==> without(list, index)[k] == list[k]
            &&& index <= k < list.len() - 1 ==> without(list, index)[k] == list[k + 1]
            &&& with_item(list, index, item)[index as int] == item
            &&& 0 <= k < list.len() && k != index ==> with_item(list, index, item)[k] == list[k]
        },
        with_item(list, index, item).len() == list.len(),
        index < 0 || index >= list.len() ==> without(list, index) == list && with_item(
            list,
            index,
            item,
        ) == list,
{
}

/// Pressing the mouse over a handle of a base station that is selected and drawn holds the handle
/// and remembers the base station; otherwise what was hit is selected and nothing is held.
pub proof fn law_press_holds_or_selects(e: StationEditorView, handle: Option<Handle>, hit: i32)
    ensures
        ({
            let now = pressed(e, handle, hit);
            let held = handle is Some && 0 <= e.selected < e.drawn.len();
            &&& now.stations == e.stations && now.drawn == e.drawn
            &&& held ==> now.active == handle && now.selected == e.selected && now.start
                == e.stations[e.selected as int] && now.undo == e.undo.push(e.stations)
            &&& !held ==> now.active is None && now.selected == hit && now.start == e.start
                && now.undo == e.undo
        }),
{
}

/// Dragging a base station by one of its handles: along an axis it gets the new coordinate there
/// and keeps the others from the start; about an axis it gets the new angle. What is drawn moves
/// or turns with it. Without a handle, or without a value, nothing happens.
pub proof fn law_drag_station(e: StationEditorView, handle: Handle, v: u32)
    requires
        0 <= e.selected < e.stations.len(),
        e.selected < e.drawn.len(),
        e.active == Some(handle),
    ensures
        ({
            let i = e.selected as int;
            let old_bs = e.stations[i];
            let now = dragged(e, Some(v));
            let bs = now.stations[i];
            &&& handle is TranslateX ==> bs.pos == [v, e.start.pos[1], e.start.pos[2]]
            &&& handle is TranslateY ==> bs.pos == [e.start.pos[0], v, e.start.pos[2]]
            &&& handle is TranslateZ ==> bs.pos == [e.start.pos[0], e.start.pos[1], v]
            &&& handle is TranslateX || handle is TranslateY || handle is TranslateZ ==> {
                &&& bs.azimuth_deg == old_bs.azimuth_deg
                &&& bs.elevation_deg == old_bs.elevation_deg
                &&& now.drawn[i].pos == bs.pos
                &&& now.drawn[i].azimuth_deg == e.drawn[i].azimuth_deg
                &&& now.drawn[i].elevation_deg == e.drawn[i].elevation_deg
            }
            &&& handle is RotateAzimuth ==> bs == (BaseStation { azimuth_deg: v, ..old_bs })
            &&& handle is RotateElevation && float_bits::single_at_most(0xc2b4_0000, v)
                && float_bits::single_at_most(v, 0x42b4_0000) ==> bs == (BaseStation {
                elevation_deg: v,
                ..old_bs
            })
            &&& handle is RotateAzimuth || handle is RotateElevation ==> {
                &&& bs.pos == old_bs.pos
                &&& now.drawn[i].pos == e.drawn[i].pos
                &&& now.drawn[i].azimuth_deg == bs.azimuth_deg
                &&& now.drawn[i].elevation_deg == bs.elevation_deg
            }
            &&& handle is RotateYaw ==> now.stations == e.stations && now.drawn == e.drawn
            &&& forall|k: int|
                0 <= k < e.drawn.len() && k != i ==> #[trigger] now.drawn[k] == e.drawn[k]
            &&& dragged(e, None) == e
            &&& dragged(StationEditorView { active: None, ..e }, Some(v)) == (StationEditorView {
                active: None,
                ..e
            })
        }),
{
    let now = dragged(e, Some(v));
    if handle is RotateYaw {
        assert(now.stations =~= e.stations);
        assert(now.drawn =~= e.drawn);
    }
}

/// Taking back a drag shows the base stations as they were before it, and keeps the selection;
/// with nothing to take back nothing happens.
pub proof fn law_undo_shows(e: StationEditorView)
    ensures
        undone(e).selected == e.selected,
        e.undo.len() > 0 ==> undone(e).stations == e.undo.last() && undone(e).drawn
            == e.undo.last() && undone(e).undo.len() == e.undo.len() - 1,
        e.undo.len() == 0 ==> undone(e) == e,
{
}

/// An anchor is dragged along the axis of its handle alone, and drawn where it is; the others
/// stay. Handles that turn do nothing to it.
pub proof fn law_drag_anchor(e: AnchorEditorView, handle: Handle, v: u32, k: int)
    requires
        0 <= e.selected < e.anchors.len(),
        e.selected < e.drawn.len(),
        e.active == Some(handle),
    ensures
        ({
            let i = e.selected as int;
            let now = anchor_dragged(e, Some(v));
            &&& handle is TranslateX ==> now.anchors[i].pos == [v, e.start[1], e.start[2]]
            &&& handle is TranslateY ==> now.anchors[i].pos == [e.start[0], v, e.start[2]]
            &&& handle is TranslateZ ==> now.anchors[i].pos == [e.start[0], e.start[1], v]
            &&& handle is TranslateX || handle is TranslateY || handle is TranslateZ
                ==> now.drawn[i] == now.anchors[i]
            &&& handle is RotateAzimuth || handle is RotateElevation || handle is RotateYaw ==> now
                == e
            &&& now.anchors.len() == e.anchors.len() && now.drawn.len() == e.drawn.len()
            &&& 0 <= k < e.anchors.len() && k != i ==> now.anchors[k] == e.anchors[k]
            &&& 0 <= k < e.drawn.len() && k != i ==> now.drawn[k] == e.drawn[k]
            &&& now.undo == e.undo && now.selected == e.selected
        }),
{
}

/// Pressing the mouse over a handle of an anchor that is selected and drawn holds the handle and
/// remembers where the anchor is drawn; otherwise what was hit is selected.
pub proof fn law_press_on_anchor(e: AnchorEditorView, handle: Option<Handle>, hit: i32)
    ensures
        ({
            let now = anchor_pressed(e, handle, hit);
            let held = handle is Some && 0 <= e.selected < e.drawn.len();
            &&& now.anchors == e.anchors && now.drawn == e.drawn && now.undo == e.undo
            &&& held ==> now.active == handle && now.selected == e.selected && now.start
                == e.drawn[e.selected as int].pos
            &&& !held ==> now.active is None && now.selected == hit && now.start == e.start
        }),
{
}

/// Adding an anchor puts the new one last; removing one takes it out and selects nothing.
pub proof fn law_anchor_count(e: AnchorEditorView, index: i32, k: int)
    ensures
        anchor_added(e).anchors.len() == e.anchors.len() + 1,
        anchor_added(e).anchors.last().pos == [0u32, 0u32, 0x4020_0000u32],
        anchor_added(e).anchors.drop_last() == e.anchors,
        anchor_added(e).selected == e.selected,
        0 <= index < e.anchors.len() ==> {
            &&& anchor_removed(e, index).anchors.len() == e.anchors.len() - 1
            &&& anchor_removed(e, index).selected < 0
            &&& 0 <= k < index ==> anchor_removed(e, index).anchors[k] == e.anchors[k]
            &&& index <= k < e.anchors.len() - 1 ==> anchor_removed(e, index).anchors[k]
                == e.anchors[k + 1]
        },
        index < 0 || index >= e.anchors.len() ==> anchor_removed(e, index) == e,
        e.undo.len() > 0 ==> anchor_undone(e).selected < 0,
{
    assert(anchor_added(e).anchors.drop_last() =~= e.anchors);
}

/// In the planning view a base station is hit before an anchor and an anchor before an obstacle.
/// A handle of the selected thing is held, and where that thing is becomes the start of the drag.
pub proof fn law_planning_press(
    e: PlanningEditorView,
    handle: Option<Handle>,
    station: i32,
    anchor: i32,
    obstacle: i32,
)
    ensures
        ({
            let now = planning_pressed(e, handle, station, anchor, obstacle);
            let there = match e.selection {
                Selection::Nothing => false,
                Selection::Station(i) => 0 <= i < e.room.stations.len(),
                Selection::Anchor(i) => 0 <= i < e.room.anchors.len(),
                Selection::Obstacle(i) => 0 <= i < e.room.obstacles.len(),
            };
            &&& now.room == e.room && now.computing == e.computing
            &&& there && handle is Some ==> now.active == handle && now.selection == e.selection
                && match e.selection {
                Selection::Nothing => false,
                Selection::Station(i) => {
                    &&& now.start.pos == e.room.stations[i as int].pos
                    &&& now.start.azimuth_deg == e.room.stations[i as int].azimuth_deg
                    &&& now.start.elevation_deg == e.room.stations[i as int].elevation_deg
                    &&& now.start.yaw_deg == e.start.yaw_deg
                },
                Selection::Anchor(i) => {
                    &&& now.start.pos == e.room.anchors[i as int].pos
                    &&& now.start.azimuth_deg == e.start.azimuth_deg
                    &&& now.start.elevation_deg == e.start.elevation_deg
                    &&& now.start.yaw_deg == e.start.yaw_deg
                },
                Selection::Obstacle(i) => {
                    &&& now.start.pos == e.room.obstacles[i as int].pos
                    &&& now.start.yaw_deg == e.room.obstacles[i as int].yaw_deg
                    &&& now.start.azimuth_deg == e.start.azimuth_deg
                    &&& now.start.elevation_deg == e.start.elevation_deg
                },
            }
            &&& !(there && handle is Some) ==> {
                &&& now.active == e.active && now.start == e.start
                &&& station >= 0 ==> now.selection == Selection::Station(station)
                &&& station < 0 && anchor >= 0 ==> now.selection == Selection::Anchor(anchor)
                &&& station < 0 && anchor < 0 && obstacle >= 0 ==> now.selection
                    == Selection::Obstacle(obstacle)
                &&& station < 0 && anchor < 0 && obstacle < 0 ==> now.selection is Nothing
            }
        }),
{
}

/// What a drag does to the selected thing of a planned room: along an axis it gets the new
/// coordinate and keeps the others from the start. A base station turns in azimuth and elevation,
/// an obstacle about the vertical; an anchor does not turn.
pub proof fn law_planning_drag_value(e: PlanningEditorView, handle: Handle, v: u32)
    requires
        e.active == Some(handle),
    ensures
        ({
            let now = planning_dragged(e, v).room;
            let p = e.start.pos;
            let at = match handle {
                Handle::TranslateX => Some([v, p[1], p[2]]),
                Handle::TranslateY => Some([p[0], v, p[2]]),
                Handle::TranslateZ => Some([p[0], p[1], v]),
                _ => None,
            };
            &&& e.selection matches Selection::Station(i) ==> (0 <= i < e.room.stations.len() ==> {
                let was = e.room.stations[i as int];
                let bs = now.stations[i as int];
                &&& at matches Some(q) ==> bs == (BaseStation { pos: q, ..was })
                &&& handle is RotateAzimuth ==> bs == (BaseStation { azimuth_deg: v, ..was })
                &&& handle is RotateElevation ==> bs == (BaseStation { elevation_deg: v, ..was })
                &&& handle is RotateYaw ==> bs == was
            })
            &&& e.selection matches Selection::Anchor(i) ==> (0 <= i < e.room.anchors.len() ==> {
                &&& at matches Some(q) ==> now.anchors[i as int].pos == q
                &&& at is None ==> now.anchors[i as int] == e.room.anchors[i as int]
            })
            &&& e.selection matches Selection::Obstacle(i) ==> (0 <= i < e.room.obstacles.len() ==> {
                let was = e.room.obstacles[i as int];
                let o = now.obstacles[i as int];
                &&& at matches Some(q) ==> o == (Obstacle { pos: q, ..was })
                &&& handle is RotateYaw ==> o == (Obstacle { yaw_deg: v, ..was })
                &&& handle is RotateAzimuth || handle is RotateElevation ==> o == was
            })
        }),
{
}

/// A copy differs from its original in its x coordinate alone and comes last; a position that is
/// not in the list copies nothing.
pub proof fn law_copies(
    stations: Seq<BaseStation>,
    anchors: Seq<Anchor>,
    obstacles: Seq<Obstacle>,
    index: i32,
    x: u32,
)
    ensures
        0 <= index < stations.len() ==> {
            let was = stations[index as int];
            station_duplicated(stations, index, x) == stations.push(
                BaseStation { pos: [x, was.pos[1], was.pos[2]], ..was },
            )
        },
        0 <= index < anchors.len() ==> {
            let was = anchors[index as int];
            anchor_duplicated(anchors, index, x) == anchors.push(
                Anchor { pos: [x, was.pos[1], was.pos[2]] },
            )
        },
        0 <= index < obstacles.len() ==> {
            let was = obstacles[index as int];
            obstacle_duplicated(obstacles, index, x) == obstacles.push(
                Obstacle { pos: [x, was.pos[1], was.pos[2]], ..was },
            )
        },
        index < 0 ==> station_duplicated(stations, index, x) == stations && anchor_duplicated(
            anchors,
            index,
            x,
        ) == anchors && obstacle_duplicated(obstacles, index, x) == obstacles,
{
}

/// An obstacle that belongs on the floor gets the height of its centre there and keeps all else;
/// another one stays as it was typed.
pub proof fn law_grounded(o: Obstacle, half_height: u32)
    ensures
        o.on_floor ==> grounded(o, half_height) == (Obstacle {
            pos: [o.pos[0], o.pos[1], half_height],
            ..o
        }),
        !o.on_floor ==> grounded(o, half_height) == o,
{
}

} // verus!
