//! What the coverage view of the TDoA3 system shows: the metric behind each choice, its colours
//! and its slider. Slider values are the bits of singles.

use crate::float_bits;
use crate::lists;
use crate::text;
use vstd::prelude::*;
use vstd::string::*;

verus! {

/// A quantity that is computed for every voxel and kept.
#[derive(Debug, Clone, Copy, PartialEq, Eq, Structural)]
pub enum StoredMetric {
    Gdop,
    Hdop,
    Vdop,
    Xdop,
    Ydop,
    Pairs,
}

/// Where the shown values come from.
#[derive(Debug, Clone, Copy, PartialEq, Eq, Structural)]
pub enum DisplaySource {
    /// A kept metric, as it is or multiplied by the measurement noise.
    Stored { metric: StoredMetric, scaled: bool },
    /// How much one pair of anchors responds to movement.
    PairSensitivity,
    /// How much the measurements respond to movement along an axis: X, Y or Z.
    AxisSensitivity(usize),
    /// The least of the axes, with or without Z.
    MinSensitivity { include_z: bool },
}

/// The source of the choice at position `index` of the list.
pub open spec fn source_of(index: usize) -> DisplaySource {
    if index == 1 {
        DisplaySource::Stored { metric: StoredMetric::Hdop, scaled: false }
    } else if index == 2 {
        DisplaySource::Stored { metric: StoredMetric::Vdop, scaled: false }
    } else if index == 3 {
        DisplaySource::Stored { metric: StoredMetric::Xdop, scaled: false }
    } else if index == 4 {
        DisplaySource::Stored { metric: StoredMetric::Ydop, scaled: false }
    } else if index == 5 {
        DisplaySource::Stored { metric: StoredMetric::Pairs, scaled: false }
    } else if index == 6 {
        DisplaySource::PairSensitivity
    } else if index == 7 {
        DisplaySource::Stored { metric: StoredMetric::Xdop, scaled: true }
    } else if index == 8 {
        DisplaySource::Stored { metric: StoredMetric::Ydop, scaled: true }
    } else if index == 9 {
        DisplaySource::Stored { metric: StoredMetric::Vdop, scaled: true }
    } else if index == 10 {
        DisplaySource::Stored { metric: StoredMetric::Hdop, scaled: true }
    } else if index == 11 {
        DisplaySource::Stored { metric: StoredMetric::Gdop, scaled: true }
    } else if 12 <= index <= 14 {
        DisplaySource::AxisSensitivity((index - 12) as usize)
    } else if index == 15 {
        DisplaySource::MinSensitivity { include_z: true }
    } else if index == 16 {
        DisplaySource::MinSensitivity { include_z: false }
    } else {
        DisplaySource::Stored { metric: StoredMetric::Gdop, scaled: false }
    }
}

/// The source of the choice at position `index` of the list; any other choice shows the
/// geometric dilution.
pub fn display_source(index: usize) -> (source: DisplaySource)
    ensures
        source == source_of(index),
{
    match index {
        1 => DisplaySource::Stored { metric: StoredMetric::Hdop, scaled: false },
        2 => DisplaySource::Stored { metric: StoredMetric::Vdop, scaled: false },
        3 => DisplaySource::Stored { metric: StoredMetric::Xdop, scaled: false },
        4 => DisplaySource::Stored { metric: StoredMetric::Ydop, scaled: false },
        5 => DisplaySource::Stored { metric: StoredMetric::Pairs, scaled: false },
        6 => DisplaySource::PairSensitivity,
        7 => DisplaySource::Stored { metric: StoredMetric::Xdop, scaled: true },
        8 => DisplaySource::Stored { metric: StoredMetric::Ydop, scaled: true },
        9 => DisplaySource::Stored { metric: StoredMetric::Vdop, scaled: true },
        10 => DisplaySource::Stored { metric: StoredMetric::Hdop, scaled: true },
        11 => DisplaySource::Stored { metric: StoredMetric::Gdop, scaled: true },
        12 => DisplaySource::AxisSensitivity(0),
        13 => DisplaySource::AxisSensitivity(1),
        14 => DisplaySource::AxisSensitivity(2),
        15 => DisplaySource::MinSensitivity { include_z: true },
        16 => DisplaySource::MinSensitivity { include_z: false },
        _ => DisplaySource::Stored { metric: StoredMetric::Gdop, scaled: false },
    }
}

/// The name of the quantity, as the statistics call it.
pub open spec fn name_of(index: usize) -> Seq<char> {
    if index == 1 {
        "HDOP"@
    } else if index == 2 {
        "VDOP"@
    } else if index == 3 {
        "XDOP"@
    } else if index == 4 {
        "YDOP"@
    } else if index == 5 {
        "Pairs"@
    } else if index == 7 {
        "σ_x"@
    } else if index == 8 {
        "σ_y"@
    } else if index == 9 {
        "σ_z"@
    } else if index == 10 {
        "σ_xy"@
    } else if index == 11 {
        "σ_xyz"@
    } else {
        "GDOP"@
    }
}

/// The name of the stored quantity at position `index` of the list.
pub fn metric_name(index: usize) -> (s: &'static str)
    ensures
        s@ == name_of(index),
{
    match index {
        1 => "HDOP",
        2 => "VDOP",
        3 => "XDOP",
        4 => "YDOP",
        5 => "Pairs",
        7 => "σ_x",
        8 => "σ_y",
        9 => "σ_z",
        10 => "σ_xy",
        11 => "σ_xyz",
        _ => "GDOP",
    }
}

/// The label of a position error, for the choices that show one.
pub fn error_axis(index: usize) -> (s: Option<&'static str>)
    ensures
        s is Some <==> 7 <= index <= 11,
        s matches Some(t) ==> t@ == (if index == 7 {
            "X"@
        } else if index == 8 {
            "Y"@
        } else if index == 9 {
            "Z"@
        } else if index == 10 {
            "XY"@
        } else {
            "Global"@
        }),
{
    match index {
        7 => Some("X"),
        8 => Some("Y"),
        9 => Some("Z"),
        10 => Some("XY"),
        11 => Some("Global"),
        _ => None,
    }
}

/// Position errors are exactly the stored metrics that are scaled by the noise.
pub proof fn law_errors_are_scaled(index: usize)
    ensures
        7 <= index <= 11 <==> (source_of(index) matches DisplaySource::Stored { scaled, .. }
            && scaled),
{
}

/// The quantity that is shown for a choice is the one that its name says: the dilutions as they
/// are kept, and the position errors as the dilution along the axis of the name, scaled by the
/// noise.
pub proof fn law_named_quantity(index: usize)
    requires
        index <= 5 || 7 <= index <= 11,
    ensures
        ({
            let kept = |metric: StoredMetric|
                source_of(index) == DisplaySource::Stored { metric, scaled: false };
            let scaled = |metric: StoredMetric|
                source_of(index) == DisplaySource::Stored { metric, scaled: true };
            &&& name_of(index) == "GDOP"@ <==> kept(StoredMetric::Gdop)
            &&& name_of(index) == "HDOP"@ <==> kept(StoredMetric::Hdop)
            &&& name_of(index) == "VDOP"@ <==> kept(StoredMetric::Vdop)
            &&& name_of(index) == "XDOP"@ <==> kept(StoredMetric::Xdop)
            &&& name_of(index) == "YDOP"@ <==> kept(StoredMetric::Ydop)
            &&& name_of(index) == "Pairs"@ <==> kept(StoredMetric::Pairs)
            &&& name_of(index) == "σ_x"@ <==> scaled(StoredMetric::Xdop)
            &&& name_of(index) == "σ_y"@ <==> scaled(StoredMetric::Ydop)
            &&& name_of(index) == "σ_z"@ <==> scaled(StoredMetric::Vdop)
            &&& name_of(index) == "σ_xy"@ <==> scaled(StoredMetric::Hdop)
            &&& name_of(index) == "σ_xyz"@ <==> scaled(StoredMetric::Gdop)
        }),
{
    reveal_strlit("GDOP");
    reveal_strlit("HDOP");
    reveal_strlit("VDOP");
    reveal_strlit("XDOP");
    reveal_strlit("YDOP");
    reveal_strlit("Pairs");
    reveal_strlit("σ_x");
    reveal_strlit("σ_y");
    reveal_strlit("σ_z");
    reveal_strlit("σ_xy");
    reveal_strlit("σ_xyz");
    assert("GDOP"@[0] == 'G' && "HDOP"@[0] == 'H' && "VDOP"@[0] == 'V' && "XDOP"@[0] == 'X'
        && "YDOP"@[0] == 'Y' && "Pairs"@[0] == 'P');
    assert("σ_x"@[2] == 'x' && "σ_y"@[2] == 'y' && "σ_z"@[2] == 'z' && "σ_x"@[0] == 'σ'
        && "σ_y"@[0] == 'σ' && "σ_z"@[0] == 'σ' && "σ_xy"@[0] == 'σ' && "σ_xyz"@[0] == 'σ');
    assert("σ_x"@.len() == 3 && "σ_y"@.len() == 3 && "σ_z"@.len() == 3 && "σ_xy"@.len() == 4
        && "σ_xyz"@.len() == 5);
}

/// The list of choices: first the dilutions from geometric to Y, the pairs and a pair's
/// sensitivity, then the errors along X, Y, Z, XY and all axes, then the sensitivities along X, Y
/// and Z, and the least of these with and without Z.
pub proof fn law_list_of_choices(index: usize)
    ensures
        index < 5 ==> name_of(index) == seq!["GDOP"@, "HDOP"@, "VDOP"@, "XDOP"@, "YDOP"@][index as int],
        index == 5 ==> name_of(index) == "Pairs"@,
        index == 6 <==> source_of(index) is PairSensitivity,
        7 <= index <= 11 ==> name_of(index) == seq![
            "σ_x"@,
            "σ_y"@,
            "σ_z"@,
            "σ_xy"@,
            "σ_xyz"@,
        ][index - 7],
        12 <= index <= 14 <==> source_of(index) is AxisSensitivity,
        source_of(index) matches DisplaySource::AxisSensitivity(axis) ==> axis + 12 == index,
        15 <= index <= 16 <==> source_of(index) is MinSensitivity,
        source_of(index) matches DisplaySource::MinSensitivity { include_z } ==> (include_z <==> index
            == 15),
        index > 16 ==> source_of(index) == source_of(0),
{
}

/// Of the quantities with the same unit the slider has the same range, up to the errors of one
/// metre, the dilutions of two, the sensitivities of ten and thirty pairs.
pub proof fn law_slider_ranges(index: usize)
    ensures
        (source_of(index) matches DisplaySource::Stored { metric, scaled } && scaled) ==> slider_of(
            index,
        ).0 == float_bits::SINGLE_ONE,
        (source_of(index) matches DisplaySource::Stored { metric, scaled } && !scaled && metric
            != StoredMetric::Pairs) || source_of(index) is PairSensitivity ==> slider_of(index).0
            == 0x4000_0000,
        source_of(index) is AxisSensitivity || source_of(index) is MinSensitivity ==> slider_of(
            index,
        ) == (0x4120_0000u32, 0x40a0_0000u32),
        source_of(index) matches DisplaySource::Stored { metric, .. } && metric
            == StoredMetric::Pairs ==> slider_of(index) == (0x41f0_0000u32, 0x4120_0000u32),
{
}

/// Whether more is better, so that the colours are turned round: the number of pairs and the
/// sensitivities.
pub fn higher_is_better(index: usize) -> (r: bool)
    ensures
        r == (index == 5 || index == 6 || index >= 12),
{
    index == 5 || index == 6 || index >= 12
}

/// The range of the slider and where it stands at first.
pub open spec fn slider_of(index: usize) -> (u32, u32) {
    if index == 5 {
        (0x41f0_0000u32, 0x4120_0000u32)
    } else if index == 6 {
        (0x4000_0000u32, 0x4000_0000u32)
    } else if 7 <= index <= 10 {
        (0x3f80_0000u32, 0x3cf5_c28fu32)
    } else if index == 11 {
        (0x3f80_0000u32, 0x3d4c_cccdu32)
    } else if 12 <= index <= 16 {
        (0x4120_0000u32, 0x40a0_0000u32)
    } else if index == 3 || index == 4 {
        (0x4000_0000u32, 0x3e4c_cccdu32)
    } else if index == 0 {
        (0x4000_0000u32, 0x3f00_0000u32)
    } else {
        (0x4000_0000u32, 0x3e99_999au32)
    }
}

/// The upper end of the slider and where it stands at first.
pub fn slider_range(index: usize) -> (range: (u32, u32))
    ensures
        range == slider_of(index),
{
    match index {
        5 => (0x41f0_0000, 0x4120_0000),
        6 => (0x4000_0000, 0x4000_0000),
        7 => (0x3f80_0000, 0x3cf5_c28f),
        8 => (0x3f80_0000, 0x3cf5_c28f),
        9 => (0x3f80_0000, 0x3cf5_c28f),
        10 => (0x3f80_0000, 0x3cf5_c28f),
        11 => (0x3f80_0000, 0x3d4c_cccd),
        12 => (0x4120_0000, 0x40a0_0000),
        13 => (0x4120_0000, 0x40a0_0000),
        14 => (0x4120_0000, 0x40a0_0000),
        15 => (0x4120_0000, 0x40a0_0000),
        16 => (0x4120_0000, 0x40a0_0000),
        3 => (0x4000_0000, 0x3e4c_cccd),
        4 => (0x4000_0000, 0x3e4c_cccd),
        0 => (0x4000_0000, 0x3f00_0000),
        _ => (0x4000_0000, 0x3e99_999a),
    }
}

/// The slider never stands beyond its end.
pub proof fn law_slider_within_range(index: usize)
    ensures
        float_bits::single_at_most(slider_of(index).1, slider_of(index).0),
{
}

/// The number of pairs among `n` anchors.
pub open spec fn pair_count(n: nat) -> nat {
    if n == 0 {
        0
    } else {
        n * (n - 1) as nat / 2
    }
}

/// The line on the number of anchors and pairs.
pub fn anchors_text(n: usize) -> (s: String)
    requires
        n * n <= usize::MAX,
    ensures
        s@ == text::decimal(n as nat) + " anchors, "@ + text::decimal(pair_count(n as nat)) + " pairs"@,
{
    let pairs: usize = if n == 0 {
        0
    } else {
        assert(n * (n - 1) <= n * n) by (nonlinear_arith)
            requires
                n >= 1,
        ;
        assert(0 <= n * (n - 1)) by (nonlinear_arith)
            requires
                n >= 1,
        ;
        n * (n - 1) / 2
    };
    let mut s = text::decimal_string(n as u64);
    s.append(" anchors, ");
    text::push_decimal(&mut s, pairs as u64);
    s.append(" pairs");
    s
}

/// Reads the number of an anchor, or takes the default when it is none.
pub fn anchor_number(s: &str, default: usize) -> (n: usize)
    ensures
        n == (match text::unsigned_of(s@, usize::MAX as nat) {
            Some(v) => v,
            None => default as nat,
        }),
{
    let chars = text::chars_of(s);
    match text::parse_unsigned(chars.as_slice(), usize::MAX as u64) {
        Some(v) => v as usize,
        None => default,
    }
}

/// Whether the sensitivity of a pair can be shown: two different anchors that exist.
pub fn is_anchor_pair(a: usize, b: usize, anchors: usize) -> (r: bool)
    ensures
        r == (a < anchors && b < anchors && a != b),
{
    a < anchors && b < anchors && a != b
}

/// The voxels that are shown: all of them when those outside the hull of the anchors are wanted or
/// there is no hull, else those inside it.
pub open spec fn shown_filter(inside: Option<Seq<bool>>, show_outside: bool) -> spec_fn(int) -> bool {
    |i: int|
        show_outside || match inside {
            Some(list) => list[i],
            None => true,
        }
}

/// The list behind an optional one.
pub open spec fn flags_of(inside: Option<&Vec<bool>>) -> Option<Seq<bool>> {
    match inside {
        Some(list) => Some(list@),
        None => None,
    }
}

/// The positions of the shown voxels among `n`, given which of them are inside the hull where
/// there is one.
pub fn shown_voxels(n: usize, inside: Option<&Vec<bool>>, show_outside: bool) -> (shown: Vec<usize>)
    requires
        inside matches Some(list) ==> list@.len() == n,
    ensures
        lists::ints(shown@) == lists::positions_where(
            n as nat,
            shown_filter(flags_of(inside), show_outside),
        ),
{
    let ghost keep = shown_filter(flags_of(inside), show_outside);
    let mut shown: Vec<usize> = Vec::new();
    assert(lists::ints(shown@) =~= lists::positions_where(0, keep));
    let mut i: usize = 0;
    while i < n
        invariant
            i <= n,
            inside matches Some(list) ==> list@.len() == n,
            keep == shown_filter(flags_of(inside), show_outside),
            lists::ints(shown@) == lists::positions_where(i as nat, keep),
        decreases n - i,
    {
        let keeps = show_outside || match inside {
            Some(list) => list[i],
            None => true,
        };
        assert(keeps == keep(i as int));
        if keeps {
            let ghost before = shown@;
            shown.push(i);
            assert(lists::ints(shown@) =~= lists::ints(before).push(i as int));
        }
        i = i + 1;
    }
    shown
}

/// The single positive infinity.
pub const INFINITY: u32 = 0x7f80_0000;

/// The single negative infinity.
pub const MINUS_INFINITY: u32 = 0xff80_0000;

/// Whether a value counts for the statistics: a number between the ends of the slider.
pub open spec fn within_slider(v: u32, low: u32, high: u32) -> bool {
    float_bits::single_is_finite(v) && float_bits::single_at_most(low, v)
        && float_bits::single_at_most(v, high)
}

/// The positions of the values within the slider.
pub open spec fn slider_filter(values: Seq<u32>, low: u32, high: u32) -> spec_fn(int) -> bool {
    |i: int| within_slider(values[i], low, high)
}

/// The number of values that are numbers.
pub open spec fn finite_count(values: Seq<u32>) -> nat
    decreases values.len(),
{
    if values.len() == 0 {
        0
    } else {
        finite_count(values.drop_last()) + if float_bits::single_is_finite(values.last()) {
            1nat
        } else {
            0nat
        }
    }
}

/// What the statistics are made of: the values within the slider, the least and the greatest of
/// them, and how many values there are in all.
pub struct SliderStats {
    pub visible: Vec<usize>,
    pub least: u32,
    pub greatest: u32,
    pub finite: usize,
}

/// Looks at the values within the slider. Without any, the least of them is positive and the
/// greatest negative infinity.
pub fn slider_stats(values: &Vec<u32>, low: u32, high: u32) -> (stats: SliderStats)
    ensures
        lists::ints(stats.visible@) == lists::positions_where(
            values@.len(),
            slider_filter(values@, low, high),
        ),
        stats.finite == finite_count(values@),
        stats.visible@.len() == 0 ==> stats.least == INFINITY && stats.greatest == MINUS_INFINITY,
        stats.visible@.len() > 0 ==> exists|i: int|
            0 <= i < values@.len() && within_slider(#[trigger] values@[i], low, high)
                && stats.least == values@[i],
        stats.visible@.len() > 0 ==> exists|i: int|
            0 <= i < values@.len() && within_slider(#[trigger] values@[i], low, high)
                && stats.greatest == values@[i],
        forall|i: int|
            0 <= i < values@.len() && within_slider(#[trigger] values@[i], low, high) ==> {
                &&& float_bits::single_at_most(stats.least, values@[i])
                &&& float_bits::single_at_most(values@[i], stats.greatest)
            },
{
    let ghost keep = slider_filter(values@, low, high);
    let mut visible: Vec<usize> = Vec::new();
    let mut least: u32 = INFINITY;
    let mut greatest: u32 = MINUS_INFINITY;
    let mut finite: usize = 0;
    assert(lists::ints(visible@) =~= lists::positions_where(0, keep));
    assert(values@.take(0) =~= Seq::empty());
    let mut i: usize = 0;
    while i < values.len()
        invariant
            i <= values@.len(),
            keep == slider_filter(values@, low, high),
            lists::ints(visible@) == lists::positions_where(i as nat, keep),
            finite == finite_count(values@.take(i as int)),
            finite <= i,
            visible@.len() == 0 ==> least == INFINITY && greatest == MINUS_INFINITY,
            visible@.len() == 0 ==> forall|k: int|
                0 <= k < i ==> !within_slider(#[trigger] values@[k], low, high),
            visible@.len() > 0 ==> exists|k: int|
                0 <= k < i && within_slider(#[trigger] values@[k], low, high) && least == values@[k],
            visible@.len() > 0 ==> exists|k: int|
                0 <= k < i && within_slider(#[trigger] values@[k], low, high) && greatest
                    == values@[k],
            forall|k: int|
                0 <= k < i && within_slider(#[trigger] values@[k], low, high) ==> {
                    &&& float_bits::single_at_most(least, values@[k])
                    &&& float_bits::single_at_most(values@[k], greatest)
                },
        decreases values.len() - i,
    {
        let v: u32 = values[i];
        assert(values@.take(i + 1).drop_last() =~= values@.take(i as int));
        if float_bits::is_finite_single(v) {
            finite = finite + 1;
            if float_bits::at_most_single(low, v) && float_bits::at_most_single(v, high) {
                assert(keep(i as int));
                let ghost before = visible@;
                if float_bits::less_single(v, least) {
                    least = v;
                }
                if float_bits::less_single(greatest, v) {
                    greatest = v;
                }
                visible.push(i);
                assert(lists::ints(visible@) =~= lists::ints(before).push(i as int));
                assert(values@[i as int] == v);
            } else {
                assert(!keep(i as int));
            }
        } else {
            assert(!keep(i as int));
        }
        i = i + 1;
    }
    assert(values@.take(values@.len() as int) =~= values@);
    SliderStats { visible, least, greatest, finite }
}

/// A bound as it is shown: zero when there was no value.
pub fn shown_bound(bound: u32) -> (r: u32)
    ensures
        r == (if float_bits::single_is_finite(bound) {
            bound
        } else {
            0
        }),
{
    if float_bits::is_finite_single(bound) {
        bound
    } else {
        0
    }
}

/// The dilution behind a position error of the planning view, and its name.
pub fn error_metric_to_dop(index: i32) -> (r: (StoredMetric, &'static str))
    ensures
        index == 1 ==> r.0 == StoredMetric::Hdop && r.1@ == "HERR"@,
        index == 2 ==> r.0 == StoredMetric::Vdop && r.1@ == "VERR"@,
        index != 1 && index != 2 ==> r.0 == StoredMetric::Gdop && r.1@ == "GERR"@,
{
    match index {
        1 => (StoredMetric::Hdop, "HERR"),
        2 => (StoredMetric::Vdop, "VERR"),
        _ => (StoredMetric::Gdop, "GERR"),
    }
}

/// Where the slider stands at first: at half of the geometric dilution, at 0.3 of the horizontal
/// and the vertical one, at 0.2 along X and Y, at three centimetres of an error and at five of the
/// error along all axes, and at the end for a pair.
pub proof fn law_slider_start(index: usize)
    ensures
        source_of(index) matches DisplaySource::Stored { metric, scaled } ==> {
            &&& !scaled && metric is Gdop && index == 0 ==> slider_of(index).1 == 0x3f00_0000
            &&& !scaled && (metric is Hdop || metric is Vdop) ==> slider_of(index).1 == 0x3e99_999a
            &&& !scaled && (metric is Xdop || metric is Ydop) ==> slider_of(index).1 == 0x3e4c_cccd
            &&& scaled && !(metric is Gdop) ==> slider_of(index).1 == 0x3cf5_c28f
            &&& scaled && metric is Gdop ==> slider_of(index).1 == 0x3d4c_cccd
        },
        source_of(index) is PairSensitivity ==> slider_of(index).1 == slider_of(index).0,
{
}

/// One anchor more makes a pair with each of those before it.
pub proof fn law_pairs_of_anchors(n: nat)
    ensures
        pair_count(0) == 0,
        pair_count(n + 1) == pair_count(n) + n,
{
    if n > 0 {
        let k = (n - 1) as nat;
        assert((n + 1) * n == n * k + 2 * n) by (nonlinear_arith)
            requires
                k == n - 1,
        ;
    }
}

/// A voxel is hidden only if there is a hull, it is outside of it, and those outside are not
/// wanted.
pub proof fn law_hidden_voxels(list: Seq<bool>, show_outside: bool, i: int)
    ensures
        shown_filter(None, show_outside)(i),
        shown_filter(Some(list), true)(i),
        shown_filter(Some(list), false)(i) <==> list[i],
{
}

/// A value within the slider is a number between its ends; both ends count. Infinities and what is
/// no number never do.
pub proof fn law_within_slider(v: u32, low: u32, high: u32)
    ensures
        float_bits::single_less(v, low) ==> !within_slider(v, low, high),
        float_bits::single_less(high, v) ==> !within_slider(v, low, high),
        !float_bits::single_is_finite(v) ==> !within_slider(v, low, high),
        float_bits::single_is_finite(v) && float_bits::single_at_most(low, v)
            && float_bits::single_at_most(v, high) ==> within_slider(v, low, high),
{
}

/// Every number counts once, and nothing else does.
pub proof fn law_numbers_counted(values: Seq<u32>, v: u32)
    ensures
        finite_count(Seq::empty()) == 0,
        finite_count(values.push(v)) == finite_count(values) + (if float_bits::single_is_finite(v) {
            1int
        } else {
            0
        }),
        finite_count(values) <= values.len(),
    decreases values.len(),
{
    assert(values.push(v).drop_last() =~= values);
    if values.len() > 0 {
        law_numbers_counted(values.drop_last(), v);
    }
}

} // verus!
