//! Log configurations: naming and listing them, picking their variables, and streaming them from
//! a unit into the plot.

use crate::float_bits;
use crate::lists;
use crate::sorting;
use crate::text;
use crate::plot::{color_for, PlotSlot, PlotState, PlotView, SlotView};
use crate::plot;
use vstd::prelude::*;
use vstd::string::*;

verus! {

// ---------------------------------------------------------------------------
// Configurations
// ---------------------------------------------------------------------------

/// A named set of log variables to stream and plot.
#[derive(Debug, Clone)]
pub struct LogConfig {
    pub name: String,
    pub description: Option<String>,
    /// Firmware log variable names ("group.name").
    pub variables: Vec<String>,
    /// Sample period in milliseconds (clamped to 10..=2550 when started).
    pub period_ms: u64,
}

/// The sample period of a configuration that names none.
pub fn default_period_ms() -> (ms: u64)
    ensures
        ms == 100,
{
    100
}

/// Directory of the saved configurations, relative to the working directory.
pub fn log_configs_dir() -> (dir: String)
    ensures
        dir@ == "log_configs"@,
{
    "log_configs".to_string()
}

/// The character that stands for `c` in a file name.
pub open spec fn file_char(c: char) -> char {
    if text::alphanumeric(c) || c == '-' || c == '_' {
        c
    } else {
        '_'
    }
}

/// The file name made of a configuration name: trimmed, every other character than letters,
/// numbers, `-` and `_` replaced by `_`, and `log` for an empty one.
pub open spec fn file_name_of(name: Seq<char>) -> Seq<char> {
    let kept = text::trimmed(name);
    if kept.len() == 0 {
        "log"@
    } else {
        Seq::new(kept.len(), |i: int| file_char(kept[i]))
    }
}

/// The file name, without extension, of a configuration called `name`.
pub fn sanitize_file_name(name: &str) -> (file: String)
    ensures
        file@ == file_name_of(name@),
{
    let kept = text::trim(name);
    if kept.len() == 0 {
        return "log".to_string();
    }
    let mut file = String::new();
    let mut i: usize = 0;
    while i < kept.len()
        invariant
            i <= kept@.len(),
            file@.len() == i,
            forall|k: int| 0 <= k < i ==> #[trigger] file@[k] == file_char(kept@[k]),
        decreases kept.len() - i,
    {
        let c = kept[i];
        if text::is_alphanumeric(c) || c == '-' || c == '_' {
            file.push(c);
        } else {
            file.push('_');
        }
        i = i + 1;
    }
    assert(file@ =~= file_name_of(name@));
    file
}

/// A file name is never empty and holds only letters, numbers, `-` and `_`; so it names a file
/// within its directory: it holds no slash of either kind and no dot. It is its own file name. A blank name gives `log`, any other one a file name as long as the name without the
/// white space at its ends.
pub proof fn law_file_name(name: Seq<char>)
    ensures
        file_name_of(name).len() > 0,
        forall|i: int|
            0 <= i < file_name_of(name).len() ==> {
                ||| text::alphanumeric(#[trigger] file_name_of(name)[i])
                ||| file_name_of(name)[i] == '-'
                ||| file_name_of(name)[i] == '_'
            },
        !file_name_of(name).contains('/'),
        !file_name_of(name).contains('\\'),
        !file_name_of(name).contains('.'),
        file_name_of(file_name_of(name)) == file_name_of(name),
        text::trimmed(name).len() == 0 ==> file_name_of(name) == "log"@,
        text::trimmed(name).len() > 0 ==> file_name_of(name).len() == text::trimmed(name).len(),
{
    reveal_strlit("log");
    text::lemma_trimmed(name);
    let kept = text::trimmed(name);
    let file = file_name_of(name);
    if kept.len() > 0 {
        assert(file[0] == file_char(kept[0]));
        assert(file.last() == file_char(kept.last()));
    }
    text::lemma_trimmed(file);
    assert(text::trimmed(file) == file);
    assert(file_name_of(file) =~= file);
}

/// The file in which a configuration called `name` is saved, within the directory.
pub fn config_file_name(name: &str) -> (file: String)
    ensures
        file@ == file_name_of(name@) + ".yaml"@,
{
    let mut file = sanitize_file_name(name);
    file.append(".yaml");
    file
}

/// Whether a file with this extension holds a configuration.
pub fn is_config_extension(extension: &str) -> (r: bool)
    ensures
        r == (extension@ == "yaml"@ || extension@ == "yml"@),
{
    text::same_text(extension, "yaml") || text::same_text(extension, "yml")
}

/// The lower-case names of the configurations.
pub open spec fn lower_names(configs: Seq<LogConfig>) -> Seq<Seq<char>> {
    Seq::new(configs.len(), |i: int| text::lowercase(configs[i].name@))
}

/// Lists configurations by name, without regard to case; equal names stay in the order they came.
pub fn sort_log_configs(configs: Vec<LogConfig>) -> (sorted: Vec<LogConfig>)
    ensures
        exists|order: Seq<usize>|
            {
                &&& #[trigger] sorting::stably_sorted(
                    order,
                    sorting::text_less(lower_names(configs@)),
                    configs@.len() as int,
                )
                &&& sorted@ == Seq::new(configs@.len(), |i: int| configs@[order[i] as int])
            },
{
    let mut keys: Vec<Vec<char>> = Vec::new();
    let mut i: usize = 0;
    while i < configs.len()
        invariant
            i <= configs@.len(),
            keys@.len() == i,
            forall|k: int|
                0 <= k < i ==> (#[trigger] keys@[k])@ == text::lowercase(configs@[k].name@),
        decreases configs.len() - i,
    {
        let lower = text::to_lowercase(configs[i].name.as_str());
        keys.push(text::chars_of(lower.as_str()));
        i = i + 1;
    }
    let order = sorting::text_order(&keys);
    let ghost all = configs@;
    assert(text::char_lists(keys@) =~= lower_names(configs@));
    let sorted = sorting::reorder(configs, &order);
    assert(sorted@ =~= Seq::new(all.len(), |i: int| all[order@[i] as int]));
    sorted
}

/// The position of the first configuration called `name`.
pub fn config_position(configs: &Vec<LogConfig>, name: &str) -> (position: Option<usize>)
    ensures
        match position {
            Some(p) => p < configs@.len() && configs@[p as int].name@ == name@ && forall|k: int|
                0 <= k < p ==> (#[trigger] configs@[k]).name@ != name@,
            None => forall|k: int|
                0 <= k < configs@.len() ==> (#[trigger] configs@[k]).name@ != name@,
        },
{
    let mut i: usize = 0;
    while i < configs.len()
        invariant
            i <= configs@.len(),
            forall|k: int| 0 <= k < i ==> (#[trigger] configs@[k]).name@ != name@,
        decreases configs.len() - i,
    {
        if text::same_text(configs[i].name.as_str(), name) {
            return Some(i);
        }
        i = i + 1;
    }
    None
}

// ---------------------------------------------------------------------------
// Blocks
// ---------------------------------------------------------------------------

/// The type of a log variable.
#[derive(Debug, Clone, Copy, PartialEq, Eq, Structural)]
pub enum VariableType {
    U8,
    U16,
    U32,
    U64,
    I8,
    I16,
    I32,
    I64,
    Half,
    Single,
    Double,
}

/// The bytes that a value of this type takes in a log packet.
pub open spec fn bytes_of(t: VariableType) -> nat {
    match t {
        VariableType::U8 | VariableType::I8 => 1,
        VariableType::U16 | VariableType::I16 | VariableType::Half => 2,
        VariableType::U32 | VariableType::I32 | VariableType::Single => 4,
        VariableType::U64 | VariableType::I64 | VariableType::Double => 8,
    }
}

/// `crazyflie_lib::ValueType::byte_length`: the length in bytes of a value of the type of the
/// same name (`F16`, `F32` and `F64` for the floating-point ones).
#[verifier::external_body]
fn byte_length(t: VariableType) -> (n: usize)
    ensures
        n == bytes_of(t),
{
    let outside = match t {
        VariableType::U8 => crazyflie_lib::ValueType::U8,
        VariableType::U16 => crazyflie_lib::ValueType::U16,
        VariableType::U32 => crazyflie_lib::ValueType::U32,
        VariableType::U64 => crazyflie_lib::ValueType::U64,
        VariableType::I8 => crazyflie_lib::ValueType::I8,
        VariableType::I16 => crazyflie_lib::ValueType::I16,
        VariableType::I32 => crazyflie_lib::ValueType::I32,
        VariableType::I64 => crazyflie_lib::ValueType::I64,
        VariableType::Half => crazyflie_lib::ValueType::F16,
        VariableType::Single => crazyflie_lib::ValueType::F32,
        VariableType::Double => crazyflie_lib::ValueType::F64,
    };
    outside.byte_length()
}

/// The bytes reserved for a variable: four when its type is not known.
pub open spec fn reserved_bytes(t: Option<VariableType>) -> nat {
    match t {
        Some(t) => bytes_of(t),
        None => 4,
    }
}

/// A variable with the bytes reserved for it.
pub struct SizedName {
    pub name: Seq<char>,
    pub size: nat,
}

/// The variables with their sizes.
pub open spec fn sized(names: Seq<String>, types: Seq<Option<VariableType>>) -> Seq<SizedName> {
    Seq::new(names.len(), |i: int| SizedName { name: names[i]@, size: reserved_bytes(types[i]) })
}

/// The bytes of a block.
pub open spec fn total_size(block: Seq<SizedName>) -> nat
    decreases block.len(),
{
    if block.len() == 0 {
        0
    } else {
        total_size(block.drop_last()) + block.last().size
    }
}

/// The variables in blocks: each joins the last block if that stays within the budget, and opens
/// a new one otherwise.
pub open spec fn blocks_of(items: Seq<SizedName>, budget: nat) -> Seq<Seq<SizedName>>
    decreases items.len(),
{
    if items.len() == 0 {
        Seq::empty()
    } else {
        let before = blocks_of(items.drop_last(), budget);
        if before.len() == 0 || total_size(before.last()) + items.last().size > budget {
            before.push(seq![items.last()])
        } else {
            before.update(before.len() - 1, before.last().push(items.last()))
        }
    }
}

/// All variables of the blocks, one block after another.
pub open spec fn flattened(blocks: Seq<Seq<SizedName>>) -> Seq<SizedName>
    decreases blocks.len(),
{
    if blocks.len() == 0 {
        Seq::empty()
    } else {
        flattened(blocks.drop_last()) + blocks.last()
    }
}

/// Cutting into blocks loses nothing and keeps the order; no block is empty; a block of more than
/// one variable fits the budget; and every block but the last is full: the first variable of the
/// next one would not have fit.
pub proof fn law_blocks(items: Seq<SizedName>, budget: nat)
    ensures
        flattened(blocks_of(items, budget)) == items,
        blocks_of(items, budget).len() == 0 <==> items.len() == 0,
        forall|b: int|
            0 <= b < blocks_of(items, budget).len() ==> {
                &&& (#[trigger] blocks_of(items, budget)[b]).len() > 0
                &&& blocks_of(items, budget)[b].len() > 1 ==> total_size(
                    blocks_of(items, budget)[b],
                ) <= budget
            },
        forall|b: int|
            0 <= b < blocks_of(items, budget).len() - 1 ==> total_size(
                #[trigger] blocks_of(items, budget)[b],
            ) + blocks_of(items, budget)[b + 1][0].size > budget,
    decreases items.len(),
{
    if items.len() > 0 {
        law_blocks(items.drop_last(), budget);
        let before = blocks_of(items.drop_last(), budget);
        let all = blocks_of(items, budget);
        let item = items.last();
        if before.len() == 0 || total_size(before.last()) + item.size > budget {
            assert(all == before.push(seq![item]));
            assert(all.drop_last() =~= before);
            assert(flattened(all) =~= items);
            assert forall|b: int| 0 <= b < all.len() - 1 implies total_size(#[trigger] all[b])
                + all[b + 1][0].size > budget by {
                if b < before.len() - 1 {
                    assert(all[b] == before[b]);
                    assert(all[b + 1] == before[b + 1]);
                } else {
                    assert(all[b] == before.last());
                    assert(all[b + 1] == seq![item]);
                }
            }
            assert(total_size(seq![item]) >= 0);
        } else {
            let last = before.last().push(item);
            assert(all == before.update(before.len() - 1, last));
            assert(all.drop_last() =~= before.drop_last());
            assert(flattened(all) =~= flattened(before).push(item));
            assert(last.drop_last() =~= before.last());
            assert forall|b: int| 0 <= b < all.len() - 1 implies total_size(#[trigger] all[b])
                + all[b + 1][0].size > budget by {
                assert(all[b] == before[b]);
                assert(all[b + 1][0] == before[b + 1][0]);
            }
        }
    }
}

/// The names in the blocks.
pub open spec fn block_names(blocks: Seq<Seq<SizedName>>) -> Seq<Seq<Seq<char>>> {
    Seq::new(
        blocks.len(),
        |b: int| Seq::new(blocks[b].len(), |k: int| blocks[b][k].name),
    )
}

/// The names in lists of strings.
pub open spec fn nested_texts(v: Seq<Vec<String>>) -> Seq<Seq<Seq<char>>> {
    Seq::new(v.len(), |b: int| text::texts(v[b]@))
}

/// The payload budget of a log block in bytes.
pub const BLOCK_BUDGET_BYTES: usize = 24;

/// Cuts the variables into log blocks of at most `budget` bytes each, in order.
pub fn chunk_by_bytes(
    names: &Vec<String>,
    types: &Vec<Option<VariableType>>,
    budget: usize,
) -> (chunks: Vec<Vec<String>>)
    requires
        names@.len() == types@.len(),
        budget <= usize::MAX - 8,
    ensures
        nested_texts(chunks@) == block_names(blocks_of(sized(names@, types@), budget as nat)),
{
    let mut chunks: Vec<Vec<String>> = Vec::new();
    let mut cur: Vec<String> = Vec::new();
    let mut used: usize = 0;
    let mut i: usize = 0;
    let ghost items = sized(names@, types@);
    let ghost mut blocks: Seq<Seq<SizedName>> = Seq::empty();
    assert(items.take(0) =~= Seq::empty());
    while i < names.len()
        invariant
            i <= names@.len(),
            names@.len() == types@.len(),
            budget <= usize::MAX - 8,
            items == sized(names@, types@),
            blocks == blocks_of(items.take(i as int), budget as nat),
            cur@.len() == 0 <==> i == 0,
            i == 0 ==> blocks.len() == 0 && chunks@.len() == 0 && used == 0,
            i > 0 ==> {
                &&& blocks.len() == chunks@.len() + 1
                &&& nested_texts(chunks@) =~= block_names(blocks.drop_last())
                &&& cur@.len() == blocks.last().len()
                &&& text::texts(cur@) =~= block_names(blocks)[blocks.len() - 1]
                &&& used == total_size(blocks.last())
                &&& used <= budget || used <= 8
            },
        decreases names.len() - i,
    {
        let size: usize = match types[i] {
            Some(t) => byte_length(t),
            None => 4,
        };
        let ghost item = items[i as int];
        assert(items.take(i + 1).drop_last() =~= items.take(i as int));
        assert(items.take(i + 1).last() == item);
        let ghost before = blocks;
        let ghost next = blocks_of(items.take(i + 1), budget as nat);
        let ghost old_chunks = chunks@;
        let ghost old_cur = cur@;
        if cur.len() > 0 && used + size > budget {
            chunks.push(cur);
            cur = Vec::new();
            used = 0;
            proof {
                assert(next == before.push(seq![item]));
                assert(next.drop_last() =~= before);
                assert(block_names(before) =~= block_names(before.drop_last()).push(
                    text::texts(old_cur),
                ));
                assert(nested_texts(chunks@) =~= nested_texts(old_chunks).push(text::texts(old_cur)));
                assert(nested_texts(chunks@) =~= block_names(next.drop_last()));
                assert(seq![item].drop_last() =~= Seq::empty());
                assert(total_size(seq![item]) == item.size) by {
                    reveal_with_fuel(total_size, 2);
                }
            }
        } else {
            proof {
                if i == 0 {
                    assert(next == before.push(seq![item]));
                    assert(next.drop_last() =~= before);
                    assert(seq![item].drop_last() =~= Seq::empty());
                    assert(total_size(seq![item]) == item.size) by {
                        reveal_with_fuel(total_size, 2);
                    }
                    assert(nested_texts(chunks@) =~= block_names(next.drop_last()));
                } else {
                    let grown = before.last().push(item);
                    assert(next == before.update(before.len() - 1, grown));
                    assert(next.drop_last() =~= before.drop_last());
                    assert(grown.drop_last() =~= before.last());
                }
            }
        }
        let ghost part = cur@;
        cur.push(names[i].clone());
        used = used + size;
        proof {
            blocks = next;
            assert(text::texts(cur@) =~= text::texts(part).push(item.name));
            assert(text::texts(cur@) =~= block_names(blocks)[blocks.len() - 1]);
        }
        i = i + 1;
    }
    assert(items.take(names@.len() as int) =~= items);
    if cur.len() > 0 {
        let ghost old_chunks = chunks@;
        let ghost old_cur = cur@;
        chunks.push(cur);
        proof {
            assert(block_names(blocks) =~= block_names(blocks.drop_last()).push(text::texts(old_cur)));
            assert(nested_texts(chunks@) =~= nested_texts(old_chunks).push(text::texts(old_cur)));
        }
    }
    assert(nested_texts(chunks@) =~= block_names(blocks));
    chunks
}

// ---------------------------------------------------------------------------
// Periods
// ---------------------------------------------------------------------------

/// A period that the firmware accepts.
#[verifier::external_type_specification]
#[verifier::external_body]
pub struct ExLogPeriod(crazyflie_lib::subsystems::log::LogPeriod);

/// The errors of the Crazyflie library.
#[verifier::external_type_specification]
#[verifier::external_body]
pub struct ExCrazyflieError(crazyflie_lib::Error);

/// The period made of a number of milliseconds, as `LogPeriod::from_millis` makes it.
pub uninterp spec fn log_period(ms: nat) -> crazyflie_lib::subsystems::log::LogPeriod;

/// `crazyflie_lib::subsystems::log::LogPeriod::from_millis`: a period counts tens of
/// milliseconds in a byte, so it succeeds exactly from 10 to 2559 ms; the period then depends on
/// the number of milliseconds alone.
#[verifier::external_body]
fn period_from_millis(ms: u64) -> (r: Result<
    crazyflie_lib::subsystems::log::LogPeriod,
    crazyflie_lib::Error,
>)
    ensures
        r is Ok <==> 10 <= ms <= 2559,
        r matches Ok(period) ==> period == log_period(ms as nat),
{
    crazyflie_lib::subsystems::log::LogPeriod::from_millis(ms)
}

/// The period within the accepted range that is nearest to `ms`.
pub open spec fn clamped(ms: u64) -> u64 {
    if ms < 10 {
        10
    } else if ms > 2550 {
        2550
    } else {
        ms
    }
}

/// The period in milliseconds with which a configuration is started.
pub fn start_period_ms(config: &LogConfig) -> (ms: u64)
    ensures
        ms == clamped(config.period_ms),
{
    if config.period_ms < 10 {
        10
    } else if config.period_ms > 2550 {
        2550
    } else {
        config.period_ms
    }
}

/// The period of a log block, or the message that it is not valid.
pub fn block_period(ms: u64) -> (r: Result<crazyflie_lib::subsystems::log::LogPeriod, String>)
    ensures
        r is Ok <==> 10 <= ms <= 2559,
        r matches Ok(period) ==> period == log_period(ms as nat),
        r matches Err(message) ==> message@ == "Invalid log period (10..=2550 ms)."@,
{
    match period_from_millis(ms) {
        Ok(period) => Ok(period),
        Err(_) => Err("Invalid log period (10..=2550 ms).".to_string()),
    }
}

/// The period that a configuration is started with is always a valid one.
pub proof fn law_clamped_period_valid(ms: u64)
    ensures
        10 <= clamped(ms) <= 2559,
        10 <= ms <= 2550 ==> clamped(ms) == ms,
        clamped(clamped(ms)) == clamped(ms),
{
}

// ---------------------------------------------------------------------------
// Streaming
// ---------------------------------------------------------------------------

/// Whether `name` is one of `list`.
pub open spec fn has_name(list: Seq<String>, name: Seq<char>) -> bool {
    exists|i: int| 0 <= i < list.len() && (#[trigger] list[i])@ == name
}

/// Whether `name` is one of `list`.
pub fn contains_name(list: &Vec<String>, name: &str) -> (r: bool)
    ensures
        r == has_name(list@, name@),
{
    let mut i: usize = 0;
    while i < list.len()
        invariant
            i <= list@.len(),
            forall|k: int| 0 <= k < i ==> (#[trigger] list@[k])@ != name@,
        decreases list.len() - i,
    {
        if text::same_text(list[i].as_str(), name) {
            return true;
        }
        i = i + 1;
    }
    false
}

/// The variables that the unit knows, in order.
pub open spec fn known_names(variables: Seq<String>, toc: Seq<String>) -> Seq<String>
    decreases variables.len(),
{
    if variables.len() == 0 {
        Seq::empty()
    } else if has_name(toc, variables.last()@) {
        known_names(variables.drop_last(), toc).push(variables.last())
    } else {
        known_names(variables.drop_last(), toc)
    }
}

/// The variables of a configuration that the unit's table of contents holds.
pub fn known_variables(variables: &Vec<String>, toc: &Vec<String>) -> (names: Vec<String>)
    ensures
        names@ == known_names(variables@, toc@),
        names@.len() <= variables@.len(),
{
    let mut names: Vec<String> = Vec::new();
    let mut i: usize = 0;
    assert(variables@.take(0) =~= Seq::empty());
    while i < variables.len()
        invariant
            i <= variables@.len(),
            names@ == known_names(variables@.take(i as int), toc@),
            names@.len() <= i,
        decreases variables.len() - i,
    {
        assert(variables@.take(i + 1).drop_last() =~= variables@.take(i as int));
        if contains_name(toc, variables[i].as_str()) {
            names.push(variables[i].clone());
        }
        i = i + 1;
    }
    assert(variables@.take(variables@.len() as int) =~= variables@);
    names
}

/// The position of the first slot called `name`, or the number of slots.
pub open spec fn slot_position(slots: Seq<SlotView>, name: Seq<char>) -> int
    decreases slots.len(),
{
    if slots.len() == 0 {
        0
    } else if slots[0].name == name {
        0
    } else {
        1 + slot_position(slots.skip(1), name)
    }
}

/// `slot_position` finds the first slot of that name, if there is one.
pub proof fn lemma_slot_position(slots: Seq<SlotView>, name: Seq<char>)
    ensures
        0 <= slot_position(slots, name) <= slots.len(),
        slot_position(slots, name) < slots.len() ==> slots[slot_position(slots, name)].name
            == name,
        forall|k: int| 0 <= k < slot_position(slots, name) ==> (#[trigger] slots[k]).name != name,
    decreases slots.len(),
{
    if slots.len() > 0 && slots[0].name != name {
        lemma_slot_position(slots.skip(1), name);
        assert forall|k: int| 0 <= k < slot_position(slots, name) implies (#[trigger] slots[k]).name
            != name by {
            if k > 0 {
                assert(slots.skip(1)[k - 1] == slots[k]);
            }
        }
        let p = slot_position(slots.skip(1), name);
        if p < slots.skip(1).len() {
            assert(slots.skip(1)[p] == slots[p + 1]);
        }
    }
}

fn find_slot(slots: &Vec<PlotSlot>, name: &str) -> (position: usize)
    ensures
        position == slot_position(plot::slot_views(slots@), name@),
        position <= slots@.len(),
{
    let mut i: usize = 0;
    let ghost views = plot::slot_views(slots@);
    assert(views.skip(0) =~= views);
    while i < slots.len()
        invariant
            i <= slots@.len(),
            views == plot::slot_views(slots@),
            slot_position(views, name@) == i + slot_position(views.skip(i as int), name@),
        decreases slots.len() - i,
    {
        assert(views.skip(i as int)[0] == slots@[i as int]@);
        if text::same_text(slots[i].name.as_str(), name) {
            return i;
        }
        assert(views.skip(i as int).skip(1) =~= views.skip(i + 1));
        i = i + 1;
    }
    i
}

/// A new, empty slot for the variable `name` at position `index`.
pub open spec fn new_slot(name: Seq<char>, group: Seq<char>, index: int) -> SlotView {
    SlotView {
        name,
        group,
        color: plot::palette()[index % 10],
        active: true,
        series: Seq::empty(),
    }
}

/// New slots for `names`, in order.
pub open spec fn new_slots(names: Seq<Seq<char>>, group: Seq<char>) -> Seq<SlotView> {
    Seq::new(names.len(), |i: int| new_slot(names[i], group, i))
}

/// The slots with new ones behind them for those of `names` that have none.
pub open spec fn completed(slots: Seq<SlotView>, names: Seq<Seq<char>>, group: Seq<char>) -> Seq<
    SlotView,
>
    decreases names.len(),
{
    if names.len() == 0 {
        slots
    } else {
        let before = completed(slots, names.drop_last(), group);
        if slot_position(before, names.last()) < before.len() {
            before
        } else {
            before.push(new_slot(names.last(), group, before.len() as int))
        }
    }
}

fn make_slot(name: &String, group: &String, index: usize) -> (slot: PlotSlot)
    ensures
        slot@ == new_slot(name@, group@, index as int),
{
    let slot = PlotSlot {
        name: name.clone(),
        group: group.clone(),
        color: color_for(index),
        active: true,
        series: Vec::new(),
    };
    assert(slot@.series =~= Seq::empty());
    slot
}

/// Whether the configuration called `name` is the one that is loaded.
pub open spec fn is_loaded(loaded: Option<String>, name: Seq<char>) -> bool {
    loaded is Some && loaded->0@ == name
}

fn loaded_is(loaded: &Option<String>, name: &str) -> (r: bool)
    ensures
        r == is_loaded(*loaded, name@),
{
    match loaded {
        Some(l) => text::same_text(l.as_str(), name),
        None => false,
    }
}

/// Makes the slots ready for a stream of `names`. A configuration other than the loaded one
/// starts with empty slots and a fresh view; the loaded one keeps its samples and gets slots for
/// the variables that have none.
pub fn prepare_slots(state: &mut PlotState, config: &LogConfig, names: &Vec<String>)
    ensures
        final(state).dirty,
        final(state).px == old(state).px,
        final(state).rebuild_pending == old(state).rebuild_pending,
        is_loaded(final(state).loaded_config, config.name@),
        !is_loaded(old(state).loaded_config, config.name@) ==> {
            &&& plot::slot_views(final(state).slots@) == new_slots(text::texts(names@), config.name@)
            &&& final(state).view == plot::fresh_view()
        },
        is_loaded(old(state).loaded_config, config.name@) ==> {
            &&& plot::slot_views(final(state).slots@) == completed(
                plot::slot_views(old(state).slots@),
                text::texts(names@),
                config.name@,
            )
            &&& final(state).view == old(state).view
        },
{
    if !loaded_is(&state.loaded_config, config.name.as_str()) {
        let mut slots: Vec<PlotSlot> = Vec::new();
        let mut i: usize = 0;
        while i < names.len()
            invariant
                i <= names@.len(),
                slots@.len() == i,
                forall|k: int|
                    0 <= k < i ==> (#[trigger] slots@[k])@ == new_slot(
                        names@[k]@,
                        config.name@,
                        k,
                    ),
            decreases names.len() - i,
        {
            slots.push(make_slot(&names[i], &config.name, i));
            i = i + 1;
        }
        assert(plot::slot_views(slots@) =~= new_slots(text::texts(names@), config.name@));
        state.slots = slots;
        state.view = PlotView::default();
        state.loaded_config = Some(config.name.clone());
    } else {
        let mut i: usize = 0;
        let ghost before = plot::slot_views(state.slots@);
        let ghost list = text::texts(names@);
        assert(list.take(0) =~= Seq::empty());
        while i < names.len()
            invariant
                i <= names@.len(),
                list == text::texts(names@),
                plot::slot_views(state.slots@) == completed(before, list.take(i as int), config.name@),
                state.view == old(state).view,
                state.px == old(state).px,
                state.rebuild_pending == old(state).rebuild_pending,
                state.loaded_config == old(state).loaded_config,
            decreases names.len() - i,
        {
            let ghost mid = state.slots@;
            assert(list.take(i + 1).drop_last() =~= list.take(i as int));
            assert(list.take(i + 1).last() == names@[i as int]@);
            let at: usize = find_slot(&state.slots, names[i].as_str());
            assert(plot::slot_views(mid).len() == mid.len());
            if at == state.slots.len() {
                let slot = make_slot(&names[i], &config.name, state.slots.len());
                let ghost added = slot@;
                state.slots.push(slot);
                assert(plot::slot_views(state.slots@) =~= plot::slot_views(mid).push(added));
            }
            i = i + 1;
        }
        assert(list.take(names@.len() as int) =~= list);
    }
    state.dirty = true;
}

/// Resuming a configuration keeps every slot with its samples in place, and afterwards every
/// streamed variable has a slot.
pub proof fn law_resume_keeps_slots(
    slots: Seq<SlotView>,
    names: Seq<Seq<char>>,
    group: Seq<char>,
)
    ensures
        slots.len() <= completed(slots, names, group).len(),
        completed(slots, names, group).take(slots.len() as int) == slots,
        forall|i: int|
            0 <= i < names.len() ==> slot_position(
                completed(slots, names, group),
                #[trigger] names[i],
            ) < completed(slots, names, group).len(),
    decreases names.len(),
{
    let after = completed(slots, names, group);
    if names.len() == 0 {
        assert(after.take(slots.len() as int) =~= slots);
    } else {
        let mid = completed(slots, names.drop_last(), group);
        law_resume_keeps_slots(slots, names.drop_last(), group);
        assert forall|k: int| 0 <= k < mid.len() implies after[k] == mid[k] by {}
        assert(after.take(slots.len() as int) =~= mid.take(slots.len() as int));
        assert forall|i: int| 0 <= i < names.len() implies slot_position(
            after,
            #[trigger] names[i],
        ) < after.len() by {
            lemma_slot_position(after, names[i]);
            if i < names.len() - 1 {
                assert(names.drop_last()[i] == names[i]);
                lemma_slot_position(mid, names[i]);
                assert(after[slot_position(mid, names[i])].name == names[i]);
            } else if after != mid {
                assert(after[after.len() - 1].name == names[i]);
            }
        }
    }
}

/// The slots after one value arrived for the variable `name`.
pub open spec fn value_recorded(
    slots: Seq<SlotView>,
    ts_ms: i64,
    name: Seq<char>,
    value: u64,
) -> Seq<SlotView> {
    let p = slot_position(slots, name);
    if p < slots.len() {
        slots.update(
            p,
            SlotView {
                series: plot::newest(
                    slots[p].series.push(plot::SeriesPoint { ts_ms, value }),
                    plot::MAX_POINTS as nat,
                ),
                ..slots[p]
            },
        )
    } else {
        slots
    }
}

/// The slots after the values of a packet arrived, in order.
pub open spec fn packet_recorded(slots: Seq<SlotView>, ts_ms: i64, data: Seq<(String, u64)>) -> Seq<
    SlotView,
>
    decreases data.len(),
{
    if data.len() == 0 {
        slots
    } else {
        value_recorded(
            packet_recorded(slots, ts_ms, data.drop_last()),
            ts_ms,
            data.last().0@,
            data.last().1,
        )
    }
}

/// The order in which the values of two different variables arrive makes no difference.
pub proof fn law_record_order(
    slots: Seq<SlotView>,
    ts_ms: i64,
    a: Seq<char>,
    va: u64,
    b: Seq<char>,
    vb: u64,
)
    requires
        a != b,
    ensures
        value_recorded(value_recorded(slots, ts_ms, a, va), ts_ms, b, vb) == value_recorded(
            value_recorded(slots, ts_ms, b, vb),
            ts_ms,
            a,
            va,
        ),
{
    let with_a = value_recorded(slots, ts_ms, a, va);
    let with_b = value_recorded(slots, ts_ms, b, vb);
    lemma_slot_position(slots, a);
    lemma_slot_position(slots, b);
    lemma_same_names(slots, with_a, b);
    lemma_same_names(slots, with_b, a);
    assert(value_recorded(with_a, ts_ms, b, vb) =~= value_recorded(with_b, ts_ms, a, va));
}

proof fn lemma_same_names(s: Seq<SlotView>, t: Seq<SlotView>, name: Seq<char>)
    requires
        s.len() == t.len(),
        forall|k: int| 0 <= k < s.len() ==> (#[trigger] s[k]).name == t[k].name,
    ensures
        slot_position(s, name) == slot_position(t, name),
{
    lemma_slot_position(s, name);
    lemma_slot_position(t, name);
    let p = slot_position(s, name);
    let q = slot_position(t, name);
    if p < q {
        assert(s[p].name == t[p].name);
    } else if q < p {
        assert(s[q].name == t[q].name);
    }
}

/// Takes over the values of a log packet: each goes to the first slot of its name, a value
/// without a slot is dropped.
pub fn record_packet(state: &mut PlotState, timestamp: u32, data: &Vec<(String, u64)>)
    ensures
        plot::slot_views(final(state).slots@) == packet_recorded(
            plot::slot_views(old(state).slots@),
            timestamp as i64,
            data@,
        ),
        final(state).dirty,
        final(state).view == old(state).view,
        final(state).px == old(state).px,
        final(state).rebuild_pending == old(state).rebuild_pending,
        final(state).loaded_config == old(state).loaded_config,
{
    let ts: i64 = timestamp as i64;
    let ghost before = plot::slot_views(state.slots@);
    let mut i: usize = 0;
    assert(data@.take(0) =~= Seq::empty());
    while i < data.len()
        invariant
            i <= data@.len(),
            ts == timestamp as i64,
            plot::slot_views(state.slots@) == packet_recorded(before, ts, data@.take(i as int)),
            state.view == old(state).view,
            state.px == old(state).px,
            state.rebuild_pending == old(state).rebuild_pending,
            state.loaded_config == old(state).loaded_config,
        decreases data.len() - i,
    {
        let ghost mid = plot::slot_views(state.slots@);
        assert(data@.take(i + 1).drop_last() =~= data@.take(i as int));
        assert(data@.take(i + 1).last() == data@[i as int]);
        let at: usize = find_slot(&state.slots, data[i].0.as_str());
        if at < state.slots.len() {
            state.slots[at].push(ts, data[i].1);
        }
        assert(plot::slot_views(state.slots@) =~= value_recorded(
            mid,
            ts,
            data@[i as int].0@,
            data@[i as int].1,
        ));
        i = i + 1;
    }
    assert(data@.take(data@.len() as int) =~= data@);
    state.dirty = true;
}

/// What the run of a stream does next.
#[derive(Debug, Clone, Copy, PartialEq, Eq, Structural)]
pub enum StreamAction {
    /// Create a log block, and report how that went.
    CreateBlock,
    /// Add the variables of this block, whatever comes of each, start it, and report how the
    /// start went.
    FillBlock(usize),
    /// Take over packets until the streams end.
    Listen,
    /// The run is over.
    Stop,
}

/// What happened to the run of a stream.
pub enum StreamEvent {
    BlockCreated,
    BlockRefused(String),
    BlockStarted(bool),
    StreamsEnded,
}

/// The next action, with what the status line and the logging switch show from now on.
pub struct StreamStep {
    pub action: StreamAction,
    pub status: Option<String>,
    pub logging: Option<bool>,
}

/// The run of one configuration on one unit.
pub struct StreamRun {
    /// The variables of each block.
    pub chunks: Vec<Vec<String>>,
    /// The block that is being set up.
    pub chunk: usize,
    /// How many blocks were started.
    pub started: usize,
    /// How many variables are streamed.
    pub variables: usize,
    /// How many variables of the configuration the unit does not know.
    pub missing: usize,
    pub period_ms: u64,
}

/// The step that ends a run with a message.
pub open spec fn ends_with(step: StreamStep, message: Seq<char>) -> bool {
    &&& step.action == StreamAction::Stop
    &&& step.status is Some
    &&& step.status->0@ == message
    &&& step.logging == Some(false)
}

/// The step that only names the next action.
pub open spec fn quietly(step: StreamStep, action: StreamAction) -> bool {
    &&& step.action == action
    &&& step.status is None
    &&& step.logging is None
}

fn end(message: &str) -> (step: StreamStep)
    ensures
        ends_with(step, message@),
{
    StreamStep {
        action: StreamAction::Stop,
        status: Some(message.to_string()),
        logging: Some(false),
    }
}

/// The status line of a running stream.
pub open spec fn streaming_status(variables: nat, period_ms: nat, missing: nat) -> Seq<char> {
    let head = "Logging "@ + text::decimal(variables) + " var(s) @ "@ + text::decimal(period_ms) + " ms"@;
    if missing == 0 {
        head
    } else {
        head + " ("@ + text::decimal(missing) + " not on TOC)"@
    }
}

/// The status line of a running stream.
pub fn streaming_status_text(variables: usize, period_ms: u64, missing: usize) -> (s: String)
    ensures
        s@ == streaming_status(variables as nat, period_ms as nat, missing as nat),
{
    let mut s = "Logging ".to_string();
    text::push_decimal(&mut s, variables as u64);
    s.append(" var(s) @ ");
    text::push_decimal(&mut s, period_ms);
    s.append(" ms");
    if missing != 0 {
        s.append(" (");
        text::push_decimal(&mut s, missing as u64);
        s.append(" not on TOC)");
    }
    s
}

/// How the streaming of some variables of a configuration begins: the blocks and counts of the
/// run, the first step, and the plot before and after. Without any variable the run is over and
/// the plot stays as it is; otherwise the plot has a slot for each.
pub open spec fn stream_begins(
    before: PlotState,
    after: PlotState,
    config: LogConfig,
    names: Seq<String>,
    types: Seq<Option<VariableType>>,
    run: StreamRun,
    step: StreamStep,
) -> bool {
    &&& run.variables == names.len()
    &&& run.missing == config.variables@.len() - names.len()
    &&& run.period_ms == clamped(config.period_ms)
    &&& run.chunk == 0
    &&& run.started == 0
    &&& nested_texts(run.chunks@) == block_names(
        blocks_of(sized(names, types), BLOCK_BUDGET_BYTES as nat),
    )
    &&& names.len() == 0 ==> {
        &&& after == before
        &&& ends_with(step, "None of the config's variables exist on this unit's TOC."@)
    }
    &&& names.len() > 0 ==> {
        &&& quietly(step, StreamAction::CreateBlock)
        &&& run.chunks@.len() > 0
        &&& after.dirty
        &&& after.px == before.px
        &&& after.rebuild_pending == before.rebuild_pending
        &&& is_loaded(after.loaded_config, config.name@)
        &&& !is_loaded(before.loaded_config, config.name@) ==> plot::slot_views(after.slots@)
            == new_slots(text::texts(names), config.name@) && after.view == plot::fresh_view()
        &&& is_loaded(before.loaded_config, config.name@) ==> plot::slot_views(after.slots@)
            == completed(plot::slot_views(before.slots@), text::texts(names), config.name@)
            && after.view == before.view
    }
}

/// Begins to stream those variables of a configuration that the unit knows, with their types.
pub fn run_plot_log(
    state: &mut PlotState,
    config: &LogConfig,
    names: &Vec<String>,
    types: &Vec<Option<VariableType>>,
) -> (r: (StreamRun, StreamStep))
    requires
        names@.len() == types@.len(),
        names@.len() <= config.variables@.len(),
    ensures
        stream_begins(*old(state), *final(state), *config, names@, types@, r.0, r.1),
{
    let missing: usize = config.variables.len() - names.len();
    let period_ms: u64 = start_period_ms(config);
    let chunks = chunk_by_bytes(names, types, BLOCK_BUDGET_BYTES);
    proof {
        law_blocks(sized(names@, types@), BLOCK_BUDGET_BYTES as nat);
        assert(nested_texts(chunks@).len() == chunks@.len());
    }
    let step = if names.len() == 0 {
        end("None of the config's variables exist on this unit's TOC.")
    } else {
        prepare_slots(state, config, names);
        StreamStep { action: StreamAction::CreateBlock, status: None, logging: None }
    };
    (
        StreamRun { chunks, chunk: 0, started: 0, variables: names.len(), missing, period_ms },
        step,
    )
}

/// The type that the table of contents gives for a name; none if it does not hold the name.
pub open spec fn type_in(
    toc: Seq<String>,
    types: Seq<Option<VariableType>>,
    name: Seq<char>,
) -> Option<VariableType>
    decreases toc.len(),
{
    if toc.len() == 0 {
        None
    } else if toc[0]@ == name {
        types[0]
    } else {
        type_in(toc.skip(1), types.skip(1), name)
    }
}

/// The types that the table of contents gives for names, one by one.
pub open spec fn types_in(
    toc: Seq<String>,
    types: Seq<Option<VariableType>>,
    names: Seq<String>,
) -> Seq<Option<VariableType>> {
    Seq::new(names.len(), |i: int| type_in(toc, types, names[i]@))
}

fn find_type(toc: &Vec<String>, types: &Vec<Option<VariableType>>, name: &str) -> (t: Option<
    VariableType,
>)
    requires
        toc@.len() == types@.len(),
    ensures
        t == type_in(toc@, types@, name@),
{
    let mut i: usize = 0;
    assert(toc@.skip(0) =~= toc@);
    assert(types@.skip(0) =~= types@);
    while i < toc.len()
        invariant
            i <= toc@.len(),
            toc@.len() == types@.len(),
            type_in(toc@, types@, name@) == type_in(
                toc@.skip(i as int),
                types@.skip(i as int),
                name@,
            ),
        decreases toc.len() - i,
    {
        assert(toc@.skip(i as int)[0] == toc@[i as int]);
        assert(types@.skip(i as int)[0] == types@[i as int]);
        assert(toc@.skip(i as int).skip(1) =~= toc@.skip(i + 1));
        assert(types@.skip(i as int).skip(1) =~= types@.skip(i + 1));
        if text::same_text(toc[i].as_str(), name) {
            return types[i];
        }
        i = i + 1;
    }
    None
}

/// Begins to stream a configuration from a unit with this table of contents, given as the names
/// of its variables and their types. Those variables of the configuration that it holds are
/// streamed, in the order of the configuration.
pub fn stream_config(
    state: &mut PlotState,
    config: &LogConfig,
    toc: &Vec<String>,
    toc_types: &Vec<Option<VariableType>>,
) -> (r: (StreamRun, StreamStep))
    requires
        toc@.len() == toc_types@.len(),
    ensures
        ({
            let names = known_names(config.variables@, toc@);
            stream_begins(
                *old(state),
                *final(state),
                *config,
                names,
                types_in(toc@, toc_types@, names),
                r.0,
                r.1,
            )
        }),
{
    let names = known_variables(&config.variables, toc);
    let mut types: Vec<Option<VariableType>> = Vec::new();
    let mut i: usize = 0;
    while i < names.len()
        invariant
            i <= names@.len(),
            toc@.len() == toc_types@.len(),
            types@.len() == i,
            forall|k: int|
                0 <= k < i ==> #[trigger] types@[k] == type_in(toc@, toc_types@, names@[k]@),
        decreases names.len() - i,
    {
        types.push(find_type(toc, toc_types, names[i].as_str()));
        i = i + 1;
    }
    assert(types@ =~= types_in(toc@, toc_types@, names@));
    run_plot_log(state, config, &names, &types)
}

/// Every streamed variable is one of the configuration that the table of contents holds, and
/// every such variable is streamed.
pub proof fn law_known_names(variables: Seq<String>, toc: Seq<String>, name: Seq<char>)
    ensures
        has_name(known_names(variables, toc), name) <==> has_name(variables, name) && has_name(
            toc,
            name,
        ),
        known_names(variables, toc).len() <= variables.len(),
    decreases variables.len(),
{
    if variables.len() > 0 {
        let before = variables.drop_last();
        let kept = known_names(before, toc);
        law_known_names(before, toc, name);
        let all = known_names(variables, toc);
        if has_name(variables, name) {
            let i = choose|i: int| 0 <= i < variables.len() && (#[trigger] variables[i])@ == name;
            if i < before.len() {
                assert(before[i]@ == name);
            }
        }
        if has_name(before, name) {
            let i = choose|i: int| 0 <= i < before.len() && (#[trigger] before[i])@ == name;
            assert(variables[i]@ == name);
        }
        if has_name(kept, name) {
            let i = choose|i: int| 0 <= i < kept.len() && (#[trigger] kept[i])@ == name;
            assert(all[i]@ == name);
        }
        if has_name(all, name) {
            let i = choose|i: int| 0 <= i < all.len() && (#[trigger] all[i])@ == name;
            if i < kept.len() {
                assert(kept[i]@ == name);
            } else {
                assert(variables[variables.len() - 1]@ == name);
            }
        }
        if has_name(toc, variables.last()@) {
            assert(all[kept.len() as int] == variables.last());
        }
    }
}

impl StreamRun {
    /// A block is being set up, and no more were started than have been.
    pub open spec fn setting_up(&self) -> bool {
        self.chunk < self.chunks@.len() && self.started <= self.chunk
    }

    /// Takes an event and decides what comes next.
    pub fn on_event(&mut self, event: StreamEvent) -> (step: StreamStep)
        requires
            old(self).setting_up() || event is StreamsEnded,
        ensures
            final(self).chunks == old(self).chunks,
            final(self).variables == old(self).variables,
            final(self).missing == old(self).missing,
            final(self).period_ms == old(self).period_ms,
            match event {
                StreamEvent::BlockCreated => {
                    &&& *final(self) == *old(self)
                    &&& quietly(step, StreamAction::FillBlock(old(self).chunk))
                },
                StreamEvent::BlockRefused(reason) => {
                    &&& *final(self) == *old(self)
                    &&& ends_with(step, "create_block failed: "@ + reason@)
                },
                StreamEvent::BlockStarted(ok) => {
                    &&& final(self).started == old(self).started + if ok { 1int } else { 0int }
                    &&& final(self).chunk == old(self).chunk + 1
                    &&& final(self).chunk < final(self).chunks@.len() ==> final(self).setting_up()
                        && quietly(step, StreamAction::CreateBlock)
                    &&& final(self).chunk == final(self).chunks@.len() ==> if final(self).started
                        == 0 {
                        ends_with(step, "Failed to start any log blocks."@)
                    } else {
                        &&& step.action == StreamAction::Listen
                        &&& step.logging == Some(true)
                        &&& step.status is Some
                        &&& step.status->0@ == streaming_status(
                            old(self).variables as nat,
                            old(self).period_ms as nat,
                            old(self).missing as nat,
                        )
                    }
                },
                StreamEvent::StreamsEnded => {
                    &&& *final(self) == *old(self)
                    &&& ends_with(step, "Log stream ended."@)
                },
            },
    {
        match event {
            StreamEvent::BlockCreated => StreamStep {
                action: StreamAction::FillBlock(self.chunk),
                status: None,
                logging: None,
            },
            StreamEvent::BlockRefused(reason) => {
                let message = text::concat2("create_block failed: ", reason.as_str());
                end(message.as_str())
            },
            StreamEvent::BlockStarted(ok) => {
                let total: usize = self.chunks.len();
                if ok {
                    self.started = self.started + 1;
                }
                self.chunk = self.chunk + 1;
                if self.chunk < total {
                    StreamStep { action: StreamAction::CreateBlock, status: None, logging: None }
                } else if self.started == 0 {
                    end("Failed to start any log blocks.")
                } else {
                    let status = streaming_status_text(
                        self.variables,
                        self.period_ms,
                        self.missing,
                    );
                    StreamStep {
                        action: StreamAction::Listen,
                        status: Some(status),
                        logging: Some(true),
                    }
                }
            },
            StreamEvent::StreamsEnded => end("Log stream ended."),
        }
    }
}

/// Whether a stream can be started, and what with.
pub enum StartRequest {
    Refused(String),
    Start { config: usize, unit: usize },
}

/// Resolves the chosen configuration and the chosen unit.
pub fn resolve_and_start(config_index: i32, config_count: usize, unit: Option<usize>) -> (request:
    StartRequest)
    ensures
        match request {
            StartRequest::Refused(message) => if 0 <= config_index < config_count {
                unit is None && message@ == "Select a unit, then Start."@
            } else {
                message@ == "Pick or create a log config first."@
            },
            StartRequest::Start { config, unit: u } => {
                &&& config == config_index
                &&& config < config_count
                &&& unit == Some(u)
            },
        },
{
    if config_index < 0 || config_index as usize >= config_count {
        return StartRequest::Refused("Pick or create a log config first.".to_string());
    }
    match unit {
        None => StartRequest::Refused("Select a unit, then Start.".to_string()),
        Some(u) => StartRequest::Start { config: config_index as usize, unit: u },
    }
}

/// The status when the chosen unit is not there any more.
pub fn not_connected_text() -> (s: String)
    ensures
        s@ == "Selected unit is not connected."@,
{
    "Selected unit is not connected.".to_string()
}

/// Whether two names, either of which may be missing, are the same.
pub open spec fn same_choice(a: Option<String>, b: Option<String>) -> bool {
    match (a, b) {
        (Some(x), Some(y)) => x@ == y@,
        (None, None) => true,
        _ => false,
    }
}

/// A configuration was chosen from the list. Another than the loaded one clears the plot, and
/// the answer is that a running stream has to switch over; the loaded one leaves it alone.
pub fn select_config(state: &mut PlotState, chosen: &Option<String>) -> (new_block: bool)
    ensures
        new_block == !same_choice(old(state).loaded_config, *chosen),
        !new_block ==> *final(state) == *old(state),
        new_block ==> {
            &&& final(state).slots@.len() == 0
            &&& final(state).loaded_config is None
            &&& final(state).view == plot::fresh_view()
            &&& final(state).dirty
            &&& final(state).px == old(state).px
            &&& final(state).rebuild_pending == old(state).rebuild_pending
        },
{
    let same = match (&state.loaded_config, chosen) {
        (Some(a), Some(b)) => text::same_text(a.as_str(), b.as_str()),
        (None, None) => true,
        _ => false,
    };
    if same {
        return false;
    }
    state.slots.clear();
    state.loaded_config = None;
    state.view = PlotView::default();
    state.dirty = true;
    true
}

// ---------------------------------------------------------------------------
// The variable picker
// ---------------------------------------------------------------------------

/// The dialog for a new configuration: the unit's variables, those ticked, and the search text.
pub struct TocPicker {
    all: Vec<String>,
    checked: Vec<String>,
    filter: String,
}

/// One row of the picker.
#[derive(Debug, Clone)]
pub struct LogVarRow {
    pub name: String,
    pub checked: bool,
}

/// A variable matches the search text, without regard to case.
pub open spec fn matches_filter(name: Seq<char>, filter: Seq<char>) -> bool {
    text::lowercase(filter).len() == 0 || text::occurs_in(text::lowercase(name), text::lowercase(filter))
}

/// The positions of the rows shown.
pub open spec fn shown_filter(all: Seq<String>, filter: Seq<char>) -> spec_fn(int) -> bool {
    |i: int| matches_filter(all[i]@, filter)
}

/// Every string occurs once.
pub open spec fn all_distinct(list: Seq<String>) -> bool {
    forall|i: int, j: int|
        0 <= i < j < list.len() ==> (#[trigger] list[i])@ != (#[trigger] list[j])@
}

impl TocPicker {
    /// All variables of the unit.
    pub closed spec fn variables(&self) -> Seq<String> {
        self.all@
    }

    /// The ticked variables.
    pub closed spec fn ticked(&self) -> Seq<String> {
        self.checked@
    }

    /// The search text.
    pub closed spec fn search(&self) -> Seq<char> {
        self.filter@
    }

    /// No variable is ticked twice.
    pub open spec fn wf(&self) -> bool {
        all_distinct(self.ticked())
    }

    /// An empty picker.
    pub fn new() -> (picker: TocPicker)
        ensures
            picker.wf(),
            picker.variables().len() == 0,
            picker.ticked().len() == 0,
            picker.search().len() == 0,
    {
        TocPicker { all: Vec::new(), checked: Vec::new(), filter: String::new() }
    }

    /// Starts over: no variables, nothing ticked, no search text.
    pub fn reset(&mut self)
        ensures
            final(self).wf(),
            final(self).variables().len() == 0,
            final(self).ticked().len() == 0,
            final(self).search().len() == 0,
    {
        self.all.clear();
        self.checked.clear();
        self.filter = String::new();
    }

    /// Takes over the variables of a unit, in alphabetical order.
    pub fn load(&mut self, names: Vec<String>)
        requires
            old(self).wf(),
        ensures
            final(self).wf(),
            sorting::is_sorted_copy(text::texts(names@), text::texts(final(self).variables())),
            final(self).ticked() == old(self).ticked(),
            final(self).search() == old(self).search(),
    {
        self.all = sorting::sort_strings(names);
    }

    /// Changes the search text.
    pub fn set_filter(&mut self, filter: String)
        requires
            old(self).wf(),
        ensures
            final(self).wf(),
            final(self).search() == filter@,
            final(self).variables() == old(self).variables(),
            final(self).ticked() == old(self).ticked(),
    {
        self.filter = filter;
    }

    /// Ticks a variable, or takes its tick away.
    pub fn toggle(&mut self, name: String)
        requires
            old(self).wf(),
        ensures
            final(self).wf(),
            final(self).variables() == old(self).variables(),
            final(self).search() == old(self).search(),
            has_name(final(self).ticked(), name@) == !has_name(old(self).ticked(), name@),
            forall|other: Seq<char>|
                other != name@ ==> (#[trigger] has_name(final(self).ticked(), other) == has_name(
                    old(self).ticked(),
                    other,
                )),
    {
        let ghost before = self.checked@;
        let mut i: usize = 0;
        while i < self.checked.len()
            invariant
                i <= self.checked@.len(),
                self.checked@ == before,
                all_distinct(before),
                before == old(self).checked@,
                self.all == old(self).all,
                self.filter == old(self).filter,
                forall|k: int| 0 <= k < i ==> (#[trigger] before[k])@ != name@,
            decreases self.checked.len() - i,
        {
            if text::same_text(self.checked[i].as_str(), name.as_str()) {
                self.checked.remove(i);
                proof {
                    let after = self.checked@;
                    assert(after == before.remove(i as int));
                    assert forall|k: int, l: int| 0 <= k < l < after.len() implies (
                    #[trigger] after[k])@ != (#[trigger] after[l])@ by {
                        let ok = if k < i { k } else { k + 1 };
                        let ol = if l < i { l } else { l + 1 };
                        assert(after[k] == before[ok]);
                        assert(after[l] == before[ol]);
                    }
                    assert(!has_name(after, name@)) by {
                        assert forall|k: int| 0 <= k < after.len() implies (#[trigger] after[k])@
                            != name@ by {
                            let ok = if k < i { k } else { k + 1 };
                            assert(after[k] == before[ok]);
                            assert(before[i as int]@ == name@);
                        }
                    }
                    assert forall|other: Seq<char>| other != name@ implies (#[trigger] has_name(
                        after,
                        other,
                    ) == has_name(before, other)) by {
                        if has_name(after, other) {
                            let k = choose|k: int| 0 <= k < after.len() && (#[trigger] after[k])@ == other;
                            let ok = if k < i { k } else { k + 1 };
                            assert(before[ok]@ == other);
                        }
                        if has_name(before, other) {
                            let k = choose|k: int| 0 <= k < before.len() && (#[trigger] before[k])@ == other;
                            let nk = if k < i { k } else { k - 1 };
                            assert(after[nk]@ == other);
                        }
                    }
                }
                return ;
            }
            i = i + 1;
        }
        let ghost text = name@;
        self.checked.push(name);
        proof {
            let after = self.checked@;
            assert(after[before.len() as int]@ == text);
            assert forall|other: Seq<char>| other != text implies (#[trigger] has_name(after, other)
                == has_name(before, other)) by {
                if has_name(before, other) {
                    let k = choose|k: int| 0 <= k < before.len() && (#[trigger] before[k])@ == other;
                    assert(after[k]@ == other);
                }
                if has_name(after, other) {
                    let k = choose|k: int| 0 <= k < after.len() && (#[trigger] after[k])@ == other;
                    assert(before[k]@ == other);
                }
            }
        }
    }

    /// The rows that match the search text, in order, each with its tick.
    pub fn rows(&self) -> (rows: Vec<LogVarRow>)
        ensures
            rows@.len() == lists::positions_where(
                self.variables().len(),
                shown_filter(self.variables(), self.search()),
            ).len(),
            forall|k: int|
                0 <= k < rows@.len() ==> {
                    let p = lists::positions_where(
                        self.variables().len(),
                        shown_filter(self.variables(), self.search()),
                    )[k];
                    &&& (#[trigger] rows@[k]).name@ == self.variables()[p]@
                    &&& rows@[k].checked == has_name(self.ticked(), self.variables()[p]@)
                },
    {
        let lower = text::to_lowercase(self.filter.as_str());
        let needle = text::chars_of(lower.as_str());
        let ghost keep = shown_filter(self.all@, self.filter@);
        let mut rows: Vec<LogVarRow> = Vec::new();
        let mut i: usize = 0;
        while i < self.all.len()
            invariant
                i <= self.all@.len(),
                needle@ == text::lowercase(self.filter@),
                keep == shown_filter(self.all@, self.filter@),
                rows@.len() == lists::positions_where(i as nat, keep).len(),
                forall|k: int|
                    0 <= k < rows@.len() ==> {
                        let p = lists::positions_where(i as nat, keep)[k];
                        &&& (#[trigger] rows@[k]).name@ == self.all@[p]@
                        &&& rows@[k].checked == has_name(self.checked@, self.all@[p]@)
                    },
            decreases self.all.len() - i,
        {
            let low_name = text::to_lowercase(self.all[i].as_str());
            let name_chars = text::chars_of(low_name.as_str());
            if needle.len() == 0 || text::contains(name_chars.as_slice(), needle.as_slice()) {
                let checked = contains_name(&self.checked, self.all[i].as_str());
                rows.push(LogVarRow { name: self.all[i].clone(), checked });
            }
            i = i + 1;
        }
        rows
    }

    /// The status line of the picker when `shown` rows are shown.
    pub fn status(&self, shown: usize) -> (s: String)
        ensures
            self.variables().len() == 0 ==> s@ == "No variables"@,
            self.variables().len() > 0 ==> s@ == text::decimal(shown as nat) + " shown · "@ + text::decimal(
                self.ticked().len(),
            ) + " selected"@,
    {
        if self.all.len() == 0 {
            return "No variables".to_string();
        }
        let mut s = text::decimal_string(shown as u64);
        s.append(" shown · ");
        text::push_decimal(&mut s, self.checked.len() as u64);
        s.append(" selected");
        s
    }

    /// Makes a configuration of the ticked variables, in alphabetical order, or says what is
    /// missing. `period` holds the bits of a single; outside 10 to 2550 it counts as 100.
    pub fn new_config(&self, name: &str, period: u32) -> (r: Result<LogConfig, String>)
        ensures
            match r {
                Err(message) => if text::trimmed(name@).len() == 0 {
                    message@ == "Enter a name."@
                } else {
                    self.ticked().len() == 0 && message@ == "Select at least one variable."@
                },
                Ok(config) => {
                    &&& text::trimmed(name@).len() > 0
                    &&& self.ticked().len() > 0
                    &&& config.name@ == text::trimmed(name@)
                    &&& config.description is None
                    &&& sorting::is_sorted_copy(text::texts(self.ticked()), text::texts(config.variables@))
                    &&& config.period_ms == entered_period(period)
                },
            },
    {
        let kept = text::trim(name);
        if kept.len() == 0 {
            return Err("Enter a name.".to_string());
        }
        if self.checked.len() == 0 {
            return Err("Select at least one variable.".to_string());
        }
        let mut copies: Vec<String> = Vec::new();
        let mut i: usize = 0;
        while i < self.checked.len()
            invariant
                i <= self.checked@.len(),
                copies@ == self.checked@.take(i as int),
            decreases self.checked.len() - i,
        {
            copies.push(self.checked[i].clone());
            i = i + 1;
            assert(copies@ =~= self.checked@.take(i as int));
        }
        assert(copies@ =~= self.checked@);
        let variables = sorting::sort_strings(copies);
        Ok(
            LogConfig {
                name: text::string_of(kept.as_slice()),
                description: None,
                variables,
                period_ms: period_of_entry(period),
            },
        )
    }
}

/// The bits of the singles 10 and 2550.
pub const SINGLE_TEN: u32 = 0x4120_0000;

pub const SINGLE_2550: u32 = 0x451f_6000;

/// `m` halved `k` times, rounding down.
pub open spec fn halved(m: nat, k: nat) -> nat
    decreases k,
{
    if k == 0 {
        m
    } else {
        halved(m / 2, (k - 1) as nat)
    }
}

/// The whole part of a normal single from 1 up to below 2^24: its significand of 24 bits, with
/// the bits after the binary point cut off.
pub open spec fn whole_part(bits: u32) -> nat {
    let exponent = bits as nat / 0x80_0000;
    halved(bits as nat % 0x80_0000 + 0x80_0000, (150 - exponent) as nat)
}

/// The period of an entry in milliseconds: the whole part within 10 to 2550, and 100 otherwise.
pub open spec fn entered_period(bits: u32) -> u64 {
    if float_bits::single_at_most(SINGLE_TEN, bits) && float_bits::single_at_most(bits, SINGLE_2550) {
        whole_part(bits) as u64
    } else {
        100
    }
}

/// The period of an entry in milliseconds.
pub fn period_of_entry(bits: u32) -> (ms: u64)
    ensures
        ms == entered_period(bits),
{
    if !(float_bits::at_most_single(SINGLE_TEN, bits) && float_bits::at_most_single(bits, SINGLE_2550)) {
        return 100;
    }
    let mut m: u32 = bits % 0x80_0000 + 0x80_0000;
    let mut k: u32 = 150 - bits / 0x80_0000;
    while k > 0
        invariant
            halved(m as nat, k as nat) == whole_part(bits),
        decreases k,
    {
        m = m / 2;
        k = k - 1;
    }
    m as u64
}

/// The sizes of variables double with their width, whether they are signed or floating point; a
/// variable of unknown type is taken for one of four bytes.
pub proof fn law_variable_sizes()
    ensures
        bytes_of(VariableType::U8) == 1,
        bytes_of(VariableType::U16) == 2 * bytes_of(VariableType::U8),
        bytes_of(VariableType::U32) == 2 * bytes_of(VariableType::U16),
        bytes_of(VariableType::U64) == 2 * bytes_of(VariableType::U32),
        bytes_of(VariableType::I8) == bytes_of(VariableType::U8),
        bytes_of(VariableType::I16) == bytes_of(VariableType::U16),
        bytes_of(VariableType::I32) == bytes_of(VariableType::U32),
        bytes_of(VariableType::I64) == bytes_of(VariableType::U64),
        bytes_of(VariableType::Half) == bytes_of(VariableType::U16),
        bytes_of(VariableType::Single) == bytes_of(VariableType::U32),
        bytes_of(VariableType::Double) == bytes_of(VariableType::U64),
        reserved_bytes(None) == bytes_of(VariableType::Single),
        forall|t: VariableType| #[trigger] reserved_bytes(Some(t)) == bytes_of(t),
{
}

/// The size of a block is that of its parts together.
pub proof fn law_block_size(a: Seq<SizedName>, b: Seq<SizedName>, one: SizedName)
    ensures
        total_size(a + b) == total_size(a) + total_size(b),
        total_size(seq![one]) == one.size,
    decreases b.len(),
{
    assert(seq![one].drop_last() =~= Seq::<SizedName>::empty());
    assert(total_size(Seq::<SizedName>::empty()) == 0);
    if b.len() == 0 {
        assert(a + b =~= a);
    } else {
        law_block_size(a, b.drop_last(), one);
        assert((a + b).drop_last() =~= a + b.drop_last());
    }
}

/// The block names are the names of the variables, block by block.
pub proof fn law_names_in_blocks(names: Seq<String>, types: Seq<Option<VariableType>>, i: int)
    requires
        0 <= i < names.len(),
    ensures
        sized(names, types).len() == names.len(),
        sized(names, types)[i].name == names[i]@,
        types[i] is None ==> sized(names, types)[i].size == 4,
        types[i] matches Some(t) ==> sized(names, types)[i].size == bytes_of(t),
{
}

/// A period that is too short becomes the shortest, ten milliseconds, and one that is too long
/// the longest, 2550.
pub proof fn law_period_nearest(ms: u64)
    ensures
        ms <= 10 ==> clamped(ms) == 10,
        ms >= 2550 ==> clamped(ms) == 2550,
        10 <= ms <= 2550 ==> clamped(ms) == ms,
{
}

/// A new slot bears the name of its variable and the group of its configuration, is switched on,
/// holds no samples, and has the colour of its place.
pub proof fn law_new_slots(names: Seq<Seq<char>>, group: Seq<char>, i: int)
    requires
        0 <= i < names.len(),
    ensures
        new_slots(names, group).len() == names.len(),
        new_slots(names, group)[i].name == names[i],
        new_slots(names, group)[i].group == group,
        new_slots(names, group)[i].active,
        new_slots(names, group)[i].series.len() == 0,
        new_slots(names, group)[i].color == plot::palette()[i % 10],
{
}

/// Resuming adds slots only for variables that have none: each added slot is new and bears the
/// name of one of them, and no slot is added where all have one.
pub proof fn law_resume_adds(slots: Seq<SlotView>, names: Seq<Seq<char>>, group: Seq<char>, i: int)
    ensures
        slots.len() <= i < completed(slots, names, group).len() ==> {
            let added = completed(slots, names, group)[i];
            &&& names.contains(added.name)
            &&& added == new_slot(added.name, group, i)
            &&& slot_position(slots, added.name) == slots.len()
        },
        (forall|k: int|
            0 <= k < names.len() ==> slot_position(slots, #[trigger] names[k]) < slots.len())
            ==> completed(slots, names, group) == slots,
    decreases names.len(),
{
    if names.len() > 0 {
        let fewer = names.drop_last();
        let before = completed(slots, fewer, group);
        law_resume_adds(slots, fewer, group, i);
        law_resume_keeps_slots(slots, fewer, group);
        let now = completed(slots, names, group);
        if slots.len() <= i < now.len() {
            if i < before.len() {
                assert(now[i] == before[i]);
                let k = fewer.index_of(before[i].name);
                assert(names[k] == before[i].name);
            } else {
                assert(names[names.len() - 1] == names.last());
                lemma_slot_position(slots, names.last());
                lemma_slot_position(before, names.last());
                let p = slot_position(slots, names.last());
                if p < slots.len() {
                    assert(before.take(slots.len() as int)[p] == slots[p]);
                    assert(before[p].name == names.last());
                }
            }
        }
        if forall|k: int|
            0 <= k < names.len() ==> slot_position(slots, #[trigger] names[k]) < slots.len() {
            assert forall|k: int| 0 <= k < fewer.len() implies slot_position(
                slots,
                #[trigger] fewer[k],
            ) < slots.len() by {
                assert(fewer[k] == names[k]);
            }
            assert(names[names.len() - 1] == names.last());
        }
    }
}

/// A value that arrives becomes the newest sample of the first slot of its name, at its time.
/// Every other slot stays as it is, and so does all else of that one. A value without a slot
/// changes nothing.
pub proof fn law_value_goes_to_slot(
    slots: Seq<SlotView>,
    ts_ms: i64,
    name: Seq<char>,
    value: u64,
    i: int,
)
    requires
        0 <= i < slots.len(),
    ensures
        ({
            let now = value_recorded(slots, ts_ms, name, value);
            let first = slots[i].name == name && forall|k: int|
                0 <= k < i ==> (#[trigger] slots[k]).name != name;
            &&& now.len() == slots.len()
            &&& first ==> now[i].series.last() == (plot::SeriesPoint { ts_ms, value })
            &&& first && slots[i].series.len() < plot::MAX_POINTS ==> now[i].series
                == slots[i].series.push(plot::SeriesPoint { ts_ms, value })
            &&& !first ==> now[i] == slots[i]
            &&& now[i].name == slots[i].name && now[i].group == slots[i].group
            &&& now[i].color == slots[i].color && now[i].active == slots[i].active
        }),
{
    lemma_slot_position(slots, name);
    let p = slot_position(slots, name);
    if p < slots.len() {
        plot::law_push_keeps_newest(slots[p].series, plot::SeriesPoint { ts_ms, value });
        assert(slots[p].name == name);
    }
    if slots[i].name == name && p > i {
        assert(slots[i].name != name);
    }
}

/// A packet records its values one after another, all at its time, and adds no slots.
pub proof fn law_packet_values(slots: Seq<SlotView>, ts_ms: i64, data: Seq<(String, u64)>, more: (String, u64))
    ensures
        packet_recorded(slots, ts_ms, seq![more]) == value_recorded(slots, ts_ms, more.0@, more.1),
        packet_recorded(slots, ts_ms, Seq::empty()) == slots,
        packet_recorded(slots, ts_ms, data).len() == slots.len(),
        packet_recorded(slots, ts_ms, data.push(more)) == value_recorded(
            packet_recorded(slots, ts_ms, data),
            ts_ms,
            more.0@,
            more.1,
        ),
    decreases data.len(),
{
    assert(seq![more].drop_last() =~= Seq::<(String, u64)>::empty());
    assert(packet_recorded(slots, ts_ms, Seq::empty()) == slots);
    assert(data.push(more).drop_last() =~= data);
    if data.len() > 0 {
        law_packet_values(slots, ts_ms, data.drop_last(), more);
        let before = packet_recorded(slots, ts_ms, data.drop_last());
        assert(value_recorded(before, ts_ms, data.last().0@, data.last().1).len() == before.len()) by {
            lemma_slot_position(before, data.last().0@);
        }
    }
}

/// The type of a variable is that of the first entry of its name in the table of contents.
pub proof fn law_type_found(toc: Seq<String>, types: Seq<Option<VariableType>>, name: Seq<char>, i: int)
    requires
        toc.len() == types.len(),
    ensures
        0 <= i < toc.len() && toc[i]@ == name && (forall|k: int|
            0 <= k < i ==> (#[trigger] toc[k])@ != name) ==> type_in(toc, types, name) == types[i],
        !has_name(toc, name) ==> type_in(toc, types, name) is None,
    decreases toc.len(),
{
    if toc.len() > 0 {
        let rest = toc.skip(1);
        law_type_found(rest, types.skip(1), name, i - 1);
        if 0 < i < toc.len() && toc[i]@ == name && (forall|k: int|
            0 <= k < i ==> (#[trigger] toc[k])@ != name) {
            assert(toc[0]@ != name);
            assert forall|k: int| 0 <= k < i - 1 implies (#[trigger] rest[k])@ != name by {
                assert(toc[k + 1]@ != name);
            }
            assert(rest[i - 1] == toc[i]);
        }
        if !has_name(toc, name) {
            assert(toc[0]@ != name);
            if has_name(rest, name) {
                let k = choose|k: int| 0 <= k < rest.len() && (#[trigger] rest[k])@ == name;
                assert(toc[k + 1]@ == name);
            }
        }
    }
}

/// The status of a stream names the number of variables and the period, and the number of those
/// that are missing where there are any.
pub proof fn law_status_numbers(variables: nat, period_ms: nat, missing: nat)
    ensures
        ({
            let s = streaming_status(variables, period_ms, missing);
            let head = "Logging "@ + text::decimal(variables) + " var(s) @ "@ + text::decimal(
                period_ms,
            ) + " ms"@;
            &&& text::begins_with(s, head)
            &&& missing == 0 <==> s.len() == head.len()
            &&& missing > 0 ==> s.skip(head.len() as int) == " ("@ + text::decimal(missing)
                + " not on TOC)"@
        }),
{
    let s = streaming_status(variables, period_ms, missing);
    let head = "Logging "@ + text::decimal(variables) + " var(s) @ "@ + text::decimal(period_ms)
        + " ms"@;
    reveal_strlit(" (");
    assert(s.take(head.len() as int) =~= head);
    if missing > 0 {
        assert(s.skip(head.len() as int) =~= " ("@ + text::decimal(missing) + " not on TOC)"@);
    }
}

/// A search text finds the variables whose names hold it, in any case; an empty one finds all.
pub proof fn law_search(name: Seq<char>, filter: Seq<char>, a: Seq<char>, b: Seq<char>)
    ensures
        text::lowercase(filter).len() == 0 ==> matches_filter(name, filter),
        text::lowercase(name) == a + text::lowercase(filter) + b ==> matches_filter(name, filter),
        text::lowercase(filter).len() > text::lowercase(name).len() ==> !matches_filter(name, filter),
        matches_filter(name, name),
{
    text::law_occurs(a, text::lowercase(filter), b, text::lowercase(name));
    text::law_occurs(a, text::lowercase(name), b, text::lowercase(name));
}

/// Two choices are the same if both are missing or both bear the same name.
pub proof fn law_same_choice(a: Option<String>, b: Option<String>)
    ensures
        a is None ==> (same_choice(a, b) <==> b is None),
        a matches Some(x) ==> (same_choice(a, b) <==> (b matches Some(y) && y@ == x@)),
{
}

/// A configuration is loaded if one is and it bears the name.
pub proof fn law_loaded(loaded: Option<String>, name: Seq<char>)
    ensures
        loaded is None ==> !is_loaded(loaded, name),
        loaded matches Some(s) ==> (is_loaded(loaded, name) <==> s@ == name),
{
}

/// A run that ends stops, says why, and is not logging any more; a quiet step changes neither.
pub proof fn law_steps_told(step: StreamStep, message: Seq<char>, action: StreamAction)
    ensures
        ends_with(step, message) <==> step.action == StreamAction::Stop && (step.status matches Some(s)
            && s@ == message) && step.logging == Some(false),
        quietly(step, action) <==> step.action == action && step.status is None
            && step.logging is None,
{
}

proof fn lemma_halved(m: nat, k: nat)
    ensures
        halved(m, k) * vstd::arithmetic::power2::pow2(k) <= m,
        m < (halved(m, k) + 1) * vstd::arithmetic::power2::pow2(k),
    decreases k,
{
    if k == 0 {
        vstd::arithmetic::power2::lemma2_to64();
    } else {
        let j = (k - 1) as nat;
        lemma_halved(m / 2, j);
        vstd::arithmetic::power2::lemma_pow2_unfold(k);
        let h = halved(m / 2, j) as int;
        let p = vstd::arithmetic::power2::pow2(j) as int;
        let q = m as int / 2;
        assert(h * (2 * p) == 2 * (h * p)) by (nonlinear_arith);
        assert((h + 1) * (2 * p) == 2 * ((h + 1) * p)) by (nonlinear_arith);
        assert(2 * q <= m < 2 * q + 2);
    }
}

/// A period that is entered between 10 and 2550 counts with its whole milliseconds: it is at least
/// as many and less than one more, counted in units of the last binary digit. Any other entry
/// counts as 100.
pub proof fn law_period_entered(bits: u32)
    ensures
        ({
            let inside = float_bits::single_at_most(0x4120_0000, bits) && float_bits::single_at_most(
                bits,
                0x451f_6000,
            );
            let digits = bits as int % 0x80_0000 + 0x80_0000;
            let unit = vstd::arithmetic::power2::pow2((150 - bits as int / 0x80_0000) as nat) as int;
            &&& !inside ==> entered_period(bits) == 100
            &&& inside ==> entered_period(bits) as int * unit <= digits && digits < (entered_period(
                bits,
            ) as int + 1) * unit
        }),
{
    if float_bits::single_at_most(0x4120_0000, bits) && float_bits::single_at_most(bits, 0x451f_6000) {
        let k = (150 - bits as int / 0x80_0000) as nat;
        let m = (bits as int % 0x80_0000 + 0x80_0000) as nat;
        lemma_halved(m, k);
        let p = vstd::arithmetic::power2::pow2(k) as int;
        vstd::arithmetic::power2::lemma_pow2_pos(k);
        let h = halved(m, k) as int;
        assert(h <= m) by (nonlinear_arith)
            requires
                h * p <= m,
                p >= 1,
                h >= 0,
        ;
    }
}

} // verus!
