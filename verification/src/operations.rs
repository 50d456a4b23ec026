//! What the buttons of the unit and swarm panels do: file names, progress texts, the flight of a
//! trajectory, identifying a unit, and the propeller test.

use crate::text;
use vstd::prelude::*;
use vstd::string::*;

verus! {

// ---------------------------------------------------------------------------
// The cache of tables of contents
// ---------------------------------------------------------------------------

/// A directory with one file for each table of contents, named by its key.
#[derive(Debug, Clone)]
pub struct FileTocCache {
    pub cache_dir: String,
}

/// The two hexadecimal digits of every byte, in order.
pub open spec fn hex_of_bytes(key: Seq<u8>) -> Seq<char>
    decreases key.len(),
{
    if key.len() == 0 {
        Seq::empty()
    } else {
        hex_of_bytes(key.drop_last()) + text::hex(key.last() as nat, 2, false)
    }
}

/// The path of a file in a directory: a slash between them, unless the directory is empty or
/// ends in one.
pub open spec fn path_in(dir: Seq<char>, file: Seq<char>) -> Seq<char> {
    if dir.len() == 0 || dir.last() == '/' {
        dir + file
    } else {
        dir.push('/') + file
    }
}

impl FileTocCache {
    /// The file of the table of contents with this key.
    pub fn path_for(&self, key: &[u8]) -> (path: String)
        ensures
            path@ == path_in(self.cache_dir@, hex_of_bytes(key@) + ".json"@),
    {
        let chars = text::chars_of(self.cache_dir.as_str());
        let mut path = self.cache_dir.clone();
        if chars.len() > 0 && chars[chars.len() - 1] != '/' {
            path.push('/');
        }
        let ghost prefix = path@;
        let mut i: usize = 0;
        assert(key@.take(0) =~= Seq::empty());
        assert(prefix + hex_of_bytes(key@.take(0)) =~= prefix);
        while i < key.len()
            invariant
                i <= key@.len(),
                path@ == prefix + hex_of_bytes(key@.take(i as int)),
            decreases key.len() - i,
        {
            assert(key@.take(i + 1).drop_last() =~= key@.take(i as int));
            text::push_hex(&mut path, key[i] as u32, 2, false);
            assert(path@ =~= prefix + hex_of_bytes(key@.take(i + 1)));
            i = i + 1;
        }
        assert(key@.take(key@.len() as int) =~= key@);
        path.append(".json");
        assert(path@ =~= path_in(self.cache_dir@, hex_of_bytes(key@) + ".json"@));
        path
    }
}

proof fn lemma_hex_digits(n: nat, m: nat)
    requires
        n < 256,
        m < 256,
    ensures
        text::hex(n, 2, false).len() == 2,
        text::hex(n, 2, false) == text::hex(m, 2, false) ==> n == m,
{
    reveal_with_fuel(text::hex, 3);
    let a = text::hex(n, 2, false);
    let b = text::hex(m, 2, false);
    assert(a[0] == text::hex_digit(n / 16 % 16, false));
    assert(a[1] == text::hex_digit(n % 16, false));
    assert(b[0] == text::hex_digit(m / 16 % 16, false));
    assert(b[1] == text::hex_digit(m % 16, false));
}

/// Different keys have different files.
pub proof fn law_toc_files_differ(a: Seq<u8>, b: Seq<u8>)
    requires
        hex_of_bytes(a) == hex_of_bytes(b),
    ensures
        a == b,
    decreases a.len(),
{
    lemma_hex_len(a);
    lemma_hex_len(b);
    if a.len() > 0 {
        let x = text::hex(a.last() as nat, 2, false);
        let y = text::hex(b.last() as nat, 2, false);
        lemma_hex_digits(a.last() as nat, b.last() as nat);
        lemma_hex_digits(b.last() as nat, a.last() as nat);
        lemma_hex_len(a.drop_last());
        lemma_hex_len(b.drop_last());
        let n = hex_of_bytes(a).len();
        assert(hex_of_bytes(a).subrange(n - 2, n as int) =~= x);
        assert(hex_of_bytes(b).subrange(n - 2, n as int) =~= y);
        assert(hex_of_bytes(a).take(n - 2) =~= hex_of_bytes(a.drop_last()));
        assert(hex_of_bytes(b).take(n - 2) =~= hex_of_bytes(b.drop_last()));
        law_toc_files_differ(a.drop_last(), b.drop_last());
        assert(a =~= a.drop_last().push(a.last()));
        assert(b =~= b.drop_last().push(b.last()));
    } else {
        assert(a =~= b);
    }
}

proof fn lemma_hex_len(key: Seq<u8>)
    ensures
        hex_of_bytes(key).len() == 2 * key.len(),
    decreases key.len(),
{
    if key.len() > 0 {
        lemma_hex_len(key.drop_last());
        lemma_hex_digits(key.last() as nat, 0);
    }
}

// ---------------------------------------------------------------------------
// Progress
// ---------------------------------------------------------------------------

/// What the progress dialog reports of one unit.
pub enum Progress {
    /// Connecting to the unit of this name.
    Connecting(String),
    /// The geometry did not reach this unit, for this reason.
    GeometryFailed(String, String),
    /// The geometry reached this unit.
    GeometryUploaded(String),
    /// A trajectory was uploaded.
    TrajectoryUploaded,
    /// This unit could not be tuned.
    TuningFailed(String),
    /// This unit did not answer in time.
    TuningTimedOut(String),
    /// A unit was tuned.
    Tuned,
    /// A unit was tested.
    Tested,
}

/// The reason given when a unit does not answer in time.
pub fn timed_out_text() -> (s: String)
    ensures
        s@ == "Connection timed out"@,
{
    "Connection timed out".to_string()
}

/// `done/total`.
pub open spec fn fraction(done: nat, total: nat) -> Seq<char> {
    text::decimal(done) + "/"@ + text::decimal(total)
}

/// What the progress dialog says when `done` of `total` units are through.
pub open spec fn progress_of(p: Progress, done: nat, total: nat) -> Seq<char> {
    match p {
        Progress::Connecting(name) => "Connecting to "@ + name@ + " ("@ + fraction(done, total)
            + ")..."@,
        Progress::GeometryFailed(name, reason) => "Failed: "@ + name@ + " - "@ + reason@ + " ("@
            + fraction(done, total) + ")"@,
        Progress::GeometryUploaded(name) => "Uploaded to "@ + name@ + " ("@ + fraction(done, total)
            + ")"@,
        Progress::TrajectoryUploaded => "Uploaded ("@ + fraction(done, total) + ")"@,
        Progress::TuningFailed(name) => name@ + " failed ("@ + fraction(done, total) + ")"@,
        Progress::TuningTimedOut(name) => name@ + " timed out ("@ + fraction(done, total) + ")"@,
        Progress::Tuned => "Done ("@ + fraction(done, total) + ")"@,
        Progress::Tested => fraction(done, total) + " done"@,
    }
}

fn push_fraction(s: &mut String, done: usize, total: usize)
    ensures
        final(s)@ == old(s)@ + fraction(done as nat, total as nat),
{
    text::push_decimal(s, done as u64);
    s.append("/");
    text::push_decimal(s, total as u64);
    assert(s@ =~= old(s)@ + fraction(done as nat, total as nat));
}

/// What the progress dialog says when `done` of `total` units are through.
pub fn progress_text(p: &Progress, done: usize, total: usize) -> (s: String)
    ensures
        s@ == progress_of(*p, done as nat, total as nat),
{
    let mut s = String::new();
    match p {
        Progress::Connecting(name) => {
            s.append("Connecting to ");
            s.append(name.as_str());
            s.append(" (");
        },
        Progress::GeometryFailed(name, reason) => {
            s.append("Failed: ");
            s.append(name.as_str());
            s.append(" - ");
            s.append(reason.as_str());
            s.append(" (");
        },
        Progress::GeometryUploaded(name) => {
            s.append("Uploaded to ");
            s.append(name.as_str());
            s.append(" (");
        },
        Progress::TrajectoryUploaded => s.append("Uploaded ("),
        Progress::TuningFailed(name) => {
            s.append(name.as_str());
            s.append(" failed (");
        },
        Progress::TuningTimedOut(name) => {
            s.append(name.as_str());
            s.append(" timed out (");
        },
        Progress::Tuned => s.append("Done ("),
        Progress::Tested => {},
    }
    push_fraction(&mut s, done, total);
    match p {
        Progress::Connecting(_) => s.append(")..."),
        Progress::Tested => s.append(" done"),
        _ => s.append(")"),
    }
    assert(s@ =~= progress_of(*p, done as nat, total as nat));
    s
}

// ---------------------------------------------------------------------------
// Flying a trajectory
// ---------------------------------------------------------------------------

/// The steps of flying the trajectory of one unit.
#[derive(Debug, Clone, Copy, PartialEq, Eq, Structural)]
pub enum FlightStep {
    Arm,
    /// Wait 100 ms.
    Armed,
    /// Note the position on the ground and draw the take-off.
    NoteGround,
    TakeOff,
    /// Wait three seconds.
    Climb,
    /// Note the position in the air and draw the trajectory from there.
    NoteAir,
    Start,
    /// Wait for the duration of the trajectory and half a second.
    Fly,
    Land,
    Done,
}

/// The step after `step`. Only a unit that cannot be armed stays on the ground; a failure later
/// on does not keep the unit from landing.
pub open spec fn flight_next(step: FlightStep, ok: bool) -> FlightStep {
    match step {
        FlightStep::Arm => if ok {
            FlightStep::Armed
        } else {
            FlightStep::Done
        },
        FlightStep::Armed => FlightStep::NoteGround,
        FlightStep::NoteGround => FlightStep::TakeOff,
        FlightStep::TakeOff => FlightStep::Climb,
        FlightStep::Climb => FlightStep::NoteAir,
        FlightStep::NoteAir => FlightStep::Start,
        FlightStep::Start => FlightStep::Fly,
        FlightStep::Fly => FlightStep::Land,
        FlightStep::Land => FlightStep::Done,
        FlightStep::Done => FlightStep::Done,
    }
}

/// The step after `step`, which went well or not.
pub fn next_flight_step(step: FlightStep, ok: bool) -> (next: FlightStep)
    ensures
        next == flight_next(step, ok),
{
    match step {
        FlightStep::Arm => if ok {
            FlightStep::Armed
        } else {
            FlightStep::Done
        },
        FlightStep::Armed => FlightStep::NoteGround,
        FlightStep::NoteGround => FlightStep::TakeOff,
        FlightStep::TakeOff => FlightStep::Climb,
        FlightStep::Climb => FlightStep::NoteAir,
        FlightStep::NoteAir => FlightStep::Start,
        FlightStep::Start => FlightStep::Fly,
        FlightStep::Fly => FlightStep::Land,
        FlightStep::Land => FlightStep::Done,
        FlightStep::Done => FlightStep::Done,
    }
}

/// The step that is reached from `step` when the steps go as `outcomes` says.
pub open spec fn flight_after(step: FlightStep, outcomes: Seq<bool>) -> FlightStep
    decreases outcomes.len(),
{
    if outcomes.len() == 0 {
        step
    } else {
        flight_after(flight_next(step, outcomes[0]), outcomes.skip(1))
    }
}

/// Whatever goes wrong once the motors may turn, the unit is told to land five steps after it is
/// told to take off.
pub proof fn law_flight_lands(outcomes: Seq<bool>)
    requires
        outcomes.len() == 5,
    ensures
        flight_after(FlightStep::TakeOff, outcomes) == FlightStep::Land,
        flight_next(FlightStep::Land, true) == FlightStep::Done,
        flight_next(FlightStep::Land, false) == FlightStep::Done,
{
    reveal_with_fuel(flight_after, 6);
}

// ---------------------------------------------------------------------------
// Identifying a unit
// ---------------------------------------------------------------------------

/// The colour of blink `n` while a unit is identified: white, blue, red, green, and again.
pub open spec fn blink_color(n: nat) -> u32 {
    seq![0x00FF_FFFFu32, 0x0000_00FFu32, 0x00FF_0000u32, 0x0000_FF00u32][n as int % 4]
}

/// The colour of blink `n` while a unit is identified.
pub fn identify_color(n: usize) -> (color: u32)
    ensures
        color == blink_color(n as nat),
{
    match n % 4 {
        0 => 0x00FF_FFFF,
        1 => 0x0000_00FF,
        2 => 0x00FF_0000,
        _ => 0x0000_FF00,
    }
}

/// The steps of identifying a unit.
#[derive(Debug, Clone, Copy, PartialEq, Eq, Structural)]
pub enum IdentifyStep {
    /// Take the motors over.
    TakeMotors,
    /// Show the colour of this blink and let a motor turn for 100 ms.
    Blink(usize),
    /// Wait 400 ms after this blink.
    Pause(usize),
    /// Switch the lights and the motor off and hand the motors back.
    CleanUp,
    Done,
}

/// The step after `step`, when the unit is to stop or not. It is asked before every blink and
/// after it.
pub open spec fn identify_next(step: IdentifyStep, stop: bool) -> IdentifyStep {
    match step {
        IdentifyStep::CleanUp | IdentifyStep::Done => IdentifyStep::Done,
        _ => if stop {
            IdentifyStep::CleanUp
        } else {
            match step {
                IdentifyStep::Blink(n) => IdentifyStep::Pause(n),
                IdentifyStep::Pause(n) => IdentifyStep::Blink(
                    if n == usize::MAX {
                        0
                    } else {
                        (n + 1) as usize
                    },
                ),
                _ => IdentifyStep::Blink(0),
            }
        },
    }
}

/// The step after `step`, when the unit is to stop or not.
pub fn next_identify_step(step: IdentifyStep, stop: bool) -> (next: IdentifyStep)
    ensures
        next == identify_next(step, stop),
{
    match step {
        IdentifyStep::CleanUp | IdentifyStep::Done => IdentifyStep::Done,
        IdentifyStep::TakeMotors => if stop {
            IdentifyStep::CleanUp
        } else {
            IdentifyStep::Blink(0)
        },
        IdentifyStep::Blink(n) => if stop {
            IdentifyStep::CleanUp
        } else {
            IdentifyStep::Pause(n)
        },
        IdentifyStep::Pause(n) => if stop {
            IdentifyStep::CleanUp
        } else if n == usize::MAX {
            IdentifyStep::Blink(0)
        } else {
            IdentifyStep::Blink(n + 1)
        },
    }
}

/// The step that is reached from `step` when the unit is asked to stop or not as `stops` says.
pub open spec fn identify_after(step: IdentifyStep, stops: Seq<bool>) -> IdentifyStep
    decreases stops.len(),
{
    if stops.len() == 0 {
        step
    } else {
        identify_after(identify_next(step, stops[0]), stops.skip(1))
    }
}

/// A unit that is being identified stops when it is told to: it cleans up in the next step and is
/// done. It is never done without having cleaned up, and does not clean up before it is told to.
pub proof fn law_identify_cleans_up(step: IdentifyStep, stop: bool)
    requires
        !(step is CleanUp || step is Done),
    ensures
        identify_next(step, stop) is CleanUp <==> stop,
        !(identify_next(step, stop) is Done),
        identify_next(IdentifyStep::CleanUp, stop) is Done,
{
}

/// Blinks follow each other in order: without a stop, blink `n` comes after twice `n` steps and
/// one.
pub proof fn law_blinks_in_order(stops: Seq<bool>, n: usize)
    requires
        stops.len() == 2 * n + 1,
        forall|i: int| 0 <= i < stops.len() ==> !#[trigger] stops[i],
    ensures
        identify_after(IdentifyStep::TakeMotors, stops) == IdentifyStep::Blink(n),
{
    assert(!stops[0]);
    lemma_blinks_from(stops.skip(1), 0, n);
}

proof fn lemma_blinks_from(stops: Seq<bool>, from: usize, n: usize)
    requires
        from <= n,
        stops.len() == 2 * (n - from),
        forall|i: int| 0 <= i < stops.len() ==> !#[trigger] stops[i],
    ensures
        identify_after(IdentifyStep::Blink(from), stops) == IdentifyStep::Blink(n),
    decreases n - from,
{
    if from < n {
        assert(!stops[0] && !stops[1]);
        assert(stops.skip(1)[0] == stops[1]);
        reveal_with_fuel(identify_after, 3);
        lemma_blinks_from(stops.skip(1).skip(1), (from + 1) as usize, n);
    }
}

// ---------------------------------------------------------------------------
// The propeller test
// ---------------------------------------------------------------------------

/// How the propeller test of a unit ended.
pub enum PropTest {
    /// The unit reported which motors passed, one bit each.
    Reported(u8),
    /// No report in time.
    TimedOut,
    /// The report could not be read.
    Failed,
}

/// The row of a unit in the list of tests.
#[derive(Debug, Clone)]
pub struct HealthTestResult {
    pub name: String,
    pub status: String,
    pub m1_pass: bool,
    pub m2_pass: bool,
    pub m3_pass: bool,
    pub m4_pass: bool,
}

/// Whether motor `n`, from one to four, is marked in the mask; the first motor has the lowest bit.
pub open spec fn motor_bit(mask: u8, n: int) -> bool
    recommends
        1 <= n <= 4,
{
    if n == 1 {
        mask % 2 == 1
    } else if n == 2 {
        mask / 2 % 2 == 1
    } else if n == 3 {
        mask / 4 % 2 == 1
    } else {
        mask / 8 % 2 == 1
    }
}

/// The row of a unit that waits to be tested.
pub fn waiting_result(name: &str) -> (r: HealthTestResult)
    ensures
        r.name@ == name@,
        r.status@ == "Waiting"@,
        !r.m1_pass && !r.m2_pass && !r.m3_pass && !r.m4_pass,
{
    HealthTestResult {
        name: name.to_string(),
        status: "Waiting".to_string(),
        m1_pass: false,
        m2_pass: false,
        m3_pass: false,
        m4_pass: false,
    }
}

/// Writes the outcome of a test into the row of its unit: it passed when all four motors did.
pub fn set_test_result(row: &mut HealthTestResult, test: &PropTest)
    ensures
        final(row).name == old(row).name,
        match *test {
            PropTest::Reported(mask) => {
                &&& final(row).m1_pass == motor_bit(mask, 1)
                &&& final(row).m2_pass == motor_bit(mask, 2)
                &&& final(row).m3_pass == motor_bit(mask, 3)
                &&& final(row).m4_pass == motor_bit(mask, 4)
                &&& final(row).status@ == (if motor_bit(mask, 1) && motor_bit(mask, 2)
                    && motor_bit(mask, 3) && motor_bit(mask, 4) {
                    "Pass"@
                } else {
                    "Fail"@
                })
            },
            PropTest::TimedOut => {
                &&& final(row).status@ == "Timeout"@
                &&& !final(row).m1_pass && !final(row).m2_pass && !final(row).m3_pass
                    && !final(row).m4_pass
            },
            PropTest::Failed => {
                &&& final(row).status@ == "Error"@
                &&& !final(row).m1_pass && !final(row).m2_pass && !final(row).m3_pass
                    && !final(row).m4_pass
            },
        },
{
    match test {
        PropTest::Reported(mask) => {
            let m: u8 = *mask;
            row.m1_pass = m % 2 == 1;
            row.m2_pass = m / 2 % 2 == 1;
            row.m3_pass = m / 4 % 2 == 1;
            row.m4_pass = m / 8 % 2 == 1;
            row.status = if row.m1_pass && row.m2_pass && row.m3_pass && row.m4_pass {
                "Pass".to_string()
            } else {
                "Fail".to_string()
            };
        },
        PropTest::TimedOut => {
            row.m1_pass = false;
            row.m2_pass = false;
            row.m3_pass = false;
            row.m4_pass = false;
            row.status = "Timeout".to_string();
        },
        PropTest::Failed => {
            row.m1_pass = false;
            row.m2_pass = false;
            row.m3_pass = false;
            row.m4_pass = false;
            row.status = "Error".to_string();
        },
    }
}

/// Whether a report ends the propeller test: a unit reports zero until it is done.
pub fn is_test_report(motor_pass: u8) -> (r: bool)
    ensures
        r == (motor_pass != 0),
{
    motor_pass != 0
}

/// Why the digits of a number can not be read when those before them came to `value`: for the
/// first character that is no digit, or that makes the number exceed `max`.
pub open spec fn digits_refused(digits: Seq<char>, value: nat, max: nat) -> Option<Seq<char>>
    decreases digits.len(),
{
    if digits.len() == 0 {
        None
    } else if !text::is_digit(digits[0]) {
        Some("invalid digit found in string"@)
    } else {
        let next = value * 10 + (digits[0] as nat - '0' as nat) as nat;
        if next > max {
            Some("number too large to fit in target type"@)
        } else {
            digits_refused(digits.skip(1), next, max)
        }
    }
}

/// Why a tuning value can not be read; nothing where it can.
pub open spec fn tuning_refused(s: Seq<char>) -> Option<Seq<char>> {
    let kept = text::trimmed(s);
    let digits = text::without_plus(kept);
    if kept.len() == 0 {
        Some("cannot parse integer from empty string"@)
    } else if digits.len() == 0 {
        Some("invalid digit found in string"@)
    } else {
        digits_refused(digits, 0, 65535)
    }
}

/// Reads a tuning value: a number of sixteen bits, with white space around it allowed. Otherwise
/// the reason is given.
pub fn parse_tuning_value(s: &str) -> (v: Result<u16, &'static str>)
    ensures
        match v {
            Ok(n) => {
                &&& tuning_refused(s@) is None
                &&& text::unsigned_of(text::trimmed(s@), 65535) == Some(n as nat)
            },
            Err(reason) => {
                &&& tuning_refused(s@) == Some(reason@)
                &&& text::unsigned_of(text::trimmed(s@), 65535) is None
            },
        },
{
    let kept = text::trim(s);
    if kept.len() == 0 {
        return Err("cannot parse integer from empty string");
    }
    let start: usize = if kept[0] == '+' {
        1
    } else {
        0
    };
    let ghost digits = text::without_plus(kept@);
    assert(digits == kept@.skip(start as int));
    if start == kept.len() {
        return Err("invalid digit found in string");
    }
    let mut value: u32 = 0;
    let mut i: usize = start;
    assert(digits.skip(0) =~= digits);
    assert(digits.take(0) =~= Seq::empty());
    while i < kept.len()
        invariant
            start <= i <= kept@.len(),
            start < kept@.len(),
            kept@ == text::trimmed(s@),
            digits == text::without_plus(kept@),
            digits == kept@.skip(start as int),
            value <= 65535,
            value as nat == text::digits_value(digits.take(i - start)),
            forall|k: int| 0 <= k < i - start ==> text::is_digit(#[trigger] digits[k]),
            tuning_refused(s@) == digits_refused(digits.skip(i - start), value as nat, 65535),
        decreases kept.len() - i,
    {
        let c = kept[i];
        assert(digits[i - start] == c);
        assert(digits.skip(i - start)[0] == c);
        assert(digits.skip(i - start).skip(1) =~= digits.skip(i + 1 - start));
        assert(digits.take(i + 1 - start).drop_last() =~= digits.take(i - start));
        if !('0' <= c && c <= '9') {
            return Err("invalid digit found in string");
        }
        let next: u32 = value * 10 + ((c as u32) - 48);
        if next > 65535 {
            proof {
                text::lemma_digits_grow(digits, i + 1 - start);
            }
            return Err("number too large to fit in target type");
        }
        value = next;
        i = i + 1;
    }
    assert(digits.take(digits.len() as int) =~= digits);
    assert(digits.skip(digits.len() as int) =~= Seq::empty());
    Ok(value as u16)
}

/// The name of a table of contents has two lower case digits for each byte of its key, the upper
/// half of the byte first.
pub proof fn law_key_digits(key: Seq<u8>, i: int)
    ensures
        hex_of_bytes(key).len() == 2 * key.len(),
        0 <= i < key.len() ==> {
            &&& text::hex_value(hex_of_bytes(key)[2 * i]) == Some((key[i] / 16) as nat)
            &&& text::hex_value(hex_of_bytes(key)[2 * i + 1]) == Some((key[i] % 16) as nat)
            &&& !('A' <= hex_of_bytes(key)[2 * i] <= 'F')
            &&& !('A' <= hex_of_bytes(key)[2 * i + 1] <= 'F')
        },
    decreases key.len(),
{
    if key.len() > 0 {
        law_key_digits(key.drop_last(), i);
        let n = key.last() as nat;
        reveal_with_fuel(text::hex, 3);
        assert(text::hex(n, 2, false) =~= seq![
            text::hex_digit(n / 16 % 16, false),
            text::hex_digit(n % 16, false),
        ]);
        text::law_hex_digit(n / 16 % 16, false);
        text::law_hex_digit(n % 16, false);
        assert(n / 16 % 16 == n / 16);
        if 0 <= i < key.len() - 1 {
            assert(key.drop_last()[i] == key[i]);
        }
    }
}

/// A path begins with its directory and ends with its file; between them stands one slash, unless
/// the directory is empty or ends with it.
pub proof fn law_path(dir: Seq<char>, file: Seq<char>)
    ensures
        path_in(dir, file).take(dir.len() as int) == dir,
        path_in(dir, file).skip(path_in(dir, file).len() - file.len()) == file,
        dir.len() > 0 ==> path_in(dir, file)[path_in(dir, file).len() - file.len() - 1] == '/',
        path_in(dir, file).len() - dir.len() - file.len() == (if dir.len() > 0 && dir.last() != '/' {
            1int
        } else {
            0
        }),
{
    let p = path_in(dir, file);
    assert(p.take(dir.len() as int) =~= dir);
    assert(p.skip(p.len() - file.len()) =~= file);
}

/// A fraction gives the number of finished units, a slash and the number of all units.
pub proof fn law_fraction(done: nat, total: nat, max: nat)
    requires
        done <= max,
        total <= max,
    ensures
        ({
            let n = text::decimal(done).len() as int;
            let s = fraction(done, total);
            &&& text::unsigned_of(s.take(n), max) == Some(done)
            &&& s[n] == '/'
            &&& text::unsigned_of(s.skip(n + 1), max) == Some(total)
        }),
{
    reveal_strlit("/");
    text::law_decimal_read_back(done, max);
    text::law_decimal_read_back(total, max);
    let n = text::decimal(done).len() as int;
    let s = fraction(done, total);
    assert(s.take(n) =~= text::decimal(done));
    assert(s.skip(n + 1) =~= text::decimal(total));
}

/// Whatever is reported, the fraction is part of it, and so are the name of the unit and the
/// reason of a failure.
pub proof fn law_progress(p: Progress, done: nat, total: nat)
    ensures
        text::occurs_in(progress_of(p, done, total), fraction(done, total)),
        match p {
            Progress::Connecting(name) => text::occurs_in(progress_of(p, done, total), name@),
            Progress::GeometryFailed(name, reason) => text::occurs_in(
                progress_of(p, done, total),
                name@,
            ) && text::occurs_in(progress_of(p, done, total), reason@),
            Progress::GeometryUploaded(name) => text::occurs_in(progress_of(p, done, total), name@),
            Progress::TuningFailed(name) => text::begins_with(progress_of(p, done, total), name@),
            Progress::TuningTimedOut(name) => text::begins_with(progress_of(p, done, total), name@),
            _ => true,
        },
{
    let f = fraction(done, total);
    let none = Seq::<char>::empty();
    let s = progress_of(p, done, total);
    match p {
        Progress::Connecting(name) => {
            let a = "Connecting to "@ + name@ + " ("@;
            text::law_occurs(a, f, ")..."@, s);
            text::law_occurs("Connecting to "@, name@, " ("@ + f + ")..."@, s);
            assert(s =~= a + f + ")..."@);
            assert(s =~= "Connecting to "@ + name@ + (" ("@ + f + ")..."@));
        },
        Progress::GeometryFailed(name, reason) => {
            let a = "Failed: "@ + name@ + " - "@ + reason@ + " ("@;
            text::law_occurs(a, f, ")"@, s);
            text::law_occurs("Failed: "@, name@, " - "@ + reason@ + " ("@ + f + ")"@, s);
            text::law_occurs("Failed: "@ + name@ + " - "@, reason@, " ("@ + f + ")"@, s);
            assert(s =~= a + f + ")"@);
            assert(s =~= "Failed: "@ + name@ + (" - "@ + reason@ + " ("@ + f + ")"@));
            assert(s =~= "Failed: "@ + name@ + " - "@ + reason@ + (" ("@ + f + ")"@));
        },
        Progress::GeometryUploaded(name) => {
            let a = "Uploaded to "@ + name@ + " ("@;
            text::law_occurs(a, f, ")"@, s);
            text::law_occurs("Uploaded to "@, name@, " ("@ + f + ")"@, s);
            assert(s =~= a + f + ")"@);
            assert(s =~= "Uploaded to "@ + name@ + (" ("@ + f + ")"@));
        },
        Progress::TrajectoryUploaded => {
            text::law_occurs("Uploaded ("@, f, ")"@, s);
        },
        Progress::TuningFailed(name) => {
            text::law_occurs(name@ + " failed ("@, f, ")"@, s);
            assert(s.take(name@.len() as int) =~= name@);
        },
        Progress::TuningTimedOut(name) => {
            text::law_occurs(name@ + " timed out ("@, f, ")"@, s);
            assert(s.take(name@.len() as int) =~= name@);
        },
        Progress::Tuned => {
            text::law_occurs("Done ("@, f, ")"@, s);
        },
        Progress::Tested => {
            text::law_occurs(none, f, " done"@, s);
            assert(s =~= none + f + " done"@);
        },
    }
}

/// A unit that is armed goes through all steps in order: it waits, notes its position on the
/// ground, takes off, climbs, notes its position in the air, starts the trajectory, flies it,
/// lands and is done. A unit that cannot be armed is done at once.
pub proof fn law_flight_order(outcomes: Seq<bool>)
    requires
        1 <= outcomes.len() <= 9,
    ensures
        outcomes[0] ==> flight_after(FlightStep::Arm, outcomes) == seq![
            FlightStep::Armed,
            FlightStep::NoteGround,
            FlightStep::TakeOff,
            FlightStep::Climb,
            FlightStep::NoteAir,
            FlightStep::Start,
            FlightStep::Fly,
            FlightStep::Land,
            FlightStep::Done,
        ][outcomes.len() - 1],
        !outcomes[0] ==> flight_after(FlightStep::Arm, outcomes) is Done,
{
    reveal_with_fuel(flight_after, 10);
}

/// The lights blink white, blue, red and green in turn.
pub proof fn law_blink_cycle(n: nat)
    ensures
        blink_color(4 * n) == 0xFF_FFFF,
        blink_color(4 * n + 1) == 0xFF,
        blink_color(4 * n + 2) == 0xFF_0000,
        blink_color(4 * n + 3) == 0xFF00,
{
}

/// The bits of the four motors add up to the lower half of the mask, the first motor lowest.
pub proof fn law_motor_mask(mask: u8)
    ensures
        mask as int % 16 == (if motor_bit(mask, 1) {
            1int
        } else {
            0
        }) + (if motor_bit(mask, 2) {
            2int
        } else {
            0
        }) + (if motor_bit(mask, 3) {
            4int
        } else {
            0
        }) + (if motor_bit(mask, 4) {
            8int
        } else {
            0
        }),
{
    let m = mask as int;
    assert(m == 2 * (m / 2) + m % 2);
    assert(m / 2 == 2 * (m / 4) + m / 2 % 2);
    assert(m / 4 == 2 * (m / 8) + m / 4 % 2);
    assert(m / 8 == 2 * (m / 16) + m / 8 % 2);
    assert(m == 16 * (m / 16) + m % 16);
}

/// Digits alone are refused only for being too many; the first other character behind digits that
/// fit is named as the reason.
pub proof fn law_digits_reason(digits: Seq<char>, value: nat, max: nat)
    ensures
        (forall|i: int| 0 <= i < digits.len() ==> text::is_digit(#[trigger] digits[i])) ==> {
            ||| digits_refused(digits, value, max) is None
            ||| digits_refused(digits, value, max) == Some("number too large to fit in target type"@)
        },
        digits_refused(digits, value, max) is None ==> forall|i: int|
            0 <= i < digits.len() ==> text::is_digit(#[trigger] digits[i]),
        digits.len() > 0 && !text::is_digit(digits[0]) ==> digits_refused(digits, value, max)
            == Some("invalid digit found in string"@),
    decreases digits.len(),
{
    if digits.len() > 0 && text::is_digit(digits[0]) {
        let rest = digits.skip(1);
        let next = value * 10 + (digits[0] as nat - '0' as nat) as nat;
        law_digits_reason(rest, next, max);
        if forall|i: int| 0 <= i < digits.len() ==> text::is_digit(#[trigger] digits[i]) {
            assert forall|i: int| 0 <= i < rest.len() implies text::is_digit(#[trigger] rest[i]) by {
                assert(rest[i] == digits[i + 1]);
            }
        }
        if digits_refused(digits, value, max) is None {
            assert forall|i: int| 0 <= i < digits.len() implies text::is_digit(
                #[trigger] digits[i],
            ) by {
                if i > 0 {
                    assert(rest[i - 1] == digits[i]);
                }
            }
        }
    }
}

/// A tuning value that is blank is refused as empty, and a sign alone for its missing digits;
/// white space around a value makes no difference.
pub proof fn law_tuning_reason(a: Seq<char>, core: Seq<char>, b: Seq<char>)
    requires
        text::blank(a),
        text::blank(b),
        core.len() > 0 ==> !text::whitespace(core[0]) && !text::whitespace(core.last()),
    ensures
        tuning_refused(a + core + b) == tuning_refused(core),
        core.len() == 0 ==> tuning_refused(core) == Some("cannot parse integer from empty string"@),
        core == seq!['+'] ==> tuning_refused(core) == Some("invalid digit found in string"@),
{
    let none = Seq::<char>::empty();
    text::law_trimmed_ends(a, core, b);
    text::law_trimmed_ends(none, core, none);
    assert(none + core + none =~= core);
    if core == seq!['+'] {
        assert(text::without_plus(core) =~= none);
    }
}

proof fn lemma_digits_accepted(before: Seq<char>, digits: Seq<char>, max: nat)
    requires
        forall|i: int| 0 <= i < digits.len() ==> text::is_digit(#[trigger] digits[i]),
        text::digits_value(before) <= max,
    ensures
        digits_refused(digits, text::digits_value(before), max) is None <==> text::digits_value(
            before + digits,
        ) <= max,
    decreases digits.len(),
{
    let all = before + digits;
    if digits.len() == 0 {
        assert(all =~= before);
    } else {
        let rest = digits.skip(1);
        let more = before.push(digits[0]);
        assert(more.drop_last() =~= before);
        assert(more + rest =~= all);
        assert(text::is_digit(digits[0]));
        assert forall|i: int| 0 <= i < rest.len() implies text::is_digit(#[trigger] rest[i]) by {
            assert(rest[i] == digits[i + 1]);
        }
        text::lemma_digits_grow(all, more.len() as int);
        assert(all.take(more.len() as int) =~= more);
        if text::digits_value(more) <= max {
            lemma_digits_accepted(more, rest, max);
        }
    }
}

/// A tuning value that is written in decimal is accepted if and only if it fits in sixteen bits,
/// and refused as too large otherwise.
pub proof fn law_tuning_range(n: nat)
    ensures
        tuning_refused(text::decimal(n)) is None <==> n < 65536,
        n >= 65536 ==> tuning_refused(text::decimal(n)) == Some(
            "number too large to fit in target type"@,
        ),
{
    let none = Seq::<char>::empty();
    let d = text::decimal(n);
    text::lemma_decimal_digits(n);
    assert(text::is_digit(d[0]) && text::is_digit(d[d.len() - 1]));
    text::law_trimmed_ends(none, d, none);
    assert(none + d + none =~= d);
    assert(none + d =~= d);
    assert(text::digits_value(none) == 0);
    lemma_digits_accepted(none, d, 65535);
    law_digits_reason(d, 0, 65535);
}

/// The blinks are counted up one by one; after the last number they are counted from zero again.
pub proof fn law_blink_numbers(n: usize)
    ensures
        n < usize::MAX ==> identify_next(IdentifyStep::Pause(n), false) == IdentifyStep::Blink(
            (n + 1) as usize,
        ),
        identify_next(IdentifyStep::Pause(usize::MAX), false) == IdentifyStep::Blink(0),
        identify_next(IdentifyStep::Blink(n), false) == IdentifyStep::Pause(n),
        identify_next(IdentifyStep::TakeMotors, false) == IdentifyStep::Blink(0),
{
}

} // verus!
