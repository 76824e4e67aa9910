//! The pass over the records of one log.
//!
//! The pass keeps the samples inside the time window, drops the changes of
//! depth that are too small to show, and gathers the statistics of the dive.
//! What it computes is stated here as a fold over the records, one record
//! at a time and, inside a record, one field at a time.

use vstd::prelude::*;
use crate::error::Fit2SrtError;
use crate::record::{Field, Record, RecordKind, Timestamp, Value};
use crate::summary::{refuses, unit_known, unknown_unit_text, with_unit, Summary};
use crate::text::{decimal, digit_char, str_eq, trunc_div};

verus! {

/// The settings of a pass, as plain numbers.
pub struct WindowConfig {
    /// The name of the field whose value the subtitles show.
    pub field: Seq<char>,
    /// The least change of that value worth showing, in thousandths.
    pub tick: nat,
    /// The time of day at which the video began, in seconds since midnight;
    /// zero if the video began with the first sample.
    pub start_time_secs: nat,
    /// The time of day up to which samples are left out.
    pub after_time_secs: nat,
    /// The time of day past which the log is cut off; zero for no cut.
    pub before_time_secs: nat,
}

/// The statistics gathered so far, or the text of the failure that ended
/// the gathering.
pub type Gathered = Result<Summary, Seq<char>>;

/// `summary` after it took note of `unit`, or the failure on a unit that is
/// not known.
pub open spec fn noted(summary: Summary, unit: Seq<char>) -> Gathered {
    if unit_known(unit) {
        Ok(with_unit(summary, unit))
    } else {
        Err(unknown_unit_text(unit))
    }
}

/// What one field of a dive summary adds to the statistics: the average
/// and the greatest depth.  A field of another name, or of another type,
/// adds nothing.
pub open spec fn dive_summary_field(so_far: Gathered, field: Field) -> Gathered {
    match so_far {
        Err(_) => so_far,
        Ok(summary) => match field.value {
            Value::Decimal(depth) => if field.name@ == "avg_depth"@ {
                noted(Summary { avg_depth: Some(depth), ..summary }, field.units@)
            } else if field.name@ == "max_depth"@ {
                noted(Summary { max_depth: Some(depth), ..summary }, field.units@)
            } else {
                so_far
            },
            _ => so_far,
        },
    }
}

/// A coordinate after another value for it was read: the first value as it
/// is, later ones averaged with what was there, each half rounded toward
/// zero.
pub open spec fn averaged(old: Option<i32>, new: i32) -> Option<i32> {
    match old {
        Some(old) => Some((trunc_div(old as int, 2) + trunc_div(new as int, 2)) as i32),
        None => Some(new),
    }
}

/// Whether `name` is one of the two fields that hold a latitude.
pub open spec fn names_latitude(name: Seq<char>) -> bool {
    name == "start_position_lat"@ || name == "end_position_lat"@
}

/// Whether `name` is one of the two fields that hold a longitude.
pub open spec fn names_longitude(name: Seq<char>) -> bool {
    name == "start_position_long"@ || name == "end_position_long"@
}

/// What one field of a session adds to the statistics: the position, the
/// elapsed time, the average and the lowest temperature.
pub open spec fn session_field(so_far: Gathered, field: Field) -> Gathered {
    match so_far {
        Err(_) => so_far,
        Ok(summary) => match field.value {
            Value::SInt32(coordinate) => if names_latitude(field.name@) {
                Ok(
                    Summary {
                        location: (averaged(summary.location.0, coordinate), summary.location.1),
                        ..summary
                    },
                )
            } else if names_longitude(field.name@) {
                Ok(
                    Summary {
                        location: (summary.location.0, averaged(summary.location.1, coordinate)),
                        ..summary
                    },
                )
            } else {
                so_far
            },
            Value::Decimal(time) => if field.name@ == "total_elapsed_time"@ {
                Ok(Summary { time: time as u64, ..summary })
            } else {
                so_far
            },
            Value::SInt8(temperature) => if field.name@ == "avg_temperature"@ {
                noted(Summary { avg_temperature: Some(temperature), ..summary }, field.units@)
            } else if field.name@ == "min_temperature"@ {
                noted(Summary { min_temperature: Some(temperature), ..summary }, field.units@)
            } else {
                so_far
            },
            _ => so_far,
        },
    }
}

/// The statistics after all fields of a dive summary.
pub open spec fn dive_summary_fields(summary: Summary, fields: Seq<Field>) -> Gathered {
    fields.fold_left(Ok(summary), |g: Gathered, f: Field| dive_summary_field(g, f))
}

/// The statistics after all fields of a session.
pub open spec fn session_fields(summary: Summary, fields: Seq<Field>) -> Gathered {
    fields.fold_left(Ok(summary), |g: Gathered, f: Field| session_field(g, f))
}

/// Once a fold is stuck in a state that no item changes, the items that
/// follow leave it there.
pub proof fn lemma_fold_stays<S, A>(
    items: Seq<A>,
    step: spec_fn(S, A) -> S,
    init: S,
    stuck: spec_fn(S) -> bool,
    k: int,
)
    requires
        0 <= k <= items.len(),
        stuck(items.take(k).fold_left(init, step)),
        forall|s: S, a: A| stuck(s) ==> #[trigger] step(s, a) == s,
    ensures
        items.fold_left(init, step) == items.take(k).fold_left(init, step),
    decreases items.len() - k,
{
    if k < items.len() {
        assert(items.take(k + 1).drop_last() =~= items.take(k));
        lemma_fold_stays(items, step, init, stuck, k + 1);
    } else {
        assert(items.take(k) =~= items);
    }
}

/// Whether `done` is what gathering the statistics came to.
pub open spec fn gathers(done: Result<Summary, Fit2SrtError>, gathered: Gathered) -> bool {
    match gathered {
        Ok(summary) => done == Ok::<Summary, Fit2SrtError>(summary),
        Err(text) => refuses(done, text),
    }
}

/// Reads the fields of a dive summary into `summary`.
pub fn read_dive_summary(summary: Summary, fields: &Vec<Field>) -> (done: Result<
    Summary,
    Fit2SrtError,
>)
    ensures
        gathers(done, dive_summary_fields(summary, fields@)),
{
    let ghost step = |g: Gathered, f: Field| dive_summary_field(g, f);
    let mut gathered = summary;
    let mut i: usize = 0;
    while i < fields.len()
        invariant
            i <= fields.len(),
            step == |g: Gathered, f: Field| dive_summary_field(g, f),
            fields@.take(i as int).fold_left(Ok(summary), step) == Gathered::Ok(gathered),
        decreases fields.len() - i,
    {
        proof {
            assert(fields@.take(i + 1).drop_last() =~= fields@.take(i as int));
            reveal_strlit("avg_depth");
            reveal_strlit("max_depth");
        }
        let field = &fields[i];
        if let Value::Decimal(depth) = field.value {
            let average = str_eq(field.name.as_str(), "avg_depth");
            if average || str_eq(field.name.as_str(), "max_depth") {
                if average {
                    gathered.avg_depth = Some(depth);
                } else {
                    gathered.max_depth = Some(depth);
                }
                match gathered.set_unit(field.units.as_str()) {
                    Ok(()) => {},
                    Err(e) => {
                        proof {
                            lemma_fold_stays(
                                fields@,
                                step,
                                Ok(summary),
                                |g: Gathered| g is Err,
                                i + 1,
                            );
                        }
                        return Err(e);
                    },
                }
            }
        }
        i = i + 1;
    }
    proof {
        assert(fields@.take(i as int) =~= fields@);
    }
    Ok(gathered)
}

/// The average of a coordinate with a value read for it.
fn average_in(old: Option<i32>, new: i32) -> (coordinate: Option<i32>)
    ensures
        coordinate == averaged(old, new),
{
    match old {
        Some(old) => Some(old / 2 + new / 2),
        None => Some(new),
    }
}

/// Reads the fields of a session into `summary`.
pub fn read_session(summary: Summary, fields: &Vec<Field>) -> (done: Result<
    Summary,
    Fit2SrtError,
>)
    ensures
        gathers(done, session_fields(summary, fields@)),
{
    let ghost step = |g: Gathered, f: Field| session_field(g, f);
    let mut gathered = summary;
    let mut i: usize = 0;
    while i < fields.len()
        invariant
            i <= fields.len(),
            step == |g: Gathered, f: Field| session_field(g, f),
            fields@.take(i as int).fold_left(Ok(summary), step) == Gathered::Ok(gathered),
        decreases fields.len() - i,
    {
        proof {
            assert(fields@.take(i + 1).drop_last() =~= fields@.take(i as int));
            reveal_strlit("start_position_lat");
            reveal_strlit("end_position_lat");
            reveal_strlit("start_position_long");
            reveal_strlit("end_position_long");
            reveal_strlit("total_elapsed_time");
            reveal_strlit("avg_temperature");
            reveal_strlit("min_temperature");
        }
        let field = &fields[i];
        let name = field.name.as_str();
        match field.value {
            Value::SInt32(coordinate) => {
                if str_eq(name, "start_position_lat") || str_eq(name, "end_position_lat") {
                    gathered.location.0 = average_in(gathered.location.0, coordinate);
                } else if str_eq(name, "start_position_long") || str_eq(
                    name,
                    "end_position_long",
                ) {
                    gathered.location.1 = average_in(gathered.location.1, coordinate);
                }
            },
            Value::Decimal(time) => {
                if str_eq(name, "total_elapsed_time") {
                    gathered.time = time as u64;
                }
            },
            Value::SInt8(temperature) => {
                let average = str_eq(name, "avg_temperature");
                if average || str_eq(name, "min_temperature") {
                    if average {
                        gathered.avg_temperature = Some(temperature);
                    } else {
                        gathered.min_temperature = Some(temperature);
                    }
                    match gathered.set_unit(field.units.as_str()) {
                        Ok(()) => {},
                        Err(e) => {
                            proof {
                                lemma_fold_stays(
                                    fields@,
                                    step,
                                    Ok(summary),
                                    |g: Gathered| g is Err,
                                    i + 1,
                                );
                            }
                            return Err(e);
                        },
                    }
                }
            },
            _ => {},
        }
        i = i + 1;
    }
    proof {
        assert(fields@.take(i as int) =~= fields@);
    }
    Ok(gathered)
}

/// What the fields of a sample have shown so far.
pub struct Scan {
    /// Whether no sample has been inside the window yet.
    pub before: bool,
    /// The unit of the shown value; empty until a field gave one.
    pub unit: Seq<char>,
    /// The timestamp of the sample, if it is inside the window.
    pub timestamp: Option<Timestamp>,
    /// The shown value of the sample, if it has one.
    pub depth: Option<u32>,
    /// Whether a timestamp past the end of the window was met: the pass
    /// ends there.
    pub halted: bool,
}

/// What one field adds to the scan of a sample.
///
/// A timestamp is left out while no sample has been inside the window and
/// its time of day is not past `cfg.after_time_secs`.  Otherwise, one whose
/// time of day is past a `cfg.before_time_secs` other than zero halts the
/// pass.  Any other timestamp is inside the window.  A field with the name
/// `cfg.field` gives the shown value, if it holds a measurement, and the
/// unit, if none is known yet.
pub open spec fn scan_field(cfg: WindowConfig, scan: Scan, field: Field) -> Scan {
    if scan.halted {
        scan
    } else if field.name@ == "timestamp"@ {
        match field.value {
            Value::Timestamp(moment) => if scan.before && cfg.after_time_secs
                >= moment.seconds_of_day() {
                scan
            } else if cfg.before_time_secs > 0 && cfg.before_time_secs < moment.seconds_of_day() {
                Scan { halted: true, ..scan }
            } else {
                Scan { before: false, timestamp: Some(moment), ..scan }
            },
            _ => scan,
        }
    } else if field.name@ == cfg.field {
        Scan {
            depth: match field.value {
                Value::Decimal(depth) => Some(depth),
                _ => scan.depth,
            },
            unit: if scan.unit.len() == 0 {
                field.units@
            } else {
                scan.unit
            },
            ..scan
        }
    } else {
        scan
    }
}

/// The scan of a sample before its first field.
pub open spec fn scan_start(before: bool, unit: Seq<char>) -> Scan {
    Scan { before, unit, timestamp: None, depth: None, halted: false }
}

/// The scan of a sample after all its fields.
pub open spec fn scan_fields(cfg: WindowConfig, before: bool, unit: Seq<char>, fields: Seq<Field>)
    -> Scan {
    fields.fold_left(scan_start(before, unit), |s: Scan, f: Field| scan_field(cfg, s, f))
}

/// The multiple of `tick` nearest to `value`; of two that are equally near,
/// the greater.
pub open spec fn quantize(value: int, tick: int) -> int {
    (2 * value + tick) / (2 * tick) * tick
}

/// Whether `rounded` is more than one `tick` away from `baseline`.
pub open spec fn differs(rounded: int, baseline: int, tick: int) -> bool {
    rounded - baseline > tick || baseline - rounded > tick
}

/// `value`, which counts thousandths, in tenths: rounded to the nearest,
/// a half upward.
pub open spec fn tenths(value: int) -> int {
    (value + 50) / 100
}

/// The text that shows `value`, which counts thousandths: its whole part, a
/// point, one decimal, and the unit.
pub open spec fn depth_text(value: int, unit: Seq<char>) -> Seq<char> {
    decimal((tenths(value) / 10) as nat) + seq!['.', digit_char(tenths(value) % 10)] + unit
}

/// Where a pass stands after some of the records.
pub struct Pass {
    /// Whether no sample has been inside the window yet.
    pub before: bool,
    /// The unit of the shown value; empty until a field gave one.
    pub unit: Seq<char>,
    /// The moment from which the events are timed, in seconds, once the
    /// first sample with a timestamp and a value has fixed it.
    pub start: Option<int>,
    /// The value that the next one is compared with, in thousandths.
    pub baseline: int,
    /// How far into the video the first sample lies, in milliseconds.
    pub carried: int,
    /// The events so far: milliseconds since `start`, and the text to show.
    pub events: Seq<(int, Seq<char>)>,
    /// The statistics so far.
    pub summary: Summary,
    /// Whether the end of the window was met.
    pub halted: bool,
    /// The text of the failure that ended the pass, if one did.
    pub failure: Option<Seq<char>>,
}

/// A pass before its first record.
pub open spec fn pass_start() -> Pass {
    Pass {
        before: true,
        unit: Seq::empty(),
        start: None,
        baseline: 0,
        carried: 0,
        events: Seq::empty(),
        summary: crate::summary::empty_summary(),
        halted: false,
        failure: None,
    }
}

/// Whether a pass is over before the records are.
pub open spec fn over(pass: Pass) -> bool {
    pass.halted || pass.failure is Some
}

/// The pass after a sample with the timestamp `moment` and the value `depth`.
///
/// The first such sample fixes the start and the baseline and yields no
/// event.  Where the video began at a set time of day, the start is that
/// time on the day of the sample, and the pass carries how far the sample
/// lies behind it.  Every later sample is rounded to the tick and yields an
/// event, and becomes the baseline, if it is more than one tick away from
/// the baseline.
pub open spec fn take_reading(cfg: WindowConfig, pass: Pass, moment: Timestamp, depth: u32)
    -> Pass {
    match pass.start {
        Some(start) => {
            let rounded = quantize(depth as int, cfg.tick as int);
            if differs(rounded, pass.baseline, cfg.tick as int) {
                Pass {
                    events: pass.events.push(
                        ((moment.seconds - start) * 1000, depth_text(rounded, pass.unit)),
                    ),
                    baseline: rounded,
                    ..pass
                }
            } else {
                pass
            }
        },
        None => if cfg.start_time_secs != 0 {
            Pass {
                start: Some(moment.seconds - (moment.seconds_of_day() - cfg.start_time_secs)),
                carried: (moment.seconds_of_day() - cfg.start_time_secs) * 1000,
                baseline: depth as int,
                ..pass
            }
        } else {
            Pass { start: Some(moment.seconds as int), baseline: depth as int, ..pass }
        },
    }
}

/// The pass after a sample whose fields were scanned.
pub open spec fn take_sample(cfg: WindowConfig, pass: Pass, scan: Scan) -> Pass {
    let seen = Pass { before: scan.before, unit: scan.unit, ..pass };
    if scan.halted {
        Pass { halted: true, ..seen }
    } else {
        match (scan.timestamp, scan.depth) {
            (Some(moment), Some(depth)) => take_reading(cfg, seen, moment, depth),
            _ => seen,
        }
    }
}

/// The pass after it gathered statistics from a record.
pub open spec fn take_gathered(pass: Pass, gathered: Gathered) -> Pass {
    match gathered {
        Ok(summary) => Pass { summary, ..pass },
        Err(text) => Pass { failure: Some(text), ..pass },
    }
}

/// The pass after one more record.  A pass that is over stays as it is.
pub open spec fn take_record(cfg: WindowConfig, pass: Pass, record: Record) -> Pass {
    if over(pass) {
        pass
    } else {
        match record.kind {
            RecordKind::DiveSummary => take_gathered(
                pass,
                dive_summary_fields(pass.summary, record.fields@),
            ),
            RecordKind::Session => take_gathered(
                pass,
                session_fields(pass.summary, record.fields@),
            ),
            RecordKind::Other => take_sample(
                cfg,
                pass,
                scan_fields(cfg, pass.before, pass.unit, record.fields@),
            ),
        }
    }
}

/// The pass after all records of a log.
pub open spec fn window(cfg: WindowConfig, records: Seq<Record>) -> Pass {
    records.fold_left(pass_start(), |p: Pass, r: Record| take_record(cfg, p, r))
}

/// What the scan of a sample found.
pub struct Scanned {
    /// The timestamp of the sample, if it is inside the window.
    pub timestamp: Option<Timestamp>,
    /// The shown value of the sample, if it has one.
    pub depth: Option<u32>,
    /// Whether the end of the window was met.
    pub halted: bool,
}

/// Scans the fields of a sample.  `before` and `unit` go from one sample to
/// the next.
pub(crate) fn scan_sample(
    field_name: &str,
    after_time_secs: u32,
    before_time_secs: u32,
    before: &mut bool,
    unit: &mut String,
    fields: &Vec<Field>,
    Ghost(cfg): Ghost<WindowConfig>,
) -> (scanned: Scanned)
    requires
        cfg.field == field_name@,
        cfg.after_time_secs == after_time_secs,
        cfg.before_time_secs == before_time_secs,
    ensures
        scan_fields(cfg, *old(before), old(unit)@, fields@) == (Scan {
            before: *final(before),
            unit: final(unit)@,
            timestamp: scanned.timestamp,
            depth: scanned.depth,
            halted: scanned.halted,
        }),
{
    let ghost step = |s: Scan, f: Field| scan_field(cfg, s, f);
    let ghost start = scan_start(*before, unit@);
    let mut timestamp: Option<Timestamp> = None;
    let mut depth: Option<u32> = None;
    let mut i: usize = 0;
    while i < fields.len()
        invariant
            i <= fields.len(),
            cfg.field == field_name@,
            cfg.after_time_secs == after_time_secs,
            cfg.before_time_secs == before_time_secs,
            step == |s: Scan, f: Field| scan_field(cfg, s, f),
            start == scan_start(*old(before), old(unit)@),
            fields@.take(i as int).fold_left(start, step) == (Scan {
                before: *before,
                unit: unit@,
                timestamp,
                depth,
                halted: false,
            }),
        decreases fields.len() - i,
    {
        proof {
            assert(fields@.take(i + 1).drop_last() =~= fields@.take(i as int));
            reveal_strlit("timestamp");
        }
        let field = &fields[i];
        if str_eq(field.name.as_str(), "timestamp") {
            if let Value::Timestamp(moment) = field.value {
                if *before && after_time_secs >= moment.seconds_of_day() {
                } else if before_time_secs > 0 && before_time_secs < moment.seconds_of_day() {
                    proof {
                        let upto = fields@.take(i + 1);
                        assert(upto.last() == fields@[i as int]);
                        assert(upto.fold_left(start, step) == step(
                            upto.drop_last().fold_left(start, step),
                            upto.last(),
                        ));
                        lemma_fold_stays(fields@, step, start, |s: Scan| s.halted, i + 1);
                    }
                    return Scanned { timestamp, depth, halted: true };
                } else {
                    *before = false;
                    timestamp = Some(moment);
                }
            }
        } else if str_eq(field.name.as_str(), field_name) {
            if let Value::Decimal(value) = field.value {
                depth = Some(value);
            }
            if unit.as_str().is_empty() {
                *unit = field.units.clone();
            }
        }
        i = i + 1;
    }
    proof {
        assert(fields@.take(i as int) =~= fields@);
    }
    Scanned { timestamp, depth, halted: false }
}

/// Rounds `value` to the nearest multiple of `tick`.
pub fn round_to_tick(value: u32, tick: u32) -> (rounded: u64)
    requires
        tick > 0,
    ensures
        rounded == quantize(value as int, tick as int),
        rounded <= value + tick,
{
    let doubled: u64 = 2 * (value as u64) + tick as u64;
    let ticks: u64 = doubled / (2 * (tick as u64));
    assert(ticks * tick <= value + tick) by (nonlinear_arith)
        requires
            ticks == (doubled as int) / (2 * tick as int),
            doubled == 2 * value + tick,
            tick > 0,
    ;
    ticks * (tick as u64)
}

/// Writes the text that shows `value`, which counts thousandths, in `unit`.
pub fn render_depth(value: u64, unit: &str) -> (text: String)
    requires
        value <= u64::MAX - 50,
    ensures
        text@ == depth_text(value as int, unit@),
{
    let rounded: u64 = (value + 50) / 100;
    let mut text = String::new();
    crate::text::push_decimal(&mut text, rounded / 10);
    proof {
        reveal_strlit(".");
    }
    text.append(".");
    crate::text::push_decimal(&mut text, rounded % 10);
    text.append(unit);
    proof {
        assert(decimal((rounded % 10) as nat) =~= seq![digit_char(tenths(value as int) % 10)]);
        assert(text@ =~= depth_text(value as int, unit@));
    }
    text
}

/// Rounding gives a multiple of the tick that is at most half a tick away.
pub proof fn lemma_quantize_is_nearest(value: int, tick: int)
    requires
        value >= 0,
        tick > 0,
    ensures
        quantize(value, tick) % tick == 0,
        -tick <= 2 * (quantize(value, tick) - value) <= tick,
{
    let ticks = (2 * value + tick) / (2 * tick);
    assert(ticks * tick % tick == 0) by (nonlinear_arith)
        requires
            tick > 0,
    ;
    assert(2 * value + tick - 2 * tick < ticks * (2 * tick) <= 2 * value + tick)
        by (nonlinear_arith)
        requires
            ticks == (2 * value + tick) / (2 * tick),
            tick > 0,
    ;
    assert(ticks * (2 * tick) == 2 * (ticks * tick)) by (nonlinear_arith);
}

/// A value that stays the same yields no event: once a sample has become
/// the baseline, be it as the first sample or by an event, a sample of the
/// same value leaves the pass as it is.
pub proof fn lemma_constant_value_is_silent(
    cfg: WindowConfig,
    pass: Pass,
    moment: Timestamp,
    depth: u32,
)
    requires
        cfg.tick > 0,
        pass.start is Some,
        pass.baseline == depth || pass.baseline == quantize(depth as int, cfg.tick as int),
    ensures
        take_reading(cfg, pass, moment, depth) == pass,
{
    lemma_quantize_is_nearest(depth as int, cfg.tick as int);
}

/// However often a value is repeated after the sample that made it the
/// baseline, no event comes of it.
pub proof fn lemma_constant_values_are_silent(
    cfg: WindowConfig,
    pass: Pass,
    moments: Seq<Timestamp>,
    depth: u32,
)
    requires
        cfg.tick > 0,
        pass.start is Some,
        pass.baseline == depth || pass.baseline == quantize(depth as int, cfg.tick as int),
    ensures
        moments.fold_left(pass, |p: Pass, m: Timestamp| take_reading(cfg, p, m, depth)) == pass,
    decreases moments.len(),
{
    if moments.len() > 0 {
        lemma_constant_values_are_silent(cfg, pass, moments.drop_last(), depth);
        lemma_constant_value_is_silent(cfg, pass, moments.last(), depth);
    }
}

/// The first sample with a timestamp and a value yields no event.  It
/// becomes the baseline, so that the same value after it yields none either.
pub proof fn lemma_first_reading_is_silent(
    cfg: WindowConfig,
    pass: Pass,
    moment: Timestamp,
    depth: u32,
)
    requires
        pass.start is None,
    ensures
        take_reading(cfg, pass, moment, depth).events == pass.events,
        take_reading(cfg, pass, moment, depth).baseline == depth,
        take_reading(cfg, pass, moment, depth).start is Some,
{
}

/// A value that rounds to more than one tick away from the baseline yields
/// exactly one event, which shows the rounded value at the time of the
/// sample.  The rounded value becomes the baseline, so that the same value
/// after it yields no second event.
pub proof fn lemma_change_yields_one_event(
    cfg: WindowConfig,
    pass: Pass,
    moment: Timestamp,
    depth: u32,
)
    requires
        cfg.tick > 0,
        pass.start is Some,
        differs(quantize(depth as int, cfg.tick as int), pass.baseline, cfg.tick as int),
    ensures
        ({
            let rounded = quantize(depth as int, cfg.tick as int);
            let after = take_reading(cfg, pass, moment, depth);
            &&& after.events == pass.events.push(
                ((moment.seconds - pass.start->0) * 1000, depth_text(rounded, pass.unit)),
            )
            &&& after.baseline == rounded
            &&& forall|again: Timestamp| take_reading(cfg, after, again, depth) == after
        }),
{
    let after = take_reading(cfg, pass, moment, depth);
    assert forall|again: Timestamp| take_reading(cfg, after, again, depth) == after by {
        lemma_constant_value_is_silent(cfg, after, again, depth);
    }
}

/// Whether every timestamp among `fields` is at or before the time of day
/// up to which samples are left out.
pub open spec fn all_early(cfg: WindowConfig, fields: Seq<Field>) -> bool {
    forall|k: int|
        0 <= k < fields.len() && (#[trigger] fields[k]).name@ == "timestamp"@ ==> (
        fields[k].value matches Value::Timestamp(moment) ==> moment.seconds_of_day()
            <= cfg.after_time_secs)
}

/// While no sample has been inside the window, the scan of a sample that
/// is not past the beginning of the window finds no timestamp, and the
/// window is still to come.
pub proof fn lemma_early_scan(cfg: WindowConfig, unit: Seq<char>, fields: Seq<Field>)
    requires
        all_early(cfg, fields),
    ensures
        scan_fields(cfg, true, unit, fields).before,
        scan_fields(cfg, true, unit, fields).timestamp is None,
        !scan_fields(cfg, true, unit, fields).halted,
    decreases fields.len(),
{
    if fields.len() > 0 {
        let front = fields.drop_last();
        assert forall|k: int|
            0 <= k < front.len() && (#[trigger] front[k]).name@
                == "timestamp"@ implies (front[k].value matches Value::Timestamp(moment)
            ==> moment.seconds_of_day() <= cfg.after_time_secs) by {
            assert(front[k] == fields[k]);
        }
        lemma_early_scan(cfg, unit, front);
        assert(fields.last() == fields[fields.len() - 1]);
    }
}

/// A sample at or before the beginning of the window is dropped while no
/// sample has been inside the window: it yields no event, it fixes neither
/// start nor baseline, and the window is still to come.
pub proof fn lemma_early_sample_is_dropped(cfg: WindowConfig, pass: Pass, record: Record)
    requires
        !over(pass),
        pass.before,
        record.kind == RecordKind::Other,
        all_early(cfg, record.fields@),
    ensures
        ({
            let after = take_record(cfg, pass, record);
            &&& after.events == pass.events
            &&& after.start == pass.start
            &&& after.baseline == pass.baseline
            &&& after.carried == pass.carried
            &&& after.summary == pass.summary
            &&& after.before
            &&& !over(after)
        }),
{
    lemma_early_scan(cfg, pass.unit, record.fields@);
}

/// The scan halts at a timestamp past the end of the window, if it is the
/// first timestamp of its sample and the sample is not left out for being
/// before the window.  The fields that follow do not undo it.
pub proof fn lemma_late_timestamp_halts(
    cfg: WindowConfig,
    before: bool,
    unit: Seq<char>,
    fields: Seq<Field>,
    at: int,
    moment: Timestamp,
)
    requires
        0 <= at < fields.len(),
        forall|k: int| 0 <= k < at ==> (#[trigger] fields[k]).name@ != "timestamp"@,
        fields[at].name@ == "timestamp"@,
        fields[at].value == Value::Timestamp(moment),
        cfg.before_time_secs > 0,
        moment.seconds_of_day() > cfg.before_time_secs,
        !(before && cfg.after_time_secs >= moment.seconds_of_day()),
    ensures
        scan_fields(cfg, before, unit, fields).halted,
{
    let step = |s: Scan, f: Field| scan_field(cfg, s, f);
    let start = scan_start(before, unit);
    lemma_plain_fields_keep_flags(cfg, before, unit, fields.take(at));
    let upto = fields.take(at + 1);
    assert(upto.drop_last() =~= fields.take(at));
    assert(upto.last() == fields[at]);
    assert(upto.fold_left(start, step).halted);
    lemma_fold_stays(fields, step, start, |s: Scan| s.halted, at + 1);
}

/// Fields that are not timestamps leave it open whether the sample is
/// inside the window.
proof fn lemma_plain_fields_keep_flags(
    cfg: WindowConfig,
    before: bool,
    unit: Seq<char>,
    fields: Seq<Field>,
)
    requires
        forall|k: int| 0 <= k < fields.len() ==> (#[trigger] fields[k]).name@ != "timestamp"@,
    ensures
        scan_fields(cfg, before, unit, fields).before == before,
        !scan_fields(cfg, before, unit, fields).halted,
    decreases fields.len(),
{
    if fields.len() > 0 {
        let front = fields.drop_last();
        assert forall|k: int| 0 <= k < front.len() implies (#[trigger] front[k]).name@
            != "timestamp"@ by {
            assert(front[k] == fields[k]);
        }
        lemma_plain_fields_keep_flags(cfg, before, unit, front);
        assert(fields.last() == fields[fields.len() - 1]);
    }
}

/// A sample past the end of the window ends the pass: whatever records
/// follow it, the events, the statistics and the carried time are those
/// gathered before it.
pub proof fn lemma_halt_ends_pass(
    cfg: WindowConfig,
    head: Seq<Record>,
    sample: Record,
    rest: Seq<Record>,
)
    requires
        !over(window(cfg, head)),
        sample.kind == RecordKind::Other,
        scan_fields(
            cfg,
            window(cfg, head).before,
            window(cfg, head).unit,
            sample.fields@,
        ).halted,
    ensures
        ({
            let ended = window(cfg, head.push(sample) + rest);
            &&& ended.halted
            &&& ended.failure is None
            &&& ended.events == window(cfg, head).events
            &&& ended.summary == window(cfg, head).summary
            &&& ended.carried == window(cfg, head).carried
        }),
{
    let step = |p: Pass, r: Record| take_record(cfg, p, r);
    let all = head.push(sample) + rest;
    let upto = all.take(head.len() as int + 1);
    assert(upto =~= head.push(sample));
    assert(upto.drop_last() =~= head);
    assert(upto.last() == sample);
    assert(upto.fold_left(pass_start(), step) == step(window(cfg, head), sample));
    lemma_fold_stays(all, step, pass_start(), |p: Pass| over(p), head.len() as int + 1);
}

/// A sample whose first timestamp is past the end of the window halts all
/// further work on the log: no event comes after it, even from samples
/// that would be inside the window, and no statistics are read after it.
pub proof fn lemma_late_sample_ends_pass(
    cfg: WindowConfig,
    head: Seq<Record>,
    sample: Record,
    at: int,
    moment: Timestamp,
    rest: Seq<Record>,
)
    requires
        !over(window(cfg, head)),
        sample.kind == RecordKind::Other,
        0 <= at < sample.fields@.len(),
        forall|k: int| 0 <= k < at ==> (#[trigger] sample.fields@[k]).name@ != "timestamp"@,
        sample.fields@[at].name@ == "timestamp"@,
        sample.fields@[at].value == Value::Timestamp(moment),
        cfg.before_time_secs > 0,
        moment.seconds_of_day() > cfg.before_time_secs,
        !(window(cfg, head).before && cfg.after_time_secs >= moment.seconds_of_day()),
    ensures
        window(cfg, head.push(sample) + rest).events == window(cfg, head).events,
        window(cfg, head.push(sample) + rest).summary == window(cfg, head).summary,
        window(cfg, head.push(sample) + rest).carried == window(cfg, head).carried,
        window(cfg, head.push(sample) + rest).failure is None,
{
    let before = window(cfg, head);
    lemma_late_timestamp_halts(cfg, before.before, before.unit, sample.fields@, at, moment);
    lemma_halt_ends_pass(cfg, head, sample, rest);
}

/// Without a set time of day for the beginning of the video, a pass
/// carries no time.
pub proof fn lemma_no_start_time_carries_nothing(cfg: WindowConfig, records: Seq<Record>)
    requires
        cfg.start_time_secs == 0,
    ensures
        window(cfg, records).carried == 0,
    decreases records.len(),
{
    if records.len() > 0 {
        lemma_no_start_time_carries_nothing(cfg, records.drop_last());
    }
}

/// The sample that `record` adds to a pass as a reading: its timestamp and
/// its value, if the pass goes on, the record is a sample inside the
/// window, and it has both.
pub open spec fn reading_of(cfg: WindowConfig, pass: Pass, record: Record) -> Option<
    (Timestamp, u32),
> {
    if over(pass) || record.kind != RecordKind::Other {
        None
    } else {
        let scan = scan_fields(cfg, pass.before, pass.unit, record.fields@);
        match (scan.timestamp, scan.depth) {
            (Some(moment), Some(depth)) => if scan.halted {
                None
            } else {
                Some((moment, depth))
            },
            _ => None,
        }
    }
}

/// The time, in seconds, of the last reading among `records`.
pub open spec fn last_reading(cfg: WindowConfig, records: Seq<Record>) -> Option<int>
    decreases records.len(),
{
    if records.len() == 0 {
        None
    } else {
        match reading_of(cfg, window(cfg, records.drop_last()), records.last()) {
            Some((moment, _)) => Some(moment.seconds as int),
            None => last_reading(cfg, records.drop_last()),
        }
    }
}

/// Whether the readings among `records` come in the order of their times.
pub open spec fn chronological(cfg: WindowConfig, records: Seq<Record>) -> bool
    decreases records.len(),
{
    records.len() > 0 ==> {
        &&& chronological(cfg, records.drop_last())
        &&& match (
            last_reading(cfg, records.drop_last()),
            reading_of(cfg, window(cfg, records.drop_last()), records.last()),
        ) {
            (Some(before), Some((moment, _))) => before <= moment.seconds,
            _ => true,
        }
    }
}

/// Whether the times of `events` never go back.
pub open spec fn in_time_order(events: Seq<(int, Seq<char>)>) -> bool {
    forall|i: int, j: int| 0 <= i <= j < events.len() ==> events[i].0 <= events[j].0
}

/// Whether no event of `pass` lies after the reading at `seconds`.
pub open spec fn events_until(pass: Pass, seconds: int) -> bool {
    pass.start matches Some(start) ==> forall|i: int|
        0 <= i < pass.events.len() ==> (#[trigger] pass.events[i]).0 <= (seconds - start) * 1000
}

/// The events of a log whose readings come in the order of their times
/// are in that order, too.
pub proof fn lemma_events_in_time_order(cfg: WindowConfig, records: Seq<Record>)
    requires
        chronological(cfg, records),
    ensures
        in_time_order(window(cfg, records).events),
        window(cfg, records).start is None ==> window(cfg, records).events.len() == 0,
        last_reading(cfg, records) matches Some(seconds) ==> events_until(
            window(cfg, records),
            seconds,
        ),
        window(cfg, records).start is Some ==> last_reading(cfg, records) is Some,
    decreases records.len(),
{
    if records.len() > 0 {
        let front = records.drop_last();
        let before = window(cfg, front);
        let after = window(cfg, records);
        lemma_events_in_time_order(cfg, front);
        assert(after == take_record(cfg, before, records.last()));
        match reading_of(cfg, before, records.last()) {
            Some((moment, depth)) => {
                let scan = scan_fields(cfg, before.before, before.unit, records.last().fields@);
                let seen = Pass { before: scan.before, unit: scan.unit, ..before };
                assert(after == take_reading(cfg, seen, moment, depth));
                if before.start is Some {
                    let start = before.start->0;
                    let earlier = last_reading(cfg, front)->0;
                    assert((earlier - start) * 1000 <= (moment.seconds - start) * 1000);
                }
            },
            None => {},
        }
    }
}

} // verus!
