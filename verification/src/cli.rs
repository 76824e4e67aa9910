//! What a command line needs besides the passes: times of day written as
//! text, and the thread that runs through the logs of one video.

use vstd::prelude::*;
use vstd::string::StringSliceAdditionalSpecFns;
use vstd::utf8::is_char_boundary;
use crate::error::Fit2SrtError;
use crate::record::Record;
use crate::srt_iter::{
    cursor_of, delta_srt_format, entry_text, SrtGenerator, SrtIter, MAX_RESUME_MILLIS,
};
use crate::summary::{
    is_fix, merged, refuses, units_agree, untold, weighable, Summary,
};
use crate::text::{decimal, digit_char, push_decimal, push_signed, signed_decimal};
use crate::time_delta::TimeDelta;
use crate::window::{window, WindowConfig};

verus! {

/// Why a piece of text is not a number.
#[derive(Clone, Copy, Debug, PartialEq, Eq, Structural)]
pub enum ParseIntError {
    /// The text is empty.
    Empty,
    /// The text holds something that is not a digit.
    InvalidDigit,
    /// The number is too great for 32 bits.
    PosOverflow,
}

/// A number read from text, or why it is none.
pub type Parsed = Result<u32, ParseIntError>;

/// The byte of the colon.
pub const COLON: u8 = 58;

/// The number that a run of digits stands for.  The run is read from the
/// left; the first byte that is no digit, or with which the number grows
/// past 32 bits, decides the failure.
pub open spec fn digits_value(digits: Seq<u8>) -> Parsed
    decreases digits.len(),
{
    if digits.len() == 0 {
        Ok(0)
    } else {
        match digits_value(digits.drop_last()) {
            Err(e) => Err(e),
            Ok(front) => if !(48 <= digits.last() <= 57) {
                Err(ParseIntError::InvalidDigit)
            } else if front * 10 + (digits.last() - 48) > u32::MAX {
                Err(ParseIntError::PosOverflow)
            } else {
                Ok((front * 10 + (digits.last() - 48)) as u32)
            },
        }
    }
}

/// The number that `text` stands for: digits, with or without a plus sign
/// before them.
pub open spec fn number(text: Seq<u8>) -> Parsed {
    if text.len() == 0 {
        Err(ParseIntError::Empty)
    } else if text.len() == 1 && (text[0] == 43 || text[0] == 45) {
        Err(ParseIntError::InvalidDigit)
    } else if text[0] == 43 {
        digits_value(text.subrange(1, text.len() as int))
    } else {
        digits_value(text)
    }
}

/// Reads the number that the bytes of `text` from `from` up to `to` stand
/// for.
pub fn parse_number(text: &[u8], from: usize, to: usize) -> (parsed: Parsed)
    requires
        from <= to <= text.len(),
    ensures
        parsed == number(text@.subrange(from as int, to as int)),
{
    let ghost piece = text@.subrange(from as int, to as int);
    if from == to {
        return Err(ParseIntError::Empty);
    }
    assert(piece[0] == text@[from as int]);
    if to - from == 1 && (text[from] == 43 || text[from] == 45) {
        return Err(ParseIntError::InvalidDigit);
    }
    let first: usize = if text[from] == 43 {
        from + 1
    } else {
        from
    };
    let ghost digits = text@.subrange(first as int, to as int);
    assert(digits =~= if piece[0] == 43 {
        piece.subrange(1, piece.len() as int)
    } else {
        piece
    });
    let mut value: u32 = 0;
    let mut i: usize = first;
    assert(digits.take(0) =~= Seq::empty());
    assert(number(piece) == digits_value(digits));
    while i < to
        invariant
            from <= first <= i <= to <= text.len(),
            digits == text@.subrange(first as int, to as int),
            number(text@.subrange(from as int, to as int)) == digits_value(digits),
            digits_value(digits.take(i - first)) == Parsed::Ok(value),
        decreases to - i,
    {
        let byte = text[i];
        proof {
            let upto = digits.take(i - first + 1);
            assert(upto.drop_last() =~= digits.take(i - first));
            assert(upto.last() == byte);
        }
        if !(48 <= byte && byte <= 57) {
            proof {
                lemma_digits_failure_stays(digits, i - first + 1);
            }
            return Err(ParseIntError::InvalidDigit);
        }
        let grown = value as u64 * 10 + (byte - 48) as u64;
        if grown > u32::MAX as u64 {
            proof {
                lemma_digits_failure_stays(digits, i - first + 1);
            }
            return Err(ParseIntError::PosOverflow);
        }
        value = grown as u32;
        i = i + 1;
    }
    assert(digits.take(i - first) =~= digits);
    Ok(value)
}

/// Once a run of digits has failed, the bytes that follow change nothing.
proof fn lemma_digits_failure_stays(digits: Seq<u8>, k: int)
    requires
        0 <= k <= digits.len(),
        digits_value(digits.take(k)) is Err,
    ensures
        digits_value(digits) == digits_value(digits.take(k)),
    decreases digits.len() - k,
{
    if k < digits.len() {
        assert(digits.take(k + 1).drop_last() =~= digits.take(k));
        lemma_digits_failure_stays(digits, k + 1);
    } else {
        assert(digits.take(k) =~= digits);
    }
}

/// The pieces of a text that colons divide: those that are complete, and
/// the one that the text ends in.
pub struct Pieces {
    /// The pieces that a colon has ended.
    pub done: Seq<Seq<u8>>,
    /// The piece after the last colon.
    pub open: Seq<u8>,
}

/// The pieces after one more byte.
pub open spec fn split_step(pieces: Pieces, byte: u8) -> Pieces {
    if byte == COLON {
        Pieces { done: pieces.done.push(pieces.open), open: Seq::empty() }
    } else {
        Pieces { done: pieces.done, open: pieces.open.push(byte) }
    }
}

/// The pieces of `text`.
pub open spec fn split(text: Seq<u8>) -> Pieces {
    text.fold_left(
        Pieces { done: Seq::empty(), open: Seq::empty() },
        |p: Pieces, b: u8| split_step(p, b),
    )
}

/// The numbers read so far, and the failure that was met last.
pub struct Collected {
    /// One number for each piece: zero where the piece is no number.
    pub values: Seq<u32>,
    /// Why the last piece that is no number is none.
    pub failure: Option<ParseIntError>,
}

/// What is collected after one more piece.
pub open spec fn collect_step(collected: Collected, piece: Seq<u8>) -> Collected {
    match number(piece) {
        Ok(value) => Collected { values: collected.values.push(value), ..collected },
        Err(e) => Collected { values: collected.values.push(0), failure: Some(e) },
    }
}

/// What is collected from all of `pieces`.
pub open spec fn collect(pieces: Seq<Seq<u8>>) -> Collected {
    pieces.fold_left(
        Collected { values: Seq::empty(), failure: None },
        |c: Collected, p: Seq<u8>| collect_step(c, p),
    )
}

/// The numbers of a time of day.
///
/// A text with colons is divided at them, and every piece has to be a
/// number; the failure of the last piece that is none counts.  A text
/// without colons holds three numbers of two bytes each; the first that is
/// none counts.
pub open spec fn time_numbers(text: Seq<u8>) -> Result<Seq<u32>, ParseIntError> {
    if text.contains(COLON) {
        let pieces = split(text);
        let collected = collect(pieces.done.push(pieces.open));
        match collected.failure {
            Some(e) => Err(e),
            None => Ok(collected.values),
        }
    } else {
        match number(text.subrange(0, 2)) {
            Err(e) => Err(e),
            Ok(hours) => match number(text.subrange(2, 4)) {
                Err(e) => Err(e),
                Ok(minutes) => match number(text.subrange(4, 6)) {
                    Err(e) => Err(e),
                    Ok(seconds) => Ok(seq![hours, minutes, seconds]),
                },
            },
        }
    }
}

/// Whether `text` can be read as a time of day: it holds a colon, or its
/// first six bytes are three pairs of whole characters.
pub open spec fn readable(text: Seq<u8>) -> bool {
    text.contains(COLON) || (text.len() >= 6 && is_char_boundary(text, 2) && is_char_boundary(
        text,
        4,
    ) && is_char_boundary(text, 6))
}

/// Whether `result` is `expected`.
pub open spec fn reads(result: Result<Vec<u32>, ParseIntError>, expected: Result<
    Seq<u32>,
    ParseIntError,
>) -> bool {
    match result {
        Ok(values) => expected == Ok::<Seq<u32>, ParseIntError>(values@),
        Err(e) => expected == Err::<Seq<u32>, ParseIntError>(e),
    }
}

/// Whether `text` holds a colon.
fn has_colon(text: &[u8]) -> (found: bool)
    ensures
        found == text@.contains(COLON),
{
    let mut i: usize = 0;
    while i < text.len()
        invariant
            i <= text.len(),
            forall|j: int| 0 <= j < i ==> text@[j] != COLON,
        decreases text.len() - i,
    {
        if text[i] == COLON {
            return true;
        }
        i = i + 1;
    }
    false
}

/// Reads a time of day, written as `15:01:30` or as `150130`, into its
/// numbers.
pub fn time_to_vec(time_str: &str) -> (time: Result<Vec<u32>, ParseIntError>)
    requires
        readable(time_str.spec_bytes()),
    ensures
        reads(time, time_numbers(time_str.spec_bytes())),
{
    let text = time_str.as_bytes();
    if has_colon(text) {
        let ghost step = |p: Pieces, b: u8| split_step(p, b);
        let ghost gather = |c: Collected, p: Seq<u8>| collect_step(c, p);
        let ghost nothing = Pieces { done: Seq::empty(), open: Seq::empty() };
        let ghost none = Collected { values: Seq::empty(), failure: None };
        let mut err: Option<ParseIntError> = None;
        let mut time: Vec<u32> = Vec::new();
        let mut from: usize = 0;
        let mut i: usize = 0;
        assert(text@.take(0) =~= Seq::empty());
        assert(text@.subrange(0, 0) =~= Seq::empty());
        while i < text.len()
            invariant
                from <= i <= text.len(),
                step == |p: Pieces, b: u8| split_step(p, b),
                gather == |c: Collected, p: Seq<u8>| collect_step(c, p),
                nothing == (Pieces { done: Seq::empty(), open: Seq::empty() }),
                none == (Collected { values: Seq::empty(), failure: None }),
                text@.take(i as int).fold_left(nothing, step).open == text@.subrange(
                    from as int,
                    i as int,
                ),
                text@.take(i as int).fold_left(nothing, step).done.fold_left(none, gather) == (
                Collected { values: time@, failure: err }),
            decreases text.len() - i,
        {
            let ghost before = text@.take(i as int).fold_left(nothing, step);
            proof {
                let upto = text@.take(i + 1);
                assert(upto.drop_last() =~= text@.take(i as int));
                assert(upto.last() == text@[i as int]);
                assert(upto.fold_left(nothing, step) == split_step(before, text@[i as int]));
            }
            if text[i] == COLON {
                proof {
                    let done = before.done.push(before.open);
                    assert(done.drop_last() =~= before.done);
                    assert(done.last() == before.open);
                    assert(text@.subrange(i + 1, i + 1) =~= Seq::empty());
                }
                match parse_number(text, from, i) {
                    Ok(value) => {
                        time.push(value);
                    },
                    Err(e) => {
                        err = Some(e);
                        time.push(0);
                    },
                }
                from = i + 1;
            } else {
                assert(text@.subrange(from as int, i + 1) =~= text@.subrange(
                    from as int,
                    i as int,
                ).push(text@[i as int]));
            }
            i = i + 1;
        }
        let ghost pieces = split(text@);
        proof {
            assert(text@.take(i as int) =~= text@);
            let all = pieces.done.push(pieces.open);
            assert(all.drop_last() =~= pieces.done);
            assert(all.last() == pieces.open);
        }
        match parse_number(text, from, i) {
            Ok(value) => {
                time.push(value);
            },
            Err(e) => {
                err = Some(e);
                time.push(0);
            },
        }
        match err {
            Some(e) => Err(e),
            None => Ok(time),
        }
    } else {
        let hours = match parse_number(text, 0, 2) {
            Ok(value) => value,
            Err(e) => {
                return Err(e);
            },
        };
        let minutes = match parse_number(text, 2, 4) {
            Ok(value) => value,
            Err(e) => {
                return Err(e);
            },
        };
        let seconds = match parse_number(text, 4, 6) {
            Ok(value) => value,
            Err(e) => {
                return Err(e);
            },
        };
        let mut time: Vec<u32> = Vec::new();
        time.push(hours);
        time.push(minutes);
        time.push(seconds);
        assert(time@ =~= seq![hours, minutes, seconds]);
        Ok(time)
    }
}

/// The three times of day that a command line can set.
#[derive(Clone, Copy, Debug, PartialEq, Eq, Structural)]
pub enum TimeSetting {
    /// The time up to which samples are left out.
    After,
    /// The time past which the log is cut off.
    Before,
    /// The time at which the video began.
    Start,
}

/// Whether the numbers of a time of day are taken: there are three, with
/// hours up to 24 and minutes below 60, or the third is below 60.
pub open spec fn time_is_valid(time: Seq<u32>) -> bool {
    (time.len() == 3 && time[0] <= 24 && time[1] < 60) || time[2] < 60
}

/// The seconds since midnight that the first three numbers of a time of day
/// stand for.
pub open spec fn seconds_of(time: Seq<u32>) -> int {
    time[0] * 3600 + time[1] * 60 + time[2]
}

/// The time of day that `which` names in `cfg`.
pub open spec fn setting(cfg: WindowConfig, which: TimeSetting) -> nat {
    match which {
        TimeSetting::After => cfg.after_time_secs,
        TimeSetting::Before => cfg.before_time_secs,
        TimeSetting::Start => cfg.start_time_secs,
    }
}

/// `cfg` with the time of day that `which` names moved on by `seconds`.
pub open spec fn moved_on(cfg: WindowConfig, which: TimeSetting, seconds: int) -> WindowConfig {
    match which {
        TimeSetting::After => WindowConfig {
            after_time_secs: (cfg.after_time_secs + seconds) as nat,
            ..cfg
        },
        TimeSetting::Before => WindowConfig {
            before_time_secs: (cfg.before_time_secs + seconds) as nat,
            ..cfg
        },
        TimeSetting::Start => WindowConfig {
            start_time_secs: (cfg.start_time_secs + seconds) as nat,
            ..cfg
        },
    }
}

/// Sets one of the times of day of `generator` from the numbers of hours,
/// minutes and seconds, if those are taken, and says whether they were.
pub fn set_time(generator: &mut SrtGenerator, which: TimeSetting, time: &Vec<u32>) -> (valid: bool)
    requires
        time.len() >= 3,
        time_is_valid(time@) ==> setting(old(generator)@, which) + seconds_of(time@) <= u32::MAX,
    ensures
        valid == time_is_valid(time@),
        valid ==> final(generator)@ == moved_on(old(generator)@, which, seconds_of(time@)),
        !valid ==> final(generator)@ == old(generator)@,
{
    if time.len() == 3 && time[0] <= 24 && time[1] < 60 || time[2] < 60 {
        match which {
            TimeSetting::After => {
                generator.after_hour(time[0]);
                generator.after_minute(time[1]);
                generator.after_second(time[2]);
            },
            TimeSetting::Before => {
                generator.before_hour(time[0]);
                generator.before_minute(time[1]);
                generator.before_second(time[2]);
            },
            TimeSetting::Start => {
                generator.starting_hour(time[0]);
                generator.starting_minute(time[1]);
                generator.starting_second(time[2]);
            },
        }
        true
    } else {
        false
    }
}

/// A measurement in thousandths, written in whole units: the whole part
/// and, unless they are all zero, a point and the decimals up to the last
/// that is not zero.
pub open spec fn thousandths_text(value: nat) -> Seq<char> {
    let part = (value % 1000) as int;
    decimal(value / 1000) + (if part == 0 {
        Seq::<char>::empty()
    } else if part % 100 == 0 {
        seq!['.', digit_char(part / 100)]
    } else if part % 10 == 0 {
        seq!['.', digit_char(part / 100), digit_char(part / 10 % 10)]
    } else {
        seq!['.', digit_char(part / 100), digit_char(part / 10 % 10), digit_char(part % 10)]
    })
}

/// The sign of the temperature unit of `summary`.
pub open spec fn temperature_sign(summary: Summary) -> Seq<char> {
    if summary.temperature_unit == 0 {
        "C"@
    } else {
        ""@
    }
}

/// The sign of the depth unit of `summary`.
pub open spec fn depth_sign(summary: Summary) -> Seq<char> {
    if summary.depth_unit == 0 {
        "m"@
    } else {
        ""@
    }
}

/// The line of the card on temperatures: the average and, where it is
/// another, the lowest.  Empty where no average is known.
pub open spec fn temperature_line(summary: Summary) -> Seq<char> {
    match summary.avg_temperature {
        None => Seq::empty(),
        Some(average) => "Temperature: "@ + signed_decimal(average as int) + temperature_sign(
            summary,
        ) + (match summary.min_temperature {
            Some(lowest) => if lowest != average {
                " (min: "@ + signed_decimal(lowest as int) + temperature_sign(summary) + ")"@
            } else {
                Seq::empty()
            },
            None => Seq::empty(),
        }) + "\n"@,
    }
}

/// The line of the card on depths: the average and, where it is another,
/// the greatest.  Empty where no average is known.
pub open spec fn depth_line(summary: Summary) -> Seq<char> {
    match summary.avg_depth {
        None => Seq::empty(),
        Some(average) => "Depth: "@ + thousandths_text(average as nat) + depth_sign(summary) + (
        match summary.max_depth {
            Some(greatest) => if greatest != average {
                " (max: "@ + thousandths_text(greatest as nat) + depth_sign(summary) + ")"@
            } else {
                Seq::empty()
            },
            None => Seq::empty(),
        }) + "\n"@,
    }
}

/// What the card shows: a heading, and a line each for the position, the
/// temperatures and the depths, as far as they are known.  `position` is
/// the text of the position.
pub open spec fn card_body(summary: Summary, position: Seq<char>) -> Seq<char> {
    "Summary:\n"@ + (if is_fix(summary.location) {
        "Location: "@ + position + "\n"@
    } else {
        Seq::empty()
    }) + temperature_line(summary) + depth_line(summary)
}

/// The card as an entry: it has the number after `count`, begins five
/// seconds after `previous_time`, and stays for ten.
pub open spec fn card_text(summary: Summary, count: nat, previous_time: int, position: Seq<char>)
    -> Seq<char> {
    entry_text(
        count + 1,
        previous_time + 5000,
        previous_time + 15000,
        card_body(summary, position),
    )
}

/// Writes a measurement in thousandths at the end of `out`.
fn push_thousandths(out: &mut String, value: u32)
    ensures
        final(out)@ == old(out)@ + thousandths_text(value as nat),
{
    let part: u64 = (value % 1000) as u64;
    push_decimal(out, (value / 1000) as u64);
    if part != 0 {
        proof {
            reveal_strlit(".");
            reveal_with_fuel(decimal, 2);
        }
        out.append(".");
        push_decimal(out, part / 100);
        if part % 100 != 0 {
            push_decimal(out, part / 10 % 10);
            if part % 10 != 0 {
                push_decimal(out, part % 10);
            }
        }
    }
    assert(final(out)@ =~= old(out)@ + thousandths_text(value as nat));
}

/// Writes the line on temperatures at the end of `out`.
fn push_temperature_line(out: &mut String, summary: &Summary)
    ensures
        final(out)@ == old(out)@ + temperature_line(*summary),
{
    if let Some(average) = summary.avg_temperature {
        let mut line = String::from_str("Temperature: ");
        push_signed(&mut line, average as i64);
        line.append(summary.temp_unit());
        let ghost told = line@;
        if let Some(lowest) = summary.min_temperature {
            if average != lowest {
                let mut lower = String::from_str(" (min: ");
                push_signed(&mut lower, lowest as i64);
                lower.append(summary.temp_unit());
                lower.append(")");
                line.append(lower.as_str());
            }
        }
        line.append("\n");
        assert(line@ =~= temperature_line(*summary));
        out.append(line.as_str());
    } else {
        assert(out@ =~= old(out)@ + temperature_line(*summary));
    }
}

/// Writes the line on depths at the end of `out`.
fn push_depth_line(out: &mut String, summary: &Summary)
    ensures
        final(out)@ == old(out)@ + depth_line(*summary),
{
    if let Some(average) = summary.avg_depth {
        let mut line = String::from_str("Depth: ");
        push_thousandths(&mut line, average);
        line.append(summary.depth_unit());
        if let Some(greatest) = summary.max_depth {
            if average != greatest {
                let mut greater = String::from_str(" (max: ");
                push_thousandths(&mut greater, greatest);
                greater.append(summary.depth_unit());
                greater.append(")");
                line.append(greater.as_str());
            }
        }
        line.append("\n");
        assert(line@ =~= depth_line(*summary));
        out.append(line.as_str());
    } else {
        assert(out@ =~= old(out)@ + depth_line(*summary));
    }
}

/// What the card shows.
fn card_body_of(summary: &Summary, position: &str) -> (body: String)
    ensures
        body@ == card_body(*summary, position@),
{
    let mut body = String::from_str("Summary:\n");
    if summary.location().is_some() {
        let mut line = String::from_str("Location: ");
        line.append(position);
        line.append("\n");
        body.append(line.as_str());
    }
    let ghost headed = body@;
    assert(headed =~= "Summary:\n"@ + (if is_fix(summary.location) {
        "Location: "@ + position@ + "\n"@
    } else {
        Seq::empty()
    }));
    push_temperature_line(&mut body, summary);
    push_depth_line(&mut body, summary);
    body
}

/// The closing card of a video: the statistics of its logs as one more
/// entry, after the entry with the number `count` that began at
/// `previous_time`.  `position` is the text of the position; it is shown
/// where the statistics hold one.
pub fn summary_card(summary: &Summary, count: usize, previous_time: &TimeDelta, position: &str)
    -> (card: String)
    requires
        count < usize::MAX,
        previous_time@ + 15000 <= i64::MAX,
    ensures
        card@ == card_text(*summary, count as nat, previous_time@, position@),
{
    let begin = TimeDelta::milliseconds(previous_time.millis + 5000);
    let end = TimeDelta::milliseconds(begin.millis + 10000);
    let body = card_body_of(summary, position);
    let mut card = String::new();
    push_decimal(&mut card, count as u64 + 1);
    proof {
        reveal_strlit("\n");
    }
    card.append("\n");
    card.append(delta_srt_format(&begin).as_str());
    card.append(" --> ");
    card.append(delta_srt_format(&end).as_str());
    card.append("\n");
    card.append(body.as_str());
    assert(card@ =~= card_text(*summary, count as nat, previous_time@, position@));
    card
}

/// What runs through the logs of one video: the number and the beginning
/// of the entry that was shown last, and the statistics of the logs so far.
pub struct Track {
    previous: Option<(usize, TimeDelta)>,
    summary: Summary,
}

/// A `Track` as plain values.
pub struct TrackView {
    /// The number of the entry that was shown last and the time at which
    /// it began, in milliseconds.
    pub previous: Option<(nat, int)>,
    /// The statistics of the logs so far.
    pub summary: Summary,
}

impl View for Track {
    type V = TrackView;

    closed spec fn view(&self) -> TrackView {
        TrackView {
            previous: match self.previous {
                Some((count, begin)) => Some((count as nat, begin@)),
                None => None,
            },
            summary: self.summary,
        }
    }
}

/// The number after which a log takes up.
pub open spec fn resume_count(track: TrackView) -> nat {
    match track.previous {
        Some((count, _)) => count,
        None => 0,
    }
}

/// The time at which a log takes up.
pub open spec fn resume_time(track: TrackView) -> int {
    match track.previous {
        Some((_, begin)) => begin,
        None => 0,
    }
}

impl Track {
    #[verifier::type_invariant]
    spec fn can_resume(self) -> bool {
        self.previous matches Some((_, begin)) ==> -MAX_RESUME_MILLIS <= begin@
            <= MAX_RESUME_MILLIS
    }

    /// The track before the first log.
    pub fn new() -> (track: Track)
        ensures
            track@.previous is None,
            track@.summary == crate::summary::empty_summary(),
    {
        Track { previous: None, summary: Summary::default() }
    }

    /// The statistics of the logs so far.
    pub fn summary(&self) -> (summary: Summary)
        ensures
            summary == self@.summary,
    {
        self.summary
    }

    /// The number of the entry that was shown last and the time at which
    /// it began.
    pub fn previous(&self) -> (previous: Option<(usize, TimeDelta)>)
        ensures
            previous is Some <==> self@.previous is Some,
            previous matches Some((count, begin)) ==> self@.previous == Some(
                (count as nat, begin@),
            ),
    {
        self.previous
    }

    /// Passes over the records of the next log and merges its statistics
    /// into those of the track.  The entries take up where the last entry
    /// shown left off.  Where the pass or the merge fails, the track stays
    /// as it is.
    pub fn open_log(&mut self, generator: SrtGenerator, records: &Vec<Record>) -> (opened: Result<
        SrtIter,
        Fit2SrtError,
    >)
        ensures
            ({
                let pass = window(generator@, records@);
                let before = old(self)@;
                match pass.failure {
                    Some(text) => refuses(opened, text) && final(self)@ == before,
                    None => if !units_agree(before.summary, pass.summary) {
                        refuses(opened, "unit inconsist"@) && final(self)@ == before
                    } else if !weighable(before.summary, pass.summary) {
                        untold(opened, "elapsed time cannot weigh the averages"@) && final(self)@
                            == before
                    } else {
                        &&& opened matches Ok(entries)
                        &&& entries@ == cursor_of(pass, resume_count(before), resume_time(before))
                        &&& entries.wf()
                        &&& final(self)@ == (TrackView {
                            summary: merged(before.summary, pass.summary),
                            ..before
                        })
                    },
                }
            }),
    {
        proof {
            use_type_invariant(&*self);
        }
        let opened = match self.previous {
            Some((count, begin)) => generator.concat(count, begin, records),
            None => generator.open(records),
        };
        match opened {
            Err(e) => Err(e),
            Ok(entries) => match self.summary.merge(&entries.summary()) {
                Err(e) => Err(e),
                Ok(summary) => {
                    self.summary = summary;
                    Ok(entries)
                },
            },
        }
    }

    /// Takes note that the entry with the number `count`, which begins at
    /// `begin`, was shown.
    pub fn entry_shown(&mut self, count: usize, begin: TimeDelta)
        requires
            -MAX_RESUME_MILLIS <= begin@ <= MAX_RESUME_MILLIS,
        ensures
            final(self)@ == (TrackView {
                previous: Some((count as nat, begin@)),
                ..old(self)@
            }),
    {
        proof {
            use_type_invariant(&*self);
        }
        self.previous = Some((count, begin));
    }

    /// The closing card, if there is one to show: the statistics hold
    /// something, the card is wanted, and an entry was shown before it.
    pub fn finish(&self, no_summary: bool, position: &str) -> (card: Option<String>)
        requires
            resume_count(self@) < usize::MAX,
        ensures
            card is Some <==> !crate::summary::is_blank(self@.summary) && !no_summary
                && self@.previous is Some,
            card matches Some(text) ==> text@ == card_text(
                self@.summary,
                resume_count(self@),
                resume_time(self@),
                position@,
            ),
    {
        proof {
            use_type_invariant(self);
        }
        if !self.summary.is_empty() && !no_summary {
            match self.previous {
                Some((count, previous_time)) => Some(
                    summary_card(&self.summary, count, &previous_time, position),
                ),
                None => None,
            }
        } else {
            None
        }
    }
}

} // verus!
