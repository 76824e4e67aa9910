//! From the records of a log to its subtitle entries.
//!
//! A `SrtGenerator` holds the settings.  Its `open` passes over the records
//! of one log and returns a `SrtIter`, which hands out the entries one by
//! one.  `concat` does the same for a log that follows another, so that
//! numbers and times run on.

use std::collections::VecDeque;
use vstd::prelude::*;
use crate::error::Fit2SrtError;
use crate::record::{Record, RecordKind};
use crate::summary::{refuses, Summary};
use crate::text::{decimal, push_decimal};
use crate::time_delta::{srt_time, TimeDelta};
use crate::window::{
    lemma_fold_stays, lemma_no_start_time_carries_nothing, over, pass_start, read_dive_summary,
    read_session, render_depth, round_to_tick, scan_sample, take_record, window, Pass,
    WindowConfig,
};

pub use crate::time_delta::delta_srt_format;

verus! {

/// The settings with which logs are turned into subtitles.
#[derive(Copy, Clone)]
pub struct SrtGenerator {
    field: &'static str,
    tick: u32,
    // These are used when the video began before the dive computer did.
    start_time_secs: u32,
    after_time_secs: u32,
    before_time_secs: u32,
}

impl View for SrtGenerator {
    type V = WindowConfig;

    /// The settings as plain numbers.
    closed spec fn view(&self) -> WindowConfig {
        WindowConfig {
            field: self.field@,
            tick: self.tick as nat,
            start_time_secs: self.start_time_secs as nat,
            after_time_secs: self.after_time_secs as nat,
            before_time_secs: self.before_time_secs as nat,
        }
    }
}

/// The settings that `SrtGenerator::default` gives: the depth is shown, in
/// steps of a tenth, and the whole log is used.
pub open spec fn default_config() -> WindowConfig {
    WindowConfig {
        field: "depth"@,
        tick: 100,
        start_time_secs: 0,
        after_time_secs: 0,
        before_time_secs: 0,
    }
}

impl Default for SrtGenerator {
    fn default() -> (generator: SrtGenerator)
        ensures
            generator@ == default_config(),
    {
        SrtGenerator {
            field: "depth",
            tick: 100,
            start_time_secs: 0,
            after_time_secs: 0,
            before_time_secs: 0,
        }
    }
}

/// The greatest time, in milliseconds and in either direction, at which a
/// log may take up where another left off.
pub const MAX_RESUME_MILLIS: i64 = 4_611_686_018_427_387_904;

/// The entries that a `SrtIter` has yet to hand out, and the times that
/// they are counted from.
pub struct Cursor {
    /// The statistics of the log.
    pub summary: Summary,
    /// The number of the entry that was handed out last.
    pub count: nat,
    /// The time of the event that was handed out last; zero at first.
    pub previous_offset: int,
    /// How far into the video the log begins.
    pub carried_base: int,
    /// Where the log before this one left off; zero for a first log.
    pub prior_offset: int,
    /// The events that are left: time and text.
    pub queue: Seq<(int, Seq<char>)>,
}

/// The entries of one log, handed out one by one.  All times are in
/// milliseconds.
pub struct SrtIter {
    /// The statistics of the log.
    pub summary: Summary,
    /// The number of the entry that was handed out last.
    pub count: usize,
    previous_offset: TimeDelta,
    carried_base: TimeDelta,
    prior_offset: TimeDelta,
    data: VecDeque<(TimeDelta, String)>,
}

/// The events of a queue as plain values.
pub open spec fn events_of(data: Seq<(TimeDelta, String)>) -> Seq<(int, Seq<char>)> {
    Seq::new(data.len(), |j: int| (data[j].0@, data[j].1@))
}

/// The time at which the next entry begins.
pub open spec fn begin_time(cursor: Cursor) -> int {
    cursor.previous_offset + cursor.carried_base + cursor.prior_offset
}

/// The time at which the next entry ends, if there is one.
pub open spec fn end_time(cursor: Cursor) -> int {
    cursor.queue[0].0 + cursor.carried_base + cursor.prior_offset
}

/// The text of an entry: its number, its two timecodes, and what it shows.
pub open spec fn entry_text(index: nat, begin: int, end: int, body: Seq<char>) -> Seq<char> {
    decimal(index) + seq!['\n'] + srt_time(begin) + " --> "@ + srt_time(end) + seq!['\n'] + body
}

/// The cursor after `next`: the count has gone up by one, and the first
/// event, if there is one, has left the queue; the next entry begins at its
/// time.
pub open spec fn advanced(cursor: Cursor) -> Cursor {
    if cursor.queue.len() == 0 {
        Cursor { count: cursor.count + 1, ..cursor }
    } else {
        Cursor {
            count: cursor.count + 1,
            previous_offset: cursor.queue[0].0,
            queue: cursor.queue.drop_first(),
            ..cursor
        }
    }
}

/// The texts of all entries that are left, in the order in which `next`
/// hands them out.
pub open spec fn entries_of(cursor: Cursor) -> Seq<Seq<char>>
    decreases cursor.queue.len(),
{
    if cursor.queue.len() == 0 {
        Seq::empty()
    } else {
        seq![
            entry_text(
                cursor.count + 1,
                begin_time(cursor),
                end_time(cursor),
                cursor.queue[0].1,
            ),
        ] + entries_of(advanced(cursor))
    }
}

/// The cursor with which the entries of a pass are handed out, for a log
/// that takes up after entry `count`, at `prior_offset`.
pub open spec fn cursor_of(pass: Pass, count: nat, prior_offset: int) -> Cursor {
    Cursor {
        summary: pass.summary,
        count,
        previous_offset: 0,
        carried_base: pass.carried,
        prior_offset,
        queue: pass.events,
    }
}

/// The bound on the times that a pass computes from the timestamps of a log.
const OWN_MILLIS: i64 = 17_592_186_044_416;

impl View for SrtIter {
    type V = Cursor;

    closed spec fn view(&self) -> Cursor {
        Cursor {
            summary: self.summary,
            count: self.count as nat,
            previous_offset: self.previous_offset@,
            carried_base: self.carried_base@,
            prior_offset: self.prior_offset@,
            queue: events_of(self.data@),
        }
    }
}

impl SrtIter {
    /// Whether all the times that `next` computes can be held.
    pub closed spec fn wf(&self) -> bool {
        &&& -OWN_MILLIS <= self.carried_base@ <= OWN_MILLIS
        &&& -OWN_MILLIS <= self.previous_offset@ + self.carried_base@ <= OWN_MILLIS
        &&& -MAX_RESUME_MILLIS <= self.prior_offset@ <= MAX_RESUME_MILLIS
        &&& forall|j: int|
            0 <= j < self.data@.len() ==> -OWN_MILLIS <= (#[trigger] self.data@[j]).0@
                + self.carried_base@ <= OWN_MILLIS
    }

    /// The entries that are left can be counted.
    pub proof fn lemma_len_fits(&self)
        ensures
            self@.queue.len() <= usize::MAX,
    {
        vstd::std_specs::vecdeque::axiom_spec_len(&self.data);
    }

    /// How many entries are left to hand out.
    pub fn len(&self) -> (left: usize)
        ensures
            left == self@.queue.len(),
    {
        self.data.len()
    }

    /// The statistics of the log.
    pub fn summary(&self) -> (summary: Summary)
        ensures
            summary == self@.summary,
    {
        self.summary
    }

    /// The time of the event that was handed out last; zero before the
    /// first.
    pub fn previous_time(&self) -> (time: TimeDelta)
        ensures
            time@ == self@.previous_offset,
    {
        self.previous_offset
    }

    /// Hands out the next entry: its number, the time at which it begins,
    /// and its text.  The number goes up by one with every call, also when
    /// no entry is left.
    pub fn next(&mut self) -> (entry: Option<(usize, TimeDelta, String)>)
        requires
            old(self).wf(),
            old(self)@.count < usize::MAX,
        ensures
            final(self).wf(),
            final(self)@ == advanced(old(self)@),
            match entry {
                Some((index, begin, text)) => {
                    &&& old(self)@.queue.len() > 0
                    &&& index == old(self)@.count + 1
                    &&& begin@ == begin_time(old(self)@)
                    &&& text@ == entry_text(
                        index as nat,
                        begin_time(old(self)@),
                        end_time(old(self)@),
                        old(self)@.queue[0].1,
                    )
                },
                None => old(self)@.queue.len() == 0,
            },
    {
        self.count += 1;
        let shift: i64 = self.carried_base.millis + self.prior_offset.millis;
        let begin = TimeDelta::milliseconds(self.previous_offset.millis + shift);
        match self.data.pop_front() {
            None => None,
            Some((offset, body)) => {
                assert(offset == old(self).data@[0].0);
                let end = TimeDelta::milliseconds(offset.millis + shift);
                self.previous_offset = offset;
                let mut text = String::new();
                push_decimal(&mut text, self.count as u64);
                proof {
                    reveal_strlit("\n");
                }
                text.append("\n");
                text.append(delta_srt_format(&begin).as_str());
                text.append(" --> ");
                text.append(delta_srt_format(&end).as_str());
                text.append("\n");
                text.append(body.as_str());
                proof {
                    assert(text@ =~= entry_text(
                        self.count as nat,
                        begin@,
                        end@,
                        old(self)@.queue[0].1,
                    ));
                    assert(self@.queue =~= old(self)@.queue.drop_first());
                    assert forall|j: int| 0 <= j < self.data@.len() implies -OWN_MILLIS <= (
                    #[trigger] self.data@[j]).0@ + self.carried_base@ <= OWN_MILLIS by {
                        assert(self.data@[j] == old(self).data@[j + 1]);
                    }
                }
                Some((self.count, begin, text))
            },
        }
    }
}

/// Whether `opened` is what the pass `pass` comes to, for a log that takes
/// up after entry `count` at `prior_offset`: the failure of the pass, or the
/// entries and statistics that it gathered.
pub open spec fn opens(
    opened: Result<SrtIter, Fit2SrtError>,
    pass: Pass,
    count: nat,
    prior_offset: int,
) -> bool {
    match pass.failure {
        Some(text) => refuses(opened, text),
        None => match opened {
            Ok(entries) => entries@ == cursor_of(pass, count, prior_offset) && entries.wf(),
            Err(_) => false,
        },
    }
}

impl SrtGenerator {
    #[verifier::type_invariant]
    spec fn tick_is_positive(self) -> bool {
        self.tick > 0
    }

    /// Leaves out the samples of the first `h` hours of the day and what
    /// was to be left out before.
    pub fn after_hour(&mut self, h: u32)
        requires
            old(self)@.after_time_secs + h * 3600 <= u32::MAX,
        ensures
            final(self)@ == (WindowConfig {
                after_time_secs: (old(self)@.after_time_secs + h * 3600) as nat,
                ..old(self)@
            }),
    {
        proof {
            use_type_invariant(&*self);
        }
        self.after_time_secs += h * 60 * 60;
    }

    /// Leaves out `m` more minutes at the beginning of the day.
    pub fn after_minute(&mut self, m: u32)
        requires
            old(self)@.after_time_secs + m * 60 <= u32::MAX,
        ensures
            final(self)@ == (WindowConfig {
                after_time_secs: (old(self)@.after_time_secs + m * 60) as nat,
                ..old(self)@
            }),
    {
        proof {
            use_type_invariant(&*self);
        }
        self.after_time_secs += m * 60;
    }

    /// Leaves out `s` more seconds at the beginning of the day.
    pub fn after_second(&mut self, s: u32)
        requires
            old(self)@.after_time_secs + s <= u32::MAX,
        ensures
            final(self)@ == (WindowConfig {
                after_time_secs: (old(self)@.after_time_secs + s) as nat,
                ..old(self)@
            }),
    {
        proof {
            use_type_invariant(&*self);
        }
        self.after_time_secs += s;
    }

    /// Moves the time of day at which the log is cut off `h` hours on.
    pub fn before_hour(&mut self, h: u32)
        requires
            old(self)@.before_time_secs + h * 3600 <= u32::MAX,
        ensures
            final(self)@ == (WindowConfig {
                before_time_secs: (old(self)@.before_time_secs + h * 3600) as nat,
                ..old(self)@
            }),
    {
        proof {
            use_type_invariant(&*self);
        }
        self.before_time_secs += h * 60 * 60;
    }

    /// Moves the time of day at which the log is cut off `m` minutes on.
    pub fn before_minute(&mut self, m: u32)
        requires
            old(self)@.before_time_secs + m * 60 <= u32::MAX,
        ensures
            final(self)@ == (WindowConfig {
                before_time_secs: (old(self)@.before_time_secs + m * 60) as nat,
                ..old(self)@
            }),
    {
        proof {
            use_type_invariant(&*self);
        }
        self.before_time_secs += m * 60;
    }

    /// Moves the time of day at which the log is cut off `s` seconds on.
    pub fn before_second(&mut self, s: u32)
        requires
            old(self)@.before_time_secs + s <= u32::MAX,
        ensures
            final(self)@ == (WindowConfig {
                before_time_secs: (old(self)@.before_time_secs + s) as nat,
                ..old(self)@
            }),
    {
        proof {
            use_type_invariant(&*self);
        }
        self.before_time_secs += s;
    }

    /// Moves the time of day at which the video began `h` hours on.
    pub fn starting_hour(&mut self, h: u32)
        requires
            old(self)@.start_time_secs + h * 3600 <= u32::MAX,
        ensures
            final(self)@ == (WindowConfig {
                start_time_secs: (old(self)@.start_time_secs + h * 3600) as nat,
                ..old(self)@
            }),
    {
        proof {
            use_type_invariant(&*self);
        }
        self.start_time_secs += h * 60 * 60;
    }

    /// Moves the time of day at which the video began `m` minutes on.
    pub fn starting_minute(&mut self, m: u32)
        requires
            old(self)@.start_time_secs + m * 60 <= u32::MAX,
        ensures
            final(self)@ == (WindowConfig {
                start_time_secs: (old(self)@.start_time_secs + m * 60) as nat,
                ..old(self)@
            }),
    {
        proof {
            use_type_invariant(&*self);
        }
        self.start_time_secs += m * 60;
    }

    /// Moves the time of day at which the video began `s` seconds on.
    pub fn starting_second(&mut self, s: u32)
        requires
            old(self)@.start_time_secs + s <= u32::MAX,
        ensures
            final(self)@ == (WindowConfig {
                start_time_secs: (old(self)@.start_time_secs + s) as nat,
                ..old(self)@
            }),
    {
        proof {
            use_type_invariant(&*self);
        }
        self.start_time_secs += s;
    }

    /// Passes over the records of a log and returns its entries, ready to
    /// be handed out from number one on, and its statistics.  A unit that
    /// the statistics cannot be in fails the pass.
    pub fn open(self, records: &Vec<Record>) -> (opened: Result<SrtIter, Fit2SrtError>)
        ensures
            opens(opened, window(self@, records@), 0, 0),
    {
        proof {
            use_type_invariant(&self);
        }
        let ghost cfg = self@;
        let ghost step = |p: Pass, r: Record| take_record(cfg, p, r);
        let mut start: Option<i64> = None;
        let mut baseline: u64 = 0;
        let mut carried: i64 = 0;
        let mut data: VecDeque<(TimeDelta, String)> = VecDeque::new();
        let mut unit = String::new();
        let mut before = true;
        let mut summary = Summary::default();
        let mut halted = false;
        let mut i: usize = 0;
        assert(events_of(data@) =~= Seq::empty());
        assert(records@.take(0) =~= Seq::empty());
        while i < records.len() && !halted
            invariant
                i <= records.len(),
                self.tick > 0,
                cfg == self@,
                step == |p: Pass, r: Record| take_record(cfg, p, r),
                records@.take(i as int).fold_left(pass_start(), step) == (Pass {
                    before,
                    unit: unit@,
                    start: match start {
                        Some(s) => Some(s as int),
                        None => None,
                    },
                    baseline: baseline as int,
                    carried: carried as int,
                    events: events_of(data@),
                    summary,
                    halted,
                    failure: None,
                }),
                baseline <= 0x2_0000_0000,
                start matches Some(s) ==> -0x1_0000_0000 <= s <= 0x2_0000_0000,
                -0x400_0000_0000 <= carried <= 0x400_0000_0000,
                forall|j: int|
                    0 <= j < data@.len() ==> -0x800_0000_0000 <= (#[trigger] data@[j]).0@
                        <= 0x800_0000_0000,
            decreases records.len() - i,
        {
            let ghost pass = records@.take(i as int).fold_left(pass_start(), step);
            proof {
                let upto = records@.take(i + 1);
                assert(upto.drop_last() =~= records@.take(i as int));
                assert(upto.last() == records@[i as int]);
                assert(upto.fold_left(pass_start(), step) == step(pass, records@[i as int]));
            }
            let record = &records[i];
            match record.kind {
                RecordKind::DiveSummary => {
                    match read_dive_summary(summary, &record.fields) {
                        Ok(gathered) => {
                            summary = gathered;
                        },
                        Err(e) => {
                            proof {
                                lemma_fold_stays(
                                    records@,
                                    step,
                                    pass_start(),
                                    |p: Pass| over(p),
                                    i + 1,
                                );
                            }
                            return Err(e);
                        },
                    }
                },
                RecordKind::Session => {
                    match read_session(summary, &record.fields) {
                        Ok(gathered) => {
                            summary = gathered;
                        },
                        Err(e) => {
                            proof {
                                lemma_fold_stays(
                                    records@,
                                    step,
                                    pass_start(),
                                    |p: Pass| over(p),
                                    i + 1,
                                );
                            }
                            return Err(e);
                        },
                    }
                },
                RecordKind::Other => {
                    let scanned = scan_sample(
                        self.field,
                        self.after_time_secs,
                        self.before_time_secs,
                        &mut before,
                        &mut unit,
                        &record.fields,
                        Ghost(cfg),
                    );
                    if scanned.halted {
                        halted = true;
                    } else if let (Some(moment), Some(depth)) = (scanned.timestamp, scanned.depth) {
                        match start {
                            Some(since) => {
                                let rounded = round_to_tick(depth, self.tick);
                                if rounded > baseline + self.tick as u64 || baseline > rounded
                                    + self.tick as u64 {
                                    let offset = TimeDelta::milliseconds(
                                        (moment.seconds as i64 - since) * 1000,
                                    );
                                    let text = render_depth(rounded, unit.as_str());
                                    let ghost events = events_of(data@);
                                    data.push_back((offset, text));
                                    baseline = rounded;
                                    assert(events_of(data@) =~= events.push((offset@, text@)));
                                }
                            },
                            None => {
                                if self.start_time_secs != 0 {
                                    let behind: i64 = moment.seconds_of_day() as i64
                                        - self.start_time_secs as i64;
                                    start = Some(moment.seconds as i64 - behind);
                                    carried = behind * 1000;
                                } else {
                                    start = Some(moment.seconds as i64);
                                }
                                baseline = depth as u64;
                            },
                        }
                    }
                },
            }
            i = i + 1;
        }
        proof {
            if halted {
                lemma_fold_stays(records@, step, pass_start(), |p: Pass| over(p), i as int);
            } else {
                assert(records@.take(i as int) =~= records@);
            }
        }
        Ok(
            SrtIter {
                summary,
                count: 0,
                previous_offset: TimeDelta::milliseconds(0),
                carried_base: TimeDelta::milliseconds(carried),
                prior_offset: TimeDelta::milliseconds(0),
                data,
            },
        )
    }

    /// Passes over the records of a log that follows another, whose last
    /// entry had the number `previous_iter_count` and began at
    /// `previous_iter_timedelta`.  The entries are numbered on from there,
    /// and their times are counted from that time.
    pub fn concat(
        self,
        previous_iter_count: usize,
        previous_iter_timedelta: TimeDelta,
        records: &Vec<Record>,
    ) -> (opened: Result<SrtIter, Fit2SrtError>)
        requires
            -MAX_RESUME_MILLIS <= previous_iter_timedelta@ <= MAX_RESUME_MILLIS,
        ensures
            opens(
                opened,
                window(self@, records@),
                previous_iter_count as nat,
                previous_iter_timedelta@,
            ),
    {
        match self.open(records) {
            Ok(mut entries) => {
                entries.count = previous_iter_count;
                entries.prior_offset = previous_iter_timedelta;
                Ok(entries)
            },
            Err(e) => Err(e),
        }
    }
}

/// A log that follows another takes up where that one left off: its first
/// entry has the number after `count`, the number of the last entry before
/// it, and begins at `begin`, the time at which that entry began.  This
/// holds where the pass over the log carries no time; a log that carries
/// one is moved by it.
pub proof fn lemma_concat_takes_up(
    cfg: WindowConfig,
    records: Seq<Record>,
    count: nat,
    begin: int,
)
    requires
        window(cfg, records).carried == 0,
    ensures
        advanced(cursor_of(window(cfg, records), count, begin)).count == count + 1,
        begin_time(cursor_of(window(cfg, records), count, begin)) == begin,
{
}

/// A log carries no time unless a time of day is set for the beginning of
/// the video, so that it takes up exactly where the log before it left off.
pub proof fn lemma_concat_takes_up_without_start_time(
    cfg: WindowConfig,
    records: Seq<Record>,
    count: nat,
    begin: int,
)
    requires
        cfg.start_time_secs == 0,
    ensures
        advanced(cursor_of(window(cfg, records), count, begin)).count == count + 1,
        begin_time(cursor_of(window(cfg, records), count, begin)) == begin,
{
    lemma_no_start_time_carries_nothing(cfg, records);
}

/// The entries of a log follow one another without a gap: each begins at
/// the time at which the one before it ended.
pub proof fn lemma_entries_are_contiguous(cursor: Cursor)
    requires
        cursor.queue.len() > 0,
    ensures
        begin_time(advanced(cursor)) == end_time(cursor),
{
}

} // verus!
