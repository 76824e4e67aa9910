//! The records of a dive log, as the telemetry decoder hands them over.
//!
//! A record has a kind and a list of named fields.  Each field holds a
//! typed value and the unit it is measured in.  Measurements that the log
//! stores as scaled integers are kept that way: a `Decimal` counts
//! thousandths of its unit, so a depth of 1.5 m is `Decimal(1500)` and an
//! elapsed time of 2 s is `Decimal(2000)`.

use vstd::prelude::*;

verus! {

/// A moment on the clock of the dive computer.
#[derive(Clone, Copy, Debug, PartialEq, Eq, Structural)]
pub struct Timestamp {
    /// Seconds since a fixed moment.  Only differences between timestamps
    /// are ever used.
    pub seconds: u32,
    /// The hour of the day on the local clock.
    pub hour: u8,
    /// The minute of the hour.
    pub minute: u8,
    /// The second of the minute.
    pub second: u8,
}

/// The value of a field.
#[derive(Clone, Copy, Debug, PartialEq, Eq, Structural)]
pub enum Value {
    /// A moment in time.
    Timestamp(Timestamp),
    /// A measurement in thousandths of its unit.
    Decimal(u32),
    /// A signed number of eight bits.
    SInt8(i8),
    /// A signed number of 32 bits.
    SInt32(i32),
    /// Any value that subtitles and statistics have no use for.
    Other,
}

/// What a record is about.
#[derive(Clone, Copy, Debug, PartialEq, Eq, Structural)]
pub enum RecordKind {
    /// The statistics of a dive: its depths.
    DiveSummary,
    /// The statistics of a session: position, duration, temperatures.
    Session,
    /// Anything else: above all the samples taken during the dive.
    Other,
}

/// A named value with its unit.
#[derive(Clone, Debug)]
pub struct Field {
    /// The name of the field.
    pub name: String,
    /// What the field holds.
    pub value: Value,
    /// The unit of the value; empty if it has none.
    pub units: String,
}

/// One record of a log.
#[derive(Clone, Debug)]
pub struct Record {
    /// What the record is about.
    pub kind: RecordKind,
    /// The fields of the record, in the order of the log.
    pub fields: Vec<Field>,
}

impl Timestamp {
    /// The moment `seconds` after the fixed one, which the local clock shows
    /// as `hour`, `minute` and `second`.
    pub fn new(seconds: u32, hour: u8, minute: u8, second: u8) -> (moment: Timestamp)
        ensures
            moment == (Timestamp { seconds, hour, minute, second }),
    {
        Timestamp { seconds, hour, minute, second }
    }

    /// The time of day in seconds since midnight.
    pub open spec fn spec_seconds_of_day(&self) -> u32 {
        (self.hour * 3600 + self.minute * 60 + self.second) as u32
    }

    /// The time of day in seconds since midnight.
    #[verifier::when_used_as_spec(spec_seconds_of_day)]
    pub fn seconds_of_day(&self) -> (seconds: u32)
        ensures
            seconds == self.hour * 3600 + self.minute * 60 + self.second,
            seconds == self.spec_seconds_of_day(),
    {
        self.hour as u32 * 60 * 60 + self.minute as u32 * 60 + self.second as u32
    }
}

impl Field {
    /// The field `name` with `value`, measured in `units`.
    pub fn new(name: &str, value: Value, units: &str) -> (field: Field)
        ensures
            field.name@ == name@,
            field.value == value,
            field.units@ == units@,
    {
        Field { name: String::from_str(name), value, units: String::from_str(units) }
    }
}

impl Record {
    /// A record of the given kind without fields.
    pub fn new(kind: RecordKind) -> (record: Record)
        ensures
            record.kind == kind,
            record.fields@ == Seq::<Field>::empty(),
    {
        Record { kind, fields: Vec::new() }
    }

    /// Adds `field` after the fields that the record has.
    pub fn push(&mut self, field: Field)
        ensures
            final(self).kind == old(self).kind,
            final(self).fields@ == old(self).fields@.push(field),
    {
        self.fields.push(field);
    }
}

} // verus!
