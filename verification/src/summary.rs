//! The statistics of a dive, and how those of several logs become one.

use vstd::prelude::*;
use crate::error::Fit2SrtError;
use crate::text::{str_eq, trunc_div};

verus! {

/// The statistics that a log holds about its dive.
///
/// Positions are in semicircles: 2^31 of them are 180 degrees.  Depths are
/// in thousandths of the depth unit, the elapsed time in milliseconds.
#[derive(Copy, Clone, Debug)]
pub struct Summary {
    /// A rough position, latitude first.
    pub location: (Option<i32>, Option<i32>),
    /// The average temperature.
    pub avg_temperature: Option<i8>,
    /// The lowest temperature.
    pub min_temperature: Option<i8>,
    /// The unit of the temperatures: 0 for degrees Celsius.
    pub temperature_unit: u8,
    /// The average depth.
    pub avg_depth: Option<u32>,
    /// The greatest depth.
    pub max_depth: Option<u32>,
    /// The unit of the depths: 0 for metres.
    pub depth_unit: u8,
    /// The time that the log covers.  It is the weight of the averages when
    /// statistics are merged.
    pub time: u64,
}

/// The statistics of no log.
pub open spec fn empty_summary() -> Summary {
    Summary {
        location: (None, None),
        avg_temperature: None,
        min_temperature: None,
        temperature_unit: 0,
        avg_depth: None,
        max_depth: None,
        depth_unit: 0,
        time: 0,
    }
}

/// Whether `unit` is one that statistics can be in.
pub open spec fn unit_known(unit: Seq<char>) -> bool {
    unit == "C"@ || unit == "m"@
}

/// `summary` after it took note of the known unit `unit`.
pub open spec fn with_unit(summary: Summary, unit: Seq<char>) -> Summary {
    if unit == "C"@ {
        Summary { temperature_unit: 0, ..summary }
    } else {
        Summary { depth_unit: 0, ..summary }
    }
}

/// The text of the failure on a unit that is not known.
pub open spec fn unknown_unit_text(unit: Seq<char>) -> Seq<char> {
    "unsupport unit: "@ + unit
}

/// Whether `done` is the failure to merge that carries `text`.
pub open spec fn refuses<T>(done: Result<T, Fit2SrtError>, text: Seq<char>) -> bool {
    match done {
        Err(Fit2SrtError::MergeError(carried)) => carried@ == text,
        _ => false,
    }
}

impl Default for Summary {
    fn default() -> (summary: Summary)
        ensures
            summary == empty_summary(),
    {
        Summary {
            location: (None, None),
            avg_temperature: None,
            min_temperature: None,
            temperature_unit: 0,
            avg_depth: None,
            max_depth: None,
            depth_unit: 0,
            time: 0,
        }
    }
}

impl Summary {
    /// Takes note of the unit of a value: degrees Celsius for temperatures,
    /// metres for depths.  Any other unit is refused, and the statistics
    /// stay as they are.
    pub fn set_unit(&mut self, u: &str) -> (done: Result<(), Fit2SrtError>)
        ensures
            unit_known(u@) ==> done is Ok && *final(self) == with_unit(*old(self), u@),
            !unit_known(u@) ==> *final(self) == *old(self) && refuses(done, unknown_unit_text(u@)),
    {
        proof {
            reveal_strlit("C");
            reveal_strlit("m");
        }
        if str_eq(u, "C") {
            self.temperature_unit = 0;
            Ok(())
        } else if str_eq(u, "m") {
            self.depth_unit = 0;
            Ok(())
        } else {
            let mut text = String::from_str("unsupport unit: ");
            text.append(u);
            Err(Fit2SrtError::MergeError(text))
        }
    }
}

/// Whether the units of two sets of statistics allow them to be merged:
/// the temperature unit of the first is both the temperature unit and the
/// depth unit of the second.
pub open spec fn units_agree(first: Summary, second: Summary) -> bool {
    first.temperature_unit == second.temperature_unit && first.temperature_unit
        == second.depth_unit
}

/// Whether statistics hold neither a coordinate nor a temperature nor a
/// depth.
pub open spec fn is_blank(summary: Summary) -> bool {
    &&& summary.location.0 is None
    &&& summary.location.1 is None
    &&& summary.avg_temperature is None
    &&& summary.min_temperature is None
    &&& summary.avg_depth is None
    &&& summary.max_depth is None
}

/// Whether a position has both its coordinates.
pub open spec fn is_fix(location: (Option<i32>, Option<i32>)) -> bool {
    location.0 is Some && location.1 is Some
}

/// The middle between two coordinates, rounded toward zero.
pub open spec fn midpoint(first: i32, second: i32) -> int {
    trunc_div(first + second, 2)
}

/// The position of two logs together: the middle between the two where
/// both have a fix, the fix of the one that has one, or none.
pub open spec fn merged_location(
    first: (Option<i32>, Option<i32>),
    second: (Option<i32>, Option<i32>),
) -> (Option<i32>, Option<i32>) {
    if is_fix(first) && is_fix(second) {
        (
            Some(midpoint(first.0->0, second.0->0) as i32),
            Some(midpoint(first.1->0, second.1->0) as i32),
        )
    } else if is_fix(first) {
        first
    } else if is_fix(second) {
        second
    } else {
        (None, None)
    }
}

/// The average of two values with the weights `first_time` and
/// `second_time`, rounded toward zero.
pub open spec fn weighted(first: int, first_time: int, second: int, second_time: int) -> int {
    trunc_div(first * first_time + second * second_time, first_time + second_time)
}

/// Whether merging two sets of statistics takes a weighted average.
pub open spec fn takes_average(first: Summary, second: Summary) -> bool {
    ||| first.avg_temperature is Some && second.avg_temperature is Some
    ||| first.avg_depth is Some && second.avg_depth is Some
}

/// Whether the times of two sets of statistics can weigh their averages:
/// the times add up to what can be held, and not to zero where an average
/// is taken.
pub open spec fn weighable(first: Summary, second: Summary) -> bool {
    &&& first.time + second.time <= u64::MAX
    &&& takes_average(first, second) ==> first.time + second.time > 0
}

/// Whether `done` is the failure that carries `text` and says that
/// statistics cannot be told.
pub open spec fn untold<T>(done: Result<T, Fit2SrtError>, text: Seq<char>) -> bool {
    match done {
        Err(Fit2SrtError::SummaryError(carried)) => carried@ == text,
        _ => false,
    }
}

/// The statistics of two logs together, where their units agree.
pub open spec fn merged(first: Summary, second: Summary) -> Summary {
    Summary {
        location: merged_location(first.location, second.location),
        avg_temperature: match (first.avg_temperature, second.avg_temperature) {
            (Some(a), Some(b)) => Some(
                weighted(a as int, first.time as int, b as int, second.time as int) as i8,
            ),
            (Some(a), None) => Some(a),
            (None, b) => b,
        },
        min_temperature: match (first.min_temperature, second.min_temperature) {
            (Some(a), Some(b)) => Some(
                if a < b {
                    a
                } else {
                    b
                },
            ),
            (Some(a), None) => Some(a),
            (None, b) => b,
        },
        temperature_unit: first.temperature_unit,
        avg_depth: match (first.avg_depth, second.avg_depth) {
            (Some(a), Some(b)) => Some(
                weighted(a as int, first.time as int, b as int, second.time as int) as u32,
            ),
            (Some(a), None) => Some(a),
            (None, b) => b,
        },
        max_depth: match (first.max_depth, second.max_depth) {
            (Some(a), Some(b)) => Some(
                if a < b {
                    b
                } else {
                    a
                },
            ),
            (Some(a), None) => Some(a),
            (None, b) => b,
        },
        depth_unit: first.depth_unit,
        time: (first.time + second.time) as u64,
    }
}

/// A weighted average lies between the two values that it is taken of.
pub proof fn lemma_weighted_between(first: int, first_time: int, second: int, second_time: int)
    requires
        first_time >= 0,
        second_time >= 0,
        first_time + second_time > 0,
    ensures
        first <= second ==> first <= weighted(first, first_time, second, second_time) <= second,
        second <= first ==> second <= weighted(first, first_time, second, second_time) <= first,
{
    let total = first_time + second_time;
    let sum = first * first_time + second * second_time;
    let low = if first <= second {
        first
    } else {
        second
    };
    let high = if first <= second {
        second
    } else {
        first
    };
    assert(low * total <= sum <= high * total) by (nonlinear_arith)
        requires
            first_time >= 0,
            second_time >= 0,
            total == first_time + second_time,
            sum == first * first_time + second * second_time,
            low <= first <= high,
            low <= second <= high,
    ;
    if sum >= 0 {
        assert(low <= sum / total <= high) by (nonlinear_arith)
            requires
                low * total <= sum <= high * total,
                total > 0,
                sum >= 0,
        ;
    } else {
        assert(low <= -((-sum) / total) <= high) by (nonlinear_arith)
            requires
                low * total <= sum <= high * total,
                total > 0,
                sum < 0,
        ;
    }
}

/// The average of two values with the weights `first_time` and
/// `second_time`.
fn weighted_average(first: i64, first_time: u64, second: i64, second_time: u64) -> (average: i64)
    requires
        first_time + second_time > 0,
        -0x1_0000_0000 <= first <= 0x1_0000_0000,
        -0x1_0000_0000 <= second <= 0x1_0000_0000,
    ensures
        average == weighted(first as int, first_time as int, second as int, second_time as int),
        first <= second ==> first <= average <= second,
        second <= first ==> second <= average <= first,
{
    let total: i128 = first_time as i128 + second_time as i128;
    assert(-0x1_0000_0000 * 0x1_0000_0000_0000_0000 <= first * first_time <= 0x1_0000_0000
        * 0x1_0000_0000_0000_0000) by (nonlinear_arith)
        requires
            -0x1_0000_0000 <= first <= 0x1_0000_0000,
            0 <= first_time <= 0x1_0000_0000_0000_0000,
    ;
    assert(-0x1_0000_0000 * 0x1_0000_0000_0000_0000 <= second * second_time <= 0x1_0000_0000
        * 0x1_0000_0000_0000_0000) by (nonlinear_arith)
        requires
            -0x1_0000_0000 <= second <= 0x1_0000_0000,
            0 <= second_time <= 0x1_0000_0000_0000_0000,
    ;
    let sum: i128 = (first as i128) * (first_time as i128) + (second as i128) * (second_time
        as i128);
    proof {
        lemma_weighted_between(first as int, first_time as int, second as int, second_time as int);
    }
    (sum / total) as i64
}

impl Summary {
    /// The sign of the temperature unit: `C` for degrees Celsius, nothing
    /// for a unit that is not known.
    pub fn temp_unit(&self) -> (sign: &'static str)
        ensures
            sign@ == (if self.temperature_unit == 0 {
                "C"@
            } else {
                ""@
            }),
    {
        if self.temperature_unit == 0 {
            "C"
        } else {
            ""
        }
    }

    /// The sign of the depth unit: `m` for metres, nothing for a unit that
    /// is not known.
    pub fn depth_unit(&self) -> (sign: &'static str)
        ensures
            sign@ == (if self.depth_unit == 0 {
                "m"@
            } else {
                ""@
            }),
    {
        if self.depth_unit == 0 {
            "m"
        } else {
            ""
        }
    }

    /// Whether the statistics hold no position, no temperature and no
    /// depth.
    pub fn is_empty(&self) -> (empty: bool)
        ensures
            empty == is_blank(*self),
    {
        if self.location.0.is_some() || self.location.1.is_some()
            || self.avg_temperature.is_some() || self.min_temperature.is_some()
            || self.avg_depth.is_some() || self.max_depth.is_some() {
            false
        } else {
            true
        }
    }

    /// The position in degrees, latitude first, where both coordinates are
    /// known.  Each number is the degrees times 2^31: a coordinate of `c`
    /// semicircles lies at `c * 180 / 2^31` degrees.
    pub fn location(&self) -> (degrees: Option<(i64, i64)>)
        ensures
            degrees is Some <==> is_fix(self.location),
            degrees matches Some(pair) ==> pair.0 == self.location.0->0 * 180 && pair.1
                == self.location.1->0 * 180,
    {
        if let (Some(lat), Some(long)) = self.location {
            Some((lat as i64 * 180, long as i64 * 180))
        } else {
            None
        }
    }

    /// The statistics of this log and of `other` together.
    ///
    /// The units have to agree, or the merge fails.  The position is the
    /// middle between the two, averages are weighted by the time that each
    /// log covers, the lowest temperature and the greatest depth are those
    /// of both, and the times add up.  Where only one log knows a value,
    /// that value is taken.  Averages cannot be weighted where the two logs
    /// cover no time at all, nor can times be added that are too great to
    /// hold: there the statistics cannot be told.
    pub fn merge(self, other: &Self) -> (together: Result<Self, Fit2SrtError>)
        ensures
            !units_agree(self, *other) ==> refuses(together, "unit inconsist"@),
            units_agree(self, *other) && !weighable(self, *other) ==> untold(
                together,
                "elapsed time cannot weigh the averages"@,
            ),
            units_agree(self, *other) && weighable(self, *other) ==> together == Ok::<
                Summary,
                Fit2SrtError,
            >(merged(self, *other)),
    {
        if self.temperature_unit != other.temperature_unit || self.temperature_unit
            != other.depth_unit {
            return Err(Fit2SrtError::MergeError(String::from_str("unit inconsist")));
        }
        let averaging = (self.avg_temperature.is_some() && other.avg_temperature.is_some()) || (
        self.avg_depth.is_some() && other.avg_depth.is_some());
        if self.time > u64::MAX - other.time || (averaging && self.time == 0 && other.time == 0) {
            return Err(
                Fit2SrtError::SummaryError(
                    String::from_str("elapsed time cannot weigh the averages"),
                ),
            );
        }
        let new_location = match (self.location, other.location) {
            ((Some(old_lat), Some(old_long)), (Some(other_lat), Some(other_long))) => (
                Some(((old_lat as i64 + other_lat as i64) / 2) as i32),
                Some(((old_long as i64 + other_long as i64) / 2) as i32),
            ),
            ((Some(old_lat), Some(old_long)), _) => (Some(old_lat), Some(old_long)),
            (_, (Some(other_lat), Some(other_long))) => (Some(other_lat), Some(other_long)),
            _ => (None, None),
        };
        let total_time = self.time + other.time;
        let new_avg_temperature = match (self.avg_temperature, other.avg_temperature) {
            (Some(old_avg_t), Some(other_avg_t)) => Some(
                weighted_average(old_avg_t as i64, self.time, other_avg_t as i64, other.time)
                    as i8,
            ),
            (Some(old_avg_t), None) => Some(old_avg_t),
            (None, other_avg_t) => other_avg_t,
        };
        let new_avg_depth = match (self.avg_depth, other.avg_depth) {
            (Some(old_avg_d), Some(other_avg_d)) => Some(
                weighted_average(old_avg_d as i64, self.time, other_avg_d as i64, other.time)
                    as u32,
            ),
            (Some(old_avg_d), None) => Some(old_avg_d),
            (None, other_avg_d) => other_avg_d,
        };
        let new_min_temperature = match (self.min_temperature, other.min_temperature) {
            (Some(old_min_t), Some(other_min_t)) => {
                if old_min_t < other_min_t {
                    Some(old_min_t)
                } else {
                    Some(other_min_t)
                }
            },
            (Some(old_min_t), None) => Some(old_min_t),
            (None, other_min_t) => other_min_t,
        };
        let new_max_depth = match (self.max_depth, other.max_depth) {
            (Some(old_max_d), Some(other_max_d)) => {
                if old_max_d < other_max_d {
                    Some(other_max_d)
                } else {
                    Some(old_max_d)
                }
            },
            (Some(old_max_d), None) => Some(old_max_d),
            (None, other_max_d) => other_max_d,
        };
        Ok(
            Summary {
                location: new_location,
                avg_temperature: new_avg_temperature,
                min_temperature: new_min_temperature,
                avg_depth: new_avg_depth,
                max_depth: new_max_depth,
                temperature_unit: self.temperature_unit,
                depth_unit: self.depth_unit,
                time: total_time,
            },
        )
    }
}

} // verus!
