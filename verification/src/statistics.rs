//! Expansion of recurring "statistic" schema entries into the concrete
//! per-day mappings of one cycle, guarded against the device's
//! midnight rollover, and the calendar facts that the expansion and the
//! timestamp assignment read.

use crate::inverter_config::{
    Mapping, MappingView, StatisticMapping, StatisticMappingView, StatisticType,
};
use chrono::{Datelike, Timelike};
use vstd::prelude::*;

verus! {

/// The calendar facts of one moment of local time that a cycle reads:
/// the day of month, the seconds since local midnight, and the epoch
/// nanoseconds of local midnight of each day of the month so far
/// (index `d - 1` for day `d`).
pub struct CalendarTimestamp {
    pub day_of_month: u8,
    pub seconds_from_midnight: u32,
    pub day_midnight_nanos: Vec<i64>,
}

impl CalendarTimestamp {
    /// A calendar reading a cycle can act on: a real day of month,
    /// seconds within one day, and a midnight timestamp for every day
    /// so far.
    pub open spec fn wf(&self) -> bool {
        &&& 1 <= self.day_of_month <= 31
        &&& self.seconds_from_midnight < 86400
        &&& self.day_midnight_nanos@.len() >= self.day_of_month
    }
}

/// Relies on chrono's `Local::now` and `Datelike::day`: the current
/// local day of month, 1 to 31.
#[verifier::external_body]
fn today_day_of_month() -> (d: u8)
    ensures
        1 <= d <= 31,
{
    chrono::Local::now().day() as u8
}

/// Relies on chrono's `Local::now` and
/// `Timelike::num_seconds_from_midnight`: the non-leap seconds since
/// local midnight, 0 to 86399 (every time of day maps into that
/// range; a leap second is carried in the nanoseconds).
#[verifier::external_body]
fn current_seconds_from_midnight() -> (s: u32)
    ensures
        s < 86400,
{
    chrono::Local::now().num_seconds_from_midnight()
}

/// Relies on chrono's `Local::now`, `Datelike::with_day`,
/// `Timelike::with_hour` / `with_minute` / `with_second` /
/// `with_nanosecond` and `DateTime::timestamp_nanos_opt`: the epoch
/// nanoseconds of local midnight of the given day of the current local
/// month, or `None` when no such instant can be formed.
#[verifier::external_body]
fn local_midnight_nanos(day: u8) -> (r: Option<i64>)
    requires
        1 <= day <= 31,
{
    let d = chrono::Local::now().with_day(day as u32)?;
    let d = d.with_hour(0)?;
    let d = d.with_minute(0)?;
    let d = d.with_second(0)?;
    let d = d.with_nanosecond(0)?;
    d.timestamp_nanos_opt()
}

/// Reads the local clock and calendar for one cycle: the day of month,
/// the seconds since midnight, and the midnight timestamp of every day
/// of the month so far.  `None` when the calendar cannot supply one of
/// those midnight instants.
pub fn current_calendar() -> (r: Option<CalendarTimestamp>)
    ensures
        r matches Some(c) ==> c.wf(),
{
    let day = today_day_of_month();
    let seconds = current_seconds_from_midnight();
    let mut mids: Vec<i64> = Vec::new();
    let mut d: u8 = 1;
    while d <= day
        invariant
            1 <= d <= day + 1,
            1 <= day <= 31,
            mids@.len() == d - 1,
        decreases day + 1 - d,
    {
        match local_midnight_nanos(d) {
            Some(ns) => mids.push(ns),
            None => {
                return None;
            },
        }
        d += 1;
    }
    Some(
        CalendarTimestamp {
            day_of_month: day,
            seconds_from_midnight: seconds,
            day_midnight_nanos: mids,
        },
    )
}

// ---------------------------------------------------------------------
// Daily expansion
// ---------------------------------------------------------------------

/// A recurrence period with no defined expansion.  Producing wrong
/// data silently would be worse than stopping, so the cycle must fail
/// fast on it.
#[derive(Clone, Copy, Debug, PartialEq, Eq, Structural)]
pub enum ExpandError {
    UnimplementedRecurrence,
}

/// The mapping that one day's reading of a statistic block uses: the
/// block's base address advanced by `day - 1`, carrying the day as its
/// statistic pointer and no enum table.
pub open spec fn spec_day_mapping(m: StatisticMappingView, day: int) -> MappingView {
    MappingView {
        name: m.name,
        register_address: (m.register_address + day - 1) as u16,
        length: m.length,
        data_type: m.data_type,
        precision: m.precision,
        value_enum: None,
        statistic_type: m.statistic_type,
        statistic_pointer: Some(day as u32),
    }
}

/// The daily expansion of one statistic block: one mapping per day of
/// the month so far — unless fewer than 30 seconds remain until local
/// midnight, in which case the block is skipped this cycle, so that
/// the device's rollover cannot overwrite recorded history with zeros.
pub open spec fn spec_expand_daily(
    m: StatisticMappingView,
    now_day: int,
    seconds_from_midnight: int,
) -> Seq<MappingView> {
    if 86400 - seconds_from_midnight < 30 {
        Seq::empty()
    } else {
        Seq::new(now_day as nat, |i: int| spec_day_mapping(m, i + 1))
    }
}

/// Expands one statistic mapping for this cycle.  Only daily
/// recurrence has a defined expansion; any other period fails fast.
pub fn expand_statistic_mapping(mapping: &StatisticMapping, now: &CalendarTimestamp) -> (r: Result<
    Vec<Mapping>,
    ExpandError,
>)
    requires
        now.wf(),
        mapping@.statistic_type is Some,
        mapping@.register_address + 30 <= u16::MAX,
    ensures
        match r {
            Ok(v) => mapping@.statistic_type == Some(StatisticType::Daily)
                && v@.map_values(|mm: Mapping| mm@) == spec_expand_daily(
                mapping@,
                now.day_of_month as int,
                now.seconds_from_midnight as int,
            ),
            Err(e) => e == ExpandError::UnimplementedRecurrence && mapping@.statistic_type
                != Some(StatisticType::Daily),
        },
{
    match mapping.statistic_type {
        Some(StatisticType::Daily) => {
            let seconds_to_midnight: u32 = 86400 - now.seconds_from_midnight;
            let mut out: Vec<Mapping> = Vec::new();
            if seconds_to_midnight < 30 {
                proof {
                    assert(out@.map_values(|mm: Mapping| mm@) =~= spec_expand_daily(
                        mapping@,
                        now.day_of_month as int,
                        now.seconds_from_midnight as int,
                    ));
                }
                return Ok(out);
            }
            let day = now.day_of_month;
            let mut i: u8 = 1;
            while i <= day
                invariant
                    1 <= i <= day + 1,
                    1 <= day <= 31,
                    mapping@.register_address + 30 <= u16::MAX,
                    out@.len() == i - 1,
                    forall|k: int|
                        0 <= k < i - 1 ==> #[trigger] out@[k]@ == spec_day_mapping(
                            mapping@,
                            k + 1,
                        ),
                decreases day + 1 - i,
            {
                let entry = Mapping {
                    name: mapping.name.clone(),
                    register_address: mapping.register_address + ((i - 1) as u16),
                    length: mapping.length,
                    data_type: mapping.data_type.clone(),
                    precision: mapping.precision,
                    value_enum: None,
                    statistic_type: mapping.statistic_type,
                    statistic_pointer: Some(i as u32),
                };
                proof {
                    assert(entry@ == spec_day_mapping(mapping@, i as int));
                }
                out.push(entry);
                i += 1;
            }
            proof {
                assert(out@.map_values(|mm: Mapping| mm@) =~= spec_expand_daily(
                    mapping@,
                    now.day_of_month as int,
                    now.seconds_from_midnight as int,
                ));
            }
            Ok(out)
        },
        _ => Err(ExpandError::UnimplementedRecurrence),
    }
}

} // verus!
