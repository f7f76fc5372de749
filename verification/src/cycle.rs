//! One poll cycle: the work list, per-mapping processing with
//! per-entry failure isolation, datapoint building, and the
//! polling/waiting state machine that the scheduling loop runs.

use crate::convert::{spec_convert, try_from_registers, ConversionResult, DecodedView};
use crate::inverter_config::{
    statistic_mapping_error, InverterConfig, InverterConfigView, Mapping, MappingView,
    StatisticMapping, StatisticMappingView, StatisticType,
};
use crate::statistics::{
    expand_statistic_mapping, spec_expand_daily, CalendarTimestamp, ExpandError,
};
use convert_case::Casing;
use vstd::prelude::*;

verus! {

// ---------------------------------------------------------------------
// Read requests and transport failures
// ---------------------------------------------------------------------

/// The transport request for one mapping: the 0-based start address
/// and the register count.  The schema is authored 1-based while the
/// protocol addresses registers 0-based; this offset is a fixed
/// contract of that boundary.
pub fn read_request(mapping: &Mapping) -> (r: (u16, u16))
    requires
        mapping@.register_address >= 1,
    ensures
        r.0 == mapping@.register_address - 1,
        r.1 == mapping@.length,
{
    (mapping.register_address - 1, mapping.length)
}

/// A transport failure for one mapping's read.  The cycle records it
/// and goes on with the next mapping; it never aborts the cycle.
#[derive(Clone, Copy, Debug, PartialEq, Eq, Structural)]
pub enum TransportError {
    ReadFailed,
}

/// The view of one mapping's read result.
pub open spec fn spec_read_view(r: Result<Vec<u16>, TransportError>) -> Result<
    Seq<u16>,
    TransportError,
> {
    match r {
        Ok(v) => Ok(v@),
        Err(e) => Err(e),
    }
}

// ---------------------------------------------------------------------
// Datapoints
// ---------------------------------------------------------------------

/// One record for the sink: a measurement, tags, one field with its
/// value, and an optional explicit timestamp.  Without a timestamp the
/// sink stamps the record with its own "now".
#[derive(Debug, PartialEq)]
pub struct Datapoint {
    pub measurement: String,
    pub tags: Vec<(String, String)>,
    pub field_name: String,
    pub field_value: ConversionResult,
    pub timestamp: Option<i64>,
}

pub struct DatapointView {
    pub measurement: Seq<char>,
    pub tags: Seq<(Seq<char>, Seq<char>)>,
    pub field_name: Seq<char>,
    pub field_value: DecodedView,
    pub timestamp: Option<i64>,
}

impl View for Datapoint {
    type V = DatapointView;

    open spec fn view(&self) -> DatapointView {
        DatapointView {
            measurement: self.measurement@,
            tags: self.tags@.map_values(|t: (String, String)| (t.0@, t.1@)),
            field_name: self.field_name@,
            field_value: self.field_value@,
            timestamp: self.timestamp,
        }
    }
}

/// What convert_case's snake-case conversion returns for a string: a
/// function of the characters alone.
pub uninterp spec fn snake_of(s: Seq<char>) -> Seq<char>;

/// Relies on convert_case's `Casing::to_case` with `Case::Snake`: the
/// result depends on the characters alone.
#[verifier::external_body]
fn to_snake_case(s: &str) -> (r: String)
    ensures
        r@ == snake_of(s@),
{
    s.to_case(convert_case::Case::Snake)
}

/// A datapoint could not be built from a mapping's value.
#[derive(Clone, Copy, Debug, PartialEq, Eq, Structural)]
pub enum BuildError {
    /// The statistic pointer names a day this cycle's calendar does
    /// not cover.
    StatisticDayOutOfRange,
    /// A statistic pointer without daily recurrence: no timestamp rule
    /// is defined for it.
    PointerWithoutDailyRecurrence,
}

/// The explicit timestamp a mapping's datapoint carries: local
/// midnight of its statistic day when it came from daily expansion,
/// none otherwise.
pub open spec fn spec_timestamp(m: MappingView, mids: Seq<i64>) -> Result<Option<i64>, BuildError> {
    match m.statistic_pointer {
        None => Ok(None),
        Some(d) => {
            if m.statistic_type != Some(StatisticType::Daily) {
                Err(BuildError::PointerWithoutDailyRecurrence)
            } else if 1 <= d && d <= mids.len() {
                Ok(Some(mids[d - 1]))
            } else {
                Err(BuildError::StatisticDayOutOfRange)
            }
        },
    }
}

/// The datapoint built for one mapping's refined value: the
/// snake-cased device identity as measurement, the device tags, and
/// the snake-cased mapping name as field.
pub open spec fn spec_datapoint(
    v: DecodedView,
    m: MappingView,
    slug: Seq<char>,
    address: Seq<char>,
    ts: Option<i64>,
) -> DatapointView {
    DatapointView {
        measurement: snake_of(slug),
        tags: seq![("inverter"@, slug), ("ip_address"@, address)],
        field_name: snake_of(m.name),
        field_value: v,
        timestamp: ts,
    }
}

/// Builds the sink record for one mapping's refined value.
pub fn build_datapoint(
    conversion_result: &ConversionResult,
    mapping: &Mapping,
    inverter_slug: &String,
    inverter_address: &String,
    now: &CalendarTimestamp,
) -> (r: Result<Datapoint, BuildError>)
    ensures
        match r {
            Ok(dp) => spec_timestamp(mapping@, now.day_midnight_nanos@) matches Ok(ts) && dp@
                == spec_datapoint(
                conversion_result@,
                mapping@,
                inverter_slug@,
                inverter_address@,
                ts,
            ),
            Err(e) => spec_timestamp(mapping@, now.day_midnight_nanos@) == Err::<
                Option<i64>,
                BuildError,
            >(e),
        },
{
    let timestamp: Option<i64> = match mapping.statistic_pointer {
        None => None,
        Some(d) => {
            match mapping.statistic_type {
                Some(StatisticType::Daily) => {
                    if 1 <= d && (d as usize) <= now.day_midnight_nanos.len() {
                        Some(now.day_midnight_nanos[(d - 1) as usize])
                    } else {
                        return Err(BuildError::StatisticDayOutOfRange);
                    }
                },
                _ => {
                    return Err(BuildError::PointerWithoutDailyRecurrence);
                },
            }
        },
    };
    let mut tags: Vec<(String, String)> = Vec::new();
    tags.push(("inverter".to_owned(), inverter_slug.clone()));
    tags.push(("ip_address".to_owned(), inverter_address.clone()));
    let dp = Datapoint {
        measurement: to_snake_case(inverter_slug.as_str()),
        tags,
        field_name: to_snake_case(mapping.name.as_str()),
        field_value: conversion_result.clone(),
        timestamp,
    };
    proof {
        assert(dp@.tags =~= seq![
            ("inverter"@, inverter_slug@),
            ("ip_address"@, inverter_address@),
        ]);
    }
    Ok(dp)
}

// ---------------------------------------------------------------------
// The work list
// ---------------------------------------------------------------------

/// The daily expansions of a sequence of statistic mappings,
/// concatenated in schema order.
pub open spec fn spec_expansions(
    ms: Seq<StatisticMappingView>,
    now_day: int,
    sfm: int,
) -> Seq<MappingView>
    decreases ms.len(),
{
    if ms.len() == 0 {
        Seq::empty()
    } else {
        spec_expand_daily(ms[0], now_day, sfm) + spec_expansions(ms.drop_first(), now_day, sfm)
    }
}

proof fn lemma_spec_expansions_push(
    ms: Seq<StatisticMappingView>,
    m: StatisticMappingView,
    now_day: int,
    sfm: int,
)
    ensures
        spec_expansions(ms.push(m), now_day, sfm) == spec_expansions(ms, now_day, sfm)
            + spec_expand_daily(m, now_day, sfm),
    decreases ms.len(),
{
    if ms.len() == 0 {
        assert(ms.push(m)[0] == m);
        assert(ms.push(m).drop_first() =~= Seq::<StatisticMappingView>::empty());
        assert(spec_expansions(ms.push(m).drop_first(), now_day, sfm) == Seq::<
            MappingView,
        >::empty());
        assert(spec_expansions(ms.push(m), now_day, sfm) =~= spec_expansions(ms, now_day, sfm)
            + spec_expand_daily(m, now_day, sfm));
    } else {
        assert(ms.push(m)[0] == ms[0]);
        assert(ms.push(m).drop_first() =~= ms.drop_first().push(m));
        lemma_spec_expansions_push(ms.drop_first(), m, now_day, sfm);
        assert(spec_expansions(ms.push(m), now_day, sfm) == spec_expand_daily(ms[0], now_day, sfm)
            + (spec_expansions(ms.drop_first(), now_day, sfm) + spec_expand_daily(
            m,
            now_day,
            sfm,
        )));
        assert(spec_expand_daily(ms[0], now_day, sfm) + (spec_expansions(
            ms.drop_first(),
            now_day,
            sfm,
        ) + spec_expand_daily(m, now_day, sfm)) =~= (spec_expand_daily(ms[0], now_day, sfm)
            + spec_expansions(ms.drop_first(), now_day, sfm)) + spec_expand_daily(
            m,
            now_day,
            sfm,
        ));
    }
}

/// The work list of one cycle: the plain mappings, then the daily
/// expansion of every statistic mapping, in schema order.  The schema
/// itself is never changed.
pub open spec fn spec_work_list(c: InverterConfigView, now_day: int, sfm: int) -> Seq<MappingView> {
    c.mappings + spec_expansions(c.statistic_mappings, now_day, sfm)
}

/// Builds this cycle's work list from a valid schema.  Fails fast
/// exactly when some statistic mapping declares a recurrence period
/// other than daily.
pub fn build_work_list(config: &InverterConfig, now: &CalendarTimestamp) -> (r: Result<
    Vec<Mapping>,
    ExpandError,
>)
    requires
        now.wf(),
        crate::inverter_config::config_valid(config@),
    ensures
        r is Ok <==> (forall|i: int|
            0 <= i < config@.statistic_mappings.len()
                ==> (#[trigger] config@.statistic_mappings[i]).statistic_type == Some(
                StatisticType::Daily,
            )),
        match r {
            Ok(v) => v@.map_values(|m: Mapping| m@) == spec_work_list(
                config@,
                now.day_of_month as int,
                now.seconds_from_midnight as int,
            ),
            Err(e) => e == ExpandError::UnimplementedRecurrence,
        },
{
    let ghost now_day = now.day_of_month as int;
    let ghost sfm = now.seconds_from_midnight as int;
    proof {
        crate::inverter_config::lemma_statistic_errors_elementwise(config@.statistic_mappings);
    }
    let mut work: Vec<Mapping> = Vec::new();
    let n = config.mappings.len();
    let mut i: usize = 0;
    while i < n
        invariant
            n == config.mappings@.len(),
            i <= n,
            work@.len() == i,
            forall|j: int| 0 <= j < i ==> #[trigger] work@[j]@ == config@.mappings[j],
        decreases n - i,
    {
        proof {
            assert(config@.mappings[i as int] == config.mappings@[i as int]@);
        }
        work.push(config.mappings[i].clone());
        i += 1;
    }
    let sn = config.statistic_mappings.len();
    let mut k: usize = 0;
    while k < sn
        invariant
            now.wf(),
            sn == config.statistic_mappings@.len(),
            k <= sn,
            now_day == now.day_of_month as int,
            sfm == now.seconds_from_midnight as int,
            config@.statistic_mappings == config.statistic_mappings@.map_values(
                |m: StatisticMapping| m@,
            ),
            forall|j: int|
                0 <= j < config@.statistic_mappings.len() ==> statistic_mapping_error(
                    #[trigger] config@.statistic_mappings[j],
                ) is None,
            forall|j: int|
                0 <= j < k ==> (#[trigger] config@.statistic_mappings[j]).statistic_type == Some(
                    StatisticType::Daily,
                ),
            work@.map_values(|m: Mapping| m@) == config@.mappings + spec_expansions(
                config@.statistic_mappings.take(k as int),
                now_day,
                sfm,
            ),
        decreases sn - k,
    {
        proof {
            assert(config@.statistic_mappings[k as int] == config.statistic_mappings@[k as int]@);
        }
        match expand_statistic_mapping(&config.statistic_mappings[k], now) {
            Ok(mut v) => {
                proof {
                    assert(config@.statistic_mappings.take(k + 1 as int)
                        =~= config@.statistic_mappings.take(k as int).push(
                        config@.statistic_mappings[k as int],
                    ));
                    lemma_spec_expansions_push(
                        config@.statistic_mappings.take(k as int),
                        config@.statistic_mappings[k as int],
                        now_day,
                        sfm,
                    );
                }
                let ghost old_work = work@;
                let ghost added = v@;
                work.append(&mut v);
                proof {
                    assert(work@ == old_work + added);
                    assert(work@.map_values(|m: Mapping| m@) =~= old_work.map_values(
                        |m: Mapping| m@,
                    ) + added.map_values(|m: Mapping| m@));
                }
            },
            Err(e) => {
                return Err(e);
            },
        }
        k += 1;
    }
    proof {
        assert(config@.statistic_mappings.take(sn as int) =~= config@.statistic_mappings);
    }
    Ok(work)
}

// ---------------------------------------------------------------------
// Per-mapping processing and the cycle's datapoints
// ---------------------------------------------------------------------

/// The datapoint one mapping contributes, given what the transport
/// returned for it: none when the read failed, the conversion failed
/// or was skipped, or no timestamp rule applies.
pub open spec fn spec_process_mapping(
    m: MappingView,
    read: Result<Seq<u16>, TransportError>,
    slug: Seq<char>,
    address: Seq<char>,
    mids: Seq<i64>,
) -> Option<DatapointView> {
    match read {
        Err(_) => None,
        Ok(words) => match spec_convert(words, m) {
            Err(_) => None,
            Ok(v) => match spec_timestamp(m, mids) {
                Err(_) => None,
                Ok(ts) => Some(spec_datapoint(v, m, slug, address, ts)),
            },
        },
    }
}

/// Processes one mapping of the work list: decode and refine what the
/// transport returned, and build the datapoint.  Every failure is
/// contained here as `None`; it never touches another mapping.
pub fn process_mapping(
    mapping: &Mapping,
    read_result: &Result<Vec<u16>, TransportError>,
    inverter_slug: &String,
    inverter_address: &String,
    now: &CalendarTimestamp,
) -> (r: Option<Datapoint>)
    ensures
        match r {
            Some(dp) => spec_process_mapping(
                mapping@,
                spec_read_view(*read_result),
                inverter_slug@,
                inverter_address@,
                now.day_midnight_nanos@,
            ) == Some(dp@),
            None => spec_process_mapping(
                mapping@,
                spec_read_view(*read_result),
                inverter_slug@,
                inverter_address@,
                now.day_midnight_nanos@,
            ) is None,
        },
{
    let registers = match read_result {
        Ok(v) => v,
        Err(_) => {
            return None;
        },
    };
    let converted = match try_from_registers(mapping, registers) {
        Ok(c) => c,
        Err(_) => {
            return None;
        },
    };
    match build_datapoint(&converted, mapping, inverter_slug, inverter_address, now) {
        Ok(dp) => Some(dp),
        Err(_) => None,
    }
}

/// The datapoints of a whole cycle: each mapping's contribution, in
/// schema order, with failed mappings leaving no gap.
pub open spec fn spec_cycle_datapoints(
    ms: Seq<MappingView>,
    reads: Seq<Result<Seq<u16>, TransportError>>,
    slug: Seq<char>,
    address: Seq<char>,
    mids: Seq<i64>,
) -> Seq<DatapointView>
    decreases ms.len(),
{
    if ms.len() == 0 {
        Seq::empty()
    } else {
        let rest = spec_cycle_datapoints(ms.drop_first(), reads.drop_first(), slug, address, mids);
        match spec_process_mapping(ms[0], reads[0], slug, address, mids) {
            Some(dp) => seq![dp] + rest,
            None => rest,
        }
    }
}

proof fn lemma_spec_cycle_datapoints_push(
    ms: Seq<MappingView>,
    reads: Seq<Result<Seq<u16>, TransportError>>,
    m: MappingView,
    read: Result<Seq<u16>, TransportError>,
    slug: Seq<char>,
    address: Seq<char>,
    mids: Seq<i64>,
)
    requires
        reads.len() == ms.len(),
    ensures
        spec_cycle_datapoints(ms.push(m), reads.push(read), slug, address, mids)
            == spec_cycle_datapoints(ms, reads, slug, address, mids) + (match spec_process_mapping(
            m,
            read,
            slug,
            address,
            mids,
        ) {
            Some(dp) => seq![dp],
            None => Seq::<DatapointView>::empty(),
        }),
    decreases ms.len(),
{
    let tail = match spec_process_mapping(m, read, slug, address, mids) {
        Some(dp) => seq![dp],
        None => Seq::<DatapointView>::empty(),
    };
    if ms.len() == 0 {
        assert(ms.push(m)[0] == m);
        assert(reads.push(read)[0] == read);
        assert(ms.push(m).drop_first() =~= Seq::<MappingView>::empty());
        assert(reads.push(read).drop_first() =~= Seq::<Result<Seq<u16>, TransportError>>::empty());
        assert(spec_cycle_datapoints(
            ms.push(m).drop_first(),
            reads.push(read).drop_first(),
            slug,
            address,
            mids,
        ) == Seq::<DatapointView>::empty());
        assert(spec_cycle_datapoints(ms, reads, slug, address, mids) == Seq::<
            DatapointView,
        >::empty());
        match spec_process_mapping(m, read, slug, address, mids) {
            Some(dp) => {
                assert(spec_cycle_datapoints(ms.push(m), reads.push(read), slug, address, mids)
                    == seq![dp] + Seq::<DatapointView>::empty());
                assert(seq![dp] + Seq::<DatapointView>::empty() =~= Seq::<DatapointView>::empty()
                    + seq![dp]);
            },
            None => {
                assert(spec_cycle_datapoints(ms.push(m), reads.push(read), slug, address, mids)
                    == Seq::<DatapointView>::empty());
                assert(Seq::<DatapointView>::empty() =~= Seq::<DatapointView>::empty() + Seq::<
                    DatapointView,
                >::empty());
            },
        }
    } else {
        assert(ms.push(m)[0] == ms[0]);
        assert(reads.push(read)[0] == reads[0]);
        assert(ms.push(m).drop_first() =~= ms.drop_first().push(m));
        assert(reads.push(read).drop_first() =~= reads.drop_first().push(read));
        lemma_spec_cycle_datapoints_push(
            ms.drop_first(),
            reads.drop_first(),
            m,
            read,
            slug,
            address,
            mids,
        );
        let rest = spec_cycle_datapoints(ms.drop_first(), reads.drop_first(), slug, address, mids);
        match spec_process_mapping(ms[0], reads[0], slug, address, mids) {
            Some(dp) => {
                assert(spec_cycle_datapoints(ms.push(m), reads.push(read), slug, address, mids)
                    == seq![dp] + (rest + tail));
                assert(seq![dp] + (rest + tail) =~= (seq![dp] + rest) + tail);
            },
            None => {
                assert(spec_cycle_datapoints(ms.push(m), reads.push(read), slug, address, mids)
                    == rest + tail);
            },
        }
    }
}

/// Builds the datapoints of one cycle from the work list and what the
/// transport returned for each mapping, in schema order.
pub fn build_cycle_datapoints(
    mappings: &Vec<Mapping>,
    read_results: &Vec<Result<Vec<u16>, TransportError>>,
    inverter_slug: &String,
    inverter_address: &String,
    now: &CalendarTimestamp,
) -> (r: Vec<Datapoint>)
    requires
        read_results@.len() == mappings@.len(),
    ensures
        r@.map_values(|d: Datapoint| d@) == spec_cycle_datapoints(
            mappings@.map_values(|m: Mapping| m@),
            read_results@.map_values(|x: Result<Vec<u16>, TransportError>| spec_read_view(x)),
            inverter_slug@,
            inverter_address@,
            now.day_midnight_nanos@,
        ),
{
    let ghost mviews = mappings@.map_values(|m: Mapping| m@);
    let ghost rviews = read_results@.map_values(
        |x: Result<Vec<u16>, TransportError>| spec_read_view(x),
    );
    let mut out: Vec<Datapoint> = Vec::new();
    let n = mappings.len();
    let mut i: usize = 0;
    while i < n
        invariant
            n == mappings@.len(),
            read_results@.len() == mappings@.len(),
            i <= n,
            mviews == mappings@.map_values(|m: Mapping| m@),
            rviews == read_results@.map_values(
                |x: Result<Vec<u16>, TransportError>| spec_read_view(x),
            ),
            out@.map_values(|d: Datapoint| d@) == spec_cycle_datapoints(
                mviews.take(i as int),
                rviews.take(i as int),
                inverter_slug@,
                inverter_address@,
                now.day_midnight_nanos@,
            ),
        decreases n - i,
    {
        proof {
            assert(mviews[i as int] == mappings@[i as int]@);
            assert(rviews[i as int] == spec_read_view(read_results@[i as int]));
            assert(mviews.take(i + 1 as int) =~= mviews.take(i as int).push(mviews[i as int]));
            assert(rviews.take(i + 1 as int) =~= rviews.take(i as int).push(rviews[i as int]));
            lemma_spec_cycle_datapoints_push(
                mviews.take(i as int),
                rviews.take(i as int),
                mviews[i as int],
                rviews[i as int],
                inverter_slug@,
                inverter_address@,
                now.day_midnight_nanos@,
            );
        }
        let ghost old_out = out@;
        match process_mapping(
            &mappings[i],
            &read_results[i],
            inverter_slug,
            inverter_address,
            now,
        ) {
            Some(dp) => {
                out.push(dp);
                proof {
                    assert(out@.map_values(|d: Datapoint| d@) =~= old_out.map_values(
                        |d: Datapoint| d@,
                    ) + seq![out@[out@.len() - 1]@]);
                }
            },
            None => {
                proof {
                    assert(out@.map_values(|d: Datapoint| d@) =~= old_out.map_values(
                        |d: Datapoint| d@,
                    ) + Seq::<DatapointView>::empty());
                }
            },
        }
        i += 1;
    }
    proof {
        assert(mviews.take(n as int) =~= mviews);
        assert(rviews.take(n as int) =~= rviews);
    }
    out
}

/// Law: one failed read is isolated.  When the transport failed for
/// mapping `i`, the cycle's datapoints are exactly those of the same
/// cycle without mapping `i` at all: every other mapping's record is
/// still built and none is disturbed.
pub proof fn lemma_read_failure_isolated(
    ms: Seq<MappingView>,
    reads: Seq<Result<Seq<u16>, TransportError>>,
    slug: Seq<char>,
    address: Seq<char>,
    mids: Seq<i64>,
    i: int,
)
    requires
        reads.len() == ms.len(),
        0 <= i < ms.len(),
        reads[i] is Err,
    ensures
        spec_cycle_datapoints(ms, reads, slug, address, mids) == spec_cycle_datapoints(
            ms.remove(i),
            reads.remove(i),
            slug,
            address,
            mids,
        ),
    decreases ms.len(),
{
    if i == 0 {
        assert(spec_process_mapping(ms[0], reads[0], slug, address, mids) is None);
        assert(ms.remove(0) =~= ms.drop_first());
        assert(reads.remove(0) =~= reads.drop_first());
    } else {
        lemma_read_failure_isolated(
            ms.drop_first(),
            reads.drop_first(),
            slug,
            address,
            mids,
            i - 1,
        );
        assert(ms.remove(i)[0] == ms[0]);
        assert(reads.remove(i)[0] == reads[0]);
        assert(ms.remove(i).drop_first() =~= ms.drop_first().remove(i - 1));
        assert(reads.remove(i).drop_first() =~= reads.drop_first().remove(i - 1));
        assert(ms.remove(i).len() >= 1);
    }
}

// ---------------------------------------------------------------------
// The orchestrator's states
// ---------------------------------------------------------------------

/// The two states of the scheduling loop: reading and building, or
/// idling for the configured interval.  The loop never reaches a
/// terminal state; only process termination stops it.
#[derive(Clone, Copy, Debug, PartialEq, Eq, Structural)]
pub enum CycleState {
    Polling,
    Waiting,
}

impl CycleState {
    /// After a finished cycle the orchestrator waits, whatever the
    /// sink reported; after the wait it polls again.
    pub fn next(&self) -> (r: CycleState)
        ensures
            r == match *self {
                CycleState::Polling => CycleState::Waiting,
                CycleState::Waiting => CycleState::Polling,
            },
    {
        match self {
            CycleState::Polling => CycleState::Waiting,
            CycleState::Waiting => CycleState::Polling,
        }
    }
}

} // verus!
