use solaris::inverter_config::{Precision, StatisticMapping, StatisticType};
use solaris::statistics::{
    current_calendar, expand_statistic_mapping, CalendarTimestamp, ExpandError,
};

fn daily_mapping(base: u16) -> StatisticMapping {
    StatisticMapping {
        name: "yield_daily".to_string(),
        register_address: base,
        length: 1,
        data_type: "u16".to_string(),
        precision: Some(Precision { mantissa: 1, exponent: 1 }),
        statistic_type: Some(StatisticType::Daily),
    }
}

fn calendar(day: u8, seconds_from_midnight: u32) -> CalendarTimestamp {
    let mids: Vec<i64> = (1..=day as i64).map(|d| d * 1_000_000).collect();
    CalendarTimestamp {
        day_of_month: day,
        seconds_from_midnight,
        day_midnight_nanos: mids,
    }
}

#[test]
fn twenty_nine_seconds_before_midnight_skips_the_block() {
    // 86400 - 86371 = 29 seconds until local midnight
    let now = calendar(15, 86371);
    let r = expand_statistic_mapping(&daily_mapping(100), &now);
    assert_eq!(r.unwrap(), vec![]);
}

#[test]
fn thirty_one_seconds_before_midnight_expands_every_day_so_far() {
    // 86400 - 86369 = 31 seconds until local midnight
    let now = calendar(15, 86369);
    let base: u16 = 100;
    let entries = expand_statistic_mapping(&daily_mapping(base), &now).unwrap();
    assert_eq!(entries.len(), 15);
    for (i, e) in entries.iter().enumerate() {
        assert_eq!(e.register_address, base + i as u16);
        assert_eq!(e.statistic_pointer, Some(i as u32 + 1));
        assert_eq!(e.name, "yield_daily");
        assert_eq!(e.length, 1);
        assert_eq!(e.data_type, "u16");
        assert_eq!(e.precision, Some(Precision { mantissa: 1, exponent: 1 }));
        assert_eq!(e.statistic_type, Some(StatisticType::Daily));
        assert_eq!(e.value_enum, None);
    }
    // each expanded day's datapoint is stamped with that day's local
    // midnight
    let reads = entries
        .iter()
        .map(|_| Ok(vec![7u16]))
        .collect::<Vec<Result<Vec<u16>, solaris::cycle::TransportError>>>();
    let dps = solaris::cycle::build_cycle_datapoints(
        &entries,
        &reads,
        &"inv".to_string(),
        &"192.0.2.1".to_string(),
        &now,
    );
    assert_eq!(dps.len(), 15);
    for (i, dp) in dps.iter().enumerate() {
        assert_eq!(dp.timestamp, Some((i as i64 + 1) * 1_000_000));
    }
}

#[test]
fn exactly_thirty_seconds_before_midnight_still_expands() {
    let now = calendar(2, 86370);
    let entries = expand_statistic_mapping(&daily_mapping(7), &now).unwrap();
    assert_eq!(entries.len(), 2);
}

#[test]
fn first_of_month_expands_one_entry() {
    let now = calendar(1, 43200);
    let entries = expand_statistic_mapping(&daily_mapping(300), &now).unwrap();
    assert_eq!(entries.len(), 1);
    assert_eq!(entries[0].register_address, 300);
    assert_eq!(entries[0].statistic_pointer, Some(1));
}

#[test]
fn monthly_recurrence_fails_fast() {
    let mut m = daily_mapping(100);
    m.statistic_type = Some(StatisticType::Monthly);
    let now = calendar(15, 40000);
    let r = expand_statistic_mapping(&m, &now);
    assert_eq!(r, Err(ExpandError::UnimplementedRecurrence));
}

#[test]
fn current_calendar_reads_a_plausible_clock() {
    let c = current_calendar().expect("the local calendar should be readable");
    assert!(1 <= c.day_of_month && c.day_of_month <= 31);
    assert!(c.seconds_from_midnight < 86400);
    assert!(c.day_midnight_nanos.len() >= c.day_of_month as usize);
    // midnights of consecutive days are strictly increasing instants
    for w in c.day_midnight_nanos.windows(2) {
        assert!(w[0] < w[1]);
    }
}
