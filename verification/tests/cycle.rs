use solaris::convert::{ConversionResult, Fixed2};
use solaris::cycle::{
    build_cycle_datapoints, build_datapoint, build_work_list, read_request, CycleState,
    TransportError,
};
use solaris::inverter_config::{
    validate, InverterConfig, Mapping, Precision, StatisticMapping, StatisticType,
};
use solaris::statistics::CalendarTimestamp;

fn mapping(name: &str, address: u16, length: u16, data_type: &str) -> Mapping {
    Mapping {
        name: name.to_string(),
        register_address: address,
        length,
        data_type: data_type.to_string(),
        precision: None,
        value_enum: None,
        statistic_type: None,
        statistic_pointer: None,
    }
}

fn calendar(day: u8, seconds_from_midnight: u32) -> CalendarTimestamp {
    let mids: Vec<i64> = (1..=day as i64).map(|d| d * 86_400_000_000_000).collect();
    CalendarTimestamp {
        day_of_month: day,
        seconds_from_midnight,
        day_midnight_nanos: mids,
    }
}

#[test]
fn read_request_converts_to_protocol_addressing() {
    let m = mapping("voltage", 5, 1, "u16");
    assert_eq!(read_request(&m), (4, 1));
}

#[test]
fn datapoint_carries_identity_field_and_no_timestamp() {
    let m = mapping("voltage", 5, 1, "u16");
    let now = calendar(15, 40000);
    let dp = build_datapoint(
        &ConversionResult::FloatResult(Fixed2 { hundredths: 23000 }),
        &m,
        &"SolarInverter".to_string(),
        &"192.0.2.7".to_string(),
        &now,
    )
    .unwrap();
    assert_eq!(dp.measurement, "solar_inverter");
    assert_eq!(
        dp.tags,
        vec![
            ("inverter".to_string(), "SolarInverter".to_string()),
            ("ip_address".to_string(), "192.0.2.7".to_string()),
        ]
    );
    assert_eq!(dp.field_name, "voltage");
    assert_eq!(
        dp.field_value,
        ConversionResult::FloatResult(Fixed2 { hundredths: 23000 })
    );
    assert_eq!(dp.timestamp, None);
}

#[test]
fn statistic_datapoint_carries_its_days_midnight() {
    let mut m = mapping("yield_daily", 102, 1, "u16");
    m.statistic_type = Some(StatisticType::Daily);
    m.statistic_pointer = Some(3);
    let now = calendar(15, 40000);
    let dp = build_datapoint(
        &ConversionResult::IntResult(55),
        &m,
        &"inv".to_string(),
        &"203.0.113.9".to_string(),
        &now,
    )
    .unwrap();
    assert_eq!(dp.timestamp, Some(3 * 86_400_000_000_000));
}

#[test]
fn one_failed_read_does_not_stop_the_others() {
    let mappings = vec![
        mapping("a", 1, 1, "u16"),
        mapping("b", 2, 1, "u16"),
        mapping("c", 3, 1, "u16"),
    ];
    let reads: Vec<Result<Vec<u16>, TransportError>> = vec![
        Ok(vec![10]),
        Err(TransportError::ReadFailed),
        Ok(vec![30]),
    ];
    let now = calendar(1, 40000);
    let dps = build_cycle_datapoints(
        &mappings,
        &reads,
        &"inv".to_string(),
        &"198.51.100.2".to_string(),
        &now,
    );
    assert_eq!(dps.len(), 2);
    assert_eq!(dps[0].field_name, "a");
    assert_eq!(dps[0].field_value, ConversionResult::IntResult(10));
    assert_eq!(dps[1].field_name, "c");
    assert_eq!(dps[1].field_value, ConversionResult::IntResult(30));
}

#[test]
fn voltage_scenario_end_to_end() {
    let mut m = mapping("voltage", 5, 1, "u16");
    m.precision = Some(Precision { mantissa: 1, exponent: 1 });
    assert_eq!(read_request(&m), (4, 1));
    let reads: Vec<Result<Vec<u16>, TransportError>> = vec![Ok(vec![2300])];
    let now = calendar(8, 40000);
    let dps = build_cycle_datapoints(
        &vec![m],
        &reads,
        &"inv".to_string(),
        &"192.0.2.1".to_string(),
        &now,
    );
    assert_eq!(dps.len(), 1);
    assert_eq!(dps[0].field_name, "voltage");
    assert_eq!(
        dps[0].field_value,
        ConversionResult::FloatResult(Fixed2 { hundredths: 23000 })
    );
    assert_eq!(dps[0].timestamp, None);
}

#[test]
fn string_scenario_end_to_end() {
    let m = mapping("model", 1, 2, "string");
    let reads: Vec<Result<Vec<u16>, TransportError>> = vec![Ok(vec![0x4142, 0x4300])];
    let now = calendar(8, 40000);
    let dps = build_cycle_datapoints(
        &vec![m],
        &reads,
        &"inv".to_string(),
        &"192.0.2.1".to_string(),
        &now,
    );
    assert_eq!(dps.len(), 1);
    assert_eq!(
        dps[0].field_value,
        ConversionResult::StringResult("ABC".to_string())
    );
}

#[test]
fn work_list_keeps_schema_order_and_appends_expansions() {
    let config = InverterConfig {
        inverter_slug: "inv".to_string(),
        mappings: vec![mapping("voltage", 5, 1, "u16")],
        statistic_mappings: vec![StatisticMapping {
            name: "yield_daily".to_string(),
            register_address: 200,
            length: 1,
            data_type: "u16".to_string(),
            precision: None,
            statistic_type: Some(StatisticType::Daily),
        }],
    };
    assert!(validate(&config).is_ok());
    let now = calendar(3, 40000);
    let work = build_work_list(&config, &now).unwrap();
    assert_eq!(work.len(), 4);
    assert_eq!(work[0].name, "voltage");
    assert_eq!(work[1].register_address, 200);
    assert_eq!(work[1].statistic_pointer, Some(1));
    assert_eq!(work[2].register_address, 201);
    assert_eq!(work[2].statistic_pointer, Some(2));
    assert_eq!(work[3].register_address, 202);
    assert_eq!(work[3].statistic_pointer, Some(3));
}

#[test]
fn cycle_states_alternate() {
    assert_eq!(CycleState::Polling.next(), CycleState::Waiting);
    assert_eq!(CycleState::Waiting.next(), CycleState::Polling);
}
