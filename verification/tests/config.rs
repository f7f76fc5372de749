use solaris::app_config::{
    overwrite_app_config_with_environment, parse_u16, parse_u8, AppConfig, EnvOverrides,
    Influxdb2, Inverter, Solaris,
};
use solaris::inverter_config::{
    default_register_length, validate, ConfigError, InverterConfig, Mapping, Precision,
    StatisticMapping, StatisticType, ValueEnum,
};

fn base_config() -> AppConfig {
    AppConfig {
        inverter: Inverter {
            inverter_address: "192.0.2.10".to_string(),
            inverter_port: 502,
            tcp_connect_timeout: 5,
            tcp_read_timeout: 10,
            inverter_modbus_uid: 3,
        },
        influxdb2: Influxdb2 {
            uri: "http://localhost:8086".to_string(),
            org: "home".to_string(),
            bucket: "solar".to_string(),
            token: "example-token".to_string(),
        },
        solaris: Solaris { read_frequency: 30 },
    }
}

fn no_overrides() -> EnvOverrides {
    EnvOverrides {
        inverter_address: None,
        inverter_port: None,
        tcp_connect_timeout: None,
        tcp_read_timeout: None,
        inverter_modbus_uid: None,
        influxdb2_uri: None,
        influxdb2_org: None,
        influxdb2_bucket: None,
        influxdb2_token: None,
        read_frequency: None,
    }
}

#[test]
fn parse_accepts_plain_and_signed_plus_decimals() {
    assert_eq!(parse_u16("123"), Some(123));
    assert_eq!(parse_u16("+7"), Some(7));
    assert_eq!(parse_u16("0"), Some(0));
    assert_eq!(parse_u16("65535"), Some(65535));
    assert_eq!(parse_u8("255"), Some(255));
}

#[test]
fn parse_rejects_garbage_overflow_and_empty() {
    assert_eq!(parse_u16("65536"), None);
    assert_eq!(parse_u16(""), None);
    assert_eq!(parse_u16("+"), None);
    assert_eq!(parse_u16("12a"), None);
    assert_eq!(parse_u16("-1"), None);
    assert_eq!(parse_u16(" 12"), None);
    assert_eq!(parse_u8("256"), None);
    assert_eq!(parse_u16("12\u{fc}"), None);
}

#[test]
fn no_overrides_keep_the_file_values() {
    let mut c = base_config();
    overwrite_app_config_with_environment(&mut c, &no_overrides());
    assert_eq!(c.inverter.inverter_address, "192.0.2.10");
    assert_eq!(c.inverter.inverter_port, 502);
    assert_eq!(c.solaris.read_frequency, 30);
}

#[test]
fn overrides_replace_text_and_parsed_numbers() {
    let mut c = base_config();
    let mut env = no_overrides();
    env.inverter_address = Some("198.51.100.8".to_string());
    env.inverter_port = Some("1502".to_string());
    env.tcp_connect_timeout = Some("+9".to_string());
    env.influxdb2_bucket = Some("solar2".to_string());
    env.read_frequency = Some("60".to_string());
    overwrite_app_config_with_environment(&mut c, &env);
    assert_eq!(c.inverter.inverter_address, "198.51.100.8");
    assert_eq!(c.inverter.inverter_port, 1502);
    assert_eq!(c.inverter.tcp_connect_timeout, 9);
    assert_eq!(c.influxdb2.bucket, "solar2");
    assert_eq!(c.solaris.read_frequency, 60);
    // untouched fields keep their values
    assert_eq!(c.inverter.tcp_read_timeout, 10);
    assert_eq!(c.influxdb2.org, "home");
}

#[test]
fn unparseable_numeric_overrides_keep_the_default() {
    let mut c = base_config();
    let mut env = no_overrides();
    env.inverter_port = Some("not-a-port".to_string());
    env.tcp_read_timeout = Some("99999".to_string());
    overwrite_app_config_with_environment(&mut c, &env);
    assert_eq!(c.inverter.inverter_port, 502);
    assert_eq!(c.inverter.tcp_read_timeout, 10);
}

#[test]
fn register_length_defaults_to_one() {
    assert_eq!(default_register_length(), 1);
}

fn schema_mapping() -> Mapping {
    Mapping {
        name: "voltage".to_string(),
        register_address: 5,
        length: 1,
        data_type: "u16".to_string(),
        precision: None,
        value_enum: None,
        statistic_type: None,
        statistic_pointer: None,
    }
}

fn schema(mappings: Vec<Mapping>, statistics: Vec<StatisticMapping>) -> InverterConfig {
    InverterConfig {
        inverter_slug: "inv".to_string(),
        mappings,
        statistic_mappings: statistics,
    }
}

#[test]
fn a_clean_schema_validates() {
    let c = schema(
        vec![schema_mapping()],
        vec![StatisticMapping {
            name: "yield_daily".to_string(),
            register_address: 200,
            length: 1,
            data_type: "u16".to_string(),
            precision: None,
            statistic_type: Some(StatisticType::Daily),
        }],
    );
    assert_eq!(validate(&c), Ok(()));
}

#[test]
fn precision_and_enum_together_are_rejected() {
    let mut m = schema_mapping();
    m.precision = Some(Precision { mantissa: 1, exponent: 1 });
    m.value_enum = Some(vec![ValueEnum {
        key: "1".to_string(),
        value: "On".to_string(),
    }]);
    let c = schema(vec![m], vec![]);
    assert_eq!(validate(&c), Err(ConfigError::PrecisionAndEnumSet));
}

#[test]
fn address_zero_is_rejected() {
    let mut m = schema_mapping();
    m.register_address = 0;
    let c = schema(vec![m], vec![]);
    assert_eq!(validate(&c), Err(ConfigError::AddressZero));
}

#[test]
fn statistic_block_near_the_address_limit_is_rejected() {
    let c = schema(
        vec![],
        vec![StatisticMapping {
            name: "yield_daily".to_string(),
            register_address: 65530,
            length: 1,
            data_type: "u16".to_string(),
            precision: None,
            statistic_type: Some(StatisticType::Daily),
        }],
    );
    assert_eq!(validate(&c), Err(ConfigError::StatisticAddressRange));
}

#[test]
fn statistic_block_without_recurrence_is_rejected() {
    let c = schema(
        vec![],
        vec![StatisticMapping {
            name: "yield_daily".to_string(),
            register_address: 200,
            length: 1,
            data_type: "u16".to_string(),
            precision: None,
            statistic_type: None,
        }],
    );
    assert_eq!(validate(&c), Err(ConfigError::StatisticTypeMissing));
}
