use solaris::convert::{
    try_from_registers, ConversionResult, ConvertError, Fixed2, RefineError,
};
use solaris::inverter_config::{Mapping, Precision, ValueEnum};

fn plain_mapping(data_type: &str) -> Mapping {
    Mapping {
        name: "value".to_string(),
        register_address: 1,
        length: 1,
        data_type: data_type.to_string(),
        precision: None,
        value_enum: None,
        statistic_type: None,
        statistic_pointer: None,
    }
}

#[test]
fn precision_scales_and_truncates_to_two_decimals() {
    let v = ConversionResult::IntResult(2300);
    let r = v.apply_precision(&Precision { mantissa: 1, exponent: 1 });
    assert_eq!(
        r,
        Ok(ConversionResult::FloatResult(Fixed2 { hundredths: 23000 }))
    );

    // 12345 * 0.001 = 12.345, truncated to 12.34
    let v = ConversionResult::IntResult(12345);
    let r = v.apply_precision(&Precision { mantissa: 1, exponent: 3 });
    assert_eq!(
        r,
        Ok(ConversionResult::FloatResult(Fixed2 { hundredths: 1234 }))
    );

    // truncation goes toward zero for negative values
    let v = ConversionResult::IntResult(-12345);
    let r = v.apply_precision(&Precision { mantissa: 1, exponent: 3 });
    assert_eq!(
        r,
        Ok(ConversionResult::FloatResult(Fixed2 { hundredths: -1234 }))
    );

    // 999 * 0.03 = 29.97 exactly
    let v = ConversionResult::IntResult(999);
    let r = v.apply_precision(&Precision { mantissa: 3, exponent: 2 });
    assert_eq!(
        r,
        Ok(ConversionResult::FloatResult(Fixed2 { hundredths: 2997 }))
    );
}

#[test]
fn precision_one_preserves_the_value() {
    let v = ConversionResult::IntResult(7);
    let r = v.apply_precision(&Precision { mantissa: 1, exponent: 0 });
    assert_eq!(
        r,
        Ok(ConversionResult::FloatResult(Fixed2 { hundredths: 700 }))
    );
}

#[test]
fn precision_refuses_non_integer_inputs() {
    let real = ConversionResult::FloatResult(Fixed2 { hundredths: 700 });
    let r = real.apply_precision(&Precision { mantissa: 1, exponent: 0 });
    assert_eq!(r, Err(RefineError::UnsupportedForPrecision));

    let text = ConversionResult::StringResult("7".to_string());
    let r = text.apply_precision(&Precision { mantissa: 1, exponent: 1 });
    assert_eq!(r, Err(RefineError::UnsupportedForPrecision));
}

#[test]
fn enum_resolution_matches_canonical_text() {
    let table = vec![
        ValueEnum { key: "0".to_string(), value: "Off".to_string() },
        ValueEnum { key: "1".to_string(), value: "On".to_string() },
    ];
    let v = ConversionResult::IntResult(1);
    assert_eq!(
        v.resolve_enum(&table),
        Ok(ConversionResult::StringResult("On".to_string()))
    );
    assert_eq!(v.try_resolve_enum(&table), Some("On".to_string()));
}

#[test]
fn enum_resolution_takes_the_first_match() {
    let table = vec![
        ValueEnum { key: "1".to_string(), value: "First".to_string() },
        ValueEnum { key: "1".to_string(), value: "Second".to_string() },
    ];
    let v = ConversionResult::IntResult(1);
    assert_eq!(v.try_resolve_enum(&table), Some("First".to_string()));
}

#[test]
fn unmatched_enum_key_fails_with_no_enum_match() {
    let table = vec![ValueEnum { key: "1".to_string(), value: "On".to_string() }];
    let v = ConversionResult::IntResult(2);
    assert_eq!(
        v.resolve_enum(&table),
        Err(RefineError::NoEnumMatch("2".to_string()))
    );
    assert_eq!(v.try_resolve_enum(&table), None);
}

#[test]
fn try_from_registers_decodes_and_applies_precision() {
    let mut mapping = plain_mapping("u16");
    mapping.name = "voltage".to_string();
    mapping.register_address = 5;
    mapping.precision = Some(Precision { mantissa: 1, exponent: 1 });
    let r = try_from_registers(&mapping, &vec![2300u16]);
    assert_eq!(
        r,
        Ok(ConversionResult::FloatResult(Fixed2 { hundredths: 23000 }))
    );
}

#[test]
fn try_from_registers_resolves_enums() {
    let mut mapping = plain_mapping("u16");
    mapping.value_enum = Some(vec![ValueEnum {
        key: "3".to_string(),
        value: "Standby".to_string(),
    }]);
    let r = try_from_registers(&mapping, &vec![3u16]);
    assert_eq!(r, Ok(ConversionResult::StringResult("Standby".to_string())));
}

#[test]
fn try_from_registers_passes_plain_values_through() {
    let mapping = plain_mapping("i16");
    let r = try_from_registers(&mapping, &vec![0xfffeu16]);
    assert_eq!(r, Ok(ConversionResult::IntResult(-2)));
}

#[test]
fn statistic_zero_is_skipped() {
    let mut mapping = plain_mapping("u16");
    mapping.statistic_type = Some(solaris::inverter_config::StatisticType::Daily);
    let r = try_from_registers(&mapping, &vec![0u16]);
    assert_eq!(r, Err(ConvertError::StatisticZero));

    // a non-zero statistic value passes
    let r = try_from_registers(&mapping, &vec![17u16]);
    assert_eq!(r, Ok(ConversionResult::IntResult(17)));
}

#[test]
fn decode_failure_is_reported_through_try_from_registers() {
    let mapping = plain_mapping("u32");
    let r = try_from_registers(&mapping, &vec![1u16]);
    assert_eq!(
        r,
        Err(ConvertError::Decode(
            solaris::convert::DecodeError::WrongWordCount
        ))
    );
}
