use solaris::convert::{
    decode_registers, Convert, ConversionResult, DecodeError, Fixed2,
};

#[test]
fn u16_decodes_unsigned() {
    let r = decode_registers(&vec![2300u16], "u16");
    assert_eq!(r, Ok(ConversionResult::IntResult(2300)));
}

#[test]
fn u16_ignores_extra_words() {
    let r = decode_registers(&vec![7u16, 9999u16], "u16");
    assert_eq!(r, Ok(ConversionResult::IntResult(7)));
}

#[test]
fn i16_decodes_twos_complement() {
    assert_eq!(
        decode_registers(&vec![0xffffu16], "i16"),
        Ok(ConversionResult::IntResult(-1))
    );
    assert_eq!(
        decode_registers(&vec![0x8000u16], "i16"),
        Ok(ConversionResult::IntResult(-32768))
    );
    assert_eq!(
        decode_registers(&vec![0x7fffu16], "i16"),
        Ok(ConversionResult::IntResult(32767))
    );
}

#[test]
fn u32_decodes_big_endian_pairs() {
    assert_eq!(
        decode_registers(&vec![0x0001u16, 0x0000u16], "u32"),
        Ok(ConversionResult::IntResult(65536))
    );
    assert_eq!(
        decode_registers(&vec![0xffffu16, 0xffffu16], "u32"),
        Ok(ConversionResult::IntResult(4294967295))
    );
}

#[test]
fn i32_decodes_twos_complement() {
    assert_eq!(
        decode_registers(&vec![0xffffu16, 0xffffu16], "i32"),
        Ok(ConversionResult::IntResult(-1))
    );
    assert_eq!(
        decode_registers(&vec![0x8000u16, 0x0000u16], "i32"),
        Ok(ConversionResult::IntResult(-2147483648))
    );
}

#[test]
fn u32_with_one_word_is_wrong_word_count() {
    assert_eq!(
        decode_registers(&vec![5u16], "u32"),
        Err(DecodeError::WrongWordCount)
    );
    assert_eq!(
        decode_registers(&vec![5u16], "i32"),
        Err(DecodeError::WrongWordCount)
    );
}

#[test]
fn empty_words_are_wrong_word_count_for_integers() {
    assert_eq!(
        decode_registers(&vec![], "u16"),
        Err(DecodeError::WrongWordCount)
    );
    assert_eq!(
        decode_registers(&vec![], "i16"),
        Err(DecodeError::WrongWordCount)
    );
}

#[test]
fn unknown_tag_is_reported_with_the_tag() {
    assert_eq!(
        decode_registers(&vec![1u16], "f32"),
        Err(DecodeError::UnknownType("f32".to_string()))
    );
}

#[test]
fn string_decodes_big_endian_bytes_and_trims_trailing_nul() {
    let r = decode_registers(&vec![0x4142u16, 0x4300u16], "string");
    assert_eq!(r, Ok(ConversionResult::StringResult("ABC".to_string())));
}

#[test]
fn string_trims_whitespace_on_both_ends() {
    let r = decode_registers(&vec![0x2041u16, 0x2020u16], "string");
    assert_eq!(r, Ok(ConversionResult::StringResult("A".to_string())));
}

#[test]
fn string_replaces_invalid_utf8() {
    let r = decode_registers(&vec![0xffffu16], "string");
    assert_eq!(
        r,
        Ok(ConversionResult::StringResult("\u{fffd}\u{fffd}".to_string()))
    );
}

#[test]
fn hex_encodes_lowercase_two_digits_per_byte() {
    let r = decode_registers(&vec![0x0102u16, 0xabcdu16], "hex");
    assert_eq!(r, Ok(ConversionResult::StringResult("0102abcd".to_string())));
}

#[test]
fn hex_of_no_words_is_empty() {
    let r = decode_registers(&vec![], "hex");
    assert_eq!(r, Ok(ConversionResult::StringResult(String::new())));
}

#[test]
fn convert_trait_serves_text_and_integer_targets() {
    let words: Vec<u16> = vec![0x4142, 0x4300];
    let s: Result<String, String> = words.try_into_human_readable("string");
    assert_eq!(s, Ok("ABC".to_string()));

    let words: Vec<u16> = vec![1234];
    let v: Result<i64, String> = words.try_into_human_readable("u16");
    assert_eq!(v, Ok(1234));

    let words: Vec<u16> = vec![1234];
    let v: Result<i64, String> = words.try_into_human_readable("string");
    assert!(v.is_err());
}

#[test]
fn canonical_text_forms() {
    assert_eq!(ConversionResult::IntResult(-42).to_string(), "-42");
    assert_eq!(ConversionResult::IntResult(0).to_string(), "0");
    assert_eq!(
        ConversionResult::StringResult("on".to_string()).to_string(),
        "on"
    );
    assert_eq!(ConversionResult::BooleanResult(true).to_string(), "true");
    assert_eq!(ConversionResult::BooleanResult(false).to_string(), "false");
    assert_eq!(
        ConversionResult::FloatResult(Fixed2 { hundredths: 23000 }).to_string(),
        "230"
    );
    assert_eq!(
        ConversionResult::FloatResult(Fixed2 { hundredths: 2305 }).to_string(),
        "23.05"
    );
    assert_eq!(
        ConversionResult::FloatResult(Fixed2 { hundredths: 2350 }).to_string(),
        "23.5"
    );
    assert_eq!(
        ConversionResult::FloatResult(Fixed2 { hundredths: -50 }).to_string(),
        "-0.5"
    );
}
