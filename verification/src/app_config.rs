//! Run configuration: device, sink and scheduling settings, and the
//! application of environment overrides to the values read from the
//! configuration file.  Reading files and the environment stays
//! outside; this module takes the override texts as plain values.

use vstd::prelude::*;
use vstd::string::StringSliceAdditionalSpecFns;

verus! {

broadcast use vstd::string::is_ascii_spec_bytes;

/// How to reach the inverter over the field protocol.
#[derive(Debug)]
pub struct Inverter {
    pub inverter_address: String,
    pub inverter_port: u16,
    pub tcp_connect_timeout: u8,
    pub tcp_read_timeout: u8,
    pub inverter_modbus_uid: u8,
}

/// How to reach the time-series sink.
#[derive(Debug)]
pub struct Influxdb2 {
    pub uri: String,
    pub org: String,
    pub bucket: String,
    pub token: String,
}

/// The scheduling settings: seconds between two poll cycles.
#[derive(Debug)]
pub struct Solaris {
    pub read_frequency: u16,
}

/// The whole run configuration.
#[derive(Debug)]
pub struct AppConfig {
    pub inverter: Inverter,
    pub influxdb2: Influxdb2,
    pub solaris: Solaris,
}

/// The raw text of each recognized environment override, where the
/// environment sets one.
#[derive(Debug)]
pub struct EnvOverrides {
    pub inverter_address: Option<String>,
    pub inverter_port: Option<String>,
    pub tcp_connect_timeout: Option<String>,
    pub tcp_read_timeout: Option<String>,
    pub inverter_modbus_uid: Option<String>,
    pub influxdb2_uri: Option<String>,
    pub influxdb2_org: Option<String>,
    pub influxdb2_bucket: Option<String>,
    pub influxdb2_token: Option<String>,
    pub read_frequency: Option<String>,
}

// ---------------------------------------------------------------------
// Decimal parsing of override text
// ---------------------------------------------------------------------

pub open spec fn is_digit_char(c: char) -> bool {
    '0' <= c <= '9'
}

/// A nonempty run of decimal digits.
pub open spec fn spec_digits(s: Seq<char>) -> bool {
    s.len() > 0 && forall|i: int| 0 <= i < s.len() ==> is_digit_char(#[trigger] s[i])
}

/// The value of a digit run, most significant digit first.
pub open spec fn spec_digits_value(s: Seq<char>) -> int
    decreases s.len(),
{
    if s.len() == 0 {
        0
    } else {
        spec_digits_value(s.drop_last()) * 10 + (s.last() as int - 48)
    }
}

/// An unsigned decimal number as override text accepts it: optionally
/// a leading `+`, then one or more digits, with a value of at most
/// `max`.
pub open spec fn spec_parse_uint(s: Seq<char>, max: int) -> Option<int> {
    let digits = if s.len() >= 1 && s[0] == '+' {
        s.drop_first()
    } else {
        s
    };
    if spec_digits(digits) && spec_digits_value(digits) <= max {
        Some(spec_digits_value(digits))
    } else {
        None
    }
}

proof fn lemma_digits_value_nonneg(s: Seq<char>)
    requires
        forall|i: int| 0 <= i < s.len() ==> is_digit_char(#[trigger] s[i]),
    ensures
        spec_digits_value(s) >= 0,
    decreases s.len(),
{
    if s.len() > 0 {
        assert(forall|i: int|
            0 <= i < s.drop_last().len() ==> is_digit_char(#[trigger] s.drop_last()[i]));
        lemma_digits_value_nonneg(s.drop_last());
    }
}

proof fn lemma_digits_value_prefix_le(s: Seq<char>, k: int)
    requires
        0 <= k <= s.len(),
        forall|i: int| 0 <= i < s.len() ==> is_digit_char(#[trigger] s[i]),
    ensures
        spec_digits_value(s.take(k)) <= spec_digits_value(s),
    decreases s.len() - k,
{
    if k < s.len() {
        lemma_digits_value_prefix_le(s, k + 1);
        let t = s.take(k + 1);
        assert(t.drop_last() =~= s.take(k));
        assert(t.last() == s[k]);
        assert(forall|i: int| 0 <= i < s.take(k).len() ==> is_digit_char(#[trigger] s.take(k)[i]));
        lemma_digits_value_nonneg(s.take(k));
        assert(spec_digits_value(t) == spec_digits_value(s.take(k)) * 10 + (s[k] as int - 48));
        assert(spec_digits_value(s.take(k)) <= spec_digits_value(s.take(k)) * 10) by (nonlinear_arith)
            requires
                spec_digits_value(s.take(k)) >= 0,
        ;
    } else {
        assert(s.take(k) =~= s);
    }
}

/// Parses an unsigned decimal with the given maximum, as environment
/// override text: an optional leading `+`, then digits.
fn parse_uint(s: &str, max: u64) -> (r: Option<u64>)
    requires
        max <= 0xffff_ffff,
    ensures
        match r {
            Some(v) => spec_parse_uint(s@, max as int) == Some(v as int),
            None => spec_parse_uint(s@, max as int) is None,
        },
{
    let ghost chars = s@;
    if !s.is_ascii() {
        proof {
            let i = choose|i: int|
                0 <= i < chars.len() && !('\0' <= #[trigger] chars[i] <= '\u{7f}');
            let digits = if chars.len() >= 1 && chars[0] == '+' {
                chars.drop_first()
            } else {
                chars
            };
            if chars.len() >= 1 && chars[0] == '+' {
                assert(digits[i - 1] == chars[i]);
                assert(!is_digit_char(digits[i - 1]));
            } else {
                assert(!is_digit_char(digits[i]));
            }
        }
        return None;
    }
    let bs = s.as_bytes();
    let n = bs.len();
    proof {
        assert(bs@ =~= Seq::new(chars.len(), |i: int| chars[i] as u8));
        assert forall|i: int| 0 <= i < chars.len() implies (#[trigger] chars[i]) as int == bs@[i] as int by {
            assert('\0' <= chars[i] <= '\u{7f}');
        }
    }
    let start: usize = if n >= 1 && bs[0] == 0x2b {
        1
    } else {
        0
    };
    let ghost digits = if chars.len() >= 1 && chars[0] == '+' {
        chars.drop_first()
    } else {
        chars
    };
    proof {
        assert(digits =~= chars.subrange(start as int, n as int));
    }
    if start >= n {
        proof {
            assert(digits.len() == 0);
            assert(!spec_digits(digits));
        }
        return None;
    }
    proof {
        assert(chars.subrange(start as int, start as int) =~= Seq::<char>::empty());
        assert(spec_digits_value(Seq::<char>::empty()) == 0);
    }
    let mut acc: u64 = 0;
    let mut i: usize = start;
    while i < n
        invariant
            chars == s@,
            start < n,
            start <= i <= n,
            n == chars.len(),
            n == bs@.len(),
            max <= 0xffff_ffff,
            digits == (if chars.len() >= 1 && chars[0] == '+' {
                chars.drop_first()
            } else {
                chars
            }),
            digits =~= chars.subrange(start as int, n as int),
            forall|j: int| 0 <= j < n ==> (#[trigger] chars[j]) as int == bs@[j] as int,
            forall|j: int| start <= j < i ==> is_digit_char(#[trigger] chars[j]),
            acc <= max,
            acc == spec_digits_value(chars.subrange(start as int, i as int)),
        decreases n - i,
    {
        let b = bs[i];
        if b < 0x30 || b > 0x39 {
            proof {
                assert(chars[i as int] as int == b as int);
                assert(!is_digit_char(chars[i as int]));
                assert(digits[i - start] == chars[i as int]);
                assert(!spec_digits(digits));
                assert(spec_parse_uint(chars, max as int) is None);
            }
            return None;
        }
        let d = (b - 0x30) as u64;
        proof {
            assert(chars.subrange(start as int, i + 1 as int).drop_last() =~= chars.subrange(
                start as int,
                i as int,
            ));
            assert(chars.subrange(start as int, i + 1 as int).last() == chars[i as int]);
        }
        let next = acc * 10 + d;
        if next > max {
            proof {
                let upto = chars.subrange(start as int, i + 1 as int);
                assert(spec_digits_value(upto) == next);
                if spec_digits(digits) {
                    assert(digits.take(i + 1 - start as int) =~= upto);
                    lemma_digits_value_prefix_le(digits, i + 1 - start as int);
                }
            }
            return None;
        }
        acc = next;
        i += 1;
    }
    proof {
        assert(chars.subrange(start as int, n as int) =~= digits);
        assert(spec_digits(digits));
    }
    Some(acc)
}

/// Parses a `u16` override value.
pub fn parse_u16(s: &str) -> (r: Option<u16>)
    ensures
        match r {
            Some(v) => spec_parse_uint(s@, u16::MAX as int) == Some(v as int),
            None => spec_parse_uint(s@, u16::MAX as int) is None,
        },
{
    match parse_uint(s, 65535) {
        Some(v) => Some(v as u16),
        None => None,
    }
}

/// Parses a `u8` override value.
pub fn parse_u8(s: &str) -> (r: Option<u8>)
    ensures
        match r {
            Some(v) => spec_parse_uint(s@, u8::MAX as int) == Some(v as int),
            None => spec_parse_uint(s@, u8::MAX as int) is None,
        },
{
    match parse_uint(s, 255) {
        Some(v) => Some(v as u8),
        None => None,
    }
}

// ---------------------------------------------------------------------
// Applying overrides
// ---------------------------------------------------------------------

/// A text setting after its override: the override text when one is
/// set, else the configured value.
pub open spec fn spec_override_string(cur: Seq<char>, ov: Option<String>) -> Seq<char> {
    match ov {
        Some(s) => s@,
        None => cur,
    }
}

/// A `u16` setting after its override: the parsed override when it is
/// set and parses, else the configured value.
pub open spec fn spec_override_u16(cur: u16, ov: Option<String>) -> u16 {
    match ov {
        Some(s) => match spec_parse_uint(s@, u16::MAX as int) {
            Some(v) => v as u16,
            None => cur,
        },
        None => cur,
    }
}

/// A `u8` setting after its override.
pub open spec fn spec_override_u8(cur: u8, ov: Option<String>) -> u8 {
    match ov {
        Some(s) => match spec_parse_uint(s@, u8::MAX as int) {
            Some(v) => v as u8,
            None => cur,
        },
        None => cur,
    }
}

/// Applies every recognized environment override to the configuration
/// read from file: text settings are replaced verbatim, numeric ones
/// only where the override text parses; everything else keeps its
/// configured value.
#[verifier::rlimit(100)]
pub fn overwrite_app_config_with_environment(
    app_config: &mut AppConfig,
    environment: &EnvOverrides,
)
    ensures
        final (app_config).inverter.inverter_address@ == spec_override_string(
            old(app_config).inverter.inverter_address@,
            environment.inverter_address,
        ),
        final (app_config).inverter.inverter_port == spec_override_u16(
            old(app_config).inverter.inverter_port,
            environment.inverter_port,
        ),
        final (app_config).inverter.tcp_connect_timeout == spec_override_u8(
            old(app_config).inverter.tcp_connect_timeout,
            environment.tcp_connect_timeout,
        ),
        final (app_config).inverter.tcp_read_timeout == spec_override_u8(
            old(app_config).inverter.tcp_read_timeout,
            environment.tcp_read_timeout,
        ),
        final (app_config).inverter.inverter_modbus_uid == spec_override_u8(
            old(app_config).inverter.inverter_modbus_uid,
            environment.inverter_modbus_uid,
        ),
        final (app_config).influxdb2.uri@ == spec_override_string(
            old(app_config).influxdb2.uri@,
            environment.influxdb2_uri,
        ),
        final (app_config).influxdb2.org@ == spec_override_string(
            old(app_config).influxdb2.org@,
            environment.influxdb2_org,
        ),
        final (app_config).influxdb2.bucket@ == spec_override_string(
            old(app_config).influxdb2.bucket@,
            environment.influxdb2_bucket,
        ),
        final (app_config).influxdb2.token@ == spec_override_string(
            old(app_config).influxdb2.token@,
            environment.influxdb2_token,
        ),
        final (app_config).solaris.read_frequency == spec_override_u16(
            old(app_config).solaris.read_frequency,
            environment.read_frequency,
        ),
{
    if let Some(s) = &environment.inverter_address {
        app_config.inverter.inverter_address = s.clone();
    }
    if let Some(s) = &environment.inverter_port {
        if let Some(v) = parse_u16(s.as_str()) {
            app_config.inverter.inverter_port = v;
        }
    }
    if let Some(s) = &environment.tcp_connect_timeout {
        if let Some(v) = parse_u8(s.as_str()) {
            app_config.inverter.tcp_connect_timeout = v;
        }
    }
    if let Some(s) = &environment.tcp_read_timeout {
        if let Some(v) = parse_u8(s.as_str()) {
            app_config.inverter.tcp_read_timeout = v;
        }
    }
    if let Some(s) = &environment.inverter_modbus_uid {
        if let Some(v) = parse_u8(s.as_str()) {
            app_config.inverter.inverter_modbus_uid = v;
        }
    }
    if let Some(s) = &environment.influxdb2_uri {
        app_config.influxdb2.uri = s.clone();
    }
    if let Some(s) = &environment.influxdb2_org {
        app_config.influxdb2.org = s.clone();
    }
    if let Some(s) = &environment.influxdb2_bucket {
        app_config.influxdb2.bucket = s.clone();
    }
    if let Some(s) = &environment.influxdb2_token {
        app_config.influxdb2.token = s.clone();
    }
    if let Some(s) = &environment.read_frequency {
        if let Some(v) = parse_u16(s.as_str()) {
            app_config.solaris.read_frequency = v;
        }
    }
}

} // verus!
