//! The inverter schema: mapping entries that describe how to read and
//! decode each value from a register range, recurring "statistic"
//! entries, and the validation that a schema must pass before a cycle
//! may use it.

use vstd::prelude::*;

verus! {

/// A decimal scale factor: `mantissa / 10^exponent`.  The schema
/// declares precision as a decimal number, and this exact form keeps
/// precision scaling free of binary floating-point rounding.
#[derive(Clone, Copy, Debug, PartialEq, Eq, Structural)]
pub struct Precision {
    pub mantissa: u32,
    pub exponent: u32,
}

/// One key/label pair of an enum table: a decoded value whose canonical
/// text equals `key` resolves to `value`.
#[derive(Debug, PartialEq, Eq)]
pub struct ValueEnum {
    pub key: String,
    pub value: String,
}

pub struct ValueEnumView {
    pub key: Seq<char>,
    pub value: Seq<char>,
}

impl View for ValueEnum {
    type V = ValueEnumView;

    open spec fn view(&self) -> ValueEnumView {
        ValueEnumView { key: self.key@, value: self.value@ }
    }
}

impl Clone for ValueEnum {
    fn clone(&self) -> (r: Self)
        ensures
            r@ == self@,
    {
        ValueEnum { key: self.key.clone(), value: self.value.clone() }
    }
}

/// The period after which a statistic register block starts over.
#[derive(Clone, Copy, Debug, PartialEq, Eq, Structural)]
pub enum StatisticType {
    Daily,
    Monthly,
}

/// One schema rule: which registers to read and how to decode and
/// refine their value.
#[derive(Debug, PartialEq)]
pub struct Mapping {
    pub name: String,
    pub register_address: u16,
    pub length: u16,
    pub data_type: String,
    pub precision: Option<Precision>,
    pub value_enum: Option<Vec<ValueEnum>>,
    pub statistic_type: Option<StatisticType>,
    pub statistic_pointer: Option<u32>,
}

pub struct MappingView {
    pub name: Seq<char>,
    pub register_address: u16,
    pub length: u16,
    pub data_type: Seq<char>,
    pub precision: Option<Precision>,
    pub value_enum: Option<Seq<ValueEnumView>>,
    pub statistic_type: Option<StatisticType>,
    pub statistic_pointer: Option<u32>,
}

impl View for Mapping {
    type V = MappingView;

    open spec fn view(&self) -> MappingView {
        MappingView {
            name: self.name@,
            register_address: self.register_address,
            length: self.length,
            data_type: self.data_type@,
            precision: self.precision,
            value_enum: match self.value_enum {
                Some(v) => Some(v@.map_values(|e: ValueEnum| e@)),
                None => None,
            },
            statistic_type: self.statistic_type,
            statistic_pointer: self.statistic_pointer,
        }
    }
}

impl Clone for Mapping {
    fn clone(&self) -> (r: Self)
        ensures
            r@ == self@,
    {
        let value_enum: Option<Vec<ValueEnum>> = match &self.value_enum {
            Some(v) => {
                let mut c: Vec<ValueEnum> = Vec::new();
                let n = v.len();
                let mut i: usize = 0;
                while i < n
                    invariant
                        n == v@.len(),
                        i <= n,
                        c@.len() == i,
                        forall|j: int| 0 <= j < i ==> c@[j]@ == v@[j]@,
                    decreases n - i,
                {
                    c.push(v[i].clone());
                    i += 1;
                }
                proof {
                    assert(c@.map_values(|e: ValueEnum| e@) =~= v@.map_values(|e: ValueEnum| e@));
                }
                Some(c)
            },
            None => None,
        };
        let r = Mapping {
            name: self.name.clone(),
            register_address: self.register_address,
            length: self.length,
            data_type: self.data_type.clone(),
            precision: self.precision,
            value_enum,
            statistic_type: self.statistic_type,
            statistic_pointer: self.statistic_pointer,
        };
        proof {
            assert(r@.value_enum == self@.value_enum);
        }
        r
    }
}

/// One recurring schema rule: a register block holding one reading per
/// period, expanded each cycle into plain mappings.
#[derive(Debug, PartialEq)]
pub struct StatisticMapping {
    pub name: String,
    pub register_address: u16,
    pub length: u16,
    pub data_type: String,
    pub precision: Option<Precision>,
    pub statistic_type: Option<StatisticType>,
}

pub struct StatisticMappingView {
    pub name: Seq<char>,
    pub register_address: u16,
    pub length: u16,
    pub data_type: Seq<char>,
    pub precision: Option<Precision>,
    pub statistic_type: Option<StatisticType>,
}

impl View for StatisticMapping {
    type V = StatisticMappingView;

    open spec fn view(&self) -> StatisticMappingView {
        StatisticMappingView {
            name: self.name@,
            register_address: self.register_address,
            length: self.length,
            data_type: self.data_type@,
            precision: self.precision,
            statistic_type: self.statistic_type,
        }
    }
}

impl Clone for StatisticMapping {
    fn clone(&self) -> (r: Self)
        ensures
            r@ == self@,
    {
        StatisticMapping {
            name: self.name.clone(),
            register_address: self.register_address,
            length: self.length,
            data_type: self.data_type.clone(),
            precision: self.precision,
            statistic_type: self.statistic_type,
        }
    }
}

/// A whole inverter schema: the device identity and its mapping rules.
#[derive(Debug)]
pub struct InverterConfig {
    pub inverter_slug: String,
    pub mappings: Vec<Mapping>,
    pub statistic_mappings: Vec<StatisticMapping>,
}

pub struct InverterConfigView {
    pub inverter_slug: Seq<char>,
    pub mappings: Seq<MappingView>,
    pub statistic_mappings: Seq<StatisticMappingView>,
}

impl View for InverterConfig {
    type V = InverterConfigView;

    open spec fn view(&self) -> InverterConfigView {
        InverterConfigView {
            inverter_slug: self.inverter_slug@,
            mappings: self.mappings@.map_values(|m: Mapping| m@),
            statistic_mappings: self.statistic_mappings@.map_values(|m: StatisticMapping| m@),
        }
    }
}

/// The register count a mapping reads when the schema names none.
pub fn default_register_length() -> (r: u16)
    ensures
        r == 1,
{
    1
}

// ---------------------------------------------------------------------
// Schema validation
// ---------------------------------------------------------------------

/// A fault in the schema, found before any cycle runs.  Continuing with
/// such a schema would risk silently wrong data, so startup must abort.
#[derive(Clone, Copy, Debug, PartialEq, Eq, Structural)]
pub enum ConfigError {
    /// A register address below 1: the schema is authored 1-based.
    AddressZero,
    /// Precision and an enum table on the same mapping: the two
    /// refinements exclude each other.
    PrecisionAndEnumSet,
    /// A statistic block whose daily expansion would run past the
    /// largest register address.
    StatisticAddressRange,
    /// A statistic mapping without a recurrence period.
    StatisticTypeMissing,
}

/// The fault of one plain mapping, if any.
pub open spec fn mapping_error(m: MappingView) -> Option<ConfigError> {
    if m.register_address < 1 {
        Some(ConfigError::AddressZero)
    } else if m.precision is Some && m.value_enum is Some {
        Some(ConfigError::PrecisionAndEnumSet)
    } else {
        None
    }
}

/// The fault of one statistic mapping, if any.
pub open spec fn statistic_mapping_error(m: StatisticMappingView) -> Option<ConfigError> {
    if m.register_address < 1 {
        Some(ConfigError::AddressZero)
    } else if m.register_address + 30 > u16::MAX {
        Some(ConfigError::StatisticAddressRange)
    } else if m.statistic_type is None {
        Some(ConfigError::StatisticTypeMissing)
    } else {
        None
    }
}

pub open spec fn first_mapping_error(ms: Seq<MappingView>) -> Option<ConfigError>
    decreases ms.len(),
{
    if ms.len() == 0 {
        None
    } else if mapping_error(ms[0]) is Some {
        mapping_error(ms[0])
    } else {
        first_mapping_error(ms.drop_first())
    }
}

pub open spec fn first_statistic_error(ms: Seq<StatisticMappingView>) -> Option<ConfigError>
    decreases ms.len(),
{
    if ms.len() == 0 {
        None
    } else if statistic_mapping_error(ms[0]) is Some {
        statistic_mapping_error(ms[0])
    } else {
        first_statistic_error(ms.drop_first())
    }
}

/// The first fault of the schema in declaration order: plain mappings
/// first, then statistic mappings.
pub open spec fn config_error(c: InverterConfigView) -> Option<ConfigError> {
    match first_mapping_error(c.mappings) {
        Some(e) => Some(e),
        None => first_statistic_error(c.statistic_mappings),
    }
}

/// A schema free of faults.
pub open spec fn config_valid(c: InverterConfigView) -> bool {
    config_error(c) is None
}

proof fn lemma_first_mapping_error_skip(ms: Seq<MappingView>, i: int)
    requires
        0 <= i <= ms.len(),
        forall|j: int| 0 <= j < i ==> mapping_error(ms[j]) is None,
    ensures
        first_mapping_error(ms) == first_mapping_error(ms.skip(i)),
    decreases i,
{
    if i > 0 {
        lemma_first_mapping_error_skip(ms, i - 1);
        let s = ms.skip(i - 1);
        assert(s.len() == ms.len() - i + 1 >= 1);
        assert(s[0] == ms[i - 1]);
        assert(mapping_error(s[0]) is None);
        assert(first_mapping_error(s) == first_mapping_error(s.drop_first()));
        assert(s.drop_first() =~= ms.skip(i));
    } else {
        assert(ms.skip(0) =~= ms);
    }
}

proof fn lemma_first_statistic_error_skip(ms: Seq<StatisticMappingView>, i: int)
    requires
        0 <= i <= ms.len(),
        forall|j: int| 0 <= j < i ==> statistic_mapping_error(ms[j]) is None,
    ensures
        first_statistic_error(ms) == first_statistic_error(ms.skip(i)),
    decreases i,
{
    if i > 0 {
        lemma_first_statistic_error_skip(ms, i - 1);
        let s = ms.skip(i - 1);
        assert(s.len() == ms.len() - i + 1 >= 1);
        assert(s[0] == ms[i - 1]);
        assert(statistic_mapping_error(s[0]) is None);
        assert(first_statistic_error(s) == first_statistic_error(s.drop_first()));
        assert(s.drop_first() =~= ms.skip(i));
    } else {
        assert(ms.skip(0) =~= ms);
    }
}

/// In a schema whose statistic mappings all pass, each one passes.
pub proof fn lemma_statistic_errors_elementwise(ms: Seq<StatisticMappingView>)
    requires
        first_statistic_error(ms) is None,
    ensures
        forall|i: int| 0 <= i < ms.len() ==> statistic_mapping_error(#[trigger] ms[i]) is None,
    decreases ms.len(),
{
    if ms.len() > 0 {
        lemma_statistic_errors_elementwise(ms.drop_first());
        assert forall|i: int| 0 <= i < ms.len() implies statistic_mapping_error(
            #[trigger] ms[i],
        ) is None by {
            if i > 0 {
                assert(ms.drop_first()[i - 1] == ms[i]);
            }
        }
    }
}

fn validate_mapping(m: &Mapping) -> (r: Option<ConfigError>)
    ensures
        r == mapping_error(m@),
{
    if m.register_address < 1 {
        Some(ConfigError::AddressZero)
    } else if m.precision.is_some() && m.value_enum.is_some() {
        Some(ConfigError::PrecisionAndEnumSet)
    } else {
        None
    }
}

fn validate_statistic_mapping(m: &StatisticMapping) -> (r: Option<ConfigError>)
    ensures
        r == statistic_mapping_error(m@),
{
    if m.register_address < 1 {
        Some(ConfigError::AddressZero)
    } else if m.register_address > u16::MAX - 30 {
        Some(ConfigError::StatisticAddressRange)
    } else if m.statistic_type.is_none() {
        Some(ConfigError::StatisticTypeMissing)
    } else {
        None
    }
}

/// Checks the whole schema, reporting the first fault in declaration
/// order; a schema that passes satisfies `config_valid`.
pub fn validate(config: &InverterConfig) -> (r: Result<(), ConfigError>)
    ensures
        r == match config_error(config@) {
            None => Result::<(), ConfigError>::Ok(()),
            Some(e) => Result::<(), ConfigError>::Err(e),
        },
        r is Ok <==> config_valid(config@),
{
    let ghost mviews = config@.mappings;
    let n = config.mappings.len();
    let mut i: usize = 0;
    while i < n
        invariant
            n == mviews.len(),
            i <= n,
            mviews == config@.mappings,
            config.mappings@.map_values(|m: Mapping| m@) == mviews,
            forall|j: int| 0 <= j < i ==> mapping_error(mviews[j]) is None,
        decreases n - i,
    {
        proof {
            assert(mviews[i as int] == config.mappings@[i as int]@);
        }
        if let Some(e) = validate_mapping(&config.mappings[i]) {
            proof {
                lemma_first_mapping_error_skip(mviews, i as int);
                assert(mviews.skip(i as int)[0] == mviews[i as int]);
            }
            return Err(e);
        }
        i += 1;
    }
    proof {
        lemma_first_mapping_error_skip(mviews, n as int);
        assert(mviews.skip(n as int) =~= Seq::<MappingView>::empty());
    }
    let ghost sviews = config@.statistic_mappings;
    let sn = config.statistic_mappings.len();
    let mut k: usize = 0;
    while k < sn
        invariant
            sn == sviews.len(),
            k <= sn,
            sviews == config@.statistic_mappings,
            config.statistic_mappings@.map_values(|m: StatisticMapping| m@) == sviews,
            first_mapping_error(config@.mappings) is None,
            forall|j: int| 0 <= j < k ==> statistic_mapping_error(sviews[j]) is None,
        decreases sn - k,
    {
        proof {
            assert(sviews[k as int] == config.statistic_mappings@[k as int]@);
        }
        if let Some(e) = validate_statistic_mapping(&config.statistic_mappings[k]) {
            proof {
                lemma_first_statistic_error_skip(sviews, k as int);
                assert(sviews.skip(k as int)[0] == sviews[k as int]);
            }
            return Err(e);
        }
        k += 1;
    }
    proof {
        lemma_first_statistic_error_skip(sviews, sn as int);
        assert(sviews.skip(sn as int) =~= Seq::<StatisticMappingView>::empty());
    }
    Ok(())
}

} // verus!
