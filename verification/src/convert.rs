//! Decoding of raw 16-bit register words into typed values, and the
//! schema-driven post-processing of those values (precision scaling and
//! enum resolution).

use vstd::prelude::*;
use crate::inverter_config::{Mapping, MappingView, Precision, ValueEnum, ValueEnumView};
use vstd::string::StringSliceAdditionalSpecFns;
use vstd::utf8::{decode_utf8, encode_utf8, valid_utf8};

verus! {

broadcast use vstd::utf8::encode_utf8_decode_utf8;

// ---------------------------------------------------------------------
// Decoded values
// ---------------------------------------------------------------------

/// A real number carried as its value scaled by 100, so that it has
/// exactly two decimal digits.  Precision scaling truncates its result
/// to two decimal digits, and this fixed-point form carries such a
/// result exactly, where a binary floating-point number could not.
#[derive(Clone, Copy, Debug, PartialEq, Eq, Structural)]
pub struct Fixed2 {
    pub hundredths: i128,
}

/// A value decoded from register words: text, a 64-bit signed integer,
/// a two-decimal real, or a boolean.
#[derive(Debug, PartialEq)]
pub enum ConversionResult {
    StringResult(String),
    IntResult(i64),
    FloatResult(Fixed2),
    BooleanResult(bool),
}

impl Clone for ConversionResult {
    fn clone(&self) -> (r: Self)
        ensures
            r@ == self@,
    {
        match self {
            ConversionResult::StringResult(s) => ConversionResult::StringResult(s.clone()),
            ConversionResult::IntResult(v) => ConversionResult::IntResult(*v),
            ConversionResult::FloatResult(f) => ConversionResult::FloatResult(*f),
            ConversionResult::BooleanResult(b) => ConversionResult::BooleanResult(*b),
        }
    }
}

/// The mathematical reading of a `ConversionResult`.
pub enum DecodedView {
    Text(Seq<char>),
    Integer(int),
    /// The two-decimal value scaled by 100.
    Real(int),
    Boolean(bool),
}

impl View for ConversionResult {
    type V = DecodedView;

    open spec fn view(&self) -> DecodedView {
        match self {
            ConversionResult::StringResult(s) => DecodedView::Text(s@),
            ConversionResult::IntResult(i) => DecodedView::Integer(*i as int),
            ConversionResult::FloatResult(f) => DecodedView::Real(f.hundredths as int),
            ConversionResult::BooleanResult(b) => DecodedView::Boolean(*b),
        }
    }
}

// ---------------------------------------------------------------------
// Errors
// ---------------------------------------------------------------------

/// Decoding failure: the words do not fit the type tag, or the tag is
/// not one of the defined tags.
#[derive(Clone, Debug, PartialEq, Eq)]
pub enum DecodeError {
    /// Too few words were supplied for the type tag.
    WrongWordCount,
    /// The type tag is not one of the defined tags; carries the tag.
    UnknownType(String),
}

pub enum DecodeErrorView {
    WrongWordCount,
    UnknownType(Seq<char>),
}

impl View for DecodeError {
    type V = DecodeErrorView;

    open spec fn view(&self) -> DecodeErrorView {
        match self {
            DecodeError::WrongWordCount => DecodeErrorView::WrongWordCount,
            DecodeError::UnknownType(s) => DecodeErrorView::UnknownType(s@),
        }
    }
}

// ---------------------------------------------------------------------
// Word-level readings
// ---------------------------------------------------------------------

/// The unsigned reading of one word.
pub open spec fn u16_of_word(w: u16) -> int {
    w as int
}

/// The two's-complement signed reading of one word: the unique value in
/// [-0x8000, 0x7fff] congruent to the word modulo 0x10000.
pub open spec fn i16_of_word(w: u16) -> int {
    if w < 0x8000 {
        w as int
    } else {
        w - 0x10000
    }
}

/// The unsigned big-endian reassembly of two words.
pub open spec fn u32_of_words(w0: u16, w1: u16) -> int {
    w0 * 0x10000 + w1
}

/// The two's-complement signed reading of two big-endian words: the
/// unique value in [-0x8000_0000, 0x7fff_ffff] congruent to the
/// unsigned reassembly modulo 0x1_0000_0000.
pub open spec fn i32_of_words(w0: u16, w1: u16) -> int {
    if u32_of_words(w0, w1) < 0x8000_0000 {
        u32_of_words(w0, w1)
    } else {
        u32_of_words(w0, w1) - 0x1_0000_0000
    }
}

/// Each word as two big-endian bytes, concatenated in word order.
pub open spec fn be_bytes_of_words(words: Seq<u16>) -> Seq<u8>
    decreases words.len(),
{
    if words.len() == 0 {
        Seq::empty()
    } else {
        seq![(words[0] / 0x100) as u8, (words[0] % 0x100) as u8] + be_bytes_of_words(
            words.drop_first(),
        )
    }
}

// ---------------------------------------------------------------------
// String equality on views
// ---------------------------------------------------------------------

/// Compares two strings; the result states equality of their views.
pub fn str_eq(a: &str, b: &str) -> (r: bool)
    ensures
        r == (a@ == b@),
{
    let ab = a.as_bytes();
    let bb = b.as_bytes();
    if ab.len() != bb.len() {
        proof {
            assert(a@ != b@) by {
                if a@ == b@ {
                    assert(a.spec_bytes() == b.spec_bytes());
                }
            }
        }
        return false;
    }
    let n = ab.len();
    let mut i: usize = 0;
    while i < n
        invariant
            n == ab@.len() == bb@.len(),
            i <= n,
            ab@ == a.spec_bytes(),
            bb@ == b.spec_bytes(),
            forall|j: int| 0 <= j < i ==> ab@[j] == bb@[j],
        decreases n - i,
    {
        if ab[i] != bb[i] {
            proof {
                assert(a.spec_bytes() != b.spec_bytes());
                assert(a@ != b@) by {
                    if a@ == b@ {
                        assert(a.spec_bytes() == b.spec_bytes());
                    }
                }
            }
            return false;
        }
        i += 1;
    }
    proof {
        assert(a.spec_bytes() =~= b.spec_bytes());
        assert(decode_utf8(encode_utf8(a@)) == decode_utf8(encode_utf8(b@)));
    }
    true
}

// ---------------------------------------------------------------------
// Decimal and hexadecimal text
// ---------------------------------------------------------------------

/// The character of one decimal digit.
pub open spec fn dec_digit(d: int) -> char {
    if d == 0 {
        '0'
    } else if d == 1 {
        '1'
    } else if d == 2 {
        '2'
    } else if d == 3 {
        '3'
    } else if d == 4 {
        '4'
    } else if d == 5 {
        '5'
    } else if d == 6 {
        '6'
    } else if d == 7 {
        '7'
    } else if d == 8 {
        '8'
    } else {
        '9'
    }
}

/// The decimal digits of a nonnegative value, most significant first,
/// without leading zeros (a single `0` for zero).
pub open spec fn dec_str_nat(n: int) -> Seq<char>
    recommends
        n >= 0,
    decreases n,
{
    if n < 10 {
        seq![dec_digit(n)]
    } else {
        dec_str_nat(n / 10) + seq![dec_digit(n % 10)]
    }
}

/// The decimal text of a signed value: a `-` sign when negative, then
/// the digits of its magnitude.
pub open spec fn dec_str_int(v: int) -> Seq<char> {
    if v < 0 {
        seq!['-'] + dec_str_nat(-v)
    } else {
        dec_str_nat(v)
    }
}

/// The character of one hexadecimal digit, lowercase.
pub open spec fn hex_digit(d: int) -> char {
    if d < 10 {
        dec_digit(d)
    } else if d == 10 {
        'a'
    } else if d == 11 {
        'b'
    } else if d == 12 {
        'c'
    } else if d == 13 {
        'd'
    } else if d == 14 {
        'e'
    } else {
        'f'
    }
}

/// Two lowercase hexadecimal digits for each byte, high nibble first,
/// in byte order.
pub open spec fn hex_str_of(bytes: Seq<u8>) -> Seq<char>
    decreases bytes.len(),
{
    if bytes.len() == 0 {
        Seq::empty()
    } else {
        seq![hex_digit(bytes[0] as int / 16), hex_digit(bytes[0] as int % 16)] + hex_str_of(
            bytes.drop_first(),
        )
    }
}

/// Relies on `hex::encode`: two lowercase hexadecimal digits for each
/// byte, high nibble first, in byte order.
#[verifier::external_body]
fn encode_hex(bytes: &Vec<u8>) -> (r: String)
    ensures
        r@ == hex_str_of(bytes@),
{
    hex::encode(bytes)
}

/// The characters of a digit sequence read back to front.
spec fn rev_digit_chars(ds: Seq<u8>) -> Seq<char> {
    Seq::new(ds.len(), |j: int| dec_digit(ds[ds.len() - 1 - j] as int))
}

/// Renders a nonnegative value as its decimal digits.
fn nat_to_decimal_string(n: u128) -> (r: String)
    ensures
        r@ == dec_str_nat(n as int),
{
    let mut rev_digits: Vec<u8> = Vec::new();
    let mut m: u128 = n;
    while m >= 10
        invariant
            forall|j: int| 0 <= j < rev_digits@.len() ==> #[trigger] rev_digits@[j] < 10,
            dec_str_nat(n as int) == dec_str_nat(m as int) + rev_digit_chars(rev_digits@),
        decreases m,
    {
        let d = (m % 10) as u8;
        let ghost old_rev = rev_digits@;
        rev_digits.push(d);
        proof {
            assert(dec_str_nat(m as int) == dec_str_nat(m as int / 10) + seq![
                dec_digit(m as int % 10),
            ]);
            assert(rev_digit_chars(rev_digits@) =~= seq![dec_digit(d as int)] + rev_digit_chars(
                old_rev,
            ));
            assert((dec_str_nat(m as int / 10) + seq![dec_digit(m as int % 10)])
                + rev_digit_chars(old_rev) =~= dec_str_nat(m as int / 10) + (seq![
                dec_digit(m as int % 10),
            ] + rev_digit_chars(old_rev)));
        }
        m = m / 10;
    }
    let ghost tail = rev_digit_chars(rev_digits@);
    let mut r = String::new();
    r.append(digit_str(m as u8));
    proof {
        assert(r@ =~= dec_str_nat(m as int));
    }
    let k = rev_digits.len();
    let mut j: usize = 0;
    while j < k
        invariant
            j <= k,
            k == rev_digits@.len(),
            forall|t: int| 0 <= t < rev_digits@.len() ==> #[trigger] rev_digits@[t] < 10,
            tail == rev_digit_chars(rev_digits@),
            dec_str_nat(n as int) == dec_str_nat(m as int) + tail,
            r@ == dec_str_nat(m as int) + tail.take(j as int),
        decreases k - j,
    {
        r.append(digit_str(rev_digits[k - 1 - j]));
        proof {
            assert(tail[j as int] == dec_digit(rev_digits@[k - 1 - j] as int));
            assert(tail.take(j + 1 as int) =~= tail.take(j as int).push(tail[j as int]));
        }
        j += 1;
    }
    proof {
        assert(tail.take(k as int) =~= tail);
    }
    r
}

/// Renders a signed value as its decimal digits without leading
/// zeros, preceded by `-` when negative.
fn int_to_decimal_string(v: i128) -> (r: String)
    ensures
        r@ == dec_str_int(v as int),
{
    if v >= 0 {
        nat_to_decimal_string(v as u128)
    } else {
        let mag: u128 = ((-(v + 1)) as u128) + 1;
        proof {
            assert(mag == -(v as int));
            reveal_strlit("-");
        }
        let mut r = String::from_str("-");
        proof {
            assert(r@ =~= seq!['-']);
        }
        let digits = nat_to_decimal_string(mag);
        r.append(digits.as_str());
        proof {
            assert(r@ =~= dec_str_int(v as int));
        }
        r
    }
}

/// What `String::from_utf8_lossy` returns for a byte sequence: a
/// function of the bytes alone (invalid sequences are replaced, never
/// rejected).
pub uninterp spec fn utf8_lossy_of(bytes: Seq<u8>) -> Seq<char>;

/// Relies on `String::from_utf8_lossy`: the result depends on the
/// bytes alone, and valid UTF-8 decodes to its own characters.
#[verifier::external_body]
fn utf8_lossy(bytes: &Vec<u8>) -> (r: String)
    ensures
        r@ == utf8_lossy_of(bytes@),
        valid_utf8(bytes@) ==> r@ == decode_utf8(bytes@),
{
    String::from_utf8_lossy(bytes).into_owned()
}

// ---------------------------------------------------------------------
// Byte assembly and trimming
// ---------------------------------------------------------------------

proof fn lemma_be_bytes_of_words_push(words: Seq<u16>, w: u16)
    ensures
        be_bytes_of_words(words.push(w)) == be_bytes_of_words(words) + seq![
            (w / 0x100) as u8,
            (w % 0x100) as u8,
        ],
    decreases words.len(),
{
    let pair = seq![(w / 0x100) as u8, (w % 0x100) as u8];
    if words.len() == 0 {
        assert(words.push(w)[0] == w);
        assert(words.push(w).drop_first() =~= Seq::<u16>::empty());
        assert(be_bytes_of_words(words.push(w)) == pair + be_bytes_of_words(
            words.push(w).drop_first(),
        ));
        assert(be_bytes_of_words(words.push(w)) =~= be_bytes_of_words(words) + pair);
    } else {
        assert(words.push(w)[0] == words[0]);
        assert(words.push(w).drop_first() =~= words.drop_first().push(w));
        lemma_be_bytes_of_words_push(words.drop_first(), w);
        let head = seq![(words[0] / 0x100) as u8, (words[0] % 0x100) as u8];
        assert(be_bytes_of_words(words.push(w)) == head + (be_bytes_of_words(words.drop_first())
            + pair));
        assert(head + (be_bytes_of_words(words.drop_first()) + pair) =~= (head
            + be_bytes_of_words(words.drop_first())) + pair);
        assert(be_bytes_of_words(words) == head + be_bytes_of_words(words.drop_first()));
    }
}

/// Lays each word out as two big-endian bytes, in word order.
fn words_to_be_bytes(words: &Vec<u16>) -> (r: Vec<u8>)
    ensures
        r@ == be_bytes_of_words(words@),
{
    let mut r: Vec<u8> = Vec::new();
    let n = words.len();
    let mut i: usize = 0;
    while i < n
        invariant
            n == words@.len(),
            i <= n,
            r@ == be_bytes_of_words(words@.take(i as int)),
        decreases n - i,
    {
        let w = words[i];
        r.push((w / 0x100) as u8);
        r.push((w % 0x100) as u8);
        proof {
            assert(words@.take(i + 1 as int) =~= words@.take(i as int).push(words@[i as int]));
            lemma_be_bytes_of_words_push(words@.take(i as int), words@[i as int]);
        }
        i += 1;
    }
    proof {
        assert(words@.take(n as int) =~= words@);
    }
    r
}

/// Bytes dropped from both ends of register text: ASCII whitespace and
/// the NUL padding that devices leave in unused register bytes.
pub open spec fn is_trim_byte(b: u8) -> bool {
    b == 0x00 || b == 0x09 || b == 0x0a || b == 0x0b || b == 0x0c || b == 0x0d || b == 0x20
}

/// The byte sequence without leading and trailing trim bytes.
pub open spec fn trim_bytes(s: Seq<u8>) -> Seq<u8>
    decreases s.len(),
{
    if s.len() == 0 {
        s
    } else if is_trim_byte(s[0]) {
        trim_bytes(s.drop_first())
    } else if is_trim_byte(s.last()) {
        trim_bytes(s.drop_last())
    } else {
        s
    }
}

fn is_trim_byte_exec(b: u8) -> (r: bool)
    ensures
        r == is_trim_byte(b),
{
    b == 0x00 || b == 0x09 || b == 0x0a || b == 0x0b || b == 0x0c || b == 0x0d || b == 0x20
}

/// Drops leading and trailing trim bytes.
fn trim_bytes_exec(s: &Vec<u8>) -> (r: Vec<u8>)
    ensures
        r@ == trim_bytes(s@),
{
    let n = s.len();
    proof {
        assert(s@.subrange(0, n as int) =~= s@);
    }
    let mut lo: usize = 0;
    while lo < n && is_trim_byte_exec(s[lo])
        invariant
            n == s@.len(),
            lo <= n,
            trim_bytes(s@) == trim_bytes(s@.subrange(lo as int, n as int)),
        decreases n - lo,
    {
        proof {
            assert(s@.subrange(lo as int, n as int).drop_first() =~= s@.subrange(
                lo + 1 as int,
                n as int,
            ));
        }
        lo += 1;
    }
    let mut hi: usize = n;
    while hi > lo && is_trim_byte_exec(s[hi - 1])
        invariant
            n == s@.len(),
            lo <= hi <= n,
            lo == n || !is_trim_byte(s@[lo as int]),
            trim_bytes(s@) == trim_bytes(s@.subrange(lo as int, hi as int)),
        decreases hi,
    {
        proof {
            assert(s@.subrange(lo as int, hi as int).drop_last() =~= s@.subrange(
                lo as int,
                hi - 1 as int,
            ));
        }
        hi -= 1;
    }
    let mut r: Vec<u8> = Vec::new();
    let mut j: usize = lo;
    while j < hi
        invariant
            n == s@.len(),
            lo <= j <= hi <= n,
            r@ == s@.subrange(lo as int, j as int),
        decreases hi - j,
    {
        r.push(s[j]);
        proof {
            assert(s@.subrange(lo as int, j + 1 as int) =~= s@.subrange(lo as int, j as int).push(
                s@[j as int],
            ));
        }
        j += 1;
    }
    proof {
        if lo == hi {
            assert(s@.subrange(lo as int, hi as int).len() == 0);
        }
        assert(trim_bytes(s@.subrange(lo as int, hi as int)) == s@.subrange(lo as int, hi as int));
    }
    r
}

// ---------------------------------------------------------------------
// Canonical text form
// ---------------------------------------------------------------------

/// The text of a two-decimal value scaled by 100, for nonnegative
/// `h`: the integer part, then the fractional digits with trailing
/// zeros (and an all-zero fraction) dropped.
pub open spec fn fixed2_str_nonneg(h: int) -> Seq<char>
    recommends
        h >= 0,
{
    if h % 100 == 0 {
        dec_str_nat(h / 100)
    } else if h % 10 == 0 {
        dec_str_nat(h / 100) + seq!['.', dec_digit((h / 10) % 10)]
    } else {
        dec_str_nat(h / 100) + seq!['.', dec_digit((h / 10) % 10), dec_digit(h % 10)]
    }
}

/// The text of a two-decimal value scaled by 100: a `-` sign when
/// negative, then the text of the magnitude.
pub open spec fn fixed2_str(h: int) -> Seq<char> {
    if h < 0 {
        seq!['-'] + fixed2_str_nonneg(-h)
    } else {
        fixed2_str_nonneg(h)
    }
}

/// The canonical text form of a decoded value: the lookup key for enum
/// resolution.  Text is itself; integers and two-decimal reals are
/// their decimal text; booleans are `true` or `false`.
pub open spec fn canonical_text(v: DecodedView) -> Seq<char> {
    match v {
        DecodedView::Text(s) => s,
        DecodedView::Integer(i) => dec_str_int(i),
        DecodedView::Real(h) => fixed2_str(h),
        DecodedView::Boolean(b) => if b {
            "true"@
        } else {
            "false"@
        },
    }
}

/// One decimal digit as a borrowed one-character string.
fn digit_str(d: u8) -> (r: &'static str)
    requires
        d < 10,
    ensures
        r@ == seq![dec_digit(d as int)],
{
    proof {
        reveal_strlit("0");
        reveal_strlit("1");
        reveal_strlit("2");
        reveal_strlit("3");
        reveal_strlit("4");
        reveal_strlit("5");
        reveal_strlit("6");
        reveal_strlit("7");
        reveal_strlit("8");
        reveal_strlit("9");
    }
    let r = match d {
        0 => "0",
        1 => "1",
        2 => "2",
        3 => "3",
        4 => "4",
        5 => "5",
        6 => "6",
        7 => "7",
        8 => "8",
        _ => "9",
    };
    proof {
        assert(r@ =~= seq![dec_digit(d as int)]);
    }
    r
}

fn fixed2_to_string(f: &Fixed2) -> (r: String)
    ensures
        r@ == fixed2_str(f.hundredths as int),
{
    let h = f.hundredths;
    let m: u128 = if h >= 0 {
        h as u128
    } else {
        ((-(h + 1)) as u128) + 1
    };
    proof {
        assert(m == if h >= 0 {
            h as int
        } else {
            -(h as int)
        });
    }
    let mut r: String = if h < 0 {
        proof {
            reveal_strlit("-");
        }
        let neg = String::from_str("-");
        proof {
            assert(neg@ =~= seq!['-']);
        }
        neg
    } else {
        String::new()
    };
    let ip = int_to_decimal_string((m / 100) as i128);
    r.append(ip.as_str());
    if m % 100 != 0 {
        proof {
            reveal_strlit(".");
        }
        let dot = ".";
        proof {
            assert(dot@ =~= seq!['.']);
        }
        r.append(dot);
        r.append(digit_str(((m / 10) % 10) as u8));
        if m % 10 != 0 {
            r.append(digit_str((m % 10) as u8));
        }
    }
    proof {
        assert(r@ =~= fixed2_str(f.hundredths as int));
    }
    r
}

impl ConversionResult {
    /// The canonical text form of this value.
    pub fn to_string(&self) -> (r: String)
        ensures
            r@ == canonical_text(self@),
    {
        match self {
            ConversionResult::StringResult(s) => s.clone(),
            ConversionResult::IntResult(v) => int_to_decimal_string(*v as i128),
            ConversionResult::FloatResult(f) => fixed2_to_string(f),
            ConversionResult::BooleanResult(b) => if *b {
                "true".to_owned()
            } else {
                "false".to_owned()
            },
        }
    }
}

// ---------------------------------------------------------------------
// Precision scaling
// ---------------------------------------------------------------------

/// Refinement failure: precision on a non-integer value, or a decoded
/// value whose canonical text no enum table entry matches.
#[derive(Debug, PartialEq, Eq)]
pub enum RefineError {
    /// Precision scaling accepts only integer inputs.
    UnsupportedForPrecision,
    /// No enum table key equals the carried canonical text.
    NoEnumMatch(String),
}

pub enum RefineErrorView {
    UnsupportedForPrecision,
    NoEnumMatch(Seq<char>),
}

impl View for RefineError {
    type V = RefineErrorView;

    open spec fn view(&self) -> RefineErrorView {
        match self {
            RefineError::UnsupportedForPrecision => RefineErrorView::UnsupportedForPrecision,
            RefineError::NoEnumMatch(s) => RefineErrorView::NoEnumMatch(s@),
        }
    }
}

pub open spec fn pow10(e: nat) -> int
    decreases e,
{
    if e == 0 {
        1
    } else {
        10 * pow10((e - 1) as nat)
    }
}

pub proof fn lemma_pow10_positive(e: nat)
    ensures
        pow10(e) >= 1,
    decreases e,
{
    if e > 0 {
        lemma_pow10_positive((e - 1) as nat);
    }
}

pub proof fn lemma_pow10_increases(a: nat, b: nat)
    requires
        a <= b,
    ensures
        pow10(a) <= pow10(b),
    decreases b,
{
    if a < b {
        lemma_pow10_increases(a, (b - 1) as nat);
        lemma_pow10_positive((b - 1) as nat);
    }
}

proof fn lemma_pow10_38_value()
    ensures
        pow10(38) == 100_000_000_000_000_000_000_000_000_000_000_000_000int,
        pow10(31) == 10_000_000_000_000_000_000_000_000_000_000int,
{
    reveal_with_fuel(pow10, 40);
}

/// Division truncated toward zero, for a positive divisor: the
/// rounding that precision scaling uses to cut a value to two decimal
/// digits.
pub open spec fn div_trunc(a: int, b: int) -> int
    recommends
        b > 0,
{
    if a >= 0 {
        a / b
    } else {
        -((-a) / b)
    }
}

/// The hundredths of the two-decimal result of precision scaling:
/// `v` times `m / 10^e`, scaled by 100 and truncated toward zero.
pub open spec fn precision_hundredths(v: int, m: int, e: nat) -> int {
    div_trunc(v * m * 100, pow10(e))
}

/// Truncating division by a positive divisor cancels an exact multiple.
pub proof fn lemma_div_trunc_multiple(b: int, d: int)
    requires
        d > 0,
    ensures
        div_trunc(b * d, d) == b,
{
    if b >= 0 {
        assert(b * d >= 0) by (nonlinear_arith)
            requires
                b >= 0,
                d > 0,
        ;
        assert((b * d) / d == b) by (nonlinear_arith)
            requires
                d > 0,
                b >= 0,
        ;
    } else {
        assert(b * d < 0) by (nonlinear_arith)
            requires
                b < 0,
                d > 0,
        ;
        assert(-(b * d) == (-b) * d) by (nonlinear_arith);
        assert(((-b) * d) / d == -b) by (nonlinear_arith)
            requires
                d > 0,
                -b >= 0,
        ;
    }
}

fn pow10_u128(e: u32) -> (r: u128)
    requires
        e <= 38,
    ensures
        r == pow10(e as nat),
{
    proof {
        lemma_pow10_38_value();
    }
    let mut acc: u128 = 1;
    let mut i: u32 = 0;
    while i < e
        invariant
            i <= e <= 38,
            acc == pow10(i as nat),
            pow10(38) == 100_000_000_000_000_000_000_000_000_000_000_000_000int,
        decreases e - i,
    {
        proof {
            assert(pow10((i + 1) as nat) == 10 * pow10(i as nat));
            lemma_pow10_increases((i + 1) as nat, 38);
            lemma_pow10_positive(i as nat);
        }
        acc = acc * 10;
        i += 1;
    }
    acc
}

/// Resolution of a precision factor against a decoded value: integer
/// values scale to their two-decimal hundredths, everything else
/// resolves to nothing.
pub trait ResolvePrecision: View<V = DecodedView> {
    /// Scales an integer value by the precision factor, truncated to
    /// two decimal digits; yields nothing for any other value.
    fn try_resolve_precision(&self, precision: &Precision) -> (r: Option<Fixed2>)
        ensures
            match r {
                Some(f) => self@ matches DecodedView::Integer(v) && f.hundredths as int
                    == precision_hundredths(
                    v,
                    precision.mantissa as int,
                    precision.exponent as nat,
                ),
                None => !(self@ is Integer),
            },
    ;
}

impl ResolvePrecision for ConversionResult {
    fn try_resolve_precision(&self, precision: &Precision) -> (r: Option<Fixed2>) {
        match self {
            ConversionResult::IntResult(value) => {
                let v: i64 = *value;
                let mag_v: u64 = if v >= 0 {
                    v as u64
                } else {
                    ((-(v + 1)) as u64) + 1
                };
                proof {
                    assert(mag_v == if v >= 0 {
                        v as int
                    } else {
                        -(v as int)
                    });
                    assert((mag_v as int) * (precision.mantissa as int) < 0x1_0000_0000_0000_0000_0000_0000int)
                        by (nonlinear_arith)
                        requires
                            mag_v <= 0xffff_ffff_ffff_ffffu64,
                            precision.mantissa <= 0xffff_ffffu32,
                    ;
                }
                let prod: u128 = (mag_v as u128) * (precision.mantissa as u128);
                let num: u128 = prod * 100;
                let ghost signed_num: int = (v as int) * (precision.mantissa as int) * 100;
                proof {
                    assert(signed_num == if v >= 0 {
                        num as int
                    } else {
                        -(num as int)
                    }) by (nonlinear_arith)
                        requires
                            num == (mag_v as int) * (precision.mantissa as int) * 100,
                            signed_num == (v as int) * (precision.mantissa as int) * 100,
                            mag_v == if v >= 0 {
                                v as int
                            } else {
                                -(v as int)
                            },
                    ;
                }
                let e = precision.exponent;
                let hundredths: i128 = if e > 38 {
                    proof {
                        lemma_pow10_38_value();
                        lemma_pow10_increases(31, e as nat);
                        assert(num < pow10(31));
                        vstd::arithmetic::div_mod::lemma_basic_div(num as int, pow10(e as nat));
                    }
                    0
                } else {
                    let den = pow10_u128(e);
                    proof {
                        lemma_pow10_positive(e as nat);
                        vstd::arithmetic::div_mod::lemma_div_nonincreasing(
                            num as int,
                            den as int,
                        );
                        vstd::arithmetic::div_mod::lemma_div_pos_is_pos(
                            num as int,
                            den as int,
                        );
                    }
                    let q = num / den;
                    if v >= 0 {
                        q as i128
                    } else {
                        -(q as i128)
                    }
                };
                proof {
                    assert(hundredths == precision_hundredths(
                        v as int,
                        precision.mantissa as int,
                        precision.exponent as nat,
                    ));
                }
                Some(Fixed2 { hundredths })
            },
            _ => None,
        }
    }
}

impl ConversionResult {
    /// Scales an integer value by the precision factor and truncates
    /// the result to two decimal digits; any non-integer input fails.
    pub fn apply_precision(&self, precision: &Precision) -> (r: Result<
        ConversionResult,
        RefineError,
    >)
        ensures
            match *self {
                ConversionResult::IntResult(v) => r matches Ok(c) && c@ == DecodedView::Real(
                    precision_hundredths(
                        v as int,
                        precision.mantissa as int,
                        precision.exponent as nat,
                    ),
                ),
                _ => r == Err::<ConversionResult, RefineError>(
                    RefineError::UnsupportedForPrecision,
                ),
            },
    {
        match self.try_resolve_precision(precision) {
            Some(f) => Ok(ConversionResult::FloatResult(f)),
            None => Err(RefineError::UnsupportedForPrecision),
        }
    }
}

/// Law: precision refinement is not reentrant.  Refining an integer
/// under a declared precision yields a two-decimal real, and refining
/// that real under the same mapping fails with
/// `UnsupportedForPrecision` instead of scaling a second time.
pub proof fn lemma_precision_not_reentrant(v: int, m: MappingView)
    requires
        m.precision is Some,
    ensures
        spec_refine(DecodedView::Integer(v), m) matches Ok(rv) ==> spec_refine(rv, m) == Err::<
            DecodedView,
            RefineErrorView,
        >(RefineErrorView::UnsupportedForPrecision),
{
}

/// Law: precision scaling with a factor of exactly one maps an integer
/// `v` to the two-decimal value `v`, so repeating the underlying
/// truncation reproduces it.  With any other factor the result is a
/// two-decimal real, which precision scaling refuses, so refinement
/// cannot be applied twice.
pub proof fn lemma_precision_one_identity(v: int, p: Precision)
    requires
        p.mantissa == pow10(p.exponent as nat),
    ensures
        precision_hundredths(v, p.mantissa as int, p.exponent as nat) == 100 * v,
{
    let d = pow10(p.exponent as nat);
    lemma_pow10_positive(p.exponent as nat);
    assert(v * (p.mantissa as int) * 100 == (100 * v) * d) by (nonlinear_arith)
        requires
            p.mantissa == d,
    ;
    lemma_div_trunc_multiple(100 * v, d);
}

// ---------------------------------------------------------------------
// Enum resolution
// ---------------------------------------------------------------------

/// The label of the first table entry whose key equals `key`, if any.
pub open spec fn enum_lookup(table: Seq<ValueEnumView>, key: Seq<char>) -> Option<Seq<char>>
    decreases table.len(),
{
    if table.len() == 0 {
        None
    } else if table[0].key == key {
        Some(table[0].value)
    } else {
        enum_lookup(table.drop_first(), key)
    }
}

proof fn lemma_enum_lookup_skip(table: Seq<ValueEnumView>, key: Seq<char>, i: int)
    requires
        0 <= i <= table.len(),
        forall|j: int| 0 <= j < i ==> table[j].key != key,
    ensures
        enum_lookup(table, key) == enum_lookup(table.skip(i), key),
    decreases i,
{
    if i > 0 {
        lemma_enum_lookup_skip(table, key, i - 1);
        let s = table.skip(i - 1);
        assert(s.len() == table.len() - i + 1 >= 1);
        assert(s[0] == table[i - 1]);
        assert(s[0].key != key);
        assert(enum_lookup(s, key) == enum_lookup(s.drop_first(), key));
        assert(s.drop_first() =~= table.skip(i));
    } else {
        assert(table.skip(0) =~= table);
    }
}

impl ConversionResult {
    /// Looks this value's canonical text up in the enum table; the
    /// result is the label of the first matching key, if any.
    pub fn try_resolve_enum(&self, enum_mapping: &Vec<ValueEnum>) -> (r: Option<String>)
        ensures
            match r {
                Some(label) => enum_lookup(
                    enum_mapping@.map_values(|e: ValueEnum| e@),
                    canonical_text(self@),
                ) == Some(label@),
                None => enum_lookup(
                    enum_mapping@.map_values(|e: ValueEnum| e@),
                    canonical_text(self@),
                ) is None,
            },
    {
        let value = self.to_string();
        let ghost table = enum_mapping@.map_values(|e: ValueEnum| e@);
        let n = enum_mapping.len();
        let mut i: usize = 0;
        while i < n
            invariant
                n == enum_mapping@.len(),
                i <= n,
                table == enum_mapping@.map_values(|e: ValueEnum| e@),
                value@ == canonical_text(self@),
                forall|j: int| 0 <= j < i ==> table[j].key != value@,
            decreases n - i,
        {
            proof {
                assert(table[i as int] == enum_mapping@[i as int]@);
            }
            if str_eq(enum_mapping[i].key.as_str(), value.as_str()) {
                proof {
                    lemma_enum_lookup_skip(table, value@, i as int);
                    assert(table.skip(i as int)[0] == table[i as int]);
                }
                return Some(enum_mapping[i].value.clone());
            }
            i += 1;
        }
        proof {
            lemma_enum_lookup_skip(table, value@, n as int);
            assert(table.skip(n as int) =~= Seq::<ValueEnumView>::empty());
        }
        None
    }

    /// Resolves this value through the enum table; a miss fails with
    /// the canonical text that found no match, never a fallback value.
    pub fn resolve_enum(&self, enum_mapping: &Vec<ValueEnum>) -> (r: Result<
        ConversionResult,
        RefineError,
    >)
        ensures
            match enum_lookup(enum_mapping@.map_values(|e: ValueEnum| e@), canonical_text(self@)) {
                Some(label) => r matches Ok(c) && c@ == DecodedView::Text(label),
                None => r matches Err(e) && e@ == RefineErrorView::NoEnumMatch(
                    canonical_text(self@),
                ),
            },
    {
        match self.try_resolve_enum(enum_mapping) {
            Some(label) => Ok(ConversionResult::StringResult(label)),
            None => Err(RefineError::NoEnumMatch(self.to_string())),
        }
    }
}

// ---------------------------------------------------------------------
// Decoding registers
// ---------------------------------------------------------------------

/// What decoding a word sequence under a type tag yields: text for
/// `string` and `hex`; an integer for `u16`, `i16`, `u32` and `i32`,
/// when enough words are supplied; an error otherwise.
pub open spec fn spec_decode(words: Seq<u16>, data_type: Seq<char>) -> Result<
    DecodedView,
    DecodeErrorView,
> {
    if data_type == "string"@ {
        Ok(DecodedView::Text(utf8_lossy_of(trim_bytes(be_bytes_of_words(words)))))
    } else if data_type == "hex"@ {
        Ok(DecodedView::Text(hex_str_of(be_bytes_of_words(words))))
    } else if data_type == "u16"@ {
        if words.len() >= 1 {
            Ok(DecodedView::Integer(u16_of_word(words[0])))
        } else {
            Err(DecodeErrorView::WrongWordCount)
        }
    } else if data_type == "i16"@ {
        if words.len() >= 1 {
            Ok(DecodedView::Integer(i16_of_word(words[0])))
        } else {
            Err(DecodeErrorView::WrongWordCount)
        }
    } else if data_type == "u32"@ {
        if words.len() >= 2 {
            Ok(DecodedView::Integer(u32_of_words(words[0], words[1])))
        } else {
            Err(DecodeErrorView::WrongWordCount)
        }
    } else if data_type == "i32"@ {
        if words.len() >= 2 {
            Ok(DecodedView::Integer(i32_of_words(words[0], words[1])))
        } else {
            Err(DecodeErrorView::WrongWordCount)
        }
    } else {
        Err(DecodeErrorView::UnknownType(data_type))
    }
}

/// Decodes a word sequence under a type tag.
pub fn decode_registers(registers: &Vec<u16>, data_type: &str) -> (r: Result<
    ConversionResult,
    DecodeError,
>)
    ensures
        match r {
            Ok(c) => spec_decode(registers@, data_type@) == Ok::<DecodedView, DecodeErrorView>(c@),
            Err(e) => spec_decode(registers@, data_type@) == Err::<DecodedView, DecodeErrorView>(
                e@,
            ),
        },
{
    if str_eq(data_type, "string") {
        let bytes = words_to_be_bytes(registers);
        let trimmed = trim_bytes_exec(&bytes);
        Ok(ConversionResult::StringResult(utf8_lossy(&trimmed)))
    } else if str_eq(data_type, "hex") {
        let bytes = words_to_be_bytes(registers);
        Ok(ConversionResult::StringResult(encode_hex(&bytes)))
    } else if str_eq(data_type, "u16") {
        if registers.len() >= 1 {
            Ok(ConversionResult::IntResult(registers[0] as i64))
        } else {
            Err(DecodeError::WrongWordCount)
        }
    } else if str_eq(data_type, "i16") {
        if registers.len() >= 1 {
            let w = registers[0];
            let v: i64 = if w < 0x8000 {
                w as i64
            } else {
                (w as i64) - 0x1_0000
            };
            Ok(ConversionResult::IntResult(v))
        } else {
            Err(DecodeError::WrongWordCount)
        }
    } else if str_eq(data_type, "u32") {
        if registers.len() >= 2 {
            let v: i64 = (registers[0] as i64) * 0x1_0000 + (registers[1] as i64);
            Ok(ConversionResult::IntResult(v))
        } else {
            Err(DecodeError::WrongWordCount)
        }
    } else if str_eq(data_type, "i32") {
        if registers.len() >= 2 {
            let u: i64 = (registers[0] as i64) * 0x1_0000 + (registers[1] as i64);
            let v: i64 = if u < 0x8000_0000 {
                u
            } else {
                u - 0x1_0000_0000
            };
            Ok(ConversionResult::IntResult(v))
        } else {
            Err(DecodeError::WrongWordCount)
        }
    } else {
        Err(DecodeError::UnknownType(data_type.to_owned()))
    }
}

// ---------------------------------------------------------------------
// The Convert trait
// ---------------------------------------------------------------------

/// Conversion of raw register words into one human-readable target
/// type, selected by the schema's type tag.
pub trait Convert<T: View> {
    /// The view of the converted value, or `None` when this target
    /// type does not serve the tag or too few words were supplied.
    spec fn human_readable_view(&self, data_type: Seq<char>) -> Option<T::V>;

    /// Converts to the target type; succeeds exactly when the tag is
    /// served and enough words are present.
    fn try_into_human_readable(&self, data_type: &str) -> (r: Result<T, String>)
        ensures
            match r {
                Ok(v) => self.human_readable_view(data_type@) == Some(v@),
                Err(_) => self.human_readable_view(data_type@) is None,
            },
    ;
}

impl Convert<String> for Vec<u16> {
    open spec fn human_readable_view(&self, data_type: Seq<char>) -> Option<Seq<char>> {
        match spec_decode(self@, data_type) {
            Ok(DecodedView::Text(t)) => Some(t),
            _ => None,
        }
    }

    fn try_into_human_readable(&self, data_type: &str) -> (r: Result<String, String>) {
        match decode_registers(self, data_type) {
            Ok(ConversionResult::StringResult(s)) => Ok(s),
            _ => Err("no text conversion for this data type".to_owned()),
        }
    }
}

impl Convert<i64> for Vec<u16> {
    open spec fn human_readable_view(&self, data_type: Seq<char>) -> Option<i64> {
        match spec_decode(self@, data_type) {
            Ok(DecodedView::Integer(i)) => Some(i as i64),
            _ => None,
        }
    }

    fn try_into_human_readable(&self, data_type: &str) -> (r: Result<i64, String>) {
        match decode_registers(self, data_type) {
            Ok(ConversionResult::IntResult(v)) => Ok(v),
            _ => Err("no integer conversion for this data type".to_owned()),
        }
    }
}

// ---------------------------------------------------------------------
// Whole-mapping conversion
// ---------------------------------------------------------------------

/// Why one mapping produced no value this cycle.
#[derive(Debug, PartialEq, Eq)]
pub enum ConvertError {
    /// The words did not decode under the mapping's type tag.
    Decode(DecodeError),
    /// The decoded value did not refine.
    Refine(RefineError),
    /// A statistic mapping decoded to integer zero: a suspected
    /// rollover artifact that must not overwrite recorded history.
    StatisticZero,
}

pub enum ConvertErrorView {
    Decode(DecodeErrorView),
    Refine(RefineErrorView),
    StatisticZero,
}

impl View for ConvertError {
    type V = ConvertErrorView;

    open spec fn view(&self) -> ConvertErrorView {
        match self {
            ConvertError::Decode(e) => ConvertErrorView::Decode(e@),
            ConvertError::Refine(e) => ConvertErrorView::Refine(e@),
            ConvertError::StatisticZero => ConvertErrorView::StatisticZero,
        }
    }
}

/// The refinement a mapping applies to a decoded value: precision
/// scaling when declared, else enum resolution when declared, else the
/// value passes through unchanged.
pub open spec fn spec_refine(v: DecodedView, m: MappingView) -> Result<
    DecodedView,
    RefineErrorView,
> {
    match m.precision {
        Some(p) => match v {
            DecodedView::Integer(i) => Ok(
                DecodedView::Real(precision_hundredths(i, p.mantissa as int, p.exponent as nat)),
            ),
            _ => Err(RefineErrorView::UnsupportedForPrecision),
        },
        None => match m.value_enum {
            Some(table) => match enum_lookup(table, canonical_text(v)) {
                Some(label) => Ok(DecodedView::Text(label)),
                None => Err(RefineErrorView::NoEnumMatch(canonical_text(v))),
            },
            None => Ok(v),
        },
    }
}

/// One mapping's whole conversion: decode under the type tag, drop an
/// integer zero from a statistic source, then refine.
pub open spec fn spec_convert(words: Seq<u16>, m: MappingView) -> Result<
    DecodedView,
    ConvertErrorView,
> {
    match spec_decode(words, m.data_type) {
        Err(e) => Err(ConvertErrorView::Decode(e)),
        Ok(v) => if m.statistic_type is Some && v == DecodedView::Integer(0) {
            Err(ConvertErrorView::StatisticZero)
        } else {
            match spec_refine(v, m) {
                Ok(rv) => Ok(rv),
                Err(e) => Err(ConvertErrorView::Refine(e)),
            }
        },
    }
}

/// Converts the registers read for one mapping into its refined value.
pub fn try_from_registers(mapping: &Mapping, registers: &Vec<u16>) -> (r: Result<
    ConversionResult,
    ConvertError,
>)
    ensures
        match r {
            Ok(c) => spec_convert(registers@, mapping@) == Ok::<DecodedView, ConvertErrorView>(c@),
            Err(e) => spec_convert(registers@, mapping@) == Err::<DecodedView, ConvertErrorView>(
                e@,
            ),
        },
{
    let decoded = match decode_registers(registers, mapping.data_type.as_str()) {
        Ok(c) => c,
        Err(e) => {
            return Err(ConvertError::Decode(e));
        },
    };
    if mapping.statistic_type.is_some() {
        if let ConversionResult::IntResult(v) = &decoded {
            if *v == 0 {
                return Err(ConvertError::StatisticZero);
            }
        }
    }
    if let Some(p) = &mapping.precision {
        match decoded.apply_precision(p) {
            Ok(c) => Ok(c),
            Err(e) => Err(ConvertError::Refine(e)),
        }
    } else if let Some(table) = &mapping.value_enum {
        match decoded.resolve_enum(table) {
            Ok(c) => Ok(c),
            Err(e) => Err(ConvertError::Refine(e)),
        }
    } else {
        Ok(decoded)
    }
}

// ---------------------------------------------------------------------
// Decode laws
// ---------------------------------------------------------------------

/// Law: decoding two words as `u32` equals the big-endian reassembly
/// of their four bytes into a 32-bit unsigned integer, which widens
/// losslessly to 64 bits.
pub proof fn lemma_u32_decode_is_big_endian(w0: u16, w1: u16)
    ensures
        ({
            let bytes = be_bytes_of_words(seq![w0, w1]);
            &&& bytes.len() == 4
            &&& u32_of_words(w0, w1) == (bytes[0] as int) * 0x100_0000 + (bytes[1] as int)
                * 0x1_0000 + (bytes[2] as int) * 0x100 + (bytes[3] as int)
            &&& 0 <= u32_of_words(w0, w1) <= u32::MAX
        }),
{
    let s = seq![w0, w1];
    let t = seq![w1];
    assert(s[0] == w0 && s.len() == 2);
    assert(t[0] == w1 && t.len() == 1);
    assert(s.drop_first() =~= t);
    assert(t.drop_first() =~= Seq::<u16>::empty());
    let bytes = be_bytes_of_words(s);
    assert(be_bytes_of_words(t.drop_first()) == Seq::<u8>::empty());
    assert(be_bytes_of_words(t) == seq![(w1 / 0x100) as u8, (w1 % 0x100) as u8]
        + be_bytes_of_words(t.drop_first()));
    assert(bytes == seq![(w0 / 0x100) as u8, (w0 % 0x100) as u8] + be_bytes_of_words(t));
    assert(bytes =~= seq![
        (w0 / 0x100) as u8,
        (w0 % 0x100) as u8,
        (w1 / 0x100) as u8,
        (w1 % 0x100) as u8,
    ]);
    vstd::arithmetic::div_mod::lemma_fundamental_div_mod(w0 as int, 0x100);
    vstd::arithmetic::div_mod::lemma_fundamental_div_mod(w1 as int, 0x100);
}

/// Law: decoding one word as `i16` is its two's-complement reading:
/// the unique value in [-0x8000, 0x7fff] congruent to the word modulo
/// 0x1_0000, widened to 64 bits.
pub proof fn lemma_i16_decode_twos_complement(w: u16)
    ensures
        -0x8000 <= i16_of_word(w) <= 0x7fff,
        i16_of_word(w) % 0x1_0000 == w as int,
        forall|x: int|
            -0x8000 <= x <= 0x7fff && #[trigger] (x % 0x1_0000) == w as int ==> x == i16_of_word(
                w,
            ),
{
    assert(i16_of_word(w) % 0x1_0000 == w as int) by {
        if w < 0x8000 {
            vstd::arithmetic::div_mod::lemma_small_mod(w as nat, 0x1_0000);
        } else {
            let v = i16_of_word(w);
            vstd::arithmetic::div_mod::lemma_mod_bound(v, 0x1_0000);
            vstd::arithmetic::div_mod::lemma_fundamental_div_mod(v, 0x1_0000);
        }
    }
    assert forall|x: int|
        -0x8000 <= x <= 0x7fff && #[trigger] (x % 0x1_0000) == w as int implies x == i16_of_word(
        w,
    ) by {
        vstd::arithmetic::div_mod::lemma_mod_bound(x, 0x1_0000);
        vstd::arithmetic::div_mod::lemma_fundamental_div_mod(x, 0x1_0000);
    }
}

} // verus!
