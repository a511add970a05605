//! Textual durations such as `30s`, `5min`, `1h` or `200ms`, and the
//! normalised [`Interval`] they denote.

use vstd::prelude::*;
use vstd::string::*;
use vstd::utf8::*;

verus! {

/// Unit of a time interval.
#[derive(Debug, PartialEq, Eq, Structural, Clone, Copy)]
pub enum TimeUnit {
    Hours,
    Minutes,
    Seconds,
    Milliseconds,
}

/// Raised when a token does not name a time unit.
#[derive(Debug, Clone)]
pub struct TimeUnitError {
    /// The token that was not recognised.
    message: String,
}

impl View for TimeUnitError {
    type V = Seq<char>;

    /// The token that was not recognised.
    closed spec fn view(&self) -> Seq<char> {
        self.message@
    }
}

impl TimeUnitError {
    /// The token that was not recognised.
    pub fn message(&self) -> (r: &str)
        ensures
            r@ == self@,
    {
        self.message.as_str()
    }

    /// The error as a line of text.
    pub fn to_text(&self) -> (r: String)
        ensures
            r@ == "invalid duration "@ + self@,
    {
        let mut text = "invalid duration ".to_owned();
        text.append(self.message.as_str());
        text
    }
}

impl std::str::FromStr for TimeUnit {
    type Err = TimeUnitError;

    /// Reads a unit token (`h`, `min`, `s` or `ms`, in any mix of cases).
    ///
    /// Any other token is handed back inside the error.
    fn from_str(s: &str) -> (r: Result<TimeUnit, TimeUnitError>)
        ensures
            match r {
                Ok(unit) => unit_of(s@) == Some(unit),
                Err(e) => unit_of(s@) is None && e@ == s@,
            },
    {
        TimeUnit::from_str(s)
    }
}

/// Lower-case form of an ASCII letter; every other character is left alone.
pub open spec fn ascii_lower(c: char) -> char {
    if 'A' <= c && c <= 'Z' {
        ((c as u8) + 32) as char
    } else {
        c
    }
}

/// The token with each ASCII capital replaced by its lower-case letter.
pub open spec fn lowered(token: Seq<char>) -> Seq<char> {
    token.map_values(|c: char| ascii_lower(c))
}

/// The unit that a token names, without regard to the case of its letters.
pub open spec fn unit_of(token: Seq<char>) -> Option<TimeUnit> {
    let t = lowered(token);
    if t == seq!['h'] {
        Some(TimeUnit::Hours)
    } else if t == seq!['m', 'i', 'n'] {
        Some(TimeUnit::Minutes)
    } else if t == seq!['s'] {
        Some(TimeUnit::Seconds)
    } else if t == seq!['m', 's'] {
        Some(TimeUnit::Milliseconds)
    } else {
        None
    }
}

/// Every character of a unit token is an ASCII letter.
pub proof fn lemma_unit_token_is_ascii(token: Seq<char>)
    requires
        unit_of(token) is Some,
    ensures
        1 <= token.len() <= 3,
        is_ascii_chars(token),
        forall|i: int| 0 <= i < token.len() ==> !is_digit(#[trigger] token[i]),
{
    let t = lowered(token);
    assert(t.len() == token.len());
    assert forall|i: int| 0 <= i < token.len() implies '\0' <= #[trigger] token[i] <= '\u{7f}'
        && !is_digit(token[i]) by {
        assert(t[i] == ascii_lower(token[i]));
        assert(t[i] == 'h' || t[i] == 'm' || t[i] == 'i' || t[i] == 'n' || t[i] == 's');
    }
}

/// Whether a character is one of the ten decimal digits.
pub open spec fn is_digit(c: char) -> bool {
    '0' <= c && c <= '9'
}

fn lower_byte(b: u8) -> (r: u8)
    ensures
        b < 128 ==> r == ascii_lower(b as char) as u8,
        r < 128 <==> b < 128,
{
    if 65 <= b && b <= 90 {
        b + 32
    } else {
        b
    }
}

impl TimeUnit {
    /// Number of milliseconds in one unit.
    pub open spec fn spec_millis(self) -> nat {
        match self {
            TimeUnit::Hours => 3_600_000,
            TimeUnit::Minutes => 60_000,
            TimeUnit::Seconds => 1_000,
            TimeUnit::Milliseconds => 1,
        }
    }

    /// Number of milliseconds in one unit.
    pub fn millis(self) -> (r: u64)
        ensures
            r == self.spec_millis(),
    {
        match self {
            TimeUnit::Hours => 3_600_000,
            TimeUnit::Minutes => 60_000,
            TimeUnit::Seconds => 1_000,
            TimeUnit::Milliseconds => 1,
        }
    }

    /// Reads a unit token (`h`, `min`, `s` or `ms`, in any mix of cases).
    ///
    /// Any other token is handed back inside the error.
    pub fn from_str(s: &str) -> (r: Result<TimeUnit, TimeUnitError>)
        ensures
            match r {
                Ok(unit) => unit_of(s@) == Some(unit),
                Err(e) => unit_of(s@) is None && e@ == s@,
            },
    {
        let found = TimeUnit::lookup(s);
        match found {
            Some(unit) => Ok(unit),
            None => Err(TimeUnitError { message: s.to_owned() }),
        }
    }

    /// The unit named by `s`, if any.
    pub fn lookup(s: &str) -> (r: Option<TimeUnit>)
        ensures
            r == unit_of(s@),
    {
        if !s.is_ascii() {
            proof {
                if unit_of(s@) is Some {
                    lemma_unit_token_is_ascii(s@);
                }
            }
            return None;
        }
        proof {
            is_ascii_chars_encode_utf8(s@);
        }
        let bytes = s.as_bytes();
        let n = bytes.len();
        let ghost t = lowered(s@);
        assert(t.len() == s@.len());
        assert(forall|i: int| 0 <= i < n ==> t[i] == ascii_lower(#[trigger] s@[i]));
        assert(forall|i: int| 0 <= i < n ==> s@[i] as u8 == #[trigger] bytes@[i]);
        if n == 1 {
            let a = lower_byte(bytes[0]);
            proof {
                assert(s@[0] as u8 == bytes@[0]);
                assert(t[0] == ascii_lower(s@[0]));
            }
            if a == 104 {
                assert(t =~= seq!['h']);
                Some(TimeUnit::Hours)
            } else if a == 115 {
                assert(t =~= seq!['s']);
                Some(TimeUnit::Seconds)
            } else {
                None
            }
        } else if n == 2 {
            let a = lower_byte(bytes[0]);
            let b = lower_byte(bytes[1]);
            proof {
                assert(s@[0] as u8 == bytes@[0]);
                assert(s@[1] as u8 == bytes@[1]);
                assert(t[0] == ascii_lower(s@[0]));
                assert(t[1] == ascii_lower(s@[1]));
            }
            if a == 109 && b == 115 {
                assert(t =~= seq!['m', 's']);
                Some(TimeUnit::Milliseconds)
            } else {
                None
            }
        } else if n == 3 {
            let a = lower_byte(bytes[0]);
            let b = lower_byte(bytes[1]);
            let c = lower_byte(bytes[2]);
            proof {
                assert(s@[0] as u8 == bytes@[0]);
                assert(s@[1] as u8 == bytes@[1]);
                assert(s@[2] as u8 == bytes@[2]);
                assert(t[0] == ascii_lower(s@[0]));
                assert(t[1] == ascii_lower(s@[1]));
                assert(t[2] == ascii_lower(s@[2]));
            }
            if a == 109 && b == 105 && c == 110 {
                assert(t =~= seq!['m', 'i', 'n']);
                Some(TimeUnit::Minutes)
            } else {
                None
            }
        } else {
            None
        }
    }
}


/// Why a duration string was rejected.
#[derive(Debug, PartialEq, Eq, Structural, Clone, Copy)]
pub enum ParseError {
    /// The text is not a run of digits directly followed by a unit token.
    InvalidFormat,
    /// The magnitude is zero, or too large for an [`Interval`] to hold.
    InvalidMagnitude,
    /// The unit token could not be turned into a [`TimeUnit`].
    UnknownUnit,
}

/// A time interval: a magnitude and the unit it is counted in.
#[derive(Debug, PartialEq, Eq, Structural, Clone, Copy)]
pub struct Interval {
    pub value: u32,
    pub unit: TimeUnit,
}

/// Numeric value of a decimal digit.
pub open spec fn digit_value(c: char) -> nat
    recommends
        is_digit(c),
{
    (c as u8 - 48) as nat
}

/// Whether every character of `s` is a decimal digit.
pub open spec fn all_digits(s: Seq<char>) -> bool {
    forall|i: int| 0 <= i < s.len() ==> is_digit(#[trigger] s[i])
}

/// The number written by a run of decimal digits, most significant first.
pub open spec fn decimal_value(digits: Seq<char>) -> nat
    decreases digits.len(),
{
    if digits.len() == 0 {
        0
    } else {
        10 * decimal_value(digits.drop_last()) + digit_value(digits.last())
    }
}

/// Length of the longest run of decimal digits that `s` starts with.
pub open spec fn digit_prefix_len(s: Seq<char>) -> nat
    decreases s.len(),
{
    if s.len() > 0 && is_digit(s[0]) {
        1 + digit_prefix_len(s.drop_first())
    } else {
        0
    }
}

/// What a duration string denotes.
///
/// The text is split after its leading digits. It is well formed when that
/// run is not empty and the remainder is a unit token; its magnitude must
/// then be positive and fit in 32 bits.
pub open spec fn parse_duration(text: Seq<char>) -> Result<Interval, ParseError> {
    let k = digit_prefix_len(text) as int;
    let magnitude = decimal_value(text.take(k));
    match unit_of(text.skip(k)) {
        None => Err(ParseError::InvalidFormat),
        Some(unit) => if k == 0 {
            Err(ParseError::InvalidFormat)
        } else if magnitude == 0 || magnitude > u32::MAX {
            Err(ParseError::InvalidMagnitude)
        } else {
            Ok(Interval { value: magnitude as u32, unit })
        },
    }
}

/// A position up to which `s` holds digits, and at which it holds none, is
/// the length of its digit prefix.
pub proof fn lemma_digit_prefix_len(s: Seq<char>, k: int)
    requires
        0 <= k <= s.len(),
        forall|i: int| 0 <= i < k ==> is_digit(#[trigger] s[i]),
        k < s.len() ==> !is_digit(s[k]),
    ensures
        digit_prefix_len(s) == k,
    decreases k,
{
    if k > 0 {
        let rest = s.drop_first();
        assert forall|i: int| 0 <= i < k - 1 implies is_digit(#[trigger] rest[i]) by {
            assert(rest[i] == s[i + 1]);
        }
        lemma_digit_prefix_len(rest, k - 1);
    }
}

/// The digit prefix holds digits only and ends where the first other
/// character stands.
pub proof fn lemma_digit_prefix_bounds(s: Seq<char>)
    ensures
        digit_prefix_len(s) <= s.len(),
        all_digits(s.take(digit_prefix_len(s) as int)),
        digit_prefix_len(s) < s.len() ==> !is_digit(s[digit_prefix_len(s) as int]),
    decreases s.len(),
{
    if s.len() > 0 && is_digit(s[0]) {
        let rest = s.drop_first();
        lemma_digit_prefix_bounds(rest);
        let k = digit_prefix_len(s) as int;
        assert forall|i: int| 0 <= i < k implies is_digit(#[trigger] s.take(k)[i]) by {
            if i > 0 {
                assert(rest.take(k - 1)[i - 1] == s[i]);
            }
        }
        if k < s.len() {
            assert(rest[k - 1] == s[k]);
        }
    }
}

impl Interval {
    /// An interval of `value` units.
    pub fn new(value: u32, unit: TimeUnit) -> (r: Self)
        ensures
            r.value == value,
            r.unit == unit,
    {
        Self { value, unit }
    }

    /// An interval is usable as a period when its magnitude is positive.
    pub open spec fn wf(self) -> bool {
        self.value > 0
    }

    /// Length of the interval in milliseconds.
    pub open spec fn spec_millis(self) -> nat {
        self.value as nat * self.unit.spec_millis()
    }

    /// Length of the interval in milliseconds.
    pub fn to_millis(self) -> (r: u64)
        ensures
            r == self.spec_millis(),
            self.wf() ==> r > 0,
    {
        let per_unit = self.unit.millis();
        assert(self.value as nat * per_unit as nat <= u32::MAX as nat * 3_600_000) by (nonlinear_arith)
            requires
                self.value <= u32::MAX,
                per_unit <= 3_600_000,
        ;
        assert(self.wf() ==> self.value as nat * per_unit as nat > 0) by (nonlinear_arith)
            requires
                per_unit >= 1,
        ;
        (self.value as u64) * per_unit
    }
}

/// The interval of a check that names none: thirty seconds.
pub open spec fn default_interval() -> Interval {
    Interval { value: 30, unit: TimeUnit::Seconds }
}

impl Default for Interval {
    /// Thirty seconds.
    fn default() -> (r: Self)
        ensures
            r == default_interval(),
    {
        Interval { value: 30, unit: TimeUnit::Seconds }
    }
}

/// Reads a duration: decimal digits directly followed by one of the unit
/// tokens `h`, `min`, `s` or `ms` (letters of either case), and nothing else.
pub fn interval_from_str(text: &str) -> (r: Result<Interval, ParseError>)
    ensures
        r == parse_duration(text@),
{
    if !text.is_ascii() {
        proof {
            lemma_non_ascii_is_malformed(text@);
        }
        return Err(ParseError::InvalidFormat);
    }
    proof {
        is_ascii_chars_encode_utf8(text@);
    }
    let bytes = text.as_bytes();
    let n = bytes.len();
    assert(forall|i: int| 0 <= i < n ==> text@[i] as u8 == #[trigger] bytes@[i]);
    let mut k: usize = 0;
    let mut value: u64 = 0;
    while k < n && 48 <= bytes[k] && bytes[k] <= 57
        invariant
            n == bytes@.len(),
            n == text@.len(),
            k <= n,
            is_ascii_chars(text@),
            forall|i: int| 0 <= i < n ==> text@[i] as u8 == #[trigger] bytes@[i],
            forall|i: int| 0 <= i < k ==> is_digit(#[trigger] text@[i]),
            value <= 0x1_0000_0000,
            value == if decimal_value(text@.take(k as int)) > u32::MAX {
                0x1_0000_0000
            } else {
                decimal_value(text@.take(k as int))
            },
        decreases n - k,
    {
        let digit = (bytes[k] - 48) as u64;
        proof {
            let next = text@.take(k + 1);
            assert(next.drop_last() =~= text@.take(k as int));
            assert(next.last() == text@[k as int]);
            assert(text@[k as int] as u8 == bytes@[k as int]);
            assert(is_digit(text@[k as int]));
            assert(digit_value(text@[k as int]) == digit);
        }
        value = value * 10 + digit;
        if value > 0xffff_ffff {
            value = 0x1_0000_0000;
        }
        k = k + 1;
    }
    proof {
        if k < n {
            assert(text@[k as int] as u8 == bytes@[k as int]);
        }
        lemma_digit_prefix_len(text@, k as int);
    }
    let token = text.substring_ascii(k, n);
    assert(token@ == text@.skip(k as int));
    if k == 0 || TimeUnit::lookup(token).is_none() {
        return Err(ParseError::InvalidFormat);
    }
    if value == 0 || value > 0xffff_ffff {
        return Err(ParseError::InvalidMagnitude);
    }
    match TimeUnit::from_str(token) {
        Ok(unit) => Ok(Interval::new(value as u32, unit)),
        Err(_) => Err(ParseError::UnknownUnit),
    }
}

/// A text with a character outside ASCII is not a duration.
proof fn lemma_non_ascii_is_malformed(text: Seq<char>)
    requires
        !is_ascii_chars(text),
    ensures
        parse_duration(text) == Err::<Interval, ParseError>(ParseError::InvalidFormat),
{
    let k = digit_prefix_len(text) as int;
    lemma_digit_prefix_bounds(text);
    if unit_of(text.skip(k)) is Some {
        lemma_unit_token_is_ascii(text.skip(k));
        assert forall|i: int| 0 <= i < text.len() implies '\0' <= #[trigger] text[i] <= '\u{7f}' by {
            if i < k {
                assert(text.take(k)[i] == text[i]);
            } else {
                assert(text.skip(k)[i - k] == text[i]);
            }
        }
    }
}


/// Digits followed by a text that starts with no digit split exactly between
/// the two.
pub proof fn lemma_split_after_digits(digits: Seq<char>, rest: Seq<char>)
    requires
        all_digits(digits),
        rest.len() > 0 ==> !is_digit(rest[0]),
    ensures
        digit_prefix_len(digits + rest) == digits.len(),
        (digits + rest).take(digits.len() as int) == digits,
        (digits + rest).skip(digits.len() as int) == rest,
{
    let text = digits + rest;
    let k = digits.len() as int;
    assert forall|i: int| 0 <= i < k implies is_digit(#[trigger] text[i]) by {
        assert(text[i] == digits[i]);
    }
    if k < text.len() {
        assert(text[k] == rest[0]);
    }
    lemma_digit_prefix_len(text, k);
    assert(text.take(k) =~= digits);
    assert(text.skip(k) =~= rest);
}

/// Every magnitude in range, written in decimal and directly followed by a
/// unit token, parses to that magnitude and that unit.
pub proof fn lemma_valid_duration_parses(digits: Seq<char>, token: Seq<char>)
    requires
        digits.len() > 0,
        all_digits(digits),
        unit_of(token) is Some,
        0 < decimal_value(digits) <= u32::MAX,
    ensures
        parse_duration(digits + token) == Ok::<Interval, ParseError>(
            Interval { value: decimal_value(digits) as u32, unit: unit_of(token).unwrap() },
        ),
{
    lemma_unit_token_is_ascii(token);
    lemma_split_after_digits(digits, token);
}

/// A magnitude of zero is rejected, whatever the unit.
pub proof fn lemma_zero_magnitude_rejected(digits: Seq<char>, token: Seq<char>)
    requires
        digits.len() > 0,
        all_digits(digits),
        unit_of(token) is Some,
        decimal_value(digits) == 0,
    ensures
        parse_duration(digits + token) == Err::<Interval, ParseError>(
            ParseError::InvalidMagnitude,
        ),
{
    lemma_unit_token_is_ascii(token);
    lemma_split_after_digits(digits, token);
}

/// A magnitude followed by anything but a unit token is rejected.
///
/// The remainder must not itself start with a digit, for then it would
/// belong to the magnitude.
pub proof fn lemma_unknown_unit_rejected(digits: Seq<char>, token: Seq<char>)
    requires
        all_digits(digits),
        token.len() > 0 ==> !is_digit(token[0]),
        unit_of(token) is None,
    ensures
        parse_duration(digits + token) == Err::<Interval, ParseError>(ParseError::InvalidFormat),
{
    lemma_split_after_digits(digits, token);
}

/// Characters appended to a duration make it unreadable.
pub proof fn lemma_trailing_characters_rejected(text: Seq<char>, extra: Seq<char>)
    requires
        parse_duration(text) is Ok,
        extra.len() > 0,
    ensures
        parse_duration(text + extra) == Err::<Interval, ParseError>(ParseError::InvalidFormat),
{
    let k = digit_prefix_len(text) as int;
    let digits = text.take(k);
    let token = text.skip(k);
    lemma_digit_prefix_bounds(text);
    lemma_unit_token_is_ascii(token);
    let longer = token + extra;
    assert(longer[0] == token[0]);
    assert(text + extra =~= digits + longer);
    lemma_split_after_digits(digits, longer);
    if unit_of(longer) is Some {
        let a = lowered(token);
        let b = lowered(longer);
        assert(a.len() == token.len() && b.len() == longer.len());
        assert forall|i: int| 0 <= i < a.len() implies a[i] == b[i] by {
            assert(longer[i] == token[i]);
        }
        assert(a[0] == b[0]);
        if a.len() >= 2 {
            assert(a[1] == b[1]);
        }
    }
}

/// Characters put in front of a duration make it unreadable, unless all of
/// them are digits, which lengthen the magnitude.
pub proof fn lemma_leading_characters_rejected(extra: Seq<char>, text: Seq<char>)
    requires
        parse_duration(text) is Ok,
        !all_digits(extra),
    ensures
        parse_duration(extra + text) is Err,
{
    let whole = extra + text;
    let k = digit_prefix_len(text) as int;
    let j = digit_prefix_len(whole) as int;
    lemma_digit_prefix_bounds(text);
    lemma_digit_prefix_bounds(whole);
    if parse_duration(whole) is Ok {
        lemma_unit_token_is_ascii(whole.skip(j));
        assert(text.take(k)[0] == text[0]);
        assert(whole[extra.len() as int] == text[0]);
        if j <= extra.len() {
            assert(whole.skip(j)[extra.len() - j] == whole[extra.len() as int]);
        }
        assert forall|i: int| 0 <= i < extra.len() implies is_digit(#[trigger] extra[i]) by {
            assert(whole.take(j)[i] == whole[i]);
            assert(whole[i] == extra[i]);
        }
    }
}

/// A text is never rejected for its unit alone: one whose unit token is not
/// recognised is already malformed.
pub proof fn lemma_unit_is_settled_by_the_format(text: Seq<char>)
    ensures
        parse_duration(text) != Err::<Interval, ParseError>(ParseError::UnknownUnit),
{
}

/// A text that is a magnitude in range directly followed by a unit token.
pub open spec fn is_duration(text: Seq<char>) -> bool {
    exists|k: int|
        0 < k <= text.len() && all_digits(#[trigger] text.take(k)) && unit_of(text.skip(k)) is Some
            && 0 < decimal_value(text.take(k)) <= u32::MAX
}

/// Parsing succeeds on the durations and on nothing else.
pub proof fn lemma_parses_exactly_durations(text: Seq<char>)
    ensures
        parse_duration(text) is Ok <==> is_duration(text),
{
    if parse_duration(text) is Ok {
        let k = digit_prefix_len(text) as int;
        lemma_digit_prefix_bounds(text);
        assert(all_digits(text.take(k)));
    }
    if is_duration(text) {
        let k = choose|k: int|
            0 < k <= text.len() && all_digits(#[trigger] text.take(k)) && unit_of(text.skip(k))
                is Some && 0 < decimal_value(text.take(k)) <= u32::MAX;
        assert(text =~= text.take(k) + text.skip(k));
        lemma_valid_duration_parses(text.take(k), text.skip(k));
    }
}

} // verus!
