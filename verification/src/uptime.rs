use vstd::prelude::*;
use vstd::slice::slice_subrange;
use vstd::string::StringSliceAdditionalSpecFns;

verus! {

/// Why no uptime could be read from a server's answer to `INFO SERVER`.
#[derive(Debug, Clone, Copy, PartialEq, Eq, Structural)]
pub enum UptimeError {
    /// No line of the answer names the uptime.
    NoUptimeLine,
    /// The line that names the uptime holds no colon, so no value.
    NoValue,
    /// What follows the colon is not a number that fits 64 bits.
    BadNumber,
}

/// The byte that ends a line.
pub const LINE_FEED: u8 = 10;

/// The byte that may stand before a line feed without being part of the line.
pub const CARRIAGE_RETURN: u8 = 13;

/// The byte that parts the fields of a line.
pub const COLON: u8 = 58;

/// The sign that a number may begin with.
pub const PLUS: u8 = 43;

/// The digit 0. The other digits follow it, up to [`DIGIT_NINE`].
pub const DIGIT_ZERO: u8 = 48;

/// The digit 9.
pub const DIGIT_NINE: u8 = 57;

/// The name by which the server's answer calls its uptime.
pub open spec fn uptime_key() -> Seq<u8> {
    "uptime_in_seconds".spec_bytes()
}

/// The number of bytes of `s` that stand before its first `byte`; all of
/// them where `s` holds no `byte`.
pub open spec fn span(s: Seq<u8>, byte: u8) -> int
    decreases s.len(),
{
    if s.len() == 0 || s[0] == byte {
        0
    } else {
        1 + span(s.drop_first(), byte)
    }
}

/// The first line of `s`: what stands before the first line feed, less a
/// carriage return directly before that line feed. Where `s` holds no line
/// feed, all of it is the line, a carriage return at its end included.
pub open spec fn first_line(s: Seq<u8>) -> Seq<u8> {
    let n = span(s, LINE_FEED);
    if 0 < n < s.len() && s[n - 1] == CARRIAGE_RETURN {
        s.take(n - 1)
    } else {
        s.take(n)
    }
}

/// What follows the first line of `s` and the line feed that ends it.
pub open spec fn after_first_line(s: Seq<u8>) -> Seq<u8> {
    let n = span(s, LINE_FEED);
    if n < s.len() {
        s.skip(n + 1)
    } else {
        s.skip(n)
    }
}

/// `needle` stands in `hay` from position `at` on.
pub open spec fn occurs_at(hay: Seq<u8>, needle: Seq<u8>, at: int) -> bool {
    0 <= at && at + needle.len() <= hay.len() && hay.subrange(at, at + needle.len()) == needle
}

/// `needle` stands somewhere in `hay`.
pub open spec fn occurs(hay: Seq<u8>, needle: Seq<u8>) -> bool {
    exists|at: int| occurs_at(hay, needle, at)
}

/// The first line of `info` in which [`uptime_key`] stands, if there is one.
/// A line feed at the very end of `info` is followed by no further line.
pub open spec fn uptime_line(info: Seq<u8>) -> Option<Seq<u8>>
    decreases info.len(),
{
    if info.len() == 0 {
        None
    } else if occurs(first_line(info), uptime_key()) {
        Some(first_line(info))
    } else {
        proof {
            lemma_span_is_first(info, LINE_FEED);
        }
        uptime_line(after_first_line(info))
    }
}

/// The second of the fields that colons part `line` into: what stands
/// between the first colon and the next, or the end of the line. A line
/// without a colon has no second field.
pub open spec fn value_field(line: Seq<u8>) -> Option<Seq<u8>> {
    let colon = span(line, COLON);
    if colon == line.len() {
        None
    } else {
        let tail = line.skip(colon + 1);
        Some(tail.take(span(tail, COLON)))
    }
}

/// `byte` is one of the digits 0 to 9.
pub open spec fn is_digit(byte: u8) -> bool {
    DIGIT_ZERO <= byte <= DIGIT_NINE
}

/// `s` holds digits only.
pub open spec fn all_digits(s: Seq<u8>) -> bool {
    forall|i: int| 0 <= i < s.len() ==> is_digit(#[trigger] s[i])
}

/// The number that the digits of `s` write in base ten.
pub open spec fn digits_value(s: Seq<u8>) -> nat
    decreases s.len(),
{
    if s.len() == 0 {
        0
    } else {
        digits_value(s.drop_last()) * 10 + (s.last() - DIGIT_ZERO) as nat
    }
}

/// The number that `digits` writes: one digit or more and nothing else, as
/// long as the number fits 64 bits.
pub open spec fn unsigned_number(digits: Seq<u8>) -> Option<u64> {
    if digits.len() > 0 && all_digits(digits) && digits_value(digits) <= u64::MAX {
        Some(digits_value(digits) as u64)
    } else {
        None
    }
}

/// The number that `field` writes: an [`unsigned_number`], with or without
/// one plus sign before it.
pub open spec fn number(field: Seq<u8>) -> Option<u64> {
    if field.len() > 0 && field[0] == PLUS {
        unsigned_number(field.drop_first())
    } else {
        unsigned_number(field)
    }
}

/// The uptime that `line` gives in its second field.
pub open spec fn line_value(line: Seq<u8>) -> Result<u64, UptimeError> {
    match value_field(line) {
        None => Err(UptimeError::NoValue),
        Some(field) => match number(field) {
            None => Err(UptimeError::BadNumber),
            Some(seconds) => Ok(seconds),
        },
    }
}

/// The uptime in seconds that the answer `info` to `INFO SERVER` gives: the
/// value of the first line that names it.
pub open spec fn uptime_of(info: Seq<u8>) -> Result<u64, UptimeError> {
    match uptime_line(info) {
        None => Err(UptimeError::NoUptimeLine),
        Some(line) => line_value(line),
    }
}

/// [`span`] is the place of the first `byte`: no `byte` stands before it, and
/// one stands at it unless it is the end of `s`.
pub proof fn lemma_span_is_first(s: Seq<u8>, byte: u8)
    ensures
        0 <= span(s, byte) <= s.len(),
        forall|i: int| 0 <= i < span(s, byte) ==> s[i] != byte,
        span(s, byte) < s.len() ==> s[span(s, byte)] == byte,
    decreases s.len(),
{
    if s.len() != 0 && s[0] != byte {
        let tail = s.drop_first();
        lemma_span_is_first(tail, byte);
        assert forall|i: int| 0 <= i < span(s, byte) implies s[i] != byte by {
            if i > 0 {
                assert(tail[i - 1] == s[i]);
            }
        }
    }
}

/// Only [`span`] is the place of the first `byte`.
pub proof fn lemma_first_is_span(s: Seq<u8>, byte: u8, n: int)
    requires
        0 <= n <= s.len(),
        forall|i: int| 0 <= i < n ==> s[i] != byte,
        n < s.len() ==> s[n] == byte,
    ensures
        n == span(s, byte),
{
    lemma_span_is_first(s, byte);
}

/// The digits read so far never write more than all the digits do.
pub proof fn lemma_digits_value_grows(s: Seq<u8>, n: int)
    requires
        0 <= n <= s.len(),
    ensures
        digits_value(s.take(n)) <= digits_value(s),
    decreases s.len() - n,
{
    if n < s.len() {
        lemma_digits_value_grows(s, n + 1);
        assert(s.take(n + 1).drop_last() =~= s.take(n));
    } else {
        assert(s.take(n) =~= s);
    }
}

impl UptimeError {
    /// What went wrong, in words.
    pub fn describe(&self) -> (text: &'static str)
        ensures
            text@ == match *self {
                UptimeError::NoUptimeLine => "No uptime line in response from server"@,
                UptimeError::NoValue => "No value for uptime in response from server"@,
                UptimeError::BadNumber => "Error while trying to parse uptime from response"@,
            },
    {
        match self {
            UptimeError::NoUptimeLine => "No uptime line in response from server",
            UptimeError::NoValue => "No value for uptime in response from server",
            UptimeError::BadNumber => "Error while trying to parse uptime from response",
        }
    }
}

/// Reads the server's uptime in seconds from its answer to `INFO SERVER`.
pub fn get_uptime(info: &[u8]) -> (uptime: Result<u64, UptimeError>)
    ensures
        uptime == uptime_of(info@),
{
    let key = "uptime_in_seconds".as_bytes();
    let mut rest = info;
    while rest.len() > 0
        invariant
            key@ == uptime_key(),
            uptime_line(rest@) == uptime_line(info@),
        decreases rest.len(),
    {
        let n = find(rest, LINE_FEED);
        let end = if 0 < n && n < rest.len() && rest[n - 1] == CARRIAGE_RETURN {
            n - 1
        } else {
            n
        };
        let line = slice_subrange(rest, 0, end);
        assert(line@ =~= first_line(rest@));
        if holds(line, key) {
            return read_value(line);
        }
        let next = if n < rest.len() {
            n + 1
        } else {
            n
        };
        let ghost before = rest@;
        rest = slice_subrange(rest, next, rest.len());
        assert(rest@ =~= after_first_line(before));
    }
    Err(UptimeError::NoUptimeLine)
}

/// Reads the uptime from the line that names it.
fn read_value(line: &[u8]) -> (uptime: Result<u64, UptimeError>)
    ensures
        uptime == line_value(line@),
{
    let colon = find(line, COLON);
    if colon == line.len() {
        return Err(UptimeError::NoValue);
    }
    let tail = slice_subrange(line, colon + 1, line.len());
    assert(tail@ =~= line@.skip(colon + 1));
    let field = slice_subrange(tail, 0, find(tail, COLON));
    assert(field@ =~= tail@.take(span(tail@, COLON)));
    match read_number(field) {
        Some(seconds) => Ok(seconds),
        None => Err(UptimeError::BadNumber),
    }
}

/// The place of the first `byte` in `s`, or the length of `s`.
fn find(s: &[u8], byte: u8) -> (n: usize)
    ensures
        n == span(s@, byte),
        n <= s.len(),
{
    let mut n: usize = 0;
    while n < s.len() && s[n] != byte
        invariant
            n <= s.len(),
            forall|i: int| 0 <= i < n ==> s@[i] != byte,
        decreases s.len() - n,
    {
        n += 1;
    }
    proof {
        lemma_first_is_span(s@, byte, n as int);
    }
    n
}

/// Whether `needle` stands somewhere in `hay`.
fn holds(hay: &[u8], needle: &[u8]) -> (found: bool)
    ensures
        found == occurs(hay@, needle@),
{
    if needle.len() > hay.len() {
        assert forall|at: int| !occurs_at(hay@, needle@, at) by {}
        return false;
    }
    let last = hay.len() - needle.len();
    let mut at: usize = 0;
    loop
        invariant
            last == hay.len() - needle.len(),
            at <= last,
            forall|earlier: int| 0 <= earlier < at ==> !occurs_at(hay@, needle@, earlier),
        decreases last - at,
    {
        if matches_at(hay, needle, at) {
            assert(occurs_at(hay@, needle@, at as int));
            return true;
        }
        if at == last {
            assert forall|any: int| !occurs_at(hay@, needle@, any) by {}
            return false;
        }
        at += 1;
    }
}

/// Whether `needle` stands in `hay` from position `at` on.
fn matches_at(hay: &[u8], needle: &[u8], at: usize) -> (same: bool)
    requires
        at + needle.len() <= hay.len(),
    ensures
        same == occurs_at(hay@, needle@, at as int),
{
    let mut k: usize = 0;
    while k < needle.len()
        invariant
            at + needle.len() <= hay.len(),
            k <= needle.len(),
            forall|i: int| 0 <= i < k ==> hay@[at + i] == needle@[i],
        decreases needle.len() - k,
    {
        if hay[at + k] != needle[k] {
            assert(hay@.subrange(at as int, at + needle.len())[k as int] != needle@[k as int]);
            return false;
        }
        k += 1;
    }
    assert(hay@.subrange(at as int, at + needle.len()) =~= needle@);
    true
}

/// The number that `field` writes, if it writes one.
fn read_number(field: &[u8]) -> (value: Option<u64>)
    ensures
        value == number(field@),
{
    if field.len() > 0 && field[0] == PLUS {
        let digits = slice_subrange(field, 1, field.len());
        assert(digits@ =~= field@.drop_first());
        read_unsigned(digits)
    } else {
        read_unsigned(field)
    }
}

/// The number that `digits` writes, if they are digits and write one.
fn read_unsigned(digits: &[u8]) -> (value: Option<u64>)
    ensures
        value == unsigned_number(digits@),
{
    if digits.len() == 0 {
        return None;
    }
    let mut value: u64 = 0;
    let mut i: usize = 0;
    while i < digits.len()
        invariant
            i <= digits.len(),
            all_digits(digits@.take(i as int)),
            value == digits_value(digits@.take(i as int)),
        decreases digits.len() - i,
    {
        let byte = digits[i];
        let ghost seen = digits@.take(i + 1);
        proof {
            assert(seen.drop_last() =~= digits@.take(i as int));
            assert(seen.last() == byte);
        }
        if byte < DIGIT_ZERO || byte > DIGIT_NINE {
            assert(!is_digit(digits@[i as int]));
            return None;
        }
        let digit: u64 = (byte - DIGIT_ZERO) as u64;
        let grown = match value.checked_mul(10) {
            Some(tenfold) => tenfold.checked_add(digit),
            None => None,
        };
        match grown {
            Some(more) => {
                value = more;
            },
            None => {
                proof {
                    lemma_digits_value_grows(digits@, i + 1);
                }
                return None;
            },
        }
        assert forall|k: int| 0 <= k < seen.len() implies is_digit(#[trigger] seen[k]) by {
            if k < i {
                assert(digits@.take(i as int)[k] == seen[k]);
            }
        }
        i += 1;
    }
    assert(digits@.take(digits@.len() as int) =~= digits@);
    Some(value)
}

} // verus!
