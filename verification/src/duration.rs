use vstd::prelude::*;

use crate::error::PipeError;

verus! {

/// A timeout: whole seconds and the nanoseconds beyond them.
#[derive(Clone, Copy, Debug, PartialEq, Eq, Structural)]
pub struct Timeout {
    pub secs: u64,
    pub nanos: u32,
}

impl Timeout {
    /// The nanosecond part is below one second.
    pub open spec fn wf(self) -> bool {
        self.nanos < 1_000_000_000
    }
}

/// What `humantime::parse_duration` makes of a text: the duration as whole
/// seconds and sub-second nanoseconds, or the message of its error.
pub uninterp spec fn humantime_parse(text: Seq<char>) -> Result<Timeout, Seq<char>>;

/// The text `0`, which humantime reads as the zero duration.
pub open spec fn zero_text() -> Seq<char> {
    seq!['0']
}

/// The number of ASCII digits (bytes `0` to `9`) in `bytes`.
pub open spec fn digit_count(bytes: Seq<u8>) -> nat
    decreases bytes.len(),
{
    if bytes.len() == 0 {
        0
    } else {
        digit_count(bytes.drop_last()) + if 48u8 <= bytes.last() && bytes.last() <= 57u8 {
            1nat
        } else {
            0nat
        }
    }
}

/// The number that the ASCII digits of `bytes`, read in order and all others
/// skipped, spell in decimal.
pub open spec fn digits_value(bytes: Seq<u8>) -> nat
    decreases bytes.len(),
{
    if bytes.len() == 0 {
        0
    } else if 48u8 <= bytes.last() && bytes.last() <= 57u8 {
        digits_value(bytes.drop_last()) * 10 + (bytes.last() - 48u8) as nat
    } else {
        digits_value(bytes.drop_last())
    }
}

/// A bound on the duration a text can spell: the value of all its digits
/// read as one number, plus twice their count.
pub open spec fn duration_weight(bytes: Seq<u8>) -> nat {
    digits_value(bytes) + 2 * digit_count(bytes)
}

/// The largest `duration_weight` of a duration text that is parsed.
///
/// `humantime` only panics when its running total reaches `u64::MAX` seconds
/// with a full second of nanoseconds still to carry (`Duration::new` then
/// overflows). Each of its numbers is made of a run of the text's digits, so
/// their sum is at most `digits_value`; each number is scaled by a unit of at
/// most a year (31,557,600 seconds), and each term's fraction and nanosecond
/// carries add at most two more years; every term has at least one digit,
/// hence the `2 * digit_count`. So the total stays at most
/// `duration_weight * 31,557,600 <= u64::MAX - 1` seconds, and the panic
/// cannot be reached. Texts above the bound are refused, though humantime
/// parses some of them (such as `"600000000000ns"`, ten minutes): which of
/// them it parses cannot be told without repeating its parser.
pub const MAX_DURATION_WEIGHT: u64 = 584_542_046_090;

proof fn lemma_weight_grows(bytes: Seq<u8>, i: int, j: int)
    requires
        0 <= i <= j <= bytes.len(),
    ensures
        digits_value(bytes.take(i)) <= digits_value(bytes.take(j)),
        digit_count(bytes.take(i)) <= digit_count(bytes.take(j)),
    decreases j - i,
{
    if i < j {
        lemma_weight_grows(bytes, i, j - 1);
        assert(bytes.take(j).drop_last() =~= bytes.take(j - 1));
    }
}

/// An ASCII digit byte.
pub open spec fn is_ascii_digit(b: u8) -> bool {
    48u8 <= b && b <= 57u8
}

/// The digit bytes of `bytes`, in order.
pub open spec fn digits_of(bytes: Seq<u8>) -> Seq<u8> {
    bytes.filter(|b: u8| is_ascii_digit(b))
}

/// Bytes that are not digits do not weigh: appending one leaves the weight
/// of a text as it was.
pub proof fn lemma_weight_ignores_non_digits(bytes: Seq<u8>, c: u8)
    requires
        !is_ascii_digit(c),
    ensures
        duration_weight(bytes.push(c)) == duration_weight(bytes),
{
    assert(bytes.push(c).drop_last() =~= bytes);
}

/// Appending a digit multiplies the weight by at most ten, plus eleven.
pub proof fn lemma_weight_of_digit(bytes: Seq<u8>, d: u8)
    requires
        is_ascii_digit(d),
    ensures
        duration_weight(bytes.push(d)) <= 10 * duration_weight(bytes) + 11,
{
    assert(bytes.push(d).drop_last() =~= bytes);
}

/// The largest weight of a text with `k` digits.
spec fn weight_cap(k: nat) -> nat
    decreases k,
{
    if k == 0 {
        0
    } else {
        10 * weight_cap((k - 1) as nat) + 11
    }
}

proof fn lemma_weight_capped(bytes: Seq<u8>)
    ensures
        duration_weight(bytes) <= weight_cap(digits_of(bytes).len()),
    decreases bytes.len(),
{
    if bytes.len() == 0 {
        assert(digits_of(bytes).len() == 0);
    } else {
        let init = bytes.drop_last();
        let c = bytes.last();
        lemma_weight_capped(init);
        assert(init.push(c) =~= bytes);
        if is_ascii_digit(c) {
            lemma_weight_of_digit(init, c);
            reveal_with_fuel(Seq::filter, 2);
            assert(digits_of(bytes) == digits_of(init).push(c));
        } else {
            lemma_weight_ignores_non_digits(init, c);
            reveal_with_fuel(Seq::filter, 2);
            assert(digits_of(bytes) == digits_of(init));
        }
    }
}

proof fn lemma_weight_cap_grows(i: nat, j: nat)
    requires
        i <= j,
    ensures
        weight_cap(i) <= weight_cap(j),
    decreases j,
{
    if i < j {
        lemma_weight_cap_grows(i, (j - 1) as nat);
    }
}

/// A duration text with at most eleven digits (any number of other
/// characters) is within `MAX_DURATION_WEIGHT`: `parse_timeout_arg` hands it
/// to humantime and gives humantime's result.
pub proof fn lemma_short_duration_within_bound(bytes: Seq<u8>)
    requires
        digits_of(bytes).len() <= 11,
    ensures
        duration_weight(bytes) <= MAX_DURATION_WEIGHT,
{
    lemma_weight_capped(bytes);
    lemma_weight_cap_grows(digits_of(bytes).len(), 11);
    assert(weight_cap(11) == 122_222_222_221) by {
        reveal_with_fuel(weight_cap, 12);
    }
}

/// Whether a duration text is within `MAX_DURATION_WEIGHT`, counted over the
/// text's UTF-8 encoding: every byte of a multi-byte UTF-8 sequence is at
/// least 128, so the ASCII digit bytes are exactly its digit characters.
pub fn duration_within_bound(text: &str) -> (res: bool)
    ensures
        res == (duration_weight(vstd::utf8::encode_utf8(text@)) <= MAX_DURATION_WEIGHT),
{
    let bytes = text.as_bytes();
    let ghost b = bytes@;
    let mut value: u64 = 0;
    let mut count: u64 = 0;
    let mut i: usize = 0;
    while i < bytes.len()
        invariant
            b == bytes@,
            b == vstd::utf8::encode_utf8(text@),
            i <= b.len(),
            value == digits_value(b.take(i as int)),
            count == digit_count(b.take(i as int)),
            value + 2 * count <= MAX_DURATION_WEIGHT,
        decreases b.len() - i,
    {
        assert(b.take((i + 1) as int).drop_last() =~= b.take(i as int));
        let c = bytes[i];
        if 48u8 <= c && c <= 57u8 {
            value = value * 10 + (c - 48u8) as u64;
            count = count + 1;
        }
        i = i + 1;
        assert(value == digits_value(b.take(i as int)));
        assert(count == digit_count(b.take(i as int)));
        if value + 2 * count > MAX_DURATION_WEIGHT {
            proof {
                lemma_weight_grows(b, i as int, b.len() as int);
                assert(b.take(b.len() as int) =~= b);
                assert(duration_weight(b) >= value + 2 * count);
                assert(b == vstd::utf8::encode_utf8(text@));
            }
            return false;
        }
    }
    assert(b.take(b.len() as int) =~= b);
    true
}

/// `humantime::parse_duration`, its `Duration` taken apart by `as_secs` and
/// `subsec_nanos` and its error by `Display`. Beside the name of its result,
/// the contract states what std documents of `subsec_nanos` (below one second)
/// and what humantime's source does first: `"0"` is the zero duration. Texts
/// above `MAX_DURATION_WEIGHT` are left out: among them are those on which the
/// parser panics.
#[verifier::external_body]
fn humantime_parse_duration(text: &str) -> (res: Result<Timeout, String>)
    requires
        duration_weight(vstd::utf8::encode_utf8(text@)) <= MAX_DURATION_WEIGHT,
    ensures
        res matches Ok(d) ==> (humantime_parse(text@) matches Ok(p) && p == d),
        res matches Ok(d) ==> d.wf(),
        res matches Err(m) ==> (humantime_parse(text@) matches Err(p) && p == m@),
        res matches Ok(d) ==> (text@ == zero_text() ==> d.secs == 0 && d.nanos == 0),
        res is Ok || text@ != zero_text(),
{
    match humantime::parse_duration(text) {
        Ok(d) => Ok(Timeout { secs: d.as_secs(), nanos: d.subsec_nanos() }),
        Err(e) => Err(format!("{}", e)),
    }
}

/// Turns a parse of a duration text into an optional timeout, or the error
/// that carries the parser's message.
pub fn duration_from_parse(parsed: Result<Timeout, String>) -> (res: Result<
    Option<Timeout>,
    PipeError,
>)
    ensures
        parsed matches Ok(d) ==> (res matches Ok(Some(t)) && t == d),
        parsed matches Err(m) ==> (res matches Err(PipeError::Duration(msg)) && msg@ == m@),
{
    match parsed {
        Ok(d) => Ok(Some(d)),
        Err(m) => Err(PipeError::Duration(m)),
    }
}

/// Parses an optional human-readable duration such as `"1s 500ms"`: no text
/// means no timeout. The text is within `MAX_DURATION_WEIGHT`.
pub fn parse_optional_duration(text: Option<&str>) -> (res: Result<Option<Timeout>, PipeError>)
    requires
        text matches Some(t) ==> duration_weight(vstd::utf8::encode_utf8(t@)) <= MAX_DURATION_WEIGHT,
    ensures
        text is None ==> res matches Ok(None),
        text matches Some(t) ==> match humantime_parse(t@) {
            Ok(d) => (res matches Ok(Some(r)) && r == d && r.wf()),
            Err(m) => (res matches Err(PipeError::Duration(msg)) && msg@ == m),
        },
{
    match text {
        None => Ok(None),
        Some(t) => duration_from_parse(humantime_parse_duration(t)),
    }
}

/// A timeout argument as a caller gives it: a text above
/// `MAX_DURATION_WEIGHT` is refused, any other is parsed by
/// `parse_optional_duration`.
pub fn parse_timeout_arg(text: Option<&str>) -> (res: Result<Option<Timeout>, PipeError>)
    ensures
        text is None ==> res matches Ok(None),
        text matches Some(t) ==> if duration_weight(vstd::utf8::encode_utf8(t@)) > MAX_DURATION_WEIGHT {
            res matches Err(e) && e == PipeError::DurationTooLong
        } else {
            match humantime_parse(t@) {
                Ok(d) => (res matches Ok(Some(r)) && r == d && r.wf()),
                Err(m) => (res matches Err(PipeError::Duration(msg)) && msg@ == m),
            }
        },
{
    match text {
        None => Ok(None),
        Some(t) => if !duration_within_bound(t) {
            Err(PipeError::DurationTooLong)
        } else {
            parse_optional_duration(Some(t))
        },
    }
}

/// How std's `Debug` shows the duration of `secs` seconds and `nanos`
/// nanoseconds, such as `1.5s` or `250ms`.
pub uninterp spec fn duration_debug_text(secs: u64, nanos: u32) -> Seq<char>;

/// `format!("{:?}", Duration::new(secs, nanos))`; `Duration::new` does not
/// panic when `nanos` is below one second.
#[verifier::external_body]
fn duration_debug(secs: u64, nanos: u32) -> (res: String)
    requires
        nanos < 1_000_000_000,
    ensures
        res@ == duration_debug_text(secs, nanos),
{
    format!("{:?}", std::time::Duration::new(secs, nanos))
}

/// A timeout as text, as a debugger shows it; no timeout gives no text.
pub fn timeout_text(timeout: Option<Timeout>) -> (res: Option<String>)
    requires
        timeout matches Some(t) ==> t.wf(),
    ensures
        timeout is None ==> res is None,
        timeout matches Some(t) ==> (res matches Some(s) && s@ == duration_debug_text(
            t.secs,
            t.nanos,
        )),
{
    match timeout {
        None => None,
        Some(t) => Some(duration_debug(t.secs, t.nanos)),
    }
}

} // verus!
