//! Human-readable durations for config fields (`"5s"`, `"250ms"`, `"10us"`).

use crate::number::{
    decimal, decimal_string, digits_value, is_digit, law_digits_read_as_their_value,
    law_other_texts_are_refused, read_u64, read_unsigned, NumberError,
};
use crate::text::{
    chars_of, is_space, law_trim_finds_the_text, law_trim_keeps_the_rest, string_of, trim,
    trim_chars,
};
use vstd::prelude::*;
use vstd::slice::slice_subrange;
use vstd::string::*;

verus! {

/// A span of time: whole seconds and the nanoseconds beyond them.
#[derive(Debug, Clone, Copy, PartialEq, Eq, Structural)]
pub struct Duration {
    pub secs: u64,
    pub nanos: u32,
}

impl Duration {
    /// The length of the span in nanoseconds.
    pub open spec fn total_nanos(self) -> nat {
        (self.secs * 1_000_000_000 + self.nanos) as nat
    }

    /// The nanosecond part stays below one second.
    pub open spec fn wf(self) -> bool {
        self.nanos < 1_000_000_000
    }

    /// A span of whole seconds.
    pub fn from_secs(n: u64) -> (r: Duration)
        ensures
            r.wf(),
            r.total_nanos() == n * 1_000_000_000,
    {
        Duration { secs: n, nanos: 0 }
    }

    /// A span of whole milliseconds.
    pub fn from_millis(n: u64) -> (r: Duration)
        ensures
            r.wf(),
            r.total_nanos() == n * 1_000_000,
    {
        Duration { secs: n / 1_000, nanos: (n % 1_000) as u32 * 1_000_000 }
    }

    /// A span of whole microseconds.
    pub fn from_micros(n: u64) -> (r: Duration)
        ensures
            r.wf(),
            r.total_nanos() == n * 1_000,
    {
        Duration { secs: n / 1_000_000, nanos: (n % 1_000_000) as u32 * 1_000 }
    }

    /// Whole microseconds in the span.
    pub fn as_micros(self) -> (r: u128)
        ensures
            r == self.total_nanos() / 1_000,
    {
        self.secs as u128 * 1_000_000 + (self.nanos / 1_000) as u128
    }
}

/// Two well-formed spans of the same length are the same span.
pub proof fn law_duration_is_its_length(a: Duration, b: Duration)
    requires
        a.wf(),
        b.wf(),
        a.total_nanos() == b.total_nanos(),
    ensures
        a == b,
{
}

/// The number in front of a unit, in nanoseconds.
pub open spec fn scaled(digits: Seq<char>, unit: nat) -> Result<nat, Seq<char>> {
    match read_unsigned(trim(digits), u64::MAX as nat) {
        Ok(n) => Ok(n * unit),
        Err(e) => Err(e.message_spec()),
    }
}

/// Whether `s` ends in the two characters `a`, `b`.
pub open spec fn ends_in(s: Seq<char>, a: char, b: char) -> bool {
    s.len() >= 2 && s[s.len() - 2] == a && s[s.len() - 1] == b
}

/// What a duration text denotes, in nanoseconds, or the error it is refused with.
pub open spec fn duration_value(s: Seq<char>) -> Result<nat, Seq<char>> {
    let t = trim(s);
    if ends_in(t, 'u', 's') {
        scaled(t.take(t.len() - 2), 1_000)
    } else if ends_in(t, 'm', 's') {
        scaled(t.take(t.len() - 2), 1_000_000)
    } else if t.len() >= 1 && t.last() == 's' {
        scaled(t.take(t.len() - 1), 1_000_000_000)
    } else {
        Err("unknown duration format: "@ + t)
    }
}

/// The text of a duration: its whole microseconds in the largest unit that
/// divides them.
pub open spec fn duration_text(d: Duration) -> Seq<char> {
    let micros = d.total_nanos() / 1_000;
    if micros % 1_000_000 == 0 {
        decimal(micros / 1_000_000) + seq!['s']
    } else if micros % 1_000 == 0 {
        decimal(micros / 1_000) + seq!['m', 's']
    } else {
        decimal(micros) + seq!['u', 's']
    }
}

fn read_scaled(digits: &[char]) -> (r: Result<u64, String>)
    ensures
        match r {
            Ok(n) => read_unsigned(trim(digits@), u64::MAX as nat) == Ok::<nat, NumberError>(
                n as nat,
            ),
            Err(e) => read_unsigned(trim(digits@), u64::MAX as nat) matches Err(x) && e@
                == x.message_spec(),
        },
{
    match read_u64(trim_chars(digits)) {
        Ok(n) => Ok(n),
        Err(e) => Err(e.message()),
    }
}

/// Parse a duration from a human-readable string like `"5s"`, `"250ms"`, `"10us"`.
pub fn parse_duration(s: &str) -> (r: Result<Duration, String>)
    ensures
        match r {
            Ok(d) => d.wf() && duration_value(s@) == Ok::<nat, Seq<char>>(d.total_nanos()),
            Err(e) => duration_value(s@) == Err::<nat, Seq<char>>(e@),
        },
{
    let cs = chars_of(s);
    let t = trim_chars(cs.as_slice());
    let n = t.len();
    if n >= 2 && t[n - 2] == 'u' && t[n - 1] == 's' {
        let digits = slice_subrange(t, 0, n - 2);
        assert(digits@ =~= t@.take(n - 2));
        match read_scaled(digits) {
            Ok(v) => Ok(Duration::from_micros(v)),
            Err(e) => Err(e),
        }
    } else if n >= 2 && t[n - 2] == 'm' && t[n - 1] == 's' {
        let digits = slice_subrange(t, 0, n - 2);
        assert(digits@ =~= t@.take(n - 2));
        match read_scaled(digits) {
            Ok(v) => Ok(Duration::from_millis(v)),
            Err(e) => Err(e),
        }
    } else if n >= 1 && t[n - 1] == 's' {
        let digits = slice_subrange(t, 0, n - 1);
        assert(digits@ =~= t@.take(n - 1));
        match read_scaled(digits) {
            Ok(v) => Ok(Duration::from_secs(v)),
            Err(e) => Err(e),
        }
    } else {
        let mut msg = "unknown duration format: ".to_owned();
        msg.append(string_of(t).as_str());
        Err(msg)
    }
}

/// The human-readable text of a duration.
pub fn serialize_duration(duration: &Duration) -> (r: String)
    ensures
        r@ == duration_text(*duration),
{
    let micros = duration.as_micros();
    if micros % 1_000_000 == 0 {
        let mut out = decimal_string(micros / 1_000_000);
        out.push('s');
        assert(out@ =~= duration_text(*duration));
        out
    } else if micros % 1_000 == 0 {
        let mut out = decimal_string(micros / 1_000);
        out.push('m');
        out.push('s');
        assert(out@ =~= duration_text(*duration));
        out
    } else {
        let mut out = decimal_string(micros);
        out.push('u');
        out.push('s');
        assert(out@ =~= duration_text(*duration));
        out
    }
}

/// Reads the text of a config field as a duration.
pub fn deserialize_duration(text: String) -> (r: Result<Duration, String>)
    ensures
        match r {
            Ok(d) => d.wf() && duration_value(text@) == Ok::<nat, Seq<char>>(d.total_nanos()),
            Err(e) => duration_value(text@) == Err::<nat, Seq<char>>(e@),
        },
{
    parse_duration(text.as_str())
}

proof fn lemma_decimal_is_digits(n: nat)
    ensures
        decimal(n).len() > 0,
        forall|i: int| 0 <= i < decimal(n).len() ==> is_digit(#[trigger] decimal(n)[i]),
    decreases n,
{
    if n >= 10 {
        lemma_decimal_is_digits(n / 10);
    }
}

proof fn lemma_trim_keeps(s: Seq<char>)
    requires
        s.len() > 0,
        !is_space(s[0]),
        !is_space(s.last()),
    ensures
        trim(s) == s,
{
    assert(s.skip(0) =~= s);
    assert(s.take(s.len() as int) =~= s);
}

/// The count of the unit that a duration is written in.
pub open spec fn written_count(d: Duration) -> nat {
    let micros = d.total_nanos() / 1_000;
    if micros % 1_000_000 == 0 {
        micros / 1_000_000
    } else if micros % 1_000 == 0 {
        micros / 1_000
    } else {
        micros
    }
}

/// Writing a duration and reading it back gives the duration, for every
/// duration of whole microseconds whose count of the written unit fits in 64
/// bits.
pub proof fn law_duration_round_trip(d: Duration)
    requires
        d.wf(),
        d.total_nanos() % 1_000 == 0,
        written_count(d) <= u64::MAX,
    ensures
        duration_value(duration_text(d)) == Ok::<nat, Seq<char>>(d.total_nanos()),
{
    let micros = d.total_nanos() / 1_000;
    let t = duration_text(d);
    let (v, k): (nat, int) = if micros % 1_000_000 == 0 {
        (micros / 1_000_000, 1)
    } else if micros % 1_000 == 0 {
        (micros / 1_000, 2)
    } else {
        (micros, 2)
    };
    lemma_decimal_is_digits(v);
    let digits = decimal(v);
    assert(t[0] == digits[0]);
    lemma_trim_keeps(t);
    assert(t.take(t.len() - k) =~= digits);
    assert(is_digit(digits[0]) && is_digit(digits.last()));
    lemma_trim_keeps(digits);
    crate::number::law_decimal_reads_back(v, u64::MAX as nat);
    if k == 1 {
        assert(is_digit(t[t.len() - 2]));
    }
}

/// Digits in front of `s`, `ms` or `us`, with or without spaces around, are
/// that many seconds, milliseconds or microseconds. A number that does not fit
/// in 64 bits is refused.
pub proof fn law_units(left: Seq<char>, digits: Seq<char>, right: Seq<char>)
    requires
        forall|i: int| 0 <= i < left.len() ==> (#[trigger] left[i]) == ' ',
        forall|i: int| 0 <= i < right.len() ==> (#[trigger] right[i]) == ' ',
        digits.len() > 0,
        forall|i: int| 0 <= i < digits.len() ==> '0' <= (#[trigger] digits[i]) <= '9',
    ensures
        ({
            let n = digits_value(digits);
            let large = Err::<nat, Seq<char>>("number too large to fit in target type"@);
            &&& duration_value(left + (digits + "s"@) + right) == if n <= u64::MAX {
                Ok::<nat, Seq<char>>((n * 1_000_000_000) as nat)
            } else {
                large
            }
            &&& duration_value(left + (digits + "ms"@) + right) == if n <= u64::MAX {
                Ok::<nat, Seq<char>>((n * 1_000_000) as nat)
            } else {
                large
            }
            &&& duration_value(left + (digits + "us"@) + right) == if n <= u64::MAX {
                Ok::<nat, Seq<char>>((n * 1_000) as nat)
            } else {
                large
            }
        }),
{
    reveal_strlit("s");
    reveal_strlit("ms");
    reveal_strlit("us");
    assert forall|i: int| 0 <= i < left.len() implies is_space(#[trigger] left[i]) by {
        assert(left[i] == ' ');
    }
    assert forall|i: int| 0 <= i < right.len() implies is_space(#[trigger] right[i]) by {
        assert(right[i] == ' ');
    }
    let k = digits.len();
    assert('0' <= digits[0] <= '9' && '0' <= digits[k - 1] <= '9');
    lemma_trim_keeps(digits);
    law_digits_read_as_their_value(digits, u64::MAX as nat);
    lemma_digits_are_counted(digits);
    let a = digits + "s"@;
    let b = digits + "ms"@;
    let c = digits + "us"@;
    law_trim_finds_the_text(left, a, right);
    law_trim_finds_the_text(left, b, right);
    law_trim_finds_the_text(left, c, right);
    assert(a.take(a.len() - 1) =~= digits);
    assert(b.take(b.len() - 2) =~= digits);
    assert(c.take(c.len() - 2) =~= digits);
    assert(a[a.len() - 2] == digits[k - 1]);
}

proof fn lemma_digits_are_counted(digits: Seq<char>)
    requires
        forall|i: int| 0 <= i < digits.len() ==> '0' <= (#[trigger] digits[i]) <= '9',
    ensures
        digits_value(digits) >= 0,
    decreases digits.len(),
{
    if digits.len() > 0 {
        let t = digits.drop_last();
        assert forall|i: int| 0 <= i < t.len() implies '0' <= (#[trigger] t[i]) <= '9' by {
            assert(t[i] == digits[i]);
        }
        lemma_digits_are_counted(t);
        let n = digits.len() - 1;
        assert('0' <= digits[n] <= '9');
    }
}

/// A text that does not end in `s`, once the spaces around it are cut, is no
/// duration, and the refusal quotes it.
pub proof fn law_other_texts_are_no_durations(s: Seq<char>)
    requires
        s.len() == 0 || !is_space(s[0]) && !is_space(s.last()) && s.last() != 's',
    ensures
        duration_value(s) == Err::<nat, Seq<char>>("unknown duration format: "@ + s),
{
    if s.len() > 0 {
        lemma_trim_keeps(s);
    } else {
        assert(trim(s) =~= s);
    }
}

/// What stands in front of the unit has to be a number.
pub proof fn law_bad_numbers_are_refused(s: Seq<char>, i: int)
    requires
        s.len() > 0,
        !is_space(s[0]) && !is_space(s.last()),
        0 <= i < s.len() - 2,
        !('0' <= s[i] <= '9') && !is_space(s[i]) && s[i] != '+',
    ensures
        duration_value(s) is Err,
{
    lemma_trim_keeps(s);
    let t = s;
    if ends_in(t, 'u', 's') || ends_in(t, 'm', 's') {
        lemma_bad_number(t.take(t.len() - 2), i);
    } else if t.last() == 's' {
        lemma_bad_number(t.take(t.len() - 1), i);
    }
}

proof fn lemma_bad_number(d: Seq<char>, i: int)
    requires
        0 <= i < d.len(),
        !('0' <= d[i] <= '9') && !is_space(d[i]) && d[i] != '+',
    ensures
        read_unsigned(trim(d), u64::MAX as nat) is Err,
{
    let t = trim(d);
    law_trim_keeps_the_rest(d, i);
    let k = choose|k: int| 0 <= k < t.len() && t[k] == d[i];
    law_other_texts_are_refused(t, u64::MAX as nat, k);
}

/// A duration is written in seconds where it is whole seconds, else in
/// milliseconds where it is whole milliseconds, else in whole microseconds.
pub proof fn law_largest_unit_is_written(d: Duration, n: nat)
    ensures
        d.total_nanos() == n * 1_000_000_000 ==> duration_text(d) == decimal(n) + "s"@,
        d.total_nanos() == n * 1_000_000 && n % 1_000 != 0 ==> duration_text(d) == decimal(n)
            + "ms"@,
        n * 1_000 <= d.total_nanos() < n * 1_000 + 1_000 && n % 1_000 != 0 ==> duration_text(d)
            == decimal(n) + "us"@,
{
    reveal_strlit("s");
    reveal_strlit("ms");
    reveal_strlit("us");
    assert("s"@ =~= seq!['s']);
    assert("ms"@ =~= seq!['m', 's']);
    assert("us"@ =~= seq!['u', 's']);
    if d.total_nanos() == n * 1_000_000_000 {
        assert(d.total_nanos() / 1_000 == n * 1_000_000);
    } else if d.total_nanos() == n * 1_000_000 && n % 1_000 != 0 {
        assert(d.total_nanos() / 1_000 == n * 1_000);
    } else if n * 1_000 <= d.total_nanos() < n * 1_000 + 1_000 && n % 1_000 != 0 {
        assert(d.total_nanos() / 1_000 == n);
    }
}

}
