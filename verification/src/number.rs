//! Reading and writing unsigned numbers in text.

use crate::text::owned;
use vstd::prelude::*;
use vstd::string::*;

verus! {

// ---------------------------------------------------------------------------
// Models
// ---------------------------------------------------------------------------

/// The character of one decimal or hexadecimal digit.
pub open spec fn digit(n: int) -> char {
    if n < 10 {
        (48 + n) as char
    } else {
        (87 + n) as char
    }
}

/// Decimal notation without leading zeros.
pub open spec fn decimal(n: nat) -> Seq<char>
    decreases n,
{
    if n < 10 {
        seq![digit(n as int)]
    } else {
        decimal(n / 10).push(digit((n % 10) as int))
    }
}

/// The lowest `width` hexadecimal digits of `n`, most significant first.
pub open spec fn hex(n: nat, width: nat) -> Seq<char>
    decreases width,
{
    if width == 0 {
        seq![]
    } else {
        hex(n / 16, (width - 1) as nat).push(digit((n % 16) as int))
    }
}

/// Why a text is not an unsigned number.
#[derive(Debug, Clone, Copy, PartialEq, Eq, Structural)]
pub enum NumberError {
    /// There are no characters at all.
    Empty,
    /// A character is not a decimal digit.
    InvalidDigit,
    /// The value exceeds the largest number of the type.
    TooLarge,
}

impl NumberError {
    /// The text of the error.
    pub open spec fn message_spec(self) -> Seq<char> {
        match self {
            NumberError::Empty => "cannot parse integer from empty string"@,
            NumberError::InvalidDigit => "invalid digit found in string"@,
            NumberError::TooLarge => "number too large to fit in target type"@,
        }
    }

    /// The text of the error.
    pub fn message(self) -> (r: String)
        ensures
            r@ == self.message_spec(),
    {
        match self {
            NumberError::Empty => owned("cannot parse integer from empty string"),
            NumberError::InvalidDigit => owned("invalid digit found in string"),
            NumberError::TooLarge => owned("number too large to fit in target type"),
        }
    }
}

/// Whether a character is a decimal digit.
pub open spec fn is_digit(c: char) -> bool {
    '0' <= c <= '9'
}

/// Reads digits from the left onto `acc`; the first bad digit, or the first
/// digit that takes the value past `max`, decides the error.
pub open spec fn read_digits(s: Seq<char>, acc: nat, max: nat) -> Result<nat, NumberError>
    decreases s.len(),
{
    if s.len() == 0 {
        Ok(acc)
    } else if !is_digit(s[0]) {
        Err(NumberError::InvalidDigit)
    } else {
        let v = acc * 10 + ((s[0] as u32) - 48) as nat;
        if v > max {
            Err(NumberError::TooLarge)
        } else {
            read_digits(s.skip(1), v, max)
        }
    }
}

/// The number that a text denotes: digits with an optional leading `+`.
pub open spec fn read_unsigned(s: Seq<char>, max: nat) -> Result<nat, NumberError> {
    if s.len() == 0 {
        Err(NumberError::Empty)
    } else if s.len() == 1 && (s[0] == '+' || s[0] == '-') {
        Err(NumberError::InvalidDigit)
    } else if s[0] == '+' {
        read_digits(s.skip(1), 0, max)
    } else {
        read_digits(s, 0, max)
    }
}

// ---------------------------------------------------------------------------
// Writing
// ---------------------------------------------------------------------------

/// The character of a digit below sixteen.
pub fn digit_char(n: u8) -> (r: char)
    requires
        n < 16,
    ensures
        r == digit(n as int),
{
    if n < 10 {
        (48 + n) as char
    } else {
        (87 + n) as char
    }
}

/// Decimal notation of a number.
pub fn decimal_string(n: u128) -> (r: String)
    ensures
        r@ == decimal(n as nat),
    decreases n,
{
    if n < 10 {
        let mut out = String::new();
        out.push(digit_char(n as u8));
        assert(out@ =~= decimal(n as nat));
        out
    } else {
        let mut out = decimal_string(n / 10);
        out.push(digit_char((n % 10) as u8));
        out
    }
}

/// The sixteen hexadecimal digits of a number.
pub fn hex16(n: u64) -> (r: String)
    ensures
        r@ == hex(n as nat, 16),
        r@.len() == 16,
{
    let mut digits: Vec<char> = Vec::new();
    let mut rest: u64 = n;
    let mut i: usize = 0;
    let ghost mut high: nat = 16;
    while i < 16
        invariant
            i <= 16,
            high == 16 - i,
            digits@.len() == i,
            hex(n as nat, 16) =~= hex(rest as nat, high) + digits@.reverse(),
        decreases 16 - i,
    {
        let d = digit_char((rest % 16) as u8);
        let ghost prev = digits@;
        digits.push(d);
        assert(digits@.reverse() =~= seq![d] + prev.reverse());
        rest = rest / 16;
        i += 1;
        proof {
            high = (high - 1) as nat;
        }
    }
    let mut out = String::new();
    let mut k: usize = 16;
    while k > 0
        invariant
            k <= 16,
            digits@.len() == 16,
            out@ =~= digits@.reverse().take(16 - k),
        decreases k,
    {
        k -= 1;
        out.push(digits[k]);
    }
    assert(digits@.reverse().take(16) =~= digits@.reverse());
    assert(hex(rest as nat, high) =~= seq![]);
    out
}

// ---------------------------------------------------------------------------
// Reading
// ---------------------------------------------------------------------------

/// Reads an unsigned 64-bit number.
pub fn read_u64(s: &[char]) -> (r: Result<u64, NumberError>)
    ensures
        match r {
            Ok(n) => read_unsigned(s@, u64::MAX as nat) == Ok::<nat, NumberError>(n as nat),
            Err(e) => read_unsigned(s@, u64::MAX as nat) == Err::<nat, NumberError>(e),
        },
{
    if s.len() == 0 {
        return Err(NumberError::Empty);
    }
    if s.len() == 1 && (s[0] == '+' || s[0] == '-') {
        return Err(NumberError::InvalidDigit);
    }
    let mut i: usize = if s[0] == '+' {
        1
    } else {
        0
    };
    let mut acc: u64 = 0;
    assert(s@.skip(0) =~= s@);
    while i < s.len()
        invariant
            i <= s.len(),
            read_unsigned(s@, u64::MAX as nat) == read_digits(
                s@.skip(i as int),
                acc as nat,
                u64::MAX as nat,
            ),
        decreases s.len() - i,
    {
        let c = s[i];
        assert(s@.skip(i as int)[0] == c);
        if c < '0' || c > '9' {
            return Err(NumberError::InvalidDigit);
        }
        let d: u64 = (c as u32 - 48) as u64;
        if acc > (u64::MAX - d) / 10 {
            return Err(NumberError::TooLarge);
        }
        assert(s@.skip(i as int).skip(1) =~= s@.skip(i + 1));
        acc = acc * 10 + d;
        i += 1;
    }
    Ok(acc)
}

/// Reading digits of `a + b` is reading `a`, then `b` onto the result.
proof fn lemma_read_append(a: Seq<char>, c: char, acc: nat, max: nat)
    requires
        is_digit(c),
    ensures
        match read_digits(a, acc, max) {
            Ok(v) => read_digits(a.push(c), acc, max) == (if v * 10 + ((c as u32) - 48) as nat
                > max {
                Err::<nat, NumberError>(NumberError::TooLarge)
            } else {
                Ok::<nat, NumberError>(v * 10 + ((c as u32) - 48) as nat)
            }),
            Err(_) => true,
        },
    decreases a.len(),
{
    reveal_with_fuel(read_digits, 2);
    if a.len() == 0 {
        assert(a.push(c).skip(1) =~= seq![]);
    } else {
        assert(a.push(c)[0] == a[0]);
        assert(a.push(c).skip(1) =~= a.skip(1).push(c));
        if is_digit(a[0]) {
            let v = acc * 10 + ((a[0] as u32) - 48) as nat;
            lemma_read_append(a.skip(1), c, v, max);
        }
    }
}

proof fn lemma_read_decimal_digits(n: nat, max: nat)
    requires
        n <= max,
    ensures
        read_digits(decimal(n), 0, max) == Ok::<nat, NumberError>(n),
        decimal(n).len() > 0,
        is_digit(decimal(n)[0]),
    decreases n,
{
    reveal_with_fuel(read_digits, 3);
    if n < 10 {
        assert(decimal(n).skip(1) =~= seq![]);
    } else {
        lemma_read_decimal_digits(n / 10, max);
        lemma_read_append(decimal(n / 10), digit((n % 10) as int), 0, max);
        assert(decimal(n)[0] == decimal(n / 10)[0]);
    }
}

/// Decimal notation reads back as the number it was written from.
pub proof fn law_decimal_reads_back(n: nat, max: nat)
    requires
        n <= max,
    ensures
        read_unsigned(decimal(n), max) == Ok::<nat, NumberError>(n),
{
    lemma_read_decimal_digits(n, max);
}

// ---------------------------------------------------------------------------
// Laws
// ---------------------------------------------------------------------------

/// Decimal notation: a digit stands for itself, and a further digit behind a
/// number stands for ten times the number and the digit.
pub proof fn law_decimal_is_positional(n: nat, d: nat)
    requires
        d < 10,
    ensures
        decimal(d) == seq![('0' as int + d) as char],
        n > 0 ==> decimal(10 * n + d) == decimal(n).push(('0' as int + d) as char),
{
    if n > 0 {
        assert((10 * n + d) / 10 == n && (10 * n + d) % 10 == d);
    }
}

/// The value of a row of digits.
pub open spec fn digits_value(s: Seq<char>) -> int {
    s.fold_left(0int, |v: int, c: char| v * 10 + (c as int - '0' as int))
}

proof fn lemma_digits_value(s: Seq<char>)
    requires
        forall|i: int| 0 <= i < s.len() ==> is_digit(#[trigger] s[i]),
    ensures
        0 <= digits_value(s),
        forall|max: nat|
            (#[trigger] read_digits(s, 0, max)) == if digits_value(s) <= max {
                Ok::<nat, NumberError>(digits_value(s) as nat)
            } else {
                Err::<nat, NumberError>(NumberError::TooLarge)
            },
    decreases s.len(),
{
    if s.len() > 0 {
        let t = s.drop_last();
        let c = s.last();
        assert forall|i: int| 0 <= i < t.len() implies is_digit(#[trigger] t[i]) by {
            assert(is_digit(s[i]));
        }
        lemma_digits_value(t);
        assert(is_digit(s[s.len() - 1]));
        assert(s =~= t.push(c));
        assert forall|max: nat|
            (#[trigger] read_digits(s, 0, max)) == if digits_value(s) <= max {
                Ok::<nat, NumberError>(digits_value(s) as nat)
            } else {
                Err::<nat, NumberError>(NumberError::TooLarge)
            } by {
            lemma_read_append(t, c, 0, max);
            lemma_read_error_stays(t, c, 0, max);
            assert(read_digits(t, 0, max) == read_digits(t, 0, max));
        }
    }
}

proof fn lemma_read_error_stays(a: Seq<char>, c: char, acc: nat, max: nat)
    ensures
        read_digits(a, acc, max) matches Err(e) ==> read_digits(a.push(c), acc, max) == Err::<
            nat,
            NumberError,
        >(e),
    decreases a.len(),
{
    if a.len() > 0 {
        assert(a.push(c)[0] == a[0]);
        assert(a.push(c).skip(1) =~= a.skip(1).push(c));
        if is_digit(a[0]) {
            let v = acc * 10 + ((a[0] as u32) - 48) as nat;
            lemma_read_error_stays(a.skip(1), c, v, max);
        }
    }
}

/// A row of digits, with or without a plus sign, reads as its value where that
/// is not too large, and is refused as too large where it is.
pub proof fn law_digits_read_as_their_value(s: Seq<char>, max: nat)
    requires
        s.len() > 0,
        forall|i: int| 0 <= i < s.len() ==> '0' <= (#[trigger] s[i]) <= '9',
    ensures
        read_unsigned(s, max) == if digits_value(s) <= max {
            Ok::<nat, NumberError>(digits_value(s) as nat)
        } else {
            Err::<nat, NumberError>(NumberError::TooLarge)
        },
        read_unsigned(seq!['+'] + s, max) == read_unsigned(s, max),
{
    assert forall|i: int| 0 <= i < s.len() implies is_digit(#[trigger] s[i]) by {}
    lemma_digits_value(s);
    assert(is_digit(s[0]));
    assert((seq!['+'] + s).skip(1) =~= s);
    assert(read_digits(s, 0, max) == read_digits(s, 0, max));
}

/// A text is no number where it is empty or where a character other than a
/// leading plus sign is no digit.
pub proof fn law_other_texts_are_refused(s: Seq<char>, max: nat, i: int)
    ensures
        read_unsigned(Seq::empty(), max) == Err::<nat, NumberError>(NumberError::Empty),
        0 <= i < s.len() && !('0' <= s[i] <= '9') && !(i == 0 && s[0] == '+') ==> read_unsigned(
            s,
            max,
        ) is Err,
        read_unsigned(seq!['+'], max) is Err,
{
    if 0 <= i < s.len() && !('0' <= s[i] <= '9') && !(i == 0 && s[0] == '+') {
        if s[0] == '+' {
            assert(s.skip(1)[i - 1] == s[i]);
            lemma_bad_digit(s.skip(1), 0, max, i - 1);
        } else {
            lemma_bad_digit(s, 0, max, i);
        }
    }
}

proof fn lemma_bad_digit(s: Seq<char>, acc: nat, max: nat, i: int)
    requires
        0 <= i < s.len(),
        !is_digit(s[i]),
    ensures
        read_digits(s, acc, max) is Err,
    decreases s.len(),
{
    if i > 0 && is_digit(s[0]) {
        assert(s.skip(1)[i - 1] == s[i]);
        lemma_bad_digit(s.skip(1), acc * 10 + ((s[0] as u32) - 48) as nat, max, i - 1);
    }
}

/// A row of digits reads as zero exactly when all of them are zeros.
pub proof fn law_zeros_read_as_zero(s: Seq<char>, max: nat)
    requires
        s.len() > 0,
        forall|i: int| 0 <= i < s.len() ==> '0' <= (#[trigger] s[i]) <= '9',
    ensures
        read_unsigned(s, max) == Ok::<nat, NumberError>(0) <==> forall|i: int|
            0 <= i < s.len() ==> (#[trigger] s[i]) == '0',
{
    law_digits_read_as_their_value(s, max);
    lemma_zero_value(s);
}

proof fn lemma_zero_value(s: Seq<char>)
    requires
        forall|i: int| 0 <= i < s.len() ==> '0' <= (#[trigger] s[i]) <= '9',
    ensures
        digits_value(s) >= 0,
        digits_value(s) == 0 <==> forall|i: int| 0 <= i < s.len() ==> (#[trigger] s[i]) == '0',
    decreases s.len(),
{
    if s.len() > 0 {
        let t = s.drop_last();
        assert forall|i: int| 0 <= i < t.len() implies '0' <= (#[trigger] t[i]) <= '9' by {
            assert(t[i] == s[i]);
        }
        lemma_zero_value(t);
        let n = s.len() - 1;
        assert('0' <= s[n] <= '9');
        if forall|i: int| 0 <= i < t.len() ==> (#[trigger] t[i]) == '0' {
            if s[n] == '0' {
                assert forall|i: int| 0 <= i < s.len() implies (#[trigger] s[i]) == '0' by {
                    if i < n {
                        assert(t[i] == '0');
                    }
                }
            }
        } else {
            let i = choose|i: int| 0 <= i < t.len() && (#[trigger] t[i]) != '0';
            assert(s[i] != '0');
        }
    }
}

/// Hexadecimal notation has the given number of digits, all of them small, and
/// tells numbers apart that fit.
pub proof fn law_hex_tells_apart(a: nat, b: nat, width: nat, i: int)
    ensures
        hex(a, width).len() == width,
        0 <= i < width ==> '0' <= hex(a, width)[i] <= '9' || 'a' <= hex(a, width)[i] <= 'f',
        a < vstd::arithmetic::power::pow(16, width) && b < vstd::arithmetic::power::pow(16, width)
            && hex(a, width) == hex(b, width) ==> a == b,
    decreases width,
{
    if width > 0 {
        let w = (width - 1) as nat;
        law_hex_tells_apart(a / 16, b / 16, w, i);
        let x = hex(a / 16, w);
        let y = hex(b / 16, w);
        law_hex_tells_apart(b / 16, a / 16, w, i);
        if a < vstd::arithmetic::power::pow(16, width) && b < vstd::arithmetic::power::pow(16, width)
            && hex(a, width) == hex(b, width) {
            reveal(vstd::arithmetic::power::pow);
            assert(vstd::arithmetic::power::pow(16, width) == 16 * vstd::arithmetic::power::pow(
                16,
                w,
            ));
            assert(hex(a, width).drop_last() =~= x);
            assert(hex(b, width).drop_last() =~= y);
            assert(hex(a, width).last() == hex(b, width).last());
            assert(a / 16 == b / 16);
            assert(a % 16 == b % 16);
        }
    } else {
        reveal(vstd::arithmetic::power::pow);
    }
}

/// Hexadecimal notation: a further digit behind a number stands for sixteen
/// times the number and the digit, and what does not fit in front is cut.
pub proof fn law_hex_is_positional(n: nat, d: nat, width: nat)
    requires
        d < 16,
    ensures
        hex(n, 0).len() == 0,
        d < 10 ==> hex(16 * n + d, width + 1) == hex(n, width).push(('0' as int + d) as char),
        d >= 10 ==> hex(16 * n + d, width + 1) == hex(n, width).push(('a' as int + d - 10) as char),
{
    assert((16 * n + d) / 16 == n && (16 * n + d) % 16 == d);
}

/// The errors of numbers say what is wrong.
pub proof fn law_number_errors()
    ensures
        NumberError::Empty.message_spec() == "cannot parse integer from empty string"@,
        NumberError::InvalidDigit.message_spec() == "invalid digit found in string"@,
        NumberError::TooLarge.message_spec() == "number too large to fit in target type"@,
{
}

/// Where the digits in front of a character that is none are a number that
/// fits, that character is what the text is refused for.
pub proof fn law_bad_digit_is_the_reason(digits: Seq<char>, c: char, rest: Seq<char>, max: nat)
    requires
        digits.len() > 0,
        forall|i: int| 0 <= i < digits.len() ==> '0' <= (#[trigger] digits[i]) <= '9',
        digits_value(digits) <= max,
        !('0' <= c <= '9'),
    ensures
        read_unsigned(digits.push(c) + rest, max) == Err::<nat, NumberError>(
            NumberError::InvalidDigit,
        ),
{
    law_digits_read_as_their_value(digits, max);
    let s = digits.push(c) + rest;
    assert(s[0] == digits[0]);
    assert('0' <= digits[0] <= '9');
    lemma_stops_at(digits, c, rest, 0, max);
}

proof fn lemma_stops_at(a: Seq<char>, c: char, rest: Seq<char>, acc: nat, max: nat)
    requires
        read_digits(a, acc, max) is Ok,
        !is_digit(c),
    ensures
        read_digits(a.push(c) + rest, acc, max) == Err::<nat, NumberError>(
            NumberError::InvalidDigit,
        ),
    decreases a.len(),
{
    let s = a.push(c) + rest;
    if a.len() == 0 {
        assert(s[0] == c);
    } else {
        assert(s[0] == a[0]);
        assert(s.skip(1) =~= a.skip(1).push(c) + rest);
        if is_digit(a[0]) {
            lemma_stops_at(
                a.skip(1),
                c,
                rest,
                acc * 10 + ((a[0] as u32) - 48) as nat,
                max,
            );
        }
    }
}

}
