//! Character-level string operations with exact contracts.
//!
//! Strings are modelled by the sequence of their characters. The operations
//! here are the ones the rest of the crate is built from: comparison, ASCII
//! case folding, trimming, searching and splitting.

use vstd::prelude::*;
use vstd::slice::{slice_subrange, slice_to_vec};
use vstd::string::*;
use vstd::utf8::*;

verus! {

/// `String::push`: appends one character at the end of the string.
pub assume_specification[ String::push ](s: &mut String, c: char)
    ensures
        final(s)@ == old(s)@.push(c),
;

// ---------------------------------------------------------------------------
// Models
// ---------------------------------------------------------------------------

/// The ASCII lower-case counterpart of a character; other characters are kept.
pub open spec fn lower_char(c: char) -> char {
    if 'A' <= c <= 'Z' {
        ((c as u32) + 32) as char
    } else {
        c
    }
}

/// ASCII case folding of a whole string.
pub open spec fn lower(s: Seq<char>) -> Seq<char> {
    Seq::new(s.len(), |i: int| lower_char(s[i]))
}

/// Unicode `White_Space` characters.
pub open spec fn is_space(c: char) -> bool {
    let n = c as u32;
    ||| 0x09 <= n <= 0x0d
    ||| n == 0x20
    ||| n == 0x85
    ||| n == 0xa0
    ||| n == 0x1680
    ||| 0x2000 <= n <= 0x200a
    ||| n == 0x2028
    ||| n == 0x2029
    ||| n == 0x202f
    ||| n == 0x205f
    ||| n == 0x3000
}

/// Number of leading white-space characters.
pub open spec fn leading_spaces(s: Seq<char>) -> int
    decreases s.len(),
{
    if s.len() > 0 && is_space(s[0]) {
        1 + leading_spaces(s.skip(1))
    } else {
        0
    }
}

/// Number of trailing white-space characters.
pub open spec fn trailing_spaces(s: Seq<char>) -> int
    decreases s.len(),
{
    if s.len() > 0 && is_space(s.last()) {
        1 + trailing_spaces(s.drop_last())
    } else {
        0
    }
}

/// `s` without leading and trailing white space.
pub open spec fn trim(s: Seq<char>) -> Seq<char> {
    let t = s.skip(leading_spaces(s));
    t.take(t.len() - trailing_spaces(t))
}

/// The position of the first `c` in `s`, or the length of `s` when there is none.
pub open spec fn first_at(s: Seq<char>, c: char) -> nat
    decreases s.len(),
{
    if s.len() == 0 || s[0] == c {
        0
    } else {
        1 + first_at(s.skip(1), c)
    }
}

/// The part of `s` before the first `c`, or all of `s` when there is none.
pub open spec fn before(s: Seq<char>, c: char) -> Seq<char> {
    s.take(first_at(s, c) as int)
}

/// The pieces of `s` between occurrences of `c`.
pub open spec fn split(s: Seq<char>, c: char) -> Seq<Seq<char>>
    decreases s.len(),
{
    if first_at(s, c) < s.len() {
        seq![before(s, c)] + split(s.skip(first_at(s, c) as int + 1), c)
    } else {
        seq![s]
    }
}

// ---------------------------------------------------------------------------
// Conversions
// ---------------------------------------------------------------------------

/// Whether two strings hold the same characters.
pub fn str_eq(a: &str, b: &str) -> (r: bool)
    ensures
        r == (a@ == b@),
{
    let x = a.as_bytes();
    let y = b.as_bytes();
    proof {
        encode_utf8_decode_utf8(a@);
        encode_utf8_decode_utf8(b@);
    }
    if x.len() != y.len() {
        return false;
    }
    let mut i: usize = 0;
    while i < x.len()
        invariant
            i <= x.len(),
            x@ == encode_utf8(a@),
            y@ == encode_utf8(b@),
            x.len() == y.len(),
            forall|j: int| 0 <= j < i ==> x@[j] == y@[j],
        decreases x.len() - i,
    {
        if x[i] != y[i] {
            return false;
        }
        i += 1;
    }
    assert(x@ =~= y@);
    true
}

/// The characters of a string.
pub fn chars_of(s: &str) -> (r: Vec<char>)
    ensures
        r@ == s@,
{
    let mut out: Vec<char> = Vec::new();
    for c in it: s.chars()
        invariant
            it.seq() == s@,
            out@ == s@.take(it.index()),
    {
        out.push(c);
    }
    out
}

/// The string with the given characters.
pub fn string_of(chars: &[char]) -> (r: String)
    ensures
        r@ == chars@,
{
    let mut out = String::new();
    let mut i: usize = 0;
    while i < chars.len()
        invariant
            i <= chars.len(),
            out@ == chars@.take(i as int),
        decreases chars.len() - i,
    {
        out.push(chars[i]);
        i += 1;
        assert(chars@.take(i as int) =~= chars@.take(i - 1).push(chars@[i - 1]));
    }
    assert(chars@.take(i as int) =~= chars@);
    out
}

/// An owned copy of a string slice.
pub fn owned(s: &str) -> (r: String)
    ensures
        r@ == s@,
{
    s.to_owned()
}

/// The texts of a list of strings.
pub open spec fn texts(strings: Seq<String>) -> Seq<Seq<char>> {
    strings.map_values(|s: String| s@)
}

/// The number of bytes of a string.
pub open spec fn byte_len(s: Seq<char>) -> nat {
    encode_utf8(s).len()
}

/// The number of bytes of a string.
pub fn len_bytes(s: &str) -> (r: usize)
    ensures
        r == byte_len(s@),
{
    s.as_bytes().len()
}

/// The concatenation of two strings.
pub fn join2(a: &str, b: &str) -> (r: String)
    ensures
        r@ == a@ + b@,
{
    let mut out = a.to_owned();
    out.append(b);
    out
}

/// The concatenation of three strings.
pub fn join3(a: &str, b: &str, c: &str) -> (r: String)
    ensures
        r@ == a@ + b@ + c@,
{
    let mut out = a.to_owned();
    out.append(b);
    out.append(c);
    out
}

// ---------------------------------------------------------------------------
// Case folding
// ---------------------------------------------------------------------------

/// ASCII lower case of one character.
pub fn to_lower_char(c: char) -> (r: char)
    ensures
        r == lower_char(c),
{
    if c >= 'A' && c <= 'Z' {
        (c as u8 + 32) as char
    } else {
        c
    }
}

/// ASCII lower case of a string.
pub fn to_lower(s: &str) -> (r: String)
    ensures
        r@ == lower(s@),
{
    let cs = chars_of(s);
    let mut out = String::new();
    let mut i: usize = 0;
    while i < cs.len()
        invariant
            i <= cs.len(),
            cs@ == s@,
            out@ =~= lower(s@).take(i as int),
        decreases cs.len() - i,
    {
        out.push(to_lower_char(cs[i]));
        i += 1;
    }
    assert(lower(s@).take(i as int) =~= lower(s@));
    out
}

/// Folding twice is folding once.
pub proof fn lemma_lower_idempotent(s: Seq<char>)
    ensures
        lower(lower(s)) == lower(s),
{
    assert(lower(lower(s)) =~= lower(s));
}

// ---------------------------------------------------------------------------
// Searching and cutting
// ---------------------------------------------------------------------------

/// Whether two character slices are equal.
pub fn chars_eq(a: &[char], b: &[char]) -> (r: bool)
    ensures
        r == (a@ == b@),
{
    if a.len() != b.len() {
        return false;
    }
    let mut i: usize = 0;
    while i < a.len()
        invariant
            i <= a.len(),
            a.len() == b.len(),
            forall|j: int| 0 <= j < i ==> a@[j] == b@[j],
        decreases a.len() - i,
    {
        if a[i] != b[i] {
            return false;
        }
        i += 1;
    }
    assert(a@ =~= b@);
    true
}

/// Whether `p` is a prefix of `s`.
pub fn has_prefix(s: &[char], p: &[char]) -> (r: bool)
    ensures
        r == p@.is_prefix_of(s@),
{
    if p.len() > s.len() {
        return false;
    }
    let mut i: usize = 0;
    while i < p.len()
        invariant
            i <= p.len() <= s.len(),
            forall|j: int| 0 <= j < i ==> p@[j] == s@[j],
        decreases p.len() - i,
    {
        if p[i] != s[i] {
            assert(s@.subrange(0, p@.len() as int)[i as int] != p@[i as int]);
            return false;
        }
        i += 1;
    }
    assert(p@ =~= s@.subrange(0, p@.len() as int));
    true
}

/// `first_at` is the first position that holds `c`.
pub proof fn lemma_first_at(s: Seq<char>, c: char)
    ensures
        first_at(s, c) <= s.len(),
        first_at(s, c) < s.len() ==> s[first_at(s, c) as int] == c,
        forall|i: int| 0 <= i < first_at(s, c) ==> s[i] != c,
        first_at(s, c) < s.len() <==> s.contains(c),
    decreases s.len(),
{
    if s.len() == 0 || s[0] == c {
        if s.len() > 0 {
            assert(s.contains(s[0]));
        }
    } else {
        let t = s.skip(1);
        lemma_first_at(t, c);
        assert forall|i: int| 0 <= i < first_at(s, c) implies s[i] != c by {
            if i > 0 {
                assert(t[i - 1] == s[i]);
            }
        }
        if first_at(s, c) < s.len() {
            assert(s[first_at(s, c) as int] == t[first_at(t, c) as int]);
        } else {
            assert forall|i: int| 0 <= i < s.len() implies s[i] != c by {}
        }
    }
}

/// The first position that holds `c` is `first_at`.
pub proof fn lemma_first_at_is(s: Seq<char>, c: char, i: nat)
    requires
        i <= s.len(),
        i < s.len() ==> s[i as int] == c,
        forall|j: int| 0 <= j < i ==> s[j] != c,
    ensures
        first_at(s, c) == i,
{
    lemma_first_at(s, c);
    if first_at(s, c) < i {
        assert(s[first_at(s, c) as int] == c);
    }
}

/// The position of the first `c`, or the length when there is none.
pub fn find_char(s: &[char], c: char) -> (r: usize)
    ensures
        r == first_at(s@, c),
        r <= s@.len(),
{
    let mut i: usize = 0;
    while i < s.len()
        invariant
            i <= s.len(),
            forall|j: int| 0 <= j < i ==> s@[j] != c,
        decreases s.len() - i,
    {
        if s[i] == c {
            proof {
                lemma_first_at_is(s@, c, i as nat);
            }
            return i;
        }
        i += 1;
    }
    proof {
        lemma_first_at_is(s@, c, i as nat);
    }
    i
}

/// Whether `c` occurs in `s`.
pub fn has_char(s: &[char], c: char) -> (r: bool)
    ensures
        r == s@.contains(c),
{
    proof {
        lemma_first_at(s@, c);
    }
    find_char(s, c) < s.len()
}

/// The pieces of `s` between occurrences of `c`.
pub fn split_chars(s: &[char], c: char) -> (r: Vec<Vec<char>>)
    ensures
        r@.map_values(|v: Vec<char>| v@) == split(s@, c),
{
    let mut out: Vec<Vec<char>> = Vec::new();
    let mut from: usize = 0;
    assert(s@.skip(0) =~= s@);
    loop
        invariant_except_break
            from <= s.len(),
            out@.map_values(|v: Vec<char>| v@) + split(s@.skip(from as int), c) == split(s@, c),
        ensures
            out@.map_values(|v: Vec<char>| v@) == split(s@, c),
        decreases s.len() - from,
    {
        let rest = slice_subrange(s, from, s.len());
        assert(rest@ =~= s@.skip(from as int));
        let i = find_char(rest, c);
        let piece = slice_to_vec(slice_subrange(rest, 0, i));
        assert(piece@ =~= rest@.take(i as int));
        let ghost done = out@.map_values(|v: Vec<char>| v@);
        out.push(piece);
        assert(out@.map_values(|v: Vec<char>| v@) =~= done.push(before(rest@, c)));
        if i < rest.len() {
            from = from + i + 1;
            assert(rest@.skip(i + 1) =~= s@.skip(from as int));
            assert(done + split(rest@, c) =~= done.push(before(rest@, c)) + split(
                s@.skip(from as int),
                c,
            ));
        } else {
            assert(rest@.take(i as int) =~= rest@);
            assert(done + split(rest@, c) =~= done.push(rest@));
            break;
        }
    }
    out
}

// ---------------------------------------------------------------------------
// Trimming
// ---------------------------------------------------------------------------

/// Whether a character is Unicode white space.
pub fn space_char(c: char) -> (r: bool)
    ensures
        r == is_space(c),
{
    let n: u32 = c as u32;
    (0x09 <= n && n <= 0x0d) || n == 0x20 || n == 0x85 || n == 0xa0 || n == 0x1680 || (0x2000 <= n
        && n <= 0x200a) || n == 0x2028 || n == 0x2029 || n == 0x202f || n == 0x205f || n == 0x3000
}

proof fn lemma_leading_is(s: Seq<char>, n: int)
    requires
        0 <= n <= s.len(),
        forall|i: int| 0 <= i < n ==> is_space(s[i]),
        n < s.len() ==> !is_space(s[n]),
    ensures
        leading_spaces(s) == n,
    decreases s.len(),
{
    if n > 0 {
        assert(is_space(s[0]));
        let t = s.skip(1);
        assert forall|i: int| 0 <= i < n - 1 implies is_space(t[i]) by {
            assert(is_space(s[i + 1]));
        }
        lemma_leading_is(t, n - 1);
    }
}

proof fn lemma_trailing_is(s: Seq<char>, n: int)
    requires
        0 <= n <= s.len(),
        forall|i: int| s.len() - n <= i < s.len() ==> is_space(s[i]),
        n < s.len() ==> !is_space(s[s.len() - n - 1]),
    ensures
        trailing_spaces(s) == n,
    decreases s.len(),
{
    if n > 0 {
        assert(is_space(s[s.len() - 1]));
        let t = s.drop_last();
        assert forall|i: int| t.len() - (n - 1) <= i < t.len() implies is_space(t[i]) by {
            assert(is_space(s[i]));
        }
        lemma_trailing_is(t, n - 1);
    }
}

/// `s` without leading and trailing white space.
pub fn trim_chars<'a>(s: &'a [char]) -> (r: &'a [char])
    ensures
        r@ == trim(s@),
{
    let mut from: usize = 0;
    while from < s.len() && space_char(s[from])
        invariant
            from <= s.len(),
            forall|i: int| 0 <= i < from ==> is_space(s@[i]),
        decreases s.len() - from,
    {
        from += 1;
    }
    proof {
        lemma_leading_is(s@, from as int);
    }
    let ghost t = s@.skip(from as int);
    let mut to: usize = s.len();
    while to > from && space_char(s[to - 1])
        invariant
            from <= to <= s.len(),
            forall|i: int| to <= i < s.len() ==> is_space(s@[i]),
        decreases to,
    {
        to -= 1;
    }
    proof {
        assert forall|i: int| to - from <= i < t.len() implies is_space(t[i]) by {
            assert(is_space(s@[i + from]));
        }
        lemma_trailing_is(t, s.len() - to);
    }
    let r = slice_subrange(s, from, to);
    assert(r@ =~= t.take(t.len() - trailing_spaces(t)));
    r
}

/// `s` without leading and trailing white space, as a new string.
pub fn trim_str(s: &str) -> (r: String)
    ensures
        r@ == trim(s@),
{
    let cs = chars_of(s);
    string_of(trim_chars(cs.as_slice()))
}

// ---------------------------------------------------------------------------
// Laws
// ---------------------------------------------------------------------------

/// Folding leaves no ASCII capital and changes nothing but capitals, each into
/// the small letter of the alphabet at the same place.
pub proof fn law_lower_changes_capitals_only(s: Seq<char>, i: int)
    requires
        0 <= i < s.len(),
    ensures
        lower(s).len() == s.len(),
        !('A' <= lower(s)[i] <= 'Z'),
        lower(s)[i] != s[i] ==> 'A' <= s[i] <= 'Z' && 'a' <= lower(s)[i] <= 'z' && lower(s)[i] as int
            - 'a' as int == s[i] as int - 'A' as int,
{
}

/// Two texts fold to the same text exactly when they differ in nothing but the
/// case of ASCII letters.
pub proof fn law_same_folding_is_same_letters(a: Seq<char>, b: Seq<char>)
    ensures
        lower(a) == lower(b) <==> a.len() == b.len() && forall|i: int|
            0 <= i < a.len() ==> (#[trigger] a[i]) == b[i] || ('A' <= a[i] <= 'Z' && b[i] as int
                == a[i] as int + 32) || ('A' <= b[i] <= 'Z' && a[i] as int == b[i] as int + 32),
{
    if lower(a) == lower(b) {
        assert(lower(a).len() == lower(b).len());
        assert forall|i: int| 0 <= i < a.len() implies (#[trigger] a[i]) == b[i] || ('A' <= a[i]
            <= 'Z' && b[i] as int == a[i] as int + 32) || ('A' <= b[i] <= 'Z' && a[i] as int
            == b[i] as int + 32) by {
            assert(lower(a)[i] == lower(b)[i]);
        }
    }
    if a.len() == b.len() && forall|i: int|
        0 <= i < a.len() ==> (#[trigger] a[i]) == b[i] || ('A' <= a[i] <= 'Z' && b[i] as int
            == a[i] as int + 32) || ('A' <= b[i] <= 'Z' && a[i] as int == b[i] as int + 32) {
        assert(lower(a) =~= lower(b)) by {
            assert forall|i: int| 0 <= i < a.len() implies lower(a)[i] == lower(b)[i] by {
                assert(a[i] == a[i]);
            }
        }
    }
}

/// White space is what Unicode calls so, and nothing else.
pub proof fn law_white_space(c: char)
    ensures
        is_space(c) <==> c == ' ' || c == '\t' || c == '\n' || c == '\r' || seq![
            0x0bu32,
            0x0c,
            0x85,
            0xa0,
            0x1680,
            0x2000,
            0x2001,
            0x2002,
            0x2003,
            0x2004,
            0x2005,
            0x2006,
            0x2007,
            0x2008,
            0x2009,
            0x200a,
            0x2028,
            0x2029,
            0x202f,
            0x205f,
            0x3000,
        ].contains(c as u32),
{
    let all = seq![
        0x0bu32,
        0x0c,
        0x85,
        0xa0,
        0x1680,
        0x2000,
        0x2001,
        0x2002,
        0x2003,
        0x2004,
        0x2005,
        0x2006,
        0x2007,
        0x2008,
        0x2009,
        0x200a,
        0x2028,
        0x2029,
        0x202f,
        0x205f,
        0x3000,
    ];
    let n = c as u32;
    assert(all[0] == 0x0b && all[1] == 0x0c && all[2] == 0x85 && all[3] == 0xa0 && all[4] == 0x1680
        && all[5] == 0x2000 && all[6] == 0x2001 && all[7] == 0x2002 && all[8] == 0x2003 && all[9]
        == 0x2004 && all[10] == 0x2005 && all[11] == 0x2006 && all[12] == 0x2007 && all[13]
        == 0x2008 && all[14] == 0x2009 && all[15] == 0x200a && all[16] == 0x2028 && all[17]
        == 0x2029 && all[18] == 0x202f && all[19] == 0x205f && all[20] == 0x3000);
    assert(all.contains(n) <==> n == 0x0b || n == 0x0c || n == 0x85 || n == 0xa0 || n == 0x1680
        || 0x2000 <= n <= 0x200a || n == 0x2028 || n == 0x2029 || n == 0x202f || n == 0x205f || n
        == 0x3000);
}

proof fn lemma_leading(s: Seq<char>)
    ensures
        0 <= leading_spaces(s) <= s.len(),
        forall|i: int| 0 <= i < leading_spaces(s) ==> is_space(#[trigger] s[i]),
        leading_spaces(s) < s.len() ==> !is_space(s[leading_spaces(s)]),
    decreases s.len(),
{
    if s.len() > 0 && is_space(s[0]) {
        let t = s.skip(1);
        lemma_leading(t);
        assert forall|i: int| 0 <= i < leading_spaces(s) implies is_space(#[trigger] s[i]) by {
            if i > 0 {
                assert(is_space(t[i - 1]));
            }
        }
        if leading_spaces(s) < s.len() {
            assert(t[leading_spaces(t)] == s[leading_spaces(s)]);
        }
    }
}

proof fn lemma_trailing(s: Seq<char>)
    ensures
        0 <= trailing_spaces(s) <= s.len(),
        forall|i: int| s.len() - trailing_spaces(s) <= i < s.len() ==> is_space(#[trigger] s[i]),
        trailing_spaces(s) < s.len() ==> !is_space(s[s.len() - trailing_spaces(s) - 1]),
    decreases s.len(),
{
    if s.len() > 0 && is_space(s.last()) {
        let t = s.drop_last();
        lemma_trailing(t);
        assert forall|i: int| s.len() - trailing_spaces(s) <= i < s.len() implies is_space(
            #[trigger] s[i],
        ) by {
            if i < s.len() - 1 {
                assert(is_space(t[i]));
            }
        }
    }
}

/// Trimming takes white space off both ends and nothing else, and leaves none
/// there.
pub proof fn law_trim_cuts_white_space_only(s: Seq<char>)
    ensures
        exists|a: Seq<char>, b: Seq<char>|
            {
                &&& s == #[trigger] (a + trim(s) + b)
                &&& forall|i: int| 0 <= i < a.len() ==> is_space(#[trigger] a[i])
                &&& forall|i: int| 0 <= i < b.len() ==> is_space(#[trigger] b[i])
            },
        trim(s).len() > 0 ==> !is_space(trim(s)[0]) && !is_space(trim(s).last()),
{
    lemma_leading(s);
    let n = leading_spaces(s);
    let t = s.skip(n);
    lemma_trailing(t);
    let m = t.len() - trailing_spaces(t);
    let a = s.take(n);
    let b = t.skip(m);
    assert(s =~= a + trim(s) + b);
    assert forall|i: int| 0 <= i < b.len() implies is_space(#[trigger] b[i]) by {
        assert(is_space(t[m + i]));
    }
    if trim(s).len() > 0 {
        assert(trim(s)[0] == s[n]);
    }
}

/// Text between white space is trimmed to itself.
pub proof fn law_trim_finds_the_text(a: Seq<char>, text: Seq<char>, b: Seq<char>)
    requires
        forall|i: int| 0 <= i < a.len() ==> is_space(#[trigger] a[i]),
        forall|i: int| 0 <= i < b.len() ==> is_space(#[trigger] b[i]),
        text.len() > 0,
        !is_space(text[0]),
        !is_space(text.last()),
    ensures
        trim(a + text + b) == text,
{
    let s = a + text + b;
    assert forall|i: int| 0 <= i < a.len() implies is_space(s[i]) by {
        assert(s[i] == a[i]);
    }
    assert(s[a.len() as int] == text[0]);
    lemma_leading_is(s, a.len() as int);
    let t = s.skip(a.len() as int);
    assert(t =~= text + b);
    assert forall|i: int| t.len() - b.len() <= i < t.len() implies is_space(t[i]) by {
        assert(t[i] == b[i - text.len()]);
    }
    assert(t[t.len() - b.len() - 1] == text.last());
    lemma_trailing_is(t, b.len() as int);
    assert(trim(s) =~= text);
}

/// A text without the separator is one piece.
pub proof fn law_split_without_separator(s: Seq<char>, c: char)
    requires
        !s.contains(c),
    ensures
        split(s, c) == seq![s],
{
    lemma_first_at(s, c);
}

/// A separator parts the pieces before it from those after it, and belongs to
/// none of them.
pub proof fn law_split_at_separator(a: Seq<char>, b: Seq<char>, c: char)
    ensures
        split(a.push(c) + b, c) == split(a, c) + split(b, c),
    decreases a.len(),
{
    let s = a.push(c) + b;
    lemma_first_at(a, c);
    let n = first_at(a, c);
    if n < a.len() {
        let rest = a.skip(n as int + 1);
        assert forall|j: int| 0 <= j < n implies s[j] != c by {
            assert(s[j] == a[j]);
        }
        assert(s[n as int] == a[n as int]);
        lemma_first_at_is(s, c, n);
        law_split_at_separator(rest, b, c);
        assert(s.skip(n as int + 1) =~= rest.push(c) + b);
        assert(before(s, c) =~= before(a, c));
        assert(split(s, c) =~= split(a, c) + split(b, c));
    } else {
        assert forall|j: int| 0 <= j < n implies s[j] != c by {
            assert(s[j] == a[j]);
        }
        lemma_first_at_is(s, c, n);
        assert(s.skip(n as int + 1) =~= b);
        assert(before(s, c) =~= a);
        assert(split(s, c) =~= split(a, c) + split(b, c));
    }
}

/// The part before a character is what stands in front of its first
/// occurrence, and all of the text where there is none.
pub proof fn law_before_is_the_front(a: Seq<char>, c: char, b: Seq<char>)
    requires
        !a.contains(c),
    ensures
        before(a, c) == a,
        before(a.push(c) + b, c) == a,
{
    assert forall|j: int| 0 <= j < a.len() implies a[j] != c by {
        assert(a.contains(a[j]));
    }
    let s = a.push(c) + b;
    assert(s[a.len() as int] == c);
    assert forall|j: int| 0 <= j < a.len() implies s[j] != c by {
        assert(s[j] == a[j]);
    }
    lemma_first_at_is(s, c, a.len());
    lemma_first_at_is(a, c, a.len());
    assert(s.take(a.len() as int) =~= a);
    assert(a.take(a.len() as int) =~= a);
}

/// A character that is no white space is never cut.
pub proof fn law_trim_keeps_the_rest(s: Seq<char>, i: int)
    requires
        0 <= i < s.len(),
        !is_space(s[i]),
    ensures
        exists|k: int| 0 <= k < trim(s).len() && (#[trigger] trim(s)[k]) == s[i],
{
    law_trim_cuts_white_space_only(s);
    let t = trim(s);
    let (a, b) = choose|a: Seq<char>, b: Seq<char>|
        {
            &&& s == #[trigger] (a + t + b)
            &&& forall|j: int| 0 <= j < a.len() ==> is_space(#[trigger] a[j])
            &&& forall|j: int| 0 <= j < b.len() ==> is_space(#[trigger] b[j])
        };
    if i < a.len() {
        assert(s[i] == a[i]);
    } else if i >= a.len() + t.len() {
        assert(s[i] == b[i - a.len() - t.len()]);
    } else {
        assert(t[i - a.len()] == s[i]);
    }
}

/// The texts of a list are those of its strings, in order.
pub proof fn law_texts(strings: Seq<String>, i: int)
    ensures
        texts(strings).len() == strings.len(),
        0 <= i < strings.len() ==> texts(strings)[i] == strings[i]@,
{
}

}
