//! Character-level text utilities: whitespace trimming, ASCII case folding,
//! unsigned decimal parsing and decimal formatting, each specified over the
//! characters of the string.
use vstd::prelude::*;

verus! {

/// Whether `c` has the Unicode `White_Space` property (what `char::is_whitespace` tests).
pub open spec fn is_whitespace(c: char) -> bool {
    let v = c as u32;
    ||| 0x9 <= v <= 0xD
    ||| v == 0x20
    ||| v == 0x85
    ||| v == 0xA0
    ||| v == 0x1680
    ||| 0x2000 <= v <= 0x200A
    ||| v == 0x2028
    ||| v == 0x2029
    ||| v == 0x202F
    ||| v == 0x205F
    ||| v == 0x3000
}

/// Drops leading whitespace.
pub open spec fn trim_start(s: Seq<char>) -> Seq<char>
    decreases s.len(),
{
    if s.len() > 0 && is_whitespace(s[0]) {
        trim_start(s.drop_first())
    } else {
        s
    }
}

/// Drops trailing whitespace.
pub open spec fn trim_end(s: Seq<char>) -> Seq<char>
    decreases s.len(),
{
    if s.len() > 0 && is_whitespace(s.last()) {
        trim_end(s.drop_last())
    } else {
        s
    }
}

/// Drops leading and trailing whitespace.
pub open spec fn trim(s: Seq<char>) -> Seq<char> {
    trim_end(trim_start(s))
}

/// Drops every trailing occurrence of `c`.
pub open spec fn trim_end_char(s: Seq<char>, c: char) -> Seq<char>
    decreases s.len(),
{
    if s.len() > 0 && s.last() == c {
        trim_end_char(s.drop_last(), c)
    } else {
        s
    }
}

/// Maps `A`..`Z` to `a`..`z` and leaves every other character alone.
pub open spec fn ascii_lower(c: char) -> u32 {
    let v = c as u32;
    if 65 <= v <= 90 {
        (v + 32) as u32
    } else {
        v
    }
}

/// Equality of two texts up to ASCII letter case.
pub open spec fn eq_ignore_ascii_case_spec(a: Seq<char>, b: Seq<char>) -> bool {
    &&& a.len() == b.len()
    &&& forall|i: int| 0 <= i < a.len() ==> ascii_lower(#[trigger] a[i]) == ascii_lower(b[i])
}

/// Whether `c` is one of `0`..`9`.
pub open spec fn is_digit(c: char) -> bool {
    48 <= (c as u32) <= 57
}

/// The numeric value of a decimal digit character.
pub open spec fn digit_value(c: char) -> nat {
    ((c as u32) - 48) as nat
}

/// The character of a decimal digit.
pub open spec fn digit_char(d: nat) -> char {
    (d + 48) as char
}

/// Why a text is not an unsigned 64-bit decimal number.
#[derive(Debug, Clone, Copy, PartialEq, Eq, Structural)]
pub enum U64ParseError {
    /// The text is empty.
    Empty,
    /// A character is not a decimal digit.
    InvalidDigit,
    /// The number does not fit in 64 bits.
    PosOverflow,
}

/// Reads the digits of `d` left to right onto `acc`, failing at the first
/// non-digit, or as soon as the running value leaves the `u64` range.
pub open spec fn parse_digits(d: Seq<char>, acc: nat) -> Result<u64, U64ParseError>
    decreases d.len(),
{
    if d.len() == 0 {
        if acc <= u64::MAX {
            Ok(acc as u64)
        } else {
            Err(U64ParseError::PosOverflow)
        }
    } else if !is_digit(d[0]) {
        Err(U64ParseError::InvalidDigit)
    } else if acc * 10 + digit_value(d[0]) > u64::MAX {
        Err(U64ParseError::PosOverflow)
    } else {
        parse_digits(d.drop_first(), acc * 10 + digit_value(d[0]))
    }
}

/// What `str::parse::<u64>` returns: an optional leading `+` (not alone),
/// then decimal digits.
pub open spec fn spec_parse_u64(s: Seq<char>) -> Result<u64, U64ParseError> {
    if s.len() == 0 {
        Err(U64ParseError::Empty)
    } else if s.len() > 1 && s[0] == '+' {
        parse_digits(s.drop_first(), 0)
    } else {
        parse_digits(s, 0)
    }
}

/// The base-10 digits of `n`, most significant first, with no leading zero.
pub open spec fn decimal_digits(n: nat) -> Seq<char>
    decreases n,
{
    if n < 10 {
        seq![digit_char(n)]
    } else {
        decimal_digits(n / 10).push(digit_char(n % 10))
    }
}

/// Appends one character to a `String` (`String::push`).
#[verifier::external_body]
pub(crate) fn push_char(s: &mut String, c: char)
    ensures
        final(s)@ == old(s)@.push(c),
{
    s.push(c);
}

/// Copies a text into a new `String`.
pub fn to_owned_string(s: &str) -> (r: String)
    ensures
        r@ == s@,
{
    s.to_owned()
}

/// Appends a text to a `String`.
pub fn append_str(s: &mut String, t: &str)
    ensures
        final(s)@ == old(s)@ + t@,
{
    let mut i: usize = 0;
    let n = t.unicode_len();
    let ghost start = s@;
    while i < n
        invariant
            n == t@.len(),
            i <= n,
            s@ == start + t@.subrange(0, i as int),
        decreases n - i,
    {
        let c = t.get_char(i);
        push_char(s, c);
        i = i + 1;
        assert(t@.subrange(0, i as int) == t@.subrange(0, i - 1).push(c));
    }
    assert(t@.subrange(0, n as int) == t@);
}

/// Whether two texts are equal (`==` on `str`).
pub fn str_equal(a: &str, b: &str) -> (r: bool)
    ensures
        r == (a@ == b@),
{
    let n = a.unicode_len();
    if n != b.unicode_len() {
        return false;
    }
    let mut i: usize = 0;
    while i < n
        invariant
            n == a@.len(),
            n == b@.len(),
            i <= n,
            forall|k: int| 0 <= k < i ==> #[trigger] a@[k] == b@[k],
        decreases n - i,
    {
        if a.get_char(i) != b.get_char(i) {
            return false;
        }
        i = i + 1;
    }
    assert(a@ =~= b@);
    true
}

/// Whether `c` is whitespace (`char::is_whitespace`).
pub fn is_whitespace_char(c: char) -> (b: bool)
    ensures
        b == is_whitespace(c),
{
    let v = c as u32;
    (0x9 <= v && v <= 0xD) || v == 0x20 || v == 0x85 || v == 0xA0 || v == 0x1680 || (0x2000 <= v
        && v <= 0x200A) || v == 0x2028 || v == 0x2029 || v == 0x202F || v == 0x205F || v == 0x3000
}

proof fn lemma_trim_start_step(s: Seq<char>, i: int)
    requires
        0 <= i < s.len(),
        is_whitespace(s[i]),
    ensures
        trim_start(s.subrange(i, s.len() as int)) == trim_start(s.subrange(i + 1, s.len() as int)),
{
    assert(s.subrange(i, s.len() as int).drop_first() =~= s.subrange(i + 1, s.len() as int));
}

proof fn lemma_trim_end_step(s: Seq<char>, i: int, j: int)
    requires
        0 <= i < j <= s.len(),
        is_whitespace(s[j - 1]),
    ensures
        trim_end(s.subrange(i, j)) == trim_end(s.subrange(i, j - 1)),
{
    assert(s.subrange(i, j).drop_last() =~= s.subrange(i, j - 1));
}

/// Strips leading and trailing whitespace (`str::trim`).
pub fn trim_str(s: &str) -> (r: &str)
    ensures
        r@ == trim(s@),
{
    let n = s.unicode_len();
    let mut i: usize = 0;
    assert(s@.subrange(0, n as int) =~= s@);
    while i < n && is_whitespace_char(s.get_char(i))
        invariant
            n == s@.len(),
            i <= n,
            trim_start(s@) == trim_start(s@.subrange(i as int, n as int)),
        decreases n - i,
    {
        proof {
            lemma_trim_start_step(s@, i as int);
        }
        i = i + 1;
    }
    proof {
        if i < n {
            assert(!is_whitespace(s@.subrange(i as int, n as int)[0]));
        }
        assert(trim_start(s@) == s@.subrange(i as int, n as int));
    }
    let mut j: usize = n;
    while j > i && is_whitespace_char(s.get_char(j - 1))
        invariant
            n == s@.len(),
            i <= j <= n,
            trim(s@) == trim_end(s@.subrange(i as int, j as int)),
        decreases j,
    {
        proof {
            lemma_trim_end_step(s@, i as int, j as int);
        }
        j = j - 1;
    }
    proof {
        if j > i {
            assert(s@.subrange(i as int, j as int).last() == s@[j - 1]);
        }
        assert(trim(s@) == s@.subrange(i as int, j as int));
    }
    s.substring_char(i, j)
}

/// Strips every trailing `c` (`str::trim_end_matches` with one character).
pub fn trim_end_matches_char(s: &str, c: char) -> (r: &str)
    ensures
        r@ == trim_end_char(s@, c),
{
    let n = s.unicode_len();
    let mut j: usize = n;
    assert(s@.subrange(0, n as int) =~= s@);
    while j > 0 && s.get_char(j - 1) == c
        invariant
            n == s@.len(),
            j <= n,
            trim_end_char(s@, c) == trim_end_char(s@.subrange(0, j as int), c),
        decreases j,
    {
        assert(s@.subrange(0, j as int).drop_last() =~= s@.subrange(0, j - 1));
        j = j - 1;
    }
    proof {
        if j > 0 {
            assert(s@.subrange(0, j as int).last() == s@[j - 1]);
        }
        assert(trim_end_char(s@, c) == s@.subrange(0, j as int));
    }
    s.substring_char(0, j)
}

/// Whether two texts are equal up to ASCII case (`str::eq_ignore_ascii_case`).
pub fn eq_ignore_ascii_case(a: &str, b: &str) -> (r: bool)
    ensures
        r == eq_ignore_ascii_case_spec(a@, b@),
{
    let n = a.unicode_len();
    if n != b.unicode_len() {
        return false;
    }
    let mut i: usize = 0;
    while i < n
        invariant
            n == a@.len(),
            n == b@.len(),
            i <= n,
            forall|k: int| 0 <= k < i ==> ascii_lower(#[trigger] a@[k]) == ascii_lower(b@[k]),
        decreases n - i,
    {
        let x = a.get_char(i) as u32;
        let y = b.get_char(i) as u32;
        let lx = if 65 <= x && x <= 90 {
            x + 32
        } else {
            x
        };
        let ly = if 65 <= y && y <= 90 {
            y + 32
        } else {
            y
        };
        if lx != ly {
            assert(ascii_lower(a@[i as int]) != ascii_lower(b@[i as int]));
            return false;
        }
        i = i + 1;
    }
    true
}

proof fn lemma_parse_digits_step(d: Seq<char>, i: int, acc: nat)
    requires
        0 <= i < d.len(),
    ensures
        parse_digits(d.subrange(i, d.len() as int), acc) == (if !is_digit(d[i]) {
            Err(U64ParseError::InvalidDigit)
        } else if acc * 10 + digit_value(d[i]) > u64::MAX {
            Err(U64ParseError::PosOverflow)
        } else {
            parse_digits(d.subrange(i + 1, d.len() as int), acc * 10 + digit_value(d[i]))
        }),
{
    assert(d.subrange(i, d.len() as int).drop_first() =~= d.subrange(i + 1, d.len() as int));
}

/// Parses an unsigned 64-bit decimal number (`str::parse::<u64>`).
pub fn parse_u64(s: &str) -> (r: Result<u64, U64ParseError>)
    ensures
        r == spec_parse_u64(s@),
{
    let n = s.unicode_len();
    if n == 0 {
        return Err(U64ParseError::Empty);
    }
    let mut i: usize = 0;
    if n > 1 && s.get_char(0) == '+' {
        i = 1;
    }
    let ghost d = if i == 1 {
        s@.drop_first()
    } else {
        s@
    };
    assert(d =~= s@.subrange(i as int, n as int));
    let mut acc: u64 = 0;
    while i < n
        invariant
            n == s@.len(),
            i <= n,
            spec_parse_u64(s@) == parse_digits(s@.subrange(i as int, n as int), acc as nat),
        decreases n - i,
    {
        proof {
            lemma_parse_digits_step(s@, i as int, acc as nat);
        }
        let c = s.get_char(i);
        let v = c as u32;
        if v < 48 || v > 57 {
            return Err(U64ParseError::InvalidDigit);
        }
        let dv = (v - 48) as u64;
        if acc > 1844674407370955161 || (acc == 1844674407370955161 && dv > 5) {
            assert(acc * 10 + dv > u64::MAX);
            return Err(U64ParseError::PosOverflow);
        }
        acc = acc * 10 + dv;
        i = i + 1;
    }
    assert(s@.subrange(n as int, n as int).len() == 0);
    Ok(acc)
}

/// The character of a decimal digit.
pub fn digit_to_char(d: u8) -> (c: char)
    requires
        d < 10,
    ensures
        c == digit_char(d as nat),
{
    (d + 48) as char
}

/// Appends the base-10 digits of `n` to `s`.
pub fn push_decimal(s: &mut String, n: u128)
    ensures
        final(s)@ == old(s)@ + decimal_digits(n as nat),
    decreases n,
{
    if n >= 10 {
        push_decimal(s, n / 10);
    }
    let c = digit_to_char((n % 10) as u8);
    push_char(s, c);
    proof {
        if n < 10 {
            assert(decimal_digits(n as nat) == seq![digit_char(n as nat)]);
            assert(old(s)@ + decimal_digits(n as nat) =~= old(s)@.push(c));
        } else {
            assert(old(s)@ + decimal_digits(n as nat) =~= (old(s)@ + decimal_digits(
                (n / 10) as nat,
            )).push(c));
        }
    }
}

/// The base-10 text of `n` (`u128::to_string`).
pub fn decimal_string(n: u128) -> (r: String)
    ensures
        r@ == decimal_digits(n as nat),
{
    let mut s = String::new();
    push_decimal(&mut s, n);
    assert(s@ =~= decimal_digits(n as nat));
    s
}


/// Every character of a decimal text is a digit, and the text is not empty.
pub proof fn lemma_decimal_digits_are_digits(n: nat)
    ensures
        decimal_digits(n).len() > 0,
        forall|i: int| 0 <= i < decimal_digits(n).len() ==> is_digit(#[trigger] decimal_digits(n)[i]),
        forall|i: int|
            0 <= i < decimal_digits(n).len() ==> digit_value(#[trigger] decimal_digits(n)[i]) < 10,
    decreases n,
{
    if n >= 10 {
        lemma_decimal_digits_are_digits(n / 10);
        lemma_digit_char(n % 10);
        let d = decimal_digits(n);
        assert forall|i: int| 0 <= i < d.len() implies is_digit(#[trigger] d[i]) && digit_value(d[i])
            < 10 by {
            if i < d.len() - 1 {
                assert(d[i] == decimal_digits(n / 10)[i]);
            }
        }
    } else {
        lemma_digit_char(n);
    }
}

/// The character of a digit is a digit with that value.
pub proof fn lemma_digit_char(d: nat)
    requires
        d < 10,
    ensures
        is_digit(digit_char(d)),
        digit_value(digit_char(d)) == d,
{
}

/// Reading one more digit after a run of digits that reads as `v`.
proof fn lemma_parse_digits_push(s: Seq<char>, c: char, acc: nat, v: u64)
    requires
        parse_digits(s, acc) == Ok::<u64, U64ParseError>(v),
        is_digit(c),
        v * 10 + digit_value(c) <= u64::MAX,
    ensures
        parse_digits(s.push(c), acc) == Ok::<u64, U64ParseError>((v * 10 + digit_value(c)) as u64),
    decreases s.len(),
{
    let t = s.push(c);
    if s.len() == 0 {
        assert(acc == v);
        assert(t[0] == c);
        assert(t.drop_first() =~= Seq::<char>::empty());
        assert(parse_digits(Seq::<char>::empty(), acc * 10 + digit_value(c)) == Ok::<
            u64,
            U64ParseError,
        >((v * 10 + digit_value(c)) as u64));
    } else {
        assert(t[0] == s[0]);
        assert(t.drop_first() =~= s.drop_first().push(c));
        let acc2 = acc * 10 + digit_value(s[0]);
        assert(is_digit(s[0]) && acc2 <= u64::MAX);
        assert(parse_digits(s.drop_first(), acc2) == Ok::<u64, U64ParseError>(v));
        lemma_parse_digits_push(s.drop_first(), c, acc2, v);
    }
}

/// The decimal text of a number parses back as that number.
pub proof fn lemma_parse_decimal_digits(n: u64)
    ensures
        spec_parse_u64(decimal_digits(n as nat)) == Ok::<u64, U64ParseError>(n),
{
    lemma_parse_digits_of(n as nat);
    lemma_decimal_digits_are_digits(n as nat);
    let d = decimal_digits(n as nat);
    assert(d[0] != '+') by {
        assert(is_digit(d[0]));
        assert(('+' as u32) == 43);
    }
}

proof fn lemma_parse_digits_of(n: nat)
    requires
        n <= u64::MAX,
    ensures
        parse_digits(decimal_digits(n), 0) == Ok::<u64, U64ParseError>(n as u64),
    decreases n,
{
    lemma_digit_char(n % 10);
    if n < 10 {
        let d = decimal_digits(n);
        assert(d == seq![digit_char(n)]);
        assert(d[0] == digit_char(n));
        assert(digit_value(d[0]) == n);
        assert(d.drop_first() =~= Seq::<char>::empty());
        assert(parse_digits(Seq::<char>::empty(), 0 * 10 + n) == Ok::<u64, U64ParseError>(n as u64));
    } else {
        assert(decimal_digits(n) == decimal_digits(n / 10).push(digit_char(n % 10)));
        assert((n / 10) * 10 + n % 10 == n);
        lemma_parse_digits_of(n / 10);
        lemma_parse_digits_push(decimal_digits(n / 10), digit_char(n % 10), 0, (n / 10) as u64);
    }
}

/// A decimal text is no casing of a word that starts with a letter.
pub proof fn lemma_decimal_digits_not_word(n: nat, word: Seq<char>)
    requires
        word.len() > 0,
        97 <= (word[0] as u32) <= 122,
    ensures
        !eq_ignore_ascii_case_spec(decimal_digits(n), word),
{
    lemma_decimal_digits_are_digits(n);
    let d = decimal_digits(n);
    if d.len() == word.len() {
        assert(ascii_lower(d[0]) != ascii_lower(word[0]));
    }
}

} // verus!
