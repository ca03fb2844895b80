//! Text on the character level: comparison, decimal numbers, and white space.

use vstd::prelude::*;

verus! {

/// `String::push`: appends the character.
pub assume_specification[ String::push ](s: &mut String, c: char)
    ensures
        final(s)@ == old(s)@.push(c),
;

/// Whether two strings hold the same characters.
pub fn str_eq(a: &str, b: &str) -> (r: bool)
    ensures
        r == (a@ == b@),
{
    let x = a.as_bytes();
    let y = b.as_bytes();
    proof {
        vstd::utf8::encode_utf8_decode_utf8(a@);
        vstd::utf8::encode_utf8_decode_utf8(b@);
    }
    if x.len() != y.len() {
        return false;
    }
    let mut i: usize = 0;
    while i < x.len()
        invariant
            i <= x.len(),
            x@.len() == y@.len(),
            x@ == vstd::utf8::encode_utf8(a@),
            y@ == vstd::utf8::encode_utf8(b@),
            forall|j: int| 0 <= j < i ==> x@[j] == y@[j],
        decreases x.len() - i,
    {
        if x[i] != y[i] {
            return false;
        }
        i = i + 1;
    }
    assert(x@ =~= y@);
    true
}

/// The characters of each of several strings.
pub open spec fn strings(v: Seq<String>) -> Seq<Seq<char>> {
    v.map_values(|s: String| s@)
}

/// Two strings put together.
pub fn together(a: &str, b: &str) -> (s: String)
    ensures
        s@ == a@ + b@,
{
    let mut s: String = a.to_owned();
    s.append(b);
    s
}

/// Copies of the strings from index `from` on.
pub fn strings_from(v: &[String], from: usize) -> (out: Vec<String>)
    requires
        from <= v@.len(),
    ensures
        strings(out@) == strings(v@).skip(from as int),
{
    let mut out: Vec<String> = Vec::new();
    let mut i: usize = from;
    while i < v.len()
        invariant
            from <= i <= v.len(),
            strings(out@) == strings(v@).subrange(from as int, i as int),
        decreases v.len() - i,
    {
        let ghost before = out@;
        out.push(v[i].clone());
        assert(strings(out@) =~= strings(before).push(v@[i as int]@));
        i = i + 1;
        assert(strings(out@) =~= strings(v@).subrange(from as int, i as int));
    }
    assert(strings(out@) =~= strings(v@).skip(from as int));
    out
}

/// The character of a decimal digit.
pub open spec fn digit(d: nat) -> char {
    (48 + d) as char
}

/// A number in decimal, without leading zeros.
pub open spec fn decimal(n: nat) -> Seq<char>
    decreases n,
{
    if n < 10 {
        seq![digit(n)]
    } else {
        decimal(n / 10).push(digit(n % 10))
    }
}

/// Append `n` in decimal.
pub fn push_decimal(s: &mut String, n: u64)
    ensures
        final(s)@ == old(s)@ + decimal(n as nat),
    decreases n,
{
    let ghost before = s@;
    if n >= 10 {
        push_decimal(s, n / 10);
    }
    s.push((48 + (n % 10) as u8) as char);
    assert(s@ =~= before + decimal(n as nat));
}

/// `n` in decimal.
pub fn decimal_string(n: u64) -> (s: String)
    ensures
        s@ == decimal(n as nat),
{
    let mut s: String = String::new();
    push_decimal(&mut s, n);
    assert(s@ =~= decimal(n as nat));
    s
}

/// Why text is not a number of the wanted type.
#[derive(Debug, Clone, Copy, PartialEq, Eq, Structural)]
pub enum IntError {
    Empty,
    InvalidDigit,
    PosOverflow,
    NegOverflow,
}

impl IntError {
    /// The error's text.
    pub open spec fn text(self) -> Seq<char> {
        match self {
            IntError::Empty => "cannot parse integer from empty string"@,
            IntError::InvalidDigit => "invalid digit found in string"@,
            IntError::PosOverflow => "number too large to fit in target type"@,
            IntError::NegOverflow => "number too small to fit in target type"@,
        }
    }

    /// The error's text.
    pub fn message(self) -> (s: &'static str)
        ensures
            s@ == self.text(),
    {
        match self {
            IntError::Empty => "cannot parse integer from empty string",
            IntError::InvalidDigit => "invalid digit found in string",
            IntError::PosOverflow => "number too large to fit in target type",
            IntError::NegOverflow => "number too small to fit in target type",
        }
    }
}

/// Whether `c` is one of the ten decimal digits.
pub open spec fn is_digit(c: char) -> bool {
    '0' <= c <= '9'
}

/// The value of the digits `s`, read from the left; `Err` at the first character that is not a
/// digit or that takes the value over `max`, whichever comes first.
pub open spec fn digits_value(s: Seq<char>, max: nat) -> Result<nat, IntError>
    decreases s.len(),
{
    if s.len() == 0 {
        Ok(0)
    } else {
        match digits_value(s.drop_last(), max) {
            Err(e) => Err(e),
            Ok(v) => if !is_digit(s.last()) {
                Err(IntError::InvalidDigit)
            } else if 10 * v + (s.last() as nat - 48) > max {
                Err(IntError::PosOverflow)
            } else {
                Ok((10 * v + (s.last() as nat - 48)) as nat)
            },
        }
    }
}

/// The unsigned number that `s` writes, at most `max`: an optional plus sign and at least one
/// digit.
pub open spec fn unsigned_value(s: Seq<char>, max: nat) -> Result<nat, IntError> {
    if s.len() == 0 {
        Err(IntError::Empty)
    } else if s.len() == 1 && (s[0] == '+' || s[0] == '-') {
        Err(IntError::InvalidDigit)
    } else if s[0] == '+' {
        digits_value(s.drop_first(), max)
    } else {
        digits_value(s, max)
    }
}

/// The `i32` that `s` writes: an optional sign and at least one digit.
pub open spec fn i32_value(s: Seq<char>) -> Result<int, IntError> {
    if s.len() == 0 {
        Err(IntError::Empty)
    } else if s.len() == 1 && (s[0] == '+' || s[0] == '-') {
        Err(IntError::InvalidDigit)
    } else if s[0] == '-' {
        match digits_value(s.drop_first(), 0x8000_0000) {
            Ok(v) => Ok(-(v as int)),
            Err(IntError::PosOverflow) => Err(IntError::NegOverflow),
            Err(e) => Err(e),
        }
    } else {
        match digits_value(
            if s[0] == '+' {
                s.drop_first()
            } else {
                s
            },
            0x7fff_ffff,
        ) {
            Ok(v) => Ok(v as int),
            Err(e) => Err(e),
        }
    }
}

/// Once some prefix of `s` fails, all of `s` fails the same way.
proof fn lemma_digits_prefix(s: Seq<char>, k: int, max: nat)
    requires
        0 <= k <= s.len(),
        digits_value(s.take(k), max) is Err,
    ensures
        digits_value(s, max) == digits_value(s.take(k), max),
    decreases s.len() - k,
{
    if k == s.len() {
        assert(s.take(k) =~= s);
    } else {
        assert(s.take(k + 1).drop_last() =~= s.take(k));
        lemma_digits_prefix(s, k + 1, max);
    }
}

/// The value of the digits of `s` from character `from` on.
fn parse_digits(s: &str, from: usize, max: u64) -> (r: Result<u64, IntError>)
    requires
        from <= s@.len(),
    ensures
        match digits_value(s@.skip(from as int), max as nat) {
            Ok(v) => r == Ok::<u64, IntError>(v as u64) && v <= max,
            Err(e) => r == Err::<u64, IntError>(e),
        },
{
    let ghost all = s@.skip(from as int);
    let n: usize = s.unicode_len();
    let mut i: usize = from;
    let mut v: u64 = 0;
    assert(all.take(0) =~= Seq::<char>::empty());
    while i < n
        invariant
            from <= i <= n,
            n == s@.len(),
            all == s@.skip(from as int),
            digits_value(all.take(i - from), max as nat) == Ok::<nat, IntError>(v as nat),
            v <= max,
        decreases n - i,
    {
        let c: char = s.get_char(i);
        let ghost k = i - from;
        assert(all.take(k + 1).drop_last() =~= all.take(k));
        assert(all.take(k + 1).last() == c);
        if c < '0' || c > '9' {
            proof {
                lemma_digits_prefix(all, k + 1, max as nat);
            }
            return Err(IntError::InvalidDigit);
        }
        let d: u64 = (c as u32 - 48) as u64;
        if v > max / 10 || d > max - 10 * v {
            proof {
                lemma_digits_prefix(all, k + 1, max as nat);
            }
            return Err(IntError::PosOverflow);
        }
        v = 10 * v + d;
        i = i + 1;
    }
    assert(all.take(n - from) =~= all);
    Ok(v)
}

/// Read an unsigned number of at most `max`.
pub fn parse_unsigned(s: &str, max: u64) -> (r: Result<u64, IntError>)
    ensures
        match unsigned_value(s@, max as nat) {
            Ok(v) => r == Ok::<u64, IntError>(v as u64) && v <= max,
            Err(e) => r == Err::<u64, IntError>(e),
        },
{
    let n: usize = s.unicode_len();
    if n == 0 {
        return Err(IntError::Empty);
    }
    let first: char = s.get_char(0);
    if n == 1 && (first == '+' || first == '-') {
        return Err(IntError::InvalidDigit);
    }
    assert(s@.skip(1) =~= s@.drop_first());
    assert(s@.skip(0) =~= s@);
    if first == '+' {
        parse_digits(s, 1, max)
    } else {
        parse_digits(s, 0, max)
    }
}

/// Read an `i32`.
pub fn parse_i32(s: &str) -> (r: Result<i32, IntError>)
    ensures
        match i32_value(s@) {
            Ok(v) => r == Ok::<i32, IntError>(v as i32) && i32::MIN <= v <= i32::MAX,
            Err(e) => r == Err::<i32, IntError>(e),
        },
{
    let n: usize = s.unicode_len();
    if n == 0 {
        return Err(IntError::Empty);
    }
    let first: char = s.get_char(0);
    if n == 1 && (first == '+' || first == '-') {
        return Err(IntError::InvalidDigit);
    }
    assert(s@.skip(1) =~= s@.drop_first());
    assert(s@.skip(0) =~= s@);
    if first == '-' {
        match parse_digits(s, 1, 0x8000_0000) {
            Ok(v) => Ok((-(v as i64)) as i32),
            Err(IntError::PosOverflow) => Err(IntError::NegOverflow),
            Err(e) => Err(e),
        }
    } else {
        let from: usize = if first == '+' {
            1
        } else {
            0
        };
        match parse_digits(s, from, 0x7fff_ffff) {
            Ok(v) => Ok(v as i32),
            Err(e) => Err(e),
        }
    }
}

/// A number that is written in decimal reads back as itself.
pub proof fn law_decimal_round_trip(n: nat, max: nat)
    requires
        n <= max,
    ensures
        unsigned_value(decimal(n), max) == Ok::<nat, IntError>(n),
{
    lemma_decimal_digits(n, max);
}

/// The digits of a decimal number, and their value.
pub proof fn lemma_decimal_digits(n: nat, max: nat)
    requires
        n <= max,
    ensures
        decimal(n).len() > 0,
        forall|i: int| 0 <= i < decimal(n).len() ==> is_digit(#[trigger] decimal(n)[i]),
        digits_value(decimal(n), max) == Ok::<nat, IntError>(n),
    decreases n,
{
    if n >= 10 {
        lemma_decimal_digits(n / 10, max);
        assert(decimal(n).drop_last() =~= decimal(n / 10));
    } else {
        reveal_with_fuel(digits_value, 2);
        assert(decimal(n).drop_last() =~= Seq::<char>::empty());
    }
}

/// A decimal number that is not negative reads back as itself as an `i32` too.
pub proof fn law_decimal_i32_round_trip(n: nat)
    requires
        n <= 0x7fff_ffff,
    ensures
        i32_value(decimal(n)) == Ok::<int, IntError>(n as int),
{
    lemma_decimal_digits(n, 0x7fff_ffff);
    assert(is_digit(decimal(n)[0]));
}

/// The characters with the Unicode property White_Space.
pub open spec fn is_space(c: char) -> bool {
    ||| '\u{9}' <= c <= '\u{d}'
    ||| c == '\u{20}'
    ||| c == '\u{85}'
    ||| c == '\u{a0}'
    ||| c == '\u{1680}'
    ||| '\u{2000}' <= c <= '\u{200a}'
    ||| c == '\u{2028}'
    ||| c == '\u{2029}'
    ||| c == '\u{202f}'
    ||| c == '\u{205f}'
    ||| c == '\u{3000}'
}

/// Whether `c` is white space.
pub fn is_whitespace(c: char) -> (b: bool)
    ensures
        b == is_space(c),
{
    ('\u{9}' <= c && c <= '\u{d}') || c == '\u{20}' || c == '\u{85}' || c == '\u{a0}' || c
        == '\u{1680}' || ('\u{2000}' <= c && c <= '\u{200a}') || c == '\u{2028}' || c == '\u{2029}'
        || c == '\u{202f}' || c == '\u{205f}' || c == '\u{3000}'
}

/// `s` without white space at its end.
pub open spec fn trimmed_end(s: Seq<char>) -> Seq<char>
    decreases s.len(),
{
    if s.len() > 0 && is_space(s.last()) {
        trimmed_end(s.drop_last())
    } else {
        s
    }
}

/// `s` without white space at its start.
pub open spec fn trimmed_start(s: Seq<char>) -> Seq<char>
    decreases s.len(),
{
    if s.len() > 0 && is_space(s[0]) {
        trimmed_start(s.drop_first())
    } else {
        s
    }
}

/// `s` without white space at either end.
pub open spec fn trimmed(s: Seq<char>) -> Seq<char> {
    trimmed_end(trimmed_start(s))
}

/// The part of `s` between white space at its ends.
pub fn trim(s: &str) -> (r: &str)
    ensures
        r@ == trimmed(s@),
{
    let n: usize = s.unicode_len();
    let mut i: usize = 0;
    assert(s@.skip(0) =~= s@);
    let mut more: bool = true;
    while i < n && more
        invariant
            i <= n,
            n == s@.len(),
            trimmed_start(s@) == trimmed_start(s@.skip(i as int)),
            more || i < n && !is_space(s@[i as int]),
        decreases n - i + (if more { 1int } else { 0 }),
    {
        if is_whitespace(s.get_char(i)) {
            assert(s@.skip(i as int).drop_first() =~= s@.skip(i + 1));
            i = i + 1;
        } else {
            more = false;
        }
    }
    let ghost rest = s@.skip(i as int);
    assert(trimmed_start(s@) == rest);
    let mut j: usize = n;
    assert(s@.subrange(i as int, n as int) =~= rest);
    let mut more: bool = true;
    while j > i && more
        invariant
            i <= j <= n,
            n == s@.len(),
            trimmed_end(rest) == trimmed_end(s@.subrange(i as int, j as int)),
            more || j > i && !is_space(s@[j - 1]),
        decreases j + (if more { 1int } else { 0 }),
    {
        if is_whitespace(s.get_char(j - 1)) {
            assert(s@.subrange(i as int, j as int).drop_last() =~= s@.subrange(i as int, j - 1));
            j = j - 1;
        } else {
            more = false;
        }
    }
    assert(trimmed_end(rest) == s@.subrange(i as int, j as int));
    s.substring_char(i, j)
}

/// The words for text that is no number.
pub proof fn law_number_error_words()
    ensures
        IntError::Empty.text() == "cannot parse integer from empty string"@,
        IntError::InvalidDigit.text() == "invalid digit found in string"@,
        IntError::PosOverflow.text() == "number too large to fit in target type"@,
        IntError::NegOverflow.text() == "number too small to fit in target type"@,
{
}

/// Decimal numbers grow by a digit at their end: numbers below ten are one digit, and another digit
/// behind a number makes ten times that number and the digit.
pub proof fn law_decimal_grows_by_digits(n: nat, d: nat)
    requires
        d < 10,
    ensures
        decimal(d) == seq![(48 + d) as char],
        n > 0 ==> decimal(10 * n + d) == decimal(n).push((48 + d) as char),
{
}

/// Reading a number goes by its digits. One digit is its own value; another digit behind a number
/// makes ten times that number and the digit, as long as it does not get too large; anything else
/// behind it is refused.
pub proof fn law_reading_goes_by_digits(s: Seq<char>, c: char, max: nat)
    ensures
        unsigned_value(seq![c], max) == (if '0' <= c <= '9' {
            if c as nat - 48 <= max {
                Ok::<nat, IntError>((c as nat - 48) as nat)
            } else {
                Err(IntError::PosOverflow)
            }
        } else {
            Err(IntError::InvalidDigit)
        }),
        unsigned_value(s, max) matches Ok(v) ==> unsigned_value(s.push(c), max) == (if !('0' <= c
            <= '9') {
            Err(IntError::InvalidDigit)
        } else if 10 * v + (c as nat - 48) > max {
            Err(IntError::PosOverflow)
        } else {
            Ok::<nat, IntError>((10 * v + (c as nat - 48)) as nat)
        }),
        s.len() > 1 && unsigned_value(s, max) is Err ==> unsigned_value(s.push(c), max)
            == unsigned_value(s, max),
{
    reveal_with_fuel(digits_value, 2);
    let one = seq![c];
    assert(one.drop_last() =~= Seq::<char>::empty());
    assert(s.push(c).drop_last() =~= s);
    if s.len() > 0 {
        assert(s.push(c).drop_first().drop_last() =~= s.drop_first());
        assert(s.push(c).drop_first().last() == c);
        if s.len() == 1 && s[0] == '+' {
            assert(s.drop_first() =~= Seq::<char>::empty());
        }
    }
}

/// Signs. Nothing at all is no number and neither is a sign alone; a plus sign in front changes
/// nothing; and a number with a minus sign is the number that follows, below nothing, down to the
/// least that fits.
pub proof fn law_signs(s: Seq<char>, max: nat)
    ensures
        unsigned_value(Seq::empty(), max) == Err::<nat, _>(IntError::Empty),
        i32_value(Seq::empty()) == Err::<int, _>(IntError::Empty),
        s.len() > 0 && s[0] != '+' ==> unsigned_value(seq!['+'] + s, max) == unsigned_value(s, max),
        s.len() > 0 && s[0] != '-' ==> i32_value(s) == (match unsigned_value(s, 2147483647) {
            Ok(v) => Ok::<int, IntError>(v as int),
            Err(e) => Err(e),
        }),
        s.len() > 0 && s[0] != '+' ==> i32_value(seq!['-'] + s) == (match unsigned_value(
            s,
            2147483648,
        ) {
            Ok(v) => Ok::<int, IntError>(-(v as int)),
            Err(e) => Err(
                if e == IntError::PosOverflow {
                    IntError::NegOverflow
                } else {
                    e
                },
            ),
        }),
{
    reveal_with_fuel(digits_value, 2);
    assert((seq!['+'] + s).drop_first() =~= s);
    assert((seq!['-'] + s).drop_first() =~= s);
    if s.len() == 1 {
        assert(s.drop_last() =~= Seq::<char>::empty());
    }
}

/// A number is read only where it fits.
pub proof fn law_numbers_fit(s: Seq<char>, max: nat)
    ensures
        unsigned_value(s, max) matches Ok(v) ==> v <= max,
        i32_value(s) matches Ok(v) ==> -2147483648 <= v <= 2147483647,
{
    lemma_digits_fit(s, max);
    lemma_digits_fit(s.drop_first(), max);
    lemma_digits_fit(s, 0x7fff_ffff);
    lemma_digits_fit(s.drop_first(), 0x7fff_ffff);
    lemma_digits_fit(s.drop_first(), 0x8000_0000);
}

proof fn lemma_digits_fit(s: Seq<char>, max: nat)
    ensures
        digits_value(s, max) matches Ok(v) ==> v <= max,
    decreases s.len(),
{
    if s.len() > 0 {
        lemma_digits_fit(s.drop_last(), max);
    }
}

/// The white space of Unicode, by code point.
pub proof fn law_white_space(c: char)
    ensures
        is_space(c) <==> {
            let n = c as u32;
            ||| 9 <= n <= 13
            ||| n == 32
            ||| n == 133
            ||| n == 160
            ||| n == 5760
            ||| 8192 <= n <= 8202
            ||| n == 8232
            ||| n == 8233
            ||| n == 8239
            ||| n == 8287
            ||| n == 12288
        },
{
}

/// What is left of text without the white space around it: a stretch of it that begins and ends
/// with something else, and outside of which there is white space alone.
pub proof fn law_trimming_keeps_the_middle(s: Seq<char>) -> (r: (int, int))
    ensures
        0 <= r.0 <= r.1 <= s.len(),
        trimmed(s) == s.subrange(r.0, r.1),
        forall|k: int| 0 <= k < r.0 || r.1 <= k < s.len() ==> is_space(#[trigger] s[k]),
        r.0 < r.1 ==> !is_space(s[r.0]) && !is_space(s[r.1 - 1]),
{
    let i = lemma_trimmed_start(s);
    let rest = s.skip(i);
    let j = lemma_trimmed_end(rest);
    assert forall|k: int| 0 <= k < i || i + j <= k < s.len() implies is_space(#[trigger] s[k]) by {
        if k >= i {
            assert(rest[k - i] == s[k]);
        }
    }
    assert(rest.take(j) =~= s.subrange(i, i + j));
    (i, i + j)
}

proof fn lemma_trimmed_start(s: Seq<char>) -> (i: int)
    ensures
        0 <= i <= s.len(),
        trimmed_start(s) == s.skip(i),
        forall|k: int| 0 <= k < i ==> is_space(#[trigger] s[k]),
        i < s.len() ==> !is_space(s[i]),
    decreases s.len(),
{
    if s.len() > 0 && is_space(s[0]) {
        let rest = s.drop_first();
        let i = lemma_trimmed_start(rest);
        assert(rest.skip(i) =~= s.skip(i + 1));
        assert forall|k: int| 0 <= k < i + 1 implies is_space(#[trigger] s[k]) by {
            if k > 0 {
                assert(rest[k - 1] == s[k]);
            }
        }
        i + 1
    } else {
        assert(s.skip(0) =~= s);
        0
    }
}

proof fn lemma_trimmed_end(s: Seq<char>) -> (j: int)
    ensures
        0 <= j <= s.len(),
        trimmed_end(s) == s.take(j),
        forall|k: int| j <= k < s.len() ==> is_space(#[trigger] s[k]),
        j > 0 ==> !is_space(s[j - 1]),
    decreases s.len(),
{
    if s.len() > 0 && is_space(s.last()) {
        let rest = s.drop_last();
        let j = lemma_trimmed_end(rest);
        assert(rest.take(j) =~= s.take(j));
        assert forall|k: int| j <= k < s.len() implies is_space(#[trigger] s[k]) by {
            if k < s.len() - 1 {
                assert(rest[k] == s[k]);
            }
        }
        j
    } else {
        assert(s.take(s.len() as int) =~= s);
        s.len() as int
    }
}

/// Several strings are their characters, string by string.
pub proof fn law_strings_one_by_one(v: Seq<String>, i: int)
    requires
        0 <= i < v.len(),
    ensures
        strings(v).len() == v.len(),
        strings(v)[i] == v[i]@,
{
}

} // verus!
