//! Addresses: their text and the cache lines they lie on.
use crate::text;
use vstd::prelude::*;

verus! {

/// The address of the cache line that holds an address.
pub open spec fn aligned(address: u64, cacheline_size: u64) -> u64 {
    if cacheline_size == 0 {
        address
    } else {
        (address - address % cacheline_size) as u64
    }
}

/// The cache line that holds an address; with no line size every address is
/// its own line.
pub(crate) fn line_of(address: u64, cacheline_size: u64) -> (r: u64)
    ensures
        r == aligned(address, cacheline_size),
        r <= address,
{
    if cacheline_size == 0 {
        return address;
    }
    assert(address % cacheline_size <= address) by (nonlinear_arith)
        requires
            cacheline_size > 0,
    ;
    address - address % cacheline_size
}

/// The address of the cache line that holds an address.
pub fn align_cacheline(address: u64, cacheline_size: u64) -> (r: u64)
    requires
        cacheline_size > 0,
    ensures
        r == aligned(address, cacheline_size),
        r <= address,
{
    line_of(address, cacheline_size)
}

/// A cache line starts at a multiple of its size, holds the address, and is
/// the line of its own start.
pub proof fn law_lines_are_aligned(address: u64, cacheline_size: u64)
    requires
        cacheline_size > 0,
    ensures
        aligned(address, cacheline_size) % cacheline_size == 0,
        aligned(address, cacheline_size) <= address,
        address - aligned(address, cacheline_size) < cacheline_size,
        aligned(aligned(address, cacheline_size), cacheline_size) == aligned(
            address,
            cacheline_size,
        ),
{
    let a = address as int;
    let n = cacheline_size as int;
    vstd::arithmetic::div_mod::lemma_fundamental_div_mod(a, n);
    assert(0 <= a % n < n && a % n <= a) by (nonlinear_arith)
        requires
            n > 0,
            a >= 0,
    ;
    assert(a - a % n == n * (a / n));
    vstd::arithmetic::div_mod::lemma_mod_multiples_basic(a / n, n);
    assert(n * (a / n) == (a / n) * n) by (nonlinear_arith);
    assert((a - a % n) % n == 0);
}

/// The text of an address.
pub fn format_address(address: u64) -> (r: String)
    ensures
        r@ == text::hex_text(address as int),
{
    text::hexadecimal_text(address)
}

/// Why a text is no number.
#[derive(Debug, Clone, Copy, PartialEq, Eq, Structural)]
pub enum NumberError {
    Empty,
    InvalidDigit,
    TooLarge,
}

impl NumberError {
    /// The message of the error.
    pub open spec fn text(self) -> Seq<char> {
        match self {
            NumberError::Empty => "cannot parse integer from empty string"@,
            NumberError::InvalidDigit => "invalid digit found in string"@,
            NumberError::TooLarge => "number too large to fit in target type"@,
        }
    }

    /// The message of the error.
    pub fn message(self) -> (r: &'static str)
        ensures
            r@ == self.text(),
    {
        match self {
            NumberError::Empty => "cannot parse integer from empty string",
            NumberError::InvalidDigit => "invalid digit found in string",
            NumberError::TooLarge => "number too large to fit in target type",
        }
    }
}

/// The value of a digit.
pub open spec fn digit_value(c: char) -> int {
    if '0' <= c && c <= '9' {
        c as int - '0' as int
    } else if 'a' <= c && c <= 'z' {
        c as int - 'a' as int + 10
    } else if 'A' <= c && c <= 'Z' {
        c as int - 'A' as int + 10
    } else {
        36
    }
}

/// The number that digits write, or what first keeps them from being one.
pub open spec fn digits_value(digits: Seq<char>, base: int) -> Result<u64, NumberError>
    decreases digits.len(),
{
    if digits.len() == 0 {
        Ok(0)
    } else {
        match digits_value(digits.drop_last(), base) {
            Ok(n) => {
                let d = digit_value(digits.last());
                if d >= base {
                    Err(NumberError::InvalidDigit)
                } else if n * base + d > u64::MAX {
                    Err(NumberError::TooLarge)
                } else {
                    Ok((n * base + d) as u64)
                }
            },
            Err(e) => Err(e),
        }
    }
}

/// The number that a text writes. One plus sign may stand before the digits.
pub open spec fn number_value(s: Seq<char>, base: int) -> Result<u64, NumberError> {
    if s.len() == 0 {
        Err(NumberError::Empty)
    } else if s[0] == '+' {
        if s.len() == 1 {
            Err(NumberError::InvalidDigit)
        } else {
            digits_value(s.skip(1), base)
        }
    } else {
        digits_value(s, base)
    }
}

/// The value of a digit.
fn digit_of(c: char) -> (r: u64)
    ensures
        r == digit_value(c),
{
    if '0' <= c && c <= '9' {
        (c as u32 - '0' as u32) as u64
    } else if 'a' <= c && c <= 'z' {
        (c as u32 - 'a' as u32) as u64 + 10
    } else if 'A' <= c && c <= 'Z' {
        (c as u32 - 'A' as u32) as u64 + 10
    } else {
        36
    }
}

proof fn lemma_failure_stays(digits: Seq<char>, base: int, n: int)
    requires
        0 <= n <= digits.len(),
        digits_value(digits.take(n), base) is Err,
    ensures
        digits_value(digits, base) == digits_value(digits.take(n), base),
    decreases digits.len() - n,
{
    if n < digits.len() {
        assert(digits.take(n + 1).drop_last() =~= digits.take(n));
        lemma_failure_stays(digits, base, n + 1);
    } else {
        assert(digits.take(n) =~= digits);
    }
}

/// The number that characters from a position on write.
fn read_digits(chars: &Vec<char>, from: usize, base: u64) -> (r: Result<u64, NumberError>)
    requires
        from <= chars@.len(),
        2 <= base <= 16,
    ensures
        r == digits_value(chars@.skip(from as int), base as int),
{
    let ghost digits = chars@.skip(from as int);
    let mut value: u64 = 0;
    let mut i: usize = from;
    assert(digits.take(0) =~= Seq::<char>::empty());
    while i < chars.len()
        invariant
            from <= i <= chars@.len(),
            2 <= base <= 16,
            digits == chars@.skip(from as int),
            digits_value(digits.take(i - from), base as int) == Ok::<u64, NumberError>(value),
        decreases chars@.len() - i,
    {
        proof {
            assert(digits.take(i - from + 1).drop_last() =~= digits.take(i - from));
            assert(digits.take(i - from + 1).last() == chars@[i as int]);
        }
        let d: u64 = digit_of(chars[i]);
        if d >= base {
            proof {
                lemma_failure_stays(digits, base as int, i - from + 1);
            }
            return Err(NumberError::InvalidDigit);
        }
        assert(0 <= value * base <= 0xffff_ffff_ffff_ffff * 16) by (nonlinear_arith)
            requires
                0 <= value <= 0xffff_ffff_ffff_ffff,
                0 <= base <= 16,
        ;
        let next: u128 = value as u128 * base as u128 + d as u128;
        if next > u64::MAX as u128 {
            proof {
                lemma_failure_stays(digits, base as int, i - from + 1);
            }
            return Err(NumberError::TooLarge);
        }
        value = next as u64;
        i += 1;
    }
    assert(digits.take(digits.len() as int) =~= digits);
    Ok(value)
}

/// The number that characters from a position on write.
fn read_number(chars: &Vec<char>, from: usize, base: u64) -> (r: Result<u64, NumberError>)
    requires
        from <= chars@.len(),
        2 <= base <= 16,
    ensures
        r == number_value(chars@.skip(from as int), base as int),
{
    let size: usize = chars.len();
    if from == size {
        return Err(NumberError::Empty);
    }
    if chars[from] == '+' {
        if from + 1 == size {
            return Err(NumberError::InvalidDigit);
        }
        assert(chars@.skip(from as int).skip(1) =~= chars@.skip(from + 1));
        return read_digits(chars, from + 1, base);
    }
    read_digits(chars, from, base)
}

/// Whether a text starts like a hexadecimal number.
pub open spec fn hexadecimal(s: Seq<char>) -> bool {
    s.len() >= 2 && s[0] == '0' && (s[1] == 'x' || s[1] == 'X')
}

/// The address that a text writes, or why it writes none.
pub open spec fn address_in(value: Seq<char>) -> Result<u64, Seq<char>> {
    let s = text::trimmed(value);
    if hexadecimal(s) {
        match number_value(s.skip(2), 16) {
            Ok(n) => Ok(n),
            Err(e) => Err("invalid hexadecimal address: "@ + e.text()),
        }
    } else {
        match number_value(s, 10) {
            Ok(n) => Ok(n),
            Err(e) => Err("invalid decimal address: "@ + e.text()),
        }
    }
}

/// What a result says.
pub open spec fn address_outcome(r: Result<u64, String>) -> Result<u64, Seq<char>> {
    match r {
        Ok(n) => Ok(n),
        Err(e) => Err(e@),
    }
}

/// The address that a text writes, hexadecimal after `0x` and else decimal.
pub fn parse_address(value: &str) -> (r: Result<u64, String>)
    ensures
        address_outcome(r) == address_in(value@),
{
    let all = text::chars_of(value);
    let chars = text::trim_chars(&all);
    if chars.len() >= 2 && chars[0] == '0' && (chars[1] == 'x' || chars[1] == 'X') {
        match read_number(&chars, 2, 16) {
            Ok(n) => Ok(n),
            Err(e) => {
                let mut message = "invalid hexadecimal address: ".to_string();
                text::push_text(&mut message, e.message());
                Err(message)
            },
        }
    } else {
        assert(chars@.skip(0) =~= chars@);
        match read_number(&chars, 0, 10) {
            Ok(n) => Ok(n),
            Err(e) => {
                let mut message = "invalid decimal address: ".to_string();
                text::push_text(&mut message, e.message());
                Err(message)
            },
        }
    }
}

/// An address that was written, in hexadecimal or in decimal, is read back.
pub proof fn law_written_addresses_are_read(address: u64)
    ensures
        address_in(text::hex_text(address as int)) == Ok::<u64, Seq<char>>(address),
        address_in(text::decimal(address as int)) == Ok::<u64, Seq<char>>(address),
{
    let n = address as nat;
    let digits = text::numeral(n, 16);
    let s = text::hex_text(address as int);
    lemma_numeral(n, 16);
    lemma_untrimmed(s);
    assert(s.skip(2) =~= digits);
    let t = text::decimal(address as int);
    lemma_numeral(n, 10);
    lemma_untrimmed(t);
    assert(digit_value('x') == 33 && digit_value('X') == 33);
}

proof fn lemma_digit(d: nat)
    requires
        d < 16,
    ensures
        digit_value(text::digit_char(d)) == d,
        text::digit_char(d) != '+',
        !text::white_space(text::digit_char(d)),
{
}

proof fn lemma_numeral(n: nat, base: nat)
    requires
        n <= u64::MAX,
        1 < base <= 16,
    ensures
        digits_value(text::numeral(n, base), base as int) == Ok::<u64, NumberError>(n as u64),
        text::numeral(n, base).len() > 0,
        forall|i: int|
            0 <= i < text::numeral(n, base).len() ==> {
                &&& (#[trigger] text::numeral(n, base)[i]) != '+'
                &&& digit_value(text::numeral(n, base)[i]) < base
                &&& !text::white_space(text::numeral(n, base)[i])
            },
    decreases n,
{
    reveal_with_fuel(digits_value, 2);
    let s = text::numeral(n, base);
    if n < base {
        lemma_digit(n);
        assert(s.drop_last() =~= Seq::empty());
        assert(0 * base == 0) by (nonlinear_arith);
        assert(digits_value(s.drop_last(), base as int) == Ok::<u64, NumberError>(0));
    } else {
        assert(n / base < n && n % base < base && n == (n / base) * base + n % base)
            by (nonlinear_arith)
            requires
                1 < base <= n,
        ;
        lemma_numeral(n / base, base);
        lemma_digit(n % base);
        assert(s.drop_last() =~= text::numeral(n / base, base));
    }
}

proof fn lemma_untrimmed(s: Seq<char>)
    requires
        s.len() > 0,
        !text::white_space(s[0]),
        !text::white_space(s.last()),
    ensures
        text::trimmed(s) == s,
{
}

/// Digits of either case write the same number.
pub proof fn law_digits_ignore_case(s: Seq<char>, t: Seq<char>, base: int)
    requires
        text::ascii_lower(s) == text::ascii_lower(t),
    ensures
        digits_value(s, base) == digits_value(t, base),
    decreases s.len(),
{
    let a = text::ascii_lower(s);
    let b = text::ascii_lower(t);
    assert(a.len() == s.len() && b.len() == t.len());
    if s.len() > 0 {
        assert(text::ascii_lower(s.drop_last()) =~= a.drop_last());
        assert(text::ascii_lower(t.drop_last()) =~= b.drop_last());
        law_digits_ignore_case(s.drop_last(), t.drop_last(), base);
        let n = s.len() - 1;
        assert(a[n] == text::ascii_lower_char(s[n]));
        assert(b[n] == text::ascii_lower_char(t[n]));
        assert(digit_value(s[n]) == digit_value(text::ascii_lower_char(s[n])));
        assert(digit_value(t[n]) == digit_value(text::ascii_lower_char(t[n])));
    }
}

/// White space around an address does not matter, and a plus sign may stand
/// before its digits.
pub proof fn law_written_signs(value: Seq<char>, digits: Seq<char>, base: int)
    ensures
        address_in(text::trimmed(value)) == address_in(value),
        digits.len() > 0 && digits[0] != '+' ==> number_value(seq!['+'] + digits, base)
            == number_value(digits, base),
        number_value(seq!['+'], base) is Err,
        number_value(Seq::empty(), base) is Err,
{
    text::law_trimming(value);
    let s = text::trimmed(value);
    assert(text::trimmed_start(s) == s);
    assert(text::trimmed(s) == s);
    assert((seq!['+'] + digits).skip(1) =~= digits);
}

}
