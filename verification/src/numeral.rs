//! Decimal and hexadecimal notation of unsigned numbers.

use vstd::prelude::*;

use crate::text::{chars_of, trimmed};

verus! {

/// The digit character of a value below sixteen, in lower case.
pub open spec fn digit_char(n: int) -> char {
    if n < 10 {
        (48 + n) as char
    } else {
        (87 + n) as char
    }
}

/// The value of a decimal or hexadecimal digit of either case.
pub open spec fn digit_value(c: char) -> Option<nat> {
    if '0' <= c <= '9' {
        Some((c as u32 - 48) as nat)
    } else if 'a' <= c <= 'f' {
        Some((c as u32 - 87) as nat)
    } else if 'A' <= c <= 'F' {
        Some((c as u32 - 55) as nat)
    } else {
        None
    }
}

/// Whether `c` is a digit of the given base.
pub open spec fn is_digit(c: char, base: nat) -> bool {
    digit_value(c) is Some && digit_value(c)->0 < base
}

/// Whether a text is a digit string of the given base, of at least one digit.
pub open spec fn is_numeral(s: Seq<char>, base: nat) -> bool {
    s.len() > 0 && forall|i: int| 0 <= i < s.len() ==> is_digit(#[trigger] s[i], base)
}

/// The value of a digit string, most significant digit first.
pub open spec fn numeral_value(s: Seq<char>, base: nat) -> nat
    decreases s.len(),
{
    if s.len() == 0 {
        0
    } else {
        numeral_value(s.subrange(0, s.len() - 1), base) * base + digit_value(s[s.len() - 1])->0
    }
}

/// The notation of `n` without leading zeros, in lower case.
pub open spec fn numeral(n: nat, base: nat) -> Seq<char>
    decreases n,
{
    if base < 2 || n < base {
        seq![digit_char(n as int)]
    } else {
        proof {
            vstd::arithmetic::div_mod::lemma_div_decreases(n as int, base as int);
        }
        numeral(n / base, base).push(digit_char((n % base) as int))
    }
}

/// The decimal notation of `n`.
pub open spec fn decimal(n: nat) -> Seq<char> {
    numeral(n, 10)
}

/// A digit has the value that it was written for.
pub proof fn lemma_digit_value(n: int)
    requires
        0 <= n < 16,
    ensures
        digit_value(digit_char(n)) == Some(n as nat),
{
}

/// What `numeral` writes is a digit string, and reads back as the number.
pub proof fn lemma_numeral_value(n: nat, base: nat)
    requires
        2 <= base <= 16,
    ensures
        is_numeral(numeral(n, base), base),
        numeral_value(numeral(n, base), base) == n,
        numeral(n, base)[0] == digit_char(0) ==> n == 0,
        n == 0 ==> numeral(n, base) == seq![digit_char(0)],
        n < base ==> numeral(n, base).len() == 1,
    decreases n,
{
    let s = numeral(n, base);
    if n < base {
        lemma_digit_value(n as int);
        assert(s.subrange(0, 0) == Seq::<char>::empty());
        assert(numeral_value(s.subrange(0, 0), base) == 0);
        assert(0 * base == 0);
        if n > 0 {
            lemma_digit_value(0);
        }
    } else {
        vstd::arithmetic::div_mod::lemma_div_decreases(n as int, base as int);
        vstd::arithmetic::div_mod::lemma_fundamental_div_mod(n as int, base as int);
        vstd::arithmetic::div_mod::lemma_mod_bound(n as int, base as int);
        vstd::arithmetic::mul::lemma_mul_is_commutative(base as int, (n / base) as int);
        let head = numeral(n / base, base);
        lemma_numeral_value(n / base, base);
        lemma_digit_value((n % base) as int);
        assert(s.subrange(0, s.len() - 1) == head);
        assert forall|i: int| 0 <= i < s.len() implies is_digit(#[trigger] s[i], base) by {
            if i < head.len() {
                assert(s[i] == head[i]);
            }
        }
        assert(s[0] == head[0]);
        if s[0] == digit_char(0) {
            assert(n / base == 0);
            let q = n / base;
            assert(base * q == 0) by (nonlinear_arith)
                requires
                    q == 0,
            ;
        }
    }
}

/// Bounded numbers have short notations.
pub proof fn lemma_numeral_len(n: nat, base: nat, digits: nat)
    requires
        2 <= base <= 16,
        digits >= 1,
        n < vstd::arithmetic::power::pow(base as int, digits),
    ensures
        1 <= numeral(n, base).len() <= digits,
    decreases n,
{
    reveal(vstd::arithmetic::power::pow);
    if n >= base {
        vstd::arithmetic::div_mod::lemma_div_decreases(n as int, base as int);
        if digits == 1 {
            assert(vstd::arithmetic::power::pow(base as int, 1) == base) by {
                vstd::arithmetic::power::lemma_pow1(base as int);
            }
        } else {
            let p = vstd::arithmetic::power::pow(base as int, (digits - 1) as nat);
            assert(vstd::arithmetic::power::pow(base as int, digits) == base * p);
            assert(n / base < p) by (nonlinear_arith)
                requires
                    n < base * p,
                    base > 0,
            ;
            lemma_numeral_len(n / base, base, (digits - 1) as nat);
        }
    }
}

/// The digit character of a value below sixteen, in lower case.
pub fn digit_of(n: u8) -> (r: char)
    requires
        n < 16,
    ensures
        r == digit_char(n as int),
{
    if n < 10 {
        (48 + n) as char
    } else {
        (87 + n) as char
    }
}

/// The value of a decimal or hexadecimal digit of either case.
pub fn value_of_digit(c: char) -> (r: Option<u8>)
    ensures
        r is Some == digit_value(c) is Some,
        r is Some ==> r->0 == digit_value(c)->0 && r->0 < 16,
{
    if '0' <= c && c <= '9' {
        Some((c as u8) - 48)
    } else if 'a' <= c && c <= 'f' {
        Some((c as u8) - 87)
    } else if 'A' <= c && c <= 'F' {
        Some((c as u8) - 55)
    } else {
        None
    }
}

/// Appends the notation of `n` in the given base.
pub fn push_numeral(out: &mut String, n: u64, base: u64)
    requires
        2 <= base <= 16,
    ensures
        final(out)@ == old(out)@ + numeral(n as nat, base as nat),
    decreases n,
{
    if n < base {
        out.push(digit_of(n as u8));
    } else {
        proof {
            vstd::arithmetic::div_mod::lemma_div_decreases(n as int, base as int);
            vstd::arithmetic::div_mod::lemma_mod_bound(n as int, base as int);
        }
        push_numeral(out, n / base, base);
        out.push(digit_of((n % base) as u8));
    }
}

/// The decimal notation of `n`.
pub fn decimal_text(n: u64) -> (r: String)
    ensures
        r@ == decimal(n as nat),
{
    let mut out = String::new();
    push_numeral(&mut out, n, 10);
    out
}

/// A longer digit string has at least the value of its beginnings.
pub proof fn lemma_numeral_value_grows(s: Seq<char>, base: nat, i: int)
    requires
        base >= 1,
        0 <= i <= s.len(),
    ensures
        numeral_value(s.subrange(0, i), base) <= numeral_value(s, base),
    decreases s.len() - i,
{
    if i == s.len() {
        assert(s.subrange(0, i) == s);
    } else {
        lemma_numeral_value_grows(s, base, i + 1);
        let t = s.subrange(0, i + 1);
        assert(t.subrange(0, t.len() - 1) == s.subrange(0, i));
        let v = numeral_value(s.subrange(0, i), base);
        assert(v * base >= v) by (nonlinear_arith)
            requires
                base >= 1,
                v >= 0,
        ;
    }
}

/// The text without one leading plus sign.
pub open spec fn without_plus(s: Seq<char>) -> Seq<char> {
    if s.len() > 0 && s[0] == '+' {
        s.subrange(1, s.len() as int)
    } else {
        s
    }
}

/// What integer parsing of std gives for an unsigned type with the given maximum:
/// an optional plus sign and then digits of the base, with a value in range.
pub open spec fn parse_unsigned(s: Seq<char>, base: nat, max: nat) -> Option<nat> {
    let digits = without_plus(s);
    if is_numeral(digits, base) && numeral_value(digits, base) <= max {
        Some(numeral_value(digits, base))
    } else {
        None
    }
}

/// Reads the characters from `from` on as an unsigned number.
pub fn parse_chars(chars: &[char], from: usize, base: u64, max: u64) -> (r: Option<u64>)
    requires
        from <= chars@.len(),
        2 <= base <= 16,
    ensures
        r is Some == parse_unsigned(
            chars@.subrange(from as int, chars@.len() as int),
            base as nat,
            max as nat,
        ) is Some,
        r is Some ==> r->0 == parse_unsigned(
            chars@.subrange(from as int, chars@.len() as int),
            base as nat,
            max as nat,
        )->0,
{
    let ghost whole = chars@.subrange(from as int, chars@.len() as int);
    let ghost digits = without_plus(whole);
    let start: usize = if from < chars.len() && chars[from] == '+' {
        from + 1
    } else {
        from
    };
    assert(digits == chars@.subrange(start as int, chars@.len() as int));
    if start == chars.len() {
        return None;
    }
    let mut value: u64 = 0;
    let mut i: usize = start;
    while i < chars.len()
        invariant
            start <= i <= chars.len(),
            2 <= base <= 16,
            digits == chars@.subrange(start as int, chars@.len() as int),
            value <= max,
            value == numeral_value(digits.subrange(0, i - start), base as nat),
            forall|k: int| 0 <= k < i - start ==> is_digit(#[trigger] digits[k], base as nat),
            digits == without_plus(whole),
            from <= chars@.len(),
            whole == chars@.subrange(from as int, chars@.len() as int),
        decreases chars.len() - i,
    {
        let ghost prefix = digits.subrange(0, i - start);
        let ghost longer = digits.subrange(0, i - start + 1);
        assert(longer.subrange(0, longer.len() - 1) == prefix);
        assert(digits[i - start] == chars@[i as int]);
        let d = match value_of_digit(chars[i]) {
            Some(d) => d as u64,
            None => {
                assert(!is_digit(digits[i - start], base as nat));
                return None;
            },
        };
        if d >= base {
            assert(!is_digit(digits[i - start], base as nat));
            return None;
        }
        proof {
            lemma_numeral_value_grows(digits, base as nat, i - start + 1);
        }
        match value.checked_mul(base) {
            Some(scaled) => {
                match scaled.checked_add(d) {
                    Some(next) => {
                        if next > max {
                            return None;
                        }
                        value = next;
                    },
                    None => {
                        return None;
                    },
                }
            },
            None => {
                return None;
            },
        }
        i += 1;
    }
    assert(digits.subrange(0, digits.len() as int) == digits);
    Some(value)
}

/// Reads a decimal number as `str::parse` does, after trimming white space.
pub fn parse_trimmed(s: &str, max: u64) -> (r: Option<u64>)
    ensures
        r is Some == parse_unsigned(crate::text::trim(s@), 10, max as nat) is Some,
        r is Some ==> r->0 == parse_unsigned(crate::text::trim(s@), 10, max as nat)->0,
{
    let clean = trimmed(s);
    let chars = chars_of(clean.as_str());
    assert(chars@.subrange(0, chars@.len() as int) == chars@);
    parse_chars(chars.as_slice(), 0, 10, max)
}

} // verus!
