//! Integers written in and read from text.

use vstd::prelude::*;
use vstd::string::*;
use crate::text::to_chars;

verus! {

/// The character of a digit below sixteen, in lower case.
pub open spec fn digit_of(d: nat) -> char {
    if d < 10 {
        (48 + d) as char
    } else {
        (87 + d) as char
    }
}

/// The number `n` in base `base`, without leading zeros.
pub open spec fn digits_of(n: nat, base: nat) -> Seq<char>
    decreases n,
{
    if base < 2 || n < base {
        seq![digit_of(n)]
    } else {
        proof {
            assert(n / base < n) by (nonlinear_arith)
                requires
                    2 <= base,
                    n >= base,
            ;
        }
        digits_of(n / base, base).push(digit_of(n % base))
    }
}

/// The decimal notation of an integer.
pub open spec fn dec(i: int) -> Seq<char> {
    if i < 0 {
        seq!['-'] + digits_of((-i) as nat, 10)
    } else {
        digits_of(i as nat, 10)
    }
}

/// The hexadecimal notation of a natural number, in lower case.
pub open spec fn hex(n: nat) -> Seq<char> {
    digits_of(n, 16)
}

pub open spec fn is_digit(c: char) -> bool {
    '0' <= c <= '9'
}

/// The number that a sequence of decimal digits stands for.
pub open spec fn value_of(s: Seq<char>) -> int
    decreases s.len(),
{
    if s.len() == 0 {
        0
    } else {
        value_of(s.drop_last()) * 10 + (s.last() as int - 48)
    }
}

pub open spec fn all_digits(s: Seq<char>) -> bool {
    forall|i: int| 0 <= i < s.len() ==> is_digit(#[trigger] s[i])
}

/// The number below or equal to `max` that the text stands for: decimal digits, with
/// a plus sign in front or not.
pub open spec fn parse_unsigned_of(s: Seq<char>, max: int) -> Option<int> {
    let body = if s.len() > 0 && s[0] == '+' {
        s.skip(1)
    } else {
        s
    };
    if body.len() > 0 && all_digits(body) && value_of(body) <= max {
        Some(value_of(body))
    } else {
        None
    }
}

/// The signed 64-bit number that the text stands for.
pub open spec fn parse_i64_of(s: Seq<char>) -> Option<int> {
    let signed = s.len() > 0 && (s[0] == '+' || s[0] == '-');
    let body = if signed {
        s.skip(1)
    } else {
        s
    };
    let v = if signed && s[0] == '-' {
        -value_of(body)
    } else {
        value_of(body)
    };
    if body.len() > 0 && all_digits(body) && i64::MIN <= v <= i64::MAX {
        Some(v)
    } else {
        None
    }
}

fn digit_char(d: u8) -> (r: char)
    requires
        d < 16,
    ensures
        r == digit_of(d as nat),
{
    if d < 10 {
        (48 + d) as char
    } else {
        (87 + d) as char
    }
}

/// The number `n` in base `base`.
fn digits(n: u64, base: u64) -> (r: String)
    requires
        2 <= base <= 16,
    ensures
        r@ == digits_of(n as nat, base as nat),
    decreases n,
{
    if n < base {
        let mut r = String::new();
        r.push(digit_char(n as u8));
        r
    } else {
        assert(n / base < n) by (nonlinear_arith)
            requires
                2 <= base,
                n >= base,
        ;
        let mut r = digits(n / base, base);
        r.push(digit_char((n % base) as u8));
        r
    }
}

pub fn u64_text(n: u64) -> (r: String)
    ensures
        r@ == dec(n as int),
{
    digits(n, 10)
}

pub fn usize_text(n: usize) -> (r: String)
    ensures
        r@ == dec(n as int),
{
    digits(n as u64, 10)
}

pub fn hex_text(n: u64) -> (r: String)
    ensures
        r@ == hex(n as nat),
{
    digits(n, 16)
}

pub fn i64_text(i: i64) -> (r: String)
    ensures
        r@ == dec(i as int),
{
    if i < 0 {
        let m: u64 = (-(i + 1)) as u64 + 1;
        let d = digits(m, 10);
        let mut r = String::new();
        r.push('-');
        r.append(d.as_str());
        assert(r@ == seq!['-'] + d@);
        r
    } else {
        digits(i as u64, 10)
    }
}

/// Digits read so far never outgrow the digits read later.
proof fn lemma_value_grows(s: Seq<char>, k: int)
    requires
        0 <= k <= s.len(),
        all_digits(s),
    ensures
        0 <= value_of(s.take(k)) <= value_of(s),
    decreases s.len() - k, k,
{
    if k == s.len() {
        assert(s.take(k) == s);
        lemma_value_nonneg(s);
    } else {
        lemma_value_grows(s, k + 1);
        assert(s.take(k + 1).drop_last() == s.take(k));
        assert(is_digit(s[k]));
        assert(all_digits(s.take(k)));
        lemma_value_nonneg(s.take(k));
    }
}

proof fn lemma_value_nonneg(s: Seq<char>)
    requires
        all_digits(s),
    ensures
        0 <= value_of(s),
    decreases s.len(),
{
    if s.len() > 0 {
        assert(is_digit(s[s.len() - 1]));
        assert(all_digits(s.drop_last()));
        lemma_value_nonneg(s.drop_last());
    }
}

/// The value of the decimal digits from position `from` on, as far as it fits.
fn read_digits(chars: &Vec<char>, from: usize, max: u64) -> (r: Option<u64>)
    requires
        from <= chars@.len(),
    ensures
        ({
            let body = chars@.skip(from as int);
            match r {
                Some(v) => body.len() > 0 && all_digits(body) && value_of(body) == v && v <= max,
                None => !(body.len() > 0 && all_digits(body) && value_of(body) <= max),
            }
        }),
{
    let ghost body = chars@.skip(from as int);
    let n: usize = chars.len();
    if from == n {
        return None;
    }
    let mut acc: u64 = 0;
    let mut i: usize = from;
    while i < n
        invariant
            n == chars@.len(),
            from <= i <= n,
            body == chars@.skip(from as int),
            all_digits(body.take(i - from)),
            acc == value_of(body.take(i - from)),
            acc <= max,
        decreases n - i,
    {
        let c = chars[i];
        assert(body[i - from] == c);
        if !('0' <= c && c <= '9') {
            return None;
        }
        let d: u64 = (c as u32 - 48) as u64;
        let next: u128 = acc as u128 * 10 + d as u128;
        proof {
            assert(body.take(i + 1 - from).drop_last() == body.take(i - from));
            if next > max && all_digits(body) {
                lemma_value_grows(body, i + 1 - from);
            }
        }
        if next > max as u128 {
            return None;
        }
        acc = next as u64;
        i += 1;
    }
    assert(body.take(n - from) == body);
    Some(acc)
}

/// Reads an unsigned number no greater than `max`.
pub fn parse_unsigned(s: &str, max: u64) -> (r: Option<u64>)
    ensures
        match r {
            Some(v) => parse_unsigned_of(s@, max as int) == Some(v as int),
            None => parse_unsigned_of(s@, max as int) is None,
        },
{
    let chars = to_chars(s);
    let from: usize = if chars.len() > 0 && chars[0] == '+' { 1 } else { 0 };
    assert(chars@.skip(0) == chars@);
    read_digits(&chars, from, max)
}

/// Reads a machine-sized number.
pub fn parse_usize(s: &str) -> (r: Option<usize>)
    ensures
        match r {
            Some(v) => parse_unsigned_of(s@, usize::MAX as int) == Some(v as int),
            None => parse_unsigned_of(s@, usize::MAX as int) is None,
        },
{
    match parse_unsigned(s, usize::MAX as u64) {
        Some(v) => Some(v as usize),
        None => None,
    }
}

/// Reads a signed number.
pub fn parse_i64(s: &str) -> (r: Option<i64>)
    ensures
        match r {
            Some(v) => parse_i64_of(s@) == Some(v as int),
            None => parse_i64_of(s@) is None,
        },
{
    let chars = to_chars(s);
    assert(chars@.skip(0) == chars@);
    if chars.len() > 0 && chars[0] == '-' {
        match read_digits(&chars, 1, 0x8000_0000_0000_0000) {
            Some(v) => {
                if v == 0x8000_0000_0000_0000 {
                    Some(i64::MIN)
                } else {
                    Some(-(v as i64))
                }
            },
            None => None,
        }
    } else {
        let from: usize = if chars.len() > 0 && chars[0] == '+' { 1 } else { 0 };
        proof {
            let body = chars@.skip(from as int);
            if all_digits(body) {
                lemma_value_nonneg(body);
            }
        }
        match read_digits(&chars, from, 0x7fff_ffff_ffff_ffff) {
            Some(v) => Some(v as i64),
            None => None,
        }
    }
}

// ---------- laws ----------

/// A number is never written as nothing.
pub proof fn lemma_dec_nonempty(i: int)
    ensures
        dec(i).len() > 0,
{
    let n: nat = if i < 0 {
        (-i) as nat
    } else {
        i as nat
    };
    if n >= 10 {
        assert(digits_of(n, 10).last() == digit_of(n % 10));
    }
}

proof fn lemma_digits_value(n: nat)
    ensures
        all_digits(digits_of(n, 10)),
        value_of(digits_of(n, 10)) == n,
        digits_of(n, 10).len() > 0,
    decreases n,
{
    let s = digits_of(n, 10);
    if n < 10 {
        assert(s.drop_last() =~= Seq::<char>::empty());
        assert(s.last() == digit_of(n));
        reveal_with_fuel(value_of, 2);
    } else {
        lemma_digits_value(n / 10);
        assert(s.drop_last() =~= digits_of(n / 10, 10));
        assert(s.last() == digit_of(n % 10));
        assert forall|k: int| 0 <= k < s.len() implies is_digit(#[trigger] s[k]) by {
            if k < s.len() - 1 {
                assert(s[k] == digits_of(n / 10, 10)[k]);
            }
        }
    }
}

/// Two natural numbers with one notation are one number.
pub proof fn lemma_dec_same(a: nat, b: nat)
    requires
        dec(a as int) == dec(b as int),
    ensures
        a == b,
{
    lemma_digits_value(a);
    lemma_digits_value(b);
}

/// A number reads back as it was written.
pub proof fn law_dec_reads_back(i: i64)
    ensures
        parse_i64_of(dec(i as int)) == Some(i as int),
{
    if i < 0 {
        lemma_digits_value((-i) as nat);
        let s = dec(i as int);
        assert(s.skip(1) =~= digits_of((-i) as nat, 10));
        assert(s[0] == '-');
    } else {
        lemma_digits_value(i as nat);
        assert(is_digit(dec(i as int)[0]));
    }
}

/// Two numbers with one notation are one number.
pub proof fn law_dec_injective(a: i64, b: i64)
    requires
        dec(a as int) == dec(b as int),
    ensures
        a == b,
{
    law_dec_reads_back(a);
    law_dec_reads_back(b);
}

/// Numbers are written in decimal notation: a digit stands for itself, each further digit
/// is written behind the others, and a negative number has a sign in front.
pub proof fn law_dec_is_decimal(n: nat, d: nat)
    requires
        d < 10,
    ensures
        dec(d as int) == seq![(48 + d) as char],
        n > 0 ==> dec((10 * n + d) as int) == dec(n as int).push((48 + d) as char),
        n > 0 ==> dec(-(n as int)) == seq!['-'] + dec(n as int),
{
    if n > 0 {
        assert((10 * n + d) / 10 == n && (10 * n + d) % 10 == d);
    }
}

/// What is no number is not read as one: nothing, or a text with a character that is
/// neither a digit nor a sign in front. Zeros in front and a plus sign do not matter.
pub proof fn law_only_numbers_are_read(s: Seq<char>, max: int)
    ensures
        s.len() == 0 ==> parse_i64_of(s) is None && parse_unsigned_of(s, max) is None,
        (exists|i: int| 0 < i < s.len() && !is_digit(#[trigger] s[i])) ==> parse_i64_of(s) is None
            && parse_unsigned_of(s, max) is None,
        s.len() > 0 && s[0] == '-' ==> parse_unsigned_of(s, max) is None,
        parse_unsigned_of(s, max) matches Some(v) ==> v <= max,
        all_digits(s) && s.len() > 0 ==> parse_unsigned_of(seq!['+'] + s, max) == parse_unsigned_of(s, max)
            && parse_unsigned_of(seq!['0'] + s, max) == parse_unsigned_of(s, max),
{
    if exists|i: int| 0 < i < s.len() && !is_digit(#[trigger] s[i]) {
        let i = choose|i: int| 0 < i < s.len() && !is_digit(#[trigger] s[i]);
        assert(s.skip(1)[i - 1] == s[i]);
        assert(!all_digits(s.skip(1)));
        assert(!all_digits(s));
    }
    if s.len() > 0 && s[0] == '-' {
        assert(!is_digit(s[0]));
        assert(!all_digits(s));
    }
    if all_digits(s) && s.len() > 0 {
        assert((seq!['+'] + s).skip(1) =~= s);
        assert(is_digit(s[0]));
        let z = seq!['0'] + s;
        assert forall|i: int| 0 <= i < z.len() implies is_digit(#[trigger] z[i]) by {
            if i > 0 {
                assert(z[i] == s[i - 1]);
            }
        }
        lemma_zero_in_front(s);
    }
}

proof fn lemma_zero_in_front(s: Seq<char>)
    ensures
        value_of(seq!['0'] + s) == value_of(s),
    decreases s.len(),
{
    let z = seq!['0'] + s;
    if s.len() == 0 {
        assert(z.drop_last() =~= Seq::<char>::empty());
        reveal_with_fuel(value_of, 2);
    } else {
        assert(z.drop_last() =~= seq!['0'] + s.drop_last());
        lemma_zero_in_front(s.drop_last());
    }
}

/// A natural number that is written down is read back, within the bound.
pub proof fn law_dec_reads_unsigned(n: nat, max: int)
    ensures
        n <= max ==> parse_unsigned_of(dec(n as int), max) == Some(n as int),
{
    lemma_digits_value(n);
    assert(is_digit(dec(n as int)[0]));
}

/// Numbers in base sixteen are written with the digits and the letters from a to f.
pub proof fn law_hex_is_hexadecimal(n: nat, d: nat)
    requires
        d < 16,
    ensures
        d < 10 ==> hex(d) == seq![(48 + d) as char],
        d >= 10 ==> hex(d) == seq![(97 + (d - 10)) as char],
        n > 0 ==> hex((16 * n + d) as nat) == hex(n) + hex(d),
{
    if n > 0 {
        assert((16 * n + d) / 16 == n && (16 * n + d) % 16 == d);
        assert(hex((16 * n + d) as nat) =~= hex(n) + hex(d));
    }
}

} // verus!
