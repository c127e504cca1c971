//! Decimal text of unsigned integers: formatting and parsing.

use vstd::prelude::*;

verus! {

/// The ASCII digit for `d`, for `d` below ten.
pub open spec fn digit_char(d: nat) -> char {
    (48 + d) as char
}

/// Whether `c` is an ASCII decimal digit.
pub open spec fn is_digit(c: char) -> bool {
    '0' <= c && c <= '9'
}

/// The value of an ASCII decimal digit.
pub open spec fn digit_value(c: char) -> nat {
    (c as int - 48) as nat
}

/// The decimal text of `n`, with no leading zeros.
pub open spec fn decimal(n: nat) -> Seq<char>
    decreases n,
{
    if n < 10 {
        seq![digit_char(n)]
    } else {
        decimal(n / 10) + seq![digit_char(n % 10)]
    }
}

/// The decimal text of a number is not empty and begins with a digit.
pub proof fn lemma_decimal_starts_with_digit(n: nat)
    ensures
        decimal(n).len() >= 1,
        is_digit(decimal(n)[0]),
    decreases n,
{
    if n >= 10 {
        lemma_decimal_starts_with_digit(n / 10);
    }
}

/// The decimal text of `n`.
pub fn decimal_chars(n: u64) -> (r: Vec<char>)
    ensures
        r@ == decimal(n as nat),
    decreases n,
{
    if n < 10 {
        let c = char_of_digit(n as u8);
        let mut v: Vec<char> = Vec::new();
        v.push(c);
        assert(v@ =~= seq![digit_char(n as nat)]);
        v
    } else {
        let mut v = decimal_chars(n / 10);
        let c = char_of_digit((n % 10) as u8);
        let ghost before = v@;
        v.push(c);
        assert(v@ =~= before + seq![digit_char((n % 10) as nat)]);
        v
    }
}

fn char_of_digit(d: u8) -> (c: char)
    requires
        d < 10,
    ensures
        c == digit_char(d as nat),
{
    let c = (48u8 + d) as char;
    assert(c == digit_char(d as nat)) by {
        assert((48u8 + d) as char == (48 + d) as char);
    }
    c
}

/// The decimal text of `n`, as a string.
pub fn decimal_string(n: u64) -> (r: String)
    ensures
        r@ == decimal(n as nat),
{
    let v = decimal_chars(n);
    crate::text::string_of(v.as_slice())
}

/// Whether every character of `s` is an ASCII decimal digit.
pub open spec fn all_digits(s: Seq<char>) -> bool {
    forall|i: int| 0 <= i < s.len() ==> is_digit(#[trigger] s[i])
}

/// The value of a run of ASCII decimal digits.
pub open spec fn digits_value(s: Seq<char>) -> nat
    decreases s.len(),
{
    if s.len() == 0 {
        0
    } else {
        digits_value(s.drop_last()) * 10 + digit_value(s.last())
    }
}

/// What `<u32 as FromStr>::from_str` accepts: one optional `+`, then one or more ASCII
/// digits whose value fits in a `u32`.
pub open spec fn parse_u32_spec(s: Seq<char>) -> Option<u32> {
    let d = if s.len() > 0 && s[0] == '+' {
        s.skip(1)
    } else {
        s
    };
    if d.len() > 0 && all_digits(d) && digits_value(d) <= u32::MAX {
        Some(digits_value(d) as u32)
    } else {
        None
    }
}

proof fn lemma_digits_value_grows(s: Seq<char>, k: int)
    requires
        0 <= k <= s.len(),
        all_digits(s),
    ensures
        digits_value(s.take(k)) <= digits_value(s),
    decreases s.len() - k,
{
    if k < s.len() {
        assert(s.drop_last().take(k) =~= s.take(k));
        assert(all_digits(s.drop_last()));
        lemma_digits_value_grows(s.drop_last(), k);
    } else {
        assert(s.take(k) =~= s);
    }
}

/// The `u32` that `s` denotes in decimal, under the rules of `<u32 as FromStr>::from_str`.
pub fn parse_u32(s: &[char]) -> (r: Option<u32>)
    ensures
        r == parse_u32_spec(s@),
{
    let n = s.len();
    let mut start: usize = 0;
    if n > 0 && s[0] == '+' {
        start = 1;
    }
    let ghost d = if s@.len() > 0 && s@[0] == '+' {
        s@.skip(1)
    } else {
        s@
    };
    assert(d =~= s@.skip(start as int));
    if start == n {
        return None;
    }
    let mut acc: u64 = 0;
    let mut i = start;
    while i < n
        invariant
            n == s@.len(),
            start <= i <= n,
            start < n,
            d =~= s@.skip(start as int),
            d == (if s@.len() > 0 && s@[0] == '+' {
                s@.skip(1)
            } else {
                s@
            }),
            acc as nat == digits_value(d.take(i - start)),
            all_digits(d.take(i - start)),
            acc <= u32::MAX,
        decreases n - i,
    {
        let c = s[i];
        if !('0' <= c && c <= '9') {
            assert(d[i - start] == c);
            assert(!all_digits(d));
            return None;
        }
        let dv = (c as u32 - 48) as u64;
        let ghost pre = d.take(i - start);
        assert(d.take(i - start + 1).drop_last() =~= pre);
        assert(d.take(i - start + 1).last() == c);
        let next = acc * 10 + dv;
        if next > 4294967295 {
            proof {
                assert(all_digits(d.take(i - start + 1)));
                if all_digits(d) {
                    lemma_digits_value_grows(d, i - start + 1);
                }
            }
            return None;
        }
        acc = next;
        i = i + 1;
    }
    assert(d.take(n - start) =~= d);
    Some(acc as u32)
}


/// Append the decimal text of `n` to `out`.
pub fn push_decimal(out: &mut Vec<char>, n: u64)
    ensures
        final(out)@ == old(out)@ + decimal(n as nat),
{
    let d = decimal_chars(n);
    crate::text::push_chars(out, d.as_slice());
}

/// `n / d` rounded to the nearest integer, ties to the even one.
pub open spec fn round_div(n: nat, d: nat) -> nat {
    let q = n / d;
    let r = n % d;
    if 2 * r > d || (2 * r == d && q % 2 == 1) {
        q + 1
    } else {
        q
    }
}

fn round_div_exec(n: u64, d: u64) -> (r: u64)
    requires
        d > 0,
    ensures
        r == round_div(n as nat, d as nat),
{
    let q = n / d;
    let rem = n % d;
    if (rem > d - rem) || (rem == d - rem && q % 2 == 1) {
        assert(q < u64::MAX) by (nonlinear_arith)
            requires
                q == n / d,
                rem == n % d,
                rem > 0,
                d > rem,
                n <= u64::MAX,
        {
            assert(n == q * d + rem);
            assert(d >= 2);
            assert(q * d >= q * 2);
        }
        q + 1
    } else {
        q
    }
}

/// A quantity given in thousandths, shown with one decimal, rounded to the nearest tenth.
pub open spec fn tenths_text(m: nat) -> Seq<char> {
    let t = round_div(m, 100);
    decimal(t / 10) + seq!['.', digit_char(t % 10)]
}

/// Append a quantity given in thousandths, shown with one decimal.
pub fn push_tenths(out: &mut Vec<char>, m: u64)
    ensures
        final(out)@ == old(out)@ + tenths_text(m as nat),
{
    let t = round_div_exec(m, 100);
    push_decimal(out, t / 10);
    out.push('.');
    out.push(char_of_digit((t % 10) as u8));
}

/// A quantity given in thousandths, shown rounded to a whole number.
pub open spec fn units_text(m: nat) -> Seq<char> {
    decimal(round_div(m, 1000))
}

/// Append a quantity given in thousandths, rounded to a whole number.
pub fn push_units(out: &mut Vec<char>, m: u64)
    ensures
        final(out)@ == old(out)@ + units_text(m as nat),
{
    let t = round_div_exec(m, 1000);
    push_decimal(out, t);
}

/// The lowercase hexadecimal digit for `d`, for `d` below sixteen.
pub open spec fn hex_digit(d: nat) -> char {
    if d < 10 {
        (48 + d) as char
    } else {
        (87 + d) as char
    }
}

/// The lowest `count` hexadecimal digits of `n`, most significant first.
pub open spec fn hex_digits(n: nat, count: nat) -> Seq<char>
    decreases count,
{
    if count == 0 {
        Seq::empty()
    } else {
        hex_digits(n / 16, (count - 1) as nat) + seq![hex_digit(n % 16)]
    }
}

/// The hyphenated lowercase text of a UUID: 8-4-4-4-12 hexadecimal digits.
pub open spec fn uuid_text(n: u128) -> Seq<char> {
    let h = hex_digits(n as nat, 32);
    h.subrange(0, 8) + seq!['-'] + h.subrange(8, 12) + seq!['-'] + h.subrange(12, 16) + seq!['-']
        + h.subrange(16, 20) + seq!['-'] + h.subrange(20, 32)
}

fn hex_char(d: u8) -> (c: char)
    requires
        d < 16,
    ensures
        c == hex_digit(d as nat),
{
    if d < 10 {
        let c = (48u8 + d) as char;
        assert((48u8 + d) as char == (48 + d) as char);
        c
    } else {
        let c = (87u8 + d) as char;
        assert((87u8 + d) as char == (87 + d) as char);
        c
    }
}

fn hex_digits_exec(n: u128, count: u8) -> (r: Vec<char>)
    ensures
        r@ == hex_digits(n as nat, count as nat),
    decreases count,
{
    if count == 0 {
        Vec::new()
    } else {
        let mut v = hex_digits_exec(n / 16, count - 1);
        let ghost before = v@;
        v.push(hex_char((n % 16) as u8));
        assert(v@ =~= before + seq![hex_digit((n % 16) as nat)]);
        v
    }
}

proof fn lemma_hex_digits_len(n: nat, count: nat)
    ensures
        hex_digits(n, count).len() == count,
    decreases count,
{
    if count > 0 {
        lemma_hex_digits_len(n / 16, (count - 1) as nat);
    }
}

/// Append `h[lo..hi]` to `out`.
fn push_range(out: &mut Vec<char>, h: &Vec<char>, lo: usize, hi: usize)
    requires
        lo <= hi <= h@.len(),
    ensures
        final(out)@ == old(out)@ + h@.subrange(lo as int, hi as int),
{
    let mut i: usize = lo;
    while i < hi
        invariant
            lo <= i <= hi,
            hi <= h@.len(),
            out@ == old(out)@ + h@.subrange(lo as int, i as int),
        decreases hi - i,
    {
        out.push(h[i]);
        i = i + 1;
        assert(out@ =~= old(out)@ + h@.subrange(lo as int, i as int));
    }
}

/// The hyphenated lowercase text of a UUID, as `uuid::Uuid` displays it.
pub fn uuid_string(n: u128) -> (r: String)
    ensures
        r@ == uuid_text(n),
{
    let h = hex_digits_exec(n, 32);
    proof {
        lemma_hex_digits_len(n as nat, 32);
    }
    let mut out: Vec<char> = Vec::new();
    push_range(&mut out, &h, 0, 8);
    out.push('-');
    push_range(&mut out, &h, 8, 12);
    out.push('-');
    push_range(&mut out, &h, 12, 16);
    out.push('-');
    push_range(&mut out, &h, 16, 20);
    out.push('-');
    push_range(&mut out, &h, 20, 32);
    assert(out@ =~= uuid_text(n));
    crate::text::string_of(out.as_slice())
}

} // verus!
