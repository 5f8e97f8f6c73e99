//! Parsers of standard types.

use vstd::prelude::*;

use crate::parser::text::{
    chars_of, is_ascii_digit, is_ascii_digit_char, is_ascii_hexdigit, is_ascii_hexdigit_char,
    strip_prefix_str, suffix_from,
};
use crate::parser::traits::{lemma_suffix_trans, parsed_as, Parser, SpecResult};

verus! {

/// The value of an ASCII (hexadecimal) digit.
pub open spec fn digit_value(c: char) -> nat {
    if '0' <= c <= '9' {
        (c as nat - '0' as nat) as nat
    } else if 'a' <= c <= 'f' {
        (c as nat - 'a' as nat + 10) as nat
    } else {
        (c as nat - 'A' as nat + 10) as nat
    }
}

/// A digit of base 16 when `hex`, of base 10 otherwise.
pub open spec fn is_digit_of(c: char, hex: bool) -> bool {
    if hex {
        is_ascii_hexdigit(c)
    } else {
        is_ascii_digit(c)
    }
}

/// How many digits `s` starts with.
pub open spec fn leading_digits(s: Seq<char>, hex: bool) -> nat
    decreases s.len(),
{
    if s.len() > 0 && is_digit_of(s[0], hex) {
        1 + leading_digits(s.drop_first(), hex)
    } else {
        0
    }
}

/// The number that the digits `ds` write in base `radix`.
pub open spec fn digits_value(ds: Seq<char>, radix: nat) -> nat
    decreases ds.len(),
{
    if ds.len() == 0 {
        0
    } else {
        digits_value(ds.drop_last(), radix) * radix + digit_value(ds.last())
    }
}

/// A positive number in decimal, or in hexadecimal after `0x`, at the start of
/// `s`; zero and numbers beyond `u32::MAX` are refused.
pub open spec fn spec_u32(s: Seq<char>) -> SpecResult<u32> {
    let hex = seq!['0', 'x'].is_prefix_of(s);
    let body = if hex {
        s.skip(2)
    } else {
        s
    };
    let end = leading_digits(body, hex);
    let value = digits_value(body.take(end as int), if hex {
        16
    } else {
        10
    });
    if end == 0 || value == 0 || value > u32::MAX {
        Err(())
    } else {
        Ok((body.skip(end as int), value as u32))
    }
}

/// The number that `text` writes, read as `str::parse` reads an integer: an
/// optional sign and decimal digits (`text` is taken to hold digits after its
/// first character).
pub open spec fn signed_decimal(text: Seq<char>) -> Option<int> {
    if text.len() > 0 && is_ascii_digit(text[0]) {
        Some(digits_value(text, 10) as int)
    } else if text.len() > 1 && text[0] == '+' {
        Some(digits_value(text.drop_first(), 10) as int)
    } else if text.len() > 1 && text[0] == '-' {
        Some(0 - digits_value(text.drop_first(), 10))
    } else {
        None
    }
}

/// The non-zero `i32` that `text` writes, if any.
pub open spec fn nonzero_i32(text: Seq<char>) -> Option<i32> {
    match signed_decimal(text) {
        Some(v) => if v != 0 && i32::MIN <= v <= i32::MAX {
            Some(v as i32)
        } else {
            None
        },
        None => None,
    }
}

/// A non-zero number in decimal, with an optional sign, at the start of `s`:
/// the first character and the decimal digits that follow it are read as an
/// `i32` (as `str::parse::<i32>`); numbers out of range are refused.
pub open spec fn spec_i32(s: Seq<char>) -> SpecResult<i32> {
    if s.len() == 0 {
        Err(())
    } else {
        let end = 1 + leading_digits(s.drop_first(), false);
        match nonzero_i32(s.take(end as int)) {
            Some(v) => Ok((s.skip(end as int), v)),
            None => Err(()),
        }
    }
}

/// Two hexadecimal digits at the start of `s`, read as a byte.
pub open spec fn spec_byte(s: Seq<char>) -> SpecResult<u8> {
    if s.len() >= 2 && is_ascii_hexdigit(s[0]) && is_ascii_hexdigit(s[1]) {
        Ok((s.skip(2), (digit_value(s[0]) * 16 + digit_value(s[1])) as u8))
    } else {
        Err(())
    }
}

/// A text starts with at most as many digits as it has characters.
pub proof fn lemma_leading_digits_bound(s: Seq<char>, hex: bool)
    ensures
        leading_digits(s, hex) <= s.len(),
        forall|k: int| 0 <= k < leading_digits(s, hex) ==> is_digit_of(s[k], hex),
        leading_digits(s, hex) < s.len() ==> !is_digit_of(s[leading_digits(s, hex) as int], hex),
    decreases s.len(),
{
    if s.len() > 0 && is_digit_of(s[0], hex) {
        lemma_leading_digits_bound(s.drop_first(), hex);
        assert forall|k: int| 0 <= k < leading_digits(s, hex) implies is_digit_of(s[k], hex) by {
            if k > 0 {
                assert(s[k] == s.drop_first()[k - 1]);
            }
        }
    }
}

/// Adding digits never makes a number smaller.
pub proof fn lemma_digits_value_grows(ds: Seq<char>, radix: nat, i: int, j: int)
    requires
        radix >= 1,
        0 <= i <= j <= ds.len(),
    ensures
        digits_value(ds.take(i), radix) <= digits_value(ds.take(j), radix),
    decreases j - i,
{
    if i < j {
        lemma_digits_value_grows(ds, radix, i, j - 1);
        let v = digits_value(ds.take(j - 1), radix);
        assert(ds.take(j).drop_last() =~= ds.take(j - 1));
        assert(v * radix >= v) by (nonlinear_arith)
            requires
                radix >= 1,
        ;
    }
}

/// The value of a digit character is below its base.
proof fn lemma_digit_value_bound(c: char, hex: bool)
    requires
        is_digit_of(c, hex),
    ensures
        digit_value(c) < if hex {
            16nat
        } else {
            10nat
        },
{
}

/// Whether `c` is a digit of base 16 when `hex`, of base 10 otherwise.
fn is_digit_of_char(c: char, hex: bool) -> (b: bool)
    ensures
        b == is_digit_of(c, hex),
{
    if hex {
        is_ascii_hexdigit_char(c)
    } else {
        is_ascii_digit_char(c)
    }
}

/// The value of the hexadecimal (or decimal) digit `c`.
fn hex_digit_value(c: char) -> (d: u64)
    requires
        is_ascii_hexdigit(c),
    ensures
        d == digit_value(c),
        d < 16,
{
    if '0' <= c && c <= '9' {
        (c as u64) - ('0' as u64)
    } else if 'a' <= c && c <= 'f' {
        (c as u64) - ('a' as u64) + 10
    } else {
        (c as u64) - ('A' as u64) + 10
    }
}

/// The number of leading digits of `s`, and that they are digits.
fn count_leading_digits(v: &Vec<char>, start: usize, hex: bool) -> (end: usize)
    requires
        start <= v@.len(),
    ensures
        end == leading_digits(v@.skip(start as int), hex),
        start + end <= v@.len(),
        forall|k: int| start <= k < start + end ==> is_digit_of(v@[k], hex),
{
    let n = v.len();
    let mut i: usize = start;
    assert(v@.skip(start as int).skip(0) =~= v@.skip(start as int));
    while i < n && is_digit_of_char(v[i], hex)
        invariant
            n == v@.len(),
            start <= i <= n,
            leading_digits(v@.skip(start as int), hex) == (i - start) + leading_digits(
                v@.skip(i as int),
                hex,
            ),
            forall|k: int| start <= k < i ==> is_digit_of(v@[k], hex),
        decreases n - i,
    {
        assert(v@.skip(i as int).drop_first() =~= v@.skip(i + 1));
        i = i + 1;
    }
    i - start
}

/// The value of the digits `v[start..start + len]` in base `radix`, or
/// `None` when it exceeds `limit`.
fn digits_value_upto(v: &Vec<char>, start: usize, len: usize, hex: bool, limit: u64) -> (r: Option<
    u64,
>)
    requires
        start + len <= v@.len(),
        forall|k: int| start <= k < start + len ==> is_digit_of(v@[k], hex),
        limit <= 0x1_0000_0000,
    ensures
        ({
            let value = digits_value(
                v@.subrange(start as int, start + len),
                if hex {
                    16nat
                } else {
                    10nat
                },
            );
            match r {
                Some(x) => x == value && value <= limit,
                None => value > limit,
            }
        }),
{
    let radix: u64 = if hex {
        16
    } else {
        10
    };
    let ghost ds = v@.subrange(start as int, start + len);
    let n = v.len();
    let mut acc: u64 = 0;
    let mut i: usize = 0;
    assert(ds.take(0) =~= Seq::<char>::empty());
    while i < len
        invariant
            start + len <= v@.len(),
            n == v@.len(),
            ds == v@.subrange(start as int, start + len),
            forall|k: int| start <= k < start + len ==> is_digit_of(v@[k], hex),
            limit <= 0x1_0000_0000,
            radix == (if hex {
                16nat
            } else {
                10nat
            }),
            i <= len,
            acc == digits_value(ds.take(i as int), radix as nat),
            acc <= limit,
        decreases len - i,
    {
        let c = v[start + i];
        proof {
            lemma_digit_value_bound(c, hex);
        }
        let d = hex_digit_value(c);
        assert(acc * radix <= 0x1_0000_0000 * 16) by (nonlinear_arith)
            requires
                acc <= 0x1_0000_0000,
                radix <= 16,
        ;
        let next = acc * radix + d;
        assert(ds.take(i + 1).drop_last() =~= ds.take(i as int));
        assert(ds[i as int] == c);
        if next > limit {
            proof {
                lemma_digits_value_grows(ds, radix as nat, i + 1, len as int);
                assert(ds.take(len as int) =~= ds);
            }
            return None;
        }
        acc = next;
        i = i + 1;
    }
    assert(ds.take(len as int) =~= ds);
    Some(acc)
}

/// Parser of unsigned numbers: positive decimal numbers, or hexadecimal ones
/// after `0x`.
#[derive(Debug)]
pub struct U32;

impl Parser for U32 {
    type Dest = u32;

    open spec fn spec_parse(&self, input: Seq<char>) -> SpecResult<u32> {
        spec_u32(input)
    }

    proof fn lemma_parse_suffix(&self, input: Seq<char>) {
        let hex = seq!['0', 'x'].is_prefix_of(input);
        let body = if hex {
            input.skip(2)
        } else {
            input
        };
        lemma_leading_digits_bound(body, hex);
        if let Ok((rest, _)) = spec_u32(input) {
            let end = leading_digits(body, hex);
            assert(rest =~= input.subrange(input.len() - rest.len(), input.len() as int));
        }
    }

    fn parse<'a>(&self, input: &'a str) -> (res: Result<(&'a str, u32), ()>) {
        let (remaining, is_hex) = match strip_prefix_str(input, "0x") {
            Some(rest) => (rest, true),
            None => (input, false),
        };
        proof {
            reveal_strlit("0x");
            assert("0x"@ =~= seq!['0', 'x']);
        }
        let v = chars_of(remaining);
        let n = v.len();
        let end_idx = count_leading_digits(&v, 0, is_hex);
        assert(v@.skip(0) =~= v@);
        if end_idx == 0 {
            return Err(());
        }
        let value = match digits_value_upto(&v, 0, end_idx, is_hex, 0xffff_ffff) {
            Some(x) => x,
            None => return Err(()),
        };
        assert(v@.subrange(0, end_idx as int) =~= remaining@.take(end_idx as int));
        if value == 0 {
            return Err(());
        }
        Ok((suffix_from(remaining, end_idx, n), value as u32))
    }
}

/// Parser of signed numbers.
#[derive(Debug)]
pub struct I32;

impl Parser for I32 {
    type Dest = i32;

    open spec fn spec_parse(&self, input: Seq<char>) -> SpecResult<i32> {
        spec_i32(input)
    }

    proof fn lemma_parse_suffix(&self, input: Seq<char>) {
        if input.len() > 0 {
            lemma_leading_digits_bound(input.drop_first(), false);
        }
        if let Ok((rest, _)) = spec_i32(input) {
            assert(rest =~= input.subrange(input.len() - rest.len(), input.len() as int));
        }
    }

    fn parse<'a>(&self, input: &'a str) -> (res: Result<(&'a str, i32), ()>) {
        let v = chars_of(input);
        let n = v.len();
        if n == 0 {
            return Err(());
        }
        let digits = count_leading_digits(&v, 1, false);
        assert(v@.skip(1) =~= input@.drop_first());
        let end_idx = 1 + digits;
        match nonzero_i32_prefix(&v, end_idx) {
            Some(value) => {
                assert(v@.take(end_idx as int) =~= input@.take(end_idx as int));
                Ok((suffix_from(input, end_idx, n), value))
            },
            None => {
                assert(v@.take(end_idx as int) =~= input@.take(end_idx as int));
                Err(())
            },
        }
    }
}

/// The non-zero `i32` that the first `end` characters of `v` write, if any.
fn nonzero_i32_prefix(v: &Vec<char>, end: usize) -> (r: Option<i32>)
    requires
        1 <= end <= v@.len(),
        forall|k: int| 1 <= k < end ==> is_digit_of(v@[k], false),
    ensures
        r == nonzero_i32(v@.take(end as int)),
{
    let ghost text = v@.take(end as int);
    let first = v[0];
    if is_ascii_digit_char(first) {
        match digits_value_upto(v, 0, end, false, 0x7fff_ffff) {
            Some(value) => {
                assert(v@.subrange(0, end as int) =~= text);
                if value == 0 {
                    None
                } else {
                    Some(value as i32)
                }
            },
            None => {
                assert(v@.subrange(0, end as int) =~= text);
                None
            },
        }
    } else if (first == '+' || first == '-') && end > 1 {
        let limit: u64 = if first == '+' {
            0x7fff_ffff
        } else {
            0x8000_0000
        };
        assert(v@.subrange(1, end as int) =~= text.drop_first());
        match digits_value_upto(v, 1, end - 1, false, limit) {
            Some(value) => {
                if value == 0 {
                    None
                } else if first == '+' {
                    Some(value as i32)
                } else {
                    Some((0 - (value as i64)) as i32)
                }
            },
            None => None,
        }
    } else {
        None
    }
}

/// Parser of a byte written as two hexadecimal digits (for reading blobs).
#[derive(Debug, Clone)]
pub struct Byte;

impl Parser for Byte {
    type Dest = u8;

    open spec fn spec_parse(&self, input: Seq<char>) -> SpecResult<u8> {
        spec_byte(input)
    }

    proof fn lemma_parse_suffix(&self, input: Seq<char>) {
        if let Ok((rest, _)) = spec_byte(input) {
            assert(rest =~= input.subrange(input.len() - rest.len(), input.len() as int));
        }
    }

    fn parse<'a>(&self, input: &'a str) -> (res: Result<(&'a str, u8), ()>) {
        let v = chars_of(input);
        let n = v.len();
        if n < 2 || !is_ascii_hexdigit_char(v[0]) || !is_ascii_hexdigit_char(v[1]) {
            return Err(());
        }
        let value = hex_digit_value(v[0]) * 16 + hex_digit_value(v[1]);
        Ok((suffix_from(input, 2, n), value as u8))
    }
}

} // verus!

verus! {

// ---------------------------------------------------------------------------
// Laws of the number parsers
// ---------------------------------------------------------------------------

/// A run of digits followed by a non-digit starts with exactly that many
/// digits.
pub proof fn lemma_leading_digits_concat(ds: Seq<char>, rest: Seq<char>, hex: bool)
    requires
        forall|k: int| 0 <= k < ds.len() ==> is_digit_of(ds[k], hex),
        rest.len() > 0 ==> !is_digit_of(rest[0], hex),
    ensures
        leading_digits(ds + rest, hex) == ds.len(),
    decreases ds.len(),
{
    if ds.len() == 0 {
        assert(ds + rest =~= rest);
    } else {
        lemma_leading_digits_concat(ds.drop_first(), rest, hex);
        assert((ds + rest).drop_first() =~= ds.drop_first() + rest);
    }
}

/// [`U32`] never gives zero.
pub proof fn lemma_u32_positive(input: Seq<char>)
    ensures
        spec_u32(input) matches Ok((_, v)) ==> v > 0,
{
}

/// [`I32`] never gives zero.
pub proof fn lemma_i32_nonzero(input: Seq<char>)
    ensures
        spec_i32(input) matches Ok((_, v)) ==> v != 0,
{
}

/// [`U32`] reads a whole run of decimal digits whose value is a positive
/// `u32`, and leaves what follows it.
pub proof fn lemma_u32_reads_decimal(ds: Seq<char>, rest: Seq<char>)
    requires
        ds.len() > 0,
        forall|k: int| 0 <= k < ds.len() ==> is_ascii_digit(ds[k]),
        rest.len() > 0 ==> !is_ascii_digit(rest[0]),
        0 < digits_value(ds, 10) <= u32::MAX,
    ensures
        spec_u32(ds + rest) == Ok::<(Seq<char>, u32), ()>((rest, digits_value(ds, 10) as u32)),
{
    let s = ds + rest;
    assert(!seq!['0', 'x'].is_prefix_of(s)) by {
        if seq!['0', 'x'].is_prefix_of(s) {
            assert(s.subrange(0, 2)[0] == s[0]);
            assert(s.subrange(0, 2)[1] == s[1]);
            if ds.len() >= 2 {
                assert(s[1] == ds[1]);
            } else {
                assert(ds =~= seq!['0']);
                assert(ds.drop_last() =~= Seq::<char>::empty());
                assert(ds.last() == '0');
                assert(digit_value('0') == 0);
                assert(digits_value(ds.drop_last(), 10) == 0);
                assert(digits_value(ds, 10) == 0);
            }
        }
    }
    lemma_leading_digits_concat(ds, rest, false);
    assert(s.take(ds.len() as int) =~= ds);
    assert(s.skip(ds.len() as int) =~= rest);
}

/// [`U32`] reads `0x` and a whole run of hexadecimal digits whose value is a
/// positive `u32`, and leaves what follows it.
pub proof fn lemma_u32_reads_hex(ds: Seq<char>, rest: Seq<char>)
    requires
        ds.len() > 0,
        forall|k: int| 0 <= k < ds.len() ==> is_ascii_hexdigit(ds[k]),
        rest.len() > 0 ==> !is_ascii_hexdigit(rest[0]),
        0 < digits_value(ds, 16) <= u32::MAX,
    ensures
        spec_u32(seq!['0', 'x'] + ds + rest) == Ok::<(Seq<char>, u32), ()>(
            (rest, digits_value(ds, 16) as u32),
        ),
{
    let s = seq!['0', 'x'] + ds + rest;
    assert(seq!['0', 'x'] =~= s.subrange(0, 2));
    assert(s.skip(2) =~= ds + rest);
    lemma_leading_digits_concat(ds, rest, true);
    assert((ds + rest).take(ds.len() as int) =~= ds);
    assert((ds + rest).skip(ds.len() as int) =~= rest);
}

} // verus!

verus! {

/// The value of a hexadecimal digit `c` of either case, if it is one.
pub open spec fn hex_value(c: char) -> Option<int> {
    if '0' <= c && c <= '9' {
        Some(c as int - '0' as int)
    } else if 'a' <= c && c <= 'f' {
        Some(c as int - 'a' as int + 10)
    } else if 'A' <= c && c <= 'F' {
        Some(c as int - 'A' as int + 10)
    } else {
        None
    }
}

/// [`Byte`] reads two hexadecimal digits of either case (`0`-`9`, `a`-`f`,
/// `A`-`F`) as the byte `16 * high + low` and leaves what follows them; when
/// either of the first two characters is no such digit, or there are fewer
/// than two, it fails.
pub proof fn lemma_byte_reads_hex_digits(d1: char, d2: char, rest: Seq<char>)
    ensures
        (hex_value(d1) is Some && hex_value(d2) is Some) ==> Byte.spec_parse(seq![d1, d2] + rest)
            == Ok::<(Seq<char>, u8), ()>(
            (rest, (16 * hex_value(d1).unwrap() + hex_value(d2).unwrap()) as u8),
        ),
        (hex_value(d1) is None || hex_value(d2) is None) ==> Byte.spec_parse(
            seq![d1, d2] + rest,
        ) is Err,
        Byte.spec_parse(seq![d1]) is Err,
        Byte.spec_parse(Seq::empty()) is Err,
{
    let s = seq![d1, d2] + rest;
    assert(s[0] == d1 && s[1] == d2);
    assert(s.skip(2) =~= rest);
}

/// The value that [`Byte`] gives is that of the same two digits read by
/// [`U32`] after `0x`, when that value is not zero.
pub proof fn lemma_byte_agrees_with_u32(d1: char, d2: char, rest: Seq<char>)
    requires
        hex_value(d1) is Some,
        hex_value(d2) is Some,
        rest.len() > 0 ==> hex_value(rest[0]) is None,
        16 * hex_value(d1).unwrap() + hex_value(d2).unwrap() > 0,
    ensures
        ({
            match (Byte.spec_parse(seq![d1, d2] + rest), U32.spec_parse(
                seq!['0', 'x'] + seq![d1, d2] + rest,
            )) {
                (Ok((r1, b)), Ok((r2, u))) => r1 == rest && r2 == rest && b as u32 == u,
                _ => false,
            }
        }),
{
    lemma_byte_reads_hex_digits(d1, d2, rest);
    let ds = seq![d1, d2];
    assert(ds.drop_last() =~= seq![d1]);
    assert(seq![d1].drop_last() =~= Seq::<char>::empty());
    assert(digits_value(ds, 16) == digit_value(d1) * 16 + digit_value(d2)) by {
        reveal_with_fuel(digits_value, 3);
    }
    lemma_u32_reads_hex(ds, rest);
}

} // verus!

verus! {

/// [`I32`] reads a whole run of decimal digits, with or without a `+` or `-`
/// in front, as the number they write (negated after `-`), and leaves what
/// follows; zero and numbers beyond the range of `i32` are refused.
pub proof fn lemma_i32_reads_decimal(ds: Seq<char>, rest: Seq<char>)
    requires
        ds.len() > 0,
        forall|k: int| 0 <= k < ds.len() ==> '0' <= #[trigger] ds[k] <= '9',
        rest.len() > 0 ==> !('0' <= rest[0] <= '9'),
    ensures
        ({
            let v = digits_value(ds, 10) as int;
            &&& spec_i32(ds + rest) == if 0 < v <= i32::MAX {
                Ok::<(Seq<char>, i32), ()>((rest, v as i32))
            } else {
                Err(())
            }
            &&& spec_i32(seq!['+'] + ds + rest) == if 0 < v <= i32::MAX {
                Ok::<(Seq<char>, i32), ()>((rest, v as i32))
            } else {
                Err(())
            }
            &&& spec_i32(seq!['-'] + ds + rest) == if 0 < v <= 0x8000_0000 {
                Ok::<(Seq<char>, i32), ()>((rest, (0 - v) as i32))
            } else {
                Err(())
            }
        }),
{
    let s = ds + rest;
    assert(s.drop_first() =~= ds.drop_first() + rest);
    assert forall|k: int| 0 <= k < ds.drop_first().len() implies is_digit_of(
        ds.drop_first()[k],
        false,
    ) by {
        assert(ds.drop_first()[k] == ds[k + 1]);
    }
    lemma_leading_digits_concat(ds.drop_first(), rest, false);
    assert(s.take(ds.len() as int) =~= ds);
    assert(s.skip(ds.len() as int) =~= rest);
    assert(s[0] == ds[0]);
    assert forall|k: int| 0 <= k < ds.len() implies is_digit_of(ds[k], false) by {
        assert('0' <= ds[k] <= '9');
    }
    lemma_leading_digits_concat(ds, rest, false);
    let plus = seq!['+'] + ds + rest;
    assert(plus.drop_first() =~= ds + rest);
    assert(plus.take(ds.len() as int + 1) =~= seq!['+'] + ds);
    assert((seq!['+'] + ds).drop_first() =~= ds);
    assert(plus.skip(ds.len() as int + 1) =~= rest);
    let minus = seq!['-'] + ds + rest;
    assert(minus.drop_first() =~= ds + rest);
    assert(minus.take(ds.len() as int + 1) =~= seq!['-'] + ds);
    assert((seq!['-'] + ds).drop_first() =~= ds);
    assert(minus.skip(ds.len() as int + 1) =~= rest);
}

} // verus!
