//! Lowercase hexadecimal text and the bytes it spells.

use vstd::prelude::*;

verus! {

/// The hexadecimal digit for `d < 16`, lowercase.
pub open spec fn hex_char(d: nat) -> char {
    if d < 10 {
        (48 + d) as char
    } else {
        (87 + d) as char
    }
}

/// The value of a hexadecimal digit, either case.
pub open spec fn hex_val(c: char) -> nat {
    if '0' <= c && c <= '9' {
        (c as u32 - 48) as nat
    } else if 'a' <= c && c <= 'f' {
        (c as u32 - 87) as nat
    } else {
        (c as u32 - 55) as nat
    }
}

pub open spec fn is_hex_digit(c: char) -> bool {
    ('0' <= c && c <= '9') || ('a' <= c && c <= 'f') || ('A' <= c && c <= 'F')
}

/// The hexadecimal digits of `v`, without leading zeros ("0" for zero).
pub open spec fn hex_digits(v: nat) -> Seq<char>
    decreases v,
{
    if v < 16 {
        seq![hex_char(v)]
    } else {
        hex_digits(v / 16).push(hex_char(v % 16))
    }
}

/// `num` (as its 64-bit two's complement) in lowercase hexadecimal, with a
/// leading zero where that makes the number of digits even.
pub open spec fn even_hex(num: i64) -> Seq<char> {
    let h = hex_digits(num as u64 as nat);
    if h.len() % 2 == 1 {
        seq!['0'] + h
    } else {
        h
    }
}

/// `s` with its spaces taken out.
pub open spec fn without_spaces(s: Seq<char>) -> Seq<char>
    decreases s.len(),
{
    if s.len() == 0 {
        Seq::empty()
    } else if s.last() == ' ' {
        without_spaces(s.drop_last())
    } else {
        without_spaces(s.drop_last()).push(s.last())
    }
}

/// Every character of `s` is a hexadecimal digit or a space.
pub open spec fn hex_or_spaces(s: Seq<char>) -> bool {
    forall|i: int| 0 <= i < s.len() ==> is_hex_digit(#[trigger] s[i]) || s[i] == ' '
}

/// The bytes that consecutive pairs of hexadecimal digits spell.
pub open spec fn hex_pairs(t: Seq<char>) -> Seq<u8> {
    Seq::new(t.len() / 2, |i: int| (hex_val(t[2 * i]) * 16 + hex_val(t[2 * i + 1])) as u8)
}

/// Relies on `String::push`: it appends one character.
#[verifier::external_body]
fn push_char(s: &mut String, c: char)
    ensures
        final(s)@ == old(s)@.push(c),
{
    s.push(c)
}

fn hex_char_of(d: u64) -> (c: char)
    requires
        d < 16,
    ensures
        c == hex_char(d as nat),
{
    let b: u8 = d as u8;
    if b < 10 {
        (48u8 + b) as char
    } else {
        (87u8 + b) as char
    }
}

/// Writes `num` in lowercase hexadecimal, padded with a leading zero to an
/// even number of digits; a negative number is written as its 64-bit two's
/// complement.
pub fn long_to_hex(num: i64) -> (r: String)
    ensures
        r@ == even_hex(num),
{
    let v: u64 = #[verifier::truncate] (num as u64);
    // the digits, least significant first
    let mut rev: Vec<char> = Vec::new();
    let mut x: u64 = v;
    while x >= 16
        invariant
            x <= v,
            hex_digits(v as nat) == hex_digits(x as nat) + rev@.reverse(),
        decreases x,
    {
        let ghost before = rev@;
        rev.push(hex_char_of(x % 16));
        proof {
            assert(rev@.reverse() =~= seq![hex_char((x % 16) as nat)] + before.reverse());
            assert(hex_digits(x as nat) == hex_digits((x / 16) as nat).push(hex_char((x % 16) as nat)));
            assert(hex_digits((x / 16) as nat).push(hex_char((x % 16) as nat)) + before.reverse()
                =~= hex_digits((x / 16) as nat) + rev@.reverse());
        }
        x = x / 16;
    }
    let ghost before = rev@;
    rev.push(hex_char_of(x));
    assert(rev@.reverse() =~= seq![hex_char(x as nat)] + before.reverse());
    assert(hex_digits(v as nat) =~= rev@.reverse());
    let n = rev.len();
    let mut out = String::new();
    if n % 2 == 1 {
        push_char(&mut out, '0');
    }
    let ghost start = out@;
    let mut i: usize = n;
    while i > 0
        invariant
            i <= n,
            n == rev@.len(),
            out@ == start + rev@.reverse().take(n - i),
        decreases i,
    {
        push_char(&mut out, rev[i - 1]);
        assert(rev@.reverse().take(n - i + 1) =~= rev@.reverse().take(n - i).push(rev@[i - 1]));
        i = i - 1;
    }
    assert(rev@.reverse().take(n as int) =~= rev@.reverse());
    assert(out@ =~= even_hex(num));
    out
}

fn hex_val_of(c: char) -> (r: u8)
    requires
        is_hex_digit(c),
    ensures
        r as nat == hex_val(c),
        r < 16,
{
    if '0' <= c && c <= '9' {
        (c as u32 - 48) as u8
    } else if 'a' <= c && c <= 'f' {
        (c as u32 - 87) as u8
    } else {
        (c as u32 - 55) as u8
    }
}

/// Reads hexadecimal text as bytes, two digits to a byte, after taking out
/// its spaces; an odd number of characters left gives no bytes, whatever
/// they are.
pub fn hex_to_byte(hex: String) -> (r: Vec<u8>)
    requires
        without_spaces(hex@).len() % 2 == 0 ==> hex_or_spaces(hex@),
    ensures
        without_spaces(hex@).len() % 2 == 1 ==> r@.len() == 0,
        without_spaces(hex@).len() % 2 == 0 ==> r@ == hex_pairs(without_spaces(hex@)),
{
    let ghost s = hex@;
    let text = hex.as_str();
    let n = text.unicode_len();
    let mut digits: Vec<char> = Vec::new();
    let mut i: usize = 0;
    while i < n
        invariant
            s == text@,
            n == s.len(),
            i <= n,
            digits@ == without_spaces(s.take(i as int)),
            without_spaces(s).len() % 2 == 0 ==> hex_or_spaces(s),
            hex_or_spaces(s) ==> forall|j: int|
                0 <= j < digits@.len() ==> is_hex_digit(#[trigger] digits@[j]),
        decreases n - i,
    {
        let c = text.get_char(i);
        assert(s.take(i + 1).drop_last() =~= s.take(i as int));
        if c != ' ' {
            digits.push(c);
        }
        i = i + 1;
    }
    assert(s.take(n as int) =~= s);
    assert(digits@.len() % 2 == 0 ==> forall|j: int|
        0 <= j < digits@.len() ==> is_hex_digit(#[trigger] digits@[j]));
    let mut bytes: Vec<u8> = Vec::new();
    let m = digits.len();
    if m % 2 == 1 {
        return bytes;
    }
    let mut k: usize = 0;
    while k < m / 2
        invariant
            m == digits@.len(),
            m % 2 == 0,
            k <= m / 2,
            forall|j: int| 0 <= j < digits@.len() ==> is_hex_digit(#[trigger] digits@[j]),
            bytes@ == hex_pairs(digits@).take(k as int),
        decreases m / 2 - k,
    {
        let hi = hex_val_of(digits[2 * k]);
        let lo = hex_val_of(digits[2 * k + 1]);
        bytes.push(hi * 16 + lo);
        assert(bytes@ =~= hex_pairs(digits@).take(k + 1));
        k = k + 1;
    }
    assert(hex_pairs(digits@).take(k as int) =~= hex_pairs(digits@));
    bytes
}

} // verus!
