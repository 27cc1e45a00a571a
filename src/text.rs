//! Decimal numbers written as text: digits with at most one decimal point.

use vstd::prelude::*;

use crate::bytes::{be_bytes, pow256};
use crate::decimal::{
    encode10_result, encode5_result, encode_decimal10, encode_decimal5, lemma_pow256_values,
    num_bytes, Decimal,
};
use crate::error::CodecError;

verus! {

pub open spec fn is_digit(c: char) -> bool {
    '0' <= c && c <= '9'
}

pub open spec fn all_digits(s: Seq<char>) -> bool {
    forall|i: int| 0 <= i < s.len() ==> is_digit(#[trigger] s[i])
}

/// The number that the decimal digits `s` spell.
pub open spec fn digits_value(s: Seq<char>) -> nat
    decreases s.len(),
{
    if s.len() == 0 {
        0
    } else {
        digits_value(s.drop_last()) * 10 + ((s.last() as u32) - 48) as nat
    }
}

/// `s` is digits on both sides of a decimal point at `k`, with a digit somewhere.
pub open spec fn point_at(s: Seq<char>, k: int) -> bool {
    &&& 0 <= k < s.len()
    &&& s[k] == '.'
    &&& s.len() >= 2
    &&& all_digits(s.take(k))
    &&& all_digits(s.skip(k + 1))
}

/// The mantissa and scale that a decimal text stands for: the digits with the
/// point taken out, and the number of digits after the point.
pub open spec fn text_decimal(s: Seq<char>) -> Option<(nat, nat)> {
    if s.len() > 0 && all_digits(s) {
        Some((digits_value(s), 0))
    } else if exists|k: int| point_at(s, k) {
        let k = choose|k: int| point_at(s, k);
        Some((digits_value(s.take(k) + s.skip(k + 1)), (s.len() - k - 1) as nat))
    } else {
        None
    }
}

/// What reading a decimal text gives.
pub open spec fn parse_result(s: Seq<char>) -> Result<Decimal, CodecError> {
    match text_decimal(s) {
        None => Err(CodecError::InvalidNumber),
        Some((m, sc)) => if m <= u128::MAX && sc <= u8::MAX {
            Ok(Decimal { mantissa: m as u128, scale: sc as u8 })
        } else {
            Err(CodecError::EncodeOverflow)
        },
    }
}

/// What encoding a decimal text with a mantissa of `w` bytes gives.
pub open spec fn encode_text_result(s: Seq<char>, w: nat) -> Result<Seq<u8>, CodecError> {
    match text_decimal(s) {
        None => Err(CodecError::InvalidNumber),
        Some((m, sc)) => if m < pow256(w) && sc <= u8::MAX {
            Ok(be_bytes(m, w) + seq![sc as u8])
        } else {
            Err(CodecError::EncodeOverflow)
        },
    }
}

proof fn lemma_digits_prefix_le(s: Seq<char>, j: int)
    requires
        0 <= j <= s.len(),
        all_digits(s),
    ensures
        digits_value(s.take(j)) <= digits_value(s),
    decreases s.len(),
{
    if j < s.len() {
        let t = s.drop_last();
        assert(s.take(j) =~= t.take(j));
        assert(all_digits(t)) by {
            assert forall|i: int| 0 <= i < t.len() implies is_digit(#[trigger] t[i]) by {
                assert(t[i] == s[i]);
            }
        }
        lemma_digits_prefix_le(t, j);
        assert(is_digit(s[s.len() - 1]));
    } else {
        assert(s.take(j) =~= s);
    }
}

proof fn lemma_point_unique(s: Seq<char>, k: int, j: int)
    requires
        point_at(s, k),
        0 <= j < s.len(),
        s[j] == '.',
    ensures
        j == k,
{
    if j < k {
        assert(s.take(k)[j] == s[j]);
    } else if j > k {
        assert(s.skip(k + 1)[j - k - 1] == s[j]);
    }
}

/// Reads a decimal text (`"12345.67"`) as a mantissa and a scale.
pub fn parse_decimal(value: &str) -> (r: Result<Decimal, CodecError>)
    ensures
        r == parse_result(value@),
{
    let ghost s = value@;
    let n = value.unicode_len();
    let mut digits: Vec<char> = Vec::new();
    let mut point: usize = n;
    let mut i: usize = 0;
    while i < n
        invariant
            s == value@,
            n == s.len(),
            i <= n,
            point == n || (point < i && s[point as int] == '.'),
            forall|j: int| 0 <= j < i && j != point ==> is_digit(#[trigger] s[j]),
            point == n ==> digits@ == s.take(i as int),
            point < n ==> digits@ == s.take(point as int) + s.subrange(point + 1, i as int),
        decreases n - i,
    {
        let c = value.get_char(i);
        if c == '.' {
            if point < n {
                proof {
                    assert forall|k: int| !point_at(s, k) by {
                        if point_at(s, k) {
                            lemma_point_unique(s, k, i as int);
                            lemma_point_unique(s, k, point as int);
                        }
                    }
                    assert(!is_digit(s[i as int]));
                }
                return Err(CodecError::InvalidNumber);
            }
            point = i;
            assert(digits@ =~= s.take(point as int) + s.subrange(point + 1, i + 1));
        } else if '0' <= c && c <= '9' {
            digits.push(c);
            if point == n {
                assert(digits@ =~= s.take(i + 1));
            } else {
                assert(digits@ =~= s.take(point as int) + s.subrange(point + 1, i + 1));
            }
        } else {
            proof {
                assert forall|k: int| !point_at(s, k) by {
                    if point_at(s, k) {
                        if (i as int) < k {
                            assert(s.take(k)[i as int] == s[i as int]);
                        } else if (i as int) > k {
                            assert(s.skip(k + 1)[i - k - 1] == s[i as int]);
                        }
                    }
                }
            }
            return Err(CodecError::InvalidNumber);
        }
        i = i + 1;
    }
    proof {
        if point == n {
            assert(s.take(n as int) =~= s);
            if n > 0 {
                assert(all_digits(s));
            } else {
                assert forall|k: int| !point_at(s, k) by {}
            }
        } else {
            assert(s.subrange(point + 1, n as int) =~= s.skip(point + 1));
            assert(all_digits(s.take(point as int))) by {
                assert forall|j: int| 0 <= j < point implies is_digit(#[trigger] s.take(point as int)[j]) by {
                    assert(s.take(point as int)[j] == s[j]);
                }
            }
            assert(all_digits(s.skip(point + 1))) by {
                assert forall|j: int| 0 <= j < n - point - 1 implies is_digit(#[trigger] s.skip(point + 1)[j]) by {
                    assert(s.skip(point + 1)[j] == s[point + 1 + j]);
                }
            }
            assert(!is_digit(s[point as int]));
            if n < 2 {
                assert forall|k: int| !point_at(s, k) by {}
            } else {
                assert(point_at(s, point as int));
                let k = choose|k: int| point_at(s, k);
                lemma_point_unique(s, k, point as int);
            }
        }
    }
    if n == 0 || (point < n && n < 2) {
        return Err(CodecError::InvalidNumber);
    }
    let scale_len: usize = if point < n { n - point - 1 } else { 0 };
    // the digits with the point taken out
    let ghost all = digits@;
    assert(all_digits(all)) by {
        assert forall|j: int| 0 <= j < all.len() implies is_digit(#[trigger] all[j]) by {
            if point == n {
                assert(all[j] == s[j]);
            } else if j < point {
                assert(all[j] == s[j]);
            } else {
                assert(all[j] == s[j + 1]);
            }
        }
    }
    assert(text_decimal(s) == Some((digits_value(all), scale_len as nat))) by {
        if point < n {
            assert(all =~= s.take(point as int) + s.skip(point + 1));
            let k = choose|k: int| point_at(s, k);
            lemma_point_unique(s, k, point as int);
        } else {
            assert(all =~= s);
        }
    }
    let m = digits.len();
    let mut acc: u128 = 0;
    let mut k: usize = 0;
    while k < m
        invariant
            s == value@,
            text_decimal(s) == Some((digits_value(all), scale_len as nat)),
            m == all.len(),
            digits@ == all,
            all_digits(all),
            k <= m,
            acc as nat == digits_value(all.take(k as int)),
        decreases m - k,
    {
        let c = digits[k];
        let dv: u128 = (c as u32 - 48) as u128;
        assert(all.take(k + 1).drop_last() =~= all.take(k as int));
        assert(is_digit(all[k as int]));
        assert(all.take(k + 1).last() == c);
        assert(digits_value(all.take(k + 1)) == acc * 10 + dv);
        if acc > (u128::MAX - dv) / 10 {
            proof {
                assert(acc * 10 + dv > u128::MAX) by (nonlinear_arith)
                    requires
                        acc > (u128::MAX - dv) / 10,
                        dv <= 9,
                ;
                lemma_digits_prefix_le(all, k + 1);
            }
            return Err(CodecError::EncodeOverflow);
        }
        assert(acc * 10 + dv <= u128::MAX) by (nonlinear_arith)
            requires
                acc <= (u128::MAX - dv) / 10,
                dv <= 9,
        ;
        acc = acc * 10 + dv;
        k = k + 1;
    }
    assert(all.take(m as int) =~= all);
    if scale_len > 255 {
        return Err(CodecError::EncodeOverflow);
    }
    Ok(Decimal { mantissa: acc, scale: scale_len as u8 })
}

proof fn lemma_text_encoding(s: Seq<char>, w: nat, r: Result<Decimal, CodecError>)
    requires
        r == parse_result(s),
        w == 4 || w == 9,
    ensures
        r is Ok ==> (w == 4 ==> encode5_result(r->Ok_0) == encode_text_result(s, w)),
        r is Ok ==> (w == 9 ==> encode10_result(r->Ok_0) == encode_text_result(s, w)),
        r is Err ==> encode_text_result(s, w) == Err::<Seq<u8>, CodecError>(r->Err_0),
{
    lemma_pow256_values();
    if let Some((m, sc)) = text_decimal(s) {
        if r is Ok {
            assert(num_bytes(r->Ok_0, w) == be_bytes(m, w) + seq![sc as u8]);
        }
    }
}

/// Encodes a decimal text in the 5-byte form: the digits with the point taken
/// out as a 4-byte big-endian mantissa, then the number of digits after the
/// point as one byte.
pub fn encode_num_to_bytes(value: String) -> (r: Result<Vec<u8>, CodecError>)
    ensures
        match r {
            Ok(v) => encode_text_result(value@, 4) == Ok::<Seq<u8>, CodecError>(v@),
            Err(e) => encode_text_result(value@, 4) == Err::<Seq<u8>, CodecError>(e),
        },
{
    let p = parse_decimal(value.as_str());
    proof {
        lemma_text_encoding(value@, 4, p);
    }
    match p {
        Ok(d) => encode_decimal5(d),
        Err(e) => Err(e),
    }
}

/// Encodes a decimal text in the 10-byte form: a 9-byte big-endian mantissa,
/// then the scale.
pub fn encode_num_to_10_bytes(value: String) -> (r: Result<Vec<u8>, CodecError>)
    ensures
        match r {
            Ok(v) => encode_text_result(value@, 9) == Ok::<Seq<u8>, CodecError>(v@),
            Err(e) => encode_text_result(value@, 9) == Err::<Seq<u8>, CodecError>(e),
        },
{
    let p = parse_decimal(value.as_str());
    proof {
        lemma_text_encoding(value@, 9, p);
    }
    match p {
        Ok(d) => encode_decimal10(d),
        Err(e) => Err(e),
    }
}

} // verus!
