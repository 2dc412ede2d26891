//! Hexadecimal digits, scalar-value construction, and UTF-16 code-unit
//! reconstruction, shared by the escape forms of the string-literal lexer.

use vstd::prelude::*;
use vstd::utf8::is_scalar;

verus! {

/// Relies on char::from_u32 of std: it returns the character with the given
/// numeric value exactly when that value is a Unicode scalar value (at most
/// 0x10FFFF and not a surrogate), and nothing otherwise.
pub assume_specification[ char::from_u32 ](v: u32) -> (r: Option<char>)
    ensures
        r.is_some() == is_scalar(v),
        r matches Some(c) ==> c as u32 == v,
;

/// `c` is an ASCII hexadecimal digit.
pub open spec fn is_hex_digit(c: char) -> bool {
    let u = c as u32;
    (48 <= u && u <= 57) || (97 <= u && u <= 102) || (65 <= u && u <= 70)
}

/// The numeric value of a hexadecimal digit; 0 for any other character.
pub open spec fn hex_digit_val(c: char) -> int {
    let u = c as u32;
    if 48 <= u && u <= 57 {
        u - 48
    } else if 97 <= u && u <= 102 {
        u - 87
    } else if 65 <= u && u <= 70 {
        u - 55
    } else {
        0
    }
}

/// Every character of `s` is a hexadecimal digit.
pub open spec fn all_hex(s: Seq<char>) -> bool {
    forall|i: int| 0 <= i < s.len() ==> is_hex_digit(s[i])
}

/// The number written in base 16 by the digit run `s` (0 when empty).
pub open spec fn hex_val_seq(s: Seq<char>) -> int
    decreases s.len(),
{
    if s.len() == 0 {
        0
    } else {
        hex_val_seq(s.take(s.len() - 1)) * 16 + hex_digit_val(s[s.len() - 1])
    }
}

/// A base-16 reading is never negative.
pub proof fn lemma_hex_val_seq_nonneg(s: Seq<char>)
    ensures
        hex_val_seq(s) >= 0,
    decreases s.len(),
{
    if s.len() > 0 {
        lemma_hex_val_seq_nonneg(s.take(s.len() - 1));
    }
}

/// Reading a prefix of a digit run never exceeds reading the whole run.
pub proof fn lemma_hex_val_seq_prefix(s: Seq<char>, j: int)
    requires
        0 <= j <= s.len(),
    ensures
        hex_val_seq(s.take(j)) <= hex_val_seq(s),
    decreases s.len(),
{
    if j == s.len() {
        assert(s.take(j) =~= s);
    } else {
        let butlast = s.take(s.len() - 1);
        lemma_hex_val_seq_nonneg(butlast);
        lemma_hex_val_seq_prefix(butlast, j);
        assert(butlast.take(j) =~= s.take(j));
    }
}

/// The base-16 reading of exactly four digits, written out.
pub proof fn lemma_hex_val_seq4(s: Seq<char>)
    requires
        s.len() == 4,
    ensures
        hex_val_seq(s) == ((hex_digit_val(s[0]) * 16 + hex_digit_val(s[1])) * 16 + hex_digit_val(
            s[2],
        )) * 16 + hex_digit_val(s[3]),
{
    let s3 = s.take(3);
    let s2 = s.take(2);
    let s1 = s.take(1);
    let s0 = s.take(0);
    assert(s.take(s.len() - 1) =~= s3);
    assert(s3.take(s3.len() - 1) =~= s2);
    assert(s2.take(s2.len() - 1) =~= s1);
    assert(s1.take(s1.len() - 1) =~= s0);
    assert(s3[2] == s[2] && s2[1] == s[1] && s1[0] == s[0]);
    assert(hex_val_seq(s0) == 0);
    assert(hex_val_seq(s1) == hex_val_seq(s0) * 16 + hex_digit_val(s1[0]));
    assert(hex_val_seq(s2) == hex_val_seq(s1) * 16 + hex_digit_val(s2[1]));
    assert(hex_val_seq(s3) == hex_val_seq(s2) * 16 + hex_digit_val(s3[2]));
    assert(hex_val_seq(s) == hex_val_seq(s3) * 16 + hex_digit_val(s[3]));
}

/// The numeric value of a hexadecimal digit, or nothing for any other
/// character.
pub fn hex_digit_value(c: char) -> (r: Option<u8>)
    ensures
        r.is_some() == is_hex_digit(c),
        r matches Some(v) ==> v as int == hex_digit_val(c) && v < 16,
{
    let u = c as u32;
    if 48 <= u && u <= 57 {
        Some((u - 48) as u8)
    } else if 97 <= u && u <= 102 {
        Some((u - 87) as u8)
    } else if 65 <= u && u <= 70 {
        Some((u - 55) as u8)
    } else {
        None
    }
}

/// `u` is a UTF-16 surrogate code unit.
pub open spec fn is_surrogate_unit(u: u16) -> bool {
    0xD800 <= u && u < 0xE000
}

/// `u` is a UTF-16 high (leading) surrogate.
pub open spec fn is_high_surrogate(u: u16) -> bool {
    0xD800 <= u && u < 0xDC00
}

/// `u` is a UTF-16 low (trailing) surrogate.
pub open spec fn is_low_surrogate(u: u16) -> bool {
    0xDC00 <= u && u < 0xE000
}

/// The supplementary-plane scalar value written by a high/low surrogate pair.
pub open spec fn combine_surrogates(hi: u16, lo: u16) -> u32 {
    (0x10000 + (hi - 0xD800) * 0x400 + (lo - 0xDC00)) as u32
}

/// Standard UTF-16 reconstruction of a code-unit sequence: each non-surrogate
/// unit is its own scalar, a high surrogate followed by a low surrogate forms
/// one supplementary-plane scalar, and any other shape fails.
pub open spec fn utf16_decode(units: Seq<u16>) -> Option<Seq<char>>
    decreases units.len(),
{
    if units.len() == 0 {
        Some(Seq::empty())
    } else if !is_surrogate_unit(units[0]) {
        match utf16_decode(units.skip(1)) {
            None => None,
            Some(t) => Some(seq![(units[0] as u32) as char] + t),
        }
    } else if is_high_surrogate(units[0]) && units.len() >= 2 && is_low_surrogate(units[1]) {
        match utf16_decode(units.skip(2)) {
            None => None,
            Some(t) => Some(seq![combine_surrogates(units[0], units[1]) as char] + t),
        }
    } else {
        None
    }
}

/// Appends the scalars written by `units` to `out`; reports failure exactly
/// when the units do not reconstruct (an unpaired surrogate).
#[verifier::loop_isolation(false)]
pub fn decode_code_units(units: &Vec<u16>, out: &mut Vec<char>) -> (ok: bool)
    ensures
        match utf16_decode(units@) {
            Some(cs) => ok && final(out)@ == old(out)@ + cs,
            None => !ok,
        },
{
    let ghost orig_out = out@;
    let mut i: usize = 0;
    let ghost mut acc: Seq<char> = Seq::empty();
    proof {
        assert(units@.skip(0) =~= units@);
        assert(out@ =~= orig_out + acc);
        match utf16_decode(units@) {
            None => {
            },
            Some(t) => {
                assert(acc + t =~= t);
            },
        }
    }
    while i < units.len()
        invariant
            i <= units.len(),
            out@ == orig_out + acc,
            utf16_decode(units@) == match utf16_decode(units@.skip(i as int)) {
                None => None::<Seq<char>>,
                Some(t) => Some(acc + t),
            },
        decreases units@.len() - i,
    {
        let ghost rem = units@.skip(i as int);
        let u = units[i];
        proof {
            assert(rem[0] == u);
        }
        if !(0xD800 <= u && u < 0xE000) {
            let c = match char::from_u32(u as u32) {
                Some(c) => c,
                None => {
                    proof {
                        assert(is_scalar(u as u32));
                        assert(false);
                    }
                    ' '
                },
            };
            out.push(c);
            proof {
                vstd::utf8::char_u32_cast(c, u as u32);
                assert(rem.skip(1) =~= units@.skip(i as int + 1));
                let old_acc = acc;
                acc = acc.push(c);
                assert(out@ =~= orig_out + acc);
                match utf16_decode(units@.skip(i as int + 1)) {
                    None => {
                    },
                    Some(t) => {
                        assert(old_acc + (seq![c] + t) =~= acc + t);
                    },
                }
            }
            i = i + 1;
        } else if 0xD800 <= u && u < 0xDC00 && i + 1 < units.len() && 0xDC00 <= units[i + 1]
            && units[i + 1] < 0xE000 {
            let lo = units[i + 1];
            proof {
                assert(rem.len() >= 2 && rem[1] == lo);
            }
            let v: u32 = 0x10000 + ((u as u32) - 0xD800) * 0x400 + ((lo as u32) - 0xDC00);
            proof {
                assert(v == combine_surrogates(u, lo));
                assert(is_scalar(v));
            }
            let c = match char::from_u32(v) {
                Some(c) => c,
                None => {
                    proof {
                        assert(false);
                    }
                    ' '
                },
            };
            out.push(c);
            proof {
                vstd::utf8::char_u32_cast(c, v);
                assert(rem.skip(2) =~= units@.skip(i as int + 2));
                let old_acc = acc;
                acc = acc.push(c);
                assert(out@ =~= orig_out + acc);
                match utf16_decode(units@.skip(i as int + 2)) {
                    None => {
                    },
                    Some(t) => {
                        assert(old_acc + (seq![c] + t) =~= acc + t);
                    },
                }
            }
            i = i + 2;
        } else {
            proof {
                assert(utf16_decode(rem) is None);
            }
            return false;
        }
    }
    proof {
        assert(units@.skip(i as int) =~= Seq::<u16>::empty());
        assert(acc + Seq::<char>::empty() =~= acc);
    }
    true
}

} // verus!
