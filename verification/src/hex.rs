use vstd::prelude::*;

use crate::board::BitboardError;
use vstd::string::StrSliceExecFns;

verus! {

/// Whether `c` is a hexadecimal digit, in either letter case.
pub open spec fn is_hex_digit(c: char) -> bool {
    let v = c as u32;
    (48 <= v && v <= 57) || (97 <= v && v <= 102) || (65 <= v && v <= 70)
}

/// The value of a hexadecimal digit, and 0 for any other character.
pub open spec fn hex_digit_value(c: char) -> nat {
    let v = c as u32;
    if 48 <= v && v <= 57 {
        (v - 48) as nat
    } else if 97 <= v && v <= 102 {
        (v - 87) as nat
    } else if 65 <= v && v <= 70 {
        (v - 55) as nat
    } else {
        0
    }
}

/// The number a sequence of hexadecimal digits denotes, most significant
/// digit first.
pub open spec fn hex_string_value(s: Seq<char>) -> nat
    decreases s.len(),
{
    if s.len() == 0 {
        0
    } else {
        16 * hex_string_value(s.drop_last()) + hex_digit_value(s.last())
    }
}

/// The digits of a hexadecimal literal: the characters after one optional
/// leading `0x`.
pub open spec fn strip_hex_prefix(s: Seq<char>) -> Seq<char> {
    if s.len() >= 2 && s[0] == '0' && s[1] == 'x' {
        s.skip(2)
    } else {
        s
    }
}

/// A longer digit string never denotes a smaller number.
proof fn lemma_hex_value_prefix_le(s: Seq<char>, k: int)
    requires
        0 <= k <= s.len(),
    ensures
        hex_string_value(s.take(k)) <= hex_string_value(s),
    decreases s.len(),
{
    if k < s.len() {
        assert(s.drop_last().take(k) =~= s.take(k));
        lemma_hex_value_prefix_le(s.drop_last(), k);
    } else {
        assert(s.take(k) =~= s);
    }
}

/// The board set a hexadecimal literal denotes, with one optional `0x`
/// prefix: `Ok` exactly when at least one digit follows the prefix, every
/// character of the rest is a hexadecimal digit, and the denoted number fits
/// in 64 bits; `ParseError` otherwise.
pub fn bitboard_from_hex(hex: &str) -> (r: Result<u64, BitboardError>)
    ensures
        ({
            let d = strip_hex_prefix(hex@);
            &&& (r is Ok) <==> (d.len() > 0 && (forall|q: int|
                0 <= q < d.len() ==> is_hex_digit(d[q])) && hex_string_value(d) <= u64::MAX)
            &&& (r matches Ok(v) ==> v == hex_string_value(d))
            &&& (r matches Err(e) ==> e == BitboardError::ParseError)
        }),
{
    let ghost d = strip_hex_prefix(hex@);
    let len = hex.unicode_len();
    let mut start: usize = 0;
    if len >= 2 && hex.get_char(0) == '0' && hex.get_char(1) == 'x' {
        start = 2;
    }
    proof {
        assert(hex@.skip(0) =~= hex@);
        assert(d =~= hex@.skip(start as int));
        assert(d =~= hex@.subrange(start as int, len as int));
    }
    if start == len {
        return Err(BitboardError::ParseError);
    }
    let mut acc: u64 = 0;
    let mut i = start;
    proof {
        assert(hex@.subrange(start as int, start as int) =~= Seq::<char>::empty());
    }
    while i < len
        invariant
            start <= i <= len,
            len == hex@.len(),
            d == strip_hex_prefix(hex@),
            d =~= hex@.subrange(start as int, len as int),
            forall|q: int| start <= q < i ==> is_hex_digit(#[trigger] hex@[q]),
            acc == hex_string_value(hex@.subrange(start as int, i as int)),
        decreases len - i,
    {
        let c = hex.get_char(i);
        let v = c as u32;
        let dv: u64;
        if v >= 48 && v <= 57 {
            dv = (v - 48) as u64;
        } else if v >= 97 && v <= 102 {
            dv = (v - 87) as u64;
        } else if v >= 65 && v <= 70 {
            dv = (v - 55) as u64;
        } else {
            proof {
                assert(d[i - start] == hex@[i as int]);
                assert(!is_hex_digit(d[i - start]));
            }
            return Err(BitboardError::ParseError);
        }
        let ghost prev = hex@.subrange(start as int, i as int);
        let ghost ext = hex@.subrange(start as int, i + 1 as int);
        proof {
            assert(ext.drop_last() =~= prev);
            assert(ext.last() == hex@[i as int]);
            assert(hex_digit_value(hex@[i as int]) == dv);
            assert(hex_string_value(ext) == 16 * acc + dv);
        }
        if acc > (u64::MAX - dv) / 16 {
            proof {
                assert(16 * acc + dv > u64::MAX);
                assert(d.take(i + 1 - start as int) =~= ext);
                lemma_hex_value_prefix_le(d, i + 1 - start as int);
            }
            return Err(BitboardError::ParseError);
        }
        acc = acc * 16 + dv;
        i = i + 1;
    }
    proof {
        assert(hex@.subrange(start as int, i as int) =~= d);
    }
    Ok(acc)
}

} // verus!
