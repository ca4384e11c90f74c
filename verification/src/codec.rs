//! The five field encodings, as functions between 32-bit values and bits.

use crate::bits::{accumulate, low_bits, number, zeros};
use vstd::arithmetic::power2::pow2;
use vstd::prelude::*;

verus! {

/// How a field is coded in the bitstream.
#[derive(Clone, Copy, Debug, PartialEq, Eq, Structural)]
pub enum FieldType {
    /// One bit.
    Boolean,
    /// `n` bits, an unsigned number.
    UnsignedInt,
    /// `n` bits, a two's complement number.
    SignedInt,
    /// An unsigned exp-Golomb code.
    UnsignedExpGolomb,
    /// A signed exp-Golomb code.
    SignedExpGolomb,
}

/// `x` reduced to the signed 32-bit number with the same low 32 bits.
pub open spec fn wrap32(x: int) -> i32 {
    ((x + 0x8000_0000) % 0x1_0000_0000 - 0x8000_0000) as i32
}

/// The number of `false` bits before the first `true` bit of `s`, or its end.
pub open spec fn leading_zeros(s: Seq<bool>) -> nat
    decreases s.len(),
{
    if s.len() == 0 || s[0] {
        0
    } else {
        1 + leading_zeros(s.skip(1))
    }
}

/// The code number of the exp-Golomb code at the head of `s` and the code's
/// length: `l` zero bits, a one bit, and `l` bits that spell `x`, for the code
/// number `2^l + x - 1`. `None` where `s` ends before the code does.
pub open spec fn exp_golomb(s: Seq<bool>) -> Option<(int, nat)> {
    let l = leading_zeros(s) as int;
    if s.len() < 2 * l + 1 {
        None
    } else {
        Some((pow2(l as nat) + number(s.subrange(l + 1, 2 * l + 1)) - 1, (2 * l + 1) as nat))
    }
}

/// The signed value that the exp-Golomb code number `k` stands for.
pub open spec fn signed_of_code(k: int) -> int {
    if k % 2 == 1 {
        (k + 1) / 2
    } else {
        -(k / 2)
    }
}

/// The exp-Golomb code number that stands for the signed value `v`.
pub open spec fn code_of_signed(v: int) -> int {
    if v > 0 {
        2 * v - 1
    } else {
        -2 * v
    }
}

/// Whether a field of this type and width can be asked for at all.
pub open spec fn legal_width(field_type: FieldType, n: u8) -> bool {
    n <= 64 && (field_type == FieldType::SignedInt ==> n >= 1)
}

/// The value of the field at the head of `s` and the number of bits it takes,
/// or `None` where `s` ends inside the field or an exp-Golomb code number is
/// above `i32::MAX`.
pub open spec fn decode_field(field_type: FieldType, n: u8, s: Seq<bool>) -> Option<(i32, nat)> {
    match field_type {
        FieldType::Boolean => if s.len() < 1 {
            None
        } else {
            Some((if s[0] { 1i32 } else { 0i32 }, 1nat))
        },
        FieldType::UnsignedInt => if s.len() < n {
            None
        } else {
            Some((wrap32(number(s.take(n as int))), n as nat))
        },
        FieldType::SignedInt => if s.len() < n {
            None
        } else {
            Some(
                (
                    wrap32(accumulate(if s[0] { -1int } else { 0int }, s.subrange(1, n as int))),
                    n as nat,
                ),
            )
        },
        FieldType::UnsignedExpGolomb => match exp_golomb(s) {
            Some((k, used)) => if k <= i32::MAX {
                Some((k as i32, used))
            } else {
                None
            },
            None => None,
        },
        FieldType::SignedExpGolomb => match exp_golomb(s) {
            Some((k, used)) => if k <= i32::MAX {
                Some((signed_of_code(k) as i32, used))
            } else {
                None
            },
            None => None,
        },
    }
}

/// The number of bits of `p` up to its highest one bit.
pub open spec fn bit_width(p: int) -> nat
    decreases p,
{
    if p <= 0 {
        0
    } else {
        1 + bit_width(p / 2)
    }
}

/// The unsigned exp-Golomb code of `v`: with `p` the 32-bit pattern of `v + 1`
/// and `w` its bit width, `w - 1` zero bits and then the `w` bits of `p`.
pub open spec fn encode_exp_golomb(v: i32) -> Seq<bool> {
    let p = (v + 1) % 0x1_0000_0000;
    let w = bit_width(p);
    zeros((w - 1) as nat) + low_bits(p, w)
}

/// Whether `val` has a code as a field of this type and width.
pub open spec fn encodable(field_type: FieldType, n: u8, val: i32) -> bool {
    &&& n <= 64
    &&& field_type == FieldType::UnsignedExpGolomb ==> val != -1
    &&& field_type == FieldType::SignedExpGolomb ==> -0x4000_0000 < val <= 0x4000_0000
}

/// The bits of `val` as a field of this type and width.
pub open spec fn encode_field(field_type: FieldType, n: u8, val: i32) -> Seq<bool> {
    match field_type {
        FieldType::Boolean => seq![val != 0],
        FieldType::UnsignedInt | FieldType::SignedInt => low_bits(val as int, n as nat),
        FieldType::UnsignedExpGolomb => encode_exp_golomb(val),
        FieldType::SignedExpGolomb => encode_exp_golomb(code_of_signed(val as int) as i32),
    }
}

} // verus!
