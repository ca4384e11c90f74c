//! What holds between the two directions of the field encodings.

use crate::bits::{
    accumulate, bit_at, lemma_accumulate_shift, lemma_bit_at_sign, lemma_low_bits_of_number,
    lemma_low_bits_top, lemma_number_of_low_bits, low_bits, number, zeros,
};
use crate::codec::{
    bit_width, code_of_signed, decode_field, encodable, encode_exp_golomb, encode_field, exp_golomb,
    leading_zeros, legal_width, signed_of_code, wrap32, FieldType,
};
use crate::reader::lemma_leading_zeros;
use vstd::arithmetic::div_mod::{lemma_fundamental_div_mod, lemma_fundamental_div_mod_converse};
use vstd::arithmetic::power2::{
    lemma2_to64, lemma_pow2_pos, lemma_pow2_strictly_increases, lemma_pow2_unfold, pow2,
};
use vstd::prelude::*;

verus! {

/// The values that every field of the given type and width can carry: a
/// flag is 0 or 1, a fixed-width number fits its width where the width is
/// below 32 bits, an unsigned exp-Golomb value is not negative, and a signed
/// one has a code number of at most `i32::MAX`.
pub open spec fn in_domain(field_type: FieldType, n: u8, val: i32) -> bool {
    &&& legal_width(field_type, n)
    &&& match field_type {
        FieldType::Boolean => val == 0 || val == 1,
        FieldType::UnsignedInt => n >= 32 || 0 <= val < pow2(n as nat),
        FieldType::SignedInt => n >= 32 || -pow2((n - 1) as nat) <= val < pow2((n - 1) as nat),
        FieldType::UnsignedExpGolomb => 0 <= val,
        FieldType::SignedExpGolomb => -0x4000_0000 < val <= 0x4000_0000,
    }
}

/// A number with a bit set has a width: it lies between `2^(w-1)` and
/// `2^w`.
pub proof fn lemma_bit_width(p: int)
    requires
        p > 0,
    ensures
        bit_width(p) >= 1,
        pow2((bit_width(p) - 1) as nat) <= p < pow2(bit_width(p)),
    decreases p,
{
    lemma2_to64();
    if p > 1 {
        lemma_bit_width(p / 2);
        lemma_pow2_unfold(bit_width(p));
        lemma_pow2_unfold((bit_width(p) - 1) as nat);
    } else {
        assert(bit_width(1int / 2) == 0);
    }
}

/// A number between `2^l` and `2^(l+1)` has the width `l + 1`.
pub proof fn lemma_bit_width_of(p: int, l: nat)
    requires
        pow2(l) <= p < pow2(l + 1),
    ensures
        bit_width(p) == l + 1,
    decreases l,
{
    lemma2_to64();
    lemma_pow2_pos(l);
    lemma_pow2_unfold(l + 1);
    if l == 0 {
        assert(p == 1);
        assert(bit_width(1int / 2) == 0);
    } else {
        lemma_pow2_unfold(l);
        lemma_bit_width_of(p / 2, (l - 1) as nat);
    }
}

/// Zero bits have no one bit among them.
pub proof fn lemma_zeros_then_one(l: nat, rest: Seq<bool>)
    requires
        rest.len() > 0,
        rest[0],
    ensures
        leading_zeros(zeros(l) + rest) == l,
{
    let s = zeros(l) + rest;
    assert(s[l as int] == rest[0]);
    lemma_leading_zeros(s, l);
}

/// A signed 32-bit number as `n` bits, where it fits them: its top bit
/// says whether it is negative, and its bits below spell what is left.
pub proof fn lemma_sign_split(val: int, n: nat)
    requires
        n >= 1,
        -pow2((n - 1) as nat) <= val < pow2((n - 1) as nat),
    ensures
        bit_at(val, (n - 1) as nat) == (val < 0),
        val % (pow2((n - 1) as nat) as int) == val + if val < 0 {
            pow2((n - 1) as nat) as int
        } else {
            0
        },
{
    let h = pow2((n - 1) as nat) as int;
    lemma_pow2_pos((n - 1) as nat);
    if val < 0 {
        lemma_fundamental_div_mod_converse(val, h, -1, val + h);
    } else {
        lemma_fundamental_div_mod_converse(val, h, 0, val);
    }
}

/// A signed 32-bit number is within `2^k` for every `k` from 31 on.
pub proof fn lemma_i32_within(val: i32, k: nat)
    requires
        k >= 31,
    ensures
        -pow2(k) <= val < pow2(k),
{
    lemma2_to64();
    if k > 31 {
        lemma_pow2_strictly_increases(31, k);
    }
}

/// The unsigned exp-Golomb code of a value that is not negative reads back
/// as that value.
pub proof fn lemma_exp_golomb_round_trip(val: i32, rest: Seq<bool>)
    requires
        0 <= val,
    ensures
        exp_golomb(encode_exp_golomb(val) + rest) == Some(
            (val as int, encode_exp_golomb(val).len()),
        ),
{
    lemma2_to64();
    let p = val + 1;
    assert((val + 1) % 0x1_0000_0000 == p);
    lemma_bit_width(p);
    let w = bit_width(p);
    let l = (w - 1) as nat;
    let e = encode_exp_golomb(val);
    let s = e + rest;
    lemma_low_bits_top(p, w);
    let low = low_bits(p - pow2(l), l);
    assert(e =~= zeros(l) + (seq![true] + low));
    assert(s =~= zeros(l) + (seq![true] + low + rest));
    lemma_zeros_then_one(l, seq![true] + low + rest);
    assert(s.subrange(l as int + 1, 2 * l as int + 1) =~= low);
    lemma_number_of_low_bits(p - pow2(l), l);
    lemma_pow2_unfold(w);
    lemma_pow2_pos(l);
    vstd::arithmetic::div_mod::lemma_small_mod((p - pow2(l)) as nat, pow2(l));
}

/// Reading back what was written gives the value written and takes the
/// bits written, for every value in the domain of the field.
pub proof fn lemma_read_after_write(field_type: FieldType, n: u8, val: i32, rest: Seq<bool>)
    requires
        in_domain(field_type, n, val),
    ensures
        encodable(field_type, n, val),
        decode_field(field_type, n, encode_field(field_type, n, val) + rest) == Some(
            (val, encode_field(field_type, n, val).len()),
        ),
{
    lemma2_to64();
    let e = encode_field(field_type, n, val);
    let s = e + rest;
    match field_type {
        FieldType::Boolean => {
            assert(s[0] == e[0]);
        },
        FieldType::UnsignedInt => {
            assert(s.take(n as int) =~= e);
            lemma_number_of_low_bits(val as int, n as nat);
            lemma_pow2_pos(n as nat);
            if n >= 32 {
                lemma_i32_within(val, n as nat);
                lemma_pow2_strictly_increases(31, n as nat);
                let m = pow2(n as nat) as int;
                if val < 0 {
                    lemma_fundamental_div_mod_converse(val as int, m, -1, val + m);
                } else {
                    lemma_fundamental_div_mod_converse(val as int, m, 0, val as int);
                }
                lemma_wrap32_of_high(val, n as nat);
            } else {
                lemma_pow2_strictly_increases(n as nat, 32);
                if n < 31 {
                    lemma_pow2_strictly_increases(n as nat, 31);
                }
                vstd::arithmetic::div_mod::lemma_small_mod(val as nat, pow2(n as nat));
            }
        },
        FieldType::SignedInt => {
            let k = (n - 1) as nat;
            if n >= 32 {
                lemma_i32_within(val, k);
            }
            lemma_sign_split(val as int, n as nat);
            assert(s[0] == bit_at(val as int, k));
            let tail = low_bits(val as int, k);
            assert(s.subrange(1, n as int) =~= tail);
            lemma_number_of_low_bits(val as int, k);
            lemma_accumulate_shift(
                if s[0] {
                    -1int
                } else {
                    0int
                },
                tail,
            );
            assert(-1 * pow2(k) == -(pow2(k) as int)) by (nonlinear_arith);
        },
        FieldType::UnsignedExpGolomb => {
            lemma_exp_golomb_round_trip(val, rest);
        },
        FieldType::SignedExpGolomb => {
            let k = code_of_signed(val as int);
            lemma_exp_golomb_round_trip(k as i32, rest);
            assert(signed_of_code(k) == val);
        },
    }
}

/// A signed 32-bit number reduced modulo `2^n`, for `n` from 32 on, wraps
/// back to itself.
pub proof fn lemma_wrap32_of_high(val: i32, n: nat)
    requires
        n >= 32,
    ensures
        wrap32(val as int % (pow2(n) as int)) == val,
{
    lemma2_to64();
    lemma_i32_within(val, n);
    let m = pow2(n) as int;
    if n > 32 {
        lemma_pow2_strictly_increases(32, n);
    }
    vstd::arithmetic::power2::lemma_pow2_adds(32, (n - 32) as nat);
    let c = pow2((n - 32) as nat) as int;
    if val < 0 {
        lemma_fundamental_div_mod_converse(val as int, m, -1, val + m);
        let x = val + m + 0x8000_0000;
        assert(x == 0x1_0000_0000 * c + (val + 0x8000_0000)) by (nonlinear_arith)
            requires
                m == 0x1_0000_0000 * c,
                x == val + m + 0x8000_0000,
        ;
        vstd::arithmetic::div_mod::lemma_mod_multiples_vanish(
            c,
            val + 0x8000_0000,
            0x1_0000_0000,
        );
    } else {
        lemma_fundamental_div_mod_converse(val as int, m, 0, val as int);
    }
}

/// Whether a fixed-width field of more than 32 bits at the head of `s`
/// holds no more than its low 32 bits say: the bits above them repeat the
/// highest of them. Every other field does.
pub open spec fn is_canonical(field_type: FieldType, n: u8, s: Seq<bool>) -> bool {
    (field_type == FieldType::UnsignedInt || field_type == FieldType::SignedInt) && n > 32 ==> {
        &&& s.len() >= n
        &&& forall|i: int| 0 <= i < n - 32 ==> #[trigger] s[i] == s[n - 32]
    }
}

/// The low bits of a number wrapped to 32 bits are the bits `t`, where
/// `t` holds the low bits of the number and repeats its 32nd bit from the
/// end in every bit before it.
pub proof fn lemma_wrapped_bits(y: int, t: Seq<bool>)
    requires
        t.len() <= 64,
        forall|i: int|
            0 <= i < t.len() ==> #[trigger] t[i] == bit_at(y, (t.len() - 1 - i) as nat),
        t.len() > 32 ==> forall|i: int| 0 <= i < t.len() - 32 ==> #[trigger] t[i] == t[t.len() - 32],
    ensures
        low_bits(wrap32(y) as int, t.len()) == t,
{
    lemma2_to64();
    let n = t.len();
    let val = wrap32(y) as int;
    let m = 0x1_0000_0000int;
    let q = (y + 0x8000_0000) / m;
    lemma_fundamental_div_mod(y + 0x8000_0000, m);
    assert(val == y + (-q) * pow2(32)) by (nonlinear_arith)
        requires
            y + 0x8000_0000 == m * q + (val + 0x8000_0000),
            pow2(32) == m,
    ;
    assert forall|i: int| 0 <= i < n implies low_bits(val, n)[i] == t[i] by {
        let k = (n - 1 - i) as nat;
        if k < 32 {
            crate::bits::lemma_bit_at_plus(y, -q, 32, k);
        } else {
            lemma_bit_at_sign(val, k);
            lemma_bit_at_sign(val, 31);
            crate::bits::lemma_bit_at_plus(y, -q, 32, 31);
            assert(t[n - 32] == bit_at(y, 31));
            assert(t[i] == t[n - 32]);
        }
    }
    assert(low_bits(val, n) =~= t);
}

/// Writing the value that was read gives the bits that were read, for
/// every field but a fixed-width one of more than 32 bits whose bits above
/// the low 32 say more than those.
pub proof fn lemma_write_after_read(field_type: FieldType, n: u8, s: Seq<bool>)
    requires
        legal_width(field_type, n),
        decode_field(field_type, n, s) is Some,
        is_canonical(field_type, n, s),
    ensures
        ({
            let (val, used) = decode_field(field_type, n, s)->Some_0;
            &&& used <= s.len()
            &&& encodable(field_type, n, val)
            &&& encode_field(field_type, n, val) == s.take(used as int)
        }),
{
    lemma2_to64();
    let (val, used) = decode_field(field_type, n, s)->Some_0;
    match field_type {
        FieldType::Boolean => {
            assert(encode_field(field_type, n, val) =~= s.take(1));
        },
        FieldType::UnsignedInt => {
            let t = s.take(n as int);
            lemma_low_bits_of_number(t);
            assert forall|i: int| 0 <= i < t.len() implies #[trigger] t[i] == bit_at(
                number(t),
                (t.len() - 1 - i) as nat,
            ) by {
                assert(low_bits(number(t), t.len())[i] == t[i]);
            }
            lemma_wrapped_bits(number(t), t);
        },
        FieldType::SignedInt => {
            let t = s.take(n as int);
            let tail = s.subrange(1, n as int);
            let init = if s[0] {
                -1int
            } else {
                0int
            };
            let acc = accumulate(init, tail);
            // acc is what `t` spells, less 2^n where the sign bit is set.
            assert(t =~= seq![s[0]] + tail);
            crate::bits::lemma_accumulate_concat(0, seq![s[0]], tail);
            assert(seq![s[0]].drop_last() =~= Seq::<bool>::empty());
            assert(accumulate(0, Seq::<bool>::empty()) == 0);
            assert(seq![s[0]].last() == s[0]);
            assert(number(seq![s[0]]) == if s[0] {
                1int
            } else {
                0int
            });
            lemma_accumulate_shift(number(seq![s[0]]), tail);
            lemma_accumulate_shift(init, tail);
            lemma_pow2_unfold(n as nat);
            let c = if s[0] {
                -1int
            } else {
                0int
            };
            assert(acc == number(t) + c * pow2(n as nat)) by (nonlinear_arith)
                requires
                    acc == init * pow2(tail.len()) + number(tail),
                    number(t) == number(seq![s[0]]) * pow2(tail.len()) + number(tail),
                    pow2(n as nat) == 2 * pow2(tail.len()),
                    s[0] ==> init == -1 && number(seq![s[0]]) == 1 && c == -1,
                    !s[0] ==> init == 0 && number(seq![s[0]]) == 0 && c == 0,
            ;
            lemma_low_bits_of_number(t);
            assert forall|i: int| 0 <= i < t.len() implies #[trigger] t[i] == bit_at(
                acc,
                (t.len() - 1 - i) as nat,
            ) by {
                crate::bits::lemma_bit_at_plus(number(t), c, n as nat, (t.len() - 1 - i) as nat);
                assert(low_bits(number(t), t.len())[i] == t[i]);
            }
            lemma_wrapped_bits(acc, t);
        },
        FieldType::UnsignedExpGolomb => {
            lemma_exp_golomb_restored(s);
        },
        FieldType::SignedExpGolomb => {
            lemma_exp_golomb_restored(s);
            let k = exp_golomb(s)->Some_0.0;
            assert(code_of_signed(signed_of_code(k)) == k);
        },
    }
}

/// The unsigned exp-Golomb code of a code number that was read is the code
/// that was read.
pub proof fn lemma_exp_golomb_restored(s: Seq<bool>)
    requires
        exp_golomb(s) is Some,
        exp_golomb(s)->Some_0.0 <= i32::MAX,
    ensures
        ({
            let (k, used) = exp_golomb(s)->Some_0;
            &&& 0 <= k
            &&& used <= s.len()
            &&& encode_exp_golomb(k as i32) == s.take(used as int)
        }),
{
    lemma2_to64();
    let l = leading_zeros(s);
    let tail = s.subrange(l as int + 1, 2 * l as int + 1);
    let x = number(tail);
    lemma_accumulate_shift(0, tail);
    lemma_pow2_pos(l);
    let p = pow2(l) + x;
    lemma_pow2_unfold(l + 1);
    lemma_bit_width_of(p, l);
    lemma_low_bits_top(p, l + 1);
    lemma_low_bits_of_number(tail);
    lemma_leading_zeros_are_zero(s);
    assert(p % 0x1_0000_0000 == p);
    let e = encode_exp_golomb((p - 1) as i32);
    assert(e =~= zeros(l) + (seq![true] + tail));
    assert(e =~= s.take(2 * l as int + 1));
}

/// The bits before the first one bit are zero, and the bit after them, if
/// there is one, is a one.
pub proof fn lemma_leading_zeros_are_zero(s: Seq<bool>)
    ensures
        leading_zeros(s) <= s.len(),
        forall|i: int| 0 <= i < leading_zeros(s) ==> !s[i],
        leading_zeros(s) < s.len() ==> s[leading_zeros(s) as int],
    decreases s.len(),
{
    if s.len() > 0 && !s[0] {
        let t = s.skip(1);
        lemma_leading_zeros_are_zero(t);
        assert forall|i: int| 0 <= i < leading_zeros(s) implies !s[i] by {
            if i > 0 {
                assert(s[i] == t[i - 1]);
            }
        }
    }
}

} // verus!
