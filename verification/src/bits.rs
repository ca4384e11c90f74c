//! Bit sequences: how bytes and integers read as bits, most significant bit first.

use vstd::arithmetic::div_mod::{lemma_fundamental_div_mod, lemma_fundamental_div_mod_converse};
use vstd::arithmetic::power2::{lemma2_to64, lemma_pow2_pos, lemma_pow2_unfold, pow2};
use vstd::bits::{lemma_u32_shr_is_div, lemma_u8_shr_is_div};
use vstd::prelude::*;

verus! {

/// Bit `k` of the two's complement of `v`; bit 0 is the least significant.
pub open spec fn bit_at(v: int, k: nat) -> bool {
    (v / (pow2(k) as int)) % 2 == 1
}

/// The low `n` bits of `v`, most significant first.
pub open spec fn low_bits(v: int, n: nat) -> Seq<bool> {
    Seq::new(n, |i: int| bit_at(v, (n - 1 - i) as nat))
}

/// The bits of a byte string, each byte most significant bit first.
pub open spec fn bits_of(bytes: Seq<u8>) -> Seq<bool> {
    Seq::new(8 * bytes.len(), |k: int| bit_at(bytes[k / 8] as int, (7 - k % 8) as nat))
}

/// `n` zero bits.
pub open spec fn zeros(n: nat) -> Seq<bool> {
    Seq::new(n, |i: int| false)
}

/// The number that results from shifting the bits of `s`, most significant
/// first, into `init`.
pub open spec fn accumulate(init: int, s: Seq<bool>) -> int
    decreases s.len(),
{
    if s.len() == 0 {
        init
    } else {
        2 * accumulate(init, s.drop_last()) + if s.last() { 1int } else { 0int }
    }
}

/// The unsigned number that `s` spells, most significant bit first.
pub open spec fn number(s: Seq<bool>) -> int {
    accumulate(0, s)
}

/// Shifting bits into a number multiplies it by two for each bit and adds
/// what the bits spell, which is below two to their number.
pub proof fn lemma_accumulate_shift(init: int, s: Seq<bool>)
    ensures
        accumulate(init, s) == init * pow2(s.len()) + number(s),
        0 <= number(s) < pow2(s.len()),
    decreases s.len(),
{
    lemma2_to64();
    if s.len() > 0 {
        lemma_accumulate_shift(init, s.drop_last());
        lemma_pow2_unfold(s.len());
        assert(init * (2 * pow2((s.len() - 1) as nat)) == 2 * (init * pow2((s.len() - 1) as nat)))
            by (nonlinear_arith);
    }
}

/// Shifting in two runs of bits at once is shifting in the first and then
/// the second.
pub proof fn lemma_accumulate_concat(init: int, a: Seq<bool>, b: Seq<bool>)
    ensures
        accumulate(init, a + b) == accumulate(accumulate(init, a), b),
    decreases b.len(),
{
    if b.len() == 0 {
        assert(a + b =~= a);
    } else {
        assert((a + b).drop_last() =~= a + b.drop_last());
        lemma_accumulate_concat(init, a, b.drop_last());
    }
}

/// Halving first and dividing by `p` is dividing by `2 * p`, for negative
/// numbers too.
pub proof fn lemma_half_div(v: int, p: int)
    requires
        p > 0,
    ensures
        (v / 2) / p == v / (2 * p),
        v % (2 * p) == 2 * ((v / 2) % p) + v % 2,
{
    lemma_fundamental_div_mod(v, 2);
    lemma_fundamental_div_mod(v / 2, p);
    let q = (v / 2) / p;
    let r = (v / 2) % p;
    assert(v == q * (2 * p) + (2 * r + v % 2)) by (nonlinear_arith)
        requires
            v == 2 * (v / 2) + v % 2,
            v / 2 == p * q + r,
    ;
    lemma_fundamental_div_mod_converse(v, 2 * p, q, 2 * r + v % 2);
}

/// Bit `k + 1` of a number is bit `k` of its half.
pub proof fn lemma_bit_at_half(v: int, k: nat)
    ensures
        bit_at(v, k + 1) == bit_at(v / 2, k),
{
    lemma_pow2_unfold(k + 1);
    lemma_pow2_pos(k);
    lemma_half_div(v, pow2(k) as int);
}

/// The low `n` bits of a number are the low `n - 1` bits of its half and
/// then its lowest bit.
pub proof fn lemma_low_bits_step(v: int, n: nat)
    requires
        n > 0,
    ensures
        low_bits(v, n).drop_last() == low_bits(v / 2, (n - 1) as nat),
        low_bits(v, n).last() == (v % 2 == 1),
{
    lemma2_to64();
    assert forall|i: int| 0 <= i < n - 1 implies low_bits(v, n).drop_last()[i] == low_bits(
        v / 2,
        (n - 1) as nat,
    )[i] by {
        lemma_bit_at_half(v, (n - 2 - i) as nat);
    }
    assert(low_bits(v, n).drop_last() =~= low_bits(v / 2, (n - 1) as nat));
    assert(low_bits(v, n).last() == bit_at(v, 0));
}

/// The low `n` bits of `v` spell `v` reduced modulo `2^n`.
pub proof fn lemma_number_of_low_bits(v: int, n: nat)
    ensures
        number(low_bits(v, n)) == v % (pow2(n) as int),
    decreases n,
{
    lemma2_to64();
    if n == 0 {
    } else {
        lemma_low_bits_step(v, n);
        lemma_number_of_low_bits(v / 2, (n - 1) as nat);
        lemma_pow2_unfold(n);
        lemma_pow2_pos((n - 1) as nat);
        lemma_half_div(v, pow2((n - 1) as nat) as int);
    }
}

/// Reading back the low bits of the number that `s` spells gives `s`.
pub proof fn lemma_low_bits_of_number(s: Seq<bool>)
    ensures
        low_bits(number(s), s.len()) == s,
    decreases s.len(),
{
    lemma2_to64();
    if s.len() == 0 {
        assert(low_bits(number(s), 0) =~= s);
    } else {
        let v = number(s);
        let t = s.drop_last();
        lemma_low_bits_of_number(t);
        lemma_low_bits_step(v, s.len());
        assert(v / 2 == number(t));
        assert((v % 2 == 1) == s.last());
        assert(low_bits(v, s.len()) =~= low_bits(v, s.len()).drop_last().push(
            low_bits(v, s.len()).last(),
        ));
        assert(s =~= t.push(s.last()));
    }
}

/// Bit `k` of a byte, by shifting and masking.
pub proof fn lemma_bit_at_u8(x: u8, k: u8)
    requires
        k < 8,
    ensures
        bit_at(x as int, k as nat) == ((x >> k) & 1 == 1),
{
    lemma_u8_shr_is_div(x, k);
    let y = x >> k;
    assert(y & 1 == y % 2) by (bit_vector);
}

/// Bit `k` of a 32-bit pattern, by shifting and masking.
pub proof fn lemma_bit_at_u32(x: u32, k: u32)
    requires
        k < 32,
    ensures
        bit_at(x as int, k as nat) == ((x >> k) & 1 == 1),
{
    lemma_u32_shr_is_div(x, k);
    let y = x >> k;
    assert(y & 1 == y % 2) by (bit_vector);
}

/// Setting one bit of a byte changes that bit and no other.
pub proof fn lemma_or_bit(b: u8, s: u8)
    requires
        s < 8,
    ensures
        forall|k: u8|
            k < 8 ==> #[trigger] bit_at((b | (1u8 << s)) as int, k as nat) == (bit_at(
                b as int,
                k as nat,
            ) || k == s),
{
    let c = b | (1u8 << s);
    assert forall|k: u8| k < 8 implies #[trigger] bit_at(c as int, k as nat) == (bit_at(
        b as int,
        k as nat,
    ) || k == s) by {
        lemma_bit_at_u8(c, k);
        lemma_bit_at_u8(b, k);
        assert((((b | (1u8 << s)) >> k) & 1 == 1) == (((b >> k) & 1 == 1) || k == s))
            by (bit_vector)
            requires
                k < 8,
                s < 8,
        ;
    }
}

/// Zero has no bit set.
pub proof fn lemma_bit_at_zero(k: nat)
    ensures
        !bit_at(0, k),
{
    lemma_pow2_pos(k);
}

/// Above its low 31 bits a signed 32-bit number repeats its sign.
pub proof fn lemma_bit_at_sign(v: int, k: nat)
    requires
        -0x8000_0000 <= v < 0x8000_0000,
        k >= 31,
    ensures
        bit_at(v, k) == (v < 0),
{
    lemma2_to64();
    if k > 31 {
        vstd::arithmetic::power2::lemma_pow2_strictly_increases(31, k);
    }
    let p = pow2(k) as int;
    if v < 0 {
        lemma_fundamental_div_mod_converse(v, p, -1, v + p);
    } else {
        lemma_fundamental_div_mod_converse(v, p, 0, v);
    }
}

/// The low 32 bits of a number are those of its remainder modulo `2^32`.
pub proof fn lemma_bit_at_pattern(v: int, k: nat)
    requires
        k < 32,
    ensures
        bit_at(v % 0x1_0000_0000, k) == bit_at(v, k),
{
    lemma2_to64();
    let m = 0x1_0000_0000int;
    let u = v % m;
    let q = v / m;
    lemma_fundamental_div_mod(v, m);
    let p = pow2(k) as int;
    let c = pow2((32 - k) as nat) as int;
    lemma_pow2_pos(k);
    vstd::arithmetic::power2::lemma_pow2_adds(k, (32 - k) as nat);
    vstd::arithmetic::power2::lemma_pow2_unfold((32 - k) as nat);
    let half = pow2((31 - k) as nat) as int;
    // v = p * (c * q) + u, so v / p = c * q + u / p, and c is even.
    lemma_fundamental_div_mod(u, p);
    assert(v == (c * q + u / p) * p + u % p) by (nonlinear_arith)
        requires
            v == m * q + u,
            m == p * c,
            u == p * (u / p) + u % p,
    ;
    lemma_fundamental_div_mod_converse(v, p, c * q + u / p, u % p);
    assert(c * q + u / p == 2 * (half * q) + u / p) by (nonlinear_arith)
        requires
            c == 2 * half,
    ;
}

/// The bits of a byte string grow by the eight bits of each byte appended.
pub proof fn lemma_bits_of_push(bytes: Seq<u8>, b: u8)
    ensures
        bits_of(bytes.push(b)) == bits_of(bytes) + low_bits(b as int, 8),
{
    assert(bits_of(bytes.push(b)) =~= bits_of(bytes) + low_bits(b as int, 8));
}

/// Adding a multiple of `2^m` to a number leaves its bits below `m` as they
/// are.
pub proof fn lemma_bit_at_plus(v: int, c: int, m: nat, k: nat)
    requires
        k < m,
    ensures
        bit_at(v + c * pow2(m), k) == bit_at(v, k),
{
    let p = pow2(k) as int;
    let d = pow2((m - k) as nat) as int;
    let half = pow2((m - k - 1) as nat) as int;
    lemma_pow2_pos(k);
    vstd::arithmetic::power2::lemma_pow2_adds(k, (m - k) as nat);
    lemma_pow2_unfold((m - k) as nat);
    lemma_fundamental_div_mod(v, p);
    let w = v + c * pow2(m);
    assert(w == (v / p + c * d) * p + v % p) by (nonlinear_arith)
        requires
            w == v + c * (p * d),
            v == p * (v / p) + v % p,
    ;
    lemma_fundamental_div_mod_converse(w, p, v / p + c * d, v % p);
    assert(v / p + c * d == v / p + 2 * (c * half)) by (nonlinear_arith)
        requires
            d == 2 * half,
    ;
}

/// Adding a multiple of `2^m` to a number leaves its low `n` bits as they
/// are, where `n` is at most `m`.
pub proof fn lemma_low_bits_plus(v: int, c: int, m: nat, n: nat)
    requires
        n <= m,
    ensures
        low_bits(v + c * pow2(m), n) == low_bits(v, n),
{
    assert forall|i: int| 0 <= i < n implies low_bits(v + c * pow2(m), n)[i] == low_bits(v, n)[i] by {
        lemma_bit_at_plus(v, c, m, (n - 1 - i) as nat);
    }
    assert(low_bits(v + c * pow2(m), n) =~= low_bits(v, n));
}

/// The first of the low `n` bits of a number from `2^(n-1)` up to `2^n` is
/// set, and the others are the low bits of what is above `2^(n-1)`.
pub proof fn lemma_low_bits_top(p: int, n: nat)
    requires
        n >= 1,
        pow2((n - 1) as nat) <= p < pow2(n),
    ensures
        low_bits(p, n) == seq![true] + low_bits(p - pow2((n - 1) as nat), (n - 1) as nat),
{
    let h = pow2((n - 1) as nat) as int;
    lemma_pow2_unfold(n);
    lemma_pow2_pos((n - 1) as nat);
    lemma_fundamental_div_mod_converse(p, h, 1, p - h);
    lemma_low_bits_plus(p - h, 1, (n - 1) as nat, (n - 1) as nat);
    assert(p == p - h + 1 * h) by (nonlinear_arith);
    assert forall|i: int| 0 <= i < n implies low_bits(p, n)[i] == (seq![true] + low_bits(
        p - h,
        (n - 1) as nat,
    ))[i] by {
        if i > 0 {
            assert(low_bits(p, (n - 1) as nat)[i - 1] == low_bits(p - h, (n - 1) as nat)[i - 1]);
        }
    }
    assert(low_bits(p, n) =~= seq![true] + low_bits(p - h, (n - 1) as nat));
}

} // verus!
