//! What holds of a reader's look ahead, and between the two directions of
//! a payload.

use crate::bits::{bits_of, lemma_low_bits_plus, low_bits};
use crate::machine::{count_ones, payload_bits, payload_data, Machine};
use vstd::arithmetic::div_mod::lemma_fundamental_div_mod;
use vstd::arithmetic::power2::{lemma2_to64, lemma_pow2_pos, lemma_pow2_strictly_increases, pow2};
use vstd::prelude::*;

verus! {

/// Whether `s` is a one bit and then zero bits only.
pub open spec fn is_closing_pattern(s: Seq<bool>) -> bool {
    s.len() > 0 && s[0] && forall|i: int| 1 <= i < s.len() ==> !s[i]
}

/// Whether exactly one bit of `s` is set.
pub open spec fn has_single_one(s: Seq<bool>) -> bool {
    exists|k: int| 0 <= k < s.len() && s[k] && forall|i: int| 0 <= i < s.len() && i != k ==> !s[i]
}

/// No bit is counted exactly where every bit is zero.
pub proof fn lemma_count_zero(s: Seq<bool>)
    ensures
        count_ones(s) == 0 <==> forall|i: int| 0 <= i < s.len() ==> !s[i],
    decreases s.len(),
{
    if s.len() > 0 {
        let t = s.drop_last();
        lemma_count_zero(t);
        if count_ones(s) == 0 {
            assert forall|i: int| 0 <= i < s.len() implies !s[i] by {
                if i < s.len() - 1 {
                    assert(t[i] == s[i]);
                }
            }
        } else if forall|i: int| 0 <= i < s.len() ==> !s[i] {
            assert forall|i: int| 0 <= i < t.len() implies !t[i] by {
                assert(t[i] == s[i]);
            }
        }
    }
}

/// One bit is counted exactly where exactly one bit is set.
pub proof fn lemma_count_one(s: Seq<bool>)
    ensures
        count_ones(s) == 1 <==> has_single_one(s),
    decreases s.len(),
{
    if s.len() > 0 {
        let t = s.drop_last();
        let last = s.len() - 1;
        lemma_count_one(t);
        lemma_count_zero(t);
        if count_ones(s) == 1 {
            if s.last() {
                assert forall|i: int| 0 <= i < s.len() && i != last implies !s[i] by {
                    assert(t[i] == s[i]);
                }
                assert(s[last]);
            } else {
                let k = choose|k: int|
                    0 <= k < t.len() && t[k] && forall|i: int|
                        0 <= i < t.len() && i != k ==> !t[i];
                assert(s[k] == t[k]);
                assert forall|i: int| 0 <= i < s.len() && i != k implies !s[i] by {
                    if i < last {
                        assert(t[i] == s[i]);
                    }
                }
            }
        }
        if has_single_one(s) {
            let k = choose|k: int|
                0 <= k < s.len() && s[k] && forall|i: int| 0 <= i < s.len() && i != k ==> !s[i];
            if k == last {
                assert forall|i: int| 0 <= i < t.len() implies !t[i] by {
                    assert(t[i] == s[i]);
                }
            } else {
                assert(t[k] == s[k]);
                assert forall|i: int| 0 <= i < t.len() && i != k implies !t[i] by {
                    assert(t[i] == s[i]);
                }
                assert(has_single_one(t));
            }
        }
    }
}

/// In the last byte of a unit, nothing more is to read exactly where a
/// single one bit is left ahead: so nothing more is to read where a one bit
/// and then zero bits only are ahead. Before the last byte, and at the end
/// of the unit, there is always more to read.
pub proof fn lemma_more_to_read(m: Machine)
    requires
        m.wf(),
        !m.writing,
    ensures
        !m.more_to_read() <==> m.bytes.len() > 0 && m.pos / 8 == m.bytes.len() - 1
            && has_single_one(m.rest()),
        m.bytes.len() > 0 && m.pos / 8 == m.bytes.len() - 1 && is_closing_pattern(m.rest())
            ==> !m.more_to_read(),
{
    lemma_count_one(m.rest());
    if is_closing_pattern(m.rest()) {
        assert(m.rest()[0]);
        assert(has_single_one(m.rest()));
    }
}

/// Writing a payload that was read, at the same place within a byte,
/// gives every bit that the reader had ahead.
pub proof fn lemma_payload_restored(bytes: Seq<u8>, pos: nat, written: nat)
    requires
        pos <= 8 * bytes.len(),
        written % 8 == pos % 8,
    ensures
        payload_bits(written, payload_data(bytes, pos)) == bits_of(bytes).skip(pos as int),
{
    let data = payload_data(bytes, pos);
    let ahead = bits_of(bytes).skip(pos as int);
    let got = payload_bits(written, data);
    let at = (pos / 8) as int;
    if pos % 8 == 0 {
        assert forall|k: int| 0 <= k < ahead.len() implies got[k] == ahead[k] by {
            assert(data[k / 8] == bytes[at + k / 8]);
        }
        assert(got =~= ahead);
    } else {
        let left = (8 - pos % 8) as nat;
        let b = bytes[at];
        let m = pow2(left) as int;
        lemma2_to64();
        lemma_pow2_pos(left);
        lemma_pow2_strictly_increases(left, 8);
        lemma_fundamental_div_mod(b as int, m);
        let low = (b as nat % pow2(left)) as u8;
        assert(low as int == b as int + (-(b as int / m)) * m) by (nonlinear_arith)
            requires
                b as int == m * (b as int / m) + low as int,
        ;
        lemma_low_bits_plus(b as int, -(b as int / m), left, left);
        assert(data[0] == low);
        let rest = data.skip(1);
        assert(rest =~= bytes.skip(at + 1));
        assert forall|k: int| 0 <= k < ahead.len() implies got[k] == ahead[k] by {
            if k < left {
                assert(got[k] == low_bits(b as int, left)[k]);
            } else {
                let j = k - left;
                assert(got[k] == bits_of(rest)[j]);
                assert(rest[j / 8] == bytes[at + 1 + j / 8]);
            }
        }
        assert(got =~= ahead);
    }
}

} // verus!
