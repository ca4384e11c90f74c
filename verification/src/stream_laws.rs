//! What holds of the splitting of a byte stream at its start codes.

use crate::stream::{split_from, split_units, start_code_len};
use vstd::prelude::*;

verus! {

/// Whether `code` is a start code: `00 00 01` or `00 00 00 01`.
pub open spec fn is_start_code(code: Seq<u8>) -> bool {
    code == seq![0u8, 0u8, 1u8] || code == seq![0u8, 0u8, 0u8, 1u8]
}

/// Whether `unit` holds no start code.
pub open spec fn holds_no_start_code(unit: Seq<u8>) -> bool {
    forall|i: int|
        0 <= i && i + 3 <= unit.len() ==> !(#[trigger] unit[i] == 0 && unit[i + 1] == 0 && unit[i
            + 2] == 1)
}

/// The unit as a sequence of units: itself, or nothing where it is empty.
pub open spec fn kept(unit: Seq<u8>) -> Seq<Seq<u8>> {
    if unit.len() > 0 {
        seq![unit]
    } else {
        Seq::empty()
    }
}

/// Where no start code begins from `cur` up to `end`, the scan passes over
/// these bytes.
pub proof fn lemma_scan_over(bytes: Seq<u8>, start: int, cur: int, end: int)
    requires
        0 <= start <= cur <= end <= bytes.len(),
        start == cur || start_code_len(bytes, start) == 0,
        forall|i: int| cur <= i < end ==> start_code_len(bytes, i) == 0,
    ensures
        split_from(bytes, start, cur) == split_from(bytes, start, end),
    decreases end - cur,
{
    if cur < end {
        lemma_scan_over(bytes, start, cur + 1, end);
    }
}

/// A stream of a start code, a unit, a start code and a unit splits into
/// the two units, whichever of the two start codes each of them is, and
/// without a unit that is empty. The units hold no start code, and the
/// first does not end in a zero byte before a start code of three bytes:
/// with the two zero bytes of that start code it would be one of four.
pub proof fn lemma_split_two_units(
    code1: Seq<u8>,
    unit1: Seq<u8>,
    code2: Seq<u8>,
    unit2: Seq<u8>,
)
    requires
        is_start_code(code1),
        is_start_code(code2),
        holds_no_start_code(unit1),
        holds_no_start_code(unit2),
        !(code2.len() == 3 && unit1.len() > 0 && unit1.last() == 0),
    ensures
        split_units(code1 + unit1 + code2 + unit2) == kept(unit1) + kept(unit2),
{
    let bytes = code1 + unit1 + code2 + unit2;
    let a = code1.len() as int;
    let b = a + unit1.len();
    let c = b + code2.len();
    let len = bytes.len() as int;
    assert(len == c + unit2.len());
    assert forall|i: int| 0 <= i < a implies bytes[i] == code1[i] by {}
    assert forall|i: int| a <= i < b implies bytes[i] == unit1[i - a] by {}
    assert forall|i: int| b <= i < c implies bytes[i] == code2[i - b] by {}
    assert forall|i: int| c <= i < len implies bytes[i] == unit2[i - c] by {}
    // The first start code is found at the head.
    assert(start_code_len(bytes, 0) == a) by {
        assert(bytes[0] == code1[0] && bytes[1] == code1[1] && bytes[2] == code1[2]);
        if a == 4 {
            assert(bytes[3] == code1[3]);
        }
    }
    // No start code begins inside the first unit.
    assert forall|i: int| a <= i < b implies start_code_len(bytes, i) == 0 by {
        let j = i - a;
        if start_code_len(bytes, i) == 3 {
            if j + 3 <= unit1.len() {
                assert(unit1[j] == 0 && unit1[j + 1] == 0 && unit1[j + 2] == 1);
            } else {
                assert(bytes[i + 2] == code2[i + 2 - b]);
            }
        } else if start_code_len(bytes, i) == 4 {
            if j + 4 <= unit1.len() {
                assert(unit1[j + 1] == 0 && unit1[j + 2] == 0 && unit1[j + 3] == 1);
            } else {
                assert(bytes[i + 3] == code2[i + 3 - b]);
                assert(i + 3 - b == 2);
                assert(unit1.last() == unit1[j]);
            }
        }
    }
    // The second start code is found behind the first unit.
    assert(start_code_len(bytes, b) == code2.len()) by {
        assert(bytes[b] == code2[0] && bytes[b + 1] == code2[1] && bytes[b + 2] == code2[2]);
        if code2.len() == 4 {
            assert(bytes[b + 3] == code2[3]);
        }
    }
    // No start code begins inside the second unit.
    assert forall|i: int| c <= i < len implies start_code_len(bytes, i) == 0 by {
        let j = i - c;
        if start_code_len(bytes, i) == 3 {
            assert(unit2[j] == 0 && unit2[j + 1] == 0 && unit2[j + 2] == 1);
        } else if start_code_len(bytes, i) == 4 {
            assert(unit2[j + 1] == 0 && unit2[j + 2] == 0 && unit2[j + 3] == 1);
        }
    }
    lemma_scan_over(bytes, a, a, b);
    lemma_scan_over(bytes, c, c, len);
    assert(bytes.subrange(a, b) =~= unit1);
    assert(bytes.subrange(c, len) =~= unit2);
    assert(split_from(bytes, c, len) =~= kept(unit2));
    assert(split_from(bytes, a, b) =~= kept(unit1) + split_from(bytes, c, c));
    assert(split_units(bytes) =~= split_from(bytes, a, a));
}

/// Whether every unit is not empty and holds no start code.
pub open spec fn are_units(units: Seq<Seq<u8>>) -> bool {
    forall|k: int| 0 <= k < units.len() ==> units[k].len() > 0 && holds_no_start_code(units[k])
}

/// The units that a scan finds are not empty and hold no start code.
pub proof fn lemma_split_from_units(bytes: Seq<u8>, start: int, cur: int)
    requires
        0 <= start <= cur <= bytes.len(),
        forall|i: int| start <= i < cur ==> start_code_len(bytes, i) == 0,
    ensures
        are_units(split_from(bytes, start, cur)),
    decreases bytes.len() - cur,
{
    let pending = bytes.subrange(start, cur);
    assert forall|i: int| 0 <= i && i + 3 <= pending.len() implies !(#[trigger] pending[i] == 0
        && pending[i + 1] == 0 && pending[i + 2] == 1) by {
        assert(start_code_len(bytes, start + i) == 0);
        assert(pending[i] == bytes[start + i]);
        assert(pending[i + 1] == bytes[start + i + 1]);
        assert(pending[i + 2] == bytes[start + i + 2]);
    }
    if cur >= bytes.len() {
    } else if start_code_len(bytes, cur) > 0 {
        let next = cur + start_code_len(bytes, cur);
        lemma_split_from_units(bytes, next, next);
        let rest = split_from(bytes, next, next);
        let all = split_from(bytes, start, cur);
        assert forall|k: int| 0 <= k < all.len() implies all[k].len() > 0 && holds_no_start_code(
            all[k],
        ) by {
            if start < cur {
                if k > 0 {
                    assert(all[k] == rest[k - 1]);
                }
            } else {
                assert(all =~= rest);
            }
        }
    } else {
        lemma_split_from_units(bytes, start, cur + 1);
    }
}

/// The units of a stream are not empty and hold no start code.
pub proof fn lemma_split_units(bytes: Seq<u8>)
    ensures
        are_units(split_units(bytes)),
{
    lemma_split_from_units(bytes, 0, 0);
}

/// The units, each behind a four-byte start code.
pub open spec fn framed(units: Seq<Seq<u8>>) -> Seq<u8>
    decreases units.len(),
{
    if units.len() == 0 {
        Seq::empty()
    } else {
        seq![0u8, 0u8, 0u8, 1u8] + units[0] + framed(units.skip(1))
    }
}

/// Framed units begin with a start code, if there are any.
pub proof fn lemma_framed_head(units: Seq<Seq<u8>>)
    requires
        units.len() > 0,
    ensures
        framed(units).len() >= 4 + units[0].len(),
        framed(units)[0] == 0,
        framed(units)[1] == 0,
        framed(units)[2] == 0,
        framed(units)[3] == 1,
{
    let code = seq![0u8, 0u8, 0u8, 1u8];
    let all = framed(units);
    assert(all == code + units[0] + framed(units.skip(1)));
    assert(all[0] == code[0] && all[1] == code[1] && all[2] == code[2] && all[3] == code[3]);
}

/// Units that are framed behind other bytes are found again from where
/// the framing begins.
pub proof fn lemma_split_framed_from(before: Seq<u8>, units: Seq<Seq<u8>>)
    requires
        are_units(units),
    ensures
        split_from(before + framed(units), before.len() as int, before.len() as int) == units,
    decreases units.len(),
{
    let bytes = before + framed(units);
    let p = before.len() as int;
    if units.len() == 0 {
        assert(bytes =~= before);
        assert(split_from(bytes, p, p) =~= units);
    } else {
        let code = seq![0u8, 0u8, 0u8, 1u8];
        let unit = units[0];
        let rest = units.skip(1);
        let a = p + 4;
        let q = a + unit.len();
        let len = bytes.len() as int;
        lemma_framed_head(units);
        assert(framed(units) == code + unit + framed(rest));
        assert forall|i: int| 0 <= i < 4 implies bytes[p + i] == code[i] by {
            assert(bytes[p + i] == framed(units)[i]);
        }
        assert forall|i: int| a <= i < q implies bytes[i] == unit[i - a] by {
            assert(bytes[i] == framed(units)[i - p]);
        }
        assert(len == q + framed(rest).len());
        assert forall|i: int| q <= i < len implies bytes[i] == framed(rest)[i - q] by {
            assert(bytes[i] == framed(units)[i - p]);
        }
        if rest.len() > 0 {
            lemma_framed_head(rest);
        }
        assert(start_code_len(bytes, p) == 4);
        // No start code begins inside the unit.
        assert forall|i: int| a <= i < q implies start_code_len(bytes, i) == 0 by {
            let j = i - a;
            if start_code_len(bytes, i) == 3 {
                if j + 3 <= unit.len() {
                    assert(unit[j] == 0 && unit[j + 1] == 0 && unit[j + 2] == 1);
                } else {
                    assert(bytes[i + 2] == framed(rest)[i + 2 - q]);
                }
            } else if start_code_len(bytes, i) == 4 {
                if j + 4 <= unit.len() {
                    assert(unit[j + 1] == 0 && unit[j + 2] == 0 && unit[j + 3] == 1);
                } else {
                    assert(bytes[i + 3] == framed(rest)[i + 3 - q]);
                }
            }
        }
        lemma_scan_over(bytes, a, a, q);
        assert(bytes.subrange(a, q) =~= unit);
        let further = before + code + unit;
        assert(bytes =~= further + framed(rest));
        lemma_split_framed_from(further, rest);
        if rest.len() == 0 {
            assert(q == len);
            assert(split_from(bytes, a, q) =~= seq![unit]);
            assert(units =~= seq![unit]);
        } else {
            assert(start_code_len(bytes, q) == 4);
            assert(split_from(bytes, a, q) =~= seq![unit] + split_from(bytes, q + 4, q + 4));
            assert(split_from(bytes, q, q) =~= split_from(bytes, q + 4, q + 4));
            assert(units =~= seq![unit] + rest);
        }
    }
}

/// A stream of units, each behind a four-byte start code, splits into
/// the units: for units that are not empty and hold no start code.
pub proof fn lemma_split_framed(units: Seq<Seq<u8>>)
    requires
        are_units(units),
    ensures
        split_units(framed(units)) == units,
{
    lemma_split_framed_from(Seq::empty(), units);
    assert(Seq::<u8>::empty() + framed(units) =~= framed(units));
}

} // verus!
