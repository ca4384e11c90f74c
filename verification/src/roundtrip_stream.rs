//! Encoding what was decoded gives back the stream that was decoded.

use crate::bits::{bit_at, bits_of, low_bits, zeros};
use crate::grammar::{nalu, Pass};
use crate::grammar_laws::lemma_nalu_keeps;
use crate::machine::{Machine, Walk};
use crate::roundtrip::{follows, reaches, Origin};
use crate::roundtrip_syntax::{lemma_nalu, unit_is_canonical};
use crate::state::H264State;
use crate::printer::print_forest;
use crate::stream::{
    decode_stream, decode_units, encode_text, encode_trees, holds_bits, reading_walk, split_units,
    start_code_bits,
};
use crate::stream_laws::{framed, lemma_split_framed, lemma_split_units};
use crate::text_roundtrip::{all_well_named, lemma_text_round_trip, well_named};
use crate::tree::Element;
use vstd::prelude::*;

verus! {

/// Whether every slice among the units has canonical fields: where the
/// sequence parameter set gives `frame_num` or `pic_order_cnt_lsb` more than
/// 32 bits, those above the low 32 repeat the highest of these. The value
/// of such a field keeps its low 32 bits only.
pub open spec fn has_canonical_slices(units: Seq<Seq<u8>>, st: H264State) -> bool
    decreases units.len(),
{
    units.len() == 0 || {
        &&& unit_is_canonical(reading_walk(units[0]), st)
        &&& has_canonical_slices(units.skip(1), nalu(reading_walk(units[0]), st).st)
    }
}

/// The bits of the units, each behind the bits of a four-byte start code.
pub open spec fn framed_bits(units: Seq<Seq<u8>>) -> Seq<bool>
    decreases units.len(),
{
    if units.len() == 0 {
        Seq::empty()
    } else {
        start_code_bits() + bits_of(units[0]) + framed_bits(units.skip(1))
    }
}

/// Encoding the tree of a unit that was decoded gives the bits of the
/// unit, takes every child of the tree, and leaves the state that decoding
/// left: for a unit whose fields are canonical.
pub proof fn lemma_unit_round_trip(unit: Seq<u8>, st: H264State, out: Seq<bool>)
    requires
        !nalu(reading_walk(unit), st).w.failed(),
        unit_is_canonical(reading_walk(unit), st),
        out.len() % 8 == 0,
    ensures
        nalu(
            Walk { m: Machine::writing(out), kids: nalu(reading_walk(unit), st).w.kids },
            st,
        ) == (Pass {
            w: Walk { m: Machine::writing(out + bits_of(unit)), kids: Seq::empty() },
            st: nalu(reading_walk(unit), st).st,
        }),
{
    let r = reading_walk(unit);
    let e = nalu(r, st).w;
    let w = Walk { m: Machine::writing(out), kids: e.kids };
    let from = Origin { pos: 0, out };
    let tail = Seq::<Element>::empty();
    lemma_nalu_keeps(r, st);
    assert(reaches(e, e));
    lemma_nalu(w, r, st, e, tail, from);
    let all = bits_of(unit);
    assert(all.subrange(0, 0) =~= Seq::<bool>::empty());
    assert(out + all.subrange(0, 0) =~= out);
    assert(e.kids.skip(0) + tail =~= e.kids);
    assert(follows(w, r, e, tail, from));
    let w2 = nalu(w, st).w;
    assert(all.subrange(0, e.m.pos as int) =~= all);
    assert(w2.kids =~= Seq::<Element>::empty());
    assert(w2.m.bytes =~= Seq::<u8>::empty());
    assert(w2.m == Machine::writing(out + all));
}

/// Encoding the trees of the units that were decoded gives the bits of the
/// units, each behind a start code: for units whose fields are canonical.
pub proof fn lemma_units_round_trip(units: Seq<Seq<u8>>, st: H264State, out: Seq<bool>)
    requires
        decode_units(units, st) is Ok,
        has_canonical_slices(units, st),
        out.len() % 8 == 0,
    ensures
        encode_trees(decode_units(units, st)->Ok_0, out, st) == Ok::<Seq<bool>, crate::error::Fault>(
            out + framed_bits(units),
        ),
    decreases units.len(),
{
    if units.len() == 0 {
        assert(out + framed_bits(units) =~= out);
    } else {
        let p = nalu(reading_walk(units[0]), st);
        let rest = decode_units(units.skip(1), p.st)->Ok_0;
        let trees = decode_units(units, st)->Ok_0;
        let tree = Element::Node { name: "nalu"@, children: p.w.kids };
        assert(trees == seq![tree] + rest);
        assert(trees[0] == tree);
        assert(trees.skip(1) =~= rest);
        let begun = out + start_code_bits();
        lemma_unit_round_trip(units[0], st, begun);
        let next = begun + bits_of(units[0]);
        lemma_units_round_trip(units.skip(1), p.st, next);
        assert(next + framed_bits(units.skip(1)) =~= out + framed_bits(units));
    }
}

/// The bits of bytes one after the other are their bits one after the
/// other.
pub proof fn lemma_bits_of_concat(a: Seq<u8>, b: Seq<u8>)
    ensures
        bits_of(a + b) == bits_of(a) + bits_of(b),
{
    assert forall|k: int| 0 <= k < 8 * (a.len() + b.len()) implies bits_of(a + b)[k] == (bits_of(a)
        + bits_of(b))[k] by {
        if k >= 8 * a.len() {
            assert((a + b)[k / 8] == b[(k - 8 * a.len()) / 8]);
        }
    }
    assert(bits_of(a + b) =~= bits_of(a) + bits_of(b));
}

/// The bits of a four-byte start code.
pub proof fn lemma_start_code_bits()
    ensures
        bits_of(seq![0u8, 0u8, 0u8, 1u8]) == start_code_bits(),
{
    let code = seq![0u8, 0u8, 0u8, 1u8];
    assert forall|k: int| 0 <= k < 32 implies bits_of(code)[k] == start_code_bits()[k] by {
        if k < 8 {
            assert(start_code_bits()[k] == low_bits(0, 8)[k]);
        } else if k < 16 {
            assert(start_code_bits()[k] == low_bits(0, 8)[k - 8]);
        } else if k < 24 {
            assert(start_code_bits()[k] == low_bits(0, 8)[k - 16]);
        } else {
            assert(start_code_bits()[k] == low_bits(1, 8)[k - 24]);
        }
    }
    assert(bits_of(code) =~= start_code_bits());
}

/// The bits of framed units are the framed bits of the units.
pub proof fn lemma_framed_bits(units: Seq<Seq<u8>>)
    ensures
        bits_of(framed(units)) == framed_bits(units),
    decreases units.len(),
{
    if units.len() == 0 {
        assert(bits_of(Seq::<u8>::empty()) =~= Seq::<bool>::empty());
    } else {
        let code = seq![0u8, 0u8, 0u8, 1u8];
        lemma_framed_bits(units.skip(1));
        lemma_start_code_bits();
        lemma_bits_of_concat(code + units[0], framed(units.skip(1)));
        lemma_bits_of_concat(code, units[0]);
    }
}

/// Bytes with the same bits are the same bytes.
pub proof fn lemma_bits_of_injective(a: Seq<u8>, b: Seq<u8>)
    requires
        bits_of(a) == bits_of(b),
    ensures
        a == b,
{
    assert(bits_of(a).len() == 8 * a.len());
    assert(bits_of(b).len() == 8 * b.len());
    assert forall|i: int| 0 <= i < a.len() implies a[i] == b[i] by {
        assert forall|k: u8| k < 8 implies bit_at(a[i] as int, k as nat) == bit_at(
            b[i] as int,
            k as nat,
        ) by {
            let j = 8 * i + (7 - k);
            assert(bits_of(a)[j] == bit_at(a[j / 8] as int, (7 - j % 8) as nat));
            assert(bits_of(b)[j] == bit_at(b[j / 8] as int, (7 - j % 8) as nat));
        }
        lemma_byte_of_bits(a[i], b[i]);
    }
    assert(a =~= b);
}

/// Bytes with the same eight bits are the same byte.
pub proof fn lemma_byte_of_bits(x: u8, y: u8)
    requires
        forall|k: u8| k < 8 ==> bit_at(x as int, k as nat) == bit_at(y as int, k as nat),
    ensures
        x == y,
{
    assert forall|k: u8| k < 8 implies ((x >> k) & 1 == 1) == ((y >> k) & 1 == 1) by {
        crate::bits::lemma_bit_at_u8(x, k);
        crate::bits::lemma_bit_at_u8(y, k);
        assert(bit_at(x as int, k as nat) == bit_at(y as int, k as nat));
    }
    assert(((x >> 0u8) & 1 == 1) == ((y >> 0u8) & 1 == 1));
    assert(((x >> 1u8) & 1 == 1) == ((y >> 1u8) & 1 == 1));
    assert(((x >> 2u8) & 1 == 1) == ((y >> 2u8) & 1 == 1));
    assert(((x >> 3u8) & 1 == 1) == ((y >> 3u8) & 1 == 1));
    assert(((x >> 4u8) & 1 == 1) == ((y >> 4u8) & 1 == 1));
    assert(((x >> 5u8) & 1 == 1) == ((y >> 5u8) & 1 == 1));
    assert(((x >> 6u8) & 1 == 1) == ((y >> 6u8) & 1 == 1));
    assert(((x >> 7u8) & 1 == 1) == ((y >> 7u8) & 1 == 1));
    assert(x == y) by (bit_vector)
        requires
            ((x >> 0u8) & 1 == 1) == ((y >> 0u8) & 1 == 1),
            ((x >> 1u8) & 1 == 1) == ((y >> 1u8) & 1 == 1),
            ((x >> 2u8) & 1 == 1) == ((y >> 2u8) & 1 == 1),
            ((x >> 3u8) & 1 == 1) == ((y >> 3u8) & 1 == 1),
            ((x >> 4u8) & 1 == 1) == ((y >> 4u8) & 1 == 1),
            ((x >> 5u8) & 1 == 1) == ((y >> 5u8) & 1 == 1),
            ((x >> 6u8) & 1 == 1) == ((y >> 6u8) & 1 == 1),
            ((x >> 7u8) & 1 == 1) == ((y >> 7u8) & 1 == 1),
    ;
}

/// Encoding the trees that a stream was decoded into gives back the
/// stream, bit for bit and byte for byte: for a stream that is its units
/// each behind a four-byte start code, and whose fields are canonical. A
/// start code of three bytes comes back as one of four, and of a field of
/// more than 32 bits only the low 32 come back.
pub proof fn lemma_stream_round_trip(bytes: Seq<u8>, encoded: Seq<u8>)
    requires
        decode_stream(bytes) is Ok,
        has_canonical_slices(split_units(bytes), H264State::initial()),
        bytes == framed(split_units(bytes)),
        encode_trees(decode_stream(bytes)->Ok_0, Seq::empty(), H264State::initial()) is Ok
            ==> holds_bits(
            encoded,
            encode_trees(decode_stream(bytes)->Ok_0, Seq::empty(), H264State::initial())->Ok_0,
        ),
    ensures
        encode_trees(decode_stream(bytes)->Ok_0, Seq::empty(), H264State::initial()) == Ok::<
            Seq<bool>,
            crate::error::Fault,
        >(bits_of(bytes)),
        encoded == bytes,
{
    let units = split_units(bytes);
    lemma_units_round_trip(units, H264State::initial(), Seq::empty());
    lemma_framed_bits(units);
    assert(Seq::<bool>::empty() + framed_bits(units) =~= framed_bits(units));
    let bits = bits_of(bytes);
    assert(encoded.len() == bytes.len());
    assert(bits + zeros((8 * encoded.len() - bits.len()) as nat) =~= bits);
    lemma_bits_of_injective(encoded, bytes);
}

/// The trees that units are decoded into have names that can stand in a
/// text.
pub proof fn lemma_decoded_names(units: Seq<Seq<u8>>, st: H264State)
    requires
        decode_units(units, st) is Ok,
    ensures
        all_well_named(decode_units(units, st)->Ok_0),
    decreases units.len(),
{
    if units.len() > 0 {
        let p = nalu(reading_walk(units[0]), st);
        lemma_nalu_keeps(reading_walk(units[0]), st);
        lemma_decoded_names(units.skip(1), p.st);
        crate::grammar_laws::lemma_names();
        let trees = decode_units(units, st)->Ok_0;
        let rest = decode_units(units.skip(1), p.st)->Ok_0;
        let tree = Element::Node { name: "nalu"@, children: p.w.kids };
        assert(well_named(tree));
        assert forall|i: int| 0 <= i < trees.len() implies well_named(trees[i]) by {
            if i > 0 {
                assert(trees[i] == rest[i - 1]);
            }
        }
    }
}

/// Decoding a stream, writing its trees as text, reading the text and
/// encoding its trees gives back the stream, byte for byte, and decoding
/// that again gives the same text: for a stream that is its units each
/// behind a four-byte start code, and whose fields are canonical.
pub proof fn lemma_round_trip(bytes: Seq<u8>, encoded: Seq<u8>)
    requires
        decode_stream(bytes) is Ok,
        has_canonical_slices(split_units(bytes), H264State::initial()),
        bytes == framed(split_units(bytes)),
        encode_text(print_forest(decode_stream(bytes)->Ok_0)) is Ok ==> holds_bits(
            encoded,
            encode_text(print_forest(decode_stream(bytes)->Ok_0))->Ok_0,
        ),
    ensures
        encode_text(print_forest(decode_stream(bytes)->Ok_0)) == Ok::<
            Seq<bool>,
            crate::error::Fault,
        >(bits_of(bytes)),
        encoded == bytes,
        decode_stream(encoded) is Ok,
        print_forest(decode_stream(encoded)->Ok_0) == print_forest(decode_stream(bytes)->Ok_0),
{
    let trees = decode_stream(bytes)->Ok_0;
    lemma_decoded_names(split_units(bytes), H264State::initial());
    lemma_text_round_trip(trees);
    let bits = encode_trees(trees, Seq::empty(), H264State::initial());
    if bits is Ok {
    }
    lemma_units_round_trip(split_units(bytes), H264State::initial(), Seq::empty());
    lemma_stream_round_trip(bytes, encoded);
}

/// Decoding a stream, writing its trees as text, reading the text and
/// encoding its trees gives the units of the stream, each behind a
/// four-byte start code; and decoding that gives the same trees, and so the
/// same text: for a stream with start codes of three or of four bytes whose
/// fields are canonical. Where a field of more than 32 bits is not, the bits
/// that are written for it can hold a start code that the stream did not
/// hold.
pub proof fn lemma_text_is_kept(bytes: Seq<u8>, encoded: Seq<u8>)
    requires
        decode_stream(bytes) is Ok,
        has_canonical_slices(split_units(bytes), H264State::initial()),
        encode_text(print_forest(decode_stream(bytes)->Ok_0)) is Ok ==> holds_bits(
            encoded,
            encode_text(print_forest(decode_stream(bytes)->Ok_0))->Ok_0,
        ),
    ensures
        encode_text(print_forest(decode_stream(bytes)->Ok_0)) is Ok,
        encoded == framed(split_units(bytes)),
        decode_stream(encoded) == decode_stream(bytes),
{
    let units = split_units(bytes);
    let trees = decode_stream(bytes)->Ok_0;
    lemma_decoded_names(units, H264State::initial());
    lemma_text_round_trip(trees);
    lemma_units_round_trip(units, H264State::initial(), Seq::empty());
    lemma_framed_bits(units);
    assert(Seq::<bool>::empty() + framed_bits(units) =~= framed_bits(units));
    let canonical = framed(units);
    let bits = bits_of(canonical);
    assert(encoded.len() == canonical.len());
    assert(bits + zeros((8 * encoded.len() - bits.len()) as nat) =~= bits);
    lemma_bits_of_injective(encoded, canonical);
    lemma_split_units(bytes);
    lemma_split_framed(units);
}

} // verus!
