//! A byte stream as a sequence of NAL units between start codes, and what
//! decoding and encoding a whole stream mean.

use crate::bits::{bits_of, low_bits, zeros};
use crate::text::parse_text;
use crate::error::Fault;
use crate::grammar::nalu;
use crate::machine::{Machine, Walk};
use crate::state::H264State;
use crate::tree::Element;
use vstd::prelude::*;

verus! {

/// The length of the start code at index `i` of `bytes`: 4 for `00 00 00 01`,
/// else 3 for `00 00 01`, else 0.
pub open spec fn start_code_len(bytes: Seq<u8>, i: int) -> nat {
    if i + 4 <= bytes.len() && bytes[i] == 0 && bytes[i + 1] == 0 && bytes[i + 2] == 0 && bytes[i
        + 3] == 1 {
        4
    } else if i + 3 <= bytes.len() && bytes[i] == 0 && bytes[i + 1] == 0 && bytes[i + 2] == 1 {
        3
    } else {
        0
    }
}

/// The units of `bytes` from `start` on, where the bytes from `start` up to
/// `cur` hold no start code: the scan goes on from `cur`, takes a start code
/// wherever one begins, and keeps what lies between two of them, or behind
/// the last, unless it is empty.
pub open spec fn split_from(bytes: Seq<u8>, start: int, cur: int) -> Seq<Seq<u8>>
    decreases bytes.len() - cur,
{
    let pending = if start < cur <= bytes.len() {
        seq![bytes.subrange(start, cur)]
    } else {
        Seq::empty()
    };
    if cur >= bytes.len() {
        pending
    } else if start_code_len(bytes, cur) > 0 {
        pending + split_from(
            bytes,
            cur + start_code_len(bytes, cur),
            cur + start_code_len(bytes, cur),
        )
    } else {
        split_from(bytes, start, cur + 1)
    }
}

/// The NAL units of an Annex-B byte stream.
pub open spec fn split_units(bytes: Seq<u8>) -> Seq<Seq<u8>> {
    split_from(bytes, 0, 0)
}

/// The walk of a reader at the start of `unit` over an empty node.
pub open spec fn reading_walk(unit: Seq<u8>) -> Walk {
    Walk { m: Machine::reading(unit, 0), kids: Seq::empty() }
}

/// The trees of the units, one `nalu` node for each, or the first failure.
/// Each unit is decoded in the state that the units before it left.
pub open spec fn decode_units(units: Seq<Seq<u8>>, st: H264State) -> Result<Seq<Element>, Fault>
    decreases units.len(),
{
    if units.len() == 0 {
        Ok(Seq::empty())
    } else {
        let p = nalu(reading_walk(units[0]), st);
        match p.w.m.fault {
            Some(fault) => Err(fault),
            None => match decode_units(units.skip(1), p.st) {
                Ok(rest) => Ok(
                    seq![Element::Node { name: "nalu"@, children: p.w.kids }] + rest,
                ),
                Err(fault) => Err(fault),
            },
        }
    }
}

/// The trees of an Annex-B byte stream, or the first failure.
pub open spec fn decode_stream(bytes: Seq<u8>) -> Result<Seq<Element>, Fault> {
    decode_units(split_units(bytes), H264State::initial())
}

/// The four-byte start code, as bits.
pub open spec fn start_code_bits() -> Seq<bool> {
    low_bits(0, 8) + low_bits(0, 8) + low_bits(0, 8) + low_bits(1, 8)
}

/// The bits of the trees, each behind a four-byte start code, written
/// after `out`, or the first failure. Each tree must be a node; it is
/// encoded in the state that the trees before it left.
pub open spec fn encode_trees(trees: Seq<Element>, out: Seq<bool>, st: H264State) -> Result<
    Seq<bool>,
    Fault,
>
    decreases trees.len(),
{
    if trees.len() == 0 {
        Ok(out)
    } else {
        match trees[0] {
            Element::Node { name, children } => {
                let p = nalu(
                    Walk { m: Machine::writing(out + start_code_bits()), kids: children },
                    st,
                );
                match p.w.m.fault {
                    Some(fault) => Err(fault),
                    None => encode_trees(trees.skip(1), p.w.m.out, p.st),
                }
            },
            Element::Field { name, val } => Err(
                Fault { kind: crate::error::ErrorKind::NotANode, name, found: Seq::empty() },
            ),
            Element::Payload { name, data } => Err(
                Fault { kind: crate::error::ErrorKind::NotANode, name, found: Seq::empty() },
            ),
        }
    }
}

/// The bits that a text stands for: those of its trees, each behind a
/// four-byte start code, or the first failure.
pub open spec fn encode_text(text: Seq<char>) -> Result<Seq<bool>, Fault> {
    match parse_text(text) {
        Ok(trees) => encode_trees(trees, Seq::empty(), H264State::initial()),
        Err(fault) => Err(fault),
    }
}

/// Whether `bytes` holds `bits` and then zero bits up to the end of the
/// last byte.
pub open spec fn holds_bits(bytes: Seq<u8>, bits: Seq<bool>) -> bool {
    &&& bytes.len() == (bits.len() + 7) / 8
    &&& bits_of(bytes) == bits + zeros((8 * bytes.len() - bits.len()) as nat)
}

} // verus!
