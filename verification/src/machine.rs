//! What a processor does, step by step, as functions on mathematical values.
//!
//! A processor either reads a unit's bits and appends what it reads to the
//! node at hand, or takes the children off the node at hand and writes their
//! bits. Both remember the first failure and do nothing after it.

use crate::bits::{bits_of, low_bits};
use crate::codec::{decode_field, encodable, encode_field, FieldType};
use crate::error::{ErrorKind, Fault};
use crate::tree::Element;
use vstd::arithmetic::power2::pow2;
use vstd::prelude::*;

verus! {

/// The state of a processor.
pub struct Machine {
    /// Whether the processor writes; otherwise it reads.
    pub writing: bool,
    /// Reading: the bytes of the unit.
    pub bytes: Seq<u8>,
    /// Reading: the number of bits consumed.
    pub pos: nat,
    /// Writing: the bits written.
    pub out: Seq<bool>,
    /// The first failure, if there was one.
    pub fault: Option<Fault>,
}

/// The number of `true` bits in `s`.
pub open spec fn count_ones(s: Seq<bool>) -> nat
    decreases s.len(),
{
    if s.len() == 0 {
        0
    } else {
        count_ones(s.drop_last()) + if s.last() { 1nat } else { 0nat }
    }
}

/// The payload that a reader at bit `pos` of `bytes` takes: the rest of the
/// byte it stands in, if it stands inside one, as the low bits of a byte of
/// its own, and then every byte that follows.
pub open spec fn payload_data(bytes: Seq<u8>, pos: nat) -> Seq<u8> {
    if pos % 8 == 0 {
        bytes.skip((pos / 8) as int)
    } else {
        seq![(bytes[(pos / 8) as int] as nat % pow2((8 - pos % 8) as nat)) as u8] + bytes.skip(
            (pos / 8) as int + 1,
        )
    }
}

/// The bits that a writer with `written` bits behind it emits for a payload:
/// if it stands inside a byte and the payload is not empty, the low bits of
/// the payload's first byte that fill that byte, then the other bytes whole.
pub open spec fn payload_bits(written: nat, data: Seq<u8>) -> Seq<bool> {
    if written % 8 != 0 && data.len() > 0 {
        low_bits(data[0] as int, (8 - written % 8) as nat) + bits_of(data.skip(1))
    } else {
        bits_of(data)
    }
}

impl Machine {
    /// A reader at bit `pos` of `bytes`.
    pub open spec fn reading(bytes: Seq<u8>, pos: nat) -> Machine {
        Machine { writing: false, bytes, pos, out: Seq::empty(), fault: None }
    }

    /// A writer that has written `out`.
    pub open spec fn writing(out: Seq<bool>) -> Machine {
        Machine { writing: true, bytes: Seq::empty(), pos: 0, out, fault: None }
    }

    /// A writer has no unit and no cursor; a reader has written nothing and
    /// its cursor is inside its unit or at its end.
    pub open spec fn wf(self) -> bool {
        if self.writing {
            self.bytes.len() == 0 && self.pos == 0
        } else {
            self.out.len() == 0 && self.pos <= 8 * self.bytes.len()
        }
    }

    /// Whether a failure is recorded.
    pub open spec fn failed(self) -> bool {
        self.fault is Some
    }

    /// Reading: this machine with the cursor `k` bits further.
    pub open spec fn advance(self, k: nat) -> Machine {
        Machine { pos: self.pos + k, ..self }
    }

    /// Writing: this machine with `bits` written after the others.
    pub open spec fn emit(self, bits: Seq<bool>) -> Machine {
        Machine { out: self.out + bits, ..self }
    }

    /// Reading: the bits ahead of the cursor.
    pub open spec fn rest(self) -> Seq<bool> {
        bits_of(self.bytes).skip(self.pos as int)
    }

    /// This machine with the failure recorded, unless one is recorded already.
    pub open spec fn raise(self, kind: ErrorKind, name: Seq<char>) -> Machine {
        if self.failed() {
            self
        } else {
            Machine { fault: Some(Fault { kind, name, found: Seq::empty() }), ..self }
        }
    }

    /// This machine with the failure recorded that a child named `found`
    /// stands where the element `name` is expected, unless a failure is
    /// recorded already.
    pub open spec fn raise_name(self, name: Seq<char>, found: Seq<char>) -> Machine {
        if self.failed() {
            self
        } else {
            Machine { fault: Some(Fault { kind: ErrorKind::WrongName, name, found }), ..self }
        }
    }

    /// Reading: whether more than the closing bits are ahead. False exactly
    /// where the cursor stands in the last byte and a single one bit is left.
    pub open spec fn more_to_read(self) -> bool {
        !(self.bytes.len() > 0 && self.pos / 8 == self.bytes.len() - 1 && count_ones(self.rest())
            == 1)
    }
}

/// A processor together with the children of the node that it works on: for
/// a reader the children appended so far, for a writer those not yet taken.
pub struct Walk {
    pub m: Machine,
    pub kids: Seq<Element>,
}

impl Walk {
    /// Whether the processor is well formed.
    pub open spec fn wf(self) -> bool {
        self.m.wf()
    }

    /// Whether a failure is recorded.
    pub open spec fn failed(self) -> bool {
        self.m.failed()
    }

    /// The walk with the failure recorded, unless one is recorded already.
    pub open spec fn raise(self, kind: ErrorKind, name: Seq<char>) -> Walk {
        Walk { m: self.m.raise(kind, name), ..self }
    }

    /// The walk with the failure recorded that a child named `found` stands
    /// where the element `name` is expected.
    pub open spec fn raise_name(self, name: Seq<char>, found: Seq<char>) -> Walk {
        Walk { m: self.m.raise_name(name, found), ..self }
    }

    /// The walk after a field step. A reader decodes the field and appends
    /// it; a writer takes the first child, which must be a field of that
    /// name with a value that can be coded, and appends its code.
    pub open spec fn field(self, name: Seq<char>, field_type: FieldType, n: u8) -> Walk {
        if self.failed() {
            self
        } else if self.m.writing {
            if self.kids.len() == 0 {
                self.raise(ErrorKind::Missing, name)
            } else {
                match self.kids[0] {
                    Element::Field { name: found, val } => if found != name {
                        self.raise_name(name, found)
                    } else if !encodable(field_type, n, val) {
                        self.raise(ErrorKind::Unwritable, name)
                    } else {
                        Walk {
                            m: self.m.emit(encode_field(field_type, n, val)),
                            kids: self.kids.skip(1),
                        }
                    },
                    _ => self.raise(ErrorKind::WrongShape, name),
                }
            }
        } else {
            match decode_field(field_type, n, self.m.rest()) {
                Some((val, used)) => Walk {
                    m: self.m.advance(used),
                    kids: self.kids.push(Element::Field { name, val }),
                },
                None => self.raise(ErrorKind::Unreadable, name),
            }
        }
    }

    /// The value that a field step hands back: the field's value, or 0 where
    /// the step fails or a failure came before it.
    pub open spec fn field_value(self, name: Seq<char>, field_type: FieldType, n: u8) -> i32 {
        if self.field(name, field_type, n).failed() {
            0
        } else if self.m.writing {
            self.kids[0]->Field_val
        } else {
            decode_field(field_type, n, self.m.rest()).unwrap().0
        }
    }

    /// The walk after a payload step. A reader takes all that is left of the
    /// unit; a writer takes the first child, which must be a payload of that
    /// name, and writes it out.
    pub open spec fn payload(self, name: Seq<char>) -> Walk {
        if self.failed() {
            self
        } else if self.m.writing {
            if self.kids.len() == 0 {
                self.raise(ErrorKind::Missing, name)
            } else {
                match self.kids[0] {
                    Element::Payload { name: found, data } => if found != name {
                        self.raise_name(name, found)
                    } else {
                        Walk {
                            m: self.m.emit(payload_bits(self.m.out.len(), data)),
                            kids: self.kids.skip(1),
                        }
                    },
                    _ => self.raise(ErrorKind::WrongShape, name),
                }
            }
        } else {
            Walk {
                m: self.m.advance(self.m.rest().len()),
                kids: self.kids.push(
                    Element::Payload { name, data: payload_data(self.m.bytes, self.m.pos) },
                ),
            }
        }
    }

    /// Whether more syntax follows. A reader looks for more than the closing
    /// bits; a writer looks for a child other than one last payload. False
    /// after a failure.
    pub open spec fn more_data(self) -> bool {
        if self.failed() {
            false
        } else if self.m.writing {
            self.kids.len() >= 2 || (self.kids.len() == 1 && !(self.kids[0] is Payload))
        } else {
            self.m.more_to_read()
        }
    }

    /// The walk over the outer node once a subnode has been opened. A writer
    /// takes the first child, which must be a node of that name.
    pub open spec fn open(self, name: Seq<char>) -> Walk {
        if self.failed() {
            self
        } else if self.m.writing {
            if self.kids.len() == 0 {
                self.raise(ErrorKind::Missing, name)
            } else {
                match self.kids[0] {
                    Element::Node { name: found, children } => if found != name {
                        self.raise_name(name, found)
                    } else {
                        Walk { kids: self.kids.skip(1), ..self }
                    },
                    _ => self.raise(ErrorKind::WrongShape, name),
                }
            }
        } else {
            self
        }
    }

    /// The walk over the subnode that has been opened: for a reader it starts
    /// empty, for a writer with the children of the node taken.
    pub open spec fn inner(self, name: Seq<char>) -> Walk {
        let opened = self.open(name);
        if !opened.failed() && self.m.writing {
            Walk { m: opened.m, kids: self.kids[0]->Node_children }
        } else {
            Walk { m: opened.m, kids: Seq::empty() }
        }
    }

    /// The walk over the outer node once the subnode is closed, where `self`
    /// is the walk over the opened outer node and `sub` the walk over the
    /// subnode at its end. A reader appends the subnode; a writer drops it.
    pub open spec fn close(self, name: Seq<char>, sub: Walk) -> Walk {
        if sub.failed() || sub.m.writing {
            Walk { m: sub.m, kids: self.kids }
        } else {
            Walk { m: sub.m, kids: self.kids.push(Element::Node { name, children: sub.kids }) }
        }
    }
}

impl Walk {
    /// What is left to process: for a reader the bits ahead, for a writer
    /// the children not yet taken.
    pub open spec fn fuel(self) -> nat {
        if self.m.writing {
            self.kids.len()
        } else if self.m.pos <= 8 * self.m.bytes.len() {
            (8 * self.m.bytes.len() - self.m.pos) as nat
        } else {
            0
        }
    }
}

/// A field step keeps a walk well formed and adds nothing to what is left
/// to process; a step that succeeds on a field of at least one bit takes
/// something away.
pub proof fn lemma_field_fuel(w: Walk, name: Seq<char>, field_type: FieldType, n: u8)
    requires
        w.wf(),
    ensures
        w.field(name, field_type, n).wf(),
        w.field(name, field_type, n).m.writing == w.m.writing,
        w.field(name, field_type, n).fuel() <= w.fuel(),
        !w.failed() && !w.field(name, field_type, n).failed() && !(field_type
            == FieldType::UnsignedInt && n == 0) && !(field_type == FieldType::SignedInt && n == 0)
            ==> w.field(name, field_type, n).fuel() < w.fuel(),
{
}

} // verus!
