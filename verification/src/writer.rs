//! A writer of bits and fields into a byte vector that grows as needed.

use crate::bits::{
    bit_at, bits_of, lemma_bit_at_pattern, lemma_bit_at_sign, lemma_bit_at_u32, lemma_bit_at_zero,
    lemma_bits_of_push, lemma_or_bit, low_bits, zeros,
};
use crate::codec::{
    bit_width, code_of_signed, encodable, encode_exp_golomb, encode_field, FieldType,
};
use crate::error::{fault_of, ErrorKind, SyntaxError};
use crate::machine::{payload_bits, Machine};
use crate::processor::BitstreamProcessor;
use crate::tree::{lemma_node_view, SyntaxElement, SyntaxNode};
use vstd::arithmetic::power2::pow2;
use vstd::prelude::*;

verus! {

/// Writes bits one after the other, most significant bit of each byte first.
/// The last byte is filled up with zero bits.
pub struct BitstreamWriter {
    buffer: Vec<u8>,
    /// The number of bits written into the last byte, or 0 where the last
    /// byte is full or there is none.
    fill: u8,
    fault: Option<SyntaxError>,
}

impl View for BitstreamWriter {
    type V = Machine;

    closed spec fn view(&self) -> Machine {
        Machine {
            writing: true,
            bytes: Seq::empty(),
            pos: 0,
            out: bits_of(self.buffer@).take(self.written() as int),
            fault: fault_of(self.fault),
        }
    }
}

/// The bits that `write_wide` emits: the low `n` bits of the number whose
/// low 32 bits are `pattern` and whose higher bits all equal `high`.
pub open spec fn wide_bits(pattern: u32, high: bool, n: nat) -> Seq<bool> {
    Seq::new(
        n,
        |i: int|
            if n - 1 - i >= 32 {
                high
            } else {
                bit_at(pattern as int, (n - 1 - i) as nat)
            },
    )
}

/// The low bits of a signed 32-bit number are those of its 32-bit pattern
/// with its sign above them.
pub proof fn lemma_wide_bits_signed(val: i32, n: nat)
    ensures
        wide_bits((val as int % 0x1_0000_0000) as u32, val < 0, n) == low_bits(val as int, n),
{
    let pattern = (val as int % 0x1_0000_0000) as u32;
    assert forall|i: int| 0 <= i < n implies wide_bits(pattern, val < 0, n)[i] == low_bits(
        val as int,
        n,
    )[i] by {
        let k = (n - 1 - i) as nat;
        if k >= 32 {
            lemma_bit_at_sign(val as int, k);
        } else {
            lemma_bit_at_pattern(val as int, k);
        }
    }
    assert(wide_bits(pattern, val < 0, n) =~= low_bits(val as int, n));
}

/// Up to 32 low bits of a pattern with nothing above it are the low bits
/// of the pattern as a number, and those of zero are zero bits.
pub proof fn lemma_wide_bits_unsigned(pattern: u32, n: nat)
    requires
        n <= 32,
    ensures
        wide_bits(pattern, false, n) == low_bits(pattern as int, n),
        wide_bits(0, false, n) == zeros(n),
{
    assert(wide_bits(pattern, false, n) =~= low_bits(pattern as int, n));
    assert forall|i: int| 0 <= i < n implies wide_bits(0, false, n)[i] == zeros(n)[i] by {
        lemma_bit_at_zero((n - 1 - i) as nat);
    }
    assert(wide_bits(0, false, n) =~= zeros(n));
}

impl BitstreamWriter {
    /// The number of bits written.
    pub closed spec fn written(&self) -> nat {
        if self.fill == 0 {
            8 * self.buffer@.len()
        } else {
            (8 * (self.buffer@.len() - 1) + self.fill) as nat
        }
    }

    /// The bits of the last byte that have not been written are zero.
    pub closed spec fn wf(&self) -> bool {
        &&& self.fill < 8
        &&& self.fill > 0 ==> {
            &&& self.buffer@.len() >= 1
            &&& forall|k: u8|
                k < 8 - self.fill ==> !#[trigger] bit_at(self.buffer@.last() as int, k as nat)
        }
    }

    /// A writer that has written nothing.
    pub fn new() -> (writer: BitstreamWriter)
        ensures
            writer.wf(),
            writer@ == Machine::writing(Seq::empty()),
    {
        let writer = BitstreamWriter { buffer: Vec::new(), fill: 0, fault: None };
        assert(writer@.out =~= Seq::<bool>::empty());
        writer
    }

    /// The bytes written so far, the last one filled up with zero bits.
    pub fn bytes(&self) -> (bytes: &Vec<u8>)
        requires
            self.wf(),
        ensures
            crate::stream::holds_bits(bytes@, self@.out),
    {
        proof {
            self.lemma_padding();
        }
        &self.buffer
    }

    /// Gives up the writer for the bytes it has written, the last one filled
    /// up with zero bits.
    pub fn into_bytes(self) -> (bytes: Vec<u8>)
        requires
            self.wf(),
        ensures
            crate::stream::holds_bits(bytes@, self@.out),
    {
        proof {
            self.lemma_padding();
        }
        self.buffer
    }

    /// The buffer holds the bits written and then zero bits.
    proof fn lemma_padding(&self)
        requires
            self.wf(),
        ensures
            self.buffer@.len() == (self@.out.len() + 7) / 8,
            bits_of(self.buffer@) == self@.out + zeros(
                (8 * self.buffer@.len() - self@.out.len()) as nat,
            ),
    {
        let all = bits_of(self.buffer@);
        let pad = zeros((8 * self.buffer@.len() - self@.out.len()) as nat);
        assert forall|i: int| 0 <= i < all.len() implies all[i] == (self@.out + pad)[i] by {
            if i >= self.written() {
                let k = (7 - i % 8) as u8;
                assert(i / 8 == self.buffer@.len() - 1);
                assert(k < 8 - self.fill);
                assert(!bit_at(self.buffer@.last() as int, k as nat));
            }
        }
        assert(all =~= self@.out + pad);
    }

    /// Writes one bit.
    pub fn write_bit(&mut self, bit: bool)
        requires
            old(self).wf(),
        ensures
            final(self).wf(),
            final(self)@ == old(self)@.emit(seq![bit]),
    {
        let ghost before = self.buffer@;
        let ghost count = self.written();
        if self.fill == 0 {
            self.buffer.push(0);
        }
        let last = self.buffer.len() - 1;
        let old_byte = self.buffer[last];
        let shift: u8 = 7 - self.fill;
        let new_byte = if bit {
            old_byte | (1u8 << shift)
        } else {
            old_byte
        };
        self.buffer.set(last, new_byte);
        self.fill = if self.fill == 7 {
            0
        } else {
            self.fill + 1
        };
        proof {
            lemma_or_bit(old_byte, shift);
            assert forall|k: u8| k < 8 implies !#[trigger] bit_at(0, k as nat) by {
                lemma_bit_at_zero(k as nat);
            }
            assert forall|k: u8| k <= shift implies !#[trigger] bit_at(
                old_byte as int,
                k as nat,
            ) by {
                if old(self).fill > 0 {
                    assert(old_byte == old(self).buffer@.last());
                    assert(k < 8 - old(self).fill);
                }
            }
            assert(bit_at(new_byte as int, shift as nat) == bit);
            assert forall|k: u8| k < 8 && k != shift implies #[trigger] bit_at(
                new_byte as int,
                k as nat,
            ) == bit_at(old_byte as int, k as nat) by {}
            assert(self.buffer@.last() == new_byte);
            assert forall|k: u8| k < shift implies !#[trigger] bit_at(
                new_byte as int,
                k as nat,
            ) by {}
            let after = self.buffer@;
            let target = bits_of(before).take(count as int).push(bit);
            let got = bits_of(after).take(self.written() as int);
            assert(got.len() == target.len());
            assert forall|i: int| 0 <= i < got.len() implies got[i] == target[i] by {
                let k = (7 - i % 8) as u8;
                if i < count {
                    if i / 8 == last {
                        assert(k != shift);
                        assert(bit_at(new_byte as int, k as nat) == bit_at(
                            old_byte as int,
                            k as nat,
                        ));
                    }
                } else {
                    assert(k == shift);
                }
            }
            assert(got =~= target);
            assert(self@.out =~= old(self)@.out + seq![bit]);
        }
    }

    /// Writes the low `n` bits of the number whose low 32 bits are `pattern`
    /// and whose higher bits all equal `high`.
    fn write_wide(&mut self, pattern: u32, high: bool, n: u8)
        requires
            old(self).wf(),
            n <= 64,
        ensures
            final(self).wf(),
            final(self)@ == old(self)@.emit(wide_bits(pattern, high, n as nat)),
    {
        let ghost target = wide_bits(pattern, high, n as nat);
        let mut i: u8 = 0;
        assert(self@.out =~= old(self)@.out + target.take(0));
        while i < n
            invariant
                i <= n <= 64,
                self.wf(),
                target == wide_bits(pattern, high, n as nat),
                self@ == old(self)@.emit(target.take(i as int)),
            decreases n - i,
        {
            let shift: u8 = n - 1 - i;
            let bit = if shift >= 32 {
                high
            } else {
                (pattern >> (shift as u32)) & 1 == 1
            };
            proof {
                if shift < 32 {
                    lemma_bit_at_u32(pattern, shift as u32);
                }
                assert(bit == target[i as int]);
                assert(target.take(i as int).push(bit) =~= target.take(i + 1));
                assert(old(self)@.out + target.take(i as int) + seq![bit] =~= old(self)@.out
                    + target.take(i + 1));
            }
            self.write_bit(bit);
            i = i + 1;
        }
        assert(target.take(n as int) =~= target);
    }

    /// Writes the low `n` bits of `val`, most significant first.
    pub fn write_low_bits(&mut self, val: i32, n: u8)
        requires
            old(self).wf(),
            n <= 64,
        ensures
            final(self).wf(),
            final(self)@ == old(self)@.emit(low_bits(val as int, n as nat)),
    {
        let pattern = #[verifier::truncate] (val as u32);
        proof {
            assert(pattern as int == (val as int) % 0x1_0000_0000) by (bit_vector)
                requires
                    pattern == val as u32,
            ;
            lemma_wide_bits_signed(val, n as nat);
        }
        self.write_wide(pattern, val < 0, n);
    }

    /// Writes the unsigned exp-Golomb code of `val`.
    pub fn write_code(&mut self, val: i32)
        requires
            old(self).wf(),
            val != -1,
        ensures
            final(self).wf(),
            final(self)@ == old(self)@.emit(encode_exp_golomb(val)),
    {
        let low = #[verifier::truncate] (val as u32);
        proof {
            assert(low as int == (val as int) % 0x1_0000_0000) by (bit_vector)
                requires
                    low == val as u32,
            ;
            assert(low != 0xffff_ffff);
        }
        let pattern: u32 = low + 1;
        assert(pattern as int == (val + 1) % 0x1_0000_0000);
        let mut width: u8 = 0;
        let mut rest: u32 = pattern;
        proof {
            vstd::arithmetic::power2::lemma2_to64();
            lemma_bit_width_bound(pattern as int, 32);
        }
        while rest > 0
            invariant
                width <= 32,
                rest as int <= pattern as int,
                bit_width(pattern as int) == width + bit_width(rest as int),
                width + bit_width(rest as int) <= 32,
            decreases rest,
        {
            rest = rest / 2;
            width = width + 1;
        }
        proof {
            lemma_wide_bits_unsigned(pattern, width as nat);
            lemma_wide_bits_unsigned(pattern, (width - 1) as nat);
            assert(old(self)@.out + zeros((width - 1) as nat) + low_bits(
                pattern as int,
                width as nat,
            ) =~= old(self)@.out + encode_exp_golomb(val));
        }
        self.write_wide(0, false, width - 1);
        self.write_wide(pattern, false, width);
    }

    /// Writes one field of the given type; `n` is the width of a fixed-width
    /// field and is ignored for the others.
    pub fn write(&mut self, field_type: FieldType, n: u8, val: i32)
        requires
            old(self).wf(),
            encodable(field_type, n, val),
        ensures
            final(self).wf(),
            final(self)@ == old(self)@.emit(encode_field(field_type, n, val)),
    {
        match field_type {
            FieldType::Boolean => self.write_bit(val != 0),
            FieldType::UnsignedInt | FieldType::SignedInt => self.write_low_bits(val, n),
            FieldType::UnsignedExpGolomb => self.write_code(val),
            FieldType::SignedExpGolomb => {
                let code = if val > 0 {
                    2 * (val - 1) + 1
                } else {
                    -(2 * val)
                };
                assert(code == code_of_signed(val as int));
                self.write_code(code)
            },
        }
    }

    /// Whether a failure is recorded.
    pub fn failed(&self) -> (failed: bool)
        ensures
            failed == self@.failed(),
    {
        self.fault.is_some()
    }

    /// Records a failure, unless one is recorded already.
    pub fn raise(&mut self, kind: ErrorKind, name: &str)
        requires
            old(self).wf(),
        ensures
            final(self).wf(),
            final(self)@ == old(self)@.raise(kind, name@),
    {
        if self.fault.is_none() {
            self.fault = Some(SyntaxError::new(kind, name));
        }
    }

    /// Records the failure that a child named `found` stands where the
    /// element `name` is expected, unless a failure is recorded already.
    pub fn raise_name(&mut self, name: &str, found: &String)
        requires
            old(self).wf(),
        ensures
            final(self).wf(),
            final(self)@ == old(self)@.raise_name(name@, found@),
    {
        if self.fault.is_none() {
            self.fault = Some(SyntaxError::wrong_name(name, found));
        }
    }

    /// The failure recorded, if any.
    pub fn fault(&self) -> (fault: Option<SyntaxError>)
        ensures
            fault_of(fault) == self@.fault,
    {
        match &self.fault {
            Some(e) => Some(e.duplicate()),
            None => None,
        }
    }

    /// Writes a payload: if the writer stands inside a byte and the payload
    /// is not empty, the low bits of its first byte that fill that byte,
    /// then the other bytes whole.
    pub fn write_payload(&mut self, data: &Vec<u8>)
        requires
            old(self).wf(),
        ensures
            final(self).wf(),
            final(self)@ == old(self)@.emit(payload_bits(old(self)@.out.len(), data@)),
    {
        let len = data.len();
        let mut i: usize = 0;
        let ghost start = self@.out;
        if self.fill != 0 && len > 0 {
            self.write_low_bits(data[0] as i32, 8 - self.fill);
            i = 1;
        }
        let ghost head = self@.out;
        let first: usize = i;
        proof {
            assert(data@.subrange(first as int, first as int) =~= Seq::<u8>::empty());
            assert(bits_of(Seq::<u8>::empty()) =~= Seq::<bool>::empty());
            assert(head + bits_of(Seq::<u8>::empty()) =~= head);
        }
        while i < len
            invariant
                first <= i <= len,
                len == data@.len(),
                self.wf(),
                self@ == (Machine {
                    out: head + bits_of(data@.subrange(first as int, i as int)),
                    ..old(self)@
                }),
            decreases len - i,
        {
            proof {
                lemma_bits_of_push(data@.subrange(first as int, i as int), data@[i as int]);
                assert(data@.subrange(first as int, i as int).push(data@[i as int]) =~= data@.subrange(
                    first as int,
                    i + 1,
                ));
                assert(head + bits_of(data@.subrange(first as int, i as int)) + low_bits(
                    data@[i as int] as int,
                    8,
                ) =~= head + bits_of(data@.subrange(first as int, i + 1)));
            }
            self.write_low_bits(data[i] as i32, 8);
            i = i + 1;
        }
        proof {
            assert(data@.subrange(first as int, len as int) =~= data@.skip(first as int));
            assert(data@.skip(0) =~= data@);
            assert(self@.out =~= start + payload_bits(start.len(), data@));
        }
    }
}

impl BitstreamProcessor for BitstreamWriter {
    open spec fn machine(&self) -> Machine {
        self@
    }

    open spec fn ready(&self) -> bool {
        self.wf() && self@.writing && self@.wf()
    }

    proof fn lemma_ready(&self) {
    }

    fn field(&mut self, node: &mut SyntaxNode, name: &str, field_type: FieldType, n: u8) -> (val:
        i32) {
        if self.failed() {
            return 0;
        }
        if node.children.len() == 0 {
            self.raise(ErrorKind::Missing, name);
            return 0;
        }
        let wanted = name.to_owned();
        match &node.children[0] {
            SyntaxElement::Field(found) => {
                if found.name != wanted {
                    self.raise_name(name, &found.name);
                    0
                } else if !can_encode(field_type, found.val) {
                    self.raise(ErrorKind::Unwritable, name);
                    0
                } else {
                    let val = found.val;
                    self.write(field_type, n, val);
                    let _ = node.take_first();
                    val
                }
            },
            _ => {
                self.raise(ErrorKind::WrongShape, name);
                0
            },
        }
    }

    fn subnode(&mut self, node: &mut SyntaxNode, name: &str) -> (sub: SyntaxNode) {
        if self.failed() {
            return SyntaxNode::new(name);
        }
        if node.children.len() == 0 {
            self.raise(ErrorKind::Missing, name);
            return SyntaxNode::new(name);
        }
        let wanted = name.to_owned();
        let matches = match &node.children[0] {
            SyntaxElement::Node(found) => {
                if found.name != wanted {
                    self.raise_name(name, &found.name);
                    false
                } else {
                    true
                }
            },
            _ => {
                self.raise(ErrorKind::WrongShape, name);
                false
            },
        };
        if matches {
            match node.take_first() {
                SyntaxElement::Node(sub) => {
                    proof {
                        lemma_node_view(sub);
                    }
                    sub
                },
                _ => SyntaxNode::new(name),
            }
        } else {
            SyntaxNode::new(name)
        }
    }

    fn end_subnode(&mut self, node: &mut SyntaxNode, name: &str, sub: SyntaxNode) {
    }

    fn payload(&mut self, node: &mut SyntaxNode, name: &str) {
        if self.failed() {
            return ;
        }
        if node.children.len() == 0 {
            self.raise(ErrorKind::Missing, name);
            return ;
        }
        let wanted = name.to_owned();
        match &node.children[0] {
            SyntaxElement::Payload(found) => {
                if found.name != wanted {
                    self.raise_name(name, &found.name);
                } else {
                    self.write_payload(&found.data);
                    let _ = node.take_first();
                }
            },
            _ => {
                self.raise(ErrorKind::WrongShape, name);
            },
        }
    }

    fn more_data(&self, node: &SyntaxNode) -> (more: bool) {
        if self.failed() {
            return false;
        }
        let len = node.children.len();
        if len == 0 {
            false
        } else if len == 1 {
            match &node.children[0] {
                SyntaxElement::Payload(_) => false,
                _ => true,
            }
        } else {
            true
        }
    }

    fn raise(&mut self, kind: ErrorKind, name: &str) {
        BitstreamWriter::raise(self, kind, name)
    }

    fn failed(&self) -> (failed: bool) {
        BitstreamWriter::failed(self)
    }
}

/// Whether `val` has a code as a field of this type, whatever the width.
pub fn can_encode(field_type: FieldType, val: i32) -> (can: bool)
    ensures
        can == (forall|n: u8| n <= 64 ==> encodable(field_type, n, val)),
        forall|n: u8| n <= 64 ==> can == #[trigger] encodable(field_type, n, val),
{
    assert(encodable(field_type, 0, val) == encodable(field_type, 64, val));
    match field_type {
        FieldType::UnsignedExpGolomb => val != -1,
        FieldType::SignedExpGolomb => -0x4000_0000 < val && val <= 0x4000_0000,
        _ => true,
    }
}

/// A number below `2^n` has at most `n` bits.
pub proof fn lemma_bit_width_bound(p: int, n: nat)
    requires
        p < pow2(n),
    ensures
        bit_width(p) <= n,
        p > 0 ==> bit_width(p) >= 1,
    decreases n,
{
    vstd::arithmetic::power2::lemma2_to64();
    if p > 0 {
        if n == 0 {
        } else {
            vstd::arithmetic::power2::lemma_pow2_unfold(n);
            lemma_bit_width_bound(p / 2, (n - 1) as nat);
        }
    }
}

} // verus!
