//! A reader of bits and fields over a borrowed byte slice.

use crate::bits::{accumulate, bit_at, bits_of, lemma_accumulate_shift, lemma_bit_at_u8, number};
use crate::codec::{decode_field, exp_golomb, leading_zeros, legal_width, wrap32, FieldType};
use crate::error::{fault_of, ErrorKind, SyntaxError};
use crate::machine::{count_ones, payload_data, Machine};
use crate::processor::BitstreamProcessor;
use crate::tree::{lemma_node_view, SyntaxElement, SyntaxField, SyntaxNode, SyntaxPayload};
use vstd::arithmetic::div_mod::{lemma_fundamental_div_mod, lemma_mod_multiples_vanish};
use vstd::arithmetic::power2::{lemma2_to64, lemma_pow2_strictly_increases, pow2};
use vstd::bits::{lemma_u64_shl_is_mul, lemma_u8_shl_is_mul, lemma_u8_shr_is_div};
use vstd::prelude::*;

verus! {

/// Reads a unit bit by bit, most significant bit of each byte first.
pub struct BitstreamReader<'a> {
    buffer: &'a [u8],
    byte_index: usize,
    bit_offset: u8,
    fault: Option<SyntaxError>,
}

impl<'a> View for BitstreamReader<'a> {
    type V = Machine;

    closed spec fn view(&self) -> Machine {
        Machine {
            writing: false,
            bytes: self.buffer@,
            pos: (8 * self.byte_index + self.bit_offset) as nat,
            out: Seq::empty(),
            fault: fault_of(self.fault),
        }
    }
}

/// What a read leaves behind and hands back: on success the value, with the
/// cursor behind the field; otherwise nothing, with the reader as it was.
pub open spec fn read_outcome(
    before: Machine,
    field_type: FieldType,
    n: u8,
    after: Machine,
    r: Option<i32>,
) -> bool {
    match decode_field(field_type, n, before.rest()) {
        Some((val, used)) => r == Some(val) && after == before.advance(used),
        None => r is None && after == before,
    }
}

/// The bits ahead of a cursor: their number, and the first of them.
pub proof fn lemma_rest(bytes: Seq<u8>, pos: nat)
    requires
        pos <= 8 * bytes.len(),
    ensures
        bits_of(bytes).skip(pos as int).len() == 8 * bytes.len() - pos,
        pos < 8 * bytes.len() ==> bits_of(bytes).skip(pos as int)[0] == bit_at(
            bytes[(pos / 8) as int] as int,
            (7 - pos % 8) as nat,
        ),
{
}

/// Where the first `k` bits of `s` are zero, `s` has at least `k` leading
/// zeros, and exactly `k` where the next bit is one or `s` ends.
pub proof fn lemma_leading_zeros(s: Seq<bool>, k: nat)
    requires
        k <= s.len(),
        forall|i: int| 0 <= i < k ==> !s[i],
    ensures
        leading_zeros(s) >= k,
        k == s.len() || s[k as int] ==> leading_zeros(s) == k,
    decreases k,
{
    if k > 0 {
        let t = s.skip(1);
        assert forall|i: int| 0 <= i < k - 1 implies !t[i] by {
            assert(t[i] == s[i + 1]);
        }
        lemma_leading_zeros(t, (k - 1) as nat);
    }
}

/// Wrapping to 32 bits after each shift gives what wrapping once at the
/// end gives.
pub proof fn lemma_wrap32_step(a: int, bit: int)
    ensures
        wrap32(2 * wrap32(a) + bit) == wrap32(2 * a + bit),
{
    let m = 0x1_0000_0000int;
    let h = 0x8000_0000int;
    let q = (a + h) / m;
    lemma_fundamental_div_mod(a + h, m);
    let w = (a + h) % m - h;
    assert(w == wrap32(a));
    assert(2 * w + bit + h == m * (-2 * q) + (2 * a + bit + h)) by (nonlinear_arith)
        requires
            a + h == m * q + (w + h),
    ;
    lemma_mod_multiples_vanish(-2 * q, 2 * a + bit + h, m);
}

/// A code with 32 zero bits or more at its head, or with nothing but zero
/// bits, has no value.
pub proof fn lemma_code_too_long(s: Seq<bool>)
    requires
        leading_zeros(s) >= 32 || leading_zeros(s) == s.len(),
    ensures
        decode_field(FieldType::UnsignedExpGolomb, 0, s) is None,
        decode_field(FieldType::SignedExpGolomb, 0, s) is None,
{
    let l = leading_zeros(s);
    if s.len() >= 2 * l + 1 {
        lemma_accumulate_shift(0, s.subrange(l as int + 1, 2 * l as int + 1));
        lemma2_to64();
        if l > 32 {
            lemma_pow2_strictly_increases(32, l);
        }
    }
}

/// The parts of a code with at most 31 zero bits at its head: the bits after
/// the one bit spell a number below `2^l`, which fits 31 bits.
pub proof fn lemma_code_parts(s: Seq<bool>)
    requires
        leading_zeros(s) <= 31,
    ensures
        s.len() >= 2 * leading_zeros(s) + 1 ==> ({
            let l = leading_zeros(s);
            let x = number(s.subrange(l as int + 1, 2 * l as int + 1));
            &&& 0 <= x < pow2(l) <= 0x8000_0000
            &&& 1 <= pow2(l)
            &&& wrap32(x) == x
            &&& exp_golomb(s) == Some((pow2(l) + x - 1, (2 * l + 1) as nat))
        }),
{
    let l = leading_zeros(s);
    if s.len() >= 2 * l + 1 {
        lemma_accumulate_shift(0, s.subrange(l as int + 1, 2 * l as int + 1));
    }
    lemma2_to64();
    if l < 31 {
        lemma_pow2_strictly_increases(l, 31);
    }
    vstd::arithmetic::power2::lemma_pow2_pos(l);
}

impl<'a> BitstreamReader<'a> {
    /// The cursor is inside the unit or at its end.
    pub closed spec fn wf(&self) -> bool {
        &&& self.byte_index <= self.buffer@.len()
        &&& self.bit_offset < 8
        &&& self.byte_index == self.buffer@.len() ==> self.bit_offset == 0
    }

    /// A reader at the first bit of `buffer`.
    pub fn new(buffer: &'a [u8]) -> (reader: BitstreamReader<'a>)
        ensures
            reader.wf(),
            reader@ == Machine::reading(buffer@, 0),
    {
        BitstreamReader { buffer, byte_index: 0, bit_offset: 0, fault: None }
    }

    /// The bit under the cursor, or `None` at the end of the unit.
    pub fn peek_bit(&self) -> (r: Option<i32>)
        requires
            self.wf(),
        ensures
                        r is None <==> self@.rest().len() == 0,
            r is Some ==> r == Some(if self@.rest()[0] { 1i32 } else { 0i32 }),
    {
        proof {
            lemma_rest(self.buffer@, self@.pos);
        }
        if self.byte_index >= self.buffer.len() {
            None
        } else {
            let byte = self.buffer[self.byte_index];
            let shift: u8 = 7 - self.bit_offset;
            let bit = (byte >> shift) & 1;
            proof {
                lemma_u8_shr_is_div(byte, shift);
                let x = byte >> shift;
                assert(x & 1 == x % 2) by (bit_vector);
            }
            Some(bit as i32)
        }
    }

    /// Reads one bit.
    pub fn read_bit(&mut self) -> (r: Option<i32>)
        requires
            old(self).wf(),
        ensures
            final(self).wf(),
            read_outcome(old(self)@, FieldType::Boolean, 0, final(self)@, r),
    {
        proof {
            lemma_rest(self.buffer@, self@.pos);
        }
        match self.peek_bit() {
            None => None,
            Some(bit) => {
                assert(self.byte_index < self.buffer.len());
                if self.bit_offset == 7 {
                    self.bit_offset = 0;
                    self.byte_index = self.byte_index + 1;
                } else {
                    self.bit_offset = self.bit_offset + 1;
                }
                Some(bit)
            },
        }
    }

    /// Shifts the next `n` bits into `init_val`, keeping the low 32 bits.
    pub fn read_bits(&mut self, n: u8, init_val: i32) -> (r: Option<i32>)
        requires
            old(self).wf(),
            n <= 64,
        ensures
            final(self).wf(),
            old(self)@.rest().len() < n ==> r is None && final(self)@ == old(self)@,
            old(self)@.rest().len() >= n ==> r == Some(
                wrap32(accumulate(init_val as int, old(self)@.rest().take(n as int))),
            ) && final(self)@ == old(self)@.advance(n as nat),
    {
        let start_byte = self.byte_index;
        let start_bit = self.bit_offset;
        let ghost before = self@;
        let ghost ahead = self@.rest();
        let mut acc: i32 = init_val;
        let mut i: u8 = 0;
        proof {
            lemma_rest(self.buffer@, self@.pos);
            assert(ahead.take(0) =~= Seq::<bool>::empty());
        }
        while i < n
            invariant
                i <= n,
                self.wf(),
                before.wf(),
                before.pos <= 8 * before.bytes.len(),
                ahead == before.rest(),
                ahead.len() >= i,
                self@ == before.advance(i as nat),
                acc == wrap32(accumulate(init_val as int, ahead.take(i as int))),
                old(self).wf(),
                before == old(self)@,
                start_byte == old(self).byte_index,
                start_bit == old(self).bit_offset,
            decreases n - i,
        {
            proof {
                lemma_rest(self.buffer@, self@.pos);
            }
            match self.read_bit() {
                None => {
                    self.byte_index = start_byte;
                    self.bit_offset = start_bit;
                    return None;
                },
                Some(bit) => {
                    let next = (acc << 1) | bit;
                    proof {
                        assert(next == wrap32(2 * acc + bit)) by (bit_vector)
                            requires
                                next == (acc << 1) | bit,
                                bit == 0 || bit == 1,
                        ;
                        let s = ahead.take(i + 1);
                        assert(s.drop_last() =~= ahead.take(i as int));
                        assert(s.last() == ahead[i as int]);
                        assert(before.advance(i as nat).rest()[0] == ahead[i as int]);
                        lemma_wrap32_step(
                            accumulate(init_val as int, ahead.take(i as int)),
                            bit as int,
                        );
                    }
                    acc = next;
                    i = i + 1;
                },
            }
        }
        Some(acc)
    }

    /// Reads zero bits up to and including the one bit that ends them, and
    /// hands back their number; `None` where the unit ends first or 32 zero
    /// bits come first.
    fn read_zeros(&mut self) -> (r: Option<u8>)
        requires
            old(self).wf(),
        ensures
            final(self).wf(),
            match r {
                Some(l) => l <= 31 && leading_zeros(old(self)@.rest()) == l && old(self)@.rest().len()
                    > l && final(self)@ == old(self)@.advance((l + 1) as nat),
                None => final(self)@ == old(self)@ && (leading_zeros(old(self)@.rest()) >= 32
                    || leading_zeros(old(self)@.rest()) == old(self)@.rest().len()),
            },
    {
        let start_byte = self.byte_index;
        let start_bit = self.bit_offset;
        let ghost before = self@;
        let ghost ahead = self@.rest();
        let mut zeros: u8 = 0;
        proof {
            lemma_rest(self.buffer@, self@.pos);
        }
        loop
            invariant
                zeros <= 31,
                self.wf(),
                old(self).wf(),
                before == old(self)@,
                ahead == before.rest(),
                before.pos <= 8 * before.bytes.len(),
                start_byte == old(self).byte_index,
                start_bit == old(self).bit_offset,
                forall|i: int| 0 <= i < zeros ==> !ahead[i],
                ahead.len() >= zeros,
                self@ == before.advance(zeros as nat),
            decreases 32 - zeros,
        {
            proof {
                lemma_rest(self.buffer@, self@.pos);
            }
            match self.read_bit() {
                None => {
                    proof {
                        lemma_leading_zeros(ahead, zeros as nat);
                    }
                    self.byte_index = start_byte;
                    self.bit_offset = start_bit;
                    return None;
                },
                Some(bit) => {
                    assert(before.advance(zeros as nat).rest()[0] == ahead[zeros as int]);
                    if bit == 1 {
                        proof {
                            lemma_leading_zeros(ahead, zeros as nat);
                        }
                        return Some(zeros);
                    } else if zeros == 31 {
                        proof {
                            lemma_leading_zeros(ahead, 32);
                        }
                        self.byte_index = start_byte;
                        self.bit_offset = start_bit;
                        return None;
                    } else {
                        zeros = zeros + 1;
                    }
                },
            }
        }
    }

    /// Reads the code number of an exp-Golomb code, if it is at most `i32::MAX`.
    pub fn read_code(&mut self) -> (r: Option<i32>)
        requires
            old(self).wf(),
        ensures
            final(self).wf(),
            read_outcome(old(self)@, FieldType::UnsignedExpGolomb, 0, final(self)@, r),
    {
        let start_byte = self.byte_index;
        let start_bit = self.bit_offset;
        let ghost ahead = self@.rest();
        proof {
            lemma_rest(self.buffer@, self@.pos);
        }
        match self.read_zeros() {
            None => {
                proof {
                    lemma_code_too_long(ahead);
                }
                None
            },
            Some(zeros) => {
                proof {
                    lemma_rest(self.buffer@, self@.pos);
                    lemma_code_parts(ahead);
                    if ahead.len() >= 2 * zeros + 1 {
                        assert(self@.rest().take(zeros as int) =~= ahead.subrange(
                            zeros as int + 1,
                            2 * zeros as int + 1,
                        ));
                    }
                }
                match self.read_bits(zeros, 0) {
                    None => {
                        self.byte_index = start_byte;
                        self.bit_offset = start_bit;
                        None
                    },
                    Some(x) => {
                        proof {
                            lemma_u64_shl_is_mul(1, zeros as u64);
                        }
                        let code: u64 = (1u64 << zeros) + (x as u64) - 1;
                        if code > 0x7fff_ffff {
                            self.byte_index = start_byte;
                            self.bit_offset = start_bit;
                            None
                        } else {
                            Some(code as i32)
                        }
                    },
                }
            },
        }
    }

    /// Reads `n` bits as a two's complement number.
    pub fn read_signed(&mut self, n: u8) -> (r: Option<i32>)
        requires
            old(self).wf(),
            1 <= n <= 64,
        ensures
            final(self).wf(),
            read_outcome(old(self)@, FieldType::SignedInt, n, final(self)@, r),
    {
        let ghost ahead = self@.rest();
        let start_byte = self.byte_index;
        let start_bit = self.bit_offset;
        proof {
            lemma_rest(self.buffer@, self@.pos);
        }
        match self.read_bit() {
            None => None,
            Some(sign) => {
                proof {
                    lemma_rest(self.buffer@, self@.pos);
                    if ahead.len() >= n {
                        assert(self@.rest().take(n - 1) =~= ahead.subrange(1, n as int));
                    }
                }
                match self.read_bits(n - 1, if sign == 1 { -1 } else { 0 }) {
                    None => {
                        self.byte_index = start_byte;
                        self.bit_offset = start_bit;
                        None
                    },
                    Some(val) => Some(val),
                }
            },
        }
    }

    /// Reads a signed exp-Golomb code.
    pub fn read_signed_code(&mut self) -> (r: Option<i32>)
        requires
            old(self).wf(),
        ensures
            final(self).wf(),
            read_outcome(old(self)@, FieldType::SignedExpGolomb, 0, final(self)@, r),
    {
        proof {
            let ahead = self@.rest();
            if leading_zeros(ahead) <= 31 {
                lemma_code_parts(ahead);
            } else {
                lemma_code_too_long(ahead);
            }
        }
        match self.read_code() {
            None => None,
            Some(k) => if k % 2 == 1 {
                Some(k / 2 + 1)
            } else {
                Some(-(k / 2))
            },
        }
    }

    /// Reads one field of the given type; `n` is the width of a fixed-width
    /// field and is ignored for the others.
    pub fn read(&mut self, field_type: FieldType, n: u8) -> (r: Option<i32>)
        requires
            old(self).wf(),
            legal_width(field_type, n),
        ensures
            final(self).wf(),
            read_outcome(old(self)@, field_type, n, final(self)@, r),
    {
        match field_type {
            FieldType::Boolean => self.read_bit(),
            FieldType::UnsignedInt => self.read_bits(n, 0),
            FieldType::SignedInt => self.read_signed(n),
            FieldType::UnsignedExpGolomb => self.read_code(),
            FieldType::SignedExpGolomb => self.read_signed_code(),
        }
    }

    /// Whether a failure is recorded.
    pub fn failed(&self) -> (failed: bool)
        ensures
            failed == self@.failed(),
    {
        self.fault.is_some()
    }

    /// Records a failure, unless one is recorded already.
    pub fn raise(&mut self, kind: ErrorKind, name: &str)
        requires
            old(self).wf(),
        ensures
            final(self).wf(),
            final(self)@ == old(self)@.raise(kind, name@),
    {
        if self.fault.is_none() {
            self.fault = Some(SyntaxError::new(kind, name));
        }
    }

    /// The failure recorded, if any.
    pub fn fault(&self) -> (fault: Option<SyntaxError>)
        ensures
            fault_of(fault) == self@.fault,
    {
        match &self.fault {
            Some(e) => Some(e.duplicate()),
            None => None,
        }
    }

    /// Takes all that is left of the unit: the rest of the byte under the
    /// cursor, if the cursor stands inside one, as the low bits of a byte of
    /// its own, and then every byte that follows.
    pub fn read_payload(&mut self) -> (data: Vec<u8>)
        requires
            old(self).wf(),
        ensures
            final(self).wf(),
            data@ == payload_data(old(self)@.bytes, old(self)@.pos),
            final(self)@ == old(self)@.advance(old(self)@.rest().len()),
    {
        let mut data: Vec<u8> = Vec::new();
        let len = self.buffer.len();
        let mut i: usize = self.byte_index;
        proof {
            lemma_rest(self.buffer@, self@.pos);
        }
        if self.bit_offset != 0 {
            let left: u8 = 8 - self.bit_offset;
            proof {
                lemma2_to64();
                lemma_pow2_strictly_increases(left as nat, 8);
                lemma_u8_shl_is_mul(1, left);
            }
            data.push(self.buffer[i] % (1u8 << left));
            i = i + 1;
        }
        let ghost head = data@;
        let first: usize = i;
        while i < len
            invariant
                first <= i <= len,
                len == self.buffer@.len(),
                data@ == head + self.buffer@.subrange(first as int, i as int),
            decreases len - i,
        {
            data.push(self.buffer[i]);
            proof {
                assert(self.buffer@.subrange(first as int, i as int).push(self.buffer@[i as int])
                    =~= self.buffer@.subrange(first as int, i + 1));
            }
            i = i + 1;
        }
        proof {
            assert(self.buffer@.subrange(first as int, len as int) =~= self.buffer@.skip(
                first as int,
            ));
            assert(data@ =~= payload_data(old(self)@.bytes, old(self)@.pos));
        }
        self.byte_index = len;
        self.bit_offset = 0;
        data
    }

    /// Whether more than the closing bits are ahead: false exactly where the
    /// cursor stands in the last byte and a single one bit is left.
    pub fn more_to_read(&self) -> (more: bool)
        requires
            self.wf(),
        ensures
            more == self@.more_to_read(),
    {
        let len = self.buffer.len();
        if len == 0 || self.byte_index != len - 1 {
            return true;
        }
        let byte = self.buffer[self.byte_index];
        let ghost ahead = self@.rest();
        let mut ones: u8 = 0;
        let mut k: u8 = self.bit_offset;
        proof {
            lemma_rest(self.buffer@, self@.pos);
            assert(ahead.take(0) =~= Seq::<bool>::empty());
        }
        while k < 8
            invariant
                self.bit_offset <= k <= 8,
                ahead.len() == 8 - self.bit_offset,
                ahead == self@.rest(),
                self.wf(),
                len == self.buffer@.len(),
                len > 0,
                self.byte_index == len - 1,
                byte == self.buffer@[self.byte_index as int],
                ones == count_ones(ahead.take(k - self.bit_offset)),
                ones <= k,
            decreases 8 - k,
        {
            let shift: u8 = 7 - k;
            proof {
                lemma_bit_at_u8(byte, shift);
                let s = ahead.take(k + 1 - self.bit_offset);
                assert(s.drop_last() =~= ahead.take(k - self.bit_offset));
                assert(s.last() == ahead[k - self.bit_offset]);
                assert(ahead[k - self.bit_offset] == bit_at(byte as int, shift as nat));
            }
            if (byte >> shift) & 1 == 1 {
                ones = ones + 1;
            }
            k = k + 1;
        }
        proof {
            assert(ahead.take(8 - self.bit_offset) =~= ahead);
        }
        ones != 1
    }
}

impl<'a> BitstreamProcessor for BitstreamReader<'a> {
    open spec fn machine(&self) -> Machine {
        self@
    }

    open spec fn ready(&self) -> bool {
        self.wf() && !self@.writing && self@.wf()
    }

    proof fn lemma_ready(&self) {
    }

    fn field(&mut self, node: &mut SyntaxNode, name: &str, field_type: FieldType, n: u8) -> (val:
        i32) {
        if self.failed() {
            return 0;
        }
        match self.read(field_type, n) {
            None => {
                self.raise(ErrorKind::Unreadable, name);
                0
            },
            Some(val) => {
                node.append(SyntaxElement::Field(SyntaxField { name: name.to_owned(), val }));
                val
            },
        }
    }

    fn subnode(&mut self, node: &mut SyntaxNode, name: &str) -> (sub: SyntaxNode) {
        SyntaxNode::new(name)
    }

    fn end_subnode(&mut self, node: &mut SyntaxNode, name: &str, sub: SyntaxNode) {
        if !self.failed() {
            let mut sub = sub;
            sub.name = name.to_owned();
            proof {
                lemma_node_view(sub);
            }
            node.append(SyntaxElement::Node(sub));
        }
    }

    fn payload(&mut self, node: &mut SyntaxNode, name: &str) {
        if !self.failed() {
            let data = self.read_payload();
            node.append(SyntaxElement::Payload(SyntaxPayload { name: name.to_owned(), data }));
        }
    }

    fn more_data(&self, node: &SyntaxNode) -> (more: bool) {
        if self.failed() {
            false
        } else {
            self.more_to_read()
        }
    }

    fn raise(&mut self, kind: ErrorKind, name: &str) {
        BitstreamReader::raise(self, kind, name)
    }

    fn failed(&self) -> (failed: bool) {
        BitstreamReader::failed(self)
    }
}

} // verus!
