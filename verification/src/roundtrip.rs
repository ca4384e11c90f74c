//! Encoding what was decoded gives back the bits that were decoded: the
//! relation between a reader's walk and the writer's walk over the tree that
//! the reader built, and that each step keeps it.

use crate::bits::bits_of;
use crate::codec::{decode_field, legal_width, FieldType};
use crate::codec_laws::{is_canonical, lemma_write_after_read};
use crate::error::ErrorKind;
use crate::grammar::subnode;
use crate::machine::Walk;
use crate::machine_laws::lemma_payload_restored;
use crate::tree::Element;
use vstd::prelude::*;

verus! {

/// A reader's walk that has not failed.
pub open spec fn reader_ok(r: Walk) -> bool {
    r.wf() && !r.m.writing && !r.failed()
}

/// A writer's walk that has not failed.
pub open spec fn writer_ok(w: Walk) -> bool {
    w.wf() && w.m.writing && !w.failed()
}

/// Whether the reader's walk `e` can have come from the reader's walk `r`
/// by reading on: neither has failed, they read the same unit, `e` is not
/// behind `r`, and the children of `r` are the first children of `e`.
pub open spec fn reaches(r: Walk, e: Walk) -> bool {
    &&& !r.m.writing
    &&& !r.failed()
    &&& reader_ok(e)
    &&& r.m.bytes == e.m.bytes
    &&& r.m.out == e.m.out
    &&& r.m.pos <= e.m.pos
    &&& r.kids.len() <= e.kids.len()
    &&& forall|i: int| 0 <= i < r.kids.len() ==> e.kids[i] == r.kids[i]
}

/// Where a reader and the writer that follows it began: the reader's
/// cursor, and what the writer had written.
pub struct Origin {
    pub pos: nat,
    pub out: Seq<bool>,
}

/// Whether the writer's walk `w` follows the reader's walk `r` on its way
/// to `e`: it has written what the reader has read since they began, at the
/// same place within a byte, and it has before it the children that the
/// reader appends from `r` on to `e`, and then `tail`.
pub open spec fn follows(w: Walk, r: Walk, e: Walk, tail: Seq<Element>, from: Origin) -> bool {
    &&& reaches(r, e)
    &&& writer_ok(w)
    &&& from.pos <= r.m.pos
    &&& from.out.len() % 8 == from.pos % 8
    &&& w.m.out == from.out + bits_of(r.m.bytes).subrange(from.pos as int, r.m.pos as int)
    &&& w.kids == e.kids.skip(r.kids.len() as int) + tail
}

/// Whether a fixed-width field is at most 32 bits wide: such a field is
/// canonical whatever bits it holds.
pub open spec fn is_narrow(field_type: FieldType, n: u8) -> bool {
    field_type == FieldType::UnsignedInt || field_type == FieldType::SignedInt ==> n <= 32
}

/// Whether the field that the reader's walk `r` stands before holds no
/// more than its value says: a fixed-width field of more than 32 bits
/// repeats the highest of its low 32 bits in the bits above them.
pub open spec fn reads_canonical(r: Walk, field_type: FieldType, n: u8) -> bool {
    is_canonical(field_type, n, r.m.rest())
}

/// A walk reaches what the walk after a field step reaches.
pub proof fn lemma_field_back(r: Walk, name: Seq<char>, field_type: FieldType, n: u8, e: Walk)
    requires
        reaches(r.field(name, field_type, n), e),
    ensures
        reaches(r, e),
        e.kids.len() > r.kids.len(),
        e.kids[r.kids.len() as int] == (Element::Field {
            name,
            val: r.field_value(name, field_type, n),
        }),
{
    let r1 = r.field(name, field_type, n);
    assert(r1.kids[r.kids.len() as int] == e.kids[r.kids.len() as int]);
    assert forall|i: int| 0 <= i < r.kids.len() implies e.kids[i] == r.kids[i] by {
        assert(r1.kids[i] == r.kids[i]);
    }
}

/// The writer that follows a reader still follows it after a field step
/// of both, and is handed the value that the reader was handed.
pub proof fn lemma_field_step(
    w: Walk,
    r: Walk,
    e: Walk,
    tail: Seq<Element>,
    from: Origin,
    name: Seq<char>,
    field_type: FieldType,
    n: u8,
)
    requires
        follows(w, r, e, tail, from),
        reaches(r.field(name, field_type, n), e),
        legal_width(field_type, n),
        reads_canonical(r, field_type, n),
    ensures
        follows(w.field(name, field_type, n), r.field(name, field_type, n), e, tail, from),
        w.field_value(name, field_type, n) == r.field_value(name, field_type, n),
{
    lemma_field_back(r, name, field_type, n, e);
    let ahead = r.m.rest();
    let all = bits_of(r.m.bytes);
    lemma_write_after_read(field_type, n, ahead);
    let (val, used) = decode_field(field_type, n, ahead)->Some_0;
    let r1 = r.field(name, field_type, n);
    let w1 = w.field(name, field_type, n);
    assert(w.kids[0] == e.kids[r.kids.len() as int]);
    assert(ahead.take(used as int) =~= all.subrange(r.m.pos as int, r1.m.pos as int));
    assert(w1.m.out =~= from.out + all.subrange(from.pos as int, r1.m.pos as int));
    assert(w1.kids =~= e.kids.skip(r1.kids.len() as int) + tail);
}

/// A walk reaches what the walk after a payload step reaches.
pub proof fn lemma_payload_back(r: Walk, name: Seq<char>, e: Walk)
    requires
        reaches(r.payload(name), e),
    ensures
        reaches(r, e),
        e.kids.len() > r.kids.len(),
        e.kids[r.kids.len() as int] is Payload,
        e.m.pos == 8 * e.m.bytes.len(),
{
    crate::reader::lemma_rest(r.m.bytes, r.m.pos);
    let r1 = r.payload(name);
    assert(r1.kids[r.kids.len() as int] == e.kids[r.kids.len() as int]);
    assert forall|i: int| 0 <= i < r.kids.len() implies e.kids[i] == r.kids[i] by {
        assert(r1.kids[i] == r.kids[i]);
    }
}

/// The writer that follows a reader still follows it after a payload step
/// of both, and the reader is at the end of its unit.
pub proof fn lemma_payload_step(
    w: Walk,
    r: Walk,
    e: Walk,
    tail: Seq<Element>,
    from: Origin,
    name: Seq<char>,
)
    requires
        follows(w, r, e, tail, from),
        reaches(r.payload(name), e),
    ensures
        follows(w.payload(name), r.payload(name), e, tail, from),
        r.payload(name).m.pos == 8 * r.m.bytes.len(),
{
    lemma_payload_back(r, name, e);
    let all = bits_of(r.m.bytes);
    let r1 = r.payload(name);
    let w1 = w.payload(name);
    assert(r1.kids[r.kids.len() as int] == e.kids[r.kids.len() as int]);
    assert(w.kids[0] == e.kids[r.kids.len() as int]);
    lemma_payload_restored(r.m.bytes, r.m.pos, w.m.out.len());
    assert(all.skip(r.m.pos as int) =~= all.subrange(r.m.pos as int, r1.m.pos as int));
    assert(w1.m.out =~= from.out + all.subrange(from.pos as int, r1.m.pos as int));
    assert(w1.kids =~= e.kids.skip(r1.kids.len() as int) + tail);
}

/// What holds of every field step, payload step and failure on the way
/// to `e`: a walk reaches what the walk after the step reaches, and the
/// writer that follows a reader still follows it after the step of both.
pub proof fn lemma_steps(e: Walk, tail: Seq<Element>, from: Origin)
    ensures
        forall|x: Walk, name: Seq<char>, ft: FieldType, n: u8|
            reaches(#[trigger] x.field(name, ft, n), e) ==> reaches(x, e),
        forall|x: Walk, name: Seq<char>|
            reaches(#[trigger] x.payload(name), e) ==> reaches(x, e) && e.m.pos == 8
                * e.m.bytes.len(),
        forall|x: Walk, kind: ErrorKind, name: Seq<char>| !reaches(#[trigger] x.raise(kind, name), e),
        forall|y: Walk, x: Walk, name: Seq<char>, ft: FieldType, n: u8|
            follows(y, x, e, tail, from) && reaches(x.field(name, ft, n), e) && legal_width(ft, n)
                && reads_canonical(x, ft, n) ==> follows(
                #[trigger] y.field(name, ft, n),
                #[trigger] x.field(name, ft, n),
                e,
                tail,
                from,
            ) && y.field_value(name, ft, n) == x.field_value(name, ft, n),
        forall|y: Walk, x: Walk, name: Seq<char>|
            follows(y, x, e, tail, from) && reaches(x.payload(name), e) ==> follows(
                #[trigger] y.payload(name),
                #[trigger] x.payload(name),
                e,
                tail,
                from,
            ),
{
    assert forall|x: Walk, name: Seq<char>, ft: FieldType, n: u8|
        reaches(#[trigger] x.field(name, ft, n), e) implies reaches(x, e) by {
        lemma_field_back(x, name, ft, n, e);
    }
    assert forall|x: Walk, name: Seq<char>| reaches(#[trigger] x.payload(name), e) implies reaches(
        x,
        e,
    ) && e.m.pos == 8 * e.m.bytes.len() by {
        lemma_payload_back(x, name, e);
    }
    assert forall|y: Walk, x: Walk, name: Seq<char>, ft: FieldType, n: u8|
        follows(y, x, e, tail, from) && reaches(x.field(name, ft, n), e) && legal_width(ft, n)
            && reads_canonical(x, ft, n) implies follows(
        #[trigger] y.field(name, ft, n),
        #[trigger] x.field(name, ft, n),
        e,
        tail,
        from,
    ) && y.field_value(name, ft, n) == x.field_value(name, ft, n) by {
        lemma_field_step(y, x, e, tail, from, name, ft, n);
    }
    assert forall|y: Walk, x: Walk, name: Seq<char>|
        follows(y, x, e, tail, from) && reaches(x.payload(name), e) implies follows(
        #[trigger] y.payload(name),
        #[trigger] x.payload(name),
        e,
        tail,
        from,
    ) by {
        lemma_payload_step(y, x, e, tail, from, name);
    }
}

/// A reader's walk over a subnode that was closed on the way to `e` has
/// not failed, and reaches itself.
pub proof fn lemma_closed(r: Walk, name: Seq<char>, done: Walk, e: Walk)
    requires
        reaches(subnode(r, name, done), e),
    ensures
        reaches(done, done),
{
}

/// A subnode on the way to `e`, where `done` is the reader's walk over the
/// subnode at its end and `written` the writer's: the walk before the
/// subnode reaches `e`, and the writer that follows the reader still
/// follows it after the subnode of both, where it followed the reader
/// inside the subnode and took all its children.
pub proof fn lemma_subnode(
    w: Walk,
    r: Walk,
    name: Seq<char>,
    done: Walk,
    written: Walk,
    e: Walk,
    tail: Seq<Element>,
    from: Origin,
)
    requires
        reaches(subnode(r, name, done), e),
        reaches(r.inner(name), done),
        follows(w.inner(name), r.inner(name), done, Seq::empty(), from) ==> follows(
            written,
            done,
            done,
            Seq::empty(),
            from,
        ),
    ensures
        reaches(r, e),
        follows(w, r, e, tail, from) ==> follows(
            w.inner(name),
            r.inner(name),
            done,
            Seq::empty(),
            from,
        ) && follows(subnode(w, name, written), subnode(r, name, done), e, tail, from),
{
    let r1 = subnode(r, name, done);
    let w1 = subnode(w, name, written);
    assert(r1.kids[r.kids.len() as int] == e.kids[r.kids.len() as int]);
    assert forall|i: int| 0 <= i < r.kids.len() implies e.kids[i] == r.kids[i] by {
        assert(r1.kids[i] == r.kids[i]);
    }
    if follows(w, r, e, tail, from) {
        assert(w.kids[0] == e.kids[r.kids.len() as int]);
        assert(w.inner(name).kids =~= done.kids.skip(0) + Seq::<Element>::empty());
        assert(follows(w.inner(name), r.inner(name), done, Seq::empty(), from));
        assert(w1.kids =~= e.kids.skip(r1.kids.len() as int) + tail);
    }
}

} // verus!
