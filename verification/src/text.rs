//! Reading the text form of syntax trees: what a row means, and how rows
//! nest into trees.

use crate::error::{ErrorKind, Fault, SyntaxError};
use crate::tree::{
    forest, lemma_node_view, Element, SyntaxElement, SyntaxField, SyntaxNode, SyntaxPayload,
};
use std::collections::VecDeque;
use vstd::string::{StrSliceExecFns, StringExecFns};
use vstd::prelude::*;

verus! {

/// Whether `c` is white space: a character with the Unicode property
/// `White_Space`.
pub open spec fn is_space(c: char) -> bool {
    let u = c as u32;
    (0x9 <= u <= 0xD) || u == 0x20 || u == 0x85 || u == 0xA0 || u == 0x1680 || (0x2000 <= u
        <= 0x200A) || u == 0x2028 || u == 0x2029 || u == 0x202F || u == 0x205F || u == 0x3000
}

/// The number of white space characters at the head of `s`.
pub open spec fn leading_spaces(s: Seq<char>) -> nat
    decreases s.len(),
{
    if s.len() == 0 || !is_space(s[0]) {
        0
    } else {
        1 + leading_spaces(s.skip(1))
    }
}

/// The number of white space characters at the end of `s`.
pub open spec fn trailing_spaces(s: Seq<char>) -> nat
    decreases s.len(),
{
    if s.len() == 0 || !is_space(s.last()) {
        0
    } else {
        1 + trailing_spaces(s.drop_last())
    }
}

/// `s` without the white space at its head and at its end.
pub open spec fn trim(s: Seq<char>) -> Seq<char> {
    let from = leading_spaces(s);
    let rest = s.skip(from as int);
    rest.take(rest.len() - trailing_spaces(rest))
}

/// The index of the first `c` in `s`, or the length of `s` where there is
/// none.
pub open spec fn index_of(s: Seq<char>, c: char) -> nat
    decreases s.len(),
{
    if s.len() == 0 || s[0] == c {
        0
    } else {
        1 + index_of(s.skip(1), c)
    }
}

/// `s` without any ` {` in it.
pub open spec fn without_brace(s: Seq<char>) -> Seq<char>
    decreases s.len(),
{
    if s.len() == 0 {
        s
    } else if s.len() >= 2 && s[0] == ' ' && s[1] == '{' {
        without_brace(s.skip(2))
    } else {
        seq![s[0]] + without_brace(s.skip(1))
    }
}

/// The value of `c` as a digit in the given radix, which is 10 or 16.
pub open spec fn digit_of(c: char, radix: int) -> Option<int> {
    let u = c as u32 as int;
    if 0x30 <= u <= 0x39 {
        Some(u - 0x30)
    } else if radix == 16 && 0x41 <= u <= 0x46 {
        Some(u - 0x41 + 10)
    } else if radix == 16 && 0x61 <= u <= 0x66 {
        Some(u - 0x61 + 10)
    } else {
        None
    }
}

/// The number that the digits of `s` spell, or `None` where one of its
/// characters is no digit.
pub open spec fn digits_value(s: Seq<char>, radix: int) -> Option<int>
    decreases s.len(),
{
    if s.len() == 0 {
        Some(0)
    } else {
        match (digits_value(s.drop_last(), radix), digit_of(s.last(), radix)) {
            (Some(high), Some(low)) => Some(high * radix + low),
            _ => None,
        }
    }
}

/// The number that `s` spells: a `+`, or a `-` where `signed`, may stand
/// before one or more digits.
pub open spec fn number_of(s: Seq<char>, radix: int, signed: bool) -> Option<int> {
    let negative = signed && s.len() > 0 && s[0] == '-';
    let body = if s.len() > 0 && (s[0] == '+' || negative) {
        s.skip(1)
    } else {
        s
    };
    if body.len() == 0 {
        None
    } else {
        match digits_value(body, radix) {
            Some(v) => Some(
                if negative {
                    -v
                } else {
                    v
                },
            ),
            None => None,
        }
    }
}

/// The byte that `s` spells in hexadecimal.
pub open spec fn byte_of(s: Seq<char>) -> Option<u8> {
    match number_of(s, 16, false) {
        Some(v) => if v <= 255 {
            Some(v as u8)
        } else {
            None
        },
        None => None,
    }
}

/// The signed 32-bit number that `s` spells in decimal.
pub open spec fn int_of(s: Seq<char>) -> Option<i32> {
    match number_of(s, 10, true) {
        Some(v) => if i32::MIN <= v <= i32::MAX {
            Some(v as i32)
        } else {
            None
        },
        None => None,
    }
}

/// The bytes that the tokens of `s` spell, where one blank parts two
/// tokens.
pub open spec fn tokens_of(s: Seq<char>) -> Option<Seq<u8>>
    decreases s.len(),
{
    let k = index_of(s, ' ') as int;
    match byte_of(s.take(k)) {
        None => None,
        Some(b) => if k >= s.len() {
            Some(seq![b])
        } else {
            match tokens_of(s.skip(k + 1)) {
                Some(rest) => Some(seq![b] + rest),
                None => None,
            }
        },
    }
}

/// The bytes between the quotes of a payload: none where nothing stands
/// between them.
pub open spec fn bytes_of(s: Seq<char>) -> Option<Seq<u8>> {
    if s.len() == 0 {
        Some(Seq::empty())
    } else {
        tokens_of(s)
    }
}

/// What a row of text says.
pub enum Row {
    /// `}`: the node at hand ends.
    Close,
    /// `name {`: a node begins.
    Open { name: Seq<char> },
    /// A field or a payload.
    Leaf { element: Element },
    /// A row that says nothing: it holds no colon and is no other row.
    Skip,
    /// A row with a colon that is neither a field nor a payload.
    Bad { fault: Fault },
}

/// What the part of a row from its first colon on says, for the element
/// `name`.
pub open spec fn classify_value(name: Seq<char>, val: Seq<char>) -> Row {
    if val.len() >= 3 && val[1] == ' ' && val[2] == '"' && val.last() == '"' {
        if val.len() < 4 {
            Row::Bad { fault: Fault { kind: ErrorKind::BadHex, name, found: Seq::empty() } }
        } else {
            match bytes_of(val.subrange(3, val.len() - 1)) {
                Some(data) => Row::Leaf { element: Element::Payload { name, data } },
                None => Row::Bad { fault: Fault { kind: ErrorKind::BadHex, name, found: Seq::empty() } },
            }
        }
    } else if val.len() >= 2 && val[1] == ' ' {
        match int_of(val.skip(2)) {
            Some(val) => Row::Leaf { element: Element::Field { name, val } },
            None => Row::Bad { fault: Fault { kind: ErrorKind::BadNumber, name, found: Seq::empty() } },
        }
    } else {
        Row::Bad { fault: Fault { kind: ErrorKind::BadNumber, name, found: Seq::empty() } }
    }
}

/// What a row without white space around it says.
pub open spec fn classify_trimmed(r: Seq<char>) -> Row {
    if r == seq!['}'] {
        Row::Close
    } else if r.len() >= 2 && r[r.len() - 2] == ' ' && r[r.len() - 1] == '{' {
        Row::Open { name: without_brace(r) }
    } else if index_of(r, ':') < r.len() {
        let k = index_of(r, ':') as int;
        classify_value(r.take(k), r.skip(k))
    } else {
        Row::Skip
    }
}

/// What a row says, whatever white space stands around it.
pub open spec fn classify(row: Seq<char>) -> Row {
    classify_trimmed(trim(row))
}

/// A node that has begun and not ended: its name and its children so far.
pub struct Frame {
    pub name: Seq<char>,
    pub kids: Seq<Element>,
}

/// The frames with `element` appended to the children of the last.
pub open spec fn with_kid(stack: Seq<Frame>, element: Element) -> Seq<Frame> {
    stack.drop_last().push(
        Frame { name: stack.last().name, kids: stack.last().kids.push(element) },
    )
}

/// The frames with the last one ended: it becomes a child of the one
/// before it.
pub open spec fn close_last(stack: Seq<Frame>) -> Seq<Frame> {
    with_kid(
        stack.drop_last(),
        Element::Node { name: stack.last().name, children: stack.last().kids },
    )
}

/// The children of the first frame once every other frame has ended.
pub open spec fn unwind(stack: Seq<Frame>) -> Seq<Element>
    decreases stack.len(),
{
    if stack.len() <= 1 {
        stack[0].kids
    } else {
        unwind(close_last(stack))
    }
}

/// The elements that the rows from `i` on add to the frames, and the number
/// of rows read: up to the `}` that ends the first frame, or to the last
/// row, where every node that has not ended ends. A bad row is the failure.
pub open spec fn parse_from(rows: Seq<Seq<char>>, i: int, stack: Seq<Frame>) -> Result<
    (Seq<Element>, int),
    Fault,
>
    decreases rows.len() - i,
{
    if i >= rows.len() {
        Ok((unwind(stack), rows.len() as int))
    } else {
        match classify(rows[i]) {
            Row::Bad { fault } => Err(fault),
            Row::Skip => parse_from(rows, i + 1, stack),
            Row::Leaf { element } => parse_from(rows, i + 1, with_kid(stack, element)),
            Row::Open { name } => parse_from(
                rows,
                i + 1,
                stack.push(Frame { name, kids: Seq::empty() }),
            ),
            Row::Close => if stack.len() <= 1 {
                Ok((stack[0].kids, i + 1))
            } else {
                parse_from(rows, i + 1, close_last(stack))
            },
        }
    }
}

/// The elements at the head of the rows, and the number of rows read.
pub open spec fn parse_rows(rows: Seq<Seq<char>>) -> Result<(Seq<Element>, int), Fault> {
    parse_from(rows, 0, seq![Frame { name: Seq::empty(), kids: Seq::empty() }])
}

/// The rows of a text: what stands between two newlines, before the first
/// and after the last.
pub open spec fn lines(text: Seq<char>) -> Seq<Seq<char>>
    decreases text.len(),
{
    let k = index_of(text, '\n') as int;
    if k >= text.len() {
        seq![text]
    } else {
        seq![text.take(k)] + lines(text.skip(k + 1))
    }
}

/// The trees that a text stands for.
pub open spec fn parse_text(text: Seq<char>) -> Result<Seq<Element>, Fault> {
    match parse_rows(lines(text)) {
        Ok((trees, used)) => Ok(trees),
        Err(fault) => Err(fault),
    }
}

/// Whether `c` is white space.
pub fn is_space_char(c: char) -> (space: bool)
    ensures
        space == is_space(c),
{
    let u = c as u32;
    (0x9 <= u && u <= 0xD) || u == 0x20 || u == 0x85 || u == 0xA0 || u == 0x1680 || (0x2000 <= u
        && u <= 0x200A) || u == 0x2028 || u == 0x2029 || u == 0x202F || u == 0x205F || u == 0x3000
}

/// The characters of a string.
pub fn chars_of(s: &str) -> (v: Vec<char>)
    ensures
        v@ == s@,
{
    let mut v: Vec<char> = Vec::new();
    for c in it: s.chars()
        invariant
            it.seq() == s@,
            v@.len() == it.index(),
            forall|j: int| 0 <= j < v@.len() ==> v@[j] == it.seq()[j],
    {
        v.push(c);
    }
    assert(v@ =~= s@);
    v
}

/// Where the first `k` characters of `s` are white space, `s` has at least
/// `k` leading spaces, and exactly `k` where the next is none or `s` ends.
pub proof fn lemma_leading_spaces(s: Seq<char>, k: nat)
    requires
        k <= s.len(),
        forall|i: int| 0 <= i < k ==> is_space(s[i]),
    ensures
        leading_spaces(s) >= k,
        k == s.len() || !is_space(s[k as int]) ==> leading_spaces(s) == k,
    decreases k,
{
    if k > 0 {
        let t = s.skip(1);
        assert forall|i: int| 0 <= i < k - 1 implies is_space(t[i]) by {
            assert(t[i] == s[i + 1]);
        }
        lemma_leading_spaces(t, (k - 1) as nat);
    }
}

/// Where the last `k` characters of `s` are white space, `s` has at least
/// `k` trailing spaces, and exactly `k` where the one before is none or `s`
/// begins there.
pub proof fn lemma_trailing_spaces(s: Seq<char>, k: nat)
    requires
        k <= s.len(),
        forall|i: int| s.len() - k <= i < s.len() ==> is_space(s[i]),
    ensures
        trailing_spaces(s) >= k,
        k == s.len() || !is_space(s[s.len() - k - 1]) ==> trailing_spaces(s) == k,
    decreases k,
{
    if k > 0 {
        let t = s.drop_last();
        assert forall|i: int| t.len() - (k - 1) <= i < t.len() implies is_space(t[i]) by {
            assert(t[i] == s[i]);
        }
        lemma_trailing_spaces(t, (k - 1) as nat);
    }
}

/// The bounds of `v` without the white space at its head and at its end.
pub fn trim_bounds(v: &Vec<char>) -> (bounds: (usize, usize))
    ensures
        bounds.0 <= bounds.1 <= v@.len(),
        v@.subrange(bounds.0 as int, bounds.1 as int) == trim(v@),
{
    let len = v.len();
    let mut from: usize = 0;
    while from < len && is_space_char(v[from])
        invariant
            from <= len,
            len == v@.len(),
            forall|i: int| 0 <= i < from ==> is_space(v@[i]),
        decreases len - from,
    {
        from = from + 1;
    }
    proof {
        lemma_leading_spaces(v@, from as nat);
    }
    let ghost rest = v@.skip(from as int);
    let mut to: usize = len;
    while to > from && is_space_char(v[to - 1])
        invariant
            from <= to <= len,
            len == v@.len(),
            rest == v@.skip(from as int),
            forall|i: int| to <= i < len ==> is_space(v@[i]),
        decreases to,
    {
        to = to - 1;
    }
    proof {
        assert forall|i: int| rest.len() - (len - to) <= i < rest.len() implies is_space(
            rest[i],
        ) by {
            assert(rest[i] == v@[i + from]);
        }
        if to > from {
            assert(rest[rest.len() - (len - to) - 1] == v@[to - 1]);
        }
        lemma_trailing_spaces(rest, (len - to) as nat);
        assert(v@.subrange(from as int, to as int) =~= rest.take(rest.len() - (len - to)));
    }
    (from, to)
}

/// The index of the first `c` in `s`, counted from `i`.
pub proof fn lemma_index_of(s: Seq<char>, c: char, k: nat)
    requires
        k <= s.len(),
        forall|i: int| 0 <= i < k ==> s[i] != c,
    ensures
        index_of(s, c) >= k,
        k == s.len() || s[k as int] == c ==> index_of(s, c) == k,
    decreases k,
{
    if k > 0 {
        let t = s.skip(1);
        assert forall|i: int| 0 <= i < k - 1 implies t[i] != c by {
            assert(t[i] == s[i + 1]);
        }
        lemma_index_of(t, c, (k - 1) as nat);
    }
}

/// The index of the first `c` in `v` between `from` and `to`, or `to`.
pub fn find_char(v: &Vec<char>, from: usize, to: usize, c: char) -> (at: usize)
    requires
        from <= to <= v@.len(),
    ensures
        from <= at <= to,
        at - from == index_of(v@.subrange(from as int, to as int), c),
{
    let ghost s = v@.subrange(from as int, to as int);
    let mut at: usize = from;
    while at < to && v[at] != c
        invariant
            from <= at <= to <= v@.len(),
            s == v@.subrange(from as int, to as int),
            forall|i: int| 0 <= i < at - from ==> s[i] != c,
        decreases to - at,
    {
        at = at + 1;
    }
    proof {
        lemma_index_of(s, c, (at - from) as nat);
    }
    at
}

/// The value of `c` as a digit in the given radix.
pub fn digit_value(c: char, radix: u32) -> (d: Option<u32>)
    requires
        radix == 10 || radix == 16,
    ensures
        match digit_of(c, radix as int) {
            Some(v) => d == Some(v as u32) && v < radix,
            None => d is None,
        },
{
    let u = c as u32;
    if 0x30 <= u && u <= 0x39 {
        Some(u - 0x30)
    } else if radix == 16 && 0x41 <= u && u <= 0x46 {
        Some(u - 0x41 + 10)
    } else if radix == 16 && 0x61 <= u && u <= 0x66 {
        Some(u - 0x61 + 10)
    } else {
        None
    }
}

/// Where the digits of `s` spell a number, those of each of its heads
/// spell one that is not greater.
pub proof fn lemma_digits_head(s: Seq<char>, k: int, radix: int)
    requires
        0 <= k <= s.len(),
        radix == 10 || radix == 16,
        digits_value(s, radix) is Some,
    ensures
        digits_value(s.take(k), radix) is Some,
        0 <= digits_value(s.take(k), radix)->Some_0 <= digits_value(s, radix)->Some_0,
    decreases s.len(),
{
    if k == s.len() {
        assert(s.take(k) =~= s);
        if s.len() > 0 {
            lemma_digits_head(s.drop_last(), s.len() - 1, radix);
            assert(s.drop_last().take(s.len() - 1) =~= s.drop_last());
        }
    } else {
        lemma_digits_head(s.drop_last(), k, radix);
        assert(s.drop_last().take(k) =~= s.take(k));
        let high = digits_value(s.drop_last(), radix)->Some_0;
        lemma_digits_head(s.drop_last(), s.len() - 1, radix);
        assert(s.drop_last().take(s.len() - 1) =~= s.drop_last());
        assert(high * radix >= high) by (nonlinear_arith)
            requires
                high >= 0,
                radix >= 1,
        ;
    }
}

/// The number that the characters of `v` between `from` and `to` spell, if
/// it is between `-limit` and `limit`.
pub fn parse_number(
    v: &Vec<char>,
    from: usize,
    to: usize,
    radix: u32,
    signed: bool,
    limit: u32,
) -> (r: Option<i64>)
    requires
        from <= to <= v@.len(),
        radix == 10 || radix == 16,
    ensures
        r == match number_of(v@.subrange(from as int, to as int), radix as int, signed) {
            Some(x) => if -limit <= x <= limit {
                Some(x as i64)
            } else {
                None
            },
            None => None,
        },
{
    let ghost s = v@.subrange(from as int, to as int);
    let negative = signed && from < to && v[from] == '-';
    let start: usize = if from < to && (v[from] == '+' || negative) {
        from + 1
    } else {
        from
    };
    let ghost body = v@.subrange(start as int, to as int);
    proof {
        if start > from {
            assert(body =~= s.skip(1));
        } else {
            assert(body =~= s);
        }
    }
    if start == to {
        return None;
    }
    let mut acc: u64 = 0;
    let mut i: usize = start;
    proof {
        assert(body.take(0) =~= Seq::<char>::empty());
    }
    while i < to
        invariant
            start <= i <= to <= v@.len(),
            radix == 10 || radix == 16,
            from <= start < to,
            s == v@.subrange(from as int, to as int),
            body == v@.subrange(start as int, to as int),
            negative == (signed && s.len() > 0 && s[0] == '-'),
            start > from <==> s.len() > 0 && (s[0] == '+' || negative),
            body == if start > from {
                s.skip(1)
            } else {
                s
            },
            digits_value(body.take(i - start), radix as int) == Some(acc as int),
            acc <= limit,
        decreases to - i,
    {
        let ghost head = body.take(i + 1 - start);
        proof {
            assert(head.drop_last() =~= body.take(i - start));
            assert(head.last() == v@[i as int]);
        }
        match digit_value(v[i], radix) {
            None => {
                proof {
                    assert(digits_value(head, radix as int) is None);
                    if digits_value(body, radix as int) is Some {
                        lemma_digits_head(body, i + 1 - start, radix as int);
                    }
                }
                return None;
            },
            Some(d) => {
                let next: u64 = acc * (radix as u64) + d as u64;
                if next > limit as u64 {
                    proof {
                        assert(digits_value(head, radix as int) == Some(next as int));
                        if digits_value(body, radix as int) is Some {
                            lemma_digits_head(body, i + 1 - start, radix as int);
                        }
                    }
                    return None;
                }
                acc = next;
            },
        }
        i = i + 1;
    }
    proof {
        assert(body.take(to - start) =~= body);
    }
    if negative {
        Some(-(acc as i64))
    } else {
        Some(acc as i64)
    }
}

/// A number without a sign is not negative.
pub proof fn lemma_unsigned_number(s: Seq<char>, radix: int)
    requires
        radix == 10 || radix == 16,
    ensures
        number_of(s, radix, false) is Some ==> number_of(s, radix, false)->Some_0 >= 0,
{
    let body = if s.len() > 0 && s[0] == '+' {
        s.skip(1)
    } else {
        s
    };
    if digits_value(body, radix) is Some {
        lemma_digits_head(body, 0, radix);
    }
}

/// The bytes that the characters of `v` between `from` and `to` spell in
/// hexadecimal, one blank between two.
pub fn parse_bytes(v: &Vec<char>, from: usize, to: usize) -> (r: Option<Vec<u8>>)
    requires
        from <= to <= v@.len(),
    ensures
        match bytes_of(v@.subrange(from as int, to as int)) {
            Some(data) => r is Some && r->Some_0@ == data,
            None => r is None,
        },
{
    let mut data: Vec<u8> = Vec::new();
    if from == to {
        return Some(data);
    }
    let ghost whole = v@.subrange(from as int, to as int);
    let mut pos: usize = from;
    loop
        invariant
            from <= pos <= to <= v@.len(),
            from < to,
            whole == v@.subrange(from as int, to as int),
            match tokens_of(v@.subrange(pos as int, to as int)) {
                Some(rest) => tokens_of(whole) == Some(data@ + rest),
                None => tokens_of(whole) is None,
            },
        decreases to - pos,
    {
        let ghost here = v@.subrange(pos as int, to as int);
        let end = find_char(v, pos, to, ' ');
        proof {
            lemma_unsigned_number(v@.subrange(pos as int, end as int), 16);
            assert(here.take(end - pos) =~= v@.subrange(pos as int, end as int));
            if end < to {
                assert(here.skip(end - pos + 1) =~= v@.subrange(end + 1, to as int));
            }
        }
        match parse_number(v, pos, end, 16, false, 255) {
            None => {
                return None;
            },
            Some(b) => {
                data.push(b as u8);
                if end >= to {
                    proof {
                        assert(tokens_of(whole) == Some(data@));
                    }
                    return Some(data);
                }
                proof {
                    match tokens_of(v@.subrange(end + 1, to as int)) {
                        Some(rest) => {
                            assert(data@ + rest =~= data@.drop_last() + (seq![b as u8] + rest));
                        },
                        None => {},
                    }
                }
                pos = end + 1;
            },
        }
    }
}

/// A row as it was read.
pub enum ParsedRow {
    Close,
    Open(String),
    Leaf(SyntaxElement),
    Skip,
    Bad(SyntaxError),
}

impl View for ParsedRow {
    type V = Row;

    open spec fn view(&self) -> Row {
        match self {
            ParsedRow::Close => Row::Close,
            ParsedRow::Open(name) => Row::Open { name: name@ },
            ParsedRow::Leaf(element) => Row::Leaf { element: element@ },
            ParsedRow::Skip => Row::Skip,
            ParsedRow::Bad(e) => Row::Bad { fault: e@ },
        }
    }
}

/// The characters of `r`, which are those of `t`, without any ` {`.
fn strip_braces(t: &str, r: &Vec<char>) -> (name: String)
    requires
        t@ == r@,
    ensures
        name@ == without_brace(r@),
{
    let len = r.len();
    let mut name = String::new();
    let mut i: usize = 0;
    proof {
        assert(r@.skip(0) =~= r@);
        assert(name@ + without_brace(r@) =~= without_brace(r@));
    }
    while i < len
        invariant
            i <= len,
            len == r@.len(),
            t@ == r@,
            name@ + without_brace(r@.skip(i as int)) == without_brace(r@),
        decreases len - i,
    {
        let ghost here = r@.skip(i as int);
        if i + 1 < len && r[i] == ' ' && r[i + 1] == '{' {
            proof {
                assert(here.skip(2) =~= r@.skip(i + 2));
            }
            i = i + 2;
        } else {
            let ghost before = name@;
            name.append(t.substring_char(i, i + 1));
            proof {
                assert(here.skip(1) =~= r@.skip(i + 1));
                assert(t@.subrange(i as int, i + 1) =~= seq![here[0]]);
                assert(before + seq![here[0]] + without_brace(here.skip(1)) =~= before + (
                seq![here[0]] + without_brace(here.skip(1))));
            }
            i = i + 1;
        }
    }
    proof {
        assert(name@ + without_brace(r@.skip(len as int)) =~= name@);
    }
    name
}

/// The row that is refused for the given reason at the element `name`.
fn bad_row(kind: ErrorKind, name: String) -> (row: ParsedRow)
    ensures
        row@ == (Row::Bad { fault: Fault { kind, name: name@, found: Seq::empty() } }),
{
    ParsedRow::Bad(SyntaxError { kind, name, found: String::new() })
}

/// What the part of a trimmed row from its first colon, at `k`, says.
fn classify_value_at(t: &str, r: &Vec<char>, k: usize) -> (row: ParsedRow)
    requires
        t@ == r@,
        k < r@.len(),
    ensures
        row@ == classify_value(r@.take(k as int), r@.skip(k as int)),
{
    let len = r.len();
    let name = t.substring_char(0, k).to_owned();
    let ghost val = r@.skip(k as int);
    proof {
        assert(name@ =~= r@.take(k as int));
    }
    if len - k >= 3 && r[k + 1] == ' ' && r[k + 2] == '"' && r[len - 1] == '"' {
        if len - k < 4 {
            bad_row(ErrorKind::BadHex, name)
        } else {
            proof {
                assert(val.subrange(3, val.len() - 1) =~= r@.subrange(k + 3, len - 1));
            }
            match parse_bytes(r, k + 3, len - 1) {
                Some(data) => ParsedRow::Leaf(
                    SyntaxElement::Payload(SyntaxPayload { name, data }),
                ),
                None => bad_row(ErrorKind::BadHex, name),
            }
        }
    } else if len - k >= 2 && r[k + 1] == ' ' {
        proof {
            assert(val.skip(2) =~= r@.subrange(k + 2, len as int));
        }
        match parse_number(r, k + 2, len, 10, true, 0x8000_0000) {
            Some(x) => if x <= 0x7fff_ffff {
                ParsedRow::Leaf(SyntaxElement::Field(SyntaxField { name, val: x as i32 }))
            } else {
                bad_row(ErrorKind::BadNumber, name)
            },
            None => bad_row(ErrorKind::BadNumber, name),
        }
    } else {
        bad_row(ErrorKind::BadNumber, name)
    }
}

/// What a row says.
pub fn classify_row(row: &str) -> (parsed: ParsedRow)
    ensures
        parsed@ == classify(row@),
{
    let all = chars_of(row);
    let (from, to) = trim_bounds(&all);
    let t = row.substring_char(from, to);
    let r = chars_of(t);
    let len = r.len();
    if len == 1 && r[0] == '}' {
        assert(r@ =~= seq!['}']);
        ParsedRow::Close
    } else if len >= 2 && r[len - 2] == ' ' && r[len - 1] == '{' {
        ParsedRow::Open(strip_braces(t, &r))
    } else {
        let k = find_char(&r, 0, len, ':');
        proof {
            assert(r@.subrange(0, len as int) =~= r@);
        }
        if k < len {
            classify_value_at(t, &r, k)
        } else {
            ParsedRow::Skip
        }
    }
}

/// The rows as sequences of characters.
pub open spec fn row_views(rows: Seq<String>) -> Seq<Seq<char>> {
    Seq::new(rows.len(), |i: int| rows[i]@)
}

/// The nodes that have begun, as frames.
pub open spec fn frames_of(stack: Seq<SyntaxNode>) -> Seq<Frame> {
    Seq::new(stack.len(), |i: int| Frame { name: stack[i].name@, kids: stack[i].kids() })
}

/// Appends `element` to the children of the last node of `stack`.
fn add_kid(stack: &mut Vec<SyntaxNode>, element: SyntaxElement)
    requires
        old(stack)@.len() >= 1,
    ensures
        final(stack)@.len() == old(stack)@.len(),
        frames_of(final(stack)@) == with_kid(frames_of(old(stack)@), element@),
{
    let mut top = stack.pop().unwrap();
    top.append(element);
    stack.push(top);
    assert(frames_of(stack@) =~= with_kid(frames_of(old(stack)@), element@));
}

/// Ends the last node of `stack`: it becomes a child of the one before it.
fn end_last(stack: &mut Vec<SyntaxNode>)
    requires
        old(stack)@.len() >= 2,
    ensures
        final(stack)@.len() == old(stack)@.len() - 1,
        frames_of(final(stack)@) == close_last(frames_of(old(stack)@)),
{
    let child = stack.pop().unwrap();
    proof {
        lemma_node_view(child);
        assert(frames_of(stack@) =~= frames_of(old(stack)@).drop_last());
    }
    add_kid(stack, SyntaxElement::Node(child));
}

/// Reads the elements at the head of `rows` and takes their rows away: up
/// to the `}` that has no node to end, or to the last row, where every
/// node that has not ended ends. Fails at the first row with a colon that
/// is neither a field nor a payload.
pub fn try_syntax_elements_from_string(rows: &mut VecDeque<String>) -> (r: Result<
    VecDeque<SyntaxElement>,
    SyntaxError,
>)
    ensures
        match parse_rows(row_views(old(rows)@)) {
            Ok((elements, used)) => r is Ok && forest(r->Ok_0@) == elements && row_views(
                final(rows)@,
            ) == row_views(old(rows)@).skip(used),
            Err(fault) => r is Err && r->Err_0@ == fault,
        },
{
    let ghost all = row_views(rows@);
    let ghost mut i: int = 0;
    let mut stack: Vec<SyntaxNode> = Vec::new();
    proof {
        reveal_strlit("");
    }
    stack.push(SyntaxNode::new(""));
    proof {
        assert(""@ =~= Seq::<char>::empty());
        assert(frames_of(stack@) =~= seq![Frame { name: Seq::empty(), kids: Seq::empty() }]);
        assert(all.skip(0) =~= all);
    }
    loop
        invariant
            0 <= i <= all.len(),
            all == row_views(old(rows)@),
            row_views(rows@) == all.skip(i),
            stack@.len() >= 1,
            parse_from(all, i, frames_of(stack@)) == parse_rows(all),
        decreases all.len() - i,
    {
        let ghost before = rows@;
        let ghost frames = frames_of(stack@);
        match rows.pop_front() {
            None => {
                assert(row_views(before).len() == before.len());
                assert(all.skip(i).len() == all.len() - i);
                assert(i == all.len());
                while stack.len() > 1
                    invariant
                        stack@.len() >= 1,
                        unwind(frames_of(stack@)) == parse_rows(all)->Ok_0.0,
                    decreases stack@.len(),
                {
                    end_last(&mut stack);
                }
                let root = stack.pop().unwrap();
                proof {
                    assert(all.skip(all.len() as int) =~= row_views(rows@));
                }
                return Ok(root.children);
            },
            Some(row) => {
                proof {
                    assert(row_views(before).len() == before.len());
                    assert(all.skip(i).len() == all.len() - i);
                    assert(row@ == row_views(before)[0]);
                    assert(row@ == all[i]);
                    assert forall|j: int| 0 <= j < rows@.len() implies row_views(rows@)[j]
                        == all.skip(i + 1)[j] by {
                        assert(rows@[j] == before[j + 1]);
                        assert(row_views(before)[j + 1] == before[j + 1]@);
                        assert(all.skip(i)[j + 1] == all[i + j + 1]);
                    }
                    assert(row_views(rows@) =~= all.skip(i + 1));
                }
                match classify_row(row.as_str()) {
                    ParsedRow::Bad(e) => {
                        return Err(e);
                    },
                    ParsedRow::Skip => {
                        assert(parse_from(all, i, frames) == parse_from(all, i + 1, frames));
                    },
                    ParsedRow::Leaf(element) => {
                        add_kid(&mut stack, element);
                        assert(parse_from(all, i, frames) == parse_from(
                            all,
                            i + 1,
                            frames_of(stack@),
                        ));
                    },
                    ParsedRow::Open(name) => {
                        let mut node = SyntaxNode::new("");
                        node.name = name;
                        assert(node.kids() =~= Seq::<Element>::empty());
                        stack.push(node);
                        proof {
                            assert(frames_of(stack@) =~= frames.push(
                                Frame { name: name@, kids: Seq::empty() },
                            ));
                            assert(parse_from(all, i, frames) == parse_from(
                                all,
                                i + 1,
                                frames_of(stack@),
                            ));
                        }
                    },
                    ParsedRow::Close => {
                        if stack.len() <= 1 {
                            let root = stack.pop().unwrap();
                            return Ok(root.children);
                        }
                        end_last(&mut stack);
                        assert(parse_from(all, i, frames) == parse_from(
                            all,
                            i + 1,
                            frames_of(stack@),
                        ));
                    },
                }
                proof {
                    i = i + 1;
                }
            },
        }
    }
}

/// The rows of a text.
pub fn split_lines(text: &str) -> (rows: VecDeque<String>)
    ensures
        row_views(rows@) == lines(text@),
{
    let chars = chars_of(text);
    let len = chars.len();
    let ascii = text.is_ascii();
    let mut rows: VecDeque<String> = VecDeque::new();
    let mut pos: usize = 0;
    proof {
        assert(chars@.subrange(0, len as int) =~= chars@);
        assert(row_views(rows@) + lines(chars@) =~= lines(chars@));
    }
    loop
        invariant
            pos <= len,
            len == chars@.len(),
            chars@ == text@,
            ascii == text.is_ascii(),
            row_views(rows@) + lines(chars@.subrange(pos as int, len as int)) == lines(text@),
        decreases len - pos,
    {
        let ghost here = chars@.subrange(pos as int, len as int);
        let end = find_char(&chars, pos, len, '\n');
        let piece = if ascii {
            text.substring_ascii(pos, end)
        } else {
            text.substring_char(pos, end)
        };
        let ghost before = row_views(rows@);
        rows.push_back(piece.to_owned());
        proof {
            assert(here.take(end - pos) =~= text@.subrange(pos as int, end as int));
            assert(row_views(rows@) =~= before.push(piece@));
        }
        if end >= len {
            proof {
                assert(before + seq![here] =~= before.push(piece@));
            }
            return rows;
        }
        proof {
            assert(here.skip(end - pos + 1) =~= chars@.subrange(end + 1, len as int));
            assert(before.push(piece@) + lines(chars@.subrange(end + 1, len as int)) =~= before
                + (seq![here.take(end - pos)] + lines(here.skip(end - pos + 1))));
        }
        pos = end + 1;
    }
}

/// Reads the elements at the head of `rows` and takes their rows away: up
/// to the `}` that has no node to end, or to the last row, where every
/// node that has not ended ends. The rows must hold no row with a colon
/// that is neither a field nor a payload; `try_syntax_elements_from_string`
/// takes any rows.
pub fn syntax_elements_from_string(rows: &mut VecDeque<String>) -> (elements: VecDeque<
    SyntaxElement,
>)
    requires
        parse_rows(row_views(old(rows)@)) is Ok,
    ensures
        forest(elements@) == parse_rows(row_views(old(rows)@))->Ok_0.0,
        row_views(final(rows)@) == row_views(old(rows)@).skip(
            parse_rows(row_views(old(rows)@))->Ok_0.1,
        ),
{
    match try_syntax_elements_from_string(rows) {
        Ok(elements) => elements,
        Err(_) => unreached(),
    }
}

} // verus!
