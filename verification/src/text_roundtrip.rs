//! Reading the text of trees gives back the trees.

use crate::error::Fault;
use crate::numeral::{decimal, digit_char, digits};
use crate::printer::{hex_char, hex_list_of, hex_of, print, print_first, print_forest};
use crate::text::{
    byte_of, bytes_of, classify, classify_trimmed, digit_of, digits_value, index_of, int_of,
    is_space, lemma_index_of, lemma_leading_spaces, lemma_trailing_spaces, lines, parse_from,
    parse_text, tokens_of, trim, with_kid, without_brace, Frame, Row,
};
use crate::text_laws::lemma_trim_padded;
use crate::tree::Element;
use vstd::prelude::*;

verus! {

/// Whether `name` can stand in a text as the name of an element: it is not
/// empty and holds no white space and no colon.
pub open spec fn is_name(name: Seq<char>) -> bool {
    name.len() > 0 && forall|i: int| 0 <= i < name.len() ==> !is_space(name[i]) && name[i] != ':'
}

/// Whether every name in the tree can stand in a text.
pub open spec fn well_named(e: Element) -> bool
    decreases e,
{
    match e {
        Element::Field { name, val } => is_name(name),
        Element::Payload { name, data } => is_name(name),
        Element::Node { name, children } => is_name(name) && forall|i: int|
            0 <= i < children.len() ==> well_named(children[i]),
    }
}

/// Whether every name in the trees can stand in a text.
pub open spec fn all_well_named(trees: Seq<Element>) -> bool {
    forall|i: int| 0 <= i < trees.len() ==> well_named(trees[i])
}

/// Whether `s` is made of tabs.
pub open spec fn is_tabs(s: Seq<char>) -> bool {
    forall|i: int| 0 <= i < s.len() ==> s[i] == '\t'
}

/// Whether `s` holds no newline.
pub open spec fn is_one_row(s: Seq<char>) -> bool {
    forall|i: int| 0 <= i < s.len() ==> s[i] != '\n'
}

/// The decimal digits of a number spell the number.
pub proof fn lemma_digits_value(n: nat)
    ensures
        digits_value(digits(n), 10) == Some(n as int),
        digits(n).len() > 0,
        forall|i: int|
            0 <= i < digits(n).len() ==> digit_of(#[trigger] digits(n)[i], 10) is Some,
    decreases n,
{
    if n < 10 {
        let s = digits(n);
        assert(s.drop_last() =~= Seq::<char>::empty());
        assert(digits_value(Seq::<char>::empty(), 10) == Some(0int));
        assert(s.last() == digit_char(n as int));
    } else {
        lemma_digits_value(n / 10);
        let s = digits(n);
        assert(s.drop_last() =~= digits(n / 10));
        assert(s.last() == digit_char((n % 10) as int));
    }
}

/// A number in decimal reads back as the number.
pub proof fn lemma_decimal_round_trip(v: i32)
    ensures
        int_of(decimal(v as int)) == Some(v),
        decimal(v as int).len() > 0,
        forall|i: int|
            0 <= i < decimal(v as int).len() ==> {
                let c = #[trigger] decimal(v as int)[i];
                !is_space(c) && c != '"' && c != '{' && c != '\n'
            },
{
    let s = decimal(v as int);
    if v < 0 {
        let n = (-v) as nat;
        lemma_digits_value(n);
        assert(s.skip(1) =~= digits(n));
        assert forall|i: int| 0 <= i < s.len() implies {
            let c = #[trigger] s[i];
            !is_space(c) && c != '"' && c != '{' && c != '\n'
        } by {
            if i > 0 {
                assert(s[i] == digits(n)[i - 1]);
                assert(digit_of(digits(n)[i - 1], 10) is Some);
            }
        }
    } else {
        let n = v as nat;
        lemma_digits_value(n);
        assert(digit_of(s[0], 10) is Some);
        assert forall|i: int| 0 <= i < s.len() implies {
            let c = #[trigger] s[i];
            !is_space(c) && c != '"' && c != '{' && c != '\n'
        } by {
            assert(digit_of(digits(n)[i], 10) is Some);
        }
    }
}

/// A byte in hexadecimal reads back as the byte.
pub proof fn lemma_hex_round_trip(b: u8)
    ensures
        byte_of(hex_of(b)) == Some(b),
        hex_of(b)[0] != ' ',
        hex_of(b)[1] != ' ',
{
    let s = hex_of(b);
    let high = b as int / 16;
    let low = b as int % 16;
    assert(digit_of(hex_char(high), 16) == Some(high));
    assert(digit_of(hex_char(low), 16) == Some(low));
    assert(s.drop_last() =~= seq![hex_char(high)]);
    assert(s.drop_last().drop_last() =~= Seq::<char>::empty());
    assert(digits_value(Seq::<char>::empty(), 16) == Some(0int));
    assert(digits_value(s.drop_last(), 16) == Some(high));
    assert(digits_value(s, 16) == Some(high * 16 + low));
}

/// The bytes in hexadecimal, from the first on.
pub proof fn lemma_hex_list_front(b: u8, rest: Seq<u8>)
    ensures
        hex_list_of(seq![b] + rest) == if rest.len() == 0 {
            hex_of(b)
        } else {
            hex_of(b) + seq![' '] + hex_list_of(rest)
        },
    decreases rest.len(),
{
    let all = seq![b] + rest;
    if rest.len() == 0 {
        assert(all =~= seq![b]);
    } else {
        assert(all.drop_last() =~= seq![b] + rest.drop_last());
        assert(all.last() == rest.last());
        lemma_hex_list_front(b, rest.drop_last());
        if rest.len() == 1 {
            assert(rest =~= seq![rest[0]]);
            assert(hex_list_of(all) =~= hex_of(b) + seq![' '] + hex_list_of(rest));
        } else {
            assert(hex_list_of(all) =~= hex_of(b) + seq![' '] + hex_list_of(rest));
        }
    }
}

/// Bytes in hexadecimal read back as the bytes, and hold no quote and no
/// newline.
pub proof fn lemma_hex_list_round_trip(data: Seq<u8>)
    ensures
        bytes_of(hex_list_of(data)) == Some(data),
        data.len() > 0 ==> tokens_of(hex_list_of(data)) == Some(data),
        forall|i: int|
            0 <= i < hex_list_of(data).len() ==> {
                let c = #[trigger] hex_list_of(data)[i];
                c != '"' && c != '\n'
            },
    decreases data.len(),
{
    if data.len() == 0 {
    } else {
        let b = data[0];
        let rest = data.skip(1);
        assert(data =~= seq![b] + rest);
        lemma_hex_list_front(b, rest);
        lemma_hex_round_trip(b);
        lemma_hex_list_round_trip(rest);
        let s = hex_list_of(data);
        lemma_index_of(s, ' ', 2);
        assert(s.take(2) =~= hex_of(b));
        if rest.len() > 0 {
            assert(s.skip(3) =~= hex_list_of(rest));
            assert(seq![b] + rest =~= data);
        }
        assert forall|i: int| 0 <= i < s.len() implies {
            let c = #[trigger] s[i];
            c != '"' && c != '\n'
        } by {
            if i >= 3 {
                assert(s[i] == hex_list_of(rest)[i - 3]);
            }
        }
    }
}

/// A text that neither begins nor ends with white space is trimmed to
/// itself, whatever tabs stand before it.
pub proof fn lemma_trim_row(indent: Seq<char>, row: Seq<char>)
    requires
        is_tabs(indent),
        row.len() > 0,
        !is_space(row[0]),
        !is_space(row.last()),
    ensures
        trim(indent + row) == row,
{
    lemma_leading_spaces(row, 0);
    lemma_trailing_spaces(row, 0);
    assert(row.skip(0) =~= row);
    assert(trim(row) =~= row);
    lemma_trim_padded(indent, row, Seq::empty());
    assert(indent + row + Seq::<char>::empty() =~= indent + row);
}

/// A name holds no ` {`.
pub proof fn lemma_without_brace(name: Seq<char>, tail: Seq<char>)
    requires
        forall|i: int| 0 <= i < name.len() ==> name[i] != ' ',
        tail == seq![' ', '{'] || tail.len() == 0,
    ensures
        without_brace(name + tail) == name,
    decreases name.len(),
{
    let s = name + tail;
    if name.len() == 0 {
        assert(s =~= tail);
        if tail.len() > 0 {
            assert(s.skip(2) =~= Seq::<char>::empty());
            assert(without_brace(Seq::<char>::empty()) =~= Seq::<char>::empty());
        }
        assert(without_brace(s) =~= name);
    } else {
        assert(s[0] == name[0]);
        assert(s.skip(1) =~= name.skip(1) + tail);
        lemma_without_brace(name.skip(1), tail);
        assert(seq![name[0]] + name.skip(1) =~= name);
    }
}

/// The row of a field.
pub open spec fn field_row(name: Seq<char>, val: i32) -> Seq<char> {
    name + seq![':', ' '] + decimal(val as int)
}

/// The row of a payload.
pub open spec fn payload_row(name: Seq<char>, data: Seq<u8>) -> Seq<char> {
    name + seq![':', ' ', '"'] + hex_list_of(data) + seq!['"']
}

/// The row that begins a node.
pub open spec fn open_row(name: Seq<char>) -> Seq<char> {
    name + seq![' ', '{']
}

/// The row of a field says the field.
pub proof fn lemma_field_row(indent: Seq<char>, name: Seq<char>, val: i32)
    requires
        is_tabs(indent),
        is_name(name),
    ensures
        classify(indent + field_row(name, val)) == (Row::Leaf {
            element: Element::Field { name, val },
        }),
        is_one_row(indent + field_row(name, val)),
{
    let row = field_row(name, val);
    let number = decimal(val as int);
    lemma_decimal_round_trip(val);
    assert(row[0] == name[0]);
    assert(row.last() == number.last());
    lemma_trim_row(indent, row);
    let k = name.len();
    assert forall|i: int| 0 <= i < k implies row[i] != ':' by {
        assert(row[i] == name[i]);
    }
    assert(row[k as int] == ':');
    lemma_index_of(row, ':', k);
    assert(row.take(k as int) =~= name);
    let val_text = row.skip(k as int);
    assert(val_text =~= seq![':', ' '] + number);
    assert(val_text[2] == number[0]);
    assert(val_text.skip(2) =~= number);
    assert(row[row.len() - 1] == number.last());
    assert(classify_trimmed(row) == (Row::Leaf { element: Element::Field { name, val } }));
    assert forall|i: int| 0 <= i < (indent + row).len() implies (indent + row)[i] != '\n' by {
        if i < indent.len() {
        } else if i < indent.len() + k {
            assert((indent + row)[i] == name[i - indent.len()]);
        } else if i < indent.len() + k + 2 {
        } else {
            assert((indent + row)[i] == number[i - indent.len() - k - 2]);
        }
    }
}

/// The row of a payload says the payload.
pub proof fn lemma_payload_row(indent: Seq<char>, name: Seq<char>, data: Seq<u8>)
    requires
        is_tabs(indent),
        is_name(name),
    ensures
        classify(indent + payload_row(name, data)) == (Row::Leaf {
            element: Element::Payload { name, data },
        }),
        is_one_row(indent + payload_row(name, data)),
{
    let row = payload_row(name, data);
    let hex = hex_list_of(data);
    lemma_hex_list_round_trip(data);
    assert(row[0] == name[0]);
    assert(row.last() == '"');
    lemma_trim_row(indent, row);
    let k = name.len();
    assert forall|i: int| 0 <= i < k implies row[i] != ':' by {
        assert(row[i] == name[i]);
    }
    assert(row[k as int] == ':');
    lemma_index_of(row, ':', k);
    assert(row.take(k as int) =~= name);
    let val_text = row.skip(k as int);
    assert(val_text =~= seq![':', ' ', '"'] + hex + seq!['"']);
    assert(val_text.subrange(3, val_text.len() - 1) =~= hex);
    assert(classify_trimmed(row) == (Row::Leaf { element: Element::Payload { name, data } }));
    assert forall|i: int| 0 <= i < (indent + row).len() implies (indent + row)[i] != '\n' by {
        if i < indent.len() {
        } else if i < indent.len() + k {
            assert((indent + row)[i] == name[i - indent.len()]);
        } else if i < indent.len() + k + 3 {
        } else if i < indent.len() + k + 3 + hex.len() {
            assert((indent + row)[i] == hex[i - indent.len() - k - 3]);
        } else {
        }
    }
}

/// The row that begins a node says so, and the row that ends one says so.
pub proof fn lemma_node_rows(indent: Seq<char>, name: Seq<char>)
    requires
        is_tabs(indent),
        is_name(name),
    ensures
        classify(indent + open_row(name)) == (Row::Open { name }),
        classify(indent + seq!['}']) == Row::Close,
        is_one_row(indent + open_row(name)),
        is_one_row(indent + seq!['}']),
{
    let row = open_row(name);
    assert(row[0] == name[0]);
    assert(row.last() == '{');
    lemma_trim_row(indent, row);
    assert forall|i: int| 0 <= i < name.len() implies name[i] != ' ' by {
        assert(is_space(' '));
    }
    lemma_without_brace(name, seq![' ', '{']);
    lemma_trim_row(indent, seq!['}']);
    assert forall|i: int| 0 <= i < (indent + row).len() implies (indent + row)[i] != '\n' by {
        if indent.len() <= i < indent.len() + name.len() {
            assert((indent + row)[i] == name[i - indent.len()]);
        }
    }
}

/// The rows of an element behind the indentation `indent`.
pub open spec fn rows_of(e: Element, indent: Seq<char>) -> Seq<Seq<char>>
    decreases e, 0nat,
{
    match e {
        Element::Field { name, val } => seq![indent + field_row(name, val)],
        Element::Payload { name, data } => seq![indent + payload_row(name, data)],
        Element::Node { name, children } => seq![indent + open_row(name)] + rows_of_first(
            children,
            indent.push('\t'),
            children.len(),
        ) + seq![indent + seq!['}']],
    }
}

/// The rows of the first `count` of the elements.
pub open spec fn rows_of_first(elements: Seq<Element>, indent: Seq<char>, count: nat) -> Seq<
    Seq<char>,
>
    decreases elements, count,
{
    if count == 0 || count > elements.len() {
        Seq::empty()
    } else {
        rows_of_first(elements, indent, (count - 1) as nat) + rows_of(elements[count - 1], indent)
    }
}

/// The rows of a text that begins with a row and a newline.
pub proof fn lemma_lines_front(row: Seq<char>, rest: Seq<char>)
    requires
        is_one_row(row),
    ensures
        lines(row + seq!['\n'] + rest) == seq![row] + lines(rest),
{
    let text = row + seq!['\n'] + rest;
    assert forall|i: int| 0 <= i < row.len() implies text[i] != '\n' by {
        assert(text[i] == row[i]);
    }
    assert(text[row.len() as int] == '\n');
    lemma_index_of(text, '\n', row.len());
    assert(text.take(row.len() as int) =~= row);
    assert(text.skip(row.len() as int + 1) =~= rest);
}

/// The rows of a text that begins with the text of an element are the
/// rows of the element and then the rows of what follows.
pub proof fn lemma_lines_of_print(e: Element, indent: Seq<char>, rest: Seq<char>)
    requires
        well_named(e),
        is_tabs(indent),
    ensures
        lines(print(e, indent) + rest) == rows_of(e, indent) + lines(rest),
    decreases e, 0nat,
{
    match e {
        Element::Field { name, val } => {
            let row = indent + field_row(name, val);
            lemma_field_row(indent, name, val);
            lemma_lines_front(row, rest);
            assert(print(e, indent) + rest =~= row + seq!['\n'] + rest);
        },
        Element::Payload { name, data } => {
            let row = indent + payload_row(name, data);
            lemma_payload_row(indent, name, data);
            lemma_lines_front(row, rest);
            assert(print(e, indent) + rest =~= row + seq!['\n'] + rest);
        },
        Element::Node { name, children } => {
            let first = indent + open_row(name);
            let last = indent + seq!['}'];
            let deeper = indent.push('\t');
            let body = print_first(children, deeper, children.len());
            lemma_node_rows(indent, name);
            lemma_lines_front(first, body + (last + seq!['\n'] + rest));
            lemma_lines_of_first(children, deeper, children.len(), last + seq!['\n'] + rest);
            lemma_lines_front(last, rest);
            assert(print(e, indent) + rest =~= first + seq!['\n'] + (body + (last + seq!['\n']
                + rest)));
            assert(rows_of(e, indent) + lines(rest) =~= seq![first] + (rows_of_first(
                children,
                deeper,
                children.len(),
            ) + (seq![last] + lines(rest))));
        },
    }
}

/// The rows of a text that begins with the text of the first `count`
/// elements.
pub proof fn lemma_lines_of_first(
    elements: Seq<Element>,
    indent: Seq<char>,
    count: nat,
    rest: Seq<char>,
)
    requires
        all_well_named(elements),
        is_tabs(indent),
        count <= elements.len(),
    ensures
        lines(print_first(elements, indent, count) + rest) == rows_of_first(
            elements,
            indent,
            count,
        ) + lines(rest),
    decreases elements, count,
{
    if count == 0 {
        assert(print_first(elements, indent, count) + rest =~= rest);
        assert(rows_of_first(elements, indent, count) + lines(rest) =~= lines(rest));
    } else {
        let e = elements[count - 1];
        let before = print_first(elements, indent, (count - 1) as nat);
        lemma_lines_of_print(e, indent, rest);
        lemma_lines_of_first(elements, indent, (count - 1) as nat, print(e, indent) + rest);
        assert(print_first(elements, indent, count) + rest =~= before + (print(e, indent) + rest));
        assert(rows_of_first(elements, indent, count) + lines(rest) =~= rows_of_first(
            elements,
            indent,
            (count - 1) as nat,
        ) + (rows_of(e, indent) + lines(rest)));
    }
}

/// The frames with `elements` appended to the children of the last.
pub open spec fn with_kids(stack: Seq<Frame>, elements: Seq<Element>) -> Seq<Frame> {
    stack.drop_last().push(Frame { name: stack.last().name, kids: stack.last().kids + elements })
}

/// Reading the rows of an element adds the element to the frame at hand.
pub proof fn lemma_parse_element(
    rows: Seq<Seq<char>>,
    i: int,
    stack: Seq<Frame>,
    e: Element,
    indent: Seq<char>,
)
    requires
        0 <= i,
        i + rows_of(e, indent).len() <= rows.len(),
        rows.subrange(i, i + rows_of(e, indent).len()) == rows_of(e, indent),
        well_named(e),
        is_tabs(indent),
        stack.len() >= 1,
    ensures
        parse_from(rows, i, stack) == parse_from(
            rows,
            i + rows_of(e, indent).len(),
            with_kid(stack, e),
        ),
    decreases e, 0nat,
{
    let mine = rows_of(e, indent);
    let n = mine.len() as int;
    assert(rows[i] == rows.subrange(i, i + n)[0]);
    match e {
        Element::Field { name, val } => {
            lemma_field_row(indent, name, val);
        },
        Element::Payload { name, data } => {
            lemma_payload_row(indent, name, data);
        },
        Element::Node { name, children } => {
            lemma_node_rows(indent, name);
            let deeper = indent.push('\t');
            let inner = rows_of_first(children, deeper, children.len());
            let m = inner.len() as int;
            assert(n == m + 2);
            assert(rows[i] == mine[0]);
            assert(rows[i + m + 1] == rows.subrange(i, i + n)[m + 1]);
            assert(rows[i + m + 1] == indent + seq!['}']);
            assert(rows.subrange(i + 1, i + 1 + m) =~= inner) by {
                assert forall|k: int| 0 <= k < m implies rows.subrange(i + 1, i + 1 + m)[k]
                    == inner[k] by {
                    assert(rows.subrange(i, i + n)[k + 1] == mine[k + 1]);
                }
            }
            let opened = stack.push(Frame { name, kids: Seq::empty() });
            lemma_parse_first(rows, i + 1, opened, children, deeper, children.len());
            let filled = with_kids(opened, children.take(children.len() as int));
            assert(children.take(children.len() as int) =~= children);
            assert(filled.last().kids =~= children);
            assert(filled.drop_last() =~= stack);
            assert(crate::text::close_last(filled) =~= with_kid(stack, e));
        },
    }
}

/// Reading the rows of the first `count` elements adds them to the frame
/// at hand.
pub proof fn lemma_parse_first(
    rows: Seq<Seq<char>>,
    i: int,
    stack: Seq<Frame>,
    elements: Seq<Element>,
    indent: Seq<char>,
    count: nat,
)
    requires
        0 <= i,
        count <= elements.len(),
        i + rows_of_first(elements, indent, count).len() <= rows.len(),
        rows.subrange(i, i + rows_of_first(elements, indent, count).len()) == rows_of_first(
            elements,
            indent,
            count,
        ),
        all_well_named(elements),
        is_tabs(indent),
        stack.len() >= 1,
    ensures
        parse_from(rows, i, stack) == parse_from(
            rows,
            i + rows_of_first(elements, indent, count).len(),
            with_kids(stack, elements.take(count as int)),
        ),
    decreases elements, count,
{
    if count == 0 {
        assert(elements.take(0) =~= Seq::<Element>::empty());
        assert(with_kids(stack, Seq::<Element>::empty()) =~= stack) by {
            assert(stack.last().kids + Seq::<Element>::empty() =~= stack.last().kids);
        }
    } else {
        let e = elements[count - 1];
        let before = rows_of_first(elements, indent, (count - 1) as nat);
        let mine = rows_of(e, indent);
        let all = rows_of_first(elements, indent, count);
        let a = before.len() as int;
        let n = all.len() as int;
        assert(all == before + mine);
        assert(rows.subrange(i, i + a) =~= before) by {
            assert forall|k: int| 0 <= k < a implies rows.subrange(i, i + a)[k] == before[k] by {
                assert(rows.subrange(i, i + n)[k] == all[k]);
            }
        }
        assert(rows.subrange(i + a, i + n) =~= mine) by {
            assert forall|k: int| 0 <= k < n - a implies rows.subrange(i + a, i + n)[k]
                == mine[k] by {
                assert(rows.subrange(i, i + n)[k + a] == all[k + a]);
            }
        }
        lemma_parse_first(rows, i, stack, elements, indent, (count - 1) as nat);
        let so_far = with_kids(stack, elements.take(count - 1));
        lemma_parse_element(rows, i + a, so_far, e, indent);
        assert(elements.take(count as int) =~= elements.take(count - 1).push(e));
        assert(with_kid(so_far, e) =~= with_kids(stack, elements.take(count as int))) by {
            assert(so_far.last().kids.push(e) =~= stack.last().kids + elements.take(
                count as int,
            ));
            assert(so_far.drop_last() =~= stack.drop_last());
        }
    }
}

/// The text of trees, read back, gives the trees: for trees in which
/// every name can stand in a text.
pub proof fn lemma_text_round_trip(trees: Seq<Element>)
    requires
        all_well_named(trees),
    ensures
        parse_text(print_forest(trees)) == Ok::<Seq<Element>, Fault>(trees),
{
    let indent = Seq::<char>::empty();
    let text = print_forest(trees);
    let mine = rows_of_first(trees, indent, trees.len());
    let n = mine.len() as int;
    lemma_lines_of_first(trees, indent, trees.len(), Seq::empty());
    assert(text + Seq::<char>::empty() =~= text);
    let rows = lines(text);
    let blank = Seq::<char>::empty();
    assert(index_of(blank, '\n') == 0);
    assert(lines(blank) =~= seq![blank]);
    assert(rows == mine + seq![blank]);
    assert(rows.subrange(0, n) =~= mine);
    let root = seq![Frame { name: Seq::empty(), kids: Seq::empty() }];
    lemma_parse_first(rows, 0, root, trees, indent, trees.len());
    let filled = with_kids(root, trees.take(trees.len() as int));
    assert(trees.take(trees.len() as int) =~= trees);
    assert(filled[0].kids =~= trees);
    assert(rows[n] == blank);
    crate::text_laws::lemma_blank_row(blank);
    assert(parse_from(rows, n, filled) == parse_from(rows, n + 1, filled));
    assert(crate::text::unwind(filled) == filled[0].kids);
}

} // verus!
