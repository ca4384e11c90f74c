//! The text form of a syntax tree: one row for each field and payload, and
//! a pair of rows around the children of each node.

use crate::numeral::{decimal, push_decimal};
use crate::tree::{Element, SyntaxElement, SyntaxField, SyntaxPayload};
use vstd::prelude::*;
use vstd::std_specs::vecdeque::axiom_vec_dequeue_index_decreases;
use vstd::string::StringExecFns;

verus! {

/// The character of the hexadecimal digit `d`, in upper case.
pub open spec fn hex_char(d: int) -> char {
    if d == 0 {
        '0'
    } else if d == 1 {
        '1'
    } else if d == 2 {
        '2'
    } else if d == 3 {
        '3'
    } else if d == 4 {
        '4'
    } else if d == 5 {
        '5'
    } else if d == 6 {
        '6'
    } else if d == 7 {
        '7'
    } else if d == 8 {
        '8'
    } else if d == 9 {
        '9'
    } else if d == 10 {
        'A'
    } else if d == 11 {
        'B'
    } else if d == 12 {
        'C'
    } else if d == 13 {
        'D'
    } else if d == 14 {
        'E'
    } else {
        'F'
    }
}

/// A byte as two hexadecimal digits.
pub open spec fn hex_of(b: u8) -> Seq<char> {
    seq![hex_char(b as int / 16), hex_char(b as int % 16)]
}

/// The bytes as two hexadecimal digits each, with a blank between two.
pub open spec fn hex_list_of(data: Seq<u8>) -> Seq<char>
    decreases data.len(),
{
    if data.len() == 0 {
        Seq::empty()
    } else if data.len() == 1 {
        hex_of(data[0])
    } else {
        hex_list_of(data.drop_last()) + seq![' '] + hex_of(data.last())
    }
}

/// The rows of an element behind the indentation `indent`, each ended by a
/// newline: `name: value` for a field, `name: "HH HH"` for a payload, and for
/// a node `name {`, the rows of its children one tab deeper, and `}`.
pub open spec fn print(e: Element, indent: Seq<char>) -> Seq<char>
    decreases e, 0nat,
{
    match e {
        Element::Field { name, val } => indent + name + seq![':', ' '] + decimal(val as int)
            + seq!['\n'],
        Element::Payload { name, data } => indent + name + seq![':', ' ', '"'] + hex_list_of(data)
            + seq!['"', '\n'],
        Element::Node { name, children } => indent + name + seq![' ', '{', '\n'] + print_first(
            children,
            indent.push('\t'),
            children.len(),
        ) + indent + seq!['}', '\n'],
    }
}

/// The rows of the first `count` of the elements.
pub open spec fn print_first(elements: Seq<Element>, indent: Seq<char>, count: nat) -> Seq<char>
    decreases elements, count,
{
    if count == 0 || count > elements.len() {
        Seq::empty()
    } else {
        print_first(elements, indent, (count - 1) as nat) + print(elements[count - 1], indent)
    }
}

/// The text of a forest: the rows of its trees, one after the other.
pub open spec fn print_forest(trees: Seq<Element>) -> Seq<char> {
    print_first(trees, Seq::empty(), trees.len())
}

/// The hexadecimal digit `d` as a string.
fn hex_str(d: u8) -> (s: &'static str)
    requires
        d < 16,
    ensures
        s@ == seq![hex_char(d as int)],
{
    proof {
        reveal_strlit("0");
        reveal_strlit("1");
        reveal_strlit("2");
        reveal_strlit("3");
        reveal_strlit("4");
        reveal_strlit("5");
        reveal_strlit("6");
        reveal_strlit("7");
        reveal_strlit("8");
        reveal_strlit("9");
        reveal_strlit("A");
        reveal_strlit("B");
        reveal_strlit("C");
        reveal_strlit("D");
        reveal_strlit("E");
        reveal_strlit("F");
    }
    let s = if d == 0 {
        "0"
    } else if d == 1 {
        "1"
    } else if d == 2 {
        "2"
    } else if d == 3 {
        "3"
    } else if d == 4 {
        "4"
    } else if d == 5 {
        "5"
    } else if d == 6 {
        "6"
    } else if d == 7 {
        "7"
    } else if d == 8 {
        "8"
    } else if d == 9 {
        "9"
    } else if d == 10 {
        "A"
    } else if d == 11 {
        "B"
    } else if d == 12 {
        "C"
    } else if d == 13 {
        "D"
    } else if d == 14 {
        "E"
    } else {
        "F"
    };
    assert(s@ =~= seq![hex_char(d as int)]);
    s
}

/// Appends the bytes in hexadecimal, with a blank between two.
fn push_hex_list(text: &mut String, data: &Vec<u8>)
    ensures
        final(text)@ == old(text)@ + hex_list_of(data@),
{
    let mut i: usize = 0;
    proof {
        reveal_strlit(" ");
        assert(data@.take(0) =~= Seq::<u8>::empty());
        assert(text@ =~= old(text)@ + hex_list_of(data@.take(0)));
    }
    while i < data.len()
        invariant
            i <= data.len(),
            text@ == old(text)@ + hex_list_of(data@.take(i as int)),
        decreases data.len() - i,
    {
        let ghost before = text@;
        proof {
            reveal_strlit(" ");
        }
        if i > 0 {
            text.append(" ");
        }
        text.append(hex_str(data[i] / 16));
        text.append(hex_str(data[i] % 16));
        proof {
            let now = data@.take(i + 1);
            assert(now.drop_last() =~= data@.take(i as int));
            assert(now.last() == data@[i as int]);
            if i > 0 {
                assert(text@ =~= before + (seq![' '] + hex_of(data@[i as int])));
                assert(text@ =~= old(text)@ + hex_list_of(now));
            } else {
                assert(hex_list_of(data@.take(0)) =~= Seq::<char>::empty());
                assert(text@ =~= old(text)@ + hex_of(data@[i as int]));
            }
        }
        i = i + 1;
    }
    assert(data@.take(data@.len() as int) =~= data@);
}

/// Appends the row of a field.
fn print_field(field: &SyntaxField, text: &mut String, indent: &str)
    ensures
        final(text)@ == old(text)@ + print(SyntaxElement::Field(*field)@, indent@),
{
    proof {
        reveal_strlit(": ");
        reveal_strlit("\n");
    }
    text.append(indent);
    text.append(field.name.as_str());
    text.append(": ");
    push_decimal(text, field.val as i64);
    text.append("\n");
    assert(text@ =~= old(text)@ + print(SyntaxElement::Field(*field)@, indent@));
}

/// Appends the row of a payload.
fn print_payload(payload: &SyntaxPayload, text: &mut String, indent: &str)
    ensures
        final(text)@ == old(text)@ + print(SyntaxElement::Payload(*payload)@, indent@),
{
    proof {
        reveal_strlit(": \"");
        reveal_strlit("\"\n");
    }
    text.append(indent);
    text.append(payload.name.as_str());
    text.append(": \"");
    push_hex_list(text, &payload.data);
    text.append("\"\n");
    assert(text@ =~= old(text)@ + print(SyntaxElement::Payload(*payload)@, indent@));
}

/// Appends the rows of `element` behind the indentation `indent`.
pub fn print_into(element: &SyntaxElement, text: &mut String, indent: &str)
    ensures
        final(text)@ == old(text)@ + print(element@, indent@),
    decreases element,
{
    match element {
        SyntaxElement::Field(field) => print_field(field, text, indent),
        SyntaxElement::Payload(payload) => print_payload(payload, text, indent),
        SyntaxElement::Node(node) => {
            proof {
                reveal_strlit(" {\n");
                reveal_strlit("\t");
            }
            text.append(indent);
            text.append(node.name.as_str());
            text.append(" {\n");
            let mut deeper = indent.to_owned();
            deeper.append("\t");
            assert(deeper@ =~= indent@.push('\t'));
            let ghost head = text@;
            let ghost kids = node.kids();
            let count = node.children.len();
            let mut i: usize = 0;
            proof {
                crate::tree::lemma_node_view(*node);
                assert(head + print_first(kids, deeper@, 0) =~= head);
            }
            while i < count
                invariant
                    i <= count,
                    count == node.children@.len(),
                    kids == node.kids(),
                    text@ == head + print_first(kids, deeper@, i as nat),
                    *element == SyntaxElement::Node(*node),
                decreases count - i,
            {
                proof {
                    axiom_vec_dequeue_index_decreases(node.children, i as int);
                    assert(decreases_to!(node.children => node.children@[i as int]));
                    assert(decreases_to!(*node => node.children));
                    assert(*node == element->Node_0);
                    assert(decreases_to!(*element => element->Node_0));
                }
                print_into(&node.children[i], text, deeper.as_str());
                proof {
                    assert(head + print_first(kids, deeper@, i as nat) + print(
                        kids[i as int],
                        deeper@,
                    ) =~= head + print_first(kids, deeper@, (i + 1) as nat));
                }
                i = i + 1;
            }
            text.append(indent);
            text.append("}\n");
            proof {
                reveal_strlit("}\n");
                assert(element@ == (Element::Node { name: node.name@, children: kids }));
                assert(text@ =~= old(text)@ + print(element@, indent@));
            }
        },
    }
}

impl SyntaxElement {
    /// The text of this element: its rows, each ended by a newline.
    pub fn to_string(&self) -> (text: String)
        ensures
            text@ == print(self@, Seq::empty()),
    {
        proof {
            reveal_strlit("");
        }
        let mut text = String::new();
        assert(""@ =~= Seq::<char>::empty());
        print_into(self, &mut text, "");
        assert(Seq::<char>::empty() + print(self@, Seq::empty()) =~= print(self@, Seq::empty()));
        text
    }
}

} // verus!
