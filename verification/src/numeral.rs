//! Numbers written in decimal, and the names of syntax elements that carry
//! an index.

use vstd::prelude::*;
use vstd::string::StringExecFns;

verus! {

/// The character of the decimal digit `d`.
pub open spec fn digit_char(d: int) -> char {
    if d == 0 {
        '0'
    } else if d == 1 {
        '1'
    } else if d == 2 {
        '2'
    } else if d == 3 {
        '3'
    } else if d == 4 {
        '4'
    } else if d == 5 {
        '5'
    } else if d == 6 {
        '6'
    } else if d == 7 {
        '7'
    } else if d == 8 {
        '8'
    } else {
        '9'
    }
}

/// The decimal digits of `n`, without leading zeros.
pub open spec fn digits(n: nat) -> Seq<char>
    decreases n,
{
    if n < 10 {
        seq![digit_char(n as int)]
    } else {
        digits(n / 10).push(digit_char((n % 10) as int))
    }
}

/// `v` in decimal, with a minus sign where it is negative.
pub open spec fn decimal(v: int) -> Seq<char> {
    if v < 0 {
        seq!['-'] + digits((-v) as nat)
    } else {
        digits(v as nat)
    }
}

/// The name `base[i]`.
pub open spec fn indexed(base: Seq<char>, i: int) -> Seq<char> {
    base + seq!['['] + decimal(i) + seq![']']
}

/// The decimal digit `d` as a string.
pub fn digit_str(d: u64) -> (s: &'static str)
    requires
        d < 10,
    ensures
        s@ == seq![digit_char(d as int)],
{
    proof {
        reveal_strlit("0");
        reveal_strlit("1");
        reveal_strlit("2");
        reveal_strlit("3");
        reveal_strlit("4");
        reveal_strlit("5");
        reveal_strlit("6");
        reveal_strlit("7");
        reveal_strlit("8");
        reveal_strlit("9");
    }
    let s = if d == 0 {
        "0"
    } else if d == 1 {
        "1"
    } else if d == 2 {
        "2"
    } else if d == 3 {
        "3"
    } else if d == 4 {
        "4"
    } else if d == 5 {
        "5"
    } else if d == 6 {
        "6"
    } else if d == 7 {
        "7"
    } else if d == 8 {
        "8"
    } else {
        "9"
    };
    assert(s@ =~= seq![digit_char(d as int)]);
    s
}

/// Appends the decimal digits of `n` to `text`.
pub fn push_digits(text: &mut String, n: u64)
    ensures
        final(text)@ == old(text)@ + digits(n as nat),
    decreases n,
{
    if n >= 10 {
        push_digits(text, n / 10);
    }
    text.append(digit_str(n % 10));
    proof {
        if n >= 10 {
            assert(old(text)@ + digits((n / 10) as nat) + seq![digit_char((n % 10) as int)]
                =~= old(text)@ + digits(n as nat));
        }
    }
}

/// Appends `v` in decimal to `text`.
pub fn push_decimal(text: &mut String, v: i64)
    ensures
        final(text)@ == old(text)@ + decimal(v as int),
{
    if v < 0 {
        proof {
            reveal_strlit("-");
        }
        text.append("-");
        let magnitude: u64 = if v == i64::MIN {
            0x8000_0000_0000_0000
        } else {
            (-v) as u64
        };
        push_digits(text, magnitude);
        assert(text@ =~= old(text)@ + decimal(v as int));
    } else {
        push_digits(text, v as u64);
    }
}

/// The name `base[i]`.
pub fn indexed_name(base: &str, i: i64) -> (name: String)
    ensures
        name@ == indexed(base@, i as int),
{
    proof {
        reveal_strlit("[");
        reveal_strlit("]");
    }
    let mut name = base.to_owned();
    name.append("[");
    push_decimal(&mut name, i);
    name.append("]");
    assert(name@ =~= indexed(base@, i as int));
    name
}

/// The name `base[i][j]`.
pub fn indexed_name2(base: &str, i: i64, j: i64) -> (name: String)
    ensures
        name@ == indexed(indexed(base@, i as int), j as int),
{
    proof {
        reveal_strlit("[");
        reveal_strlit("]");
    }
    let mut name = indexed_name(base, i);
    name.append("[");
    push_decimal(&mut name, j);
    name.append("]");
    assert(name@ =~= indexed(indexed(base@, i as int), j as int));
    name
}

} // verus!
