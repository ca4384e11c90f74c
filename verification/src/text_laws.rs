//! What holds of the reading of text: white space around a row and rows of
//! white space change nothing.

use crate::error::Fault;
use crate::text::{
    classify, is_space, leading_spaces, lemma_leading_spaces, lemma_trailing_spaces, parse_from,
    parse_rows, trailing_spaces, trim, Frame, Row,
};
use crate::tree::Element;
use vstd::prelude::*;

verus! {

/// Whether every character of `s` is white space.
pub open spec fn is_blank(s: Seq<char>) -> bool {
    forall|i: int| 0 <= i < s.len() ==> is_space(s[i])
}

/// The leading spaces of a text are white space, and what follows them, if
/// anything, is none.
pub proof fn lemma_leading_spaces_bound(s: Seq<char>)
    ensures
        leading_spaces(s) <= s.len(),
        forall|i: int| 0 <= i < leading_spaces(s) ==> is_space(s[i]),
        leading_spaces(s) < s.len() ==> !is_space(s[leading_spaces(s) as int]),
    decreases s.len(),
{
    if s.len() > 0 && is_space(s[0]) {
        let t = s.skip(1);
        lemma_leading_spaces_bound(t);
        assert forall|i: int| 0 <= i < leading_spaces(s) implies is_space(s[i]) by {
            if i > 0 {
                assert(s[i] == t[i - 1]);
            }
        }
    }
}

/// The trailing spaces of a text are white space, and what stands before
/// them, if anything, is none.
pub proof fn lemma_trailing_spaces_bound(s: Seq<char>)
    ensures
        trailing_spaces(s) <= s.len(),
        forall|i: int| s.len() - trailing_spaces(s) <= i < s.len() ==> is_space(s[i]),
        trailing_spaces(s) < s.len() ==> !is_space(s[s.len() - trailing_spaces(s) - 1]),
    decreases s.len(),
{
    if s.len() > 0 && is_space(s.last()) {
        let t = s.drop_last();
        lemma_trailing_spaces_bound(t);
        assert forall|i: int| s.len() - trailing_spaces(s) <= i < s.len() implies is_space(
            s[i],
        ) by {
            if i < s.len() - 1 {
                assert(s[i] == t[i]);
            }
        }
        if trailing_spaces(s) < s.len() {
            assert(s[s.len() - trailing_spaces(s) - 1] == t[t.len() - trailing_spaces(t) - 1]);
        }
    }
}

/// White space before a row and behind it is trimmed away with the row's
/// own.
pub proof fn lemma_trim_padded(before: Seq<char>, row: Seq<char>, after: Seq<char>)
    requires
        is_blank(before),
        is_blank(after),
    ensures
        trim(before + row + after) == trim(row),
{
    let whole = before + row + after;
    lemma_leading_spaces_bound(row);
    let lead = leading_spaces(row);
    let rest = row.skip(lead as int);
    lemma_trailing_spaces_bound(rest);
    let trail = trailing_spaces(rest);
    if lead == row.len() {
        // The row is blank, and so is the whole.
        assert forall|i: int| 0 <= i < whole.len() implies is_space(whole[i]) by {
            if i < before.len() {
                assert(whole[i] == before[i]);
            } else if i < before.len() + row.len() {
                assert(whole[i] == row[i - before.len()]);
            } else {
                assert(whole[i] == after[i - before.len() - row.len()]);
            }
        }
        lemma_leading_spaces(whole, whole.len());
        assert(trim(whole) =~= trim(row));
    } else {
        let from = before.len() + lead;
        assert forall|i: int| 0 <= i < from implies is_space(whole[i]) by {
            if i < before.len() {
                assert(whole[i] == before[i]);
            } else {
                assert(whole[i] == row[i - before.len()]);
            }
        }
        assert(whole[from as int] == row[lead as int]);
        lemma_leading_spaces(whole, from);
        let tail = whole.skip(from as int);
        assert(tail =~= rest + after);
        let k = trail + after.len();
        assert forall|i: int| tail.len() - k <= i < tail.len() implies is_space(tail[i]) by {
            if i < rest.len() {
                assert(tail[i] == rest[i]);
            } else {
                assert(tail[i] == after[i - rest.len()]);
            }
        }
        assert(trail < rest.len()) by {
            if trail == rest.len() {
                assert(is_space(rest[0]));
                assert(rest[0] == row[lead as int]);
            }
        }
        assert(tail[tail.len() - k - 1] == rest[rest.len() - trail - 1]);
        lemma_trailing_spaces(tail, k);
        assert(trim(whole) =~= trim(row));
    }
}

/// A row says the same with white space before it and behind it.
pub proof fn lemma_padding_ignored(before: Seq<char>, row: Seq<char>, after: Seq<char>)
    requires
        is_blank(before),
        is_blank(after),
    ensures
        classify(before + row + after) == classify(row),
{
    lemma_trim_padded(before, row, after);
}

/// A row of white space says nothing.
pub proof fn lemma_blank_row(row: Seq<char>)
    requires
        is_blank(row),
    ensures
        classify(row) == Row::Skip,
{
    lemma_leading_spaces(row, row.len());
    assert(trim(row) =~= Seq::<char>::empty());
    assert(crate::text::index_of(Seq::<char>::empty(), ':') == 0);
}

/// The elements that rows stand for, or the failure, without the number
/// of rows read.
pub open spec fn elements_of(r: Result<(Seq<Element>, int), Fault>) -> Result<Seq<Element>, Fault> {
    match r {
        Ok((elements, used)) => Ok(elements),
        Err(fault) => Err(fault),
    }
}

/// Rows that say the same, one by one, stand for the same elements.
pub proof fn lemma_same_rows(
    rows: Seq<Seq<char>>,
    others: Seq<Seq<char>>,
    i: int,
    stack: Seq<Frame>,
)
    requires
        rows.len() == others.len(),
        0 <= i,
        forall|k: int| 0 <= k < rows.len() ==> classify(rows[k]) == classify(others[k]),
    ensures
        parse_from(rows, i, stack) == parse_from(others, i, stack),
    decreases rows.len() - i,
{
    if i < rows.len() {
        match classify(rows[i]) {
            Row::Bad { fault } => {},
            Row::Skip => lemma_same_rows(rows, others, i + 1, stack),
            Row::Leaf { element } => lemma_same_rows(
                rows,
                others,
                i + 1,
                crate::text::with_kid(stack, element),
            ),
            Row::Open { name } => lemma_same_rows(
                rows,
                others,
                i + 1,
                stack.push(Frame { name, kids: Seq::empty() }),
            ),
            Row::Close => if stack.len() > 1 {
                lemma_same_rows(rows, others, i + 1, crate::text::close_last(stack))
            },
        }
    }
}

/// A text stands for the same trees whatever white space stands before
/// and behind each of its rows.
pub proof fn lemma_indentation_ignored(
    rows: Seq<Seq<char>>,
    before: Seq<Seq<char>>,
    after: Seq<Seq<char>>,
)
    requires
        before.len() == rows.len(),
        after.len() == rows.len(),
        forall|k: int| 0 <= k < rows.len() ==> is_blank(before[k]) && is_blank(after[k]),
    ensures
        parse_rows(Seq::new(rows.len(), |k: int| before[k] + rows[k] + after[k])) == parse_rows(
            rows,
        ),
{
    let padded = Seq::new(rows.len(), |k: int| before[k] + rows[k] + after[k]);
    assert forall|k: int| 0 <= k < rows.len() implies classify(padded[k]) == classify(
        rows[k],
    ) by {
        lemma_padding_ignored(before[k], rows[k], after[k]);
    }
    lemma_same_rows(
        padded,
        rows,
        0,
        seq![Frame { name: Seq::empty(), kids: Seq::empty() }],
    );
}

/// Behind a row that was put in at `at`, the reading goes on as it does
/// without that row.
pub proof fn lemma_behind_inserted(
    rows: Seq<Seq<char>>,
    at: int,
    extra: Seq<char>,
    i: int,
    stack: Seq<Frame>,
)
    requires
        0 <= at <= i <= rows.len(),
    ensures
        elements_of(parse_from(rows.insert(at, extra), i + 1, stack)) == elements_of(
            parse_from(rows, i, stack),
        ),
    decreases rows.len() - i,
{
    let more = rows.insert(at, extra);
    if i < rows.len() {
        assert(more[i + 1] == rows[i]);
        match classify(rows[i]) {
            Row::Bad { fault } => {},
            Row::Skip => lemma_behind_inserted(rows, at, extra, i + 1, stack),
            Row::Leaf { element } => lemma_behind_inserted(
                rows,
                at,
                extra,
                i + 1,
                crate::text::with_kid(stack, element),
            ),
            Row::Open { name } => lemma_behind_inserted(
                rows,
                at,
                extra,
                i + 1,
                stack.push(Frame { name, kids: Seq::empty() }),
            ),
            Row::Close => if stack.len() > 1 {
                lemma_behind_inserted(rows, at, extra, i + 1, crate::text::close_last(stack))
            },
        }
    }
}

/// A row that says nothing, put in at `at`, changes nothing of what the
/// rows from `i` on stand for.
pub proof fn lemma_skip_row(
    rows: Seq<Seq<char>>,
    at: int,
    blank: Seq<char>,
    i: int,
    stack: Seq<Frame>,
)
    requires
        0 <= i <= at <= rows.len(),
        classify(blank) == Row::Skip,
    ensures
        elements_of(parse_from(rows.insert(at, blank), i, stack)) == elements_of(
            parse_from(rows, i, stack),
        ),
    decreases at - i,
{
    let more = rows.insert(at, blank);
    if i == at {
        assert(more[at] == blank);
        lemma_behind_inserted(rows, at, blank, at, stack);
    } else {
        assert(more[i] == rows[i]);
        match classify(rows[i]) {
            Row::Bad { fault } => {},
            Row::Skip => lemma_skip_row(rows, at, blank, i + 1, stack),
            Row::Leaf { element } => lemma_skip_row(
                rows,
                at,
                blank,
                i + 1,
                crate::text::with_kid(stack, element),
            ),
            Row::Open { name } => lemma_skip_row(
                rows,
                at,
                blank,
                i + 1,
                stack.push(Frame { name, kids: Seq::empty() }),
            ),
            Row::Close => if stack.len() > 1 {
                lemma_skip_row(rows, at, blank, i + 1, crate::text::close_last(stack))
            },
        }
    }
}

/// A text stands for the same trees with a row of white space put in
/// anywhere.
pub proof fn lemma_blank_rows_ignored(rows: Seq<Seq<char>>, at: int, blank: Seq<char>)
    requires
        0 <= at <= rows.len(),
        is_blank(blank),
    ensures
        elements_of(parse_rows(rows.insert(at, blank))) == elements_of(parse_rows(rows)),
{
    lemma_blank_row(blank);
    lemma_skip_row(rows, at, blank, 0, seq![Frame { name: Seq::empty(), kids: Seq::empty() }]);
}

/// The rows without the white space around each of them, and without the
/// rows of white space only.
pub open spec fn stripped(rows: Seq<Seq<char>>) -> Seq<Seq<char>>
    decreases rows.len(),
{
    if rows.len() == 0 {
        Seq::empty()
    } else if trim(rows[0]).len() == 0 {
        stripped(rows.skip(1))
    } else {
        seq![trim(rows[0])] + stripped(rows.skip(1))
    }
}

/// A trimmed row has no white space left to trim.
pub proof fn lemma_trim_twice(row: Seq<char>)
    ensures
        trim(trim(row)) == trim(row),
{
    let lead = leading_spaces(row);
    lemma_leading_spaces_bound(row);
    let rest = row.skip(lead as int);
    lemma_trailing_spaces_bound(rest);
    let t = trim(row);
    if t.len() == 0 {
        lemma_leading_spaces(t, 0);
        assert(trim(t) =~= t);
    } else {
        assert(t[0] == rest[0]);
        assert(rest[0] == row[lead as int]);
        assert(t.last() == rest[rest.len() - trailing_spaces(rest) - 1]);
        lemma_leading_spaces(t, 0);
        lemma_trailing_spaces(t, 0);
        assert(t.skip(0) =~= t);
        assert(trim(t) =~= t);
    }
}

/// A row that trims to nothing says nothing.
pub proof fn lemma_empty_row(row: Seq<char>)
    requires
        trim(row).len() == 0,
    ensures
        classify(row) == Row::Skip,
{
    assert(trim(row) =~= Seq::<char>::empty());
    assert(crate::text::index_of(Seq::<char>::empty(), ':') == 0);
}

/// The rows from `i` on stand for what their stripped rows stand for.
pub proof fn lemma_parse_stripped(rows: Seq<Seq<char>>, i: int, stack: Seq<Frame>)
    requires
        0 <= i <= rows.len(),
    ensures
        elements_of(parse_from(rows, i, stack)) == elements_of(
            parse_from(stripped(rows.skip(i)), 0, stack),
        ),
    decreases rows.len() - i,
{
    let here = rows.skip(i);
    if i < rows.len() {
        assert(here[0] == rows[i]);
        assert(here.skip(1) =~= rows.skip(i + 1));
        let t = trim(rows[i]);
        let behind = stripped(rows.skip(i + 1));
        if t.len() == 0 {
            lemma_empty_row(rows[i]);
            lemma_parse_stripped(rows, i + 1, stack);
        } else {
            lemma_trim_twice(rows[i]);
            let all = stripped(here);
            assert(all == seq![t] + behind);
            assert(all[0] == t);
            assert(behind.insert(0, t) =~= all);
            match classify(rows[i]) {
                Row::Bad { fault } => {},
                Row::Skip => {
                    lemma_parse_stripped(rows, i + 1, stack);
                    lemma_behind_inserted(behind, 0, t, 0, stack);
                },
                Row::Leaf { element } => {
                    let next = crate::text::with_kid(stack, element);
                    lemma_parse_stripped(rows, i + 1, next);
                    lemma_behind_inserted(behind, 0, t, 0, next);
                },
                Row::Open { name } => {
                    let next = stack.push(Frame { name, kids: Seq::empty() });
                    lemma_parse_stripped(rows, i + 1, next);
                    lemma_behind_inserted(behind, 0, t, 0, next);
                },
                Row::Close => {
                    if stack.len() > 1 {
                        let next = crate::text::close_last(stack);
                        lemma_parse_stripped(rows, i + 1, next);
                        lemma_behind_inserted(behind, 0, t, 0, next);
                    }
                },
            }
        }
    } else {
        assert(here =~= Seq::<Seq<char>>::empty());
    }
}

/// Two texts stand for the same trees, or are refused for the same
/// reason, where they have the same rows once the white space around each
/// row and the rows of white space only are taken away: so white space put
/// before or behind any rows, taken away from them, and any number of blank
/// rows put in or taken out anywhere change nothing.
pub proof fn lemma_layout_ignored(rows: Seq<Seq<char>>, others: Seq<Seq<char>>)
    requires
        stripped(rows) == stripped(others),
    ensures
        elements_of(parse_rows(rows)) == elements_of(parse_rows(others)),
{
    let root = seq![Frame { name: Seq::empty(), kids: Seq::empty() }];
    lemma_parse_stripped(rows, 0, root);
    lemma_parse_stripped(others, 0, root);
    assert(rows.skip(0) =~= rows);
    assert(others.skip(0) =~= others);
}

/// White space before and behind rows leaves the stripped rows as they
/// are.
pub proof fn lemma_stripped_padded(
    rows: Seq<Seq<char>>,
    before: Seq<Seq<char>>,
    after: Seq<Seq<char>>,
)
    requires
        before.len() == rows.len(),
        after.len() == rows.len(),
        forall|k: int| 0 <= k < rows.len() ==> is_blank(before[k]) && is_blank(after[k]),
    ensures
        stripped(Seq::new(rows.len(), |k: int| before[k] + rows[k] + after[k])) == stripped(rows),
    decreases rows.len(),
{
    let padded = Seq::new(rows.len(), |k: int| before[k] + rows[k] + after[k]);
    if rows.len() > 0 {
        lemma_trim_padded(before[0], rows[0], after[0]);
        lemma_stripped_padded(rows.skip(1), before.skip(1), after.skip(1));
        let rest = Seq::new(
            rows.skip(1).len(),
            |k: int| before.skip(1)[k] + rows.skip(1)[k] + after.skip(1)[k],
        );
        assert(padded.skip(1) =~= rest);
    }
}

/// A row of white space put in anywhere leaves the stripped rows as they
/// are.
pub proof fn lemma_stripped_inserted(rows: Seq<Seq<char>>, at: int, blank: Seq<char>)
    requires
        0 <= at <= rows.len(),
        is_blank(blank),
    ensures
        stripped(rows.insert(at, blank)) == stripped(rows),
    decreases at,
{
    let more = rows.insert(at, blank);
    if at == 0 {
        lemma_leading_spaces(blank, blank.len());
        assert(trim(blank) =~= Seq::<char>::empty());
        assert(more[0] == blank);
        assert(more.skip(1) =~= rows);
    } else {
        assert(more[0] == rows[0]);
        assert(more.skip(1) =~= rows.skip(1).insert(at - 1, blank));
        lemma_stripped_inserted(rows.skip(1), at - 1, blank);
    }
}

} // verus!
