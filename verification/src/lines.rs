//! Facts about texts that are made of lines.
use vstd::prelude::*;

use crate::text;

verus! {

broadcast use vstd::seq::group_seq_axioms;

/// The text has no line feed.
pub open spec fn single_line(s: Seq<char>) -> bool {
    forall|i: int| 0 <= i < s.len() ==> #[trigger] s[i] != '\n'
}

/// The line feed, as text.
pub open spec fn line_feed() -> Seq<char> {
    seq!['\n']
}

/// Joining two lists of lines.
pub proof fn lemma_joined_concat(a: Seq<Seq<char>>, b: Seq<Seq<char>>, separator: Seq<char>)
    requires
        a.len() > 0,
        b.len() > 0,
    ensures
        text::joined(a + b, separator) == text::joined(a, separator) + separator + text::joined(
            b,
            separator,
        ),
    decreases a.len(),
{
    if a.len() == 1 {
        assert((a + b).drop_first() =~= b);
    } else {
        lemma_joined_concat(a.drop_first(), b, separator);
        assert((a + b).drop_first() =~= a.drop_first() + b);
        assert(text::joined(a + b, separator) =~= text::joined(a, separator) + separator
            + text::joined(b, separator));
    }
}

/// An occurrence behind a front part is one in the rest.
pub proof fn lemma_occurs_behind(front: Seq<char>, rest: Seq<char>, part: Seq<char>, i: int)
    requires
        front.len() <= i,
    ensures
        text::occurs_at(front + rest, part, i) == text::occurs_at(rest, part, i - front.len()),
{
    if i + part.len() <= (front + rest).len() {
        assert((front + rest).subrange(i, i + part.len()) =~= rest.subrange(
            i - front.len(),
            i - front.len() + part.len(),
        ));
    }
}

/// A part is first found at `at`: it stands there, and nowhere before.
pub proof fn lemma_found_at(s: Seq<char>, part: Seq<char>, at: int)
    requires
        0 <= at,
        text::occurs_at(s, part, at),
        forall|i: int| 0 <= i < at ==> !#[trigger] text::occurs_at(s, part, i),
    ensures
        text::find_from(s, part, 0) == Some(at),
{
    text::lemma_find_from(s, part, 0);
    let found = text::find_from(s, part, 0);
    if found is Some {
        let i = found.unwrap();
        if i < at {
            assert(!text::occurs_at(s, part, i));
        }
    }
}

/// A line that stands behind other lines, none of which is equal to it but perhaps the first, is
/// first found behind them.
pub proof fn lemma_first_line(front: Seq<Seq<char>>, line: Seq<char>, rest: Seq<char>)
    requires
        front.len() > 0,
        single_line(line),
        forall|i: int| 0 <= i < front.len() ==> single_line(#[trigger] front[i]),
        forall|i: int| 1 <= i < front.len() ==> #[trigger] front[i] != line,
    ensures
        text::find_from(
            text::joined(front, line_feed()) + (line_feed() + line + line_feed() + rest),
            line_feed() + line + line_feed(),
            0,
        ) == Some(text::joined(front, line_feed()).len() as int),
    decreases front.len(),
{
    let marker = line_feed() + line + line_feed();
    let tail = line_feed() + line + line_feed() + rest;
    let head = text::joined(front, line_feed());
    let s = head + tail;
    let first = front[0];
    assert(tail.subrange(0, marker.len() as int) =~= marker);
    assert(s.subrange(head.len() as int, (head.len() + marker.len()) as int) =~= marker);
    assert(text::occurs_at(s, marker, head.len() as int));
    if front.len() == 1 {
        assert forall|i: int| 0 <= i < head.len() implies !#[trigger] text::occurs_at(
            s,
            marker,
            i,
        ) by {
            if text::occurs_at(s, marker, i) {
                assert(s.subrange(i, i + marker.len())[0] == marker[0]);
                assert(first[i] != '\n');
            }
        }
    } else {
        let others = front.drop_first();
        assert forall|i: int| 0 <= i < others.len() implies single_line(#[trigger] others[i]) by {
            assert(others[i] == front[i + 1]);
        }
        assert forall|i: int| 1 <= i < others.len() implies #[trigger] others[i] != line by {
            assert(others[i] == front[i + 1]);
        }
        lemma_first_line(others, line, rest);
        let inner = text::joined(others, line_feed());
        let begin = first + line_feed();
        let behind = inner + tail;
        assert(s =~= begin + behind);
        text::lemma_find_from(behind, marker, 0);
        assert forall|i: int| 0 <= i < head.len() implies !#[trigger] text::occurs_at(
            s,
            marker,
            i,
        ) by {
            if text::occurs_at(s, marker, i) {
                let window = s.subrange(i, i + marker.len());
                if i < first.len() {
                    assert(window[0] == marker[0]);
                    assert(first[i] != '\n');
                } else if i == first.len() {
                    let next = front[1];
                    assert(next == others[0]);
                    lemma_line_is_followed(others, tail);
                    assert(single_line(next) && next != line);
                    let m = line.len() as int;
                    let k = next.len() as int;
                    if k < m {
                        assert(s[i + 1 + k] == behind[k]);
                        assert(window[1 + k] == marker[1 + k]);
                        assert(line[k] != '\n');
                    } else if m < k {
                        assert(s[i + 1 + m] == behind[m]);
                        assert(window[1 + m] == marker[1 + m]);
                        assert(next[m] != '\n');
                    } else {
                        assert forall|j: int| 0 <= j < m implies next[j] == line[j] by {
                            assert(s[i + 1 + j] == behind[j]);
                            assert(window[1 + j] == marker[1 + j]);
                        }
                        assert(next =~= line);
                    }
                } else {
                    lemma_occurs_behind(begin, behind, marker, i);
                    assert(!text::occurs_at(behind, marker, i - begin.len()));
                }
            }
        }
    }
    lemma_found_at(s, marker, head.len() as int);
}

/// The first line of a joined list is followed by a line feed, where one follows the list.
proof fn lemma_line_is_followed(list: Seq<Seq<char>>, tail: Seq<char>)
    requires
        list.len() > 0,
        tail.len() > 0,
        tail[0] == '\n',
    ensures
        ({
            let s = text::joined(list, line_feed()) + tail;
            &&& s.len() > list[0].len()
            &&& s[list[0].len() as int] == '\n'
            &&& forall|j: int| 0 <= j < list[0].len() ==> s[j] == #[trigger] list[0][j]
        }),
{
}

/// Splitting at a separator splits what stands before it and what stands after it.
pub proof fn lemma_split_concat(a: Seq<char>, separator: char, b: Seq<char>)
    ensures
        text::split(a + seq![separator] + b, separator) == text::split(a, separator)
            + text::split(b, separator),
    decreases a.len(),
{
    let s = a + seq![separator] + b;
    text::lemma_char_position(s, separator, 0);
    text::lemma_char_position(a, separator, 0);
    let i = text::char_position(s, separator, 0);
    let p = text::char_position(a, separator, 0);
    assert(s[a.len() as int] == separator);
    if p < a.len() {
        assert(s[p] == a[p]);
        assert(i == p) by {
            if i < p {
                assert(s[i] == a[i]);
            }
        }
        let rest = a.skip(p + 1);
        lemma_split_concat(rest, separator, b);
        assert(s.skip(i + 1) =~= rest + seq![separator] + b);
        assert(s.take(i) =~= a.take(p));
        assert(text::split(s, separator) =~= text::split(a, separator) + text::split(
            b,
            separator,
        ));
    } else {
        assert(i == a.len()) by {
            if i < a.len() {
                assert(s[i] == a[i]);
            }
        }
        assert(s.take(i) =~= a);
        assert(s.skip(i + 1) =~= b);
        assert(text::split(s, separator) =~= text::split(a, separator) + text::split(
            b,
            separator,
        ));
    }
}

/// A text without the separator is not split.
pub proof fn lemma_split_whole(s: Seq<char>, separator: char)
    requires
        forall|i: int| 0 <= i < s.len() ==> #[trigger] s[i] != separator,
    ensures
        text::split(s, separator) == seq![s],
{
    text::lemma_char_position(s, separator, 0);
    let p = text::char_position(s, separator, 0);
    if p < s.len() {
        assert(s[p] != separator);
    }
}

/// Trimming a text leaves one that does not begin or end with white space.
pub proof fn lemma_trimmed_ends(s: Seq<char>)
    ensures
        text::trimmed(s).len() > 0 ==> !text::white_space(text::trimmed(s)[0])
            && !text::white_space(text::trimmed(s).last()),
{
    lemma_trim_start_begins(s);
    lemma_trim_end_ends(text::trim_start(s));
}

proof fn lemma_trim_start_begins(s: Seq<char>)
    ensures
        text::trim_start(s).len() > 0 ==> !text::white_space(text::trim_start(s)[0]),
    decreases s.len(),
{
    if s.len() > 0 && text::white_space(s[0]) {
        lemma_trim_start_begins(s.drop_first());
    }
}

proof fn lemma_trim_end_ends(s: Seq<char>)
    ensures
        text::trim_end(s).len() > 0 ==> !text::white_space(text::trim_end(s).last())
            && text::trim_end(s)[0] == s[0],
    decreases s.len(),
{
    if s.len() > 0 && text::white_space(s.last()) {
        lemma_trim_end_ends(s.drop_last());
    }
}

/// Line feeds round a text that does not begin or end with white space are trimmed away.
pub proof fn lemma_trim_line_feeds(s: Seq<char>)
    requires
        s.len() > 0,
        !text::white_space(s[0]),
        !text::white_space(s.last()),
    ensures
        text::trimmed(line_feed() + s + line_feed()) == s,
{
    let whole = line_feed() + s + line_feed();
    assert(whole.drop_first() =~= s + line_feed());
    assert(text::trim_start(s + line_feed()) == s + line_feed());
    assert((s + line_feed()).drop_last() =~= s);
    assert(text::trim_end(s) == s);
}

/// Joining sets the separator between each two texts, and nowhere else.
pub proof fn law_joining_sets_separators_between(
    list: Seq<Seq<char>>,
    last: Seq<char>,
    separator: Seq<char>,
)
    ensures
        text::joined(Seq::empty(), separator) == Seq::<char>::empty(),
        list.len() == 0 ==> text::joined(list.push(last), separator) == last,
        list.len() > 0 ==> text::joined(list.push(last), separator) == text::joined(
            list,
            separator,
        ) + separator + last,
{
    if list.len() > 0 {
        lemma_joined_concat(list, seq![last], separator);
        assert(list + seq![last] =~= list.push(last));
    }
}

/// A text is split at every separator: the parts hold none of them, and joined by it they are the
/// text again.
pub proof fn law_splitting_is_undone_by_joining(s: Seq<char>, separator: char)
    ensures
        text::split(s, separator).len() > 0,
        text::joined(text::split(s, separator), seq![separator]) == s,
        forall|i: int, k: int|
            0 <= i < text::split(s, separator).len() && 0 <= k < text::split(s, separator)[i].len()
                ==> #[trigger] text::split(s, separator)[i][k] != separator,
    decreases s.len(),
{
    text::lemma_char_position(s, separator, 0);
    let at = text::char_position(s, separator, 0);
    let parts = text::split(s, separator);
    if at < s.len() {
        let rest = s.skip(at + 1);
        law_splitting_is_undone_by_joining(rest, separator);
        let others = text::split(rest, separator);
        assert(parts.drop_first() =~= others);
        assert(s.take(at) + seq![separator] + rest =~= s);
        assert forall|i: int, k: int|
            0 <= i < parts.len() && 0 <= k < parts[i].len() implies #[trigger] parts[i][k]
            != separator by {
            if i == 0 {
                assert(parts[0] == s.take(at));
            } else {
                assert(parts[i] == others[i - 1]);
                assert(others[i - 1][k] != separator);
            }
        }
    } else {
        assert forall|i: int, k: int|
            0 <= i < parts.len() && 0 <= k < parts[i].len() implies #[trigger] parts[i][k]
            != separator by {
            assert(parts[0] == s);
        }
    }
}

/// Lines that are joined are split again.
pub proof fn lemma_joined_splits(list: Seq<Seq<char>>)
    requires
        list.len() > 0,
        forall|k: int| 0 <= k < list.len() ==> single_line(#[trigger] list[k]),
    ensures
        text::split(text::joined(list, line_feed()), '\n') == list,
    decreases list.len(),
{
    if list.len() == 1 {
        assert(single_line(list[0]));
        lemma_split_whole(list[0], '\n');
        assert(list =~= seq![list[0]]);
    } else {
        let rest = list.drop_first();
        assert forall|k: int| 0 <= k < rest.len() implies single_line(#[trigger] rest[k]) by {
            assert(rest[k] == list[k + 1]);
        }
        lemma_joined_splits(rest);
        lemma_split_concat(list[0], '\n', text::joined(rest, line_feed()));
        assert(single_line(list[0]));
        lemma_split_whole(list[0], '\n');
        assert(seq![list[0]] + rest =~= list);
    }
}

} // verus!
