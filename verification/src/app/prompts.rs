//! The questions that users asked, and the completions drawn from them.
use vstd::prelude::*;

use crate::text;

verus! {

broadcast use vstd::seq::group_seq_axioms;

/// The most questions that are remembered of a user.
pub const ASK_PROMPT_HISTORY_MAX_ITEMS: usize = 10;

/// The most characters of a completion.
pub const ASK_AUTOCOMPLETE_MAX_CHARS: usize = 100;

/// `s` with `n` elements at most.
pub open spec fn at_most<A>(s: Seq<A>, n: nat) -> Seq<A> {
    if s.len() <= n {
        s
    } else {
        s.take(n as int)
    }
}

/// Says of a question whether it is another than `prompt`.
pub open spec fn other_than(prompt: Seq<char>) -> spec_fn(Seq<char>) -> bool {
    |previous: Seq<char>| previous != prompt
}

/// The questions with one more: it goes first, and stands there once.
pub open spec fn remembered(history: Seq<Seq<char>>, prompt: Seq<char>) -> Seq<Seq<char>> {
    at_most(
        seq![prompt] + history.filter(other_than(prompt)),
        ASK_PROMPT_HISTORY_MAX_ITEMS as nat,
    )
}

/// Remembers a question.
pub fn update_prompt_history(history: &mut Vec<String>, prompt: String)
    ensures
        text::texts(final(history)@) == remembered(text::texts(old(history)@), prompt@),
{
    let ghost all = text::texts(history@);
    let ghost wanted = prompt@;
    let ghost other = other_than(wanted);
    let mut kept: Vec<String> = Vec::new();
    proof {
        crate::seqs::lemma_filter_empty(all, other);
    }
    assert(text::texts(kept@) =~= all.take(0).filter(other));
    for i in 0..history.len()
        invariant
            all == text::texts(history@),
            wanted == prompt@,
            other == other_than(wanted),
            text::texts(kept@) == all.take(i as int).filter(other),
    {
        let ghost before = text::texts(kept@);
        assert(all[i as int] == history@[i as int]@);
        proof {
            crate::seqs::lemma_filter_take(all, other, i as int);
        }
        if !text::same(history[i].as_str(), prompt.as_str()) {
            kept.push(history[i].clone());
            assert(text::texts(kept@) =~= before.push(all[i as int]));
        }
    }
    let ghost filtered = text::texts(kept@);
    let mut fresh: Vec<String> = Vec::new();
    fresh.push(prompt);
    fresh.append(&mut kept);
    let ghost whole = seq![wanted] + filtered;
    assert(text::texts(fresh@) =~= whole);
    assert(fresh@.len() == whole.len());
    fresh.truncate(ASK_PROMPT_HISTORY_MAX_ITEMS);
    assert(text::texts(fresh@) =~= at_most(whole, ASK_PROMPT_HISTORY_MAX_ITEMS as nat));
    *history = fresh;
}

/// A question that is asked again at once changes nothing.
pub proof fn law_remembering_twice_changes_nothing(history: Seq<Seq<char>>, prompt: Seq<char>)
    ensures
        remembered(remembered(history, prompt), prompt) == remembered(history, prompt),
{
    let other = other_than(prompt);
    let rest = history.filter(other);
    let once = remembered(history, prompt);
    let tail = once.skip(1);
    assert(once =~= seq![prompt] + tail);
    assert forall|i: int| 0 <= i < tail.len() implies other(#[trigger] tail[i]) by {
        assert(tail[i] == rest[i]);
        crate::seqs::lemma_filter_member(history, other, i);
    }
    crate::seqs::lemma_filter_all(tail, other);
    Seq::filter_distributes_over_add(seq![prompt], tail, other);
    assert(seq![prompt].filter(other) =~= Seq::<Seq<char>>::empty()) by {
        crate::seqs::lemma_filter_empty(seq![prompt], other);
        crate::seqs::lemma_filter_take(seq![prompt], other, 0);
        assert(seq![prompt].take(1) =~= seq![prompt]);
    }
    assert(once.filter(other) =~= tail);
}

/// However a history came about, after a question it holds ten at most, the question stands first,
/// and if none stood in it twice, none does.
pub proof fn law_history_is_short_and_distinct(history: Seq<Seq<char>>, prompt: Seq<char>)
    ensures
        remembered(history, prompt).len() <= ASK_PROMPT_HISTORY_MAX_ITEMS,
        remembered(history, prompt)[0] == prompt,
        history.no_duplicates() ==> remembered(history, prompt).no_duplicates(),
{
    let other = other_than(prompt);
    let rest = history.filter(other);
    if history.no_duplicates() {
        lemma_filter_distinct(history, other);
        let all = seq![prompt] + rest;
        assert forall|i: int, j: int|
            0 <= i < all.len() && 0 <= j < all.len() && i != j implies all[i] != all[j] by {
            if i == 0 {
                crate::seqs::lemma_filter_member(history, other, j - 1);
            } else if j == 0 {
                crate::seqs::lemma_filter_member(history, other, i - 1);
            } else {
                assert(rest[i - 1] != rest[j - 1]);
            }
        }
        let short = remembered(history, prompt);
        assert forall|i: int, j: int|
            0 <= i < short.len() && 0 <= j < short.len() && i != j implies short[i] != short[j] by {
            assert(short[i] == all[i] && short[j] == all[j]);
        }
    }
}

proof fn lemma_filter_distinct(s: Seq<Seq<char>>, keep: spec_fn(Seq<char>) -> bool)
    requires
        s.no_duplicates(),
    ensures
        s.filter(keep).no_duplicates(),
    decreases s.len(),
{
    reveal(Seq::filter);
    if s.len() > 0 {
        let shorter = s.drop_last();
        assert(shorter.no_duplicates());
        lemma_filter_distinct(shorter, keep);
        let kept = shorter.filter(keep);
        assert forall|i: int| 0 <= i < kept.len() implies kept[i] != s.last() by {
            crate::seqs::lemma_filter_member(shorter, keep, i);
            let j = choose|j: int| 0 <= j < shorter.len() && shorter[j] == kept[i];
            assert(s[j] == kept[i]);
        }
    }
}

// ---------------------------------------------------------------------------
// Completion
// ---------------------------------------------------------------------------

/// A question is offered as completion: it is short enough, and holds the input, both in lower
/// case.
pub open spec fn offered(prompt: Seq<char>, lowered: Seq<char>, input: Seq<char>) -> bool {
    prompt.len() <= ASK_AUTOCOMPLETE_MAX_CHARS && (input.len() == 0 || text::contains(
        lowered,
        input,
    ))
}

/// The first `n` questions that are offered, when `lowered` are the questions in lower case.
pub open spec fn completions(
    history: Seq<Seq<char>>,
    lowered: Seq<Seq<char>>,
    input: Seq<char>,
    n: nat,
) -> Seq<Seq<char>>
    decreases history.len(),
{
    if history.len() == 0 || n == 0 {
        Seq::empty()
    } else if offered(history[0], lowered[0], input) {
        seq![history[0]] + completions(
            history.drop_first(),
            lowered.drop_first(),
            input,
            (n - 1) as nat,
        )
    } else {
        completions(history.drop_first(), lowered.drop_first(), input, n)
    }
}

/// The questions that are offered as completions, when the questions and the input are also given
/// in lower case.
pub fn matching_lowered_values(history: &[String], lowered: &[String], input: &str) -> (r: Vec<
    String,
>)
    requires
        lowered@.len() == history@.len(),
    ensures
        text::texts(r@) == completions(
            text::texts(history@),
            text::texts(lowered@),
            input@,
            ASK_PROMPT_HISTORY_MAX_ITEMS as nat,
        ),
{
    let mut out: Vec<String> = Vec::new();
    let ghost all = text::texts(history@);
    let ghost low = text::texts(lowered@);
    let ghost wanted = completions(all, low, input@, ASK_PROMPT_HISTORY_MAX_ITEMS as nat);
    let no_input = text::chars_of(input).len() == 0;
    let mut i: usize = 0;
    assert(all.skip(0) =~= all && low.skip(0) =~= low);
    assert(text::texts(out@) + wanted =~= wanted);
    while i < history.len() && out.len() < ASK_PROMPT_HISTORY_MAX_ITEMS
        invariant
            lowered@.len() == history@.len(),
            all == text::texts(history@),
            low == text::texts(lowered@),
            no_input == (input@.len() == 0),
            i <= history@.len(),
            out@.len() <= ASK_PROMPT_HISTORY_MAX_ITEMS,
            wanted == text::texts(out@) + completions(
                all.skip(i as int),
                low.skip(i as int),
                input@,
                (ASK_PROMPT_HISTORY_MAX_ITEMS - out@.len()) as nat,
            ),
        decreases history@.len() - i,
    {
        let ghost before = text::texts(out@);
        let ghost rest = all.skip(i as int);
        assert(rest.drop_first() =~= all.skip(i + 1));
        assert(low.skip(i as int).drop_first() =~= low.skip(i + 1));
        assert(rest[0] == history@[i as int]@ && low.skip(i as int)[0] == lowered@[i as int]@);
        let short = text::chars_of(history[i].as_str()).len() <= ASK_AUTOCOMPLETE_MAX_CHARS;
        if short && (no_input || text::str_contains(lowered[i].as_str(), input)) {
            out.push(history[i].clone());
            assert(text::texts(out@) =~= before.push(rest[0]));
            assert(wanted =~= text::texts(out@) + completions(
                all.skip(i + 1),
                low.skip(i + 1),
                input@,
                (ASK_PROMPT_HISTORY_MAX_ITEMS - out@.len()) as nat,
            ));
        }
        i += 1;
    }
    assert(wanted =~= text::texts(out@));
    out
}

/// The questions in lower case.
pub open spec fn all_lowered(history: Seq<Seq<char>>) -> Seq<Seq<char>> {
    history.map_values(|prompt: Seq<char>| text::unicode_lowercase(prompt))
}

/// The questions that are offered as completions of the input.
pub fn matching_prompt_values(history: &[String], input: &str) -> (r: Vec<String>)
    ensures
        text::texts(r@) == completions(
            text::texts(history@),
            all_lowered(text::texts(history@)),
            text::unicode_lowercase(text::trimmed(input@)),
            ASK_PROMPT_HISTORY_MAX_ITEMS as nat,
        ),
{
    let mut lowered: Vec<String> = Vec::new();
    let ghost wanted = all_lowered(text::texts(history@));
    assert(text::texts(lowered@) =~= wanted.take(0));
    for i in 0..history.len()
        invariant
            wanted == all_lowered(text::texts(history@)),
            text::texts(lowered@) == wanted.take(i as int),
    {
        let ghost before = text::texts(lowered@);
        lowered.push(text::to_lowercase(history[i].as_str()));
        assert(text::texts(lowered@) =~= before.push(wanted[i as int]));
        assert(wanted.take(i + 1) =~= wanted.take(i as int).push(wanted[i as int]));
    }
    assert(wanted.take(wanted.len() as int) =~= wanted);
    assert(lowered@.len() == text::texts(lowered@).len());
    let input = text::to_lowercase(text::trim(input).as_str());
    matching_lowered_values(history, lowered.as_slice(), input.as_str())
}

/// The question of a command that is to be remembered: that of `ask`, where it is not blank.
pub fn prompt_to_remember(command: &str, question: Option<&str>) -> (r: Option<String>)
    ensures
        match r {
            Some(prompt) => command@ == "ask"@ && prompt@.len() > 0 && (question matches Some(q)
                && prompt@ == text::trimmed(q@)),
            None => command@ == "ask"@ ==> match question {
                Some(q) => text::trimmed(q@).len() == 0,
                None => true,
            },
        },
{
    if !text::same(command, "ask") {
        return None;
    }
    match question {
        Some(question) => {
            let prompt = text::trim(question);
            if text::chars_of(prompt.as_str()).len() == 0 {
                None
            } else {
                Some(prompt)
            }
        },
        None => None,
    }
}

/// The history begins with the newest question, and goes on with the others in their order, ten in
/// all at most.
pub proof fn law_history_keeps_its_order(history: Seq<Seq<char>>, prompt: Seq<char>)
    ensures
        ({
            let after = remembered(history, prompt);
            let others = history.filter(|previous: Seq<char>| previous != prompt);
            &&& after.len() == (if others.len() < 9 {
                others.len() + 1
            } else {
                10
            })
            &&& after[0] == prompt
            &&& forall|i: int| 1 <= i < after.len() ==> #[trigger] after[i] == others[i - 1]
        }),
{
    let others = history.filter(|previous: Seq<char>| previous != prompt);
    assert(other_than(prompt) =~= (|previous: Seq<char>| previous != prompt));
}

/// The first question to be offered is the first of the history that has at most 100 characters and
/// holds what was typed; the next are drawn in the same way from what follows it. There are no more
/// than are asked for.
pub proof fn law_completions_are_drawn_in_order(
    history: Seq<Seq<char>>,
    lowered: Seq<Seq<char>>,
    input: Seq<char>,
    n: nat,
    i: int,
)
    requires
        history.len() == lowered.len(),
        0 <= i <= history.len(),
        forall|j: int|
            0 <= j < i ==> (#[trigger] history[j]).len() > 100 || (input.len() > 0
                && !text::contains(lowered[j], input)),
    ensures
        n == 0 ==> completions(history, lowered, input, n).len() == 0,
        i == history.len() ==> completions(history, lowered, input, n).len() == 0,
        n > 0 && i < history.len() && history[i].len() <= 100 && (input.len() == 0
            || text::contains(lowered[i], input)) ==> completions(history, lowered, input, n)
            == seq![history[i]] + completions(
            history.skip(i + 1),
            lowered.skip(i + 1),
            input,
            (n - 1) as nat,
        ),
        completions(history, lowered, input, n).len() <= n,
    decreases history.len(),
{
    if history.len() > 0 && n > 0 {
        let rest = history.drop_first();
        let others = lowered.drop_first();
        if i > 0 {
            assert(history[0].len() > 100 || (input.len() > 0 && !text::contains(
                lowered[0],
                input,
            )));
            assert forall|j: int| 0 <= j < i - 1 implies (#[trigger] rest[j]).len() > 100 || (
            input.len() > 0 && !text::contains(others[j], input)) by {
                assert(rest[j] == history[j + 1]);
                assert(others[j] == lowered[j + 1]);
            }
            law_completions_are_drawn_in_order(rest, others, input, n, i - 1);
            if i < history.len() {
                assert(rest.skip(i) =~= history.skip(i + 1));
                assert(others.skip(i) =~= lowered.skip(i + 1));
            }
        } else {
            assert(history.skip(1) =~= rest);
            assert(lowered.skip(1) =~= others);
            law_completions_are_drawn_in_order(rest, others, input, (n - 1) as nat, 0);
            law_completions_are_drawn_in_order(rest, others, input, n, 0);
        }
    }
}

/// What is searched is every question in lower case, in the place of the question.
pub proof fn law_questions_are_searched_in_lower_case(history: Seq<Seq<char>>, i: int)
    requires
        0 <= i < history.len(),
    ensures
        all_lowered(history).len() == history.len(),
        all_lowered(history)[i] == text::unicode_lowercase(history[i]),
        ASK_PROMPT_HISTORY_MAX_ITEMS == 10,
        ASK_AUTOCOMPLETE_MAX_CHARS == 100,
{
}

} // verus!
