//! What was said in a call, by whom and when: order, lines and the journal's entries.
use std::collections::HashMap;

use vstd::prelude::*;

use crate::lines;
use crate::text;
use crate::time;
use crate::time::{Nanos, MILLISECOND, SECOND};

verus! {

broadcast use {
    vstd::seq::group_seq_axioms,
    vstd::map::group_map_axioms,
    vstd::std_specs::hash::group_hash_axioms,
};

/// Something that a user said.
pub struct Utterance {
    pub user_id: u64,
    pub start_ts: Nanos,
    pub text: String,
}

/// What an `Utterance` holds.
pub ghost struct Said {
    pub user_id: u64,
    pub start_ts: Nanos,
    pub text: Seq<char>,
}

impl View for Utterance {
    type V = Said;

    open spec fn view(&self) -> Said {
        Said { user_id: self.user_id, start_ts: self.start_ts, text: self.text@ }
    }
}

/// What the utterances hold.
pub open spec fn said(transcript: Seq<Utterance>) -> Seq<Said> {
    transcript.map_values(|utterance: Utterance| utterance@)
}

/// A copy of the utterances.
pub fn copy_utterances(transcript: &[Utterance]) -> (r: Vec<Utterance>)
    ensures
        said(r@) == said(transcript@),
{
    let mut out: Vec<Utterance> = Vec::new();
    for i in 0..transcript.len()
        invariant
            said(out@) == said(transcript@).take(i as int),
    {
        let utterance = &transcript[i];
        let ghost before = said(out@);
        out.push(
            Utterance {
                user_id: utterance.user_id,
                start_ts: utterance.start_ts,
                text: utterance.text.clone(),
            },
        );
        assert(said(out@) =~= before.push(said(transcript@)[i as int]));
    }
    assert(said(transcript@).take(transcript@.len() as int) =~= said(transcript@));
    out
}

// ---------------------------------------------------------------------------
// Order
// ---------------------------------------------------------------------------

/// How many of the first utterances begin no later than `start`, up to the first that does.
pub open spec fn place_for(sorted: Seq<Said>, start: Nanos) -> int
    decreases sorted.len(),
{
    if sorted.len() == 0 {
        0
    } else if sorted.last().start_ts <= start {
        sorted.len() as int
    } else {
        place_for(sorted.drop_last(), start)
    }
}

/// The utterances by their start. Those that begin together stay in the order in which they came.
pub open spec fn by_start(transcript: Seq<Said>) -> Seq<Said>
    decreases transcript.len(),
{
    if transcript.len() == 0 {
        Seq::empty()
    } else {
        let sorted = by_start(transcript.drop_last());
        let next = transcript.last();
        sorted.insert(place_for(sorted, next.start_ts), next)
    }
}

/// No utterance begins before one that stands before it.
pub open spec fn in_order(transcript: Seq<Said>) -> bool {
    forall|i: int, j: int|
        0 <= i <= j < transcript.len() ==> (#[trigger] transcript[i]).start_ts <= (
        #[trigger] transcript[j]).start_ts
}

proof fn lemma_place_for(sorted: Seq<Said>, start: Nanos)
    ensures
        0 <= place_for(sorted, start) <= sorted.len(),
        forall|i: int|
            place_for(sorted, start) <= i < sorted.len() ==> (#[trigger] sorted[i]).start_ts
                > start,
        place_for(sorted, start) > 0 ==> sorted[place_for(sorted, start) - 1].start_ts <= start,
    decreases sorted.len(),
{
    if sorted.len() > 0 && sorted.last().start_ts > start {
        let shorter = sorted.drop_last();
        lemma_place_for(shorter, start);
        assert forall|i: int| place_for(sorted, start) <= i < sorted.len() implies (
        #[trigger] sorted[i]).start_ts > start by {
            if i < shorter.len() {
                assert(shorter[i] == sorted[i]);
            }
        }
    }
}

/// The utterances that begin at the given time.
pub open spec fn starting_at(transcript: Seq<Said>, start: Nanos) -> Seq<Said> {
    transcript.filter(|utterance: Said| utterance.start_ts == start)
}

/// Sorting puts the utterances in the order of their starts, keeps every one of them, and leaves
/// those that begin together in the order in which they came.
pub proof fn law_sorting_is_stable(transcript: Seq<Said>, start: Nanos)
    ensures
        in_order(by_start(transcript)),
        by_start(transcript).to_multiset() == transcript.to_multiset(),
        by_start(transcript).len() == transcript.len(),
        starting_at(by_start(transcript), start) == starting_at(transcript, start),
    decreases transcript.len(),
{
    if transcript.len() > 0 {
        let shorter = transcript.drop_last();
        let next = transcript.last();
        law_sorting_is_stable(shorter, start);
        let sorted = by_start(shorter);
        let at = place_for(sorted, next.start_ts);
        lemma_place_for(sorted, next.start_ts);
        let after = by_start(transcript);
        assert(in_order(after)) by {
            assert forall|i: int, j: int| 0 <= i <= j < after.len() implies (
            #[trigger] after[i]).start_ts <= (#[trigger] after[j]).start_ts by {
                if i < at && at > 0 {
                    assert(sorted[i].start_ts <= sorted[at - 1].start_ts);
                }
                if j < at {
                    assert(sorted[i].start_ts <= sorted[j].start_ts);
                } else if j > at {
                    assert(sorted[j - 1].start_ts > next.start_ts);
                    if i < at {
                        assert(sorted[i].start_ts <= sorted[j - 1].start_ts);
                    } else if i > at {
                        assert(sorted[i - 1].start_ts <= sorted[j - 1].start_ts);
                    }
                }
            }
        }
        assert(transcript =~= shorter.push(next));
        broadcast use vstd::seq_lib::group_to_multiset_ensures;

        assert(after.to_multiset() == sorted.to_multiset().insert(next)) by {
            vstd::seq_lib::to_multiset_insert(sorted, at, next);
        }
        lemma_insert_starting_at(sorted, at, next, start);
        reveal(Seq::filter);
    } else {
        assert(transcript =~= Seq::<Said>::empty());
    }
}

proof fn lemma_none_starting_at(transcript: Seq<Said>, start: Nanos)
    requires
        forall|i: int| 0 <= i < transcript.len() ==> (#[trigger] transcript[i]).start_ts != start,
    ensures
        starting_at(transcript, start) == Seq::<Said>::empty(),
    decreases transcript.len(),
{
    reveal(Seq::filter);
    if transcript.len() > 0 {
        let shorter = transcript.drop_last();
        assert forall|i: int| 0 <= i < shorter.len() implies (#[trigger] shorter[i]).start_ts
            != start by {
            assert(shorter[i] == transcript[i]);
        }
        lemma_none_starting_at(shorter, start);
    } else {
        assert(starting_at(transcript, start) =~= Seq::<Said>::empty());
    }
}

proof fn lemma_insert_starting_at(sorted: Seq<Said>, at: int, next: Said, start: Nanos)
    requires
        0 <= at <= sorted.len(),
        forall|i: int| at <= i < sorted.len() ==> (#[trigger] sorted[i]).start_ts > next.start_ts,
    ensures
        starting_at(sorted.insert(at, next), start) == (if next.start_ts == start {
            starting_at(sorted, start).push(next)
        } else {
            starting_at(sorted, start)
        }),
{
    let keep = |utterance: Said| utterance.start_ts == start;
    let front = sorted.take(at);
    let back = sorted.skip(at);
    let after = sorted.insert(at, next);
    assert(sorted =~= front + back);
    assert(after =~= front.push(next) + back);
    Seq::filter_distributes_over_add(front, back, keep);
    Seq::filter_distributes_over_add(front.push(next), back, keep);
    assert(front.push(next).drop_last() =~= front);
    reveal(Seq::filter);
    if next.start_ts == start {
        assert forall|i: int| 0 <= i < back.len() implies (#[trigger] back[i]).start_ts != start by {
            assert(back[i] == sorted[at + i]);
        }
        lemma_none_starting_at(back, start);
        assert(starting_at(after, start) =~= starting_at(sorted, start).push(next));
    } else {
        assert(starting_at(after, start) =~= starting_at(sorted, start));
    }
}

/// Sorts the utterances by their start.
pub fn sort_by_start(transcript: Vec<Utterance>) -> (r: Vec<Utterance>)
    ensures
        said(r@) == by_start(said(transcript@)),
{
    let mut sorted: Vec<Utterance> = Vec::new();
    let ghost all = said(transcript@);
    assert(all.take(0) =~= Seq::<Said>::empty());
    assert(said(sorted@) =~= Seq::<Said>::empty());
    for utterance in it: transcript
        invariant
            said(it.seq()) == all,
            said(sorted@) == by_start(all.take(it.index() as int)),
    {
        let ghost i = it.index() as int;
        let ghost before = said(sorted@);
        assert(utterance@ == all[i]);
        assert(all.take(i + 1).drop_last() =~= all.take(i));
        let start: Nanos = utterance.start_ts;
        let mut at: usize = sorted.len();
        assert(before.take(before.len() as int) =~= before);
        while at > 0 && sorted[at - 1].start_ts > start
            invariant
                at <= sorted@.len(),
                before == said(sorted@),
                place_for(before, start) == place_for(before.take(at as int), start),
            decreases at,
        {
            assert(before[at - 1] == sorted@[at - 1]@);
            assert(before.take(at as int).drop_last() =~= before.take(at - 1));
            at -= 1;
        }
        assert(at > 0 ==> before.take(at as int).last() == sorted@[at - 1]@);
        assert(at == place_for(before, start));
        sorted.insert(at, utterance);
        assert(said(sorted@) =~= before.insert(at as int, utterance@));
    }
    assert(all.take(all.len() as int) =~= all);
    sorted
}

// ---------------------------------------------------------------------------
// The journal's entries
// ---------------------------------------------------------------------------

/// An utterance as the journal keeps it: its start counts in milliseconds from that of the call.
pub struct PersistedUtterance {
    pub user_id: u64,
    pub start_offset_ms: u64,
    pub text: String,
}

/// The milliseconds from the start of the call to that of the utterance, none where it began
/// before the call did.
pub open spec fn offset_ms(start_ts: Nanos, call_started: Nanos) -> nat {
    time::elapsed(start_ts, call_started) / MILLISECOND as nat
}

/// The journal's entry for an utterance.
pub fn persisted_utterance(utterance: &Utterance, call_started: Nanos) -> (r: PersistedUtterance)
    ensures
        r.user_id == utterance.user_id,
        r.start_offset_ms == offset_ms(utterance.start_ts, call_started),
        r.text@ == utterance.text@,
{
    PersistedUtterance {
        user_id: utterance.user_id,
        start_offset_ms: time::saturating_elapsed(utterance.start_ts, call_started) / MILLISECOND,
        text: utterance.text.clone(),
    }
}

/// The start of an entry's utterance, for a call that began at `call_started`. One that lies
/// beyond the end of the clock is put there.
pub open spec fn start_of(entry: PersistedUtterance, call_started: Nanos) -> Nanos {
    if call_started + entry.start_offset_ms * MILLISECOND <= u64::MAX {
        (call_started + entry.start_offset_ms * MILLISECOND) as u64
    } else {
        u64::MAX
    }
}

/// The utterance of a journal's entry.
pub open spec fn restored(entry: PersistedUtterance, call_started: Nanos) -> Said {
    Said {
        user_id: entry.user_id,
        start_ts: start_of(entry, call_started),
        text: entry.text@,
    }
}

/// The utterances of a journal's entries, in their order.
pub open spec fn restored_all(entries: Seq<PersistedUtterance>, call_started: Nanos) -> Seq<Said> {
    entries.map_values(|entry: PersistedUtterance| restored(entry, call_started))
}

/// The transcript out of the journal's entries, by the start of the utterances: one for every
/// entry, whatever its offset.
pub fn restore_transcript(entries: Vec<PersistedUtterance>, call_started: Nanos) -> (r: Vec<
    Utterance,
>)
    ensures
        said(r@) == by_start(restored_all(entries@, call_started)),
        r@.len() == entries@.len(),
{
    let mut out: Vec<Utterance> = Vec::new();
    let ghost all = restored_all(entries@, call_started);
    assert(said(out@) =~= all.take(0));
    for entry in it: entries
        invariant
            all == restored_all(it.seq(), call_started),
            said(out@) == all.take(it.index() as int),
    {
        let ghost i = it.index() as int;
        let ghost before = said(out@);
        let start: Nanos = if entry.start_offset_ms <= (u64::MAX - call_started) / MILLISECOND {
            call_started + entry.start_offset_ms * MILLISECOND
        } else {
            u64::MAX
        };
        out.push(Utterance { user_id: entry.user_id, start_ts: start, text: entry.text });
        assert(said(out@) =~= before.push(all[i]));
        assert(all.take(i + 1) =~= all.take(i).push(all[i]));
    }
    assert(all.take(all.len() as int) =~= all);
    proof {
        law_sorting_is_stable(all, 0);
    }
    let sorted = sort_by_start(out);
    assert(said(sorted@).len() == sorted@.len());
    sorted
}

/// A journal is restored in full: every entry gives one utterance with its user and its text; they
/// come in the order of their starts, those that begin together in the order of the journal; and
/// each begins at its offset from the start of the call, or at the end of the clock where that
/// lies beyond it.
pub proof fn law_journal_is_restored(
    entries: Seq<PersistedUtterance>,
    call_started: Nanos,
    start: Nanos,
    i: int,
)
    requires
        0 <= i < entries.len(),
    ensures
        in_order(by_start(restored_all(entries, call_started))),
        by_start(restored_all(entries, call_started)).to_multiset() == restored_all(
            entries,
            call_started,
        ).to_multiset(),
        starting_at(by_start(restored_all(entries, call_started)), start) == starting_at(
            restored_all(entries, call_started),
            start,
        ),
        ({
            let utterance = restored_all(entries, call_started)[i];
            let exact = call_started + entries[i].start_offset_ms * MILLISECOND;
            &&& utterance.user_id == entries[i].user_id
            &&& utterance.text == entries[i].text@
            &&& utterance.start_ts == (if exact <= u64::MAX {
                exact
            } else {
                u64::MAX as int
            })
        }),
{
    law_sorting_is_stable(restored_all(entries, call_started), start);
}

/// What is written to the journal is read back: the same user and text, at the same time to the
/// millisecond. An utterance from before the call comes back at its start.
pub proof fn law_journal_reads_back(
    utterance: Utterance,
    entry: PersistedUtterance,
    call_started: Nanos,
)
    requires
        entry.user_id == utterance.user_id,
        entry.start_offset_ms == offset_ms(utterance.start_ts, call_started),
        entry.text@ == utterance.text@,
    ensures
        restored(entry, call_started).user_id == utterance.user_id,
        restored(entry, call_started).text == utterance.text@,
        utterance.start_ts >= call_started ==> 0 <= utterance.start_ts - restored(
            entry,
            call_started,
        ).start_ts < MILLISECOND,
        utterance.start_ts < call_started ==> restored(entry, call_started).start_ts
            == call_started,
{
}

// ---------------------------------------------------------------------------
// The lines of a journal
// ---------------------------------------------------------------------------

/// A line without the carriage return that ends it.
pub open spec fn without_return(line: Seq<char>) -> Seq<char> {
    if line.len() > 0 && line.last() == '\r' {
        line.drop_last()
    } else {
        line
    }
}

/// The lines of a text: what a line feed ends, with or without a carriage return before it, and
/// what stands behind the last line feed, unless that is nothing.
pub open spec fn text_lines(content: Seq<char>) -> Seq<Seq<char>>
    decreases content.len(),
    via text_lines_decreases
{
    let end = text::char_position(content, '\n', 0);
    if content.len() == 0 {
        Seq::empty()
    } else if end < 0 || end >= content.len() {
        seq![content]
    } else {
        seq![without_return(content.take(end))] + text_lines(content.skip(end + 1))
    }
}

#[via_fn]
proof fn text_lines_decreases(content: Seq<char>) {
    text::lemma_char_position(content, '\n', 0);
}

/// The lines of a journal.
pub fn journal_lines(content: &str) -> (r: Vec<String>)
    ensures
        text::texts(r@) == text_lines(content@),
{
    let chars = text::chars_of(content);
    let mut list: Vec<String> = Vec::new();
    let mut start: usize = 0;
    let mut at: usize = 0;
    let ghost whole = content@;
    assert(whole.skip(0) =~= whole);
    while at < chars.len()
        invariant
            chars@ == whole,
            start <= at <= whole.len(),
            forall|k: int| start <= k < at ==> #[trigger] whole[k] != '\n',
            text::texts(list@) + text_lines(whole.skip(start as int)) == text_lines(whole),
        decreases whole.len() - at,
    {
        if chars[at] == '\n' {
            let end: usize = if start < at && chars[at - 1] == '\r' {
                at - 1
            } else {
                at
            };
            let line = text::string_between(chars.as_slice(), start, end);
            let ghost rest = whole.skip(start as int);
            let ghost before = list@;
            proof {
                text::lemma_char_position(rest, '\n', 0);
                let p = text::char_position(rest, '\n', 0);
                if p < at - start {
                    assert(rest[p] == whole[start + p]);
                }
                assert(rest[at - start] == '\n');
                assert(p == at - start);
                assert(without_return(rest.take(p)) =~= line@);
                assert(rest.skip(p + 1) =~= whole.skip(at + 1));
            }
            list.push(line);
            start = at + 1;
            assert(text::texts(list@) =~= text::texts(before).push(line@));
            assert(text::texts(list@) + text_lines(whole.skip(start as int)) =~= text::texts(before)
                + (seq![line@] + text_lines(whole.skip(start as int))));
        }
        at += 1;
    }
    let ghost rest = whole.skip(start as int);
    proof {
        text::lemma_char_position(rest, '\n', 0);
        let p = text::char_position(rest, '\n', 0);
        if p < rest.len() {
            assert(rest[p] == whole[start + p]);
        }
    }
    if start < chars.len() {
        let line = text::string_between(chars.as_slice(), start, chars.len());
        let ghost before = list@;
        list.push(line);
        assert(line@ =~= rest);
        assert(text::texts(list@) =~= text::texts(before) + seq![line@]);
    } else {
        assert(text::texts(list@) =~= text::texts(list@) + text_lines(rest));
    }
    list
}

/// An entry of a journal on a line of its own.
pub fn journal_record(entry: &str) -> (r: String)
    ensures
        r@ == entry@ + lines::line_feed(),
{
    let mut out = String::new();
    out.append(entry);
    out.push('\n');
    assert(out@ =~= entry@ + lines::line_feed());
    out
}

/// A journal with the entries, each on a line of its own.
pub open spec fn journal_text(entries: Seq<Seq<char>>) -> Seq<char>
    decreases entries.len(),
{
    if entries.len() == 0 {
        Seq::empty()
    } else {
        entries[0] + lines::line_feed() + journal_text(entries.drop_first())
    }
}

/// The entries that were written to a journal are its lines, whatever else they hold, as long as
/// each is one line.
pub proof fn law_journal_lines_read_back(entries: Seq<Seq<char>>)
    requires
        forall|i: int| 0 <= i < entries.len() ==> lines::single_line(#[trigger] entries[i]),
        forall|i: int|
            0 <= i < entries.len() ==> without_return(#[trigger] entries[i]) == entries[i],
    ensures
        text_lines(journal_text(entries)) == entries,
    decreases entries.len(),
{
    if entries.len() > 0 {
        let rest = entries.drop_first();
        let content = journal_text(entries);
        let end = entries[0].len() as int;
        assert forall|i: int| 0 <= i < rest.len() implies lines::single_line(#[trigger] rest[i]) by {
            assert(rest[i] == entries[i + 1]);
        }
        assert forall|i: int| 0 <= i < rest.len() implies without_return(#[trigger] rest[i])
            == rest[i] by {
            assert(rest[i] == entries[i + 1]);
        }
        law_journal_lines_read_back(rest);
        assert(lines::single_line(entries[0]));
        text::lemma_char_position(content, '\n', 0);
        let p = text::char_position(content, '\n', 0);
        assert(content[end] == '\n');
        if p < end {
            assert(content[p] == entries[0][p]);
        }
        assert(content.take(end) =~= entries[0]);
        assert(content.skip(end + 1) =~= journal_text(rest));
        assert(text_lines(content) =~= entries);
    } else {
        assert(text_lines(journal_text(entries)) =~= entries);
    }
}

// ---------------------------------------------------------------------------
// Lines
// ---------------------------------------------------------------------------

/// What the names of users are.
pub open spec fn name_views(names: Map<u64, String>) -> Map<u64, Seq<char>> {
    names.map_values(|name: String| name@)
}

/// What a user is called: the display name, or the number where there is none.
pub open spec fn display_of(names: Map<u64, Seq<char>>, user: u64) -> Seq<char> {
    if names.contains_key(user) {
        names[user]
    } else {
        text::decimal(user as nat)
    }
}

/// What a user is called.
pub fn display_name(names: &HashMap<u64, String>, user: u64) -> (r: String)
    ensures
        r@ == display_of(name_views(names@), user),
{
    match names.get(&user) {
        Some(name) => name.clone(),
        None => text::u64_text(user),
    }
}

/// A time as minutes and seconds, as in `1:05`.
pub open spec fn stamp_of(seconds: nat) -> Seq<char> {
    text::decimal(seconds / 60) + ":"@ + text::decimal2(seconds % 60)
}

/// A time as minutes and seconds.
pub fn format_transcript_stamp(seconds: u64) -> (r: String)
    ensures
        r@ == stamp_of(seconds as nat),
{
    let mut out = String::new();
    text::push_decimal(&mut out, seconds / 60);
    out.append(":");
    text::push_decimal2(&mut out, seconds % 60);
    assert(out@ =~= stamp_of(seconds as nat));
    out
}

/// A time as in `1h 1m 5s`, or as in `2m 5s` where it is shorter than an hour.
pub open spec fn duration_of(seconds: nat) -> Seq<char> {
    let short = text::decimal((seconds % 3600) / 60) + "m "@ + text::decimal(seconds % 60) + "s"@;
    if seconds >= 3600 {
        text::decimal(seconds / 3600) + "h "@ + short
    } else {
        short
    }
}

/// A time in hours, minutes and seconds.
pub fn format_duration(seconds: u64) -> (r: String)
    ensures
        r@ == duration_of(seconds as nat),
{
    let mut out = String::new();
    if seconds >= 3600 {
        text::push_decimal(&mut out, seconds / 3600);
        out.append("h ");
    }
    text::push_decimal(&mut out, (seconds % 3600) / 60);
    out.append("m ");
    text::push_decimal(&mut out, seconds % 60);
    out.append("s");
    assert(out@ =~= duration_of(seconds as nat));
    out
}

/// The line of an utterance: who, when, what.
pub open spec fn line_of(
    utterance: Said,
    names: Map<u64, Seq<char>>,
    timeline_start: Nanos,
) -> Seq<char> {
    "["@ + display_of(names, utterance.user_id) + " "@ + stamp_of(
        time::elapsed(utterance.start_ts, timeline_start) / SECOND as nat,
    ) + "] "@ + utterance.text
}

/// The lines of a transcript. Times count from `timeline_start`, or from the first utterance.
pub open spec fn lines_of(
    transcript: Seq<Said>,
    names: Map<u64, Seq<char>>,
    timeline_start: Option<Nanos>,
) -> Seq<Seq<char>> {
    if transcript.len() == 0 {
        seq!["_No captured speech._"@]
    } else {
        let start = match timeline_start {
            Some(start) => start,
            None => transcript[0].start_ts,
        };
        transcript.map_values(|utterance: Said| line_of(utterance, names, start))
    }
}

/// The lines of a transcript.
pub fn build_transcript_lines(
    transcript: &[Utterance],
    names: &HashMap<u64, String>,
    timeline_start: Option<Nanos>,
) -> (r: Vec<String>)
    ensures
        text::texts(r@) == lines_of(said(transcript@), name_views(names@), timeline_start),
{
    let mut lines: Vec<String> = Vec::new();
    let ghost wanted = lines_of(said(transcript@), name_views(names@), timeline_start);
    if transcript.len() == 0 {
        lines.push("_No captured speech._".to_string());
        assert(text::texts(lines@) =~= wanted);
        return lines;
    }
    let start: Nanos = match timeline_start {
        Some(start) => start,
        None => transcript[0].start_ts,
    };
    for i in 0..transcript.len()
        invariant
            transcript@.len() > 0,
            start == (match timeline_start {
                Some(start) => start,
                None => said(transcript@)[0].start_ts,
            }),
            wanted == lines_of(said(transcript@), name_views(names@), timeline_start),
            text::texts(lines@) == wanted.take(i as int),
    {
        let utterance = &transcript[i];
        let ghost before = text::texts(lines@);
        let delta: u64 = time::saturating_elapsed(utterance.start_ts, start);
        let mut line = String::new();
        line.append("[");
        line.append(display_name(names, utterance.user_id).as_str());
        line.append(" ");
        line.append(format_transcript_stamp(delta / SECOND).as_str());
        line.append("] ");
        line.append(utterance.text.as_str());
        assert(line@ =~= line_of(utterance@, name_views(names@), start));
        lines.push(line);
        assert(text::texts(lines@) =~= before.push(wanted[i as int]));
        assert(wanted.take(i + 1) =~= wanted.take(i as int).push(wanted[i as int]));
    }
    assert(wanted.take(wanted.len() as int) =~= wanted);
    lines
}

// ---------------------------------------------------------------------------
// Laws of lines
// ---------------------------------------------------------------------------

/// The whole seconds from `start` to `at`, none where `at` comes first.
pub open spec fn whole_seconds(at: Nanos, start: Nanos) -> nat {
    if at >= start {
        ((at - start) / 1_000_000_000) as nat
    } else {
        0
    }
}

/// `line` says who spoke, at how many minutes and seconds, and what. The seconds have two digits.
pub open spec fn line_reads(
    line: Seq<char>,
    name: Seq<char>,
    minutes: Seq<char>,
    seconds: Seq<char>,
    words: Seq<char>,
) -> bool {
    &&& line == seq!['['] + name + seq![' '] + minutes + seq![':'] + seconds + seq![']', ' ']
        + words
    &&& text::is_number(minutes)
    &&& text::is_number(seconds)
    &&& seconds.len() == 2
    &&& text::digits_value(seconds) < 60
}

/// The seconds that a stamp stands for.
pub open spec fn stamp_seconds(minutes: Seq<char>, seconds: Seq<char>) -> nat {
    text::digits_value(minutes) * 60 + text::digits_value(seconds)
}

proof fn lemma_line_reads(utterance: Said, names: Map<u64, Seq<char>>, start: Nanos) -> (r: (
    Seq<char>,
    Seq<char>,
))
    ensures
        line_reads(
            line_of(utterance, names, start),
            if names.contains_key(utterance.user_id) {
                names[utterance.user_id]
            } else {
                text::decimal(utterance.user_id as nat)
            },
            r.0,
            r.1,
            utterance.text,
        ),
        stamp_seconds(r.0, r.1) == whole_seconds(utterance.start_ts, start),
{
    reveal_strlit("[");
    reveal_strlit(" ");
    reveal_strlit(":");
    reveal_strlit("] ");
    let total = whole_seconds(utterance.start_ts, start);
    let (minutes, seconds) = (text::decimal(total / 60), text::decimal2(total % 60));
    text::law_decimal_reads_back(total / 60);
    text::law_two_digits_read_back(total % 60);
    let name = display_of(names, utterance.user_id);
    assert(time::elapsed(utterance.start_ts, start) / SECOND as nat == total);
    assert(line_of(utterance, names, start) =~= seq!['['] + name + seq![' '] + minutes + seq![
        ':',
    ] + seconds + seq![']', ' '] + utterance.text);
    assert(total == total / 60 * 60 + total % 60);
    (minutes, seconds)
}

/// Every utterance has its line, in its order, and the line says all of it: who spoke, by name
/// where one is known and by number otherwise; what was said, to the letter; and when, by a stamp
/// that reads back as the whole seconds since the start of the timeline, however long the call is.
pub proof fn law_lines_tell_who_when_and_what(
    transcript: Seq<Said>,
    names: Map<u64, Seq<char>>,
    timeline_start: Option<Nanos>,
    i: int,
) -> (r: (Seq<char>, Seq<char>))
    requires
        0 <= i < transcript.len(),
    ensures
        lines_of(transcript, names, timeline_start).len() == transcript.len(),
        line_reads(
            lines_of(transcript, names, timeline_start)[i],
            if names.contains_key(transcript[i].user_id) {
                names[transcript[i].user_id]
            } else {
                text::decimal(transcript[i].user_id as nat)
            },
            r.0,
            r.1,
            transcript[i].text,
        ),
        stamp_seconds(r.0, r.1) == whole_seconds(
            transcript[i].start_ts,
            match timeline_start {
                Some(start) => start,
                None => transcript[0].start_ts,
            },
        ),
{
    let start = match timeline_start {
        Some(start) => start,
        None => transcript[0].start_ts,
    };
    lemma_line_reads(transcript[i], names, start)
}

/// An utterance that begins a second or more after another, and not before the timeline, has a
/// later stamp, however far into the call the two are.
pub proof fn law_stamps_follow_the_clock(
    transcript: Seq<Said>,
    names: Map<u64, Seq<char>>,
    start: Nanos,
    i: int,
    j: int,
) -> (r: ((Seq<char>, Seq<char>), (Seq<char>, Seq<char>)))
    requires
        0 <= i < transcript.len(),
        0 <= j < transcript.len(),
        transcript[j].start_ts >= start + 1_000_000_000,
        transcript[j].start_ts >= transcript[i].start_ts + 1_000_000_000,
    ensures
        ({
            let lines = lines_of(transcript, names, Some(start));
            let name = |k: int|
                if names.contains_key(transcript[k].user_id) {
                    names[transcript[k].user_id]
                } else {
                    text::decimal(transcript[k].user_id as nat)
                };
            &&& line_reads(lines[i], name(i), r.0.0, r.0.1, transcript[i].text)
            &&& line_reads(lines[j], name(j), r.1.0, r.1.1, transcript[j].text)
            &&& stamp_seconds(r.0.0, r.0.1) < stamp_seconds(r.1.0, r.1.1)
        }),
{
    let a = law_lines_tell_who_when_and_what(transcript, names, Some(start), i);
    let b = law_lines_tell_who_when_and_what(transcript, names, Some(start), j);
    (a, b)
}

/// A call in which nobody was heard has one line that says so.
pub proof fn law_silent_call_has_one_line(
    names: Map<u64, Seq<char>>,
    timeline_start: Option<Nanos>,
)
    ensures
        lines_of(Seq::empty(), names, timeline_start) == seq!["_No captured speech._"@],
{
}

/// A stamp reads back: the seconds have two digits and are below sixty, and the minutes count on
/// beyond the hour.
pub proof fn law_stamp_reads_back(seconds: nat)
    ensures
        exists|minutes: Seq<char>, rest: Seq<char>|
            {
                &&& stamp_of(seconds) == #[trigger] (minutes + seq![':'] + rest)
                &&& text::is_number(minutes)
                &&& text::is_number(rest)
                &&& rest.len() == 2
                &&& text::digits_value(rest) < 60
                &&& text::digits_value(minutes) * 60 + text::digits_value(rest) == seconds
            },
{
    reveal_strlit(":");
    let (minutes, rest) = (text::decimal(seconds / 60), text::decimal2(seconds % 60));
    text::law_decimal_reads_back(seconds / 60);
    text::law_two_digits_read_back(seconds % 60);
    assert(stamp_of(seconds) =~= minutes + seq![':'] + rest);
    assert(seconds == seconds / 60 * 60 + seconds % 60);
}

/// A duration reads back as its seconds: minutes and seconds below sixty, and hours where there
/// are any.
pub proof fn law_duration_reads_back(seconds: nat)
    ensures
        exists|hours: Seq<char>, minutes: Seq<char>, rest: Seq<char>|
            {
                &&& #[trigger] duration_reads(duration_of(seconds), hours, minutes, rest)
                &&& text::digits_value(hours) * 3600 + text::digits_value(minutes) * 60
                    + text::digits_value(rest) == seconds
                &&& hours.len() > 0 <==> seconds >= 3600
            },
{
    reveal_strlit("m ");
    reveal_strlit("s");
    reveal_strlit("h ");
    let minutes = text::decimal((seconds % 3600) / 60);
    let rest = text::decimal(seconds % 60);
    text::law_decimal_reads_back((seconds % 3600) / 60);
    text::law_decimal_reads_back(seconds % 60);
    text::law_decimal_reads_back(seconds / 3600);
    let hours = if seconds >= 3600 {
        text::decimal(seconds / 3600)
    } else {
        Seq::empty()
    };
    let short = minutes + seq!['m', ' '] + rest + seq!['s'];
    assert("m "@ =~= seq!['m', ' ']);
    assert("s"@ =~= seq!['s']);
    assert("h "@ =~= seq!['h', ' ']);
    if seconds >= 3600 {
        assert(duration_of(seconds) == hours + seq!['h', ' '] + short);
    } else {
        assert(duration_of(seconds) == short);
        assert(text::digits_value(hours) == 0);
    }
    assert(duration_reads(duration_of(seconds), hours, minutes, rest));
    assert(seconds == 3600 * (seconds / 3600) + seconds % 3600);
    assert(seconds % 3600 == 60 * ((seconds % 3600) / 60) + (seconds % 3600) % 60);
    assert((seconds % 3600) % 60 == seconds % 60);
}

/// `duration` says these hours, where there are any, minutes and seconds.
pub open spec fn duration_reads(
    duration: Seq<char>,
    hours: Seq<char>,
    minutes: Seq<char>,
    seconds: Seq<char>,
) -> bool {
    let short = minutes + seq!['m', ' '] + seconds + seq!['s'];
    &&& text::is_number(minutes)
    &&& text::is_number(seconds)
    &&& text::digits_value(minutes) < 60
    &&& text::digits_value(seconds) < 60
    &&& if hours.len() > 0 {
        text::is_number(hours) && duration == hours + seq!['h', ' '] + short
    } else {
        duration == short
    }
}

/// An entry of the journal tells when its utterance began, in whole milliseconds of the call; and a
/// restored one begins so many milliseconds after the call did.
pub proof fn law_journal_counts_milliseconds(
    start_ts: Nanos,
    call_started: Nanos,
    entry: PersistedUtterance,
)
    ensures
        start_ts >= call_started ==> {
            let ms = offset_ms(start_ts, call_started);
            1_000_000 * ms <= start_ts - call_started < 1_000_000 * ms + 1_000_000
        },
        start_ts < call_started ==> offset_ms(start_ts, call_started) == 0,
        call_started + entry.start_offset_ms * 1_000_000 <= u64::MAX ==> restored(
            entry,
            call_started,
        ).start_ts == call_started + entry.start_offset_ms * 1_000_000,
        restored(entry, call_started).user_id == entry.user_id,
        restored(entry, call_started).text == entry.text@,
{
    if start_ts >= call_started {
        vstd::arithmetic::div_mod::lemma_fundamental_div_mod(
            start_ts - call_started,
            1_000_000,
        );
    }
}

/// Every line of a journal ends with a line feed, before which a carriage return does not count; and
/// the last one may do without.
pub proof fn law_lines_end_with_line_feeds(line: Seq<char>, rest: Seq<char>)
    requires
        lines::single_line(line),
    ensures
        text_lines(Seq::empty()).len() == 0,
        line.len() > 0 ==> text_lines(line) == seq![line],
        line.len() == 0 || line.last() != '\r' ==> text_lines(line + seq!['\n'] + rest) == seq![
            line,
        ] + text_lines(rest) && text_lines(line + seq!['\r', '\n'] + rest) == seq![line]
            + text_lines(rest),
{
    text::lemma_char_position(line, '\n', 0);
    let at = text::char_position(line, '\n', 0);
    assert(at >= line.len()) by {
        if at < line.len() {
            assert(line[at] != '\n');
        }
    }
    let plain = line + seq!['\n'] + rest;
    lemma_first_feed(line, rest);
    assert(plain.take(line.len() as int) =~= line);
    assert(plain.skip(line.len() + 1int) =~= rest);
    let longer = line.push('\r');
    let returned = line + seq!['\r', '\n'] + rest;
    assert(returned =~= longer + seq!['\n'] + rest);
    assert forall|i: int| 0 <= i < longer.len() implies #[trigger] longer[i] != '\n' by {
        if i < line.len() {
            assert(longer[i] == line[i]);
        }
    }
    lemma_first_feed(longer, rest);
    assert(returned.take(longer.len() as int) =~= longer);
    assert(returned.skip(longer.len() + 1int) =~= rest);
    assert(longer.drop_last() =~= line);
}

proof fn lemma_first_feed(line: Seq<char>, rest: Seq<char>)
    requires
        lines::single_line(line),
    ensures
        text::char_position(line + seq!['\n'] + rest, '\n', 0) == line.len(),
{
    let whole = line + seq!['\n'] + rest;
    text::lemma_char_position(whole, '\n', 0);
    let at = text::char_position(whole, '\n', 0);
    assert(whole[line.len() as int] == '\n');
    if at < line.len() {
        assert(whole[at] == line[at]);
        assert(line[at] != '\n');
    }
}

/// A user is shown by the name that is known, to the letter, and by their number where none is.
pub proof fn law_users_are_shown_by_name(names: Map<u64, String>, user: u64)
    ensures
        names.contains_key(user) ==> display_of(name_views(names), user) == names[user]@,
        !names.contains_key(user) ==> text::is_number(display_of(name_views(names), user))
            && text::digits_value(display_of(name_views(names), user)) == user,
{
    text::law_decimal_reads_back(user as nat);
}

/// What is told of an utterance is who said it, when and what, in the order of the transcript.
pub proof fn law_utterances_are_told_whole(transcript: Seq<Utterance>, i: int)
    requires
        0 <= i < transcript.len(),
    ensures
        said(transcript).len() == transcript.len(),
        said(transcript)[i].user_id == transcript[i].user_id,
        said(transcript)[i].start_ts == transcript[i].start_ts,
        said(transcript)[i].text == transcript[i].text@,
{
}

} // verus!
