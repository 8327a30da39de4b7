//! Transcripts as documents, and the messages about their summaries.
use std::collections::HashMap;

use vstd::prelude::*;

use crate::app::clock;
use crate::app::clock::UtcTime;
use crate::app::transcript;
use crate::app::transcript::{build_transcript_lines, format_duration, Utterance};
use crate::lines;
use crate::text;
use crate::time::Nanos;

verus! {

broadcast use {
    vstd::seq::group_seq_axioms,
    vstd::map::group_map_axioms,
    vstd::std_specs::hash::group_hash_axioms,
};

/// The most characters of a summary message.
pub const THREAD_SUMMARY_MAX_CHARS: usize = 1_800;

// ---------------------------------------------------------------------------
// The transcript of a running call
// ---------------------------------------------------------------------------

/// The document of a transcript, when the start of the call is written as `started`.
pub open spec fn transcript_document(
    started: Seq<char>,
    said: Seq<transcript::Said>,
    names: Map<u64, Seq<char>>,
    timeline_start: Option<Nanos>,
) -> Seq<char> {
    text::joined(
        seq![
            "# Meeting Transcript"@,
            ""@,
            "**Started:** "@ + started + " UTC"@,
            ""@,
            "## Transcript"@,
            ""@,
        ] + transcript::lines_of(said, names, timeline_start),
        "\n"@,
    )
}

/// The document of a transcript, when the start of the call is written as `started`.
pub fn transcript_document_with(
    started: &str,
    utterances: &[Utterance],
    names: &HashMap<u64, String>,
    timeline_start: Option<Nanos>,
) -> (r: String)
    ensures
        r@ == transcript_document(
            started@,
            transcript::said(utterances@),
            transcript::name_views(names@),
            timeline_start,
        ),
{
    let mut out: Vec<String> = Vec::new();
    text::push_text(&mut out, "# Meeting Transcript");
    text::push_text(&mut out, "");
    let mut line = String::new();
    line.append("**Started:** ");
    line.append(started);
    line.append(" UTC");
    assert(line@ =~= "**Started:** "@ + started@ + " UTC"@);
    text::push_text(&mut out, line.as_str());
    text::push_text(&mut out, "");
    text::push_text(&mut out, "## Transcript");
    text::push_text(&mut out, "");
    let ghost head = text::texts(out@);
    assert(head =~= seq![
        "# Meeting Transcript"@,
        ""@,
        "**Started:** "@ + started@ + " UTC"@,
        ""@,
        "## Transcript"@,
        ""@,
    ]);
    let mut lines = build_transcript_lines(utterances, names, timeline_start);
    let ghost body = text::texts(lines@);
    out.append(&mut lines);
    assert(text::texts(out@) =~= head + body);
    text::join(out.as_slice(), "\n")
}

/// The document of a transcript whose times count from its first utterance.
pub fn format_transcript(
    utterances: &[Utterance],
    names: &HashMap<u64, String>,
    started_at: UtcTime,
) -> (r: String)
    ensures
        r@ == transcript_document(
            clock::utc_text(started_at@, "%Y-%m-%d %H:%M:%S"@),
            transcript::said(utterances@),
            transcript::name_views(names@),
            None,
        ),
{
    transcript_document_with(started_at.date_time().as_str(), utterances, names, None)
}

/// The document of a transcript whose times count from the start of the call.
pub fn format_transcript_from_call_start(
    utterances: &[Utterance],
    names: &HashMap<u64, String>,
    started_at: UtcTime,
    call_started_mono: Nanos,
) -> (r: String)
    ensures
        r@ == transcript_document(
            clock::utc_text(started_at@, "%Y-%m-%d %H:%M:%S"@),
            transcript::said(utterances@),
            transcript::name_views(names@),
            Some(call_started_mono),
        ),
{
    transcript_document_with(
        started_at.date_time().as_str(),
        utterances,
        names,
        Some(call_started_mono),
    )
}

// ---------------------------------------------------------------------------
// YAML
// ---------------------------------------------------------------------------

/// A character, escaped for a text in double quotes.
pub open spec fn escaped_char(c: char) -> Seq<char> {
    if c == '\\' {
        seq!['\\', '\\']
    } else if c == '"' {
        seq!['\\', '"']
    } else if c == '\r' {
        seq!['\\', 'r']
    } else if c == '\n' {
        seq!['\\', 'n']
    } else {
        seq![c]
    }
}

/// A text, escaped for double quotes.
pub open spec fn escaped(s: Seq<char>) -> Seq<char>
    decreases s.len(),
{
    if s.len() == 0 {
        Seq::empty()
    } else {
        escaped(s.drop_last()) + escaped_char(s.last())
    }
}

/// A text, escaped for double quotes.
pub fn yaml_escape_double_quoted(value: &str) -> (r: String)
    ensures
        r@ == escaped(value@),
{
    let chars = text::chars_of(value);
    let mut out = String::new();
    assert(value@.take(0) =~= Seq::<char>::empty());
    for i in 0..chars.len()
        invariant
            chars@ == value@,
            out@ == escaped(value@.take(i as int)),
    {
        let c = chars[i];
        let ghost before = out@;
        assert(value@.take(i + 1).drop_last() =~= value@.take(i as int));
        if c == '\\' {
            out.push('\\');
            out.push('\\');
        } else if c == '"' {
            out.push('\\');
            out.push('"');
        } else if c == '\r' {
            out.push('\\');
            out.push('r');
        } else if c == '\n' {
            out.push('\\');
            out.push('n');
        } else {
            out.push(c);
        }
        assert(out@ =~= before + escaped_char(c));
    }
    assert(value@.take(value@.len() as int) =~= value@);
    out
}

/// What a text in double quotes means.
pub open spec fn unescaped(s: Seq<char>) -> Seq<char>
    decreases s.len(),
{
    if s.len() == 0 {
        Seq::empty()
    } else if s[0] == '\\' && s.len() > 1 {
        let c = if s[1] == 'r' {
            '\r'
        } else if s[1] == 'n' {
            '\n'
        } else {
            s[1]
        };
        seq![c] + unescaped(s.skip(2))
    } else {
        seq![s[0]] + unescaped(s.drop_first())
    }
}

proof fn lemma_escaped_front(s: Seq<char>)
    requires
        s.len() > 0,
    ensures
        escaped(s) == escaped_char(s[0]) + escaped(s.drop_first()),
    decreases s.len(),
{
    if s.len() == 1 {
        assert(s.drop_last() =~= s.drop_first());
        assert(escaped(s.drop_first()) =~= Seq::<char>::empty());
        assert(escaped(s) =~= escaped_char(s[0]) + escaped(s.drop_first()));
    } else {
        lemma_escaped_front(s.drop_last());
        assert(s.drop_last().drop_first() =~= s.drop_first().drop_last());
        assert(escaped(s) =~= escaped_char(s[0]) + escaped(s.drop_first()));
    }
}

/// A text is read back out of its escaped form.
pub proof fn law_escaping_reads_back(s: Seq<char>)
    ensures
        unescaped(escaped(s)) == s,
    decreases s.len(),
{
    if s.len() > 0 {
        lemma_escaped_front(s);
        law_escaping_reads_back(s.drop_first());
        let rest = escaped(s.drop_first());
        let all = escaped(s);
        let n = escaped_char(s[0]).len() as int;
        assert(all.skip(n) =~= rest);
        if n == 1 {
            assert(all.drop_first() =~= rest);
        }
        assert(unescaped(all) == seq![s[0]] + unescaped(rest));
        assert(seq![s[0]] + s.drop_first() =~= s);
    } else {
        assert(s =~= Seq::<char>::empty());
    }
}

/// An escaped text stands on one line, and holds no carriage return.
pub proof fn law_escaping_stays_on_its_line(s: Seq<char>)
    ensures
        lines::single_line(escaped(s)),
        !escaped(s).contains('\r'),
    decreases s.len(),
{
    if s.len() > 0 {
        law_escaping_stays_on_its_line(s.drop_last());
        let before = escaped(s.drop_last());
        let all = escaped(s);
        assert forall|i: int| 0 <= i < all.len() implies #[trigger] all[i] != '\n' && all[i]
            != '\r' by {
            if i < before.len() {
                assert(all[i] == before[i]);
                assert(before.contains(before[i]));
            }
        }
    }
}

/// A character that needs no quotes.
pub open spec fn plain_char(c: char) -> bool {
    text::ascii_alphanumeric(c) || c == ' ' || c == '-' || c == '_' || c == '.'
}

/// Every character of the text needs no quotes.
pub open spec fn plain(s: Seq<char>) -> bool {
    forall|i: int| 0 <= i < s.len() ==> plain_char(#[trigger] s[i])
}

/// A text as a value on one line: as it is where it is plain, and in double quotes otherwise.
pub open spec fn scalar(s: Seq<char>) -> Seq<char> {
    if plain(s) {
        s
    } else {
        "\""@ + escaped(s) + "\""@
    }
}

/// A text as a value on one line.
pub fn yaml_single_line_scalar(value: &str) -> (r: String)
    ensures
        r@ == scalar(value@),
{
    let chars = text::chars_of(value);
    let mut i: usize = 0;
    while i < chars.len()
        invariant
            chars@ == value@,
            i <= chars@.len(),
            forall|j: int| 0 <= j < i ==> plain_char(#[trigger] value@[j]),
        decreases chars@.len() - i,
    {
        let c = chars[i];
        if !(text::is_ascii_alphanumeric(c) || c == ' ' || c == '-' || c == '_' || c == '.') {
            assert(!plain_char(value@[i as int]));
            let mut out = String::new();
            out.append("\"");
            out.append(yaml_escape_double_quoted(value).as_str());
            out.append("\"");
            assert(out@ =~= scalar(value@));
            return out;
        }
        i += 1;
    }
    value.to_string()
}

// ---------------------------------------------------------------------------
// The export
// ---------------------------------------------------------------------------

/// The users in the order in which they first spoke.
pub open spec fn speakers(said: Seq<transcript::Said>) -> Seq<u64>
    decreases said.len(),
{
    if said.len() == 0 {
        Seq::empty()
    } else {
        let earlier = speakers(said.drop_last());
        let user = said.last().user_id;
        if earlier.contains(user) {
            earlier
        } else {
            earlier.push(user)
        }
    }
}

/// The names of the users, in the order in which they first spoke. Users without a name are left
/// out.
pub open spec fn attendees(users: Seq<u64>, names: Map<u64, Seq<char>>) -> Seq<Seq<char>>
    decreases users.len(),
{
    if users.len() == 0 {
        Seq::empty()
    } else {
        let earlier = attendees(users.drop_last(), names);
        if names.contains_key(users.last()) {
            earlier.push(names[users.last()])
        } else {
            earlier
        }
    }
}

fn seen_before(users: &Vec<u64>, user: u64) -> (r: bool)
    ensures
        r == users@.contains(user),
{
    for i in 0..users.len()
        invariant
            forall|j: int| 0 <= j < i ==> users@[j] != user,
    {
        if users[i] == user {
            return true;
        }
    }
    false
}

/// The names of the users, in the order in which they first spoke.
pub fn attendees_in_order(utterances: &[Utterance], names: &HashMap<u64, String>) -> (r: Vec<
    String,
>)
    ensures
        text::texts(r@) == attendees(
            speakers(transcript::said(utterances@)),
            transcript::name_views(names@),
        ),
{
    let mut seen: Vec<u64> = Vec::new();
    let mut out: Vec<String> = Vec::new();
    let ghost said = transcript::said(utterances@);
    let ghost views = transcript::name_views(names@);
    assert(said.take(0) =~= Seq::<transcript::Said>::empty());
    assert(text::texts(out@) =~= Seq::<Seq<char>>::empty());
    for i in 0..utterances.len()
        invariant
            said == transcript::said(utterances@),
            views == transcript::name_views(names@),
            seen@ == speakers(said.take(i as int)),
            text::texts(out@) == attendees(seen@, views),
    {
        let user: u64 = utterances[i].user_id;
        let ghost before = seen@;
        let ghost earlier = text::texts(out@);
        assert(said.take(i + 1).drop_last() =~= said.take(i as int));
        if !seen_before(&seen, user) {
            seen.push(user);
            assert(seen@.drop_last() =~= before);
            if let Some(name) = names.get(&user) {
                out.push(name.clone());
                assert(text::texts(out@) =~= earlier.push(name@));
            }
        }
    }
    assert(said.take(said.len() as int) =~= said);
    out
}

/// The lines that name the attendees, where there are any.
pub open spec fn attendee_lines(list: Seq<Seq<char>>) -> Seq<Seq<char>> {
    if list.len() == 0 {
        Seq::empty()
    } else {
        seq!["attendees:"@] + list.map_values(|name: Seq<char>| "  - "@ + scalar(name))
    }
}

/// The front matter of an export, up to the line that closes it.
pub open spec fn front_matter(
    title: Seq<char>,
    date: Seq<char>,
    seconds: nat,
    people: Seq<Seq<char>>,
) -> Seq<Seq<char>> {
    seq![
        "---"@,
        "title: \""@ + escaped(title) + "\""@,
        "type: meeting"@,
        "date: "@ + date,
        "duration: \""@ + transcript::duration_of(seconds) + "\""@,
        "source: discord"@,
        "status: complete"@,
    ] + attendee_lines(people)
}

/// The summary that goes into an export: the text without white space at its ends, where one is
/// to be in the export and any is left.
pub open spec fn exported_summary(summary: Option<Seq<char>>, include_summary: bool) -> Option<
    Seq<char>,
> {
    if include_summary {
        text::nonblank(summary)
    } else {
        None
    }
}

/// The lines of the summary, where one is to be in the export and there is one.
pub open spec fn summary_lines(summary: Option<Seq<char>>, include_summary: bool) -> Seq<Seq<char>> {
    match exported_summary(summary, include_summary) {
        Some(s) => seq![s, ""@],
        None => Seq::empty(),
    }
}

/// One of the lines of the summary is the heading of a transcript.
pub open spec fn has_own_heading(summary: Option<Seq<char>>) -> bool {
    match summary {
        Some(s) => text::split(s, '\n').contains("## Transcript"@),
        None => false,
    }
}

/// The lines of an export behind the line that closes the front matter.
pub open spec fn export_body(
    summary: Option<Seq<char>>,
    include_summary: bool,
    transcript_lines: Seq<Seq<char>>,
) -> Seq<Seq<char>> {
    seq![""@] + summary_lines(summary, include_summary) + seq!["## Transcript"@, ""@]
        + transcript_lines + seq![""@]
}

/// An export, when the date is written as `date`. Each utterance has the time from the start of
/// the call.
pub open spec fn export_text(
    said: Seq<transcript::Said>,
    names: Map<u64, Seq<char>>,
    date: Seq<char>,
    call_started: Nanos,
    seconds: nat,
    title: Seq<char>,
    summary: Option<Seq<char>>,
    include_summary: bool,
) -> Seq<char> {
    text::joined(
        front_matter(title, date, seconds, attendees(speakers(said), names)) + seq!["---"@]
            + export_body(
            summary,
            include_summary,
            transcript::lines_of(said, names, Some(call_started)),
        ),
        "\n"@,
    )
}

/// What an optional text holds.
pub open spec fn opt_text(s: Option<&str>) -> Option<Seq<char>> {
    match s {
        Some(s) => Some(s@),
        None => None,
    }
}

/// The lines that name the attendees.
fn push_attendees(out: &mut Vec<String>, people: &Vec<String>)
    ensures
        text::texts(final(out)@) == text::texts(old(out)@) + attendee_lines(text::texts(people@)),
{
    let ghost list = text::texts(people@);
    let ghost start = text::texts(out@);
    if people.len() == 0 {
        assert(start + attendee_lines(list) =~= start);
        return;
    }
    text::push_text(out, "attendees:");
    let ghost listed = list.map_values(|name: Seq<char>| "  - "@ + scalar(name));
    let ghost begun = text::texts(out@);
    assert(begun + listed.take(0) =~= begun);
    for i in 0..people.len()
        invariant
            list == text::texts(people@),
            listed == list.map_values(|name: Seq<char>| "  - "@ + scalar(name)),
            text::texts(out@) == begun + listed.take(i as int),
    {
        let item = yaml_single_line_scalar(people[i].as_str());
        text::push_line(out, "  - ", item.as_str(), "");
        proof {
            reveal_strlit("");
            assert("  - "@ + item@ + ""@ =~= "  - "@ + item@);
        }
        assert(begun + listed.take(i + 1) =~= (begun + listed.take(i as int)).push(
            listed[i as int],
        ));
    }
    assert(listed.take(listed.len() as int) =~= listed);
    assert(begun + listed =~= start + attendee_lines(list));
}

/// The front matter of an export, up to the line that closes it.
fn front_matter_lines(title: &str, date: &str, call_seconds: u64, people: &Vec<String>) -> (r: Vec<
    String,
>)
    ensures
        text::texts(r@) == front_matter(
            title@,
            date@,
            call_seconds as nat,
            text::texts(people@),
        ),
{
    let escaped_title = yaml_escape_double_quoted(title);
    let duration = format_duration(call_seconds);
    let mut out: Vec<String> = Vec::new();
    assert(text::texts(out@) =~= Seq::<Seq<char>>::empty());
    text::push_text(&mut out, "---");
    text::push_line(&mut out, "title: \"", escaped_title.as_str(), "\"");
    text::push_text(&mut out, "type: meeting");
    text::push_line(&mut out, "date: ", date, "");
    proof {
        reveal_strlit("");
        assert("date: "@ + date@ + ""@ =~= "date: "@ + date@);
    }
    text::push_line(&mut out, "duration: \"", duration.as_str(), "\"");
    text::push_text(&mut out, "source: discord");
    text::push_text(&mut out, "status: complete");
    assert(text::texts(out@) =~= seq![
        "---"@,
        "title: \""@ + escaped(title@) + "\""@,
        "type: meeting"@,
        "date: "@ + date@,
        "duration: \""@ + transcript::duration_of(call_seconds as nat) + "\""@,
        "source: discord"@,
        "status: complete"@,
    ]);
    push_attendees(&mut out, people);
    out
}

/// The lines of an export behind the line that closes the front matter.
fn export_body_lines(
    summary: Option<&str>,
    include_summary_in_markdown: bool,
    transcript_lines: Vec<String>,
) -> (r: Vec<String>)
    ensures
        text::texts(r@) == export_body(
            opt_text(summary),
            include_summary_in_markdown,
            text::texts(transcript_lines@),
        ),
{
    let mut transcript_lines = transcript_lines;
    let ghost body = text::texts(transcript_lines@);
    let mut out: Vec<String> = Vec::new();
    assert(text::texts(out@) =~= Seq::<Seq<char>>::empty());
    text::push_text(&mut out, "");
    let ghost opened = text::texts(out@);
    assert(opened =~= seq![""@]);
    if include_summary_in_markdown {
        if let Some(summary) = summary {
            if let Some(trimmed) = usable_summary(summary) {
                text::push_text(&mut out, trimmed.as_str());
                text::push_text(&mut out, "");
            }
        }
    }
    assert(text::texts(out@) =~= opened + summary_lines(
        opt_text(summary),
        include_summary_in_markdown,
    ));
    text::push_text(&mut out, "## Transcript");
    text::push_text(&mut out, "");
    let ghost headed = text::texts(out@);
    assert(headed =~= opened + summary_lines(opt_text(summary), include_summary_in_markdown)
        + seq!["## Transcript"@, ""@]);
    out.append(&mut transcript_lines);
    assert(text::texts(out@) =~= headed + body);
    text::push_text(&mut out, "");
    assert(text::texts(out@) =~= headed + body + seq![""@]);
    out
}

/// An export, when the date is written as `date`.
pub fn export_markdown_with_date(
    utterances: &[Utterance],
    names: &HashMap<u64, String>,
    date: &str,
    call_started_mono: Nanos,
    call_seconds: u64,
    title: &str,
    summary: Option<&str>,
    include_summary_in_markdown: bool,
) -> (r: String)
    ensures
        r@ == export_text(
            transcript::said(utterances@),
            transcript::name_views(names@),
            date@,
            call_started_mono,
            call_seconds as nat,
            title@,
            opt_text(summary),
            include_summary_in_markdown,
        ),
{
    let people = attendees_in_order(utterances, names);
    let mut out = front_matter_lines(title, date, call_seconds, &people);
    let ghost front = text::texts(out@);
    text::push_text(&mut out, "---");
    let ghost closed = text::texts(out@);
    assert(closed =~= front + seq!["---"@]);
    let lines = build_transcript_lines(utterances, names, Some(call_started_mono));
    let mut body = export_body_lines(summary, include_summary_in_markdown, lines);
    let ghost rest = text::texts(body@);
    out.append(&mut body);
    assert(text::texts(out@) =~= closed + rest);
    text::join(out.as_slice(), "\n")
}

/// The export of a call. Its summary can be read back from it, as long as the summary has no
/// heading of a transcript of its own.
pub fn format_export_markdown_with_names(
    utterances: &[Utterance],
    names: &HashMap<u64, String>,
    started_at: UtcTime,
    call_started_mono: Nanos,
    call_seconds: u64,
    title: &str,
    summary: Option<&str>,
    include_summary_in_markdown: bool,
) -> (r: String)
    ensures
        r@ == export_text(
            transcript::said(utterances@),
            transcript::name_views(names@),
            clock::utc_rfc3339(started_at@),
            call_started_mono,
            call_seconds as nat,
            title@,
            opt_text(summary),
            include_summary_in_markdown,
        ),
        !has_own_heading(exported_summary(opt_text(summary), include_summary_in_markdown))
            ==> summary_of_export(r@) == exported_summary(
            opt_text(summary),
            include_summary_in_markdown,
        ),
{
    let date = started_at.rfc3339();
    proof {
        if !has_own_heading(exported_summary(opt_text(summary), include_summary_in_markdown)) {
            law_cached_summary_reads_back(
                transcript::said(utterances@),
                transcript::name_views(names@),
                date@,
                call_started_mono,
                call_seconds as nat,
                title@,
                opt_text(summary),
                include_summary_in_markdown,
            );
        }
    }
    export_markdown_with_date(
        utterances,
        names,
        date.as_str(),
        call_started_mono,
        call_seconds,
        title,
        summary,
        include_summary_in_markdown,
    )
}

/// The title of a call whose start is written as `started`.
pub fn call_title_with(started: &str) -> (r: String)
    ensures
        r@ == "Transcript "@ + started@,
{
    let mut out = String::new();
    out.append("Transcript ");
    out.append(started);
    assert(out@ =~= "Transcript "@ + started@);
    out
}

/// The title of a call.
pub fn format_call_title(started_at: UtcTime) -> (r: String)
    ensures
        r@ == "Transcript "@ + clock::utc_text(started_at@, "%Y-%m-%d %H:%M:%S UTC"@),
{
    call_title_with(started_at.date_time_utc().as_str())
}

// ---------------------------------------------------------------------------
// Summaries
// ---------------------------------------------------------------------------

/// A summary that is worth keeping: the text without white space at its ends, where any is left.
pub fn usable_summary(summary: &str) -> (r: Option<String>)
    ensures
        match r {
            Some(s) => s@ == text::trimmed(summary@) && s@.len() > 0,
            None => text::trimmed(summary@).len() == 0,
        },
{
    let trimmed = text::trim(summary);
    if text::chars_of(trimmed.as_str()).len() == 0 {
        None
    } else {
        Some(trimmed)
    }
}

/// The message with a summary. A long summary is cut.
pub open spec fn summary_message(summary: Seq<char>) -> Seq<char> {
    let trimmed = text::trimmed(summary);
    if trimmed.len() == 0 {
        Seq::empty()
    } else if trimmed.len() > 1_780 {
        "## Meeting summary\n\n"@ + trimmed.take(1_762) + "\n\n(truncated)"@
    } else {
        "## Meeting summary\n\n"@ + trimmed
    }
}

/// The message with a summary.
pub fn format_summary_thread_message(summary: &str) -> (r: String)
    ensures
        r@ == summary_message(summary@),
{
    let trimmed = text::trim(summary);
    let chars = text::chars_of(trimmed.as_str());
    let mut out = String::new();
    if chars.len() == 0 {
        return out;
    }
    out.append("## Meeting summary\n\n");
    if chars.len() > 1_780 {
        let kept = text::string_between(chars.as_slice(), 0, 1_762);
        assert(kept@ =~= trimmed@.take(1_762));
        out.append(kept.as_str());
        out.append("\n\n(truncated)");
    } else {
        out.append(trimmed.as_str());
    }
    assert(out@ =~= summary_message(summary@));
    out
}

/// One of the lines of the message is the heading of a summary.
pub open spec fn has_summary_heading(message: Seq<char>) -> bool {
    exists|i: int|
        0 <= i < text::split(message, '\n').len() && text::trimmed(
            #[trigger] text::split(message, '\n')[i],
        ) == "## Meeting summary"@
}

/// Whether a message is one with a summary.
pub fn is_summary_thread_message(message: &str) -> (r: bool)
    ensures
        r == has_summary_heading(message@),
{
    let parts = text::str_split(message, '\n');
    let ghost all = text::split(message@, '\n');
    for i in 0..parts.len()
        invariant
            all == text::split(message@, '\n'),
            text::texts(parts@) == all,
            forall|j: int| 0 <= j < i ==> text::trimmed(#[trigger] all[j]) != "## Meeting summary"@,
    {
        assert(all[i as int] == parts@[i as int]@);
        let line = text::trim(parts[i].as_str());
        if text::same(line.as_str(), "## Meeting summary") {
            return true;
        }
    }
    false
}

/// The summary that an export holds, where it holds one.
pub open spec fn summary_of_export(markdown: Seq<char>) -> Option<Seq<char>> {
    match text::split_once(markdown, "\n---\n"@) {
        Some((_, body)) => match text::split_once(body, "\n## Transcript\n"@) {
            Some((summary, _)) => if text::trimmed(summary).len() > 0 {
                Some(text::trimmed(summary))
            } else {
                None
            },
            None => None,
        },
        None => None,
    }
}

/// The summary that an export holds.
pub fn cached_summary_from_export_markdown(markdown: &str) -> (r: Option<String>)
    ensures
        match r {
            Some(summary) => summary_of_export(markdown@) == Some(summary@),
            None => summary_of_export(markdown@) is None,
        },
{
    match text::str_split_once(markdown, "\n---\n") {
        Some((_, body)) => match text::str_split_once(body.as_str(), "\n## Transcript\n") {
            Some((summary, _)) => usable_summary(summary.as_str()),
            None => None,
        },
        None => None,
    }
}

// ---------------------------------------------------------------------------
// Laws of exports and summaries
// ---------------------------------------------------------------------------

proof fn lemma_single_line_concat(a: Seq<char>, b: Seq<char>)
    requires
        lines::single_line(a),
        lines::single_line(b),
    ensures
        lines::single_line(a + b),
{
    assert forall|i: int| 0 <= i < (a + b).len() implies #[trigger] (a + b)[i] != '\n' by {
        if i < a.len() {
            assert((a + b)[i] == a[i]);
        } else {
            assert((a + b)[i] == b[i - a.len()]);
        }
    }
}

proof fn lemma_decimal_single_line(n: nat)
    ensures
        lines::single_line(text::decimal(n)),
    decreases n,
{
    if n >= 10 {
        lemma_decimal_single_line(n / 10);
    }
}

proof fn lemma_duration_single_line(seconds: nat)
    ensures
        lines::single_line(transcript::duration_of(seconds)),
{
    reveal_strlit("m ");
    reveal_strlit("s");
    reveal_strlit("h ");
    let minutes = text::decimal((seconds % 3600) / 60);
    let rest = text::decimal(seconds % 60);
    let hours = text::decimal(seconds / 3600);
    lemma_decimal_single_line((seconds % 3600) / 60);
    lemma_decimal_single_line(seconds % 60);
    lemma_decimal_single_line(seconds / 3600);
    lemma_single_line_concat(minutes, "m "@);
    lemma_single_line_concat(minutes + "m "@, rest);
    lemma_single_line_concat(minutes + "m "@ + rest, "s"@);
    lemma_single_line_concat(hours, "h "@);
    lemma_single_line_concat(hours + "h "@, minutes + "m "@ + rest + "s"@);
}

proof fn lemma_scalar_single_line(s: Seq<char>)
    ensures
        lines::single_line(scalar(s)),
{
    law_escaping_stays_on_its_line(s);
    reveal_strlit("\"");
    lemma_single_line_concat("\""@, escaped(s));
    lemma_single_line_concat("\""@ + escaped(s), "\""@);
    if plain(s) {
        assert forall|i: int| 0 <= i < s.len() implies #[trigger] s[i] != '\n' by {
            assert(plain_char(s[i]));
        }
    }
}

proof fn lemma_front_matter_lines(
    title: Seq<char>,
    date: Seq<char>,
    seconds: nat,
    people: Seq<Seq<char>>,
)
    requires
        lines::single_line(date),
    ensures
        ({
            let front = front_matter(title, date, seconds, people);
            &&& front.len() > 0
            &&& forall|i: int| 0 <= i < front.len() ==> lines::single_line(#[trigger] front[i])
            &&& forall|i: int| 1 <= i < front.len() ==> #[trigger] front[i] != "---"@
        }),
{
    let front = front_matter(title, date, seconds, people);
    reveal_strlit("---");
    reveal_strlit("title: \"");
    reveal_strlit("\"");
    reveal_strlit("type: meeting");
    reveal_strlit("date: ");
    reveal_strlit("duration: \"");
    reveal_strlit("source: discord");
    reveal_strlit("status: complete");
    reveal_strlit("attendees:");
    reveal_strlit("  - ");
    law_escaping_stays_on_its_line(title);
    lemma_single_line_concat("title: \""@, escaped(title));
    lemma_single_line_concat("title: \""@ + escaped(title), "\""@);
    lemma_single_line_concat("date: "@, date);
    lemma_duration_single_line(seconds);
    let duration = transcript::duration_of(seconds);
    lemma_single_line_concat("duration: \""@, duration);
    lemma_single_line_concat("duration: \""@ + duration, "\""@);
    assert(front[0] == "---"@);
    assert(front[1][0] == 't');
    assert(front[2][0] == 't');
    assert(front[3][0] == 'd');
    assert(front[4][0] == 'd');
    assert(front[5][0] == 's');
    assert(front[6][0] == 's');
    assert("---"@[0] == '-');
    assert forall|i: int| 7 <= i < front.len() implies lines::single_line(#[trigger] front[i])
        && front[i] != "---"@ by {
        assert(front[i] == attendee_lines(people)[i - 7]);
        if i == 7 {
            assert(front[i] == "attendees:"@);
            assert(front[i][0] == 'a');
        } else {
            let name = people[i - 8];
            assert(front[i] == "  - "@ + scalar(name));
            lemma_scalar_single_line(name);
            lemma_single_line_concat("  - "@, scalar(name));
            assert(front[i][0] == ' ');
        }
    }
    assert forall|i: int| 0 <= i < front.len() implies lines::single_line(#[trigger] front[i]) by {
        if i < 7 {
            assert(i == 0 || i == 1 || i == 2 || i == 3 || i == 4 || i == 5 || i == 6);
        }
    }
    assert forall|i: int| 1 <= i < front.len() implies #[trigger] front[i] != "---"@ by {
        if i < 7 {
            assert(i == 1 || i == 2 || i == 3 || i == 4 || i == 5 || i == 6);
        }
    }
}

/// The first line of dashes behind the beginning closes the front matter, whatever the title and
/// the names of the attendees are: neither can end it early.
pub proof fn law_front_matter_is_closed_once(
    said: Seq<transcript::Said>,
    names: Map<u64, Seq<char>>,
    date: Seq<char>,
    call_started: Nanos,
    seconds: nat,
    title: Seq<char>,
    summary: Option<Seq<char>>,
    include_summary: bool,
)
    requires
        lines::single_line(date),
    ensures
        text::split_once(
            export_text(
                said,
                names,
                date,
                call_started,
                seconds,
                title,
                summary,
                include_summary,
            ),
            "\n---\n"@,
        ) == Some(
            (
                text::joined(
                    front_matter(title, date, seconds, attendees(speakers(said), names)),
                    "\n"@,
                ),
                text::joined(
                    export_body(
                        summary,
                        include_summary,
                        transcript::lines_of(said, names, Some(call_started)),
                    ),
                    "\n"@,
                ),
            ),
        ),
{
    let front = front_matter(title, date, seconds, attendees(speakers(said), names));
    let body = export_body(
        summary,
        include_summary,
        transcript::lines_of(said, names, Some(call_started)),
    );
    reveal_strlit("\n");
    reveal_strlit("---");
    reveal_strlit("\n---\n");
    assert("\n"@ =~= lines::line_feed());
    let marker = lines::line_feed() + "---"@ + lines::line_feed();
    assert("\n---\n"@ =~= marker);
    lemma_front_matter_lines(title, date, seconds, attendees(speakers(said), names));
    let rest = text::joined(body, "\n"@);
    let head = text::joined(front, "\n"@);
    let all = export_text(
        said,
        names,
        date,
        call_started,
        seconds,
        title,
        summary,
        include_summary,
    );
    lines::lemma_joined_concat(front + seq!["---"@], body, "\n"@);
    lines::lemma_joined_concat(front, seq!["---"@], "\n"@);
    assert(all =~= head + (lines::line_feed() + "---"@ + lines::line_feed() + rest));
    lines::lemma_first_line(front, "---"@, rest);
    assert(all.take(head.len() as int) =~= head);
    assert(all.skip((head.len() + marker.len()) as int) =~= rest);
}

/// The heading of the transcript is found behind lines without one.
proof fn lemma_heading_found(part: Seq<char>, rest: Seq<char>)
    requires
        part.len() > 0,
        part.last() == '\n',
        !text::contains(part, "\n## Transcript\n"@),
    ensures
        text::find_from(
            part + ("\n## Transcript\n"@ + rest),
            "\n## Transcript\n"@,
            0,
        ) == Some(part.len() as int),
{
    let marker = "\n## Transcript\n"@;
    reveal_strlit("\n## Transcript\n");
    let whole = part + (marker + rest);
    let at = part.len() as int;
    assert(whole.subrange(at, at + marker.len()) =~= marker);
    assert forall|i: int| 0 <= i < at implies !#[trigger] text::occurs_at(whole, marker, i) by {
        if text::occurs_at(whole, marker, i) {
            let window = whole.subrange(i, i + marker.len());
            if i + marker.len() <= at {
                assert(part.subrange(i, i + marker.len()) =~= window);
                assert(text::occurs_at(part, marker, i));
            } else {
                let j = at - 1 - i;
                assert(window[j] == marker[j]);
                assert(marker[j] == '\n');
                assert(window[1] == marker[1]);
                assert(whole[at] == marker[0]);
            }
        }
    }
    lines::lemma_found_at(whole, marker, at);
}

/// A text in which the heading of the transcript stands between line feeds has it as a line.
proof fn lemma_heading_is_a_line(s: Seq<char>)
    ensures
        text::contains(lines::line_feed() + s + lines::line_feed(), "\n## Transcript\n"@)
            ==> has_own_heading(Some(s)),
{
    let marker = "\n## Transcript\n"@;
    let heading = "## Transcript"@;
    reveal_strlit("\n## Transcript\n");
    reveal_strlit("## Transcript");
    let whole = lines::line_feed() + s + lines::line_feed();
    if text::contains(whole, marker) {
        let i = choose|i: int| #[trigger] text::occurs_at(whole, marker, i);
        assert(whole.subrange(i, i + marker.len()) =~= marker);
        let window = whole.subrange(i, i + marker.len());
        assert(s.subrange(i, i + heading.len()) =~= heading) by {
            let inner = s.subrange(i, i + heading.len());
            assert forall|k: int| 0 <= k < heading.len() implies #[trigger] inner[k]
                == heading[k] by {
                assert(window[k + 1] == marker[k + 1]);
                assert(whole[i + (k + 1)] == s[i + k]);
                assert(heading[k] == marker[k + 1]);
            }
        }
        let end = i + heading.len();
        assert(window[0] == marker[0]);
        assert(window[marker.len() - 1] == marker[marker.len() - 1]);
        let tail = s.skip(i);
        lines::lemma_split_whole(heading, '\n');
        let parts = text::split(tail, '\n');
        if end < s.len() {
            assert(s[end] == '\n');
            assert(tail =~= heading + seq!['\n'] + s.skip(end + 1));
            lines::lemma_split_concat(heading, '\n', s.skip(end + 1));
        } else {
            assert(tail =~= heading);
        }
        assert(parts[0] == heading);
        if i > 0 {
            assert(whole[i] == s[i - 1]);
            assert(s =~= s.take(i - 1) + seq!['\n'] + tail);
            lines::lemma_split_concat(s.take(i - 1), '\n', tail);
            let k = text::split(s.take(i - 1), '\n').len() as int;
            assert(text::split(s, '\n')[k] == heading);
        } else {
            assert(tail =~= s);
        }
    }
}

/// The summary that an export was made with is read back from it, as long as no line of it is the
/// heading `## Transcript`; from an export without a summary none is read.
pub proof fn law_cached_summary_reads_back(
    said: Seq<transcript::Said>,
    names: Map<u64, Seq<char>>,
    date: Seq<char>,
    call_started: Nanos,
    seconds: nat,
    title: Seq<char>,
    summary: Option<Seq<char>>,
    include_summary: bool,
)
    requires
        lines::single_line(date),
        !has_own_heading(exported_summary(summary, include_summary)),
    ensures
        summary_of_export(
            export_text(
                said,
                names,
                date,
                call_started,
                seconds,
                title,
                summary,
                include_summary,
            ),
        ) == exported_summary(summary, include_summary),
{
    let transcript_lines = transcript::lines_of(said, names, Some(call_started));
    let body = export_body(summary, include_summary, transcript_lines);
    let marker = "\n## Transcript\n"@;
    law_front_matter_is_closed_once(
        said,
        names,
        date,
        call_started,
        seconds,
        title,
        summary,
        include_summary,
    );
    reveal_strlit("\n");
    reveal_strlit("");
    reveal_strlit("## Transcript");
    reveal_strlit("\n## Transcript\n");
    assert("\n"@ =~= lines::line_feed());
    assert(marker =~= lines::line_feed() + "## Transcript"@ + lines::line_feed());
    let text_of_body = text::joined(body, "\n"@);
    let after = seq![""@] + transcript_lines + seq![""@];
    let rest = text::joined(after, "\n"@);
    lines::lemma_joined_concat(seq!["## Transcript"@], after, "\n"@);
    match exported_summary(summary, include_summary) {
        Some(trimmed) => {
            let opening = seq![""@, trimmed, ""@];
            assert(body =~= opening + (seq!["## Transcript"@] + after));
            lines::lemma_joined_concat(opening, seq!["## Transcript"@] + after, "\n"@);
            lines::lemma_joined_concat(seq![""@], seq![trimmed, ""@], "\n"@);
            lines::lemma_joined_concat(seq![trimmed], seq![""@], "\n"@);
            assert(opening =~= seq![""@] + seq![trimmed, ""@]);
            assert(seq![trimmed, ""@] =~= seq![trimmed] + seq![""@]);
            let part = lines::line_feed() + trimmed + lines::line_feed();
            assert(text::joined(opening, "\n"@) =~= part);
            assert(text_of_body =~= part + (marker + rest));
            lemma_heading_is_a_line(trimmed);
            lemma_heading_found(part, rest);
            assert(text_of_body.take(part.len() as int) =~= part);
            lines::lemma_trimmed_ends(summary.unwrap());
            lines::lemma_trim_line_feeds(trimmed);
        },
        None => {
            assert(body =~= seq![""@] + (seq!["## Transcript"@] + after));
            lines::lemma_joined_concat(seq![""@], seq!["## Transcript"@] + after, "\n"@);
            assert(text_of_body =~= marker + rest);
            assert(text_of_body.subrange(0, marker.len() as int) =~= marker);
            assert(text::occurs_at(text_of_body, marker, 0));
            lines::lemma_found_at(text_of_body, marker, 0);
            assert(text_of_body.take(0) =~= Seq::<char>::empty());
        },
    }
}

/// A message with a summary fits into a message, and is recognized as one, also behind other text
/// on lines of its own.
pub proof fn law_summary_message_is_recognized(summary: Seq<char>, before: Seq<char>)
    requires
        text::trimmed(summary).len() > 0,
    ensures
        summary_message(summary).len() <= THREAD_SUMMARY_MAX_CHARS,
        has_summary_heading(summary_message(summary)),
        has_summary_heading(before + lines::line_feed() + summary_message(summary)),
{
    let message = summary_message(summary);
    let heading = "## Meeting summary"@;
    reveal_strlit("## Meeting summary");
    reveal_strlit("## Meeting summary\n\n");
    reveal_strlit("\n\n(truncated)");
    let tail = message.skip(19);
    assert(message =~= heading + seq!['\n'] + tail);
    lines::lemma_split_concat(heading, '\n', tail);
    lines::lemma_split_whole(heading, '\n');
    assert(text::trim_start(heading) == heading);
    assert(text::trim_end(heading) == heading);
    let parts = text::split(message, '\n');
    assert(parts[0] == heading);
    assert(text::trimmed(parts[0]) == heading);
    let whole = before + lines::line_feed() + message;
    lines::lemma_split_concat(before, '\n', message);
    let more = text::split(whole, '\n');
    let k = text::split(before, '\n').len() as int;
    assert(more[k] == parts[0]);
    assert(text::trimmed(more[k]) == heading);
}

/// Those who spoke, each once, in the order in which they first did.
pub proof fn law_speakers_come_in_order(said: Seq<transcript::Said>, user: u64)
    ensures
        speakers(said).contains(user) <==> exists|i: int|
            0 <= i < said.len() && (#[trigger] said[i]).user_id == user,
        forall|p: int, q: int|
            0 <= p < q < speakers(said).len() ==> #[trigger] speakers(said)[p]
                != #[trigger] speakers(said)[q],
        forall|p: int|
            0 <= p < speakers(said).len() ==> first_speaks_after(
                said,
                #[trigger] speakers(said)[p],
                speakers(said).take(p),
            ),
    decreases said.len(),
{
    if said.len() > 0 {
        let rest = said.drop_last();
        law_speakers_come_in_order(rest, user);
        law_speakers_come_in_order(rest, said.last().user_id);
        let earlier = speakers(rest);
        let all = speakers(said);
        let last = said.len() - 1;
        if exists|i: int| 0 <= i < said.len() && (#[trigger] said[i]).user_id == user {
            let i = choose|i: int| 0 <= i < said.len() && (#[trigger] said[i]).user_id == user;
            if i < last {
                assert(rest[i].user_id == user);
                let p = choose|p: int| 0 <= p < earlier.len() && earlier[p] == user;
                assert(all[p] == user);
            } else if earlier.contains(user) {
                assert(all.contains(user));
            } else {
                assert(all[earlier.len() as int] == user);
            }
        }
        if all.contains(user) {
            if earlier.contains(user) {
                let i = choose|i: int| 0 <= i < rest.len() && (#[trigger] rest[i]).user_id == user;
                assert(said[i].user_id == user);
            } else {
                let p = choose|p: int| 0 <= p < all.len() && all[p] == user;
                assert(p == earlier.len());
                assert(said[last].user_id == user);
            }
        }
        assert forall|p: int| 0 <= p < all.len() implies first_speaks_after(
            said,
            #[trigger] all[p],
            all.take(p),
        ) by {
            if p < earlier.len() {
                assert(all[p] == earlier[p]);
                assert(all.take(p) =~= earlier.take(p));
                assert(first_speaks_after(rest, earlier[p], earlier.take(p)));
                let i = choose|i: int|
                    0 <= i < rest.len() && (#[trigger] rest[i]).user_id == earlier[p] && forall|
                        j: int,
                    |
                        0 <= j < i ==> earlier.take(p).contains((#[trigger] rest[j]).user_id);
                assert(said[i].user_id == all[p]);
                assert forall|j: int| 0 <= j < i implies all.take(p).contains(
                    (#[trigger] said[j]).user_id,
                ) by {
                    assert(rest[j] == said[j]);
                }
            } else {
                assert(all.take(p) =~= earlier);
                assert(said[last].user_id == all[p]);
                assert forall|j: int| 0 <= j < last implies all.take(p).contains(
                    (#[trigger] said[j]).user_id,
                ) by {
                    assert(rest[j] == said[j]);
                    law_speakers_come_in_order(rest, said[j].user_id);
                }
            }
        }
    }
}

/// Before the user first spoke, only those before them did.
pub open spec fn first_speaks_after(
    said: Seq<transcript::Said>,
    user: u64,
    before: Seq<u64>,
) -> bool {
    exists|i: int|
        0 <= i < said.len() && (#[trigger] said[i]).user_id == user && forall|j: int|
            0 <= j < i ==> before.contains((#[trigger] said[j]).user_id)
}

/// The attendees are the names of those users who have one, in the order of the users.
pub proof fn law_attendees_are_named(users: Seq<u64>, names: Map<u64, Seq<char>>)
    ensures
        attendees(users, names) == users.filter(|user: u64| names.contains_key(user)).map_values(
            |user: u64| names[user],
        ),
    decreases users.len(),
{
    reveal(Seq::filter);
    let known = |user: u64| names.contains_key(user);
    let name = |user: u64| names[user];
    if users.len() > 0 {
        law_attendees_are_named(users.drop_last(), names);
        let earlier = users.drop_last().filter(known);
        if names.contains_key(users.last()) {
            assert(earlier.push(users.last()).map_values(name) =~= earlier.map_values(name).push(
                names[users.last()],
            ));
        }
    }
    assert(attendees(users, names) =~= users.filter(known).map_values(name));
}

/// A name stands as it is where it is made of letters, digits, blanks, dashes, underscores and dots
/// alone. Any other is quoted, so that it reads back.
pub proof fn law_names_read_back(s: Seq<char>)
    ensures
        ({
            let bare = forall|i: int|
                0 <= i < s.len() ==> {
                    let n = #[trigger] s[i] as int;
                    48 <= n <= 57 || 65 <= n <= 90 || 97 <= n <= 122 || s[i] == ' ' || s[i] == '-'
                        || s[i] == '_' || s[i] == '.'
                };
            &&& bare ==> scalar(s) == s
            &&& !bare ==> {
                let n = scalar(s).len();
                &&& n >= 2
                &&& scalar(s)[0] == '"'
                &&& scalar(s)[n - 1] == '"'
                &&& unescaped(scalar(s).subrange(1, n - 1)) == s
            }
        }),
{
    law_escaping_reads_back(s);
    reveal_strlit("\"");
    if plain(s) {
        assert forall|i: int| 0 <= i < s.len() implies {
            let n = #[trigger] s[i] as int;
            48 <= n <= 57 || 65 <= n <= 90 || 97 <= n <= 122 || s[i] == ' ' || s[i] == '-' || s[i]
                == '_' || s[i] == '.'
        } by {
            assert(plain_char(s[i]));
        }
    } else {
        let n = scalar(s).len();
        assert(scalar(s).subrange(1, n - 1) =~= escaped(s));
        let i = choose|i: int| 0 <= i < s.len() && !plain_char(#[trigger] s[i]);
        assert(!plain_char(s[i]));
    }
}

/// The transcript of a running call is its heading, the time of its start and one line for each
/// utterance.
pub proof fn law_document_holds_every_line(
    started: Seq<char>,
    said: Seq<transcript::Said>,
    names: Map<u64, Seq<char>>,
    timeline_start: Option<Nanos>,
) -> (list: Seq<Seq<char>>)
    ensures
        transcript_document(started, said, names, timeline_start) == text::joined(list, "\n"@),
        list.len() == 6 + transcript::lines_of(said, names, timeline_start).len(),
        list[0] == "# Meeting Transcript"@,
        list[1].len() == 0,
        list[2] == "**Started:** "@ + started + " UTC"@,
        list[3].len() == 0,
        list[4] == "## Transcript"@,
        list[5].len() == 0,
        forall|i: int|
            0 <= i < transcript::lines_of(said, names, timeline_start).len() ==> #[trigger] list[6
                + i] == transcript::lines_of(said, names, timeline_start)[i],
{
    reveal_strlit("");
    seq![
        "# Meeting Transcript"@,
        ""@,
        "**Started:** "@ + started + " UTC"@,
        ""@,
        "## Transcript"@,
        ""@,
    ] + transcript::lines_of(said, names, timeline_start)
}

/// An export begins with what is known of the meeting: its title, in a form that reads back, its
/// date, its length and one line for each attendee. Then come the summary, where there is one and it
/// is asked for, and one line for each utterance.
pub proof fn law_export_holds_every_line(
    said: Seq<transcript::Said>,
    names: Map<u64, Seq<char>>,
    date: Seq<char>,
    call_started: Nanos,
    seconds: nat,
    title: Seq<char>,
    summary: Option<Seq<char>>,
    include_summary: bool,
) -> (list: Seq<Seq<char>>)
    ensures
        export_text(
            said,
            names,
            date,
            call_started,
            seconds,
            title,
            summary,
            include_summary,
        ) == text::joined(list, "\n"@),
        ({
            let people = attendees(speakers(said), names);
            let spoken = transcript::lines_of(said, names, Some(call_started));
            let n = if people.len() == 0 {
                7int
            } else {
                8int + people.len()
            };
            let shown = include_summary && summary is Some && text::trimmed(summary.unwrap()).len()
                > 0;
            let m = n + 2 + (if shown {
                2int
            } else {
                0
            });
            &&& list.len() == m + 2 + spoken.len() + 1
            &&& list[0] == "---"@
            &&& list[1] == "title: \""@ + escaped(title) + "\""@
            &&& list[2] == "type: meeting"@
            &&& list[3] == "date: "@ + date
            &&& list[4] == "duration: \""@ + transcript::duration_of(seconds) + "\""@
            &&& list[5] == "source: discord"@
            &&& list[6] == "status: complete"@
            &&& people.len() > 0 ==> list[7] == "attendees:"@
            &&& forall|i: int|
                0 <= i < people.len() ==> #[trigger] list[8 + i] == "  - "@ + scalar(people[i])
            &&& list[n] == "---"@
            &&& list[n + 1].len() == 0
            &&& shown ==> list[n + 2] == text::trimmed(summary.unwrap()) && list[n + 3].len() == 0
            &&& list[m] == "## Transcript"@
            &&& list[m + 1].len() == 0
            &&& forall|i: int|
                0 <= i < spoken.len() ==> #[trigger] list[m + 2 + i] == spoken[i]
            &&& list.last().len() == 0
        }),
{
    reveal_strlit("");
    let people = attendees(speakers(said), names);
    let spoken = transcript::lines_of(said, names, Some(call_started));
    let front = front_matter(title, date, seconds, people);
    let list = front + seq!["---"@] + export_body(summary, include_summary, spoken);
    assert forall|i: int| 0 <= i < people.len() implies #[trigger] list[8 + i] == "  - "@ + scalar(
        people[i],
    ) by {
        assert(list[8 + i] == attendee_lines(people)[1 + i]);
    }
    list
}

/// A summary is posted under its heading, whole where it has at most 1780 characters, and cut short
/// with a word on that where it has more. One with nothing in it is not posted.
pub proof fn law_summary_is_posted_whole_or_cut(summary: Seq<char>)
    ensures
        ({
            let message = summary_message(summary);
            let kept = text::trimmed(summary);
            let heading = "## Meeting summary\n\n"@;
            &&& kept.len() == 0 ==> message.len() == 0
            &&& kept.len() > 0 ==> heading.is_prefix_of(message)
            &&& 0 < kept.len() <= 1_780 ==> message.skip(heading.len() as int) == kept
            &&& kept.len() > 1_780 ==> {
                &&& message.len() == heading.len() + 1_762 + "\n\n(truncated)"@.len()
                &&& forall|i: int|
                    0 <= i < 1_762 ==> #[trigger] message[heading.len() + i] == kept[i]
                &&& "\n\n(truncated)"@.is_suffix_of(message)
            }
            &&& message.len() <= 1_800
        }),
{
    let message = summary_message(summary);
    let kept = text::trimmed(summary);
    let heading = "## Meeting summary\n\n"@;
    reveal_strlit("## Meeting summary\n\n");
    reveal_strlit("\n\n(truncated)");
    if kept.len() > 0 {
        assert(heading =~= message.subrange(0, heading.len() as int));
        if kept.len() <= 1_780 {
            assert(message.skip(heading.len() as int) =~= kept);
        } else {
            assert("\n\n(truncated)"@ =~= message.subrange(
                message.len() - "\n\n(truncated)"@.len(),
                message.len() as int,
            ));
        }
    }
}

/// A message is taken for one with a summary exactly where one of its lines, but for white space
/// round it, is the heading.
pub proof fn law_summary_heading_is_a_line(message: Seq<char>, list: Seq<Seq<char>>, i: int)
    requires
        0 <= i < list.len(),
        forall|k: int| 0 <= k < list.len() ==> lines::single_line(#[trigger] list[k]),
        message == text::joined(list, lines::line_feed()),
    ensures
        text::trimmed(list[i]) == "## Meeting summary"@ ==> has_summary_heading(message),
        has_summary_heading(message) ==> exists|k: int|
            0 <= k < list.len() && text::trimmed(#[trigger] list[k]) == "## Meeting summary"@,
{
    lines::lemma_joined_splits(list);
    assert(text::split(message, '\n') == list);
}

} // verus!
