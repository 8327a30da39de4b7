//! The life of a call: its beginning, its end, and what is left of it.
use vstd::prelude::*;

use crate::app::clock;
use crate::app::clock::UtcTime;
use crate::app::healthcheck;
use crate::app::healthcheck::ReceiveHealth;
use crate::asr::directory;
use crate::asr::directory::SsrcDirectory;
use crate::asr::streams;
use crate::asr::streams::Streams;
use crate::asr::tick;
use crate::asr::tick::DetachedAudioBuffer;
use crate::asr::unknown;
use crate::asr::unknown::UnknownSsrcBuffers;
use crate::text;
use crate::time;

verus! {

broadcast use {vstd::seq::group_seq_axioms, vstd::map::group_map_axioms};

// ---------------------------------------------------------------------------
// Settings of a call
// ---------------------------------------------------------------------------

/// The silent ticks of 20 ms that end an utterance: the time rounded up, cut to 32 bits, and one
/// at least.
pub open spec fn silence_ticks(ms: u64) -> int {
    let padded = if ms <= u64::MAX - 19 {
        ms + 19
    } else {
        u64::MAX as int
    };
    let ticks = (padded / 20) % 0x1_0000_0000;
    if ticks == 0 {
        1
    } else {
        ticks
    }
}

/// The silent ticks of 20 ms that end an utterance.
pub fn endpoint_silence_ticks(endpoint_silence_ms: u64) -> (r: u32)
    ensures
        r == silence_ticks(endpoint_silence_ms),
        r >= 1,
{
    let wide: u64 = endpoint_silence_ms.saturating_add(19) / 20;
    assert(wide as u32 == wide % 0x1_0000_0000) by (bit_vector);
    let ticks: u32 = #[verifier::truncate] (wide as u32);
    if ticks == 0 {
        1
    } else {
        ticks
    }
}

/// The name of the journal of a call whose start is written as `stamp`.
pub open spec fn journal_name(guild: u64, stamp: Seq<char>) -> Seq<char> {
    "transcript-"@ + text::decimal(guild as nat) + "-"@ + stamp + ".jsonl"@
}

/// The name of the journal of a call whose start is written as `stamp`.
pub fn journal_file_name_with(guild: u64, stamp: &str) -> (r: String)
    ensures
        r@ == journal_name(guild, stamp@),
{
    let mut out = String::new();
    out.append("transcript-");
    text::push_decimal(&mut out, guild);
    out.append("-");
    out.append(stamp);
    out.append(".jsonl");
    assert(out@ =~= journal_name(guild, stamp@));
    out
}

/// The name of the journal of a call.
pub fn journal_file_name(guild: u64, started_at: UtcTime) -> (r: String)
    ensures
        r@ == journal_name(guild, clock::utc_text(started_at@, "%Y%m%d-%H%M%S"@)),
{
    journal_file_name_with(guild, started_at.compact().as_str())
}

/// The name of the export of a call whose start is written as `stamp`.
pub open spec fn export_name(stamp: Seq<char>) -> Seq<char> {
    "transcript-"@ + stamp + ".md"@
}

/// The name of the export of a call whose start is written as `stamp`.
pub fn export_file_name_with(stamp: &str) -> (r: String)
    ensures
        r@ == export_name(stamp@),
{
    let mut out = String::new();
    out.append("transcript-");
    out.append(stamp);
    out.append(".md");
    assert(out@ =~= export_name(stamp@));
    out
}

/// The name of the export of a call.
pub fn export_file_name(started_at: UtcTime) -> (r: String)
    ensures
        r@ == export_name(clock::utc_text(started_at@, "%Y%m%d-%H%M%S"@)),
{
    export_file_name_with(started_at.compact().as_str())
}

// ---------------------------------------------------------------------------
// Files of earlier calls
// ---------------------------------------------------------------------------

/// The most bytes of an export that is read back.
pub const TRANSCRIPT_ATTACHMENT_MAX_BYTES: u64 = 10_485_760;

/// The name is that of an export.
pub open spec fn is_export_name(name: Seq<char>) -> bool {
    text::starts_with(name, "transcript-"@) && text::ends_with(name, ".md"@)
}

/// A file that hangs on a message.
pub struct Attachment {
    pub filename: String,
    pub size: u64,
}

/// The export among the files of a message: the first that has the name of one, where it is not
/// too large.
pub fn find_transcript_attachment(attachments: &[Attachment]) -> (r: Option<usize>)
    ensures
        match r {
            Some(at) => at < attachments@.len() && is_export_name(attachments@[at as int].filename@)
                && attachments@[at as int].size <= TRANSCRIPT_ATTACHMENT_MAX_BYTES && forall|
                i: int,
            | 0 <= i < at ==> !is_export_name((#[trigger] attachments@[i]).filename@),
            None => forall|i: int|
                0 <= i < attachments@.len() && is_export_name((#[trigger] attachments@[i]).filename@)
                    ==> attachments@[i].size > TRANSCRIPT_ATTACHMENT_MAX_BYTES || exists|j: int|
                    0 <= j < i && is_export_name((#[trigger] attachments@[j]).filename@),
        },
{
    for i in 0..attachments.len()
        invariant
            forall|j: int| 0 <= j < i ==> !is_export_name((#[trigger] attachments@[j]).filename@),
    {
        let name = attachments[i].filename.as_str();
        if text::str_starts_with(name, "transcript-") && text::str_ends_with(name, ".md") {
            assert(is_export_name(attachments@[i as int].filename@));
            if attachments[i].size > TRANSCRIPT_ATTACHMENT_MAX_BYTES {
                return None;
            }
            return Some(i);
        }
    }
    None
}

/// The name is that of a journal.
pub open spec fn is_journal_name(name: Seq<char>) -> bool {
    text::starts_with(name, "transcript-"@) && text::ends_with(name, ".jsonl"@)
}

/// Whether a file is removed: a journal that was last changed no later than `cutoff`. Times are
/// nanoseconds from the Unix epoch.
pub fn should_prune(name: &str, modified: i128, cutoff: i128) -> (r: bool)
    ensures
        r == (is_journal_name(name@) && modified <= cutoff),
{
    text::str_starts_with(name, "transcript-") && text::str_ends_with(name, ".jsonl") && modified
        <= cutoff
}

/// The journals of calls are those that are removed, and their exports are those that are read
/// back: neither is taken for the other.
pub proof fn law_file_names_are_recognized(guild: u64, stamp: Seq<char>)
    ensures
        is_journal_name(journal_name(guild, stamp)),
        !is_export_name(journal_name(guild, stamp)),
        is_export_name(export_name(stamp)),
        !is_journal_name(export_name(stamp)),
{
    reveal_strlit("transcript-");
    reveal_strlit("-");
    reveal_strlit(".jsonl");
    reveal_strlit(".md");
    let journal = journal_name(guild, stamp);
    let export = export_name(stamp);
    assert(journal.subrange(0, 11) =~= "transcript-"@);
    assert(export.subrange(0, 11) =~= "transcript-"@);
    assert(journal.subrange(journal.len() - 6, journal.len() as int) =~= ".jsonl"@);
    assert(export.subrange(export.len() - 3, export.len() as int) =~= ".md"@);
    assert(journal.last() == 'l');
    assert(export.last() == 'd');
    if text::ends_with(journal, ".md"@) {
        assert(journal.subrange(journal.len() - 3, journal.len() as int)[2] == 'd');
    }
    if text::ends_with(export, ".jsonl"@) {
        assert(export.subrange(export.len() - 6, export.len() as int)[5] == 'l');
    }
}

/// The seconds for which journals are kept: the configured days, one at least.
pub fn retention_seconds(retention_days: u64) -> (r: u64)
    requires
        retention_days * 86_400 <= u64::MAX,
    ensures
        r == (if retention_days == 0 {
            86_400
        } else {
            retention_days * 86_400
        }),
{
    let days: u64 = if retention_days == 0 {
        1
    } else {
        retention_days
    };
    days * 86_400
}

// ---------------------------------------------------------------------------
// When a call ends
// ---------------------------------------------------------------------------

/// The time after its start in which only a user's leaving ends a call.
pub const EMPTY_CHANNEL_GRACE: u64 = 10_000_000_000;

/// A change of a user's voice state during a call.
pub struct CallMove {
    /// The call's channel.
    pub target_channel: u64,
    /// Where the user was.
    pub old_channel: Option<u64>,
    /// Where the user is.
    pub new_channel: Option<u64>,
    /// The user is the bot itself.
    pub user_is_bot: bool,
    /// How long the call has run, in nanoseconds.
    pub call_age: u64,
    /// The bot knows who is in the guild's channels.
    pub guild_known: bool,
    /// Somebody but the bot is in the call's channel.
    pub listener_present: bool,
}

/// The call ends with this change: it touches the call's channel, in which nobody but the bot is
/// left. At the beginning of a call only a user's leaving counts.
pub open spec fn ends_call(change: CallMove) -> bool {
    let target = Some(change.target_channel);
    let left = change.old_channel == target && change.new_channel != target && !change.user_is_bot;
    &&& change.old_channel == target || change.new_channel == target
    &&& change.call_age >= EMPTY_CHANNEL_GRACE || left
    &&& change.guild_known
    &&& !change.listener_present
}

/// Whether a call ends with a change of a user's voice state.
pub fn should_finalize_on_move(change: &CallMove) -> (r: bool)
    ensures
        r == ends_call(*change),
{
    let was_there = match change.old_channel {
        Some(channel) => channel == change.target_channel,
        None => false,
    };
    let is_there = match change.new_channel {
        Some(channel) => channel == change.target_channel,
        None => false,
    };
    if !was_there && !is_there {
        return false;
    }
    let left = !change.user_is_bot && was_there && !is_there;
    if change.call_age < EMPTY_CHANNEL_GRACE && !left {
        return false;
    }
    change.guild_known && !change.listener_present
}

/// The session that somebody wants to end: whether it still is the current one of its guild,
/// whether the guild is known, and whether somebody but the bot is in its channel.
pub struct ExpectedSession {
    pub is_current: bool,
    pub guild_known: bool,
    pub listener_present: bool,
}

/// Whether a call may be ended. One that is ended because its channel is empty has to be the same
/// still, and its channel empty still.
pub fn may_finalize(expected: Option<ExpectedSession>) -> (r: bool)
    ensures
        r == (match expected {
            Some(session) => session.is_current && session.guild_known
                && !session.listener_present,
            None => true,
        }),
{
    match expected {
        Some(session) => session.is_current && session.guild_known && !session.listener_present,
        None => true,
    }
}

/// How leaving a voice channel went.
#[derive(Clone, Copy, Debug, PartialEq, Eq, Structural)]
pub enum RemoveResult {
    Removed,
    Failed,
    TimedOut,
}

/// What follows from how leaving a voice channel went.
#[derive(Clone, Copy, Debug, PartialEq, Eq, Structural)]
pub enum RemoveDecision {
    /// Go on.
    Proceed,
    /// Go on, with a warning: leaving failed, but the connection is gone.
    ProceedWithWarning,
    /// Give up with the error.
    Fail,
    /// Give up: it took too long.
    FailTimedOut,
}

/// What follows from how leaving went, when a call ends. Only a connection that is still there
/// stops it.
pub fn finalize_remove_decision(result: RemoveResult, still_connected: bool) -> (r: RemoveDecision)
    ensures
        r == (match result {
            RemoveResult::Removed => RemoveDecision::Proceed,
            RemoveResult::Failed => if still_connected {
                RemoveDecision::Fail
            } else {
                RemoveDecision::ProceedWithWarning
            },
            RemoveResult::TimedOut => if still_connected {
                RemoveDecision::FailTimedOut
            } else {
                RemoveDecision::ProceedWithWarning
            },
        }),
        r is Proceed <==> result is Removed,
        r is ProceedWithWarning <==> !(result is Removed) && !still_connected,
        r is Fail <==> result is Failed && still_connected,
        r is FailTimedOut <==> result is TimedOut && still_connected,
{
    match result {
        RemoveResult::Removed => RemoveDecision::Proceed,
        RemoveResult::Failed => if still_connected {
            RemoveDecision::Fail
        } else {
            RemoveDecision::ProceedWithWarning
        },
        RemoveResult::TimedOut => if still_connected {
            RemoveDecision::FailTimedOut
        } else {
            RemoveDecision::ProceedWithWarning
        },
    }
}

/// What follows from how leaving went, when a channel is to be joined anew.
pub fn rejoin_remove_decision(result: RemoveResult, still_connected: bool) -> (r: RemoveDecision)
    ensures
        r == (match result {
            RemoveResult::Removed => RemoveDecision::Proceed,
            RemoveResult::Failed => if still_connected {
                RemoveDecision::Fail
            } else {
                RemoveDecision::Proceed
            },
            RemoveResult::TimedOut => RemoveDecision::FailTimedOut,
        }),
        r is Proceed <==> result is Removed || (result is Failed && !still_connected),
        r is Fail <==> result is Failed && still_connected,
        r is FailTimedOut <==> result is TimedOut,
{
    match result {
        RemoveResult::Removed => RemoveDecision::Proceed,
        RemoveResult::Failed => if still_connected {
            RemoveDecision::Fail
        } else {
            RemoveDecision::Proceed
        },
        RemoveResult::TimedOut => RemoveDecision::FailTimedOut,
    }
}

/// The time that is waited for a call's last utterances.
pub const DRAIN_TIMEOUT: u64 = 30_000_000_000;

/// What the wait for a call's last utterances comes to.
#[derive(Clone, Copy, Debug, PartialEq, Eq, Structural)]
pub enum Drain {
    /// Nothing is under way.
    Done,
    /// Something is, and there is time.
    Wait,
    /// Something is, and the time is up.
    GiveUp,
}

/// What the wait for utterances comes to, when `inflight` are at the decoder and `pending` on
/// their way to the journal.
pub fn drain_poll(inflight: usize, pending: usize, waited: u64, timeout: u64) -> (r: Drain)
    ensures
        r == (if inflight == 0 && pending == 0 {
            Drain::Done
        } else if waited >= timeout {
            Drain::GiveUp
        } else {
            Drain::Wait
        }),
        r is Done <==> inflight + pending == 0,
        r is GiveUp <==> inflight + pending > 0 && waited >= timeout,
        r is Wait <==> inflight + pending > 0 && waited < timeout,
{
    if inflight == 0 && pending == 0 {
        Drain::Done
    } else if waited >= timeout {
        Drain::GiveUp
    } else {
        Drain::Wait
    }
}

/// The most passes in which a call's audio is flushed.
pub const FINALIZE_SETTLE_PASSES: usize = 4;

/// Whether another pass is made to flush a call's audio, after `passes` of them.
pub fn settle_again(passes: usize, inflight: usize, pending: usize, has_audio: bool) -> (r: bool)
    ensures
        r == (passes < FINALIZE_SETTLE_PASSES && (inflight > 0 || pending > 0 || has_audio)),
        passes >= 4 ==> !r,
        passes < 4 ==> (r <==> inflight + pending > 0 || has_audio),
{
    passes < FINALIZE_SETTLE_PASSES && (inflight > 0 || pending > 0 || has_audio)
}

// ---------------------------------------------------------------------------
// The summary at the end of a call
// ---------------------------------------------------------------------------

/// Whether a summary is made at the end of a call, and where it goes.
#[derive(Clone, Copy)]
pub struct SummaryPlan {
    pub include_in_markdown: bool,
    pub post_in_thread: bool,
}

/// The plan for the summary at the end of a call.
pub fn summary_plan(enabled: bool, include_in_markdown: bool, post_in_thread: bool) -> (r:
    SummaryPlan)
    ensures
        r.include_in_markdown == (enabled && include_in_markdown),
        r.post_in_thread == (enabled && post_in_thread),
{
    SummaryPlan {
        include_in_markdown: enabled && include_in_markdown,
        post_in_thread: enabled && post_in_thread,
    }
}

impl SummaryPlan {
    /// Whether the summary has to be made before the export is written.
    pub fn before_export(&self) -> (r: bool)
        ensures
            r == self.include_in_markdown,
    {
        self.include_in_markdown
    }

    /// Whether the summary has to be made after the export, for the thread.
    pub fn after_export(&self, have_summary: bool) -> (r: bool)
        ensures
            r == (self.post_in_thread && !have_summary),
    {
        self.post_in_thread && !have_summary
    }
}

/// Whether the transcript of a call is summarized at all.
pub fn should_summarize(enabled: bool, utterances: usize) -> (r: bool)
    ensures
        r == (enabled && utterances > 0),
{
    enabled && utterances > 0
}

// ---------------------------------------------------------------------------
// The state of all calls
// ---------------------------------------------------------------------------

/// What is kept of all calls' audio: the users of streams, the audio of unknown users, and the
/// audio that has not been sent to the decoder.
pub struct CallState {
    pub users: SsrcDirectory,
    pub unknown: UnknownSsrcBuffers,
    pub streams: Streams,
}

impl CallState {
    /// The bounds on the audio of unknown users hold.
    pub open spec fn wf(&self) -> bool {
        self.unknown.wf()
    }

    /// No calls.
    pub fn new() -> (r: Self)
        ensures
            r.wf(),
            r.users@ == directory::no_entries(),
            r.unknown@ == Seq::<unknown::UnknownAudio>::empty(),
            r.streams@ == streams::no_calls(),
    {
        CallState {
            users: SsrcDirectory::new(),
            unknown: UnknownSsrcBuffers::new(),
            streams: Streams::new(),
        }
    }

    /// Forgets the streams of a guild's voice connection, once it is gone. The audio that was
    /// left is handed out. Other guilds are left alone.
    pub fn end_connection(&mut self, guild: u64) -> (r: Vec<DetachedAudioBuffer<u32>>)
        requires
            old(self).wf(),
        ensures
            final(self).wf(),
            tick::lists_buffers(r@, streams::call_of(old(self).streams@, guild).streams),
            streams::call_of(final(self).streams@, guild) == (tick::CallView {
                streams: Map::empty(),
                ..streams::call_of(old(self).streams@, guild)
            }),
            streams::others_same(old(self).streams@, final(self).streams@, guild),
            final(self).users@ == directory::without_guild(old(self).users@, guild),
            final(self).unknown@ == old(self).unknown@.filter(
                |audio: unknown::UnknownAudio| audio.guild != guild,
            ),
    {
        let detached = self.streams.detach_audio_buffers(guild);
        self.users.clear_guild(guild);
        self.unknown.clear_unknown_ssrc_audio_for_guild(guild);
        detached
    }

    /// Prepares a rejoin: forgets the streams of the old connection and its receive health.
    pub fn prepare_rejoin(&mut self, health: &mut ReceiveHealth, guild: u64) -> (r: Vec<
        DetachedAudioBuffer<u32>,
    >)
        requires
            old(self).wf(),
        ensures
            final(self).wf(),
            final(health).wf(),
            final(health)@ == healthcheck::empty_health(),
            tick::lists_buffers(r@, streams::call_of(old(self).streams@, guild).streams),
            streams::call_of(final(self).streams@, guild) == (tick::CallView {
                streams: Map::empty(),
                ..streams::call_of(old(self).streams@, guild)
            }),
            streams::others_same(old(self).streams@, final(self).streams@, guild),
            final(self).users@ == directory::without_guild(old(self).users@, guild),
            final(self).unknown@ == old(self).unknown@.filter(
                |audio: unknown::UnknownAudio| audio.guild != guild,
            ),
    {
        let detached = self.end_connection(guild);
        health.clear();
        detached
    }

    /// Ends a guild's call: forgets all of its audio. What was left is handed out.
    pub fn end_call(&mut self, guild: u64) -> (r: Vec<DetachedAudioBuffer<u32>>)
        requires
            old(self).wf(),
        ensures
            final(self).wf(),
            tick::lists_buffers(r@, streams::call_of(old(self).streams@, guild).streams),
            streams::call_of(final(self).streams@, guild) == streams::fresh_call(),
            streams::others_same(old(self).streams@, final(self).streams@, guild),
            final(self).users@ == directory::without_guild(old(self).users@, guild),
            final(self).unknown@ == old(self).unknown@.filter(
                |audio: unknown::UnknownAudio| audio.guild != guild,
            ),
    {
        let detached = self.end_connection(guild);
        self.streams.remove_guild(guild);
        detached
    }
}

/// An utterance ends after as many silent ticks of 20 ms as make up the time that was set, and no
/// more than are needed; one at least.
pub proof fn law_silence_is_counted_in_ticks(ms: u64)
    requires
        ms <= 80_000_000_000,
    ensures
        silence_ticks(ms) >= 1,
        20 * silence_ticks(ms) >= ms,
        ms > 0 ==> 20 * (silence_ticks(ms) - 1) < ms,
        ms == 0 ==> silence_ticks(ms) == 1,
{
}

/// The journal of a call tells its guild and when it began, and so does the name of its export.
pub proof fn law_file_names_tell_the_call(guild: u64, other: u64, stamp: Seq<char>, later: Seq<char>)
    ensures
        journal_name(guild, stamp) == "transcript-"@ + text::decimal(guild as nat) + "-"@ + stamp
            + ".jsonl"@,
        export_name(stamp) == "transcript-"@ + stamp + ".md"@,
        export_name(stamp) == export_name(later) ==> stamp == later,
        journal_name(guild, stamp) == journal_name(guild, later) ==> stamp == later,
        stamp.len() == later.len() && journal_name(guild, stamp) == journal_name(other, later)
            ==> guild == other,
{
    reveal_strlit("transcript-");
    reveal_strlit(".md");
    reveal_strlit("-");
    reveal_strlit(".jsonl");
    let a = export_name(stamp);
    let b = export_name(later);
    assert(a.subrange(11, a.len() - 3) =~= stamp);
    assert(b.subrange(11, b.len() - 3) =~= later);
    let n = text::decimal(guild as nat).len() as int;
    let j = journal_name(guild, stamp);
    let k = journal_name(guild, later);
    assert(j.subrange(12 + n, j.len() - 6) =~= stamp);
    assert(k.subrange(12 + n, k.len() - 6) =~= later);
    let m = text::decimal(other as nat).len() as int;
    let o = journal_name(other, later);
    assert(j.subrange(11, 11 + n) =~= text::decimal(guild as nat));
    assert(o.subrange(11, 11 + m) =~= text::decimal(other as nat));
    if stamp.len() == later.len() && j == o {
        assert(n == m);
        text::law_decimal_reads_back(guild as nat);
        text::law_decimal_reads_back(other as nat);
    }
}

/// A call ends exactly when somebody moves in or out of its channel, nobody is left there to be
/// heard, and either a person has just left it or the call has run for ten seconds.
pub proof fn law_call_ends_when_nobody_is_left(change: CallMove)
    ensures
        ends_call(change) <==> {
            let here = Some(change.target_channel);
            &&& change.old_channel == here || change.new_channel == here
            &&& !change.listener_present
            &&& change.guild_known
            &&& change.call_age >= 10_000_000_000 || (!change.user_is_bot && change.old_channel
                == here && change.new_channel != here)
        },
{
}

/// Exports and journals are told by both ends of their names.
pub proof fn law_files_are_told_by_their_names(name: Seq<char>)
    ensures
        is_export_name(name) <==> text::starts_with(name, "transcript-"@) && text::ends_with(
            name,
            ".md"@,
        ),
        is_journal_name(name) <==> text::starts_with(name, "transcript-"@) && text::ends_with(
            name,
            ".jsonl"@,
        ),
        TRANSCRIPT_ATTACHMENT_MAX_BYTES == 10 * 1024 * 1024,
        DRAIN_TIMEOUT == 30 * 1_000_000_000,
        FINALIZE_SETTLE_PASSES == 4,
{
}

} // verus!
