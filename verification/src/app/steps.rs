//! What stands in the way of a command, and what it works on.
use vstd::prelude::*;

use crate::app::commands::SlashCommand;
use crate::app::transcript;
use crate::app::transcript::Utterance;

verus! {

broadcast use vstd::seq::group_seq_axioms;

// ---------------------------------------------------------------------------
// Errors
// ---------------------------------------------------------------------------

/// Why a command cannot be carried out.
#[derive(Clone, Copy, Debug, PartialEq, Eq, Structural)]
pub enum CommandError {
    /// The command was not given in a guild.
    OutsideGuild { command: SlashCommand },
    /// Nothing is known of the guild.
    UnknownGuild,
    /// The user is in no voice channel.
    NotInVoice,
    /// The user is in no voice channel and names none.
    NoChannel,
    /// No call is transcribed.
    NoActiveCall,
    /// There is nothing to ask.
    MissingQuestion,
}

/// The text of an error.
pub open spec fn error_text(error: CommandError) -> Seq<char> {
    match error {
        CommandError::OutsideGuild { command } => match command {
            SlashCommand::Join => "join used outside guild"@,
            SlashCommand::Leave => "leave used outside guild"@,
            SlashCommand::Status => "status used outside guild"@,
            SlashCommand::Log => "log used outside guild"@,
            SlashCommand::Ask => "ask used outside guild"@,
            SlashCommand::Summary => "summary used outside guild"@,
            SlashCommand::Autojoin => "autojoin used outside guild"@,
        },
        CommandError::UnknownGuild => "guild not in cache"@,
        CommandError::NotInVoice => "you are not connected to a voice channel"@,
        CommandError::NoChannel =>
            "you are not connected to a voice channel (or provide a channel mention)"@,
        CommandError::NoActiveCall => "no active call for this guild"@,
        CommandError::MissingQuestion => "missing question"@,
    }
}

impl CommandError {
    /// The text of the error.
    pub fn message(self) -> (r: &'static str)
        ensures
            r@ == error_text(self),
    {
        match self {
            CommandError::OutsideGuild { command } => match command {
                SlashCommand::Join => "join used outside guild",
                SlashCommand::Leave => "leave used outside guild",
                SlashCommand::Status => "status used outside guild",
                SlashCommand::Log => "log used outside guild",
                SlashCommand::Ask => "ask used outside guild",
                SlashCommand::Summary => "summary used outside guild",
                SlashCommand::Autojoin => "autojoin used outside guild",
            },
            CommandError::UnknownGuild => "guild not in cache",
            CommandError::NotInVoice => "you are not connected to a voice channel",
            CommandError::NoChannel =>
                "you are not connected to a voice channel (or provide a channel mention)",
            CommandError::NoActiveCall => "no active call for this guild",
            CommandError::MissingQuestion => "missing question",
        }
    }
}

// ---------------------------------------------------------------------------
// Starting a call and marking a channel
// ---------------------------------------------------------------------------

/// Where the user is, as far as the bot knows.
#[derive(Clone, Copy, Debug, PartialEq, Eq, Structural)]
pub struct Caller {
    /// The command was given in a guild.
    pub in_guild: bool,
    /// The bot knows the guild.
    pub guild_known: bool,
    /// The user's voice channel there.
    pub voice_channel: Option<u64>,
}

/// The channel that `/join` joins, or nothing where a call is already transcribed.
pub open spec fn channel_to_join(caller: Caller, session_active: bool) -> Result<
    Option<u64>,
    CommandError,
> {
    if !caller.in_guild {
        Err(CommandError::OutsideGuild { command: SlashCommand::Join })
    } else if session_active {
        Ok(None)
    } else if !caller.guild_known {
        Err(CommandError::UnknownGuild)
    } else {
        match caller.voice_channel {
            Some(channel) => Ok(Some(channel)),
            None => Err(CommandError::NotInVoice),
        }
    }
}

/// What `/join` answers where a call is already transcribed.
pub const ALREADY_JOINED: &'static str = "Already connected and transcribing in this guild. Use /leave first if you want a fresh session.";

/// The channel that `/join` joins, or nothing where a call is already transcribed.
pub fn join_channel(caller: Caller, session_active: bool) -> (r: Result<Option<u64>, CommandError>)
    ensures
        r == channel_to_join(caller, session_active),
{
    if !caller.in_guild {
        Err(CommandError::OutsideGuild { command: SlashCommand::Join })
    } else if session_active {
        Ok(None)
    } else if !caller.guild_known {
        Err(CommandError::UnknownGuild)
    } else {
        match caller.voice_channel {
            Some(channel) => Ok(Some(channel)),
            None => Err(CommandError::NotInVoice),
        }
    }
}

/// A call is already transcribed in the guild.
#[derive(Clone, Copy, Debug, PartialEq, Eq, Structural)]
pub struct AlreadyActive;

impl AlreadyActive {
    /// The text of the error.
    pub fn message(self) -> (r: &'static str)
        ensures
            r@ == "an active call session already exists for this guild"@,
    {
        "an active call session already exists for this guild"
    }
}

/// Whether a call may start: a guild has one at a time.
pub fn may_start(session_active: bool) -> (r: Result<(), AlreadyActive>)
    ensures
        r is Err <==> session_active,
{
    if session_active {
        Err(AlreadyActive)
    } else {
        Ok(())
    }
}

/// The channel that `/autojoin` marks: the one that is named, or else that of the user.
pub open spec fn channel_to_mark(caller: Caller, named: Option<u64>) -> Result<
    u64,
    CommandError,
> {
    if !caller.in_guild {
        Err(CommandError::OutsideGuild { command: SlashCommand::Autojoin })
    } else {
        match named {
            Some(channel) => Ok(channel),
            None => if !caller.guild_known {
                Err(CommandError::UnknownGuild)
            } else {
                match caller.voice_channel {
                    Some(channel) => Ok(channel),
                    None => Err(CommandError::NoChannel),
                }
            },
        }
    }
}

/// The channel that `/autojoin` marks.
pub fn autojoin_channel(caller: Caller, named: Option<u64>) -> (r: Result<u64, CommandError>)
    ensures
        r == channel_to_mark(caller, named),
{
    if !caller.in_guild {
        return Err(CommandError::OutsideGuild { command: SlashCommand::Autojoin });
    }
    match named {
        Some(channel) => Ok(channel),
        None => if !caller.guild_known {
            Err(CommandError::UnknownGuild)
        } else {
            match caller.voice_channel {
                Some(channel) => Ok(channel),
                None => Err(CommandError::NoChannel),
            }
        },
    }
}

// ---------------------------------------------------------------------------
// Commands on the call
// ---------------------------------------------------------------------------

/// What is known when a command on the call comes.
#[derive(Clone, Copy, Debug, PartialEq, Eq, Structural)]
pub struct CallFacts {
    /// The command was given in a guild.
    pub in_guild: bool,
    /// The command holds a question.
    pub has_question: bool,
    /// How many utterances the guild's call has, where there is a call.
    pub utterances: Option<usize>,
}

/// Whether a command works on the transcript of the call.
pub open spec fn needs_transcript(command: SlashCommand) -> bool {
    command is Log || command is Ask || command is Summary
}

/// What a command that works on an empty transcript answers.
pub open spec fn empty_text(command: SlashCommand) -> Seq<char> {
    match command {
        SlashCommand::Ask =>
            "No transcribed utterances yet. Try /ask again after someone speaks and pauses briefly."@,
        SlashCommand::Summary =>
            "No transcribed utterances yet. Try /summary again after someone speaks and pauses briefly."@,
        _ => "No transcribed utterances yet."@,
    }
}

/// What a command on the call is answered at once: nothing where it goes on.
pub open spec fn answered_at_once(command: SlashCommand, facts: CallFacts) -> Result<
    Option<Seq<char>>,
    CommandError,
> {
    if !facts.in_guild {
        Err(CommandError::OutsideGuild { command })
    } else if command is Ask && !facts.has_question {
        Err(CommandError::MissingQuestion)
    } else if command is Status && facts.utterances is None {
        Ok(Some("No active transcription session. Use /join to start."@))
    } else if needs_transcript(command) && facts.utterances is None {
        Err(CommandError::NoActiveCall)
    } else if needs_transcript(command) && facts.utterances == Some(0usize) {
        Ok(Some(empty_text(command)))
    } else {
        Ok(None)
    }
}

/// What a command on the call is answered at once: nothing where it goes on.
pub fn call_answer(command: SlashCommand, facts: CallFacts) -> (r: Result<
    Option<&'static str>,
    CommandError,
>)
    ensures
        match r {
            Ok(Some(answer)) => answered_at_once(command, facts) == Ok::<
                Option<Seq<char>>,
                CommandError,
            >(Some(answer@)),
            Ok(None) => answered_at_once(command, facts) == Ok::<Option<Seq<char>>, CommandError>(
                None,
            ),
            Err(error) => answered_at_once(command, facts) == Err::<
                Option<Seq<char>>,
                CommandError,
            >(error),
        },
{
    if !facts.in_guild {
        return Err(CommandError::OutsideGuild { command });
    }
    match command {
        SlashCommand::Ask => {
            if !facts.has_question {
                return Err(CommandError::MissingQuestion);
            }
        },
        SlashCommand::Status => {
            return match facts.utterances {
                None => Ok(Some("No active transcription session. Use /join to start.")),
                Some(_) => Ok(None),
            };
        },
        SlashCommand::Log | SlashCommand::Summary => {},
        _ => {
            return Ok(None);
        },
    }
    match facts.utterances {
        None => Err(CommandError::NoActiveCall),
        Some(count) => if count == 0 {
            Ok(
                Some(
                    match command {
                        SlashCommand::Ask =>
                            "No transcribed utterances yet. Try /ask again after someone speaks and pauses briefly.",
                        SlashCommand::Summary =>
                            "No transcribed utterances yet. Try /summary again after someone speaks and pauses briefly.",
                        _ => "No transcribed utterances yet.",
                    },
                ),
            )
        } else {
            Ok(None)
        },
    }
}

/// The last `count` utterances, by their start.
pub fn recent_utterances(utterances: Vec<Utterance>, count: usize) -> (r: Vec<Utterance>)
    ensures
        transcript::said(r@) == ({
            let sorted = transcript::by_start(transcript::said(utterances@));
            sorted.skip(
                if sorted.len() > count {
                    sorted.len() - count
                } else {
                    0
                },
            )
        }),
{
    let sorted = transcript::sort_by_start(utterances);
    let ghost all = transcript::said(sorted@);
    let start: usize = if sorted.len() > count {
        sorted.len() - count
    } else {
        0
    };
    let mut recent: Vec<Utterance> = Vec::new();
    let mut at: usize = 0;
    for utterance in it: sorted
        invariant
            transcript::said(it.seq()) == all,
            at == it.index(),
            start <= all.len(),
            all.len() <= usize::MAX,
            transcript::said(recent@) == (if at <= start {
                Seq::empty()
            } else {
                all.subrange(start as int, at as int)
            }),
    {
        assert(utterance@ == all[at as int]);
        if at >= start {
            let ghost before = transcript::said(recent@);
            recent.push(utterance);
            assert(transcript::said(recent@) =~= before.push(all[at as int]));
            assert(all.subrange(start as int, at + 1) =~= before.push(all[at as int]));
        }
        at += 1;
    }
    assert(transcript::said(recent@) =~= all.skip(start as int));
    recent
}

/// A call is started in the channel of whoever asks, unless one runs already. It is refused outside
/// a guild, in one that is not known, and to one who is in no voice channel, in this order.
pub proof fn law_joining_needs_a_voice_channel(caller: Caller, session_active: bool)
    ensures
        ({
            let r = channel_to_join(caller, session_active);
            let free = caller.in_guild && !session_active;
            &&& r is Err && r->Err_0 is OutsideGuild <==> !caller.in_guild
            &&& r matches Err(CommandError::OutsideGuild { command }) ==> command is Join
            &&& r is Err && r->Err_0 is UnknownGuild <==> free && !caller.guild_known
            &&& r is Err && r->Err_0 is NotInVoice <==> free && caller.guild_known
                && caller.voice_channel is None
            &&& r matches Ok(channel) ==> {
                &&& session_active ==> channel is None
                &&& !session_active ==> channel == caller.voice_channel && channel is Some
            }
            &&& caller.in_guild && session_active ==> r is Ok
            &&& free && caller.guild_known && caller.voice_channel is Some ==> r is Ok
        }),
{
}

/// The channel that is marked is the one that is named, or else the one where the caller is.
pub proof fn law_marking_needs_a_channel(caller: Caller, named: Option<u64>)
    ensures
        ({
            let r = channel_to_mark(caller, named);
            &&& !caller.in_guild ==> r == Err::<u64, CommandError>(
                CommandError::OutsideGuild { command: SlashCommand::Autojoin },
            )
            &&& caller.in_guild ==> {
                &&& named matches Some(channel) ==> r == Ok::<u64, CommandError>(channel)
                &&& named is None && !caller.guild_known ==> r == Err::<u64, CommandError>(
                    CommandError::UnknownGuild,
                )
                &&& named is None && caller.guild_known ==> match caller.voice_channel {
                    Some(channel) => r == Ok::<u64, CommandError>(channel),
                    None => r == Err::<u64, CommandError>(CommandError::NoChannel),
                }
            }
        }),
{
}

/// The log, a question and a summary need a call with something said in it, and a question its
/// words; the status tells where there is no call; and leaving needs no more than a guild.
pub proof fn law_commands_need_something_said(command: SlashCommand, facts: CallFacts)
    ensures
        ({
            let r = answered_at_once(command, facts);
            let reads = command is Log || command is Ask || command is Summary;
            let asks = command is Ask ==> facts.has_question;
            &&& r is Err && r->Err_0 is OutsideGuild <==> !facts.in_guild
            &&& r matches Err(CommandError::OutsideGuild { command: told }) ==> told == command
            &&& r is Err && r->Err_0 is MissingQuestion <==> facts.in_guild && !asks
            &&& r is Err && r->Err_0 is NoActiveCall <==> facts.in_guild && asks && reads
                && facts.utterances is None
            &&& r is Ok && r->Ok_0 is Some <==> facts.in_guild && asks && ((command is Status
                && facts.utterances is None) || (reads && facts.utterances == Some(0usize)))
            &&& r is Ok && r->Ok_0 is None <==> facts.in_guild && asks && !(command is Status
                && facts.utterances is None) && !(reads && (facts.utterances is None
                || facts.utterances == Some(0usize)))
        }),
{
}

/// Each error tells what stands in the way.
pub proof fn law_errors_tell_what_stands_in_the_way(command: SlashCommand)
    ensures
        error_text(CommandError::OutsideGuild { command })
            == crate::app::definitions::defined(command).name + " used outside guild"@,
        error_text(CommandError::UnknownGuild) == "guild not in cache"@,
        error_text(CommandError::NotInVoice) == "you are not connected to a voice channel"@,
        error_text(CommandError::NoChannel)
            == "you are not connected to a voice channel (or provide a channel mention)"@,
        error_text(CommandError::NoActiveCall) == "no active call for this guild"@,
        error_text(CommandError::MissingQuestion) == "missing question"@,
{
    reveal_strlit(" used outside guild");
    reveal_strlit("join");
    reveal_strlit("leave");
    reveal_strlit("status");
    reveal_strlit("log");
    reveal_strlit("ask");
    reveal_strlit("summary");
    reveal_strlit("autojoin");
    reveal_strlit("join used outside guild");
    reveal_strlit("leave used outside guild");
    reveal_strlit("status used outside guild");
    reveal_strlit("log used outside guild");
    reveal_strlit("ask used outside guild");
    reveal_strlit("summary used outside guild");
    reveal_strlit("autojoin used outside guild");
    assert(error_text(CommandError::OutsideGuild { command })
        =~= crate::app::definitions::defined(command).name + " used outside guild"@);
}

/// The last utterances of a transcript are the end of it when it is put in order: as many as are
/// asked for, or all; none of those that are left out began after any of them.
pub proof fn law_recent_utterances_are_the_last(said: Seq<transcript::Said>, count: nat)
    ensures
        ({
            let sorted = transcript::by_start(said);
            let left_out = if sorted.len() > count {
                sorted.len() - count
            } else {
                0
            };
            let recent = sorted.skip(left_out);
            &&& recent.len() == (if said.len() < count {
                said.len()
            } else {
                count
            })
            &&& forall|i: int, j: int|
                0 <= i < left_out && 0 <= j < recent.len() ==> (#[trigger] sorted[i]).start_ts <= (
                #[trigger] recent[j]).start_ts
            &&& forall|i: int, j: int|
                0 <= i <= j < recent.len() ==> (#[trigger] recent[i]).start_ts <= (
                #[trigger] recent[j]).start_ts
        }),
{
    transcript::law_sorting_is_stable(said, 0);
    let sorted = transcript::by_start(said);
    let left_out = if sorted.len() > count {
        sorted.len() - count
    } else {
        0
    };
    let recent = sorted.skip(left_out);
    assert forall|i: int, j: int| 0 <= i < left_out && 0 <= j < recent.len() implies (
    #[trigger] sorted[i]).start_ts <= (#[trigger] recent[j]).start_ts by {
        assert(recent[j] == sorted[j + left_out]);
    }
    assert forall|i: int, j: int| 0 <= i <= j < recent.len() implies (
    #[trigger] recent[i]).start_ts <= (#[trigger] recent[j]).start_ts by {
        assert(recent[i] == sorted[i + left_out]);
        assert(recent[j] == sorted[j + left_out]);
    }
}

} // verus!
