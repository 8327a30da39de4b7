//! What stands in the way of a command.
use transcribe_bot::app::commands::{slash_command, SlashCommand};
use transcribe_bot::app::definitions::{command_definition, command_table, OptionKind, Permission};
use transcribe_bot::app::steps::{
    autojoin_channel, call_answer, join_channel, may_start, recent_utterances, AlreadyActive,
    CallFacts, Caller, CommandError, ALREADY_JOINED,
};
use transcribe_bot::app::transcript::{copy_utterances, Utterance};
use transcribe_bot::asr::decoder::{CallCounters, DecodeResult};
use transcribe_bot::asr::tick::RouteCounts;

fn caller(voice_channel: Option<u64>) -> Caller {
    Caller { in_guild: true, guild_known: true, voice_channel }
}

fn facts(utterances: Option<usize>) -> CallFacts {
    CallFacts { in_guild: true, has_question: true, utterances }
}

fn utterance(start_ts: u64, text: &str) -> Utterance {
    Utterance { user_id: 7, start_ts, text: text.to_string() }
}

#[test]
fn join_takes_the_channel_of_the_user() {
    assert_eq!(join_channel(caller(Some(9)), false), Ok(Some(9)));
    assert_eq!(join_channel(caller(Some(9)), true), Ok(None));
    assert_eq!(join_channel(caller(None), true), Ok(None));
    assert_eq!(join_channel(caller(None), false), Err(CommandError::NotInVoice));
    let unknown = Caller { in_guild: true, guild_known: false, voice_channel: None };
    assert_eq!(join_channel(unknown, false), Err(CommandError::UnknownGuild));
    let outside = Caller { in_guild: false, guild_known: false, voice_channel: None };
    assert_eq!(
        join_channel(outside, true),
        Err(CommandError::OutsideGuild { command: SlashCommand::Join })
    );
    assert_eq!(
        ALREADY_JOINED,
        "Already connected and transcribing in this guild. Use /leave first if you want a fresh session."
    );
}

#[test]
fn autojoin_prefers_the_channel_that_is_named() {
    assert_eq!(autojoin_channel(caller(Some(9)), Some(4)), Ok(4));
    assert_eq!(autojoin_channel(caller(Some(9)), None), Ok(9));
    assert_eq!(autojoin_channel(caller(None), None), Err(CommandError::NoChannel));
    let unknown = Caller { in_guild: true, guild_known: false, voice_channel: None };
    assert_eq!(autojoin_channel(unknown, Some(4)), Ok(4));
    assert_eq!(autojoin_channel(unknown, None), Err(CommandError::UnknownGuild));
    let outside = Caller { in_guild: false, guild_known: false, voice_channel: None };
    assert_eq!(
        autojoin_channel(outside, Some(4)),
        Err(CommandError::OutsideGuild { command: SlashCommand::Autojoin })
    );
}

#[test]
fn commands_on_the_call_need_a_call_with_speech() {
    for command in [SlashCommand::Log, SlashCommand::Ask, SlashCommand::Summary] {
        assert_eq!(call_answer(command, facts(None)), Err(CommandError::NoActiveCall));
        assert_eq!(call_answer(command, facts(Some(1))), Ok(None));
        let outside = CallFacts { in_guild: false, has_question: true, utterances: Some(1) };
        assert_eq!(call_answer(command, outside), Err(CommandError::OutsideGuild { command }));
    }
    assert_eq!(
        call_answer(SlashCommand::Log, facts(Some(0))),
        Ok(Some("No transcribed utterances yet."))
    );
    assert_eq!(
        call_answer(SlashCommand::Ask, facts(Some(0))),
        Ok(Some(
            "No transcribed utterances yet. Try /ask again after someone speaks and pauses briefly."
        ))
    );
    assert_eq!(
        call_answer(SlashCommand::Summary, facts(Some(0))),
        Ok(Some(
            "No transcribed utterances yet. Try /summary again after someone speaks and pauses briefly."
        ))
    );
    let silent = CallFacts { in_guild: true, has_question: false, utterances: None };
    assert_eq!(call_answer(SlashCommand::Ask, silent), Err(CommandError::MissingQuestion));
    assert_eq!(call_answer(SlashCommand::Log, silent), Err(CommandError::NoActiveCall));
}

#[test]
fn status_is_answered_without_a_call() {
    assert_eq!(
        call_answer(SlashCommand::Status, facts(None)),
        Ok(Some("No active transcription session. Use /join to start."))
    );
    assert_eq!(call_answer(SlashCommand::Status, facts(Some(0))), Ok(None));
    assert_eq!(call_answer(SlashCommand::Leave, facts(None)), Ok(None));
}

#[test]
fn command_errors_have_their_texts() {
    let cases = [
        (CommandError::OutsideGuild { command: SlashCommand::Leave }, "leave used outside guild"),
        (CommandError::OutsideGuild { command: SlashCommand::Status }, "status used outside guild"),
        (CommandError::UnknownGuild, "guild not in cache"),
        (CommandError::NotInVoice, "you are not connected to a voice channel"),
        (
            CommandError::NoChannel,
            "you are not connected to a voice channel (or provide a channel mention)",
        ),
        (CommandError::NoActiveCall, "no active call for this guild"),
        (CommandError::MissingQuestion, "missing question"),
    ];
    for (error, text) in cases {
        assert_eq!(error.message(), text);
    }
}

#[test]
fn log_shows_the_last_utterances_in_order() {
    let call = vec![utterance(30, "c"), utterance(10, "a"), utterance(20, "b")];
    let texts = |count: usize| -> Vec<String> {
        recent_utterances(copy_utterances(&call), count)
            .into_iter()
            .map(|utterance| utterance.text)
            .collect()
    };
    assert_eq!(texts(2), ["b", "c"]);
    assert_eq!(texts(3), ["a", "b", "c"]);
    assert_eq!(texts(40), ["a", "b", "c"]);
    assert!(texts(0).is_empty());
}

#[test]
fn counters_follow_the_ticks_and_the_queue() {
    let mut counters = CallCounters::new();
    counters.count_routed(RouteCounts { decode_failures: 2, unmapped: 3, decoded: 5 });
    assert_eq!(counters.decode_failure_activity, 2);
    assert_eq!(counters.unmapped_ssrc_activity, 3);
    assert_eq!(counters.decoded_audio_activity, 5);
    counters.count_tick(1, 4, 2);
    counters.count_shed();
    assert_eq!(counters.dispatch_gate_total, 1);
    assert_eq!(counters.resample_error_total, 4);
    assert_eq!(counters.decode_shed_total, 1);
    assert_eq!(counters.transcription_inflight, 1);

    let text = counters.tail_finished(DecodeResult::Text("hello".to_string()));
    assert_eq!(text.as_deref(), Some("hello"));
    assert_eq!(counters.transcript_pending_commits, 1);
    assert_eq!(counters.decode_jobs_total, 0);
    assert_eq!(counters.tail_finished(DecodeResult::NoText), None);
    assert_eq!(counters.tail_finished(DecodeResult::Error), None);
    assert_eq!(counters.transcript_pending_commits, 1);
    counters.commit_done();
    counters.decode_released();
    assert_eq!(counters.transcript_pending_commits, 0);
    assert_eq!(counters.transcription_inflight, 0);
}

#[test]
fn a_guild_has_one_call_at_a_time() {
    assert_eq!(may_start(false), Ok(()));
    assert_eq!(may_start(true), Err(AlreadyActive));
    assert_eq!(AlreadyActive.message(), "an active call session already exists for this guild");
}

#[test]
fn offered_commands_have_their_permissions_and_options() {
    let table = command_table();
    let offered: Vec<(&str, Option<Permission>)> =
        table.iter().map(|command| (command.name, command.permission)).collect();
    assert_eq!(
        offered,
        [
            ("join", Some(Permission::MoveMembers)),
            ("leave", Some(Permission::MoveMembers)),
            ("status", None),
            ("log", None),
            ("ask", None),
            ("summary", None),
            ("autojoin", Some(Permission::ManageChannels)),
        ]
    );
    for command in &table {
        assert!(slash_command(command.name).is_some());
    }
    let ask = command_definition(SlashCommand::Ask);
    assert_eq!(ask.description, "Ask about the current call transcript");
    assert_eq!(ask.options.len(), 1);
    assert_eq!(ask.options[0].name, "question");
    assert_eq!(ask.options[0].kind, OptionKind::Text);
    assert!(ask.options[0].required && ask.options[0].autocomplete);
    let autojoin = command_definition(SlashCommand::Autojoin);
    let options: Vec<(&str, OptionKind, bool)> =
        autojoin.options.iter().map(|option| (option.name, option.kind, option.required)).collect();
    assert_eq!(
        options,
        [("channel", OptionKind::Channel, false), ("enabled", OptionKind::Boolean, false)]
    );
}
