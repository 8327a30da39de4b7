//! Commands, threads, questions and the end of calls.
use transcribe_bot::app::clock::UtcTime;
use transcribe_bot::app::commands::{
    ask_reply, command_response, failure_alert, find_existing_thread_summary, format_slash_command,
    joined_message, log_reply, log_utterances, queue_alert, rtf_alert, shed_alert, slash_command,
    started_message, status_report, summary_posted_message, summary_reply, thread_summary_step,
    unmapped_alert, AiReply, Alert, OptionValue, SlashCommand, StatusInput, ThreadMessage,
    ThreadSummaryStep,
};
use transcribe_bot::app::healthcheck::ReceiveHealth;
use transcribe_bot::app::prompts::{
    matching_prompt_values, prompt_to_remember, update_prompt_history,
    ASK_PROMPT_HISTORY_MAX_ITEMS,
};
use transcribe_bot::app::session::{
    drain_poll, endpoint_silence_ticks, export_file_name, finalize_remove_decision,
    find_transcript_attachment, journal_file_name, may_finalize, rejoin_remove_decision,
    retention_seconds, settle_again, should_finalize_on_move, should_prune, should_summarize,
    summary_plan, Attachment, CallMove, CallState, Drain, ExpectedSession, RemoveDecision,
    RemoveResult,
};
use transcribe_bot::app::summary::format_summary_thread_message;
use transcribe_bot::app::threads::{
    ReplyStart, ThreadStore, THREAD_AI_COOLDOWN, THREAD_CONTEXT_MAX_ENTRIES,
    THREAD_HISTORY_MAX_ITEMS,
};
use transcribe_bot::asr::decoder::CallCounters;
use transcribe_bot::asr::pipeline::UserAudioBuffer;
use transcribe_bot::time::SECOND;

const NOW: u64 = 1_000 * SECOND;

#[test]
fn endpoint_silence_ticks_rounds_up_and_never_zero() {
    assert_eq!(endpoint_silence_ticks(400), 20);
    assert_eq!(endpoint_silence_ticks(401), 21);
    assert_eq!(endpoint_silence_ticks(80), 4);
    assert_eq!(endpoint_silence_ticks(1), 1);
}

#[test]
fn ask_prompt_history_deduplicates_and_keeps_most_recent_items() {
    let mut history = vec!["older".to_string(), "same".to_string()];
    update_prompt_history(&mut history, "same".to_string());
    assert_eq!(history, ["same", "older"]);

    for index in 0..ASK_PROMPT_HISTORY_MAX_ITEMS {
        update_prompt_history(&mut history, format!("prompt {index}"));
    }
    assert_eq!(history.len(), ASK_PROMPT_HISTORY_MAX_ITEMS);
    assert_eq!(
        history[0],
        format!("prompt {}", ASK_PROMPT_HISTORY_MAX_ITEMS - 1)
    );
}

#[test]
fn a_question_that_is_asked_again_changes_nothing() {
    let mut history: Vec<String> =
        (0..ASK_PROMPT_HISTORY_MAX_ITEMS).map(|index| format!("prompt {index}")).collect();
    update_prompt_history(&mut history, "prompt 3".to_string());
    let once = history.clone();
    update_prompt_history(&mut history, "prompt 3".to_string());
    assert_eq!(history, once);
}

#[test]
fn autocomplete_matches_recent_prompts_without_returning_long_values() {
    let long_prompt = "x".repeat(101);
    let history = vec![
        "When does the project ship?".to_string(),
        "What did we decide?".to_string(),
        long_prompt,
    ];

    assert_eq!(
        matching_prompt_values(&history, "decide"),
        ["What did we decide?"]
    );
    assert_eq!(
        matching_prompt_values(&history, ""),
        ["When does the project ship?", "What did we decide?"]
    );
}

#[test]
fn completions_ignore_case() {
    let history = vec!["ÄPFEL today?".to_string()];
    assert_eq!(matching_prompt_values(&history, "äpfel"), ["ÄPFEL today?"]);
    assert_eq!(prompt_to_remember("ask", Some("  why? ")).as_deref(), Some("why?"));
    assert_eq!(prompt_to_remember("ask", Some("  ")), None);
    assert_eq!(prompt_to_remember("log", Some("why?")), None);
    assert_eq!(prompt_to_remember("ask", None), None);
}

// ---------------------------------------------------------------------------
// Commands
// ---------------------------------------------------------------------------

#[test]
fn commands_are_echoed_with_their_options() {
    let options = [
        OptionValue::Text("why".to_string()),
        OptionValue::Boolean(true),
        OptionValue::Integer(-5),
        OptionValue::Number("1.5".to_string()),
        OptionValue::Channel(1),
        OptionValue::User(2),
        OptionValue::Role(3),
        OptionValue::Id(4),
        OptionValue::Hidden,
    ];
    assert_eq!(format_slash_command("ask", &options), "/ask why true -5 1.5 <#1> <@2> <@&3> 4");
    assert_eq!(
        command_response("/join", Ok("done".to_string())),
        "**Command:** /join\n\ndone"
    );
    assert_eq!(
        command_response("/join", Err("no".to_string())),
        "**Command:** /join\n\nerror: no"
    );
    assert_eq!(slash_command("status"), Some(SlashCommand::Status));
    assert_eq!(slash_command("Status"), None);
    assert_eq!(joined_message(7), "Joined <#7>. Listening and waiting for speech...");
    assert_eq!(started_message(7), "Started transcribing in <#7>.");
}

#[test]
fn alerts_begin_behind_their_limits() {
    assert_eq!(queue_alert(4), Alert::Fine);
    assert_eq!(queue_alert(5), Alert::Warn);
    assert_eq!(queue_alert(9), Alert::Critical);
    assert_eq!(rtf_alert(50, 100), Alert::Fine);
    assert_eq!(rtf_alert(51, 100), Alert::Warn);
    assert_eq!(rtf_alert(81, 100), Alert::Critical);
    assert_eq!(rtf_alert(5, 0), Alert::Fine);
    assert_eq!(failure_alert(100, 0), Alert::Fine);
    assert_eq!(shed_alert(0, SECOND), Alert::Fine);
    assert_eq!(unmapped_alert(0, 60), Alert::Fine);
    assert_eq!(Alert::Critical.name(), "critical");
}

#[test]
fn the_status_names_its_channel_and_counts() {
    let report = status_report(&StatusInput {
        voice_channel: 77,
        elapsed_nanos: 65 * SECOND,
        participants: 3,
        queue_depth: 1,
        queue_capacity: 8,
        counters: CallCounters::new(),
        utterances: 12,
        failure_percent: "0.0".to_string(),
        rtf: "0.10".to_string(),
        average_wait_ms: "5".to_string(),
        average_decode_ms: "9".to_string(),
        shed_per_minute: "0.0".to_string(),
    });
    assert!(report.contains("<#77>"));
    assert!(report.contains("12"));
    assert!(report.contains("0.10"));
}

#[test]
fn logs_fit_into_a_message() {
    assert_eq!(log_utterances(None), 40);
    assert_eq!(log_utterances(Some(-3)), 1);
    let reply = log_reply(40, &"é".repeat(5_000));
    assert!(reply.chars().count() <= 1_900);
    assert!(log_reply(40, "short").contains("short"));
}

#[test]
fn summaries_in_threads_are_made_once() {
    let posted = format_summary_thread_message("We met.");
    let messages = [
        ThreadMessage { from_bot: false, content: posted.clone() },
        ThreadMessage { from_bot: true, content: "hello".to_string() },
        ThreadMessage { from_bot: true, content: posted },
    ];
    assert_eq!(find_existing_thread_summary(&messages), Some(2));
    assert_eq!(find_existing_thread_summary(&messages[..2]), None);
    assert!(matches!(thread_summary_step(Some("link"), "t"), ThreadSummaryStep::Answer(_)));
    assert!(matches!(
        thread_summary_step(None, "[Alex 0:00] Hello"),
        ThreadSummaryStep::Generate
    ));
    let exported = "---\ntitle: \"Call\"\n---\n\nWe met.\n\n## Transcript\n\n[Alex 0:00] Hello";
    match thread_summary_step(None, exported) {
        ThreadSummaryStep::Post(message) => {
            assert_eq!(message, format_summary_thread_message("We met."))
        }
        _ => panic!("expected the summary of the export"),
    }
    assert!(summary_posted_message("link").contains("link"));
    assert!(summary_reply(AiReply::Error("e".to_string())).is_err());
    assert!(summary_reply(AiReply::Text("s".to_string())).unwrap().contains('s'));
    assert!(ask_reply(AiReply::Error("e".to_string())).contains('e'));
}

// ---------------------------------------------------------------------------
// Threads
// ---------------------------------------------------------------------------

#[test]
fn threads_answer_with_what_was_said_before() {
    let mut store = ThreadStore::new();
    assert!(matches!(store.begin_reply(1, NOW), ReplyStart::NoThread));
    store.upsert_thread_context(1, "transcript".to_string(), NOW);
    assert_eq!(store.transcript(1).as_deref(), Some("transcript"));
    match store.begin_reply(1, NOW) {
        ReplyStart::Ask { transcript, history } => {
            assert_eq!(transcript, "transcript");
            assert!(history.is_empty());
        }
        _ => panic!("expected a question"),
    }
    store.finish_reply(1, "q".to_string(), "a".to_string(), NOW);
    assert!(matches!(store.begin_reply(1, NOW + SECOND), ReplyStart::CoolingDown));
    match store.begin_reply(1, NOW + 2 * THREAD_AI_COOLDOWN) {
        ReplyStart::Ask { history, .. } => {
            assert_eq!(history.len(), 2);
            assert_eq!(history[0], ("user".to_string(), "q".to_string()));
            assert_eq!(history[1], ("model".to_string(), "a".to_string()));
        }
        _ => panic!("expected a question"),
    }
}

#[test]
fn threads_stay_bounded() {
    let mut store = ThreadStore::new();
    for channel in 0..100u64 {
        store.upsert_thread_context(channel, "t".to_string(), NOW + channel);
    }
    let kept = (0..100u64).filter(|channel| store.contains_key(*channel)).count();
    assert_eq!(kept, THREAD_CONTEXT_MAX_ENTRIES);
    assert!(store.contains_key(99));
    assert!(!store.contains_key(0));
    for turn in 0..30u64 {
        store.finish_reply(99, "q".to_string(), "a".to_string(), NOW + turn);
    }
    match store.begin_reply(99, NOW + 100 * SECOND) {
        ReplyStart::Ask { history, .. } => assert_eq!(history.len(), THREAD_HISTORY_MAX_ITEMS),
        _ => panic!("expected a question"),
    }
}

// ---------------------------------------------------------------------------
// The end of calls
// ---------------------------------------------------------------------------

fn leaving() -> CallMove {
    CallMove {
        target_channel: 5,
        old_channel: Some(5),
        new_channel: None,
        user_is_bot: false,
        call_age: SECOND,
        guild_known: true,
        listener_present: false,
    }
}

#[test]
fn an_empty_channel_ends_the_call() {
    assert!(should_finalize_on_move(&leaving()));
    assert!(!should_finalize_on_move(&CallMove { listener_present: true, ..leaving() }));
    assert!(!should_finalize_on_move(&CallMove { user_is_bot: true, ..leaving() }));
    assert!(should_finalize_on_move(&CallMove {
        user_is_bot: true,
        call_age: 10 * SECOND,
        ..leaving()
    }));
    assert!(!should_finalize_on_move(&CallMove { old_channel: Some(6), ..leaving() }));
    assert!(!should_finalize_on_move(&CallMove { guild_known: false, ..leaving() }));
    assert!(may_finalize(None));
    assert!(!may_finalize(Some(ExpectedSession {
        is_current: false,
        guild_known: true,
        listener_present: false,
    })));
}

#[test]
fn leaving_a_channel_is_judged() {
    assert_eq!(
        finalize_remove_decision(RemoveResult::Failed, true),
        RemoveDecision::Fail
    );
    assert_eq!(
        finalize_remove_decision(RemoveResult::TimedOut, false),
        RemoveDecision::ProceedWithWarning
    );
    assert_eq!(
        rejoin_remove_decision(RemoveResult::TimedOut, false),
        RemoveDecision::FailTimedOut
    );
    assert_eq!(rejoin_remove_decision(RemoveResult::Failed, false), RemoveDecision::Proceed);
    assert_eq!(drain_poll(0, 0, 99, 1), Drain::Done);
    assert_eq!(drain_poll(1, 0, 0, 1), Drain::Wait);
    assert_eq!(drain_poll(0, 1, 1, 1), Drain::GiveUp);
    assert!(settle_again(3, 0, 0, true));
    assert!(!settle_again(4, 1, 1, true));
    assert!(!settle_again(0, 0, 0, false));
}

#[test]
fn files_are_named_so_that_they_are_found_again() {
    let started = UtcTime::from_timestamp(1_785_846_896).unwrap();
    let journal = journal_file_name(9, started);
    let export = export_file_name(started);
    assert!(should_prune(&journal, 5, 5));
    assert!(!should_prune(&journal, 6, 5));
    assert!(!should_prune(&export, 5, 5));
    assert!(!should_prune("notes.jsonl", 5, 5));
    assert!(!should_prune("transcript-demo.txt", 5, 5));
    assert!(should_prune("transcript-demo.jsonl", 5, 5));
    let attachments = [
        Attachment { filename: "other.md".to_string(), size: 1 },
        Attachment { filename: export, size: 1 },
    ];
    assert_eq!(find_transcript_attachment(&attachments), Some(1));
    assert_eq!(retention_seconds(0), 86_400);
    assert_eq!(retention_seconds(30), 2_592_000);
}

#[test]
fn summaries_are_planned() {
    let plan = summary_plan(true, true, true);
    assert!(plan.before_export());
    assert!(plan.after_export(false));
    assert!(!plan.after_export(true));
    let off = summary_plan(false, true, true);
    assert!(!off.before_export() && !off.after_export(false));
    assert!(should_summarize(true, 1));
    assert!(!should_summarize(true, 0));
    assert!(!should_summarize(false, 1));
}

#[test]
fn a_rejoin_starts_afresh_and_keeps_the_audio() {
    let mut state = CallState::new();
    let mut health = ReceiveHealth::default();
    health.packet(5, NOW);
    state.users.speaking_update(1, 5, Some(50));
    state.users.speaking_update(2, 5, Some(60));
    state.unknown.push_unknown_ssrc_audio(1, 6, &[1], NOW);
    state.streams.insert(
        1,
        50,
        UserAudioBuffer {
            pcm: vec![5; 3],
            silent_ticks: 0,
            voiced_ticks: 9,
            utterance_start: Some(NOW),
        },
    );
    let detached = state.prepare_rejoin(&mut health, 1);
    assert_eq!(detached.len(), 1);
    assert_eq!(detached[0].buffer.pcm, vec![5; 3]);
    assert_eq!(state.users.user_of(1, 5), None);
    assert_eq!(state.users.user_of(2, 5), Some(60));
    assert!(state.unknown.take_unknown_ssrc_audio(1, 6).is_empty());
    assert!(health.snapshot().0.is_empty());
    assert!(state.end_call(2).is_empty());
    assert_eq!(state.users.user_of(2, 5), None);
}
