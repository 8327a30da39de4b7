//! Transcripts, exports, summaries and channels.
use std::collections::HashMap;

use transcribe_bot::app::autojoin::{
    autojoin_reply, autojoin_target, autojoined_message, normalized_autojoin_suffix,
    pick_autojoin_text_channel_from_channels, plan_autojoin, strip_known_autojoin_suffix,
    AutojoinError, ChannelKind, ChannelSummary, VoiceMove,
};
use transcribe_bot::app::clock::UtcTime;
use transcribe_bot::app::summary::{
    attendees_in_order, cached_summary_from_export_markdown, format_call_title,
    format_export_markdown_with_names, format_summary_thread_message, format_transcript,
    format_transcript_from_call_start, is_summary_thread_message, usable_summary,
    yaml_escape_double_quoted, yaml_single_line_scalar,
};
use transcribe_bot::app::transcript::{
    build_transcript_lines, display_name, format_duration, format_transcript_stamp, journal_lines,
    journal_record, persisted_utterance, restore_transcript, sort_by_start, PersistedUtterance,
    Utterance,
};
use transcribe_bot::time::{MILLISECOND, SECOND};

const NOW: u64 = 1_000 * SECOND;

fn utterance(user_id: u64, start_ts: u64, text: &str) -> Utterance {
    Utterance { user_id, start_ts, text: text.to_string() }
}

fn at(text: &str) -> UtcTime {
    let time = chrono::DateTime::parse_from_rfc3339(text).expect("valid timestamp");
    UtcTime::from_timestamp(time.timestamp()).expect("within the calendar")
}

fn channel(id: u64, kind: ChannelKind, parent_id: Option<u64>, position: u16) -> ChannelSummary {
    ChannelSummary { id, kind, parent_id, position }
}

#[test]
fn transcript_stamp_formats_minutes_seconds() {
    assert_eq!(format_transcript_stamp(65), "1:05");
}

#[test]
fn transcript_lines_use_display_names_timestamps_and_id_fallbacks() {
    let started = NOW;
    let transcript = vec![
        utterance(123, started, "Hello"),
        utterance(456, started + 65 * SECOND, "Hi there"),
    ];
    let names = HashMap::from([(123, "Alice".to_string())]);

    assert_eq!(
        build_transcript_lines(&transcript, &names, Some(started)),
        vec!["[Alice 0:00] Hello", "[456 1:05] Hi there"]
    );
    assert_eq!(
        build_transcript_lines(&[], &names, Some(started)),
        vec!["_No captured speech._"]
    );

    assert_eq!(
        build_transcript_lines(&transcript, &names, Some(started - 305 * SECOND)),
        vec!["[Alice 5:05] Hello", "[456 6:10] Hi there"]
    );
}

#[test]
fn export_markdown_escapes_hostile_attendees_inside_frontmatter() {
    let started_mono = NOW;
    let transcript = vec![utterance(123, started_mono, "Hello")];
    let names = HashMap::from([(123, "Eve\n---\nstatus: draft".to_string())]);
    let started_at = at("2026-08-04T12:34:56Z");

    let markdown = format_export_markdown_with_names(
        &transcript,
        &names,
        started_at,
        started_mono,
        65,
        "Call",
        Some("Summary"),
        true,
    );

    assert_eq!(markdown.matches("\n---\n").count(), 2);
    assert!(markdown.contains("  - \"Eve\\n---\\nstatus: draft\""));
    assert!(markdown.contains("Summary\n\n## Transcript"));
    assert!(!markdown.contains("\nstatus: draft\n"));
}

#[test]
fn duration_formats_with_or_without_hours() {
    assert_eq!(format_duration(125), "2m 5s");
    assert_eq!(format_duration(3_665), "1h 1m 5s");
}

#[test]
fn summary_thread_message_truncates_long_content() {
    let long = "a".repeat(2_100);
    let message = format_summary_thread_message(&long);
    assert!(message.starts_with("## Meeting summary\n\n"));
    assert!(message.ends_with("\n\n(truncated)"));
    assert!(message.chars().count() <= 1_800);
}

#[test]
fn summary_thread_message_is_identifiable_after_a_slash_response_prefix() {
    let message = format!(
        "**Command:** /summary\n\n{}",
        format_summary_thread_message("The decision is recorded.")
    );
    assert!(is_summary_thread_message(&message));
    assert!(!is_summary_thread_message("A user asked for a summary."));
}

#[test]
fn cached_summary_is_read_from_export_markdown() {
    let markdown = "---\ntitle: \"Call\"\n---\n\n## Decisions\n\nUse retries.\n\n## Transcript\n\n[Alex 0:00] Hello";
    assert_eq!(
        cached_summary_from_export_markdown(markdown).as_deref(),
        Some("## Decisions\n\nUse retries.")
    );
    assert!(cached_summary_from_export_markdown(
        "---\ntitle: \"Call\"\n---\n\n## Transcript\n"
    )
    .is_none());
}

#[test]
fn yaml_helpers_escape_and_quote_when_needed() {
    assert_eq!(yaml_escape_double_quoted("a\\b\"c"), "a\\\\b\\\"c");
    assert_eq!(yaml_single_line_scalar("Alice-1"), "Alice-1");
    assert_eq!(yaml_single_line_scalar("Alice:1"), "\"Alice:1\"");
    assert_eq!(
        yaml_single_line_scalar("Alice\n---\ntype: evil"),
        "\"Alice\\n---\\ntype: evil\""
    );
}

#[test]
fn call_title_has_stable_full_format() {
    let started = at("2026-08-04T12:34:56Z");
    let title = format_call_title(started);
    assert_eq!(title, "Transcript 2026-08-04 12:34:56 UTC");
}

// ---------------------------------------------------------------------------
// Times and exports
// ---------------------------------------------------------------------------

#[test]
fn times_are_written_in_every_form() {
    let time = at("2026-08-04T12:34:56Z");
    assert_eq!(time.timestamp(), 1_785_846_896);
    assert_eq!(time.date_time(), "2026-08-04 12:34:56");
    assert_eq!(time.date_time_utc(), "2026-08-04 12:34:56 UTC");
    assert_eq!(time.compact(), "20260804-123456");
    assert_eq!(time.rfc3339(), "2026-08-04T12:34:56Z");
    assert!(UtcTime::from_timestamp(i64::MAX).is_none());
    assert!(UtcTime::from_timestamp(i64::MIN).is_none());
}

#[test]
fn an_export_gives_its_summary_back() {
    let transcript = vec![utterance(1, NOW, "Hello"), utterance(2, NOW + SECOND, "## Transcript")];
    let names = HashMap::from([(1, "---".to_string()), (2, "a\"b".to_string())]);
    let summary = "  ## Summary\n\nWe met.\n---\nReally.  ";
    let markdown = format_export_markdown_with_names(
        &transcript,
        &names,
        at("2026-08-04T12:34:56Z"),
        NOW,
        3_665,
        "Title \"x\"\n---\n",
        Some(summary),
        true,
    );
    assert_eq!(
        cached_summary_from_export_markdown(&markdown).as_deref(),
        Some("## Summary\n\nWe met.\n---\nReally.")
    );
    let without = format_export_markdown_with_names(
        &transcript,
        &names,
        at("2026-08-04T12:34:56Z"),
        NOW,
        3_665,
        "Title",
        Some(summary),
        false,
    );
    assert!(cached_summary_from_export_markdown(&without).is_none());
    assert!(markdown.contains("\"---\"") || markdown.contains("  - ---"));
}

#[test]
fn an_export_tells_the_elapsed_call_time() {
    let transcript = vec![
        utterance(123, NOW + 3 * SECOND, "Are we ready to deploy?"),
        utterance(456, NOW + 8 * SECOND, "I will run the final tests tonight."),
    ];
    let names = HashMap::from([(123, "Alice".to_string()), (456, "Bob".to_string())]);
    let markdown = format_export_markdown_with_names(
        &transcript,
        &names,
        at("2026-07-25T20:15:04Z"),
        NOW,
        48 * 60 + 12,
        "Transcript 2026-07-25 20:15:04 UTC",
        None,
        true,
    );
    assert_eq!(
        markdown,
        "---\ntitle: \"Transcript 2026-07-25 20:15:04 UTC\"\ntype: meeting\n\
         date: 2026-07-25T20:15:04Z\nduration: \"48m 12s\"\nsource: discord\n\
         status: complete\nattendees:\n  - Alice\n  - Bob\n---\n\n## Transcript\n\n\
         [Alice 0:03] Are we ready to deploy?\n\
         [Bob 0:08] I will run the final tests tonight.\n"
    );
    assert!(cached_summary_from_export_markdown(&markdown).is_none());
}

#[test]
fn escaping_keeps_every_line_whole() {
    for hostile in ["\n", "\r\n---\r\n", "\t\"\\", "a\u{0}b", "é\u{7f}"] {
        let escaped = yaml_escape_double_quoted(hostile);
        assert!(!escaped.contains('\n') && !escaped.contains('\r'), "{escaped}");
        assert!(!yaml_single_line_scalar(hostile).contains('\n'));
    }
}

#[test]
fn attendees_are_listed_once_in_the_order_they_spoke() {
    let transcript = vec![
        utterance(2, NOW, "a"),
        utterance(1, NOW, "b"),
        utterance(2, NOW, "c"),
    ];
    let names = HashMap::from([(1, "One".to_string())]);
    assert_eq!(attendees_in_order(&transcript, &names), vec!["One"]);
    let names = HashMap::from([(1, "One".to_string()), (2, "Two".to_string())]);
    assert_eq!(attendees_in_order(&transcript, &names), vec!["Two", "One"]);
    assert_eq!(display_name(&names, 7), "7");
}

#[test]
fn transcripts_are_headed_by_their_start() {
    let transcript = vec![utterance(1, NOW + 5 * SECOND, "Hello")];
    let names = HashMap::from([(1, "One".to_string())]);
    let plain = format_transcript(&transcript, &names, at("2026-08-04T12:34:56Z"));
    assert!(plain.contains("2026-08-04"));
    let from_start =
        format_transcript_from_call_start(&transcript, &names, at("2026-08-04T12:34:56Z"), NOW);
    assert!(from_start.contains("[One 0:05] Hello"));
}

#[test]
fn blank_summaries_are_of_no_use() {
    assert_eq!(usable_summary(" \n"), None);
    assert_eq!(usable_summary(" s ").as_deref(), Some("s"));
}

// ---------------------------------------------------------------------------
// The journal
// ---------------------------------------------------------------------------

#[test]
fn sorting_keeps_the_order_of_equal_starts() {
    let sorted = sort_by_start(vec![
        utterance(1, 5, "x"),
        utterance(2, 3, "y"),
        utterance(3, 5, "z"),
        utterance(4, 3, "w"),
    ]);
    let order: Vec<u64> = sorted.iter().map(|u| u.user_id).collect();
    assert_eq!(order, vec![2, 4, 1, 3]);
}

#[test]
fn the_journal_gives_back_what_was_said() {
    let started = NOW;
    let spoken = [
        utterance(42, started + 2_000 * MILLISECOND, "second \"quoted\""),
        utterance(42, started + 500 * MILLISECOND, "first\nline"),
        utterance(7, started - SECOND, "early"),
    ];
    let entries: Vec<PersistedUtterance> =
        spoken.iter().map(|u| persisted_utterance(u, started)).collect();
    assert_eq!(entries[0].start_offset_ms, 2_000);
    assert_eq!(entries[2].start_offset_ms, 0);
    let loaded = restore_transcript(entries, started);
    assert_eq!(loaded.len(), 3);
    assert_eq!(loaded[0].text, "early");
    assert_eq!(loaded[0].start_ts, started);
    assert_eq!(loaded[1].text, "first\nline");
    assert_eq!(loaded[2].text, "second \"quoted\"");
    assert_eq!(loaded[2].start_ts, started + 2_000 * MILLISECOND);
}

#[test]
fn a_journal_with_offsets_beyond_the_clock_is_restored_in_full() {
    let entry = |user_id: u64, start_offset_ms: u64| PersistedUtterance {
        user_id,
        start_offset_ms,
        text: format!("text {user_id}"),
    };
    let last = (u64::MAX - NOW) / MILLISECOND;
    let entries = vec![entry(1, u64::MAX), entry(2, 20), entry(3, last + 1), entry(4, last), entry(5, 0)];
    let loaded = restore_transcript(entries, NOW);
    let order: Vec<u64> = loaded.iter().map(|u| u.user_id).collect();
    assert_eq!(order, vec![5, 2, 4, 1, 3]);
    let starts: Vec<u64> = loaded.iter().map(|u| u.start_ts).collect();
    assert_eq!(
        starts,
        vec![NOW, NOW + 20 * MILLISECOND, NOW + last * MILLISECOND, u64::MAX, u64::MAX]
    );
    assert_eq!(loaded[3].text, "text 1");
    assert!(restore_transcript(Vec::new(), NOW).is_empty());
}

#[test]
fn journal_lines_are_the_records_that_were_written() {
    let content = journal_record("{\"a\":1}") + &journal_record("") + &journal_record("b\r c");
    assert_eq!(journal_lines(&content), vec!["{\"a\":1}", "", "b\r c"]);
    for content in ["", "\n", "a", "a\r\nb", "a\n\nb\n", "\r", "a\r", "\r\n\r\n", "x\r\r\ny\r"] {
        let expected: Vec<&str> = content.lines().collect();
        assert_eq!(journal_lines(content), expected, "{content:?}");
    }
}

// ---------------------------------------------------------------------------
// Channels that are joined
// ---------------------------------------------------------------------------

#[test]
fn normalized_suffix_uses_default_when_blank() {
    assert_eq!(normalized_autojoin_suffix("   "), " [Transcribe]");
}

#[test]
fn normalized_suffix_adds_leading_space() {
    assert_eq!(normalized_autojoin_suffix("[Live]"), " [Live]");
}

#[test]
fn normalizing_a_suffix_twice_changes_nothing() {
    for suffix in ["", "   ", "[Live]", "  a b\t", "\u{3000}x"] {
        let mark = normalized_autojoin_suffix(suffix);
        assert_eq!(normalized_autojoin_suffix(&mark), mark);
    }
}

#[test]
fn strip_known_suffix_only_when_present() {
    assert_eq!(
        strip_known_autojoin_suffix("General [Transcribe]", " [Transcribe]"),
        Some("General".to_string())
    );
    assert_eq!(
        strip_known_autojoin_suffix("General", " [Transcribe]"),
        None
    );
}

#[test]
fn suffix_helpers_handle_leading_space_and_suffix_only_name() {
    assert_eq!(normalized_autojoin_suffix(" [Live]"), " [Live]");
    assert_eq!(
        strip_known_autojoin_suffix(" [Transcribe]", " [Transcribe]"),
        Some(String::new())
    );
}

#[test]
fn autojoin_text_channel_prefers_category_then_system_then_global_tiebreak() {
    let channels = [
        channel(1, ChannelKind::Voice, Some(10), 0),
        channel(4, ChannelKind::Text, Some(10), 2),
        channel(3, ChannelKind::Text, Some(10), 2),
        channel(2, ChannelKind::Text, None, 0),
    ];
    assert_eq!(
        pick_autojoin_text_channel_from_channels(&channels, 1, Some(2)),
        Some(3)
    );

    let no_category_text = [
        channel(1, ChannelKind::Voice, Some(10), 0),
        channel(2, ChannelKind::Text, None, 3),
    ];
    assert_eq!(
        pick_autojoin_text_channel_from_channels(&no_category_text, 1, Some(99)),
        Some(99)
    );
    assert_eq!(
        pick_autojoin_text_channel_from_channels(&no_category_text, 1, None),
        Some(2)
    );
}

#[test]
fn marking_a_channel_is_undone() {
    let plan = plan_autojoin(ChannelKind::Voice, "General", "[Live]", None).ok().unwrap();
    assert!(plan.enable);
    assert_eq!(plan.new_name, "General [Live]");
    let back = plan_autojoin(ChannelKind::Voice, &plan.new_name, "[Live]", None).ok().unwrap();
    assert!(!back.enable);
    assert_eq!(back.new_name, "General");
    assert_eq!(
        plan_autojoin(ChannelKind::Text, "General", "[Live]", None).err(),
        Some(AutojoinError::NotAVoiceChannel)
    );
    assert_eq!(
        plan_autojoin(ChannelKind::Voice, &"x".repeat(100), "[Live]", Some(true)).err(),
        Some(AutojoinError::NameTooLong)
    );
    assert_eq!(
        plan_autojoin(ChannelKind::Voice, " [Live]", "[Live]", Some(false)).err(),
        Some(AutojoinError::NameWouldBeEmpty)
    );
    assert!(autojoin_reply(true, 5).contains("<#5>"));
    assert!(autojoined_message(5, " [Live]").contains("<#5>"));
}

#[test]
fn only_marked_channels_are_joined() {
    let entering = VoiceMove {
        session_active: false,
        user_is_bot: false,
        old_channel: None,
        new_channel: Some(5),
    };
    assert_eq!(
        autojoin_target(&entering, ChannelKind::Voice, "General [Live]", "[Live]"),
        Some(5)
    );
    assert_eq!(autojoin_target(&entering, ChannelKind::Voice, "General", "[Live]"), None);
    assert_eq!(autojoin_target(&entering, ChannelKind::Text, "General [Live]", "[Live]"), None);
    let staying = VoiceMove {
        session_active: false,
        user_is_bot: false,
        old_channel: Some(5),
        new_channel: Some(5),
    };
    assert_eq!(autojoin_target(&staying, ChannelKind::Voice, "General [Live]", "[Live]"), None);
    let busy = VoiceMove {
        session_active: true,
        user_is_bot: false,
        old_channel: None,
        new_channel: Some(5),
    };
    assert_eq!(autojoin_target(&busy, ChannelKind::Voice, "General [Live]", "[Live]"), None);
}
