//! Receive health, the watchdog and the users of streams.
use transcribe_bot::app::healthcheck::{
    assess, mapped_audio_observed, HealthSnapshot, ReceiveHealth, SourceProblem, MAX_SSRCS,
};
use transcribe_bot::app::startup::{
    startup_receive_watchdog, startup_recovery_message, StartupAction, StartupExit, StartupInput,
    SteadyAction, SteadyWatch,
};
use transcribe_bot::app::watchdog::{
    audio_verified, merge_verification_targets, recovery_decision, retry_delay,
    verification_targets, ReceiveProblem, ReceiveWatchdog, RecoveryDecision, RecoveryOutcome,
    Verification, VerificationTarget, WatchdogAction, WatchdogInput, MAX_RECOVERY_ATTEMPTS,
};
use transcribe_bot::asr::directory::SsrcDirectory;
use transcribe_bot::asr::pipeline::UserAudioBuffer;
use transcribe_bot::asr::streams::Streams;
use transcribe_bot::time::SECOND;

const NOW: u64 = 1_000 * SECOND;

fn bits(samples: &[f32]) -> Vec<u32> {
    samples.iter().map(|sample| sample.to_bits()).collect()
}

#[test]
fn quiet_sources_are_not_failed() {
    assert!(assess(
        &HealthSnapshot::default(),
        &HealthSnapshot::default(),
        NOW
    )
    .is_empty());
}

#[test]
fn a_good_speaker_does_not_hide_another_source() {
    let mut health = ReceiveHealth::default();
    for _ in 0..8 {
        health.packet(1, NOW);
        health.decoded(1, true, true, NOW);
        health.packet(2, NOW);
    }
    assert_eq!(
        assess(&HealthSnapshot::default(), &health.snapshot(), NOW),
        vec![(2, SourceProblem::Decode)]
    );
}

#[test]
fn concealment_is_not_success_and_mapping_is_per_source() {
    let mut health = ReceiveHealth::default();
    for _ in 0..8 {
        health.packet(1, NOW);
        health.decoded(1, false, true, NOW);
        health.packet(2, NOW);
        health.decoded(2, true, false, NOW);
    }
    let problems = assess(&HealthSnapshot::default(), &health.snapshot(), NOW);
    assert!(problems.contains(&(1, SourceProblem::Mapping)));
    assert!(problems.contains(&(2, SourceProblem::Decode)));
}

#[test]
fn gateway_speaking_without_any_rtp_is_evidence_after_grace() {
    let mut health = ReceiveHealth::default();
    let now = NOW;
    health.speaking(42, true, now - 7 * SECOND);
    assert_eq!(
        assess(&HealthSnapshot::default(), &health.snapshot(), now),
        vec![(42, SourceProblem::NoMappedAudioAfterSpeaking)]
    );
    health.packet(42, now);
    assert_eq!(
        assess(&HealthSnapshot::default(), &health.snapshot(), now),
        vec![(42, SourceProblem::NoMappedAudioAfterSpeaking)]
    );
    health.decoded(42, true, true, now);
    assert!(assess(&HealthSnapshot::default(), &health.snapshot(), now).is_empty());
}

#[test]
fn muted_or_stale_speaking_does_not_trigger_recovery() {
    let mut health = ReceiveHealth::default();
    let now = NOW;
    health.speaking(42, false, now - 7 * SECOND);
    assert!(assess(&HealthSnapshot::default(), &health.snapshot(), now).is_empty());
    health.speaking(42, true, now - 40 * SECOND);
    assert!(assess(&HealthSnapshot::default(), &health.snapshot(), now).is_empty());
}

#[test]
fn repeated_short_bursts_accumulate_across_the_window() {
    let mut health = ReceiveHealth::default();
    let before = health.snapshot();
    for _ in 0..4 {
        health.packet(2, NOW);
    }
    assert!(assess(&before, &health.snapshot(), NOW).is_empty());
    for _ in 0..4 {
        health.packet(2, NOW);
    }
    assert_eq!(
        assess(&before, &health.snapshot(), NOW),
        vec![(2, SourceProblem::Decode)]
    );
}

#[test]
fn leave_and_rejoin_discard_old_receive_evidence() {
    let mut health = ReceiveHealth::default();
    let now = NOW;
    health.speaking(42, true, now - 7 * SECOND);
    health.forget(42);
    assert!(assess(&HealthSnapshot::default(), &health.snapshot(), now).is_empty());

    for _ in 0..8 {
        health.packet(42, now);
    }
    health.set_driver_disconnected(true);
    health.clear();
    assert!(!health.driver_disconnected());
    assert!(assess(&HealthSnapshot::default(), &health.snapshot(), now).is_empty());
}

#[test]
fn successful_packet_backed_audio_clears_gateway_failure() {
    let mut health = ReceiveHealth::default();
    let now = NOW;
    health.speaking(42, true, now - 7 * SECOND);
    health.packet(42, now);
    health.decoded(42, true, true, now);
    assert!(assess(&HealthSnapshot::default(), &health.snapshot(), now).is_empty());
}

#[test]
fn a_different_speaker_cannot_confirm_recovery() {
    let mut health = ReceiveHealth::default();
    for _ in 0..3 {
        health.packet(1, NOW);
        health.decoded(1, true, true, NOW);
    }
    let snapshot = health.snapshot();
    assert!(mapped_audio_observed(&snapshot, 1, 3));
    assert!(!mapped_audio_observed(&snapshot, 2, 3));
}

#[test]
fn a_crowd_of_sources_stays_bounded() {
    let mut health = ReceiveHealth::default();
    for ssrc in 0..200u32 {
        health.packet(ssrc, NOW + ssrc as u64);
    }
    let snapshot = health.snapshot();
    assert_eq!(snapshot.0.len(), MAX_SSRCS);
    assert!(snapshot.0.contains_key(&199));
    assert!(!snapshot.0.contains_key(&0));
    assert_eq!(health.last_packet_at(), Some(NOW + 199));
}

#[test]
fn quiet_session_waits_but_expired_verification_recovers() {
    let now = NOW;
    assert_eq!(
        recovery_decision(&[], false, 0, now, now),
        RecoveryDecision::Wait
    );
    assert_eq!(
        recovery_decision(&[], true, 0, now, now),
        RecoveryDecision::Recover
    );
}

#[test]
fn repeated_failures_back_off_and_require_fresh_evidence() {
    let now = NOW;
    let issue = [ReceiveProblem::Source(7, SourceProblem::Decode)];
    assert_eq!(retry_delay(1), 20);
    assert_eq!(retry_delay(MAX_RECOVERY_ATTEMPTS), 80);
    assert_eq!(
        recovery_decision(&issue, false, 1, now, now + retry_delay(1) * SECOND),
        RecoveryDecision::Wait
    );
    assert_eq!(
        recovery_decision(&issue, false, 1, now, now),
        RecoveryDecision::Recover
    );
    assert_eq!(
        recovery_decision(&issue, false, MAX_RECOVERY_ATTEMPTS, now, now),
        RecoveryDecision::Exhausted
    );
    assert_eq!(
        recovery_decision(&[], true, MAX_RECOVERY_ATTEMPTS, now, now),
        RecoveryDecision::Exhausted
    );
    assert_eq!(
        recovery_decision(&[], false, MAX_RECOVERY_ATTEMPTS, now, now),
        RecoveryDecision::Wait
    );
}

#[test]
fn verification_follows_users_across_ssrc_changes_and_requires_every_user() {
    let guild_id = 1;
    let affected_user = 10;
    let other_user = 20;
    let mut mappings = SsrcDirectory::new();
    mappings.speaking_update(guild_id, 100, Some(affected_user));
    mappings.speaking_update(guild_id, 200, Some(other_user));
    let mut health = ReceiveHealth::default();
    for _ in 0..3 {
        health.packet(200, NOW);
        health.decoded(200, true, true, NOW);
    }
    let verification = Verification {
        targets: vec![VerificationTarget::User(affected_user)],
        started: NOW,
        reported_unverified: false,
    };

    assert!(!audio_verified(
        &mappings,
        guild_id,
        &health.snapshot(),
        &verification
    ));

    mappings.client_disconnect(guild_id, affected_user);
    mappings.speaking_update(guild_id, 101, Some(affected_user));
    for _ in 0..3 {
        health.packet(101, NOW);
        health.decoded(101, true, true, NOW);
    }
    assert!(audio_verified(
        &mappings,
        guild_id,
        &health.snapshot(),
        &verification
    ));

    let both_users = Verification {
        targets: vec![
            VerificationTarget::User(affected_user),
            VerificationTarget::User(30),
        ],
        started: NOW,
        reported_unverified: false,
    };
    assert!(!audio_verified(
        &mappings,
        guild_id,
        &health.snapshot(),
        &both_users
    ));
}

#[test]
fn recovery_targets_map_known_users_and_deduplicate_across_attempts() {
    let guild_id = 1;
    let user_id = 10;
    let mut mappings = SsrcDirectory::new();
    mappings.speaking_update(guild_id, 100, Some(user_id));
    let problems = [
        ReceiveProblem::Source(100, SourceProblem::Decode),
        ReceiveProblem::Source(200, SourceProblem::Mapping),
        ReceiveProblem::Driver,
    ];

    let targets = verification_targets(&mappings, guild_id, &problems);
    assert_eq!(
        targets,
        vec![
            VerificationTarget::User(user_id),
            VerificationTarget::Ssrc(200),
            VerificationTarget::AnyMappedMedia,
        ]
    );

    let mut accumulated = vec![VerificationTarget::User(user_id)];
    merge_verification_targets(&mut accumulated, &targets);
    assert_eq!(
        accumulated,
        vec![
            VerificationTarget::User(user_id),
            VerificationTarget::Ssrc(200),
            VerificationTarget::AnyMappedMedia,
        ]
    );
}

#[test]
fn unknown_source_verification_requires_that_specific_ssrc() {
    let guild_id = 1;
    let mappings = SsrcDirectory::new();
    let verification = Verification {
        targets: vec![
            VerificationTarget::Ssrc(200),
            VerificationTarget::AnyMappedMedia,
        ],
        started: NOW,
        reported_unverified: false,
    };
    let mut health = ReceiveHealth::default();
    for _ in 0..3 {
        health.packet(201, NOW);
        health.decoded(201, true, true, NOW);
    }
    assert!(!audio_verified(
        &mappings,
        guild_id,
        &health.snapshot(),
        &verification
    ));

    for _ in 0..3 {
        health.packet(200, NOW);
        health.decoded(200, true, true, NOW);
    }
    assert!(audio_verified(
        &mappings,
        guild_id,
        &health.snapshot(),
        &verification
    ));
}

#[test]
fn detaching_recovery_audio_preserves_pcm_and_other_guilds() {
    let guild_id = 1;
    let other_guild = 2;
    let user_id = 10;
    let started = NOW;
    let mut streams = Streams::new();
    streams.insert(
        guild_id,
        user_id,
        UserAudioBuffer {
            pcm: bits(&[0.1, 0.2, 0.3]),
            silent_ticks: 2,
            voiced_ticks: 7,
            utterance_start: Some(started),
        },
    );
    streams.insert(guild_id, 11, UserAudioBuffer::default());
    streams.insert(other_guild, 20, UserAudioBuffer::default());

    let detached = streams.detach_audio_buffers(guild_id);

    assert_eq!(detached.len(), 1);
    assert_eq!(detached[0].user_id, user_id);
    assert_eq!(detached[0].buffer.pcm, bits(&[0.1, 0.2, 0.3]));
    assert_eq!(detached[0].buffer.silent_ticks, 2);
    assert_eq!(detached[0].buffer.voiced_ticks, 7);
    assert_eq!(detached[0].buffer.utterance_start, Some(started));
    assert!(!streams.contains_key(guild_id, user_id));
    assert!(!streams.contains_key(guild_id, 11));
    assert!(streams.contains_key(other_guild, 20));
}

// ---------------------------------------------------------------------------
// The users of streams
// ---------------------------------------------------------------------------

#[test]
fn users_of_streams_come_and_go_per_guild() {
    let mut users = SsrcDirectory::new();
    assert_eq!(users.user_of(1, 5), None);
    users.speaking_update(1, 5, Some(50));
    users.speaking_update(2, 5, Some(60));
    users.speaking_update(1, 6, Some(50));
    users.speaking_update(1, 7, None);
    assert_eq!(users.user_of(1, 5), Some(50));
    assert_eq!(users.user_of(2, 5), Some(60));
    assert_eq!(users.user_of(1, 7), None);
    assert_eq!(users.entries().len(), 3);
    users.client_disconnect(1, 50);
    assert_eq!(users.user_of(1, 5), None);
    assert_eq!(users.user_of(1, 6), None);
    assert_eq!(users.user_of(2, 5), Some(60));
    users.clear_guild(2);
    assert!(users.entries().is_empty());
}

// ---------------------------------------------------------------------------
// The watchdog
// ---------------------------------------------------------------------------

fn input(health: &ReceiveHealth, now: u64) -> WatchdogInput {
    WatchdogInput {
        snapshot: health.snapshot(),
        driver_disconnected: health.driver_disconnected(),
        needs_rejoin: false,
        listener_present: true,
        now,
    }
}

#[test]
fn a_quiet_call_is_left_alone() {
    let users = SsrcDirectory::new();
    let health = ReceiveHealth::default();
    let mut watchdog = ReceiveWatchdog::new(health.snapshot(), NOW);
    for tick in 1..100u64 {
        let report = watchdog.poll(&users, 1, input(&health, NOW + 5 * tick * SECOND));
        assert_eq!(report.action, WatchdogAction::Continue);
        assert!(!report.verified);
    }
}

#[test]
fn a_lasting_problem_leads_to_rejoins_and_then_to_the_end() {
    let users = SsrcDirectory::new();
    let mut health = ReceiveHealth::default();
    let mut watchdog = ReceiveWatchdog::new(health.snapshot(), NOW);
    let mut now = NOW;
    let mut rejoins = 0;
    let mut finalized = None;
    for _ in 0..200 {
        now += 5 * SECOND;
        for _ in 0..8 {
            health.packet(9, now);
        }
        let report = watchdog.poll(&users, 1, input(&health, now));
        match report.action {
            WatchdogAction::Continue => {}
            WatchdogAction::Recover => {
                rejoins += 1;
                watchdog.recovery_done(RecoveryOutcome::Failed, health.snapshot(), now);
            }
            WatchdogAction::Finalize { attempts } => {
                finalized = Some(attempts);
                break;
            }
        }
    }
    assert_eq!(rejoins, MAX_RECOVERY_ATTEMPTS);
    assert_eq!(finalized, Some(MAX_RECOVERY_ATTEMPTS));
}

#[test]
fn merging_targets_twice_changes_nothing() {
    let mut targets = vec![VerificationTarget::Ssrc(1)];
    let more = [VerificationTarget::User(2), VerificationTarget::Ssrc(1)];
    merge_verification_targets(&mut targets, &more);
    let once = targets.clone();
    merge_verification_targets(&mut targets, &more);
    assert_eq!(targets, once);
    assert_eq!(targets, vec![VerificationTarget::Ssrc(1), VerificationTarget::User(2)]);
}

// ---------------------------------------------------------------------------
// The start of a call
// ---------------------------------------------------------------------------

fn starting(attempt: u8) -> StartupInput {
    StartupInput {
        runtime_present: true,
        session_active: true,
        decoded: 0,
        decode_failures: 3,
        unmapped: 0,
        listener_present: true,
        recovery_free: true,
        attempt,
    }
}

#[test]
fn a_call_that_starts_badly_is_set_up_again() {
    assert!(matches!(
        startup_receive_watchdog(&starting(0)),
        StartupAction::Recover { next_attempt: 1 }
    ));
    assert!(matches!(startup_receive_watchdog(&starting(3)), StartupAction::Finalize));
    let mut healthy = starting(0);
    healthy.decoded = 1;
    healthy.decode_failures = 0;
    assert!(matches!(
        startup_receive_watchdog(&healthy),
        StartupAction::Exit(StartupExit::Healthy)
    ));
    let mut gone = starting(0);
    gone.session_active = false;
    assert!(matches!(
        startup_receive_watchdog(&gone),
        StartupAction::Exit(StartupExit::NoSession)
    ));
    let mut missing = starting(0);
    missing.runtime_present = false;
    assert!(matches!(
        startup_receive_watchdog(&missing),
        StartupAction::Exit(StartupExit::MissingRuntime)
    ));
    assert!(startup_recovery_message(0).contains('1'));
}

#[test]
fn a_call_without_progress_is_recovered_after_a_minute() {
    let mut watch = SteadyWatch::new(NOW);
    assert_eq!(watch.poll(true, true, 0, NOW + 59 * SECOND), SteadyAction::Continue);
    assert_eq!(watch.poll(true, true, 5, NOW + 59 * SECOND), SteadyAction::Continue);
    assert_eq!(watch.poll(true, true, 5, NOW + 118 * SECOND), SteadyAction::Continue);
    assert_eq!(watch.poll(true, true, 5, NOW + 119 * SECOND), SteadyAction::Recover);
    watch.recovered(5, NOW + 120 * SECOND);
    assert_eq!(watch.poll(true, true, 5, NOW + 121 * SECOND), SteadyAction::Continue);
    assert_eq!(watch.poll(false, true, 5, NOW + 122 * SECOND), SteadyAction::Exit);
}

#[test]
fn mapped_packets_never_outnumber_decoded_ones() {
    let mut health = ReceiveHealth::default();
    for step in 0..40u64 {
        health.packet(1, NOW + step);
        health.decoded(1, step % 3 != 0, step % 2 == 0, NOW + step);
        health.speaking(1, step % 5 == 0, NOW + step);
        let snapshot = health.snapshot();
        let counts = snapshot.0[&1];
        assert!(counts.mapped_packets <= counts.decoded_packets);
    }
    assert_eq!(health.snapshot().0[&1].decoded_packets, 20);
}
