//! Audio: rollovers, endpoints, routing, the front end and the decoder's queue.
use std::collections::VecDeque;

use transcribe_bot::asr::audio::{
    advance_silence, append_processed_chunk, choose_rollover_split_index, IngestOutcome,
    IngestParams, ProcessedSpeechChunk,
};
use transcribe_bot::asr::decoder::{
    decode_queue_capacity, decode_queue_depth, push_bounded, CallCounters, DecodeQueue,
    DecodeResult,
};
use transcribe_bot::asr::directory::SsrcDirectory;
use transcribe_bot::asr::frontend::{
    SnrBand, UserDenoiseState, EARSHOT_FRAME_SIZE, RNNOISE_FRAME_SIZE, VAD_HANGOVER_FRAMES,
    VAD_PREROLL_SAMPLES_16K,
};
use transcribe_bot::asr::pipeline::{
    decode_rejection_reason, should_dispatch_chunk, transcribe_mono_pcm, trim_finalize_tail,
    UserAudioBuffer,
};
use transcribe_bot::asr::streams::Streams;
use transcribe_bot::asr::tick::{
    route_tick, tail_requests, CallAudio, Flushed, ProcessedSource, Stage, TickSource,
};
use transcribe_bot::asr::unknown::{
    UnknownSsrcBuffers, UNKNOWN_SSRC_MAX_SAMPLES, UNKNOWN_SSRC_MAX_TRACKED,
};
use transcribe_bot::time::{MILLISECOND, SECOND};

const NOW: u64 = 1_000 * SECOND;

fn compute_rms(samples: &[f32]) -> f32 {
    if samples.is_empty() {
        return 0.0;
    }
    let sum_sq: f32 = samples.iter().map(|s| s * s).sum();
    (sum_sq / samples.len() as f32).sqrt()
}

fn loudness(samples: &[f32]) -> u32 {
    compute_rms(samples).to_bits()
}

fn params() -> IngestParams {
    IngestParams {
        max_ingest_samples: 3_200,
        keep_context_samples: 1_600,
        silence_ticks_threshold: 3,
    }
}

fn chunk(samples: usize, speech_active: bool) -> ProcessedSpeechChunk<f32> {
    ProcessedSpeechChunk {
        pcm_16k: vec![0.1; samples],
        speech_active,
    }
}

#[test]
fn rollover_short_buffer_uses_nominal_tail_keep() {
    let pcm = vec![0.1; 2_000];
    let split = choose_rollover_split_index(&pcm, 400, 1_000, loudness);
    assert_eq!(split, 1_600);
}

#[test]
fn rollover_degenerate_bounds_returns_max_split() {
    let pcm = vec![0.1; 3_200];
    let split = choose_rollover_split_index(&pcm, 800, 1_000, loudness);
    assert_eq!(split, 1_600);
}

#[test]
fn rollover_split_stays_inside_bounds() {
    let pcm = vec![0.1; 10_000];
    let keep = 3_000;
    let max_keep_without_starving = 5_000;
    let split = choose_rollover_split_index(&pcm, keep, max_keep_without_starving, loudness);

    let min_split = pcm.len().saturating_sub(max_keep_without_starving).max(1_600);
    let max_split = pcm.len().saturating_sub(1_600);
    assert!(split >= min_split && split <= max_split);
}

#[test]
fn rollover_prefers_quieter_window_when_available() {
    let mut pcm = vec![1.0; 10_000];
    for sample in pcm.iter_mut().take(6_400).skip(5_600) {
        *sample = 0.0;
    }

    let split = choose_rollover_split_index(&pcm, 3_000, 5_000, loudness);
    assert!(split >= 5_400 && split <= 6_600);
}

#[test]
fn append_preserves_intra_utterance_silence_after_speech_starts() {
    let mut buffer = UserAudioBuffer::default();
    let now = NOW;

    assert!(matches!(
        append_processed_chunk(&mut buffer, chunk(320, false), params(), now, loudness),
        IngestOutcome::Pending
    ));
    append_processed_chunk(&mut buffer, chunk(320, true), params(), now, loudness);
    append_processed_chunk(&mut buffer, chunk(320, false), params(), now, loudness);
    append_processed_chunk(&mut buffer, chunk(320, true), params(), now, loudness);

    assert_eq!(buffer.pcm.len(), 960);
    assert_eq!(buffer.voiced_ticks, 2);
}

#[test]
fn rollover_reports_actual_carried_tail_duration_and_prorates_ticks() {
    let mut buffer = UserAudioBuffer {
        pcm: vec![0.1; 2_880],
        silent_ticks: 0,
        voiced_ticks: 9,
        utterance_start: Some(NOW),
    };
    let now = NOW + SECOND;
    let outcome = append_processed_chunk(&mut buffer, chunk(320, true), params(), now, loudness);

    let IngestOutcome::Rollover {
        pcm,
        voiced_ticks,
        ..
    } = outcome else {
        panic!("expected rollover");
    };
    assert_eq!(voiced_ticks + buffer.voiced_ticks, 10);
    assert_eq!(pcm.len() + buffer.pcm.len(), 3_200);
}

#[test]
fn endpoint_fires_once_at_exact_silence_threshold() {
    let mut buffer = UserAudioBuffer {
        pcm: vec![0.1; 640],
        silent_ticks: 0,
        voiced_ticks: 2,
        utterance_start: Some(NOW),
    };
    let now = NOW;

    assert!(matches!(advance_silence(&mut buffer, params(), now), IngestOutcome::Pending));
    assert!(matches!(advance_silence(&mut buffer, params(), now), IngestOutcome::Pending));
    assert!(matches!(
        advance_silence(&mut buffer, params(), now),
        IngestOutcome::Endpoint { .. }
    ));
    assert!(matches!(advance_silence(&mut buffer, params(), now), IngestOutcome::Pending));
}

#[test]
fn repeated_rollovers_conserve_all_pcm_samples() {
    let mut buffer = UserAudioBuffer::default();
    let mut emitted_samples = 0usize;
    let now = NOW;

    for tick in 0..300 {
        let outcome = append_processed_chunk(
            &mut buffer,
            chunk(320, true),
            params(),
            now + tick * 20 * MILLISECOND,
            loudness,
        );
        if let IngestOutcome::Rollover { pcm, .. } = outcome {
            emitted_samples += pcm.len();
        }
    }

    assert_eq!(emitted_samples + buffer.pcm.len(), 300 * 320);
}

#[test]
fn rollover_split_is_panic_free_across_degenerate_bounds() {
    for len in [3_200, 10_000, 64_000, 192_000] {
        for keep in [0, 800, 24_000, len + 1] {
            for max_keep in [0, 1_600, 62_400] {
                let pcm = vec![0.1; len];
                let split = choose_rollover_split_index(&pcm, keep, max_keep, loudness);
                assert!((1_600..=len - 1_600).contains(&split));
                assert!(len - split >= 1_600);
            }
        }
    }
}

#[test]
fn bounded_queue_keeps_fifo_order_until_full() {
    let mut queue = VecDeque::new();
    assert_eq!(push_bounded(&mut queue, 1, 2), None);
    assert_eq!(push_bounded(&mut queue, 2, 2), None);
    assert_eq!(queue.into_iter().collect::<Vec<_>>(), vec![1, 2]);
}

#[test]
fn bounded_queue_sheds_oldest_item_when_full() {
    let mut queue = VecDeque::from([1, 2]);
    assert_eq!(push_bounded(&mut queue, 3, 2), Some(1));
    assert_eq!(queue.into_iter().collect::<Vec<_>>(), vec![2, 3]);
}

#[test]
fn push_mono_pcm_buffers_until_full_frame() {
    let mut state = UserDenoiseState::new();
    let denoise = |frame: &[f32]| {
        let mut denoiser = nnnoiseless::DenoiseState::new();
        let scaled: Vec<f32> = frame.iter().map(|s| s * i16::MAX as f32).collect();
        let mut output = vec![0.0; RNNOISE_FRAME_SIZE];
        denoiser.process_frame(&mut output, &scaled);
        output
    };
    let almost_frame = vec![0.1f32; RNNOISE_FRAME_SIZE - 10];
    let tail = vec![0.1f32; 10];

    let first_out = state.push_mono_pcm(&almost_frame, denoise);
    assert!(first_out.is_empty());

    let second_out = state.push_mono_pcm(&tail, denoise);
    assert_eq!(second_out.len(), RNNOISE_FRAME_SIZE);
}

// ---------------------------------------------------------------------------
// The front end
// ---------------------------------------------------------------------------

#[test]
fn the_frame_is_that_of_the_denoiser() {
    assert_eq!(RNNOISE_FRAME_SIZE, nnnoiseless::DenoiseState::FRAME_SIZE);
}

#[test]
fn the_first_frame_is_passed_on_as_it_came() {
    let mut state: UserDenoiseState<i32> = UserDenoiseState::new();
    let negate = |frame: &[i32]| frame.iter().map(|s| -s).collect::<Vec<i32>>();
    let input: Vec<i32> = (0..1_000).collect();
    let out = state.push_mono_pcm(&input, negate);
    assert_eq!(out.len(), 960);
    assert_eq!(&out[..480], &input[..480]);
    assert_eq!(out[480], -480);
    assert_eq!(state.drain_pending_passthrough(), input[960..].to_vec());
    assert!(state.drain_pending_passthrough().is_empty());
}

#[test]
fn pending_audio_is_filled_up_and_handed_on() {
    let mut state: UserDenoiseState<i32> = UserDenoiseState::new();
    let same = |frame: &[i32]| frame.to_vec();
    let third = |frame: &[i32]| Some(frame.iter().step_by(3).copied().collect::<Vec<i32>>());
    assert!(state.flush_pending(0, 480, same, third).is_empty());
    assert!(state.push_mono_pcm(&[7; 6], same).is_empty());
    let out = state.flush_pending(0, 480, same, third);
    assert_eq!(out.len(), 160);
    assert_eq!(&out[..3], &[7, 7, 0]);
    assert!(state.flush_pending(0, 480, same, third).is_empty());
}

#[test]
fn failed_resampling_is_counted() {
    let mut state: UserDenoiseState<i32> = UserDenoiseState::new();
    let odd = |frame: &[i32]| if frame[0] % 2 == 0 { None } else { Some(vec![frame[0]]) };
    let out = state.resample_stream(&[1, 1, 2, 2, 3, 3, 4], 2, odd);
    assert_eq!(out, vec![1, 3]);
    assert_eq!(state.take_resample_error_count(), 1);
    assert_eq!(state.take_resample_error_count(), 0);
    assert_eq!(state.resample_stream(&[4, 5, 5], 2, odd), vec![5]);
    assert_eq!(state.take_resample_error_count(), 1);
}

#[test]
fn speech_hangs_over() {
    let mut state: UserDenoiseState<i32> = UserDenoiseState::new();
    let loud = |frame: &[i32]| frame[0] > 0;
    assert!(!state.passes_vad(&[0; EARSHOT_FRAME_SIZE], loud));
    assert!(state.passes_vad(&[1; EARSHOT_FRAME_SIZE], loud));
    for _ in 0..VAD_HANGOVER_FRAMES {
        assert!(state.passes_vad(&[0; EARSHOT_FRAME_SIZE], loud));
    }
    assert!(!state.passes_vad(&[0; EARSHOT_FRAME_SIZE], loud));
    assert!(!state.passes_vad(&[1; 10], loud));
}

#[test]
fn what_came_before_speech_is_handed_on_with_it() {
    let mut state: UserDenoiseState<usize> = UserDenoiseState::new();
    let quiet: Vec<usize> = (0..5_000).collect();
    assert_eq!(state.emit(quiet.clone(), false).pcm_16k.len(), 5_000);
    let spoken = state.emit(vec![9; 3], true);
    assert!(spoken.speech_active);
    assert_eq!(spoken.pcm_16k.len(), VAD_PREROLL_SAMPLES_16K + 3);
    assert_eq!(spoken.pcm_16k[0], 200);
    assert_eq!(state.emit(vec![9; 3], true).pcm_16k, vec![9; 3]);
}

#[test]
fn the_denoiser_is_switched_between_utterances_only() {
    let mut state: UserDenoiseState<i32> = UserDenoiseState::new();
    assert!(state.select_denoiser_mode(true, SnrBand::Between));
    assert!(!state.select_denoiser_mode(true, SnrBand::High));
    assert!(!state.select_denoiser_mode(true, SnrBand::Between));
    state.emit(vec![1], true);
    assert!(!state.select_denoiser_mode(true, SnrBand::Low));
    state.emit(vec![1], false);
    assert!(state.select_denoiser_mode(true, SnrBand::Low));
    assert!(!state.select_denoiser_mode(false, SnrBand::Low));
}

#[test]
fn a_tick_goes_through_every_step() {
    let mut state: UserDenoiseState<i32> = UserDenoiseState::new();
    let same = |frame: &[i32]| frame.to_vec();
    let third = |frame: &[i32]| Some(frame.iter().step_by(3).copied().collect::<Vec<i32>>());
    let loud = |frame: &[i32]| frame[0] > 0;
    let tick = vec![1; 960];
    let first = state.push_mono_tick(&tick, true, SnrBand::Low, 480, same, third, loud);
    assert_eq!(first.pcm_16k.len(), 320);
    assert!(first.speech_active);
    let second = state.push_mono_tick(&tick, false, SnrBand::Low, 480, same, third, loud);
    assert_eq!(second.pcm_16k.len(), 320);
}

// ---------------------------------------------------------------------------
// The dispatch gate and the recognizer
// ---------------------------------------------------------------------------

#[test]
fn the_gate_holds_back_short_and_quiet_audio() {
    assert!(should_dispatch_chunk(0.1f32, 0.01, false, 8).is_ok());
    let short = should_dispatch_chunk(0.1f32, 0.01, true, 7).unwrap_err();
    assert_eq!(short.reason, "insufficient_voiced_ticks");
    let quiet = should_dispatch_chunk(0.001f32, 0.01, true, 8).unwrap_err();
    assert_eq!(quiet.reason, "below_noise_floor");
    assert_eq!(quiet.voiced_ticks, 8);
}

#[test]
fn trailing_silence_is_cut_off() {
    let mut pcm = vec![0u8; 10_000];
    trim_finalize_tail(&mut pcm, 0);
    assert_eq!(pcm.len(), 10_000);
    trim_finalize_tail(&mut pcm, 10);
    assert_eq!(pcm.len(), 10_000 - (200 + 256 - 200) * 16);
    let mut short = vec![0u8; 1_600 + 256 * 16];
    trim_finalize_tail(&mut short, 10);
    assert_eq!(short.len(), 1_600 + 256 * 16);
    trim_finalize_tail(&mut short, u32::MAX);
    assert_eq!(short.len(), 1_600 + 256 * 16);
}

#[test]
fn implausible_texts_are_refused() {
    assert_eq!(decode_rejection_reason("hello there", false), None);
    assert!(decode_rejection_reason("hello there", true).is_some());
    assert_eq!(transcribe_mono_pcm(16_000, " hello there ", false).as_deref(), Some("hello there"));
    assert_eq!(transcribe_mono_pcm(16_000, "   ", false), None);
    assert_eq!(transcribe_mono_pcm(100, "hello there", false), None);
}

// ---------------------------------------------------------------------------
// Ticks
// ---------------------------------------------------------------------------

fn source(ssrc: u32, decoded: Option<Vec<i16>>) -> TickSource {
    TickSource { ssrc, has_packet: true, decoded }
}

#[test]
fn audio_of_unknown_users_waits_for_its_name() {
    let mut users = SsrcDirectory::new();
    let mut unknown = UnknownSsrcBuffers::new();
    let (routed, counts) =
        route_tick(&mut unknown, &users, 1, vec![source(5, Some(vec![1, 2]))], NOW);
    assert!(routed.is_empty());
    assert_eq!(counts.unmapped, 1);
    users.speaking_update(1, 5, Some(50));
    let (routed, counts) =
        route_tick(&mut unknown, &users, 1, vec![source(5, Some(vec![3, 4])), source(6, None)], NOW);
    assert_eq!(routed.len(), 1);
    assert_eq!(routed[0].user, 50);
    assert_eq!(routed[0].pcm, vec![1, 2, 3, 4]);
    assert_eq!(counts.decode_failures, 1);
    assert_eq!(counts.decoded, 1);
}

#[test]
fn unknown_audio_stays_bounded() {
    let mut unknown = UnknownSsrcBuffers::new();
    for ssrc in 0..20u32 {
        unknown.push_unknown_ssrc_audio(1, ssrc, &[ssrc as i16], NOW + ssrc as u64);
    }
    let kept = (0..20u32).filter(|ssrc| !unknown.take_unknown_ssrc_audio(1, *ssrc).is_empty());
    assert_eq!(kept.collect::<Vec<_>>(), (0..UNKNOWN_SSRC_MAX_TRACKED as u32).collect::<Vec<_>>());
    unknown.push_unknown_ssrc_audio(1, 3, &[7], NOW);
    unknown.push_unknown_ssrc_audio(1, 4, &[8], NOW + 2 * SECOND);
    assert!(unknown.take_unknown_ssrc_audio(1, 3).is_empty());
    assert_eq!(unknown.take_unknown_ssrc_audio(1, 4), vec![8]);
    let long = vec![1i16; UNKNOWN_SSRC_MAX_SAMPLES];
    unknown.push_unknown_ssrc_audio(1, 1, &[7], NOW);
    unknown.push_unknown_ssrc_audio(1, 1, &long, NOW);
    assert_eq!(unknown.take_unknown_ssrc_audio(1, 1).len(), UNKNOWN_SSRC_MAX_SAMPLES);
    unknown.push_unknown_ssrc_audio(1, 1, &[7], NOW);
    unknown.push_unknown_ssrc_audio(2, 1, &[8], NOW);
    unknown.clear_unknown_ssrc_audio_for_guild(1);
    assert!(unknown.take_unknown_ssrc_audio(1, 1).is_empty());
    assert_eq!(unknown.take_unknown_ssrc_audio(2, 1), vec![8]);
}

fn spoken(user: u64, samples: usize, speech: bool) -> ProcessedSource<f32> {
    ProcessedSource { user, chunk: chunk(samples, speech), resample_errors: 0 }
}

#[test]
fn an_utterance_goes_to_the_decoder_after_silence() {
    let mut call: CallAudio<f32> = CallAudio::new();
    let never = |_: u64, _: &[f32]| false;
    let big = IngestParams::from_ms(12_000, 1_500, 3);
    let mut announced = 0;
    for tick in 0..10u64 {
        let outcome = call.ingest_tick(
            vec![spoken(7, 320, true)],
            big,
            NOW + tick * 20 * MILLISECOND,
            loudness,
            never,
        );
        assert!(outcome.requests.is_empty());
        if outcome.announce {
            announced += 1;
        }
    }
    assert_eq!(announced, 1);
    assert!(call.has_audio());
    let mut requests = Vec::new();
    for tick in 10..14u64 {
        let outcome =
            call.ingest_tick(Vec::new(), big, NOW + tick * 20 * MILLISECOND, loudness, never);
        requests.extend(outcome.requests);
    }
    assert_eq!(requests.len(), 1);
    assert_eq!(requests[0].user, 7);
    assert!(matches!(requests[0].stage, Stage::Silence));
    assert_eq!(requests[0].start_ts, NOW);
    assert!(!call.has_audio());
}

#[test]
fn quiet_audio_is_gated_and_counted() {
    let mut call: CallAudio<f32> = CallAudio::new();
    let always = |_: u64, _: &[f32]| true;
    let big = IngestParams::from_ms(12_000, 1_500, 1);
    for _ in 0..9 {
        call.ingest_tick(vec![spoken(7, 320, true)], big, NOW, loudness, always);
    }
    let outcome = call.ingest_tick(Vec::new(), big, NOW, loudness, always);
    assert!(outcome.requests.is_empty());
    assert_eq!(outcome.gated, 1);
}

#[test]
fn what_is_left_at_the_end_is_flushed() {
    let mut call: CallAudio<f32> = CallAudio::new();
    let never = |_: u64, _: &[f32]| false;
    let voiced = UserAudioBuffer {
        pcm: vec![0.5; 4_000],
        silent_ticks: 0,
        voiced_ticks: 20,
        utterance_start: Some(NOW),
    };
    call.insert(7, voiced);
    assert!(call.contains_user(7));
    match call.flush_pending_buffer(7, vec![0.5; 10], NOW, never) {
        Flushed::Utterance(request) => {
            assert_eq!(request.user, 7);
            assert_eq!(request.pcm.len(), 4_010);
        }
        _ => panic!("expected an utterance"),
    }
    assert!(matches!(call.flush_pending_buffer(7, Vec::new(), NOW, never), Flushed::Nothing));
    call.insert(
        8,
        UserAudioBuffer {
            pcm: vec![0.5; 4_000],
            silent_ticks: 0,
            voiced_ticks: 20,
            utterance_start: Some(NOW),
        },
    );
    let detached = call.detach_audio_buffers();
    let requests = tail_requests(detached, NOW, never);
    assert_eq!(requests.len(), 1);
    assert_eq!(requests[0].user, 8);
}

#[test]
fn calls_of_other_guilds_are_left_alone() {
    let mut streams = Streams::new();
    let never = |_: u64, _: &[u32]| false;
    let level = |samples: &[u32]| samples.first().copied().unwrap_or(0);
    let params = IngestParams::from_ms(12_000, 1_500, 2);
    let heard = |user: u64| ProcessedSource {
        user,
        chunk: ProcessedSpeechChunk { pcm_16k: vec![1u32; 320], speech_active: true },
        resample_errors: 0,
    };
    for tick in 0..9u64 {
        let outcome = streams.ingest_tick(
            1,
            vec![heard(10), heard(11)],
            params,
            NOW + tick * 20 * MILLISECOND,
            level,
            never,
        );
        assert_eq!(outcome.announce, tick == 0);
    }
    assert!(streams.ingest_tick(2, vec![heard(10)], params, NOW, level, never).announce);
    assert!(streams.has_audio(1) && streams.has_audio(2));
    let mut requests = Vec::new();
    for _ in 0..3 {
        requests.extend(
            streams.ingest_tick(1, Vec::new(), params, NOW + SECOND, level, never).requests,
        );
    }
    let mut users: Vec<u64> = requests.iter().map(|request| request.user).collect();
    users.sort();
    assert_eq!(users, vec![10, 11]);
    assert!(!streams.has_audio(1));
    assert!(streams.has_audio(2));
    assert!(streams.contains_key(1, 10));
    streams.remove_guild(1);
    assert!(!streams.contains_key(1, 10));
    assert!(streams.contains_key(2, 10));
    assert!(streams.ingest_tick(1, vec![heard(10)], params, NOW, level, never).announce);
    assert_eq!(streams.detach_audio_buffers(2).len(), 1);
    assert!(!streams.has_audio(2));
    assert!(!streams.ingest_tick(2, vec![heard(10)], params, NOW, level, never).announce);
}

// ---------------------------------------------------------------------------
// The decoder's queue
// ---------------------------------------------------------------------------

#[test]
fn the_queue_keeps_the_newest() {
    let mut queue = DecodeQueue::new();
    let mut shed = Vec::new();
    for job in 0..12 {
        shed.extend(queue.enqueue(job));
    }
    assert_eq!(shed, vec![0, 1, 2, 3]);
    assert_eq!(decode_queue_depth(&queue), decode_queue_capacity());
    assert_eq!(queue.dequeue(), Some(4));
    assert_eq!(decode_queue_depth(&queue), 7);
}

#[test]
fn every_utterance_is_released() {
    let mut counters = CallCounters::new();
    counters.count_tick(2, 1, 3);
    assert_eq!(counters.transcription_inflight, 3);
    assert_eq!(counters.dispatch_gate_total, 2);
    let text = counters.decode_finished(16_000, 50, 10, DecodeResult::Text("hi".to_string()));
    assert_eq!(text.as_deref(), Some("hi"));
    assert_eq!(counters.transcript_pending_commits, 1);
    counters.decode_released();
    counters.commit_done();
    assert_eq!(counters.decode_finished(16_000, 50, 10, DecodeResult::NoText), None);
    counters.decode_released();
    assert_eq!(counters.decode_finished(16_000, 50, 10, DecodeResult::Error), None);
    counters.decode_released();
    assert_eq!(counters.transcription_inflight, 0);
    assert_eq!(counters.transcript_pending_commits, 0);
    assert_eq!(counters.asr_decode_error_total, 1);
    assert_eq!(counters.decode_jobs_total, 3);
    assert_eq!(counters.decode_jobs_with_text, 1);
    assert_eq!(counters.decode_audio_total_ms, 3_000);
}
