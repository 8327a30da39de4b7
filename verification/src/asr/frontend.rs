//! The front end of one speaker's audio: framing, choice of denoising, voice activity and preroll.
//! Samples are of a type `T`; what is done to their values comes in from outside.
use vstd::prelude::*;

use crate::asr::audio::ProcessedSpeechChunk;
use crate::asr::unknown;

verus! {

broadcast use vstd::seq::group_seq_axioms;

/// Samples in a frame for the denoiser: 10 ms at 48 kHz.
pub const RNNOISE_FRAME_SIZE: usize = 480;

/// Samples in a frame for voice detection: 16 ms at 16 kHz.
pub const EARSHOT_FRAME_SIZE: usize = 256;

/// Frames for which voice activity is held after the last voiced frame.
pub const VAD_HANGOVER_FRAMES: u8 = 16;

/// Samples that are kept from before the first voiced frame: 300 ms at 16 kHz.
pub const VAD_PREROLL_SAMPLES_16K: usize = 4_800;

// ---------------------------------------------------------------------------
// Frames
// ---------------------------------------------------------------------------

/// The full frames at the front of `s`.
pub open spec fn frames_of<T>(s: Seq<T>, frame: nat) -> Seq<Seq<T>>
    decreases s.len(),
{
    if frame == 0 || s.len() < frame {
        Seq::empty()
    } else {
        seq![s.take(frame as int)] + frames_of(s.skip(frame as int), frame)
    }
}

/// What follows the full frames at the front of `s`.
pub open spec fn after_frames<T>(s: Seq<T>, frame: nat) -> Seq<T>
    decreases s.len(),
{
    if frame == 0 || s.len() < frame {
        s
    } else {
        after_frames(s.skip(frame as int), frame)
    }
}

/// The sequences, one after another.
pub open spec fn flattened<T>(list: Seq<Seq<T>>) -> Seq<T>
    decreases list.len(),
{
    if list.len() == 0 {
        Seq::empty()
    } else {
        flattened(list.drop_last()) + list.last()
    }
}

/// What the vectors hold.
pub open spec fn vec_views<T>(list: Seq<Vec<T>>) -> Seq<Seq<T>> {
    list.map_values(|v: Vec<T>| v@)
}

proof fn lemma_flattened_front<T>(first: Seq<T>, rest: Seq<Seq<T>>)
    ensures
        flattened(seq![first] + rest) == first + flattened(rest),
    decreases rest.len(),
{
    let list = seq![first] + rest;
    if rest.len() == 0 {
        assert(list.drop_last() =~= Seq::<Seq<T>>::empty());
        assert(flattened(list.drop_last()) =~= Seq::<T>::empty());
        assert(flattened(list) =~= first + flattened(rest));
    } else {
        assert(list.drop_last() =~= seq![first] + rest.drop_last());
        lemma_flattened_front(first, rest.drop_last());
        assert(flattened(list) =~= first + flattened(rest));
    }
}

/// Cutting into frames loses nothing: the frames, followed by what is left, are what was there;
/// every frame is full, and what is left is shorter than one.
pub proof fn law_frames_conserve_samples<T>(s: Seq<T>, frame: nat)
    requires
        frame > 0,
    ensures
        flattened(frames_of(s, frame)) + after_frames(s, frame) == s,
        after_frames(s, frame).len() < frame,
        forall|i: int|
            0 <= i < frames_of(s, frame).len() ==> (#[trigger] frames_of(s, frame)[i]).len()
                == frame,
    decreases s.len(),
{
    if s.len() >= frame {
        let first = s.take(frame as int);
        let rest = s.skip(frame as int);
        law_frames_conserve_samples(rest, frame);
        lemma_flattened_front(first, frames_of(rest, frame));
        assert(first + (flattened(frames_of(rest, frame)) + after_frames(rest, frame)) =~= s);
        assert(flattened(frames_of(s, frame)) + after_frames(s, frame) =~= s);
    } else {
        assert(flattened(frames_of(s, frame)) + s =~= s);
    }
}

/// Takes the full frames out of `pending`.
fn take_frames<T>(pending: &mut Vec<T>, frame: usize) -> (r: Vec<Vec<T>>)
    requires
        frame > 0,
    ensures
        vec_views(r@) == frames_of(old(pending)@, frame as nat),
        final(pending)@ == after_frames(old(pending)@, frame as nat),
{
    let mut frames: Vec<Vec<T>> = Vec::new();
    let ghost all = frames_of(pending@, frame as nat);
    assert(vec_views(frames@) + frames_of(pending@, frame as nat) =~= all);
    while pending.len() >= frame
        invariant
            frame > 0,
            vec_views(frames@) + frames_of(pending@, frame as nat) == all,
            after_frames(pending@, frame as nat) == after_frames(old(pending)@, frame as nat),
        decreases pending@.len(),
    {
        let ghost before = pending@;
        let ghost earlier = vec_views(frames@);
        let mut rest = pending.split_off(frame);
        std::mem::swap(&mut rest, pending);
        assert(rest@ =~= before.take(frame as int));
        assert(pending@ =~= before.skip(frame as int));
        frames.push(rest);
        assert(vec_views(frames@) =~= earlier.push(before.take(frame as int)));
        assert(earlier + (seq![before.take(frame as int)] + frames_of(pending@, frame as nat))
            =~= vec_views(frames@) + frames_of(pending@, frame as nat));
    }
    assert(vec_views(frames@) + Seq::<Seq<T>>::empty() =~= vec_views(frames@));
    frames
}

/// Puts samples at the end of a buffer.
fn append_samples<T: Copy>(buffer: &mut Vec<T>, samples: &[T])
    ensures
        final(buffer)@ == old(buffer)@ + samples@,
{
    for i in 0..samples.len()
        invariant
            buffer@ == old(buffer)@ + samples@.take(i as int),
    {
        buffer.push(samples[i]);
        assert(old(buffer)@ + samples@.take(i + 1) =~= (old(buffer)@ + samples@.take(
            i as int,
        )).push(samples@[i as int]));
    }
    assert(samples@.take(samples@.len() as int) =~= samples@);
}

// ---------------------------------------------------------------------------
// State
// ---------------------------------------------------------------------------

/// How loud the last audio stood out of the noise: above the band in which nothing changes, below
/// it, or in it.
#[derive(Clone, Copy, Debug, PartialEq, Eq, Structural)]
pub enum SnrBand {
    High,
    Low,
    Between,
}

/// The front end's memory of one speaker.
pub struct UserDenoiseState<T> {
    pending: Vec<T>,
    warmed_up: bool,
    resample_pending_48k: Vec<T>,
    resample_error_count: usize,
    vad_pending_16k: Vec<T>,
    vad_hangover_frames: u8,
    was_speech_last_tick: bool,
    denoiser_active: bool,
    preroll_16k: Vec<T>,
}

/// What a `UserDenoiseState` holds.
#[verifier::ext_equal]
pub ghost struct FrontendView<T> {
    pub pending: Seq<T>,
    pub warmed_up: bool,
    pub resample_pending: Seq<T>,
    pub resample_errors: usize,
    pub vad_pending: Seq<T>,
    pub hangover: u8,
    pub was_speech: bool,
    pub denoiser_active: bool,
    pub preroll: Seq<T>,
}

impl<T> View for UserDenoiseState<T> {
    type V = FrontendView<T>;

    closed spec fn view(&self) -> FrontendView<T> {
        FrontendView {
            pending: self.pending@,
            warmed_up: self.warmed_up,
            resample_pending: self.resample_pending_48k@,
            resample_errors: self.resample_error_count,
            vad_pending: self.vad_pending_16k@,
            hangover: self.vad_hangover_frames,
            was_speech: self.was_speech_last_tick,
            denoiser_active: self.denoiser_active,
            preroll: self.preroll_16k@,
        }
    }
}

/// The front end's memory of a speaker who has not been heard.
pub open spec fn fresh_frontend<T>() -> FrontendView<T> {
    FrontendView {
        pending: Seq::empty(),
        warmed_up: false,
        resample_pending: Seq::empty(),
        resample_errors: 0,
        vad_pending: Seq::empty(),
        hangover: 0,
        was_speech: false,
        denoiser_active: true,
        preroll: Seq::empty(),
    }
}

// ---------------------------------------------------------------------------
// Steps
// ---------------------------------------------------------------------------

/// Whether audio is denoised, after the noise has been measured. The choice does not change in
/// the middle of speech.
pub open spec fn denoiser_choice(
    active: bool,
    was_speech: bool,
    enable_denoiser: bool,
    band: SnrBand,
) -> bool {
    if !enable_denoiser {
        false
    } else if was_speech {
        active
    } else {
        match band {
            SnrBand::High => false,
            SnrBand::Low => true,
            SnrBand::Between => active,
        }
    }
}

/// The denoised audio of the frames. The very first frame is passed on as it came.
pub open spec fn warmed<T>(warmed_up: bool, frames: Seq<Seq<T>>, denoised: Seq<Seq<T>>) -> Seq<
    Seq<T>,
> {
    if !warmed_up && denoised.len() > 0 {
        denoised.update(0, frames[0])
    } else {
        denoised
    }
}

/// The sequences that are there, one after another.
pub open spec fn flattened_some<T>(list: Seq<Option<Seq<T>>>) -> Seq<T>
    decreases list.len(),
{
    if list.len() == 0 {
        Seq::empty()
    } else {
        flattened_some(list.drop_last()) + (match list.last() {
            Some(s) => s,
            None => Seq::empty(),
        })
    }
}

/// How many are missing.
pub open spec fn count_none<T>(list: Seq<Option<Seq<T>>>) -> nat
    decreases list.len(),
{
    if list.len() == 0 {
        0
    } else {
        count_none(list.drop_last()) + (if list.last() is None {
            1nat
        } else {
            0nat
        })
    }
}

/// The hangover after frames that were voiced or not, and whether any of them counts as speech: a
/// voiced one, or one within the hangover.
pub open spec fn vad_after(hangover: u8, voiced: Seq<bool>) -> (u8, bool)
    decreases voiced.len(),
{
    if voiced.len() == 0 {
        (hangover, false)
    } else {
        let (before, speech) = vad_after(hangover, voiced.drop_last());
        if voiced.last() {
            (VAD_HANGOVER_FRAMES, true)
        } else if before > 0 {
            ((before - 1) as u8, true)
        } else {
            (before, speech)
        }
    }
}

/// `out` is what `f` gave for the window.
pub open spec fn frame_result<T, R, F: Fn(&[T]) -> R>(f: F, window: Seq<T>, out: R) -> bool {
    exists|w: &[T]| w@ == window && #[trigger] call_ensures(f, (w,), out)
}

/// `out` holds what `denoise` gave for the frame.
pub open spec fn denoised_frame<T, F: Fn(&[T]) -> Vec<T>>(
    denoise: F,
    frame: Seq<T>,
    out: Seq<T>,
) -> bool {
    exists|v: Vec<T>| #[trigger] frame_result(denoise, frame, v) && v@ == out
}

/// `denoised` are the results of `denoise` for the frames.
pub open spec fn denoised_by<T, F: Fn(&[T]) -> Vec<T>>(
    denoise: F,
    frames: Seq<Seq<T>>,
    denoised: Seq<Seq<T>>,
) -> bool {
    denoised.len() == frames.len() && forall|i: int|
        0 <= i < frames.len() ==> #[trigger] denoised_frame(denoise, frames[i], denoised[i])
}

/// What the vector holds, where there is one.
pub open spec fn opt_view<T>(v: Option<Vec<T>>) -> Option<Seq<T>> {
    match v {
        Some(samples) => Some(samples@),
        None => None,
    }
}

/// `out` is what `resample` gave for the frame.
pub open spec fn resampled_frame<T, F: Fn(&[T]) -> Option<Vec<T>>>(
    resample: F,
    frame: Seq<T>,
    out: Option<Seq<T>>,
) -> bool {
    exists|v: Option<Vec<T>>| #[trigger] frame_result(resample, frame, v) && opt_view(v) == out
}

/// `resampled` are the results of `resample` for the frames.
pub open spec fn resampled_by<T, F: Fn(&[T]) -> Option<Vec<T>>>(
    resample: F,
    frames: Seq<Seq<T>>,
    resampled: Seq<Option<Seq<T>>>,
) -> bool {
    resampled.len() == frames.len() && forall|i: int|
        0 <= i < frames.len() ==> #[trigger] resampled_frame(resample, frames[i], resampled[i])
}

/// `flags` are the answers of `voiced` for the frames.
pub open spec fn voiced_by<T, F: Fn(&[T]) -> bool>(
    voiced: F,
    frames: Seq<Seq<T>>,
    flags: Seq<bool>,
) -> bool {
    flags.len() == frames.len() && forall|i: int|
        0 <= i < frames.len() ==> #[trigger] frame_result(voiced, frames[i], flags[i])
}

/// The preroll after audio without speech: the last samples before speech begins.
pub open spec fn prerolled<T>(preroll: Seq<T>, samples: Seq<T>) -> Seq<T> {
    unknown::last_elements(preroll + samples, VAD_PREROLL_SAMPLES_16K as int)
}

/// What is handed on of audio: where speech begins, what was kept from before it goes first.
pub open spec fn emitted<T>(
    preroll: Seq<T>,
    was_speech: bool,
    samples: Seq<T>,
    speech: bool,
) -> Seq<T> {
    if speech && !was_speech {
        preroll + samples
    } else {
        samples
    }
}

/// The pending audio with silence behind it, as long as a frame.
pub open spec fn filled<T>(pending: Seq<T>, silence: T) -> Seq<T> {
    pending + Seq::new((RNNOISE_FRAME_SIZE - pending.len()) as nat, |i: int| silence)
}

/// `cleaned` is what becomes of a frame: what `denoise` gave for it, but the very first frame is
/// passed on as it came.
pub open spec fn flushed_frame<T, F: Fn(&[T]) -> Vec<T>>(
    denoise: F,
    warmed_up: bool,
    frame: Seq<T>,
    cleaned: Seq<T>,
) -> bool {
    exists|denoised: Seq<T>| #[trigger] denoised_frame(denoise, frame, denoised) && cleaned
        == if warmed_up {
            denoised
        } else {
            frame
        }
}

/// `out` and `after` are what resampling makes of the cleaned audio.
pub open spec fn flushed<T, F: Fn(&[T]) -> Option<Vec<T>>>(
    resample: F,
    before: FrontendView<T>,
    cleaned: Seq<T>,
    in_frames: nat,
    out: Seq<T>,
    after: FrontendView<T>,
) -> bool {
    if cleaned.len() == 0 {
        out.len() == 0 && after == before
    } else {
        let all = before.resample_pending + cleaned;
        exists|resampled: Seq<Option<Seq<T>>>| #[trigger]
            resampled_by(resample, frames_of(all, in_frames), resampled) && out == flattened_some(
                resampled,
            ) && after == (FrontendView {
                resample_pending: after_frames(all, in_frames),
                resample_errors: saturated(before.resample_errors + count_none(resampled)),
                ..before
            })
    }
}

/// A single frame is one frame, with nothing behind it.
proof fn lemma_single_frame<T>(s: Seq<T>, frame: nat)
    requires
        frame > 0,
        s.len() == frame,
    ensures
        frames_of(s, frame) == seq![s],
        after_frames(s, frame) == Seq::<T>::empty(),
{
    reveal_with_fuel(frames_of, 2);
    reveal_with_fuel(after_frames, 2);
    assert(s.take(frame as int) =~= s);
    assert(s.skip(frame as int) =~= Seq::<T>::empty());
    assert(frames_of(s, frame) =~= seq![s]);
}

impl<T> UserDenoiseState<T> {
    /// What holds of every front end: no full frame is pending, and the preroll is bounded.
    pub open spec fn wf(&self) -> bool {
        &&& self@.pending.len() < RNNOISE_FRAME_SIZE
        &&& self@.vad_pending.len() < EARSHOT_FRAME_SIZE
        &&& self@.hangover <= VAD_HANGOVER_FRAMES
        &&& self@.preroll.len() <= VAD_PREROLL_SAMPLES_16K
    }

    /// The front end's memory of a speaker who has not been heard.
    pub fn new() -> (r: Self)
        ensures
            r.wf(),
            r@ == fresh_frontend::<T>(),
    {
        UserDenoiseState {
            pending: Vec::new(),
            warmed_up: false,
            resample_pending_48k: Vec::new(),
            resample_error_count: 0,
            vad_pending_16k: Vec::new(),
            vad_hangover_frames: 0,
            was_speech_last_tick: false,
            denoiser_active: true,
            preroll_16k: Vec::new(),
        }
    }

    /// Chooses whether audio is denoised.
    pub fn select_denoiser_mode(&mut self, enable_denoiser: bool, band: SnrBand) -> (r: bool)
        requires
            old(self).wf(),
        ensures
            final(self).wf(),
            r == denoiser_choice(
                old(self)@.denoiser_active,
                old(self)@.was_speech,
                enable_denoiser,
                band,
            ),
            final(self)@ == (FrontendView { denoiser_active: r, ..old(self)@ }),
    {
        if !enable_denoiser {
            self.denoiser_active = false;
            return false;
        }
        if self.was_speech_last_tick {
            return self.denoiser_active;
        }
        if band == SnrBand::High {
            self.denoiser_active = false;
        } else if band == SnrBand::Low {
            self.denoiser_active = true;
        }
        self.denoiser_active
    }

    /// Takes out what is pending for the denoiser.
    pub fn drain_pending_passthrough(&mut self) -> (r: Vec<T>)
        requires
            old(self).wf(),
        ensures
            final(self).wf(),
            r@ == old(self)@.pending,
            final(self)@ == (FrontendView { pending: Seq::empty(), ..old(self)@ }),
    {
        let mut taken: Vec<T> = Vec::new();
        std::mem::swap(&mut taken, &mut self.pending);
        taken
    }

    /// The errors met in resampling since the last call.
    pub fn take_resample_error_count(&mut self) -> (r: usize)
        requires
            old(self).wf(),
        ensures
            final(self).wf(),
            r == old(self)@.resample_errors,
            final(self)@ == (FrontendView { resample_errors: 0, ..old(self)@ }),
    {
        let count: usize = self.resample_error_count;
        self.resample_error_count = 0;
        count
    }
}

impl<T: Copy> UserDenoiseState<T> {
    /// Denoises audio, frame by frame. What does not fill a frame stays pending.
    pub fn push_mono_pcm<F: Fn(&[T]) -> Vec<T>>(&mut self, input: &[T], denoise: F) -> (r: Vec<T>)
        requires
            old(self).wf(),
            forall|w: &[T]| #[trigger] call_requires(denoise, (w,)),
        ensures
            final(self).wf(),
            ({
                let frames = frames_of(old(self)@.pending + input@, RNNOISE_FRAME_SIZE as nat);
                &&& final(self)@ == (FrontendView {
                    pending: after_frames(
                        old(self)@.pending + input@,
                        RNNOISE_FRAME_SIZE as nat,
                    ),
                    warmed_up: old(self)@.warmed_up || frames.len() > 0,
                    ..old(self)@
                })
                &&& exists|denoised: Seq<Seq<T>>| #[trigger]
                    denoised_by(denoise, frames, denoised) && r@ == flattened(
                        warmed(old(self)@.warmed_up, frames, denoised),
                    )
            }),
    {
        append_samples(&mut self.pending, input);
        let ghost all = self.pending@;
        let ghost frames = frames_of(all, RNNOISE_FRAME_SIZE as nat);
        let list = take_frames(&mut self.pending, RNNOISE_FRAME_SIZE);
        proof {
            law_frames_conserve_samples(all, RNNOISE_FRAME_SIZE as nat);
        }
        let ghost mut denoised: Seq<Seq<T>> = Seq::empty();
        let mut out: Vec<T> = Vec::new();
        for i in 0..list.len()
            invariant
                forall|w: &[T]| #[trigger] call_requires(denoise, (w,)),
                vec_views(list@) == frames,
                self@ == (FrontendView {
                    pending: after_frames(all, RNNOISE_FRAME_SIZE as nat),
                    warmed_up: old(self)@.warmed_up || i > 0,
                    ..old(self)@
                }),
                denoised.len() == i,
                forall|k: int|
                    0 <= k < i ==> #[trigger] denoised_frame(denoise, frames[k], denoised[k]),
                out@ == flattened(warmed(old(self)@.warmed_up, frames, denoised)),
        {
            let frame = &list[i];
            assert(frames[i as int] == frame@);
            let mut cleaned: Vec<T> = denoise(frame.as_slice());
            assert(frame_result(denoise, frames[i as int], cleaned));
            assert(denoised_frame(denoise, frames[i as int], cleaned@));
            let ghost before = denoised;
            let ghost cleaned_view = cleaned@;
            proof {
                denoised = denoised.push(cleaned_view);
            }
            assert(denoised.drop_last() =~= before);
            if self.warmed_up {
                out.append(&mut cleaned);
                assert(warmed(old(self)@.warmed_up, frames, denoised).drop_last() =~= warmed(
                    old(self)@.warmed_up,
                    frames,
                    before,
                ));
            } else {
                self.warmed_up = true;
                append_samples(&mut out, frame.as_slice());
                assert(denoised.update(0, frames[0]).drop_last() =~= Seq::<Seq<T>>::empty());
                assert(flattened(denoised.update(0, frames[0]).drop_last()) =~= Seq::<T>::empty());
                assert(out@ =~= frames[0]);
                assert(flattened(denoised.update(0, frames[0])) =~= frames[0]);
            }
        }
        assert(denoised_by(denoise, frames, denoised));
        out
    }

    /// Resamples audio, frame by frame of `in_frames` samples. A frame that fails is left out and
    /// counted. What does not fill a frame stays pending.
    pub fn resample_stream<F: Fn(&[T]) -> Option<Vec<T>>>(
        &mut self,
        input: &[T],
        in_frames: usize,
        resample: F,
    ) -> (r: Vec<T>)
        requires
            old(self).wf(),
            in_frames > 0,
            forall|w: &[T]| #[trigger] call_requires(resample, (w,)),
        ensures
            final(self).wf(),
            input@.len() == 0 ==> r@.len() == 0 && final(self)@ == old(self)@,
            input@.len() > 0 ==> ({
                let all = old(self)@.resample_pending + input@;
                let frames = frames_of(all, in_frames as nat);
                exists|resampled: Seq<Option<Seq<T>>>| #[trigger]
                    resampled_by(resample, frames, resampled) && r@ == flattened_some(resampled)
                        && final(self)@ == (FrontendView {
                        resample_pending: after_frames(all, in_frames as nat),
                        resample_errors: saturated(
                            old(self)@.resample_errors + count_none(resampled),
                        ),
                        ..old(self)@
                    })
            }),
    {
        if input.len() == 0 {
            return Vec::new();
        }
        append_samples(&mut self.resample_pending_48k, input);
        let ghost all = self.resample_pending_48k@;
        assert(all == old(self)@.resample_pending + input@);
        let ghost frames = frames_of(all, in_frames as nat);
        let list = take_frames(&mut self.resample_pending_48k, in_frames);
        let ghost mut resampled: Seq<Option<Seq<T>>> = Seq::empty();
        let mut out: Vec<T> = Vec::new();
        for i in 0..list.len()
            invariant
                forall|w: &[T]| #[trigger] call_requires(resample, (w,)),
                vec_views(list@) == frames,
                self@ == (FrontendView {
                    resample_pending: after_frames(all, in_frames as nat),
                    resample_errors: saturated(
                        old(self)@.resample_errors + count_none(resampled),
                    ),
                    ..old(self)@
                }),
                resampled.len() == i,
                forall|k: int|
                    0 <= k < i ==> #[trigger] resampled_frame(resample, frames[k], resampled[k]),
                out@ == flattened_some(resampled),
        {
            let frame = &list[i];
            assert(frames[i as int] == frame@);
            let result: Option<Vec<T>> = resample(frame.as_slice());
            assert(frame_result(resample, frames[i as int], result));
            assert(resampled_frame(resample, frames[i as int], opt_view(result)));
            let ghost before = resampled;
            proof {
                resampled = resampled.push(opt_view(result));
                assert(resampled.drop_last() =~= before);
            }
            match result {
                Some(samples) => {
                    let mut samples = samples;
                    out.append(&mut samples);
                },
                None => {
                    self.resample_error_count = self.resample_error_count.saturating_add(1);
                    assert(out@ =~= flattened_some(resampled));
                },
            }
        }
        assert(resampled_by(resample, frames, resampled));
        out
    }

    /// Hands on the audio that waits for a full frame: it is filled up with silence, denoised and
    /// resampled. Nothing happens where none waits.
    pub fn flush_pending<D: Fn(&[T]) -> Vec<T>, R: Fn(&[T]) -> Option<Vec<T>>>(
        &mut self,
        silence: T,
        in_frames: usize,
        denoise: D,
        resample: R,
    ) -> (r: Vec<T>)
        requires
            old(self).wf(),
            in_frames > 0,
            forall|w: &[T]| #[trigger] call_requires(denoise, (w,)),
            forall|w: &[T]| #[trigger] call_requires(resample, (w,)),
        ensures
            final(self).wf(),
            old(self)@.pending.len() == 0 ==> r@.len() == 0 && final(self)@ == old(self)@,
            old(self)@.pending.len() > 0 ==> exists|cleaned: Seq<T>| #[trigger]
                flushed_frame(
                    denoise,
                    old(self)@.warmed_up,
                    filled(old(self)@.pending, silence),
                    cleaned,
                ) && flushed(
                    resample,
                    FrontendView { pending: Seq::empty(), warmed_up: true, ..old(self)@ },
                    cleaned,
                    in_frames as nat,
                    r@,
                    final(self)@,
                ),
    {
        if self.pending.len() == 0 {
            return Vec::new();
        }
        let mut padding: Vec<T> = Vec::new();
        let missing: usize = RNNOISE_FRAME_SIZE - self.pending.len();
        for i in 0..missing
            invariant
                padding@ == Seq::new(i as nat, |k: int| silence),
        {
            padding.push(silence);
            assert(padding@ =~= Seq::new((i + 1) as nat, |k: int| silence));
        }
        let ghost frame = filled(self@.pending, silence);
        assert(self@.pending + padding@ =~= frame);
        proof {
            lemma_single_frame(frame, RNNOISE_FRAME_SIZE as nat);
        }
        let cleaned = self.push_mono_pcm(padding.as_slice(), denoise);
        proof {
            let denoised = choose|denoised: Seq<Seq<T>>| #[trigger]
                denoised_by(denoise, seq![frame], denoised) && cleaned@ == flattened(
                    warmed(old(self)@.warmed_up, seq![frame], denoised),
                );
            assert(denoised_frame(denoise, seq![frame][0], denoised[0]));
            let list = warmed(old(self)@.warmed_up, seq![frame], denoised);
            assert(list.drop_last() =~= Seq::<Seq<T>>::empty());
            assert(flattened(list.drop_last()) == Seq::<T>::empty());
            assert(flattened(list) =~= list[0]);
            assert(flushed_frame(denoise, old(self)@.warmed_up, frame, cleaned@));
        }
        self.resample_stream(cleaned.as_slice(), in_frames, resample)
    }

    /// Whether audio holds speech, as `voiced` says of each frame.
    pub fn passes_vad<F: Fn(&[T]) -> bool>(&mut self, pcm_16k: &[T], voiced: F) -> (r: bool)
        requires
            old(self).wf(),
            forall|w: &[T]| #[trigger] call_requires(voiced, (w,)),
        ensures
            final(self).wf(),
            ({
                let all = old(self)@.vad_pending + pcm_16k@;
                let frames = frames_of(all, EARSHOT_FRAME_SIZE as nat);
                exists|flags: Seq<bool>| #[trigger]
                    voiced_by(voiced, frames, flags) && final(self)@ == (FrontendView {
                        vad_pending: after_frames(all, EARSHOT_FRAME_SIZE as nat),
                        hangover: vad_after(old(self)@.hangover, flags).0,
                        ..old(self)@
                    }) && r == (if flags.len() > 0 {
                        vad_after(old(self)@.hangover, flags).1
                    } else {
                        old(self)@.hangover > 0
                    })
            }),
    {
        append_samples(&mut self.vad_pending_16k, pcm_16k);
        let ghost all = self.vad_pending_16k@;
        let ghost frames = frames_of(all, EARSHOT_FRAME_SIZE as nat);
        let list = take_frames(&mut self.vad_pending_16k, EARSHOT_FRAME_SIZE);
        proof {
            law_frames_conserve_samples(all, EARSHOT_FRAME_SIZE as nat);
        }
        let ghost mut flags: Seq<bool> = Seq::empty();
        let mut speech: bool = false;
        for i in 0..list.len()
            invariant
                forall|w: &[T]| #[trigger] call_requires(voiced, (w,)),
                vec_views(list@) == frames,
                self@ == (FrontendView {
                    vad_pending: after_frames(all, EARSHOT_FRAME_SIZE as nat),
                    hangover: vad_after(old(self)@.hangover, flags).0,
                    ..old(self)@
                }),
                self@.hangover <= VAD_HANGOVER_FRAMES,
                flags.len() == i,
                forall|k: int|
                    0 <= k < i ==> #[trigger] frame_result(voiced, frames[k], flags[k]),
                speech == vad_after(old(self)@.hangover, flags).1,
        {
            let frame = &list[i];
            assert(frames[i as int] == frame@);
            let flag: bool = voiced(frame.as_slice());
            assert(frame_result(voiced, frames[i as int], flag));
            let ghost before = flags;
            proof {
                flags = flags.push(flag);
                assert(flags.drop_last() =~= before);
            }
            if flag {
                self.vad_hangover_frames = VAD_HANGOVER_FRAMES;
                speech = true;
            } else if self.vad_hangover_frames > 0 {
                self.vad_hangover_frames = self.vad_hangover_frames - 1;
                speech = true;
            }
        }
        assert(voiced_by(voiced, frames, flags));
        if list.len() > 0 {
            return speech;
        }
        self.vad_hangover_frames > 0
    }

    /// Hands cleaned audio on, or keeps it as preroll where it holds no speech.
    pub fn emit(&mut self, pcm_16k: Vec<T>, speech_active: bool) -> (r: ProcessedSpeechChunk<T>)
        requires
            old(self).wf(),
        ensures
            final(self).wf(),
            r.speech_active == speech_active,
            r.pcm_16k@ == emitted(
                old(self)@.preroll,
                old(self)@.was_speech,
                pcm_16k@,
                speech_active,
            ),
            final(self)@ == (FrontendView {
                preroll: if speech_active {
                    Seq::empty()
                } else {
                    prerolled(old(self)@.preroll, pcm_16k@)
                },
                was_speech: speech_active,
                ..old(self)@
            }),
    {
        let was_speech: bool = self.was_speech_last_tick;
        self.was_speech_last_tick = speech_active;
        if speech_active {
            let mut preroll: Vec<T> = Vec::new();
            std::mem::swap(&mut preroll, &mut self.preroll_16k);
            if was_speech {
                return ProcessedSpeechChunk { pcm_16k, speech_active };
            }
            let mut pcm_16k = pcm_16k;
            preroll.append(&mut pcm_16k);
            return ProcessedSpeechChunk { pcm_16k: preroll, speech_active };
        }
        append_samples(&mut self.preroll_16k, pcm_16k.as_slice());
        let overflow: usize = self.preroll_16k.len().saturating_sub(VAD_PREROLL_SAMPLES_16K);
        if overflow > 0 {
            let mut kept = self.preroll_16k.split_off(overflow);
            std::mem::swap(&mut kept, &mut self.preroll_16k);
            assert(self.preroll_16k@ =~= prerolled(old(self)@.preroll, pcm_16k@));
        }
        ProcessedSpeechChunk { pcm_16k, speech_active }
    }
}

// ---------------------------------------------------------------------------
// A tick of audio
// ---------------------------------------------------------------------------

/// What the work on sample values gave for one tick: the denoised frames, the resampled frames,
/// and which frames were voiced.
pub ghost struct FrontWork<T> {
    pub denoised: Seq<Seq<T>>,
    pub resampled: Seq<Option<Seq<T>>>,
    pub flags: Seq<bool>,
}

/// The state and the cleaned audio at 48 kHz.
pub open spec fn cleaned<T>(
    state: FrontendView<T>,
    mono: Seq<T>,
    enable_denoiser: bool,
    band: SnrBand,
    denoised: Seq<Seq<T>>,
) -> (FrontendView<T>, Seq<T>) {
    let active = denoiser_choice(state.denoiser_active, state.was_speech, enable_denoiser, band);
    let all = state.pending + mono;
    let frames = frames_of(all, RNNOISE_FRAME_SIZE as nat);
    if active {
        (
            FrontendView {
                denoiser_active: active,
                pending: after_frames(all, RNNOISE_FRAME_SIZE as nat),
                warmed_up: state.warmed_up || frames.len() > 0,
                ..state
            },
            flattened(warmed(state.warmed_up, frames, denoised)),
        )
    } else {
        (FrontendView { denoiser_active: active, pending: Seq::empty(), ..state }, all)
    }
}

/// The state and the audio at 16 kHz.
pub open spec fn lowered<T>(
    state: FrontendView<T>,
    input: Seq<T>,
    in_frames: nat,
    resampled: Seq<Option<Seq<T>>>,
) -> (FrontendView<T>, Seq<T>) {
    if input.len() == 0 {
        (state, Seq::empty())
    } else {
        (
            FrontendView {
                resample_pending: after_frames(state.resample_pending + input, in_frames),
                resample_errors: saturated(state.resample_errors + count_none(resampled)),
                ..state
            },
            flattened_some(resampled),
        )
    }
}

/// The state after looking for voice, and whether there is speech.
pub open spec fn listened<T>(
    state: FrontendView<T>,
    samples: Seq<T>,
    flags: Seq<bool>,
) -> (FrontendView<T>, bool) {
    (
        FrontendView {
            vad_pending: after_frames(state.vad_pending + samples, EARSHOT_FRAME_SIZE as nat),
            hangover: vad_after(state.hangover, flags).0,
            ..state
        },
        if flags.len() > 0 {
            vad_after(state.hangover, flags).1
        } else {
            state.hangover > 0
        },
    )
}

/// The state after a tick of audio, what is handed on, and whether it holds speech.
pub open spec fn front_after<T>(
    state: FrontendView<T>,
    mono: Seq<T>,
    enable_denoiser: bool,
    band: SnrBand,
    in_frames: nat,
    work: FrontWork<T>,
) -> (FrontendView<T>, Seq<T>, bool) {
    if mono.len() == 0 {
        (state, Seq::empty(), false)
    } else {
        let (clean_state, clean) = cleaned(state, mono, enable_denoiser, band, work.denoised);
        let (low_state, low) = lowered(clean_state, clean, in_frames, work.resampled);
        let (heard_state, speech) = listened(low_state, low, work.flags);
        (
            FrontendView {
                preroll: if speech {
                    Seq::empty()
                } else {
                    prerolled(heard_state.preroll, low)
                },
                was_speech: speech,
                ..heard_state
            },
            emitted(heard_state.preroll, heard_state.was_speech, low, speech),
            speech,
        )
    }
}

/// `work` is what the three functions gave for the frames of a tick.
pub open spec fn front_worked<
    T,
    D: Fn(&[T]) -> Vec<T>,
    R: Fn(&[T]) -> Option<Vec<T>>,
    V: Fn(&[T]) -> bool,
>(
    state: FrontendView<T>,
    mono: Seq<T>,
    enable_denoiser: bool,
    band: SnrBand,
    in_frames: nat,
    denoise: D,
    resample: R,
    voiced: V,
    work: FrontWork<T>,
) -> bool {
    let (clean_state, clean) = cleaned(state, mono, enable_denoiser, band, work.denoised);
    let (low_state, low) = lowered(clean_state, clean, in_frames, work.resampled);
    mono.len() > 0 ==> {
        &&& clean_state.denoiser_active ==> denoised_by(
            denoise,
            frames_of(state.pending + mono, RNNOISE_FRAME_SIZE as nat),
            work.denoised,
        )
        &&& clean.len() > 0 ==> resampled_by(
            resample,
            frames_of(clean_state.resample_pending + clean, in_frames),
            work.resampled,
        )
        &&& voiced_by(
            voiced,
            frames_of(low_state.vad_pending + low, EARSHOT_FRAME_SIZE as nat),
            work.flags,
        )
    }
}

impl<T: Copy> UserDenoiseState<T> {
    /// Takes a tick of mono audio at 48 kHz in, and hands on what there is of it at 16 kHz.
    /// `denoise` cleans a frame; `resample` brings a frame of `in_frames` samples down to 16 kHz,
    /// or fails; `voiced` says whether a frame holds voice.
    pub fn push_mono_tick<
        D: Fn(&[T]) -> Vec<T>,
        R: Fn(&[T]) -> Option<Vec<T>>,
        V: Fn(&[T]) -> bool,
    >(
        &mut self,
        mono: &[T],
        enable_denoiser: bool,
        band: SnrBand,
        in_frames: usize,
        denoise: D,
        resample: R,
        voiced: V,
    ) -> (r: ProcessedSpeechChunk<T>)
        requires
            old(self).wf(),
            in_frames > 0,
            forall|w: &[T]| #[trigger] call_requires(denoise, (w,)),
            forall|w: &[T]| #[trigger] call_requires(resample, (w,)),
            forall|w: &[T]| #[trigger] call_requires(voiced, (w,)),
        ensures
            final(self).wf(),
            exists|work: FrontWork<T>| #[trigger]
                front_worked(
                    old(self)@,
                    mono@,
                    enable_denoiser,
                    band,
                    in_frames as nat,
                    denoise,
                    resample,
                    voiced,
                    work,
                ) && (final(self)@, r.pcm_16k@, r.speech_active) == front_after(
                    old(self)@,
                    mono@,
                    enable_denoiser,
                    band,
                    in_frames as nat,
                    work,
                ),
    {
        let ghost state = self@;
        if mono.len() == 0 {
            let ghost work = FrontWork::<T> {
                denoised: Seq::empty(),
                resampled: Seq::empty(),
                flags: Seq::empty(),
            };
            assert(front_worked(
                state,
                mono@,
                enable_denoiser,
                band,
                in_frames as nat,
                denoise,
                resample,
                voiced,
                work,
            ));
            return ProcessedSpeechChunk { pcm_16k: Vec::new(), speech_active: false };
        }
        let active = self.select_denoiser_mode(enable_denoiser, band);
        let ghost mut denoised: Seq<Seq<T>> = Seq::empty();
        let clean: Vec<T> = if active {
            let out = self.push_mono_pcm(mono, denoise);
            proof {
                let frames = frames_of(state.pending + mono@, RNNOISE_FRAME_SIZE as nat);
                denoised = choose|denoised: Seq<Seq<T>>| #[trigger]
                    denoised_by(denoise, frames, denoised) && out@ == flattened(
                        warmed(state.warmed_up, frames, denoised),
                    );
            }
            out
        } else {
            let mut passthrough = self.drain_pending_passthrough();
            append_samples(&mut passthrough, mono);
            passthrough
        };
        let ghost clean_state = self@;
        assert((clean_state, clean@) == cleaned(state, mono@, enable_denoiser, band, denoised));
        let low = self.resample_stream(clean.as_slice(), in_frames, resample);
        let ghost low_state = self@;
        let ghost low_frames = frames_of(
            clean_state.resample_pending + clean@,
            in_frames as nat,
        );
        let ghost resampled = choose|resampled: Seq<Option<Seq<T>>>| #[trigger]
            resampled_by(resample, low_frames, resampled) && low@ == flattened_some(resampled)
                && low_state == (FrontendView {
                resample_pending: after_frames(
                    clean_state.resample_pending + clean@,
                    in_frames as nat,
                ),
                resample_errors: saturated(clean_state.resample_errors + count_none(resampled)),
                ..clean_state
            });
        assert((low_state, low@) == lowered(clean_state, clean@, in_frames as nat, resampled));
        let speech = self.passes_vad(low.as_slice(), voiced);
        let ghost heard_state = self@;
        let ghost vad_frames = frames_of(
            low_state.vad_pending + low@,
            EARSHOT_FRAME_SIZE as nat,
        );
        let ghost flags = choose|flags: Seq<bool>| #[trigger]
            voiced_by(voiced, vad_frames, flags) && (heard_state, speech) == listened(
                low_state,
                low@,
                flags,
            );
        proof {
            let work = FrontWork { denoised, resampled, flags };
            assert(front_worked(
                state,
                mono@,
                enable_denoiser,
                band,
                in_frames as nat,
                denoise,
                resample,
                voiced,
                work,
            ));
        }
        self.emit(low, speech)
    }
}

/// `n`, as far as a counter reaches.
pub open spec fn saturated(n: int) -> usize {
    if n <= usize::MAX {
        n as usize
    } else {
        usize::MAX
    }
}

// ---------------------------------------------------------------------------
// Laws of the front end
// ---------------------------------------------------------------------------

/// Whole frames are taken off the front, and what is left is shorter than one.
pub proof fn law_frames_come_off_the_front<T>(s: Seq<T>, frame: nat, i: int)
    requires
        frame > 0,
    ensures
        after_frames(s, frame).len() < frame,
        frames_of(s, frame).len() * frame + after_frames(s, frame).len() == s.len(),
        after_frames(s, frame) == s.subrange(
            s.len() - after_frames(s, frame).len(),
            s.len() as int,
        ),
        0 <= i < frames_of(s, frame).len() ==> 0 <= i * frame && (i + 1) * frame <= s.len()
            && frames_of(s, frame)[i] == s.subrange(i * frame, (i + 1) * frame),
    decreases s.len(),
{
    if s.len() >= frame {
        let rest = s.skip(frame as int);
        law_frames_come_off_the_front(rest, frame, i - 1);
        let frames = frames_of(s, frame);
        let others = frames_of(rest, frame);
        assert(frames.len() == others.len() + 1);
        assert((others.len() + 1) * frame == others.len() * frame + frame) by (nonlinear_arith);
        let left = after_frames(s, frame);
        assert(left =~= s.subrange(s.len() - left.len(), s.len() as int));
        if i == 0 {
            assert(0 * frame == 0) by (nonlinear_arith);
            assert(1 * frame == frame) by (nonlinear_arith);
            assert(frames[0] =~= s.subrange(0, frame as int));
        } else if 0 < i < frames.len() {
            assert(frames[i] == others[i - 1]);
            assert(i * frame == (i - 1) * frame + frame) by (nonlinear_arith);
            assert((i + 1) * frame == i * frame + frame) by (nonlinear_arith);
            assert(s.subrange(i * frame, (i + 1) * frame) =~= rest.subrange(
                (i - 1) * frame,
                i * frame,
            ));
        }
    } else {
        assert(0 * frame == 0) by (nonlinear_arith);
        assert(s =~= s.subrange(0, s.len() as int));
    }
}

/// Speech is heard from a voiced frame on until sixteen frames without voice have passed: what is
/// left of that wait is sixteen less the frames since the last voiced one, and there is speech in a
/// run of frames that holds a voiced one or begins within the wait.
pub proof fn law_speech_lingers(hangover: u8, voiced: Seq<bool>, last: int)
    requires
        voiced.len() > 0,
    ensures
        ({
            let (left, speech) = vad_after(hangover, voiced);
            let silent_after = |from: int|
                forall|k: int| from <= k < voiced.len() ==> !#[trigger] voiced[k];
            &&& 0 <= last < voiced.len() && voiced[last] && silent_after(last + 1) ==> speech
                && left == (if voiced.len() - 1 - last >= 16 {
                0
            } else {
                16 - (voiced.len() - 1 - last)
            })
            &&& silent_after(0) ==> (speech <==> hangover > 0) && left == (if voiced.len()
                >= hangover {
                0
            } else {
                hangover - voiced.len()
            })
        }),
    decreases voiced.len(),
{
    let shorter = voiced.drop_last();
    let n = voiced.len() - 1;
    if shorter.len() > 0 {
        law_speech_lingers(hangover, shorter, last);
        assert forall|k: int| 0 <= k < n implies #[trigger] shorter[k] == voiced[k] by {}
    } else {
        assert(vad_after(hangover, shorter) == (hangover, false));
    }
    assert(voiced.last() == voiced[n]);
}

/// Where speech begins, what was heard just before goes in front of it: the last 4800 samples, or
/// all where there were fewer. Within speech, and without it, audio is handed on as it is.
pub proof fn law_speech_has_its_beginning<T>(
    preroll: Seq<T>,
    earlier: Seq<T>,
    samples: Seq<T>,
    was_speech: bool,
)
    ensures
        emitted(preroll, false, samples, true) == preroll + samples,
        emitted(preroll, true, samples, true) == samples,
        emitted(preroll, was_speech, samples, false) == samples,
        ({
            let all = earlier + samples;
            let kept = prerolled(earlier, samples);
            &&& kept.len() == (if all.len() < 4_800 {
                all.len()
            } else {
                4_800
            })
            &&& kept == all.subrange(all.len() - kept.len(), all.len() as int)
        }),
{
    let all = earlier + samples;
    let kept = prerolled(earlier, samples);
    assert(kept =~= all.subrange(all.len() - kept.len(), all.len() as int));
}

/// The denoiser works only where it is wanted. It is not switched in the middle of speech; before
/// that a clear signal switches it off and a noisy one on, and one between leaves it.
pub proof fn law_denoiser_is_not_switched_in_speech(
    active: bool,
    was_speech: bool,
    wanted: bool,
    band: SnrBand,
)
    ensures
        !wanted ==> !denoiser_choice(active, was_speech, wanted, band),
        wanted && was_speech ==> denoiser_choice(active, was_speech, wanted, band) == active,
        wanted && !was_speech ==> {
            &&& !denoiser_choice(active, was_speech, wanted, SnrBand::High)
            &&& denoiser_choice(active, was_speech, wanted, SnrBand::Low)
            &&& denoiser_choice(active, was_speech, wanted, SnrBand::Between) == active
        },
{
}

/// What is still waiting is filled up to a frame of 480 samples with silence behind it.
pub proof fn law_last_frame_is_filled<T>(pending: Seq<T>, silence: T)
    requires
        pending.len() <= 480,
    ensures
        filled(pending, silence).len() == 480,
        filled(pending, silence).subrange(0, pending.len() as int) == pending,
        forall|i: int|
            pending.len() <= i < 480 ==> #[trigger] filled(pending, silence)[i] == silence,
{
    assert(filled(pending, silence).subrange(0, pending.len() as int) =~= pending);
}

/// The first frame of a speaker goes through as it is; every later one as it was denoised.
pub proof fn law_first_frame_goes_through<T>(frames: Seq<Seq<T>>, denoised: Seq<Seq<T>>, i: int)
    requires
        frames.len() == denoised.len(),
        0 <= i < frames.len(),
    ensures
        warmed(true, frames, denoised) == denoised,
        warmed(false, frames, denoised).len() == frames.len(),
        warmed(false, frames, denoised)[0] == frames[0],
        i > 0 ==> warmed(false, frames, denoised)[i] == denoised[i],
{
}

/// Without the denoiser all audio goes on at once, with what was waiting in front of it. With it,
/// frames of 480 samples go on and less than one waits.
pub proof fn law_cleaning_loses_nothing<T>(
    state: FrontendView<T>,
    mono: Seq<T>,
    wanted: bool,
    band: SnrBand,
    denoised: Seq<Seq<T>>,
)
    ensures
        ({
            let (after, clean) = cleaned(state, mono, wanted, band, denoised);
            let all = state.pending + mono;
            let whole = all.len() / 480;
            &&& after.denoiser_active == denoiser_choice(
                state.denoiser_active,
                state.was_speech,
                wanted,
                band,
            )
            &&& !after.denoiser_active ==> clean == all && after.pending.len() == 0
                && after.warmed_up == state.warmed_up
            &&& after.denoiser_active ==> {
                &&& after.pending == all.subrange((whole * 480) as int, all.len() as int)
                &&& after.warmed_up <==> state.warmed_up || whole > 0
                &&& clean == flattened(
                    warmed(
                        state.warmed_up,
                        Seq::new(
                            whole,
                            |i: int| all.subrange(i * 480, (i + 1) * 480),
                        ),
                        denoised,
                    ),
                )
            }
            &&& after.resample_pending == state.resample_pending
            &&& after.resample_errors == state.resample_errors
            &&& after.vad_pending == state.vad_pending
            &&& after.hangover == state.hangover
            &&& after.was_speech == state.was_speech
            &&& after.preroll == state.preroll
        }),
{
    let all = state.pending + mono;
    let frames = frames_of(all, 480);
    let plain = Seq::new(all.len() / 480, |i: int| all.subrange(i * 480, (i + 1) * 480));
    law_frames_come_off_the_front(all, 480, 0);
    assert(frames.len() == all.len() / 480);
    assert forall|i: int| 0 <= i < frames.len() implies frames[i] == plain[i] by {
        law_frames_come_off_the_front(all, 480, i);
    }
    assert(frames =~= plain);
}

/// Each frame that could be resampled adds its samples, each that could not one error, and what does
/// not fill a frame waits. Silence of no samples changes nothing.
pub proof fn law_resampling_counts_errors<T>(
    state: FrontendView<T>,
    input: Seq<T>,
    in_frames: nat,
    resampled: Seq<Option<Seq<T>>>,
    next: Option<Seq<T>>,
)
    requires
        in_frames > 0,
        state.resample_errors + resampled.len() + 1 <= usize::MAX,
    ensures
        ({
            let (after, low) = lowered(state, input, in_frames, resampled);
            let (longer, more) = lowered(state, input, in_frames, resampled.push(next));
            let all = state.resample_pending + input;
            &&& input.len() == 0 ==> after == state && low.len() == 0
            &&& input.len() > 0 ==> {
                &&& after.resample_pending == all.subrange(
                    all.len() - all.len() % in_frames,
                    all.len() as int,
                )
                &&& next matches Some(samples) ==> more == low + samples && longer.resample_errors
                    == after.resample_errors
                &&& next is None ==> more == low && longer.resample_errors == after.resample_errors
                    + 1
                &&& resampled.len() == 0 ==> low.len() == 0 && after.resample_errors
                    == state.resample_errors
            }
        }),
{
    let all = state.resample_pending + input;
    law_frames_come_off_the_front(all, in_frames, 0);
    let left = after_frames(all, in_frames).len();
    let whole = frames_of(all, in_frames).len();
    assert(all.len() % in_frames == left) by {
        vstd::arithmetic::div_mod::lemma_fundamental_div_mod_converse(
            all.len() as int,
            in_frames as int,
            whole as int,
            left as int,
        );
    }
    assert(resampled.push(next).drop_last() =~= resampled);
    lemma_count_none_bound(resampled);
    if next is None {
        assert(flattened_some(resampled) + Seq::<T>::empty() =~= flattened_some(resampled));
    }
}

proof fn lemma_count_none_bound<T>(list: Seq<Option<Seq<T>>>)
    ensures
        count_none(list) <= list.len(),
    decreases list.len(),
{
    if list.len() > 0 {
        lemma_count_none_bound(list.drop_last());
    }
}

/// A tick without audio changes nothing. One with audio is speech exactly where it is heard as such,
/// that is remembered for the next tick, and what is handed on is its audio, with what was heard
/// before in front where the speech begins here.
pub proof fn law_ticks_remember_speech<T>(
    state: FrontendView<T>,
    mono: Seq<T>,
    wanted: bool,
    band: SnrBand,
    in_frames: nat,
    work: FrontWork<T>,
)
    ensures
        ({
            let (after, out, speech) = front_after(state, mono, wanted, band, in_frames, work);
            let (clean_state, clean) = cleaned(state, mono, wanted, band, work.denoised);
            let (low_state, low) = lowered(clean_state, clean, in_frames, work.resampled);
            let (left, heard) = vad_after(state.hangover, work.flags);
            &&& mono.len() == 0 ==> after == state && out.len() == 0 && !speech
            &&& mono.len() > 0 ==> {
                &&& work.flags.len() > 0 ==> speech == heard && after.hangover == left
                &&& work.flags.len() == 0 ==> (speech <==> state.hangover > 0) && after.hangover
                    == state.hangover
                &&& after.was_speech == speech
                &&& after.pending == clean_state.pending
                &&& after.warmed_up == clean_state.warmed_up
                &&& after.denoiser_active == clean_state.denoiser_active
                &&& after.resample_pending == low_state.resample_pending
                &&& after.resample_errors == low_state.resample_errors
                &&& speech && !state.was_speech ==> out == state.preroll + low
                &&& !speech || state.was_speech ==> out == low
                &&& speech ==> after.preroll.len() == 0
                &&& !speech ==> after.preroll == prerolled(state.preroll, low)
                &&& after.vad_pending.len() < 256
                &&& after.vad_pending == (state.vad_pending + low).subrange(
                    (state.vad_pending.len() + low.len()) - (state.vad_pending.len() + low.len())
                        % 256,
                    (state.vad_pending.len() + low.len()) as int,
                )
            }
        }),
{
    let (clean_state, clean) = cleaned(state, mono, wanted, band, work.denoised);
    let (low_state, low) = lowered(clean_state, clean, in_frames, work.resampled);
    law_frames_come_off_the_front(state.vad_pending + low, 256, 0);
}

/// Every frame is handed to the denoiser, the resampler or the voice detector by itself, and in its
/// place stands what that made of it.
pub proof fn law_frames_are_worked_on_one_by_one<
    T,
    D: Fn(&[T]) -> Vec<T>,
    R: Fn(&[T]) -> Option<Vec<T>>,
    V: Fn(&[T]) -> bool,
>(
    denoise: D,
    resample: R,
    voiced: V,
    frames: Seq<Seq<T>>,
    denoised: Seq<Seq<T>>,
    resampled: Seq<Option<Seq<T>>>,
    flags: Seq<bool>,
    i: int,
)
    requires
        0 <= i < frames.len(),
    ensures
        denoised_by(denoise, frames, denoised) ==> denoised.len() == frames.len() && exists|
            w: &[T],
            v: Vec<T>,
        | #[trigger]
            call_ensures(denoise, (w,), v) && w@ == frames[i] && v@ == denoised[i],
        resampled_by(resample, frames, resampled) ==> resampled.len() == frames.len() && exists|
            w: &[T],
            v: Option<Vec<T>>,
        | #[trigger]
            call_ensures(resample, (w,), v) && w@ == frames[i] && (v is Some
                <==> resampled[i] is Some) && (v is Some ==> v.unwrap()@ == resampled[i].unwrap()),
        voiced_by(voiced, frames, flags) ==> flags.len() == frames.len() && exists|w: &[T]|
            #[trigger] call_ensures(voiced, (w,), flags[i]) && w@ == frames[i],
{
    if denoised_by(denoise, frames, denoised) {
        assert(denoised_frame(denoise, frames[i], denoised[i]));
        let v = choose|v: Vec<T>| #[trigger]
            frame_result(denoise, frames[i], v) && v@ == denoised[i];
        let w = choose|w: &[T]| w@ == frames[i] && #[trigger] call_ensures(denoise, (w,), v);
        assert(call_ensures(denoise, (w,), v));
    }
    if resampled_by(resample, frames, resampled) {
        assert(resampled_frame(resample, frames[i], resampled[i]));
        let v = choose|v: Option<Vec<T>>| #[trigger]
            frame_result(resample, frames[i], v) && opt_view(v) == resampled[i];
        let w = choose|w: &[T]| w@ == frames[i] && #[trigger] call_ensures(resample, (w,), v);
        assert(call_ensures(resample, (w,), v));
    }
    if voiced_by(voiced, frames, flags) {
        assert(frame_result(voiced, frames[i], flags[i]));
    }
}

/// What a tick hands to the denoiser are frames of 480 samples of what was waiting and what came;
/// the voice detector gets frames of 256 samples of what the resampler made.
pub proof fn law_ticks_hand_over_their_frames<
    T,
    D: Fn(&[T]) -> Vec<T>,
    R: Fn(&[T]) -> Option<Vec<T>>,
    V: Fn(&[T]) -> bool,
>(
    state: FrontendView<T>,
    mono: Seq<T>,
    wanted: bool,
    band: SnrBand,
    in_frames: nat,
    denoise: D,
    resample: R,
    voiced: V,
    work: FrontWork<T>,
)
    requires
        mono.len() > 0,
        front_worked(
            state,
            mono,
            wanted,
            band,
            in_frames,
            denoise,
            resample,
            voiced,
            work,
        ),
    ensures
        ({
            let (clean_state, clean) = cleaned(state, mono, wanted, band, work.denoised);
            let low = lowered(clean_state, clean, in_frames, work.resampled).1;
            &&& clean_state.denoiser_active ==> denoised_by(
                denoise,
                frames_of(state.pending + mono, 480),
                work.denoised,
            )
            &&& clean.len() > 0 ==> resampled_by(
                resample,
                frames_of(state.resample_pending + clean, in_frames),
                work.resampled,
            )
            &&& voiced_by(voiced, frames_of(state.vad_pending + low, 256), work.flags)
            &&& in_frames > 0 ==> work.flags.len() == (state.vad_pending.len() + low.len()) / 256
        }),
{
    let (clean_state, clean) = cleaned(state, mono, wanted, band, work.denoised);
    let low = lowered(clean_state, clean, in_frames, work.resampled).1;
    law_frames_come_off_the_front(state.vad_pending + low, 256, 0);
}

/// Flushing denoises the last frame, unless it is the speaker's first, and resamples it behind what
/// was waiting. Nothing comes of nothing.
pub proof fn law_flushing_hands_out_the_rest<
    T,
    D: Fn(&[T]) -> Vec<T>,
    R: Fn(&[T]) -> Option<Vec<T>>,
>(
    denoise: D,
    resample: R,
    before: FrontendView<T>,
    frame: Seq<T>,
    cleaned_frame: Seq<T>,
    in_frames: nat,
    out: Seq<T>,
    after: FrontendView<T>,
)
    ensures
        flushed_frame(denoise, false, frame, cleaned_frame) ==> cleaned_frame == frame,
        flushed_frame(denoise, true, frame, cleaned_frame) ==> denoised_frame(
            denoise,
            frame,
            cleaned_frame,
        ),
        flushed(resample, before, Seq::empty(), in_frames, out, after) ==> out.len() == 0 && after
            == before,
        flushed(resample, before, cleaned_frame, in_frames, out, after) && cleaned_frame.len() > 0
            ==> {
            &&& after.pending == before.pending
            &&& after.vad_pending == before.vad_pending
            &&& after.hangover == before.hangover
            &&& after.was_speech == before.was_speech
            &&& after.preroll == before.preroll
            &&& after.resample_errors >= before.resample_errors
            &&& in_frames > 0 ==> after.resample_pending.len() == (before.resample_pending.len()
                + cleaned_frame.len()) % in_frames
            &&& exists|resampled: Seq<Option<Seq<T>>>| #[trigger]
                resampled_by(
                    resample,
                    frames_of(before.resample_pending + cleaned_frame, in_frames),
                    resampled,
                ) && out == flattened_some(resampled)
        },
{
    if in_frames > 0 && cleaned_frame.len() > 0 {
        let all = before.resample_pending + cleaned_frame;
        law_frames_come_off_the_front(all, in_frames, 0);
        vstd::arithmetic::div_mod::lemma_fundamental_div_mod_converse(
            all.len() as int,
            in_frames as int,
            frames_of(all, in_frames).len() as int,
            after_frames(all, in_frames).len() as int,
        );
    }
}

/// A speaker begins with nothing heard, nothing waiting, and the denoiser ready.
pub proof fn law_speakers_begin_afresh<T>()
    ensures
        ({
            let fresh = fresh_frontend::<T>();
            &&& fresh.pending.len() == 0
            &&& fresh.resample_pending.len() == 0
            &&& fresh.vad_pending.len() == 0
            &&& fresh.preroll.len() == 0
            &&& fresh.resample_errors == 0
            &&& fresh.hangover == 0
            &&& !fresh.warmed_up
            &&& !fresh.was_speech
            &&& fresh.denoiser_active
        }),
{
}

} // verus!
