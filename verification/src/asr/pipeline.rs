//! One speaker's utterance buffer, the dispatch gate and the filter on decoded text.
use vstd::prelude::*;

use crate::seqs;
use crate::text;
use crate::time::Nanos;

verus! {

broadcast use vstd::seq::group_seq_axioms;

/// How long voice activity is held after the last voiced frame.
pub const VAD_HANGOVER_MS: u32 = 256;

/// The fewest voiced ticks that make an utterance worth decoding.
pub const DISPATCH_GATE_MIN_VOICED_TICKS: u32 = 8;

/// The silence that is kept at the end of an utterance.
pub const FINALIZE_TAIL_KEEP_MS: u32 = 200;

/// The fewest samples that are decoded: a tenth of a second at 16 kHz.
pub const MIN_UTTERANCE_SAMPLES: usize = 1_600;

// ---------------------------------------------------------------------------
// Utterance buffer
// ---------------------------------------------------------------------------

/// The audio of one speaker that has not been sent to the decoder yet.
pub struct UserAudioBuffer<T> {
    pub pcm: Vec<T>,
    pub silent_ticks: u32,
    pub voiced_ticks: u32,
    pub utterance_start: Option<Nanos>,
}

/// What a `UserAudioBuffer` holds.
#[verifier::ext_equal]
pub ghost struct BufferView<T> {
    pub pcm: Seq<T>,
    pub silent_ticks: u32,
    pub voiced_ticks: u32,
    pub utterance_start: Option<Nanos>,
}

impl<T> View for UserAudioBuffer<T> {
    type V = BufferView<T>;

    open spec fn view(&self) -> BufferView<T> {
        BufferView {
            pcm: self.pcm@,
            silent_ticks: self.silent_ticks,
            voiced_ticks: self.voiced_ticks,
            utterance_start: self.utterance_start,
        }
    }
}

/// A buffer without audio.
pub open spec fn empty_buffer<T>() -> BufferView<T> {
    BufferView { pcm: Seq::empty(), silent_ticks: 0, voiced_ticks: 0, utterance_start: None }
}

impl<T> Default for UserAudioBuffer<T> {
    fn default() -> (r: Self)
        ensures
            r@ == empty_buffer::<T>(),
    {
        UserAudioBuffer { pcm: Vec::new(), silent_ticks: 0, voiced_ticks: 0, utterance_start: None }
    }
}

// ---------------------------------------------------------------------------
// Dispatch gate
// ---------------------------------------------------------------------------

/// Why an utterance was not sent to the decoder. `L` is the type of audio levels.
#[derive(Debug)]
pub struct DispatchGateRejection<L> {
    pub reason: &'static str,
    pub voiced_ticks: u32,
    pub rms: L,
    pub floor: L,
}

/// Decides whether an utterance is sent to the decoder. `below_floor` says whether its level `rms`
/// lies under the noise floor `floor`.
pub fn should_dispatch_chunk<L>(
    rms: L,
    floor: L,
    below_floor: bool,
    voiced_ticks: u32,
) -> (r: Result<(), DispatchGateRejection<L>>)
    ensures
        r is Ok <==> voiced_ticks >= DISPATCH_GATE_MIN_VOICED_TICKS && !below_floor,
        r matches Err(rejection) ==> {
            &&& rejection.voiced_ticks == voiced_ticks
            &&& rejection.rms == rms
            &&& rejection.floor == floor
            &&& rejection.reason@ == (if voiced_ticks < DISPATCH_GATE_MIN_VOICED_TICKS {
                "insufficient_voiced_ticks"@
            } else {
                "below_noise_floor"@
            })
        },
        r is Ok <==> voiced_ticks >= 8 && !below_floor,
{
    if voiced_ticks < DISPATCH_GATE_MIN_VOICED_TICKS {
        return Err(
            DispatchGateRejection { reason: "insufficient_voiced_ticks", voiced_ticks, rms, floor },
        );
    }
    if below_floor {
        return Err(DispatchGateRejection { reason: "below_noise_floor", voiced_ticks, rms, floor });
    }
    Ok(())
}

// ---------------------------------------------------------------------------
// Trailing silence
// ---------------------------------------------------------------------------

/// The smaller of the two.
pub open spec fn min_int(a: int, b: int) -> int {
    if a <= b {
        a
    } else {
        b
    }
}

/// The milliseconds of silence that are cut off after `silence_ticks` silent ticks of 20 ms: the
/// ticks and the voice hangover, saturated at 32 bits, less what is kept. A millisecond has 16 samples.
pub open spec fn trim_ms(silence_ticks: u32) -> int {
    min_int(min_int(silence_ticks * 20, u32::MAX as int) + VAD_HANGOVER_MS, u32::MAX as int)
        - FINALIZE_TAIL_KEEP_MS
}

/// `pcm` without the silence at its end. Nothing is cut off where no tick was silent, or where a
/// tenth of a second or less would remain.
pub open spec fn trimmed_tail<T>(pcm: Seq<T>, silence_ticks: u32) -> Seq<T> {
    let cut = trim_ms(silence_ticks) * 16;
    if silence_ticks == 0 || pcm.len() <= MIN_UTTERANCE_SAMPLES + cut {
        pcm
    } else {
        pcm.take(pcm.len() - cut)
    }
}

/// Cuts off the silence at the end of an utterance.
pub fn trim_finalize_tail<T>(pcm: &mut Vec<T>, silence_ticks: u32)
    ensures
        final(pcm)@ == trimmed_tail(old(pcm)@, silence_ticks),
{
    if silence_ticks == 0 {
        return;
    }
    let ticks_ms: u32 = if silence_ticks > u32::MAX / 20 {
        u32::MAX
    } else {
        silence_ticks * 20
    };
    let estimated_tail_ms: u32 = ticks_ms.saturating_add(VAD_HANGOVER_MS);
    let cut_ms: u32 = estimated_tail_ms - FINALIZE_TAIL_KEEP_MS;
    assert(cut_ms == trim_ms(silence_ticks));
    let cut: u64 = cut_ms as u64 * 16;
    let len: usize = pcm.len();
    if len as u64 <= MIN_UTTERANCE_SAMPLES as u64 + cut {
        return;
    }
    pcm.truncate(len - cut as usize);
}

// ---------------------------------------------------------------------------
// Decoded text
// ---------------------------------------------------------------------------

/// `text` in lower case, without white space at its ends and without what is neither an ASCII
/// letter or digit nor ASCII white space.
pub open spec fn normalized_phrase(s: Seq<char>) -> Seq<char> {
    text::ascii_lowercase(text::trimmed(s)).filter(
        |c: char| text::ascii_alphanumeric(c) || text::ascii_white_space(c),
    )
}

/// The phrases that recognizers make up out of silence.
pub open spec fn blocked_phrase(s: Seq<char>) -> bool {
    ||| s == "thank you"@
    ||| s == "thanks for watching"@
    ||| s == "thank you for watching"@
    ||| s == "subtitles by"@
    ||| s == "captions by"@
}

fn normalize_phrase(s: &str) -> (r: String)
    ensures
        r@ == normalized_phrase(s@),
{
    let lowered = text::to_ascii_lowercase(text::trim(s).as_str());
    let chars = text::chars_of(lowered.as_str());
    let mut out = String::new();
    let ghost keep = |c: char| text::ascii_alphanumeric(c) || text::ascii_white_space(c);
    proof {
        seqs::lemma_filter_empty(chars@, keep);
    }
    for i in 0..chars.len()
        invariant
            chars@ == lowered@,
            keep == (|c: char| text::ascii_alphanumeric(c) || text::ascii_white_space(c)),
            out@ == chars@.take(i as int).filter(keep),
    {
        let c = chars[i];
        proof {
            seqs::lemma_filter_take(chars@, keep, i as int);
        }
        if text::is_ascii_alphanumeric(c) || text::is_ascii_whitespace(c) {
            out.push(c);
        }
    }
    out
}

fn is_blocked_phrase(s: &str) -> (r: bool)
    ensures
        r == blocked_phrase(s@),
{
    text::same(s, "thank you") || text::same(s, "thanks for watching") || text::same(
        s,
        "thank you for watching",
    ) || text::same(s, "subtitles by") || text::same(s, "captions by")
}

/// Why decoded text is not taken over, where it is not: it is a blocked phrase, or its characters
/// come implausibly fast.
pub open spec fn rejection_reason(s: Seq<char>, implausible_rate: bool) -> Option<Seq<char>> {
    if blocked_phrase(normalized_phrase(s)) {
        Some("blocklist"@)
    } else if implausible_rate {
        Some("implausible_char_rate"@)
    } else {
        None
    }
}

/// Why decoded text is not taken over, where it is not. `implausible_rate` says whether the text
/// has more than 25 characters for each second of its audio.
pub fn decode_rejection_reason(decoded: &str, implausible_rate: bool) -> (r: Option<&'static str>)
    ensures
        match r {
            Some(reason) => rejection_reason(decoded@, implausible_rate) == Some(reason@),
            None => rejection_reason(decoded@, implausible_rate) is None,
        },
{
    let normalized = normalize_phrase(decoded);
    if is_blocked_phrase(normalized.as_str()) {
        return Some("blocklist");
    }
    if implausible_rate {
        return Some("implausible_char_rate");
    }
    None
}

/// What an utterance of `samples` samples comes to, when the recognizer read `recognized` in it:
/// nothing where it is shorter than a tenth of a second, or where the text is blank or rejected.
pub open spec fn utterance_text(
    samples: nat,
    recognized: Seq<char>,
    implausible_rate: bool,
) -> Option<Seq<char>> {
    let s = text::trimmed(recognized);
    if samples < MIN_UTTERANCE_SAMPLES || s.len() == 0 || rejection_reason(s, implausible_rate)
        is Some {
        None
    } else {
        Some(s)
    }
}

/// The text of an utterance of `sample_count` samples, when the recognizer read `recognized` in
/// it. `implausible_rate` says whether the trimmed text has more than 25 characters a second.
pub fn transcribe_mono_pcm(
    sample_count: usize,
    recognized: &str,
    implausible_rate: bool,
) -> (r: Option<String>)
    ensures
        match r {
            Some(s) => utterance_text(sample_count as nat, recognized@, implausible_rate) == Some(
                s@,
            ),
            None => utterance_text(sample_count as nat, recognized@, implausible_rate) is None,
        },
        r is Some ==> sample_count >= 1_600 && !implausible_rate,
        r matches Some(s) ==> s@.len() > 0 && s@ == text::trimmed(recognized@),
{
    if sample_count < MIN_UTTERANCE_SAMPLES {
        return None;
    }
    let s = text::trim(recognized);
    if text::chars_of(s.as_str()).len() == 0 {
        return None;
    }
    match decode_rejection_reason(s.as_str(), implausible_rate) {
        Some(_) => None,
        None => Some(s),
    }
}

// ---------------------------------------------------------------------------
// Laws of decoded text
// ---------------------------------------------------------------------------

/// The characters of `s` without upper case.
pub open spec fn in_lower_case(s: Seq<char>) -> Seq<char> {
    s.map_values(
        |c: char|
            if 'A' <= c && c <= 'Z' {
                (c as u32 + 32) as char
            } else {
                c
            },
    )
}

/// The letters, digits and white space of `s`.
pub open spec fn words_alone(s: Seq<char>) -> Seq<char> {
    s.filter(
        |c: char|
            ('a' <= c && c <= 'z') || ('A' <= c && c <= 'Z') || ('0' <= c && c <= '9') || c == ' '
                || c == '\t' || c == '\n' || c == '\r' || c as int == 12,
    )
}

proof fn lemma_normalized(s: Seq<char>)
    ensures
        normalized_phrase(s) == words_alone(in_lower_case(text::trimmed(s))),
{
    let trimmed = text::trimmed(s);
    assert(text::ascii_lowercase(trimmed) =~= in_lower_case(trimmed));
    let keep = |c: char| text::ascii_alphanumeric(c) || text::ascii_white_space(c);
    let plain = |c: char|
        ('a' <= c && c <= 'z') || ('A' <= c && c <= 'Z') || ('0' <= c && c <= '9') || c == ' '
            || c == '\t' || c == '\n' || c == '\r' || c as int == 12;
    assert(keep =~= plain);
}

/// No refused text enters the transcript, and no other is kept out. What is handed out is what
/// the recognizer read without the white space round it; nothing is, where the audio is shorter
/// than a tenth of a second, where nothing was read, where the characters come implausibly fast,
/// or where the text in lower case, without punctuation, is one of five phrases that recognizers
/// make up out of silence.
pub proof fn law_made_up_text_is_refused(
    samples: nat,
    recognized: Seq<char>,
    implausible_rate: bool,
)
    ensures
        ({
            let read = text::trimmed(recognized);
            let words = words_alone(in_lower_case(read));
            let made_up = words == "thank you"@ || words == "thanks for watching"@ || words
                == "thank you for watching"@ || words == "subtitles by"@ || words
                == "captions by"@;
            let text = utterance_text(samples, recognized, implausible_rate);
            &&& samples < 1_600 ==> text is None
            &&& read.len() == 0 ==> text is None
            &&& implausible_rate ==> text is None
            &&& made_up ==> text is None
            &&& samples >= 1_600 && read.len() > 0 && !implausible_rate && !made_up ==> text
                == Some(read)
        }),
{
    let read = text::trimmed(recognized);
    lemma_normalized(read);
    text::law_trimming_is_settled(recognized);
}

/// Why a text is refused: for being made up, or else for its rate, or not at all.
pub proof fn law_refusals_have_their_reasons(s: Seq<char>, implausible_rate: bool)
    ensures
        ({
            let words = words_alone(in_lower_case(text::trimmed(s)));
            let made_up = words == "thank you"@ || words == "thanks for watching"@ || words
                == "thank you for watching"@ || words == "subtitles by"@ || words
                == "captions by"@;
            rejection_reason(s, implausible_rate) == (if made_up {
                Some("blocklist"@)
            } else if implausible_rate {
                Some("implausible_char_rate"@)
            } else {
                None
            })
        }),
{
    lemma_normalized(s);
}

/// The silence at the end of an utterance is cut off but for 200 of its milliseconds: each silent
/// tick has 20, the hold of the voice detector 256 more, and a millisecond has 16 samples. What is
/// left is the front of the utterance and longer than a tenth of a second; where it would not be,
/// and where no tick was silent, nothing is cut.
pub proof fn law_trailing_silence_is_cut<T>(pcm: Seq<T>, silence_ticks: u32)
    requires
        silence_ticks <= 100_000_000,
    ensures
        ({
            let kept = trimmed_tail(pcm, silence_ticks);
            let cut = (silence_ticks * 20 + 256 - 200) * 16;
            &&& kept.is_prefix_of(pcm)
            &&& silence_ticks == 0 ==> kept == pcm
            &&& silence_ticks > 0 && pcm.len() > 1_600 + cut ==> kept.len() == pcm.len() - cut
            &&& silence_ticks > 0 && pcm.len() <= 1_600 + cut ==> kept == pcm
        }),
{
}

} // verus!
