//! The queue of utterances for the decoder, and the account of its work.
use std::collections::VecDeque;

use vstd::prelude::*;

use crate::asr::tick::RouteCounts;
use crate::asr::unknown;

verus! {

broadcast use vstd::seq::group_seq_axioms;

/// The most utterances that wait for the decoder.
pub const DECODE_QUEUE_CAPACITY: usize = 8;

// ---------------------------------------------------------------------------
// The queue
// ---------------------------------------------------------------------------

/// The queue after `item` has joined it. A full queue sheds its oldest item.
pub open spec fn pushed<T>(queue: Seq<T>, item: T, capacity: int) -> Seq<T> {
    if queue.len() >= capacity && queue.len() > 0 {
        queue.drop_first().push(item)
    } else {
        queue.push(item)
    }
}

/// Puts an item at the end of the queue. A full queue sheds its oldest item.
pub fn push_bounded<T>(queue: &mut VecDeque<T>, item: T, capacity: usize) -> (r: Option<T>)
    requires
        capacity > 0,
    ensures
        final(queue)@ == pushed(old(queue)@, item, capacity as int),
        r == (if old(queue)@.len() >= capacity {
            Some(old(queue)@[0])
        } else {
            None
        }),
{
    let dropped = if queue.len() >= capacity {
        queue.pop_front()
    } else {
        None
    };
    queue.push_back(item);
    assert(queue@ =~= pushed(old(queue)@, item, capacity as int));
    dropped
}

/// The queue after all of `items` have joined it, one after another.
pub open spec fn pushed_all<T>(queue: Seq<T>, items: Seq<T>, capacity: int) -> Seq<T>
    decreases items.len(),
{
    if items.len() == 0 {
        queue
    } else {
        pushed(pushed_all(queue, items.drop_last(), capacity), items.last(), capacity)
    }
}

/// However many items join it, the queue holds the newest, in the order in which they came, and
/// no more than its capacity.
pub proof fn law_queue_keeps_the_newest<T>(queue: Seq<T>, items: Seq<T>, capacity: int)
    requires
        capacity > 0,
        queue.len() <= capacity,
    ensures
        pushed_all(queue, items, capacity) == unknown::last_elements(queue + items, capacity),
        pushed_all(queue, items, capacity).len() <= capacity,
    decreases items.len(),
{
    if items.len() == 0 {
        assert(queue + items =~= queue);
    } else {
        let shorter = items.drop_last();
        law_queue_keeps_the_newest(queue, shorter, capacity);
        assert(queue + items =~= (queue + shorter).push(items.last()));
        assert(pushed_all(queue, items, capacity) =~= unknown::last_elements(
            queue + items,
            capacity,
        ));
    }
}

/// The utterances that wait for the decoder.
pub struct DecodeQueue<T> {
    queue: VecDeque<T>,
}

impl<T> View for DecodeQueue<T> {
    type V = Seq<T>;

    closed spec fn view(&self) -> Seq<T> {
        self.queue@
    }
}

impl<T> DecodeQueue<T> {
    /// The queue is within its capacity.
    pub open spec fn wf(&self) -> bool {
        self@.len() <= DECODE_QUEUE_CAPACITY
    }

    /// An empty queue.
    pub fn new() -> (r: Self)
        ensures
            r.wf(),
            r@ == Seq::<T>::empty(),
    {
        DecodeQueue { queue: VecDeque::new() }
    }

    /// Puts an utterance at the end of the queue. A full queue sheds its oldest utterance, which is
    /// handed back.
    pub fn enqueue(&mut self, job: T) -> (r: Option<T>)
        requires
            old(self).wf(),
        ensures
            final(self).wf(),
            final(self)@ == pushed(old(self)@, job, DECODE_QUEUE_CAPACITY as int),
            r == (if old(self)@.len() >= DECODE_QUEUE_CAPACITY {
                Some(old(self)@[0])
            } else {
                None
            }),
    {
        push_bounded(&mut self.queue, job, DECODE_QUEUE_CAPACITY)
    }

    /// Takes the oldest utterance out of the queue.
    pub fn dequeue(&mut self) -> (r: Option<T>)
        requires
            old(self).wf(),
        ensures
            final(self).wf(),
            old(self)@.len() == 0 ==> r is None && final(self)@ == old(self)@,
            old(self)@.len() > 0 ==> r == Some(old(self)@[0]) && final(self)@
                == old(self)@.drop_first(),
    {
        let r = self.queue.pop_front();
        assert(old(self)@.len() > 0 ==> self@ =~= old(self)@.drop_first());
        r
    }
}

/// How many utterances wait.
pub fn decode_queue_depth<T>(queue: &DecodeQueue<T>) -> (r: usize)
    requires
        queue.wf(),
    ensures
        r == queue@.len(),
        r <= DECODE_QUEUE_CAPACITY,
{
    queue.queue.len()
}

/// How many utterances may wait.
pub fn decode_queue_capacity() -> (r: usize)
    ensures
        r == DECODE_QUEUE_CAPACITY,
{
    DECODE_QUEUE_CAPACITY
}

// ---------------------------------------------------------------------------
// The account of a call's work
// ---------------------------------------------------------------------------

/// What has been counted of a call. Counters wrap round at their end.
#[derive(Clone, Copy)]
pub struct CallCounters {
    pub transcription_inflight: usize,
    pub transcript_pending_commits: usize,
    pub decode_jobs_total: usize,
    pub decode_jobs_with_text: usize,
    pub asr_decode_error_total: usize,
    pub decode_audio_total_ms: usize,
    pub decode_total_ms: usize,
    pub decode_queue_wait_total_ms: usize,
    pub decode_last_ms: usize,
    pub decode_queue_wait_last_ms: usize,
    pub decode_shed_total: usize,
    pub dispatch_gate_total: usize,
    pub resample_error_total: usize,
    pub decoded_audio_activity: usize,
    pub decode_failure_activity: usize,
    pub unmapped_ssrc_activity: usize,
}

/// The counters of a call that has just begun.
pub open spec fn no_work() -> CallCounters {
    CallCounters {
        transcription_inflight: 0,
        transcript_pending_commits: 0,
        decode_jobs_total: 0,
        decode_jobs_with_text: 0,
        asr_decode_error_total: 0,
        decode_audio_total_ms: 0,
        decode_total_ms: 0,
        decode_queue_wait_total_ms: 0,
        decode_last_ms: 0,
        decode_queue_wait_last_ms: 0,
        decode_shed_total: 0,
        dispatch_gate_total: 0,
        resample_error_total: 0,
        decoded_audio_activity: 0,
        decode_failure_activity: 0,
        unmapped_ssrc_activity: 0,
    }
}

/// The milliseconds of `samples` samples at 16 kHz, with the product saturated.
pub open spec fn audio_ms(samples: usize) -> int {
    (if samples * 1000 <= usize::MAX {
        samples * 1000
    } else {
        usize::MAX as int
    }) / 16_000
}

/// What decoding an utterance brought.
pub enum DecodeResult {
    Text(String),
    NoText,
    Error,
}

/// The counters after an utterance was decoded, before its text is committed.
pub open spec fn decoded_counters(
    counters: CallCounters,
    samples: usize,
    decode_ms: usize,
    queue_wait_ms: usize,
    result: DecodeResult,
) -> CallCounters {
    let counted = CallCounters {
        decode_jobs_total: counters.decode_jobs_total.wrapping_add(1),
        decode_audio_total_ms: counters.decode_audio_total_ms.wrapping_add(
            audio_ms(samples) as usize,
        ),
        decode_total_ms: counters.decode_total_ms.wrapping_add(decode_ms),
        decode_queue_wait_total_ms: counters.decode_queue_wait_total_ms.wrapping_add(queue_wait_ms),
        decode_last_ms: decode_ms,
        decode_queue_wait_last_ms: queue_wait_ms,
        ..counters
    };
    match result {
        DecodeResult::Text(_) => CallCounters {
            decode_jobs_with_text: counters.decode_jobs_with_text.wrapping_add(1),
            transcript_pending_commits: counters.transcript_pending_commits.wrapping_add(1),
            ..counted
        },
        DecodeResult::NoText => counted,
        DecodeResult::Error => CallCounters {
            asr_decode_error_total: counters.asr_decode_error_total.wrapping_add(1),
            ..counted
        },
    }
}

impl CallCounters {
    /// The counters of a call that has just begun.
    pub fn new() -> (r: Self)
        ensures
            r == no_work(),
    {
        CallCounters {
            transcription_inflight: 0,
            transcript_pending_commits: 0,
            decode_jobs_total: 0,
            decode_jobs_with_text: 0,
            asr_decode_error_total: 0,
            decode_audio_total_ms: 0,
            decode_total_ms: 0,
            decode_queue_wait_total_ms: 0,
            decode_last_ms: 0,
            decode_queue_wait_last_ms: 0,
            decode_shed_total: 0,
            dispatch_gate_total: 0,
            resample_error_total: 0,
            decoded_audio_activity: 0,
            decode_failure_activity: 0,
            unmapped_ssrc_activity: 0,
        }
    }

    /// Counts what the streams of a tick brought.
    pub fn count_routed(&mut self, counts: RouteCounts)
        ensures
            *final(self) == (CallCounters {
                decode_failure_activity: old(self).decode_failure_activity.wrapping_add(
                    counts.decode_failures,
                ),
                unmapped_ssrc_activity: old(self).unmapped_ssrc_activity.wrapping_add(
                    counts.unmapped,
                ),
                decoded_audio_activity: old(self).decoded_audio_activity.wrapping_add(
                    counts.decoded,
                ),
                ..*old(self)
            }),
    {
        self.decode_failure_activity = self.decode_failure_activity.wrapping_add(
            counts.decode_failures,
        );
        self.unmapped_ssrc_activity = self.unmapped_ssrc_activity.wrapping_add(counts.unmapped);
        self.decoded_audio_activity = self.decoded_audio_activity.wrapping_add(counts.decoded);
    }

    /// Counts what a tick came to: utterances held back, resampling errors, and utterances that
    /// are on their way through the decoder.
    pub fn count_tick(&mut self, gated: usize, resample_errors: usize, dispatched: usize)
        ensures
            *final(self) == (CallCounters {
                dispatch_gate_total: old(self).dispatch_gate_total.wrapping_add(gated),
                resample_error_total: old(self).resample_error_total.wrapping_add(resample_errors),
                transcription_inflight: old(self).transcription_inflight.wrapping_add(dispatched),
                ..*old(self)
            }),
    {
        self.dispatch_gate_total = self.dispatch_gate_total.wrapping_add(gated);
        self.resample_error_total = self.resample_error_total.wrapping_add(resample_errors);
        self.transcription_inflight = self.transcription_inflight.wrapping_add(dispatched);
    }

    /// Counts an utterance that a full queue shed.
    pub fn count_shed(&mut self)
        ensures
            *final(self) == (CallCounters {
                decode_shed_total: old(self).decode_shed_total.wrapping_add(1),
                transcription_inflight: old(self).transcription_inflight.wrapping_sub(1),
                ..*old(self)
            }),
    {
        self.decode_shed_total = self.decode_shed_total.wrapping_add(1);
        self.transcription_inflight = self.transcription_inflight.wrapping_sub(1);
    }

    /// Counts an utterance that was decoded. Gives the text that is to be committed.
    pub fn decode_finished(
        &mut self,
        samples: usize,
        decode_ms: usize,
        queue_wait_ms: usize,
        result: DecodeResult,
    ) -> (r: Option<String>)
        ensures
            *final(self) == decoded_counters(
                *old(self),
                samples,
                decode_ms,
                queue_wait_ms,
                result,
            ),
            r == (match result {
                DecodeResult::Text(text) => Some(text),
                _ => None,
            }),
    {
        let product: usize = if samples <= usize::MAX / 1000 {
            samples * 1000
        } else {
            usize::MAX
        };
        self.decode_jobs_total = self.decode_jobs_total.wrapping_add(1);
        self.decode_audio_total_ms = self.decode_audio_total_ms.wrapping_add(product / 16_000);
        self.decode_total_ms = self.decode_total_ms.wrapping_add(decode_ms);
        self.decode_queue_wait_total_ms = self.decode_queue_wait_total_ms.wrapping_add(
            queue_wait_ms,
        );
        self.decode_last_ms = decode_ms;
        self.decode_queue_wait_last_ms = queue_wait_ms;
        match result {
            DecodeResult::Text(text) => {
                self.decode_jobs_with_text = self.decode_jobs_with_text.wrapping_add(1);
                self.transcript_pending_commits = self.transcript_pending_commits.wrapping_add(1);
                Some(text)
            },
            DecodeResult::NoText => None,
            DecodeResult::Error => {
                self.asr_decode_error_total = self.asr_decode_error_total.wrapping_add(1);
                None
            },
        }
    }

    /// Counts the audio that was left when a connection ended, once it was decoded: it does not
    /// pass through the queue, and only its text counts.
    pub fn tail_finished(&mut self, result: DecodeResult) -> (r: Option<String>)
        ensures
            *final(self) == (CallCounters {
                transcript_pending_commits: if result is Text {
                    old(self).transcript_pending_commits.wrapping_add(1)
                } else {
                    old(self).transcript_pending_commits
                },
                ..*old(self)
            }),
            r == (match result {
                DecodeResult::Text(text) => Some(text),
                _ => None,
            }),
    {
        match result {
            DecodeResult::Text(text) => {
                self.transcript_pending_commits = self.transcript_pending_commits.wrapping_add(1);
                Some(text)
            },
            _ => None,
        }
    }

    /// Counts a text that was committed, or that could not be.
    pub fn commit_done(&mut self)
        ensures
            *final(self) == (CallCounters {
                transcript_pending_commits: old(self).transcript_pending_commits.wrapping_sub(1),
                ..*old(self)
            }),
    {
        self.transcript_pending_commits = self.transcript_pending_commits.wrapping_sub(1);
    }

    /// Counts an utterance that has left the decoder.
    pub fn decode_released(&mut self)
        ensures
            *final(self) == (CallCounters {
                transcription_inflight: old(self).transcription_inflight.wrapping_sub(1),
                ..*old(self)
            }),
    {
        self.transcription_inflight = self.transcription_inflight.wrapping_sub(1);
    }
}

/// An utterance that goes through the decoder leaves no trace in the counters of what is under
/// way: whether it was decoded to text that was committed, to none, or failed, and whether it was
/// shed before.
pub proof fn law_every_utterance_is_released(
    counters: CallCounters,
    samples: usize,
    decode_ms: usize,
    queue_wait_ms: usize,
    result: DecodeResult,
)
    ensures
        counters.transcription_inflight.wrapping_add(1).wrapping_sub(1)
            == counters.transcription_inflight,
        ({
            let after = decoded_counters(counters, samples, decode_ms, queue_wait_ms, result);
            &&& after.transcription_inflight == counters.transcription_inflight
            &&& result is Text ==> after.transcript_pending_commits.wrapping_sub(1)
                == counters.transcript_pending_commits
            &&& !(result is Text) ==> after.transcript_pending_commits
                == counters.transcript_pending_commits
        }),
{
}

/// What is pushed comes last. Where there is room nothing is lost, and where there is none only the
/// oldest is; the rest keep their order.
pub proof fn law_push_drops_the_oldest<T>(queue: Seq<T>, item: T, capacity: int)
    requires
        0 < capacity,
        queue.len() <= capacity,
    ensures
        ({
            let after = pushed(queue, item, capacity);
            &&& after.last() == item
            &&& queue.len() < capacity ==> after.len() == queue.len() + 1
            &&& queue.len() == capacity ==> after.len() == capacity
            &&& forall|i: int|
                0 <= i < queue.len() ==> #[trigger] queue[i] == (if queue.len() < capacity {
                    after[i]
                } else if i > 0 {
                    after[i - 1]
                } else {
                    queue[0]
                })
        }),
{
}

/// The queue holds the newest eight utterances, in the order in which they came.
pub proof fn law_queue_holds_eight<T>(items: Seq<T>)
    ensures
        ({
            let queue = pushed_all(Seq::empty(), items, DECODE_QUEUE_CAPACITY as int);
            &&& queue.len() == (if items.len() < 8 {
                items.len()
            } else {
                8
            })
            &&& queue == items.subrange(items.len() - queue.len(), items.len() as int)
        }),
{
    law_queue_keeps_the_newest(Seq::empty(), items, DECODE_QUEUE_CAPACITY as int);
    assert(Seq::<T>::empty() + items =~= items);
    let queue = pushed_all(Seq::empty(), items, DECODE_QUEUE_CAPACITY as int);
    assert(queue =~= items.subrange(items.len() - queue.len(), items.len() as int));
}

/// A decoded utterance counts as one job, of one millisecond for every 16 samples of audio. The time
/// it took and the time it waited are added up, and are the last ones. One with text awaits a
/// commit; one that failed is counted as such. Nothing else changes.
pub proof fn law_decoding_is_counted(
    counters: CallCounters,
    samples: usize,
    decode_ms: usize,
    queue_wait_ms: usize,
    result: DecodeResult,
)
    requires
        samples * 1000 <= usize::MAX,
        counters.decode_jobs_total < usize::MAX,
        counters.decode_jobs_with_text < usize::MAX,
        counters.asr_decode_error_total < usize::MAX,
        counters.transcript_pending_commits < usize::MAX,
        counters.decode_audio_total_ms + samples <= usize::MAX,
        counters.decode_total_ms + decode_ms <= usize::MAX,
        counters.decode_queue_wait_total_ms + queue_wait_ms <= usize::MAX,
    ensures
        ({
            let after = decoded_counters(counters, samples, decode_ms, queue_wait_ms, result);
            let text = if result is Text {
                1int
            } else {
                0
            };
            &&& after.decode_jobs_total == counters.decode_jobs_total + 1
            &&& after.decode_audio_total_ms == counters.decode_audio_total_ms + samples / 16
            &&& after.decode_total_ms == counters.decode_total_ms + decode_ms
            &&& after.decode_queue_wait_total_ms == counters.decode_queue_wait_total_ms
                + queue_wait_ms
            &&& after.decode_last_ms == decode_ms
            &&& after.decode_queue_wait_last_ms == queue_wait_ms
            &&& after.decode_jobs_with_text == counters.decode_jobs_with_text + text
            &&& after.transcript_pending_commits == counters.transcript_pending_commits + text
            &&& after.asr_decode_error_total == counters.asr_decode_error_total + (
            if result is Error {
                1int
            } else {
                0
            })
            &&& after.transcription_inflight == counters.transcription_inflight
            &&& after.decode_shed_total == counters.decode_shed_total
            &&& after.dispatch_gate_total == counters.dispatch_gate_total
            &&& after.resample_error_total == counters.resample_error_total
            &&& after.decoded_audio_activity == counters.decoded_audio_activity
            &&& after.decode_failure_activity == counters.decode_failure_activity
            &&& after.unmapped_ssrc_activity == counters.unmapped_ssrc_activity
        }),
{
    assert((samples * 1000) / 16_000 == samples / 16);
}

/// A call begins with nothing counted.
pub proof fn law_counting_begins_at_nothing()
    ensures
        ({
            let c = no_work();
            &&& c.transcription_inflight == 0
            &&& c.transcript_pending_commits == 0
            &&& c.decode_jobs_total == 0
            &&& c.decode_jobs_with_text == 0
            &&& c.asr_decode_error_total == 0
            &&& c.decode_audio_total_ms == 0
            &&& c.decode_total_ms == 0
            &&& c.decode_queue_wait_total_ms == 0
            &&& c.decode_last_ms == 0
            &&& c.decode_queue_wait_last_ms == 0
            &&& c.decode_shed_total == 0
            &&& c.dispatch_gate_total == 0
            &&& c.resample_error_total == 0
            &&& c.decoded_audio_activity == 0
            &&& c.decode_failure_activity == 0
            &&& c.unmapped_ssrc_activity == 0
        }),
{
}

} // verus!
