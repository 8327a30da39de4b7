//! The threads in which finished calls are talked about.
use vstd::prelude::*;

use crate::app::thread_maps;
use crate::app::thread_maps::{ContextMap, TimeMap};
use crate::asr::unknown;
use crate::maps;
use crate::time;
use crate::time::Nanos;

verus! {

broadcast use {
    vstd::seq::group_seq_axioms,
    vstd::set::group_set_axioms,
    vstd::map::group_map_axioms,
};

/// The most threads that are kept.
pub const THREAD_CONTEXT_MAX_ENTRIES: usize = 64;

/// The most turns that are kept of a thread.
pub const THREAD_HISTORY_MAX_ITEMS: usize = 24;

/// The time between two replies in a thread.
pub const THREAD_AI_COOLDOWN: u64 = 3_000_000_000;

/// What is known of a thread: the transcript, and who said what about it.
pub struct ThreadContext {
    pub transcript: String,
    pub history: Vec<(String, String)>,
}

/// What a `ThreadContext` holds.
#[verifier::ext_equal]
pub ghost struct ContextView {
    pub transcript: Seq<char>,
    pub history: Seq<(Seq<char>, Seq<char>)>,
}

/// What turns hold.
pub open spec fn turn_views(history: Seq<(String, String)>) -> Seq<(Seq<char>, Seq<char>)> {
    history.map_values(|turn: (String, String)| (turn.0@, turn.1@))
}

impl View for ThreadContext {
    type V = ContextView;

    open spec fn view(&self) -> ContextView {
        ContextView { transcript: self.transcript@, history: turn_views(self.history@) }
    }
}

/// A copy of the turns.
pub fn copy_turns(history: &[(String, String)]) -> (r: Vec<(String, String)>)
    ensures
        turn_views(r@) == turn_views(history@),
{
    let mut out: Vec<(String, String)> = Vec::new();
    for i in 0..history.len()
        invariant
            turn_views(out@) == turn_views(history@).take(i as int),
    {
        let ghost before = turn_views(out@);
        out.push((history[i].0.clone(), history[i].1.clone()));
        assert(turn_views(out@) =~= before.push(turn_views(history@)[i as int]));
    }
    assert(turn_views(history@).take(history@.len() as int) =~= turn_views(history@));
    out
}

/// The threads that are known, when each was last used, and when each last had a reply.
pub struct ThreadStore {
    contexts: ContextMap,
    last_used: TimeMap,
    last_reply: TimeMap,
}

/// What a `ThreadStore` holds.
#[verifier::ext_equal]
pub ghost struct StoreView {
    pub contexts: Map<u64, ContextView>,
    pub last_used: Map<u64, Nanos>,
    pub last_reply: Map<u64, Nanos>,
}

impl View for ThreadStore {
    type V = StoreView;

    closed spec fn view(&self) -> StoreView {
        StoreView {
            contexts: thread_maps::context_entries(self.contexts).map_values(
                |context: ThreadContext| context@,
            ),
            last_used: thread_maps::time_entries(self.last_used),
            last_reply: thread_maps::time_entries(self.last_reply),
        }
    }
}

/// The store without a thread.
pub open spec fn without(store: StoreView, channel: u64) -> StoreView {
    StoreView {
        contexts: store.contexts.remove(channel),
        last_used: store.last_used.remove(channel),
        last_reply: store.last_reply.remove(channel),
    }
}

/// The store without the threads of `order`.
pub open spec fn without_all(store: StoreView, order: Seq<u64>) -> StoreView
    decreases order.len(),
{
    if order.len() == 0 {
        store
    } else {
        without(without_all(store, order.drop_last()), order.last())
    }
}

/// The thread at position `i` of `order` has to go, once those before it are gone: there are too
/// many, and none was used before it.
pub open spec fn has_to_go(store: StoreView, order: Seq<u64>, i: int) -> bool {
    let left = without_all(store, order.take(i));
    left.contexts.dom().len() > THREAD_CONTEXT_MAX_ENTRIES && maps::is_lowest(
        left.last_used,
        order[i],
    )
}

/// `after` holds the threads of `store` without those that had to go, the longest unused first.
pub open spec fn evicted(store: StoreView, after: StoreView) -> bool {
    exists|order: Seq<u64>|
        {
            &&& after == #[trigger] without_all(store, order)
            &&& after.contexts.dom().len() <= THREAD_CONTEXT_MAX_ENTRIES
            &&& forall|i: int| 0 <= i < order.len() ==> #[trigger] has_to_go(store, order, i)
        }
}

/// The store with a thread used at the given time.
pub open spec fn touched(store: StoreView, channel: u64, now: Nanos) -> StoreView {
    StoreView { last_used: store.last_used.insert(channel, now), ..store }
}

/// A thread with a question and its answer. The oldest turns give way.
pub open spec fn answered(
    context: ContextView,
    question: Seq<char>,
    answer: Seq<char>,
) -> ContextView {
    ContextView {
        history: unknown::last_elements(
            context.history.push(("user"@, question)).push(("model"@, answer)),
            THREAD_HISTORY_MAX_ITEMS as int,
        ),
        ..context
    }
}

/// What a message in a thread leads to.
pub enum ReplyStart {
    /// The channel is no thread that is known.
    NoThread,
    /// The last reply is too recent.
    CoolingDown,
    /// The question is to be answered.
    Ask { transcript: String, history: Vec<(String, String)> },
}

/// The last reply in a thread is too recent for another.
pub open spec fn cooling_down(store: StoreView, channel: u64, now: Nanos) -> bool {
    store.last_reply.contains_key(channel) && time::elapsed(now, store.last_reply[channel])
        < THREAD_AI_COOLDOWN
}

/// The use of every thread is on record, whatever number of threads there is.
pub open spec fn on_record(store: StoreView) -> bool {
    &&& store.contexts.dom().finite()
    &&& forall|channel: u64| #[trigger]
        store.contexts.contains_key(channel) ==> store.last_used.contains_key(channel)
}

impl ThreadStore {
    /// The use of every thread is on record, whatever number of threads there is.
    pub open spec fn recorded(&self) -> bool {
        on_record(self@)
    }

    /// No more threads are kept than there is room for, and the use of each is on record.
    pub open spec fn wf(&self) -> bool {
        self.recorded() && self@.contexts.dom().len() <= THREAD_CONTEXT_MAX_ENTRIES
    }

    /// No threads.
    pub fn new() -> (r: Self)
        ensures
            r.wf(),
            r@ == (StoreView {
                contexts: Map::empty(),
                last_used: Map::empty(),
                last_reply: Map::empty(),
            }),
    {
        let r = ThreadStore {
            contexts: thread_maps::new_contexts(),
            last_used: thread_maps::new_times(),
            last_reply: thread_maps::new_times(),
        };
        assert(r@.contexts =~= Map::empty());
        assert(r@.last_used =~= Map::empty());
        assert(r@.last_reply =~= Map::empty());
        r
    }

    /// Whether a thread is known.
    pub fn contains_key(&self, channel: u64) -> (r: bool)
        ensures
            r == self@.contexts.contains_key(channel),
    {
        thread_maps::has_context(&self.contexts, channel)
    }

    /// The transcript of a thread.
    pub fn transcript(&self, channel: u64) -> (r: Option<String>)
        ensures
            match r {
                Some(transcript) => self@.contexts.contains_key(channel) && transcript@
                    == self@.contexts[channel].transcript,
                None => !self@.contexts.contains_key(channel),
            },
    {
        thread_maps::get_transcript(&self.contexts, channel)
    }

    fn evict_thread_contexts_if_needed(&mut self)
        requires
            old(self).recorded(),
        ensures
            final(self).wf(),
            evicted(old(self)@, final(self)@),
    {
        let ghost before = self@;
        let ghost mut order: Seq<u64> = Seq::empty();
        assert(self@.contexts.dom() =~= thread_maps::context_entries(self.contexts).dom());
        while thread_maps::count_contexts(&self.contexts) > THREAD_CONTEXT_MAX_ENTRIES
            invariant
                self.recorded(),
                self@.contexts.dom() == thread_maps::context_entries(self.contexts).dom(),
                self@ == without_all(before, order),
                forall|i: int| 0 <= i < order.len() ==> #[trigger] has_to_go(before, order, i),
            decreases self@.contexts.dom().len() + self@.last_used.dom().len(),
        {
            let ghost here = self@;
            proof {
                let some = self@.contexts.dom().choose();
                assert(self@.contexts.contains_key(some));
                assert(self@.last_used.contains_key(some));
            }
            match thread_maps::lowest_time(&self.last_used) {
                Some(channel) => {
                    thread_maps::take_context(&mut self.contexts, channel);
                    thread_maps::remove_time(&mut self.last_used, channel);
                    thread_maps::remove_time(&mut self.last_reply, channel);
                    assert(self@.contexts =~= here.contexts.remove(channel));
                    assert(self@.last_used =~= here.last_used.remove(channel));
                    assert(self@.last_reply =~= here.last_reply.remove(channel));
                    assert(self@.contexts.dom() =~= thread_maps::context_entries(
                        self.contexts,
                    ).dom());
                    proof {
                        let longer = order.push(channel);
                        assert(longer.drop_last() =~= order);
                        assert forall|i: int| 0 <= i < longer.len() implies #[trigger] has_to_go(
                            before,
                            longer,
                            i,
                        ) by {
                            if i < order.len() {
                                assert(longer.take(i) =~= order.take(i));
                                assert(has_to_go(before, order, i));
                            } else {
                                assert(longer.take(i) =~= order);
                            }
                        }
                        order = longer;
                    }
                },
                None => {
                    return ;
                },
            }
        }
        assert(self@ == without_all(before, order));
    }

    fn touch_thread_context(&mut self, channel: u64, now: Nanos)
        requires
            old(self).recorded(),
        ensures
            final(self).recorded(),
            final(self)@ == touched(old(self)@, channel, now),
    {
        thread_maps::insert_time(&mut self.last_used, channel, now);
    }

    /// Takes a thread with a transcript in. Where there are too many, the longest unused go.
    pub fn upsert_thread_context(&mut self, channel: u64, transcript: String, now: Nanos)
        requires
            old(self).wf(),
        ensures
            final(self).wf(),
            evicted(
                touched(
                    StoreView {
                        contexts: old(self)@.contexts.insert(
                            channel,
                            ContextView { transcript: transcript@, history: Seq::empty() },
                        ),
                        ..old(self)@
                    },
                    channel,
                    now,
                ),
                final(self)@,
            ),
    {
        let context = ThreadContext { transcript, history: Vec::new() };
        assert(turn_views(context.history@) =~= Seq::<(Seq<char>, Seq<char>)>::empty());
        let ghost view = context@;
        thread_maps::insert_time(&mut self.last_used, channel, now);
        thread_maps::insert_context(&mut self.contexts, channel, context);
        assert(self@.contexts =~= old(self)@.contexts.insert(channel, view));
        self.evict_thread_contexts_if_needed();
    }

    /// Begins a reply to a message in a channel.
    pub fn begin_reply(&mut self, channel: u64, now: Nanos) -> (r: ReplyStart)
        requires
            old(self).wf(),
        ensures
            final(self).wf(),
            ({
                let known = old(self)@.contexts.contains_key(channel);
                let used = touched(old(self)@, channel, now);
                if !known {
                    r is NoThread && final(self)@ == old(self)@
                } else if cooling_down(old(self)@, channel, now) {
                    r is CoolingDown && final(self)@ == used
                } else {
                    &&& final(self)@ == (StoreView {
                        last_reply: old(self)@.last_reply.insert(channel, now),
                        ..used
                    })
                    &&& r matches ReplyStart::Ask { transcript, history } && transcript@
                        == old(self)@.contexts[channel].transcript && turn_views(history@)
                        == old(self)@.contexts[channel].history
                }
            }),
    {
        if !thread_maps::has_context(&self.contexts, channel) {
            return ReplyStart::NoThread;
        }
        self.touch_thread_context(channel, now);
        if let Some(last) = thread_maps::get_time(&self.last_reply, channel) {
            if time::saturating_elapsed(now, last) < THREAD_AI_COOLDOWN {
                return ReplyStart::CoolingDown;
            }
        }
        thread_maps::insert_time(&mut self.last_reply, channel, now);
        assert(self@.contexts.contains_key(channel));
        assert(thread_maps::context_entries(self.contexts).contains_key(channel));
        match thread_maps::take_context(&mut self.contexts, channel) {
            Some(context) => {
                let transcript = context.transcript.clone();
                let history = copy_turns(context.history.as_slice());
                thread_maps::insert_context(&mut self.contexts, channel, context);
                assert(self@.contexts =~= old(self)@.contexts);
                ReplyStart::Ask { transcript, history }
            },
            None => ReplyStart::NoThread,
        }
    }

    /// Takes note of a question and its answer.
    pub fn finish_reply(&mut self, channel: u64, question: String, answer: String, now: Nanos)
        requires
            old(self).wf(),
        ensures
            final(self).wf(),
            evicted(
                touched(
                    if old(self)@.contexts.contains_key(channel) {
                        StoreView {
                            contexts: old(self)@.contexts.insert(
                                channel,
                                answered(old(self)@.contexts[channel], question@, answer@),
                            ),
                            ..old(self)@
                        }
                    } else {
                        old(self)@
                    },
                    channel,
                    now,
                ),
                final(self)@,
            ),
    {
        if let Some(context) = thread_maps::take_context(&mut self.contexts, channel) {
            let mut context = context;
            let ghost before = context@;
            context.history.push(("user".to_string(), question));
            context.history.push(("model".to_string(), answer));
            assert(turn_views(context.history@) =~= before.history.push(
                ("user"@, question@),
            ).push(("model"@, answer@)));
            let overflow: usize = context.history.len().saturating_sub(THREAD_HISTORY_MAX_ITEMS);
            if overflow > 0 {
                let mut kept = context.history.split_off(overflow);
                std::mem::swap(&mut kept, &mut context.history);
            }
            assert(turn_views(context.history@) =~= answered(
                before,
                question@,
                answer@,
            ).history);
            let ghost after = context@;
            thread_maps::insert_context(&mut self.contexts, channel, context);
            assert(self@.contexts =~= old(self)@.contexts.insert(channel, after));
            assert(old(self)@.contexts.contains_key(channel));
            assert(self@.contexts.dom() =~= old(self)@.contexts.dom());
        } else {
            assert(self@.contexts =~= old(self)@.contexts);
        }
        self.touch_thread_context(channel, now);
        self.evict_thread_contexts_if_needed();
    }
}

// ---------------------------------------------------------------------------
// Laws
// ---------------------------------------------------------------------------

proof fn lemma_what_is_left(store: StoreView, order: Seq<u64>)
    requires
        on_record(store),
    ensures
        on_record(without_all(store, order)),
        forall|channel: u64| #[trigger]
            without_all(store, order).last_used.contains_key(channel)
                ==> store.last_used.contains_key(channel) && without_all(
                store,
                order,
            ).last_used[channel] == store.last_used[channel],
        forall|channel: u64|
            !order.contains(channel) && #[trigger] store.contexts.contains_key(channel)
                ==> without_all(store, order).contexts.contains_key(channel) && without_all(
                store,
                order,
            ).contexts[channel] == store.contexts[channel],
    decreases order.len(),
{
    if order.len() > 0 {
        let shorter = order.drop_last();
        lemma_what_is_left(store, shorter);
        assert forall|channel: u64|
            !order.contains(channel) && #[trigger] store.contexts.contains_key(
                channel,
            ) implies without_all(store, order).contexts.contains_key(channel) && without_all(
            store,
            order,
        ).contexts[channel] == store.contexts[channel] by {
            if shorter.contains(channel) {
                let i = choose|i: int| 0 <= i < shorter.len() && shorter[i] == channel;
                assert(order[i] == channel);
            }
            assert(order[order.len() - 1] == order.last());
        }
    }
}

/// The thread that was used last is not one of those that go, as long as no other was used at the
/// same time: a transcript that was just taken in can be asked about.
pub proof fn law_newest_thread_stays(
    store: StoreView,
    after: StoreView,
    channel: u64,
)
    requires
        on_record(store),
        evicted(store, after),
        store.contexts.contains_key(channel),
        forall|other: u64|
            other != channel && #[trigger] store.last_used.contains_key(other)
                ==> store.last_used[other] < store.last_used[channel],
    ensures
        after.contexts.contains_key(channel),
        after.contexts[channel] == store.contexts[channel],
        after.contexts.dom().len() <= THREAD_CONTEXT_MAX_ENTRIES,
{
    let order = choose|order: Seq<u64>|
        {
            &&& after == #[trigger] without_all(store, order)
            &&& after.contexts.dom().len() <= THREAD_CONTEXT_MAX_ENTRIES
            &&& forall|i: int| 0 <= i < order.len() ==> #[trigger] has_to_go(store, order, i)
        };
    lemma_what_is_left(store, order);
    if order.contains(channel) {
        let i = choose|i: int| 0 <= i < order.len() && order[i] == channel;
        let left = without_all(store, order.take(i));
        lemma_what_is_left(store, order.take(i));
        assert(has_to_go(store, order, i));
        let others = left.contexts.dom().remove(channel);
        assert(others.len() > 0);
        let other = others.choose();
        assert(others.contains(other));
        assert(left.contexts.contains_key(other));
        assert(left.last_used.contains_key(other));
        assert(store.last_used.contains_key(other));
    }
}

/// No two replies in a thread begin within three seconds: after the one, any message before that
/// finds the thread cooling down.
pub proof fn law_replies_keep_their_distance(
    store: StoreView,
    channel: u64,
    replied: Nanos,
    now: Nanos,
)
    requires
        time::elapsed(now, replied) < THREAD_AI_COOLDOWN,
    ensures
        cooling_down(
            StoreView { last_reply: store.last_reply.insert(channel, replied), ..store },
            channel,
            now,
        ),
{
}

/// The history of a thread is twenty-four turns long at most, and its last two are the question
/// and the answer that came last; those before them are the newest of the turns before.
pub proof fn law_history_ends_with_the_answer(
    context: ContextView,
    question: Seq<char>,
    answer: Seq<char>,
)
    ensures
        ({
            let history = answered(context, question, answer).history;
            &&& 2 <= history.len() <= THREAD_HISTORY_MAX_ITEMS
            &&& history[history.len() - 2] == ("user"@, question)
            &&& history.last() == ("model"@, answer)
            &&& history.take(history.len() - 2).is_suffix_of(context.history)
            &&& answered(context, question, answer).transcript == context.transcript
        }),
{
    let longer = context.history.push(("user"@, question)).push(("model"@, answer));
    let history = answered(context, question, answer).history;
    let earlier = history.take(history.len() - 2);
    assert(earlier =~= context.history.skip(context.history.len() - earlier.len()));
}

proof fn lemma_gone_and_left(store: StoreView, order: Seq<u64>, channel: u64)
    ensures
        ({
            let after = without_all(store, order);
            &&& after.contexts.contains_key(channel) <==> store.contexts.contains_key(channel)
                && !order.contains(channel)
            &&& after.contexts.contains_key(channel) ==> after.contexts[channel]
                == store.contexts[channel]
            &&& after.last_used.contains_key(channel) <==> store.last_used.contains_key(channel)
                && !order.contains(channel)
            &&& after.last_used.contains_key(channel) ==> after.last_used[channel]
                == store.last_used[channel]
            &&& after.last_reply.contains_key(channel) <==> store.last_reply.contains_key(channel)
                && !order.contains(channel)
            &&& after.last_reply.contains_key(channel) ==> after.last_reply[channel]
                == store.last_reply[channel]
        }),
    decreases order.len(),
{
    if order.len() > 0 {
        let shorter = order.drop_last();
        lemma_gone_and_left(store, shorter, channel);
        if order.contains(channel) && channel != order.last() {
            let i = choose|i: int| 0 <= i < order.len() && order[i] == channel;
            assert(shorter[i] == channel);
        }
        if shorter.contains(channel) {
            let i = choose|i: int| 0 <= i < shorter.len() && shorter[i] == channel;
            assert(order[i] == channel);
        }
        if channel == order.last() {
            assert(order[order.len() - 1] == channel);
        }
    }
}

/// No more than 64 threads are held. Nothing is dropped where there are no more, and no more than
/// has to be where there are: what is dropped was not used after anything that is left, it is
/// dropped whole, and what is left is as it was.
pub proof fn law_threads_unused_longest_are_dropped(
    store: StoreView,
    after: StoreView,
    gone: u64,
    left: u64,
)
    requires
        on_record(store),
        evicted(store, after),
    ensures
        after.contexts.dom().len() <= 64,
        store.contexts.dom().len() <= 64 ==> after == store,
        store.contexts.dom().len() > 64 ==> after.contexts.dom().len() == 64,
        after.contexts.contains_key(left) ==> store.contexts.contains_key(left)
            && after.contexts[left] == store.contexts[left] && after.last_used.contains_key(left)
            && after.last_used[left] == store.last_used[left] && (after.last_reply.contains_key(
            left,
        ) <==> store.last_reply.contains_key(left)),
        store.contexts.contains_key(gone) && !after.contexts.contains_key(gone) ==> {
            &&& !after.last_used.contains_key(gone)
            &&& !after.last_reply.contains_key(gone)
            &&& after.contexts.contains_key(left) ==> store.last_used[gone]
                <= store.last_used[left]
        },
{
    let order = choose|order: Seq<u64>|
        {
            &&& after == #[trigger] without_all(store, order)
            &&& after.contexts.dom().len() <= THREAD_CONTEXT_MAX_ENTRIES
            &&& forall|i: int| 0 <= i < order.len() ==> #[trigger] has_to_go(store, order, i)
        };
    lemma_gone_and_left(store, order, left);
    lemma_gone_and_left(store, order, gone);
    if order.len() > 0 {
        assert(has_to_go(store, order, 0));
        assert(order.take(0) =~= Seq::empty());
        let last = order.len() - 1;
        assert(has_to_go(store, order, last));
        assert(order.take(last) =~= order.drop_last());
        let before = without_all(store, order.drop_last());
        lemma_what_is_left(store, order.drop_last());
        assert(after.contexts.dom() =~= before.contexts.dom().remove(order.last()));
        assert(store.contexts.dom().len() > 64);
    }
    if store.contexts.contains_key(gone) && !after.contexts.contains_key(gone)
        && after.contexts.contains_key(left) {
        let i = choose|i: int| 0 <= i < order.len() && order[i] == gone;
        assert(has_to_go(store, order, i));
        let then = order.take(i);
        lemma_gone_and_left(store, then, left);
        lemma_gone_and_left(store, then, gone);
        assert(!then.contains(left)) by {
            if then.contains(left) {
                let k = choose|k: int| 0 <= k < then.len() && then[k] == left;
                assert(order[k] == left);
            }
        }
        assert(without_all(store, then).last_used.contains_key(left));
    }
}

/// Replies in a thread are three seconds apart: one is put off exactly where less has passed since
/// the last.
pub proof fn law_replies_are_three_seconds_apart(store: StoreView, channel: u64, now: Nanos)
    ensures
        cooling_down(store, channel, now) <==> store.last_reply.contains_key(channel) && now
            < store.last_reply[channel] + 3_000_000_000,
        touched(store, channel, now).last_used[channel] == now,
        touched(store, channel, now).contexts == store.contexts,
        touched(store, channel, now).last_reply == store.last_reply,
        forall|other: u64|
            other != channel && #[trigger] store.last_used.contains_key(other) ==> touched(
                store,
                channel,
                now,
            ).last_used[other] == store.last_used[other],
{
}

/// A question and its answer go behind what was said before in the thread, of which the newest
/// turns are kept, twenty-four in all.
pub proof fn law_thread_keeps_twenty_four_turns(
    context: ContextView,
    question: Seq<char>,
    answer: Seq<char>,
)
    ensures
        ({
            let all = context.history + seq![("user"@, question), ("model"@, answer)];
            let kept = answered(context, question, answer).history;
            &&& kept.len() == (if all.len() < 24 {
                all.len()
            } else {
                24
            })
            &&& kept == all.subrange(all.len() - kept.len(), all.len() as int)
        }),
{
    let all = context.history + seq![("user"@, question), ("model"@, answer)];
    let kept = answered(context, question, answer).history;
    assert(all =~= context.history.push(("user"@, question)).push(("model"@, answer)));
    assert(kept =~= all.subrange(all.len() - kept.len(), all.len() as int));
}

/// The turns of a thread are told as they are, who spoke and what was said.
pub proof fn law_turns_are_told_as_they_are(history: Seq<(String, String)>, i: int)
    requires
        0 <= i < history.len(),
    ensures
        turn_views(history).len() == history.len(),
        turn_views(history)[i].0 == history[i].0@,
        turn_views(history)[i].1 == history[i].1@,
{
}

} // verus!
