//! The receive watchdog: when a voice connection that brings no usable audio is joined anew, and
//! when that is given up.
use std::collections::VecDeque;

use vstd::prelude::*;

use crate::app::healthcheck;
use crate::app::healthcheck::{
    assess, mapped_audio_observed, HealthSnapshot, SourceCounts, SourceProblem,
};
use crate::asr::directory;
use crate::asr::directory::SsrcDirectory;
use crate::maps;
use crate::time;
use crate::time::Nanos;

verus! {

broadcast use {
    vstd::seq::group_seq_axioms,
    vstd::set::group_set_axioms,
    vstd::map::group_map_axioms,
    vstd::std_specs::hash::group_hash_axioms,
};

/// How far back the evidence reaches.
pub const RECEIVE_EVIDENCE_WINDOW: u64 = 30_000_000_000;

/// How long affected sources have to bring audio after a rejoin.
pub const RECOVERY_VERIFICATION_TIMEOUT: u64 = 30_000_000_000;

/// After this time without audio the wait is reported.
pub const UNVERIFIED_REPORT_AFTER: u64 = 15_000_000_000;

/// The most rejoins in a row.
pub const MAX_RECOVERY_ATTEMPTS: u32 = 3;

/// The mapped packets that prove a source sound.
pub const VERIFIED_PACKETS: u64 = 3;

/// What is wrong with a voice connection.
#[derive(Clone, Copy, Debug, PartialEq, Eq, Structural)]
pub enum ReceiveProblem {
    Source(u32, SourceProblem),
    Driver,
}

/// What has to bring audio before a rejoin counts as successful.
#[derive(Clone, Copy, Debug, PartialEq, Eq, Structural)]
pub enum VerificationTarget {
    User(u64),
    Ssrc(u32),
    AnyMappedMedia,
}

/// A rejoin whose success is not proved yet.
pub struct Verification {
    pub targets: Vec<VerificationTarget>,
    pub started: Nanos,
    pub reported_unverified: bool,
}

/// What a `Verification` holds.
#[verifier::ext_equal]
pub ghost struct VerificationView {
    pub targets: Seq<VerificationTarget>,
    pub started: Nanos,
    pub reported_unverified: bool,
}

impl View for Verification {
    type V = VerificationView;

    open spec fn view(&self) -> VerificationView {
        VerificationView {
            targets: self.targets@,
            started: self.started,
            reported_unverified: self.reported_unverified,
        }
    }
}

// ---------------------------------------------------------------------------
// Proof of success
// ---------------------------------------------------------------------------

/// What has to bring audio once a problem is solved: the user of the source where one is known.
pub open spec fn target_of(
    users: Map<(u64, u32), u64>,
    guild: u64,
    problem: ReceiveProblem,
) -> VerificationTarget {
    match problem {
        ReceiveProblem::Source(ssrc, _) => if users.contains_key((guild, ssrc)) {
            VerificationTarget::User(users[(guild, ssrc)])
        } else {
            VerificationTarget::Ssrc(ssrc)
        },
        ReceiveProblem::Driver => VerificationTarget::AnyMappedMedia,
    }
}

/// What has to bring audio once each of the problems is solved.
pub open spec fn targets_of(
    users: Map<(u64, u32), u64>,
    guild: u64,
    problems: Seq<ReceiveProblem>,
) -> Seq<VerificationTarget> {
    problems.map_values(|problem: ReceiveProblem| target_of(users, guild, problem))
}

/// What has to bring audio once each of the problems is solved.
pub fn verification_targets(
    users: &SsrcDirectory,
    guild: u64,
    problems: &[ReceiveProblem],
) -> (r: Vec<VerificationTarget>)
    ensures
        r@ == targets_of(users@, guild, problems@),
{
    let mut targets: Vec<VerificationTarget> = Vec::new();
    for i in 0..problems.len()
        invariant
            targets@ == targets_of(users@, guild, problems@).take(i as int),
    {
        let target = match problems[i] {
            ReceiveProblem::Source(ssrc, _) => match users.user_of(guild, ssrc) {
                Some(user) => VerificationTarget::User(user),
                None => VerificationTarget::Ssrc(ssrc),
            },
            ReceiveProblem::Driver => VerificationTarget::AnyMappedMedia,
        };
        targets.push(target);
    }
    targets
}

/// The target has brought audio.
pub open spec fn target_verified(
    users: Map<(u64, u32), u64>,
    guild: u64,
    snapshot: Map<u32, SourceCounts>,
    target: VerificationTarget,
) -> bool {
    match target {
        VerificationTarget::User(user) => exists|ssrc: u32| #[trigger]
            users.contains_key((guild, ssrc)) && users[(guild, ssrc)] == user
                && healthcheck::audio_observed(snapshot, ssrc, VERIFIED_PACKETS),
        VerificationTarget::Ssrc(ssrc) => healthcheck::audio_observed(
            snapshot,
            ssrc,
            VERIFIED_PACKETS,
        ),
        VerificationTarget::AnyMappedMedia => exists|ssrc: u32| #[trigger]
            healthcheck::audio_observed(snapshot, ssrc, VERIFIED_PACKETS),
    }
}

/// Every target has brought audio.
pub open spec fn all_verified(
    users: Map<(u64, u32), u64>,
    guild: u64,
    snapshot: Map<u32, SourceCounts>,
    targets: Seq<VerificationTarget>,
) -> bool {
    forall|i: int|
        0 <= i < targets.len() ==> #[trigger] target_verified(users, guild, snapshot, targets[i])
}

fn user_verified(
    users: &SsrcDirectory,
    guild: u64,
    snapshot: &HealthSnapshot,
    user: u64,
) -> (r: bool)
    ensures
        r == target_verified(users@, guild, snapshot@, VerificationTarget::User(user)),
{
    let entries = users.entries();
    for i in 0..entries.len()
        invariant
            directory::lists_entries(entries@, users@),
            forall|j: int|
                0 <= j < i ==> !((#[trigger] entries@[j]).0.0 == guild && entries@[j].1 == user
                    && healthcheck::audio_observed(snapshot@, entries@[j].0.1, VERIFIED_PACKETS)),
    {
        let (key, owner) = entries[i];
        assert(entries@[i as int] == (key, owner));
        if key.0 == guild && owner == user && mapped_audio_observed(
            snapshot,
            key.1,
            VERIFIED_PACKETS,
        ) {
            assert(users@.contains_key(entries@[i as int].0));
            assert(users@.contains_key((guild, key.1)));
            return true;
        }
    }
    assert forall|ssrc: u32| #[trigger] users@.contains_key((guild, ssrc)) implies !(users@[(
        guild,
        ssrc,
    )] == user && healthcheck::audio_observed(snapshot@, ssrc, VERIFIED_PACKETS)) by {
        let i = choose|i: int| 0 <= i < entries@.len() && (#[trigger] entries@[i]).0 == (guild, ssrc);
        assert(entries@[i].0 == (guild, ssrc));
    }
    false
}

fn any_verified(snapshot: &HealthSnapshot) -> (r: bool)
    ensures
        r == exists|ssrc: u32| #[trigger]
            healthcheck::audio_observed(snapshot@, ssrc, VERIFIED_PACKETS),
{
    let keys = maps::keys_of(&snapshot.0);
    for i in 0..keys.len()
        invariant
            forall|key: u32| keys@.contains(key) <==> #[trigger] snapshot@.contains_key(key),
            forall|j: int|
                0 <= j < i ==> !healthcheck::audio_observed(
                    snapshot@,
                    #[trigger] keys@[j],
                    VERIFIED_PACKETS,
                ),
    {
        if mapped_audio_observed(snapshot, keys[i], VERIFIED_PACKETS) {
            return true;
        }
    }
    assert forall|ssrc: u32| !#[trigger]
        healthcheck::audio_observed(snapshot@, ssrc, VERIFIED_PACKETS) by {
        if snapshot@.contains_key(ssrc) {
            assert(keys@.contains(ssrc));
            let j = choose|j: int| 0 <= j < keys@.len() && keys@[j] == ssrc;
            assert(keys@[j] == ssrc);
        }
    }
    false
}

/// Whether every target of the verification has brought audio.
pub fn audio_verified(
    users: &SsrcDirectory,
    guild: u64,
    snapshot: &HealthSnapshot,
    verification: &Verification,
) -> (r: bool)
    ensures
        r == all_verified(users@, guild, snapshot@, verification.targets@),
{
    for i in 0..verification.targets.len()
        invariant
            forall|j: int|
                0 <= j < i ==> #[trigger] target_verified(
                    users@,
                    guild,
                    snapshot@,
                    verification.targets@[j],
                ),
    {
        let target = verification.targets[i];
        let verified = match target {
            VerificationTarget::User(user) => user_verified(users, guild, snapshot, user),
            VerificationTarget::Ssrc(ssrc) => mapped_audio_observed(
                snapshot,
                ssrc,
                VERIFIED_PACKETS,
            ),
            VerificationTarget::AnyMappedMedia => any_verified(snapshot),
        };
        assert(verified == target_verified(users@, guild, snapshot@, target));
        if !verified {
            return false;
        }
    }
    true
}

/// `targets` with those of `more` behind them that are not among them yet.
pub open spec fn merged(
    targets: Seq<VerificationTarget>,
    more: Seq<VerificationTarget>,
) -> Seq<VerificationTarget>
    decreases more.len(),
{
    if more.len() == 0 {
        targets
    } else {
        let before = merged(targets, more.drop_last());
        if before.contains(more.last()) {
            before
        } else {
            before.push(more.last())
        }
    }
}

fn has_target(targets: &Vec<VerificationTarget>, target: VerificationTarget) -> (r: bool)
    ensures
        r == targets@.contains(target),
{
    for i in 0..targets.len()
        invariant
            forall|j: int| 0 <= j < i ==> targets@[j] != target,
    {
        if targets[i] == target {
            return true;
        }
    }
    false
}

/// Adds those of `targets` that are not among `existing` yet.
pub fn merge_verification_targets(
    existing: &mut Vec<VerificationTarget>,
    targets: &[VerificationTarget],
)
    ensures
        final(existing)@ == merged(old(existing)@, targets@),
{
    assert(targets@.take(0) =~= Seq::<VerificationTarget>::empty());
    for i in 0..targets.len()
        invariant
            existing@ == merged(old(existing)@, targets@.take(i as int)),
    {
        let target = targets[i];
        assert(targets@.take(i + 1).drop_last() =~= targets@.take(i as int));
        if !has_target(existing, target) {
            existing.push(target);
        }
    }
    assert(targets@.take(targets@.len() as int) =~= targets@);
}

/// Merging keeps every target, brings every new one in, and makes none occur twice that did not.
pub proof fn law_merging_is_a_union(
    targets: Seq<VerificationTarget>,
    more: Seq<VerificationTarget>,
)
    ensures
        targets.no_duplicates() ==> merged(targets, more).no_duplicates(),
        targets.is_prefix_of(merged(targets, more)),
        forall|target: VerificationTarget| #[trigger]
            merged(targets, more).contains(target) <==> targets.contains(target) || more.contains(
                target,
            ),
    decreases more.len(),
{
    if more.len() > 0 {
        let shorter = more.drop_last();
        law_merging_is_a_union(targets, shorter);
        let before = merged(targets, shorter);
        let after = merged(targets, more);
        assert(more =~= shorter.push(more.last()));
        assert forall|target: VerificationTarget| #[trigger]
            after.contains(target) <==> targets.contains(target) || more.contains(target) by {
            if more.contains(target) && target != more.last() {
                let k = choose|k: int| 0 <= k < more.len() && more[k] == target;
                assert(shorter[k] == target);
                assert(before.contains(target));
            }
            if shorter.contains(target) {
                let k = choose|k: int| 0 <= k < shorter.len() && shorter[k] == target;
                assert(more[k] == target);
            }
            if before.contains(target) {
                let k = choose|k: int| 0 <= k < before.len() && before[k] == target;
                assert(after[k] == target);
            }
            if target == more.last() {
                assert(more[more.len() - 1] == target);
                if !before.contains(target) {
                    assert(after[before.len() as int] == target);
                }
            }
        }
    } else {
        assert forall|target: VerificationTarget| !more.contains(target) by {}
    }
}

// ---------------------------------------------------------------------------
// Whether to rejoin
// ---------------------------------------------------------------------------

/// The seconds to wait after the given number of attempts: ten, doubled by each.
pub fn retry_delay(attempts: u32) -> (r: u64)
    requires
        attempts < 64,
    ensures
        r == 10u64 << attempts,
        attempts <= 60 ==> r == 10 * vstd::arithmetic::power2::pow2(attempts as nat),
{
    proof {
        if attempts <= 60 {
            vstd::arithmetic::power2::lemma2_to64();
            if attempts < 60 {
                vstd::arithmetic::power2::lemma_pow2_strictly_increases(attempts as nat, 60);
            }
            assert(vstd::arithmetic::power2::pow2(60) == 1152921504606846976) by {
                vstd::arithmetic::power2::lemma2_to64_rest();
            }
            vstd::bits::lemma_u64_shl_is_mul(10, attempts as u64);
        }
    }
    10u64 << attempts
}

/// What the watchdog does about a voice connection.
#[derive(Clone, Copy, Debug, PartialEq, Eq, Structural)]
pub enum RecoveryDecision {
    Wait,
    Recover,
    Exhausted,
}

/// What the watchdog does about a voice connection: nothing where nothing is wrong, and otherwise
/// a rejoin once its time has come, as long as one is left.
pub open spec fn decision_of(
    problems: nat,
    recovery_required: bool,
    attempts: u32,
    now: Nanos,
    next_attempt_at: Nanos,
) -> RecoveryDecision {
    if !recovery_required && problems == 0 {
        RecoveryDecision::Wait
    } else if attempts >= MAX_RECOVERY_ATTEMPTS {
        RecoveryDecision::Exhausted
    } else if now >= next_attempt_at {
        RecoveryDecision::Recover
    } else {
        RecoveryDecision::Wait
    }
}

/// What the watchdog does about a voice connection.
pub fn recovery_decision(
    observed_problems: &[ReceiveProblem],
    recovery_required: bool,
    attempts: u32,
    now: Nanos,
    next_attempt_at: Nanos,
) -> (r: RecoveryDecision)
    ensures
        r == decision_of(
            observed_problems@.len(),
            recovery_required,
            attempts,
            now,
            next_attempt_at,
        ),
{
    if !recovery_required && observed_problems.len() == 0 {
        RecoveryDecision::Wait
    } else if attempts >= MAX_RECOVERY_ATTEMPTS {
        RecoveryDecision::Exhausted
    } else if now >= next_attempt_at {
        RecoveryDecision::Recover
    } else {
        RecoveryDecision::Wait
    }
}

// ---------------------------------------------------------------------------
// The watchdog
// ---------------------------------------------------------------------------

/// The state of a call's receive watchdog.
pub struct ReceiveWatchdog {
    history: VecDeque<(Nanos, HealthSnapshot)>,
    previous_problems: Vec<ReceiveProblem>,
    attempts: u32,
    next_attempt_at: Nanos,
    verification: Option<Verification>,
    recovery_targets: Vec<VerificationTarget>,
}

/// What a `ReceiveWatchdog` holds: the snapshots of the evidence window, the problems of the last
/// poll, the rejoins since the last success, when the next may be, the rejoin whose success is not
/// proved, and all that has to bring audio.
#[verifier::ext_equal]
pub ghost struct WatchdogView {
    pub history: Seq<(Nanos, Map<u32, SourceCounts>)>,
    pub previous_problems: Seq<ReceiveProblem>,
    pub attempts: u32,
    pub next_attempt_at: Nanos,
    pub verification: Option<VerificationView>,
    pub recovery_targets: Seq<VerificationTarget>,
}

/// The times and counts of the snapshots.
pub open spec fn history_views(history: Seq<(Nanos, HealthSnapshot)>) -> Seq<
    (Nanos, Map<u32, SourceCounts>),
> {
    history.map_values(|entry: (Nanos, HealthSnapshot)| (entry.0, entry.1@))
}

impl View for ReceiveWatchdog {
    type V = WatchdogView;

    closed spec fn view(&self) -> WatchdogView {
        WatchdogView {
            history: history_views(self.history@),
            previous_problems: self.previous_problems@,
            attempts: self.attempts,
            next_attempt_at: self.next_attempt_at,
            verification: match self.verification {
                Some(verification) => Some(verification@),
                None => None,
            },
            recovery_targets: self.recovery_targets@,
        }
    }
}

/// What the watchdog sees at a poll.
pub struct WatchdogInput {
    pub snapshot: HealthSnapshot,
    pub driver_disconnected: bool,
    pub needs_rejoin: bool,
    pub listener_present: bool,
    pub now: Nanos,
}

/// What a poll asks for.
#[derive(Clone, Copy, Debug, PartialEq, Eq, Structural)]
pub enum WatchdogAction {
    /// Nothing.
    Continue,
    /// A rejoin.
    Recover,
    /// The end of the call, after this many rejoins.
    Finalize { attempts: u32 },
}

/// What a poll comes to: the action, whether the affected sources have just been proved sound,
/// and whether it is to be reported that they still are not.
#[derive(Clone, Copy)]
pub struct WatchdogReport {
    pub action: WatchdogAction,
    pub verified: bool,
    pub report_unverified: bool,
}

/// The sources affected by the last rejoin have all brought audio.
pub open spec fn proved_sound(
    state: WatchdogView,
    users: Map<(u64, u32), u64>,
    guild: u64,
    input: WatchdogInput,
) -> bool {
    match state.verification {
        Some(pending) => !input.driver_disconnected && !input.needs_rejoin && all_verified(
            users,
            guild,
            input.snapshot@,
            pending.targets,
        ),
        None => false,
    }
}

/// The state once the affected sources are proved sound.
pub open spec fn sound_again(state: WatchdogView, now: Nanos) -> WatchdogView {
    WatchdogView {
        verification: None,
        recovery_targets: Seq::empty(),
        attempts: 0,
        next_attempt_at: now,
        ..state
    }
}

/// It is time to report that the affected sources are not proved sound.
pub open spec fn report_due(state: WatchdogView, now: Nanos) -> bool {
    match state.verification {
        Some(pending) => !pending.reported_unverified && time::elapsed(now, pending.started)
            >= UNVERIFIED_REPORT_AFTER,
        None => false,
    }
}

/// The state once that is reported, where it is due.
pub open spec fn reported(state: WatchdogView, now: Nanos) -> WatchdogView {
    if report_due(state, now) {
        WatchdogView {
            verification: Some(
                VerificationView { reported_unverified: true, ..state.verification.unwrap() },
            ),
            ..state
        }
    } else {
        state
    }
}

/// The history without the snapshots that the evidence window does not reach. The first one that
/// stays is the baseline: the window begins with it or after it.
pub open spec fn windowed(history: Seq<(Nanos, Map<u32, SourceCounts>)>, now: Nanos) -> Seq<
    (Nanos, Map<u32, SourceCounts>),
>
    decreases history.len(),
{
    if history.len() > 1 && time::elapsed(now, history[1].0) >= RECEIVE_EVIDENCE_WINDOW {
        windowed(history.drop_first(), now)
    } else {
        history
    }
}

/// Those of `problems` that were there at the last poll too, and the driver where it has lost its
/// connection.
pub open spec fn persistent(
    problems: Seq<ReceiveProblem>,
    previous: Seq<ReceiveProblem>,
    driver_disconnected: bool,
) -> Seq<ReceiveProblem> {
    let lasting = problems.filter(|problem: ReceiveProblem| previous.contains(problem));
    if driver_disconnected {
        lasting.push(ReceiveProblem::Driver)
    } else {
        lasting
    }
}

/// The affected sources have not brought audio in time.
pub open spec fn verification_expired(state: WatchdogView, now: Nanos) -> bool {
    match state.verification {
        Some(pending) => time::elapsed(now, pending.started) >= RECOVERY_VERIFICATION_TIMEOUT,
        None => false,
    }
}

/// The problems of sources, as those of a connection.
pub open spec fn source_problems(list: Seq<(u32, SourceProblem)>) -> Seq<ReceiveProblem> {
    list.map_values(|entry: (u32, SourceProblem)| ReceiveProblem::Source(entry.0, entry.1))
}

/// The state and the action after a poll, when the sources with problems are listed as `found`.
pub open spec fn polled(
    state: WatchdogView,
    users: Map<(u64, u32), u64>,
    guild: u64,
    input: WatchdogInput,
    found: Seq<(u32, SourceProblem)>,
) -> (WatchdogView, WatchdogAction) {
    let now = input.now;
    let checked = if proved_sound(state, users, guild, input) {
        sound_again(state, now)
    } else {
        state
    };
    let told = reported(checked, now);
    let problems = source_problems(found);
    let lasting = persistent(problems, told.previous_problems, input.driver_disconnected);
    let seen = WatchdogView {
        history: windowed(told.history.push((now, input.snapshot@)), now),
        previous_problems: problems,
        ..told
    };
    let decision = decision_of(
        lasting.len(),
        input.needs_rejoin || verification_expired(told, now),
        told.attempts,
        now,
        told.next_attempt_at,
    );
    if decision == RecoveryDecision::Wait || !input.listener_present {
        (seen, WatchdogAction::Continue)
    } else if decision == RecoveryDecision::Exhausted {
        (seen, WatchdogAction::Finalize { attempts: told.attempts })
    } else {
        (
            WatchdogView {
                recovery_targets: merged(
                    told.recovery_targets,
                    targets_of(users, guild, lasting),
                ),
                attempts: (told.attempts + 1) as u32,
                ..seen
            },
            WatchdogAction::Recover,
        )
    }
}

/// `found` lists the sources with problems over the evidence window.
pub open spec fn found_over_window(
    state: WatchdogView,
    input: WatchdogInput,
    found: Seq<(u32, SourceProblem)>,
) -> bool {
    let history = windowed(state.history.push((input.now, input.snapshot@)), input.now);
    healthcheck::lists_problems(found, history[0].1, input.snapshot@, input.now)
}

/// What has to bring audio after a rejoin: all that was affected, or anything at all.
pub open spec fn rejoin_targets(state: WatchdogView) -> Seq<VerificationTarget> {
    if state.recovery_targets.len() == 0 {
        seq![VerificationTarget::AnyMappedMedia]
    } else {
        state.recovery_targets
    }
}

/// How a rejoin ended.
#[derive(Clone, Copy, Debug, PartialEq, Eq, Structural)]
pub enum RecoveryOutcome {
    /// The voice channel was joined again.
    Rejoined,
    /// The call is over.
    SessionGone,
    /// It failed, or took too long.
    Failed,
}

/// The time `seconds` after `now`, as far as the clock reaches.
pub open spec fn later(now: Nanos, seconds: nat) -> Nanos {
    if now + seconds * time::SECOND <= u64::MAX {
        (now + seconds * time::SECOND) as u64
    } else {
        u64::MAX
    }
}

/// The state after a rejoin, and whether the watch goes on. After a rejoin that worked, only
/// fresh evidence counts.
pub open spec fn recovered(
    state: WatchdogView,
    outcome: RecoveryOutcome,
    snapshot: Map<u32, SourceCounts>,
    now: Nanos,
) -> (WatchdogView, bool) {
    let waited = WatchdogView {
        next_attempt_at: later(now, (10u64 << state.attempts) as nat),
        ..state
    };
    match outcome {
        RecoveryOutcome::SessionGone => (state, false),
        RecoveryOutcome::Failed => (waited, true),
        RecoveryOutcome::Rejoined => (
            WatchdogView {
                verification: Some(
                    VerificationView {
                        targets: rejoin_targets(state),
                        started: now,
                        reported_unverified: false,
                    },
                ),
                history: seq![(now, snapshot)],
                previous_problems: Seq::empty(),
                ..waited
            },
            true,
        ),
    }
}

impl ReceiveWatchdog {
    /// What holds of every watchdog: it has a baseline, and made no more rejoins than are allowed.
    pub open spec fn wf(&self) -> bool {
        self@.history.len() > 0 && self@.attempts <= MAX_RECOVERY_ATTEMPTS
    }

    /// A watchdog that begins with the given snapshot.
    pub fn new(snapshot: HealthSnapshot, now: Nanos) -> (r: Self)
        ensures
            r.wf(),
            r@ == (WatchdogView {
                history: seq![(now, snapshot@)],
                previous_problems: Seq::empty(),
                attempts: 0,
                next_attempt_at: now,
                verification: None,
                recovery_targets: Seq::empty(),
            }),
    {
        let mut history: VecDeque<(Nanos, HealthSnapshot)> = VecDeque::new();
        history.push_back((now, snapshot));
        assert(history_views(history@) =~= seq![(now, snapshot@)]);
        ReceiveWatchdog {
            history,
            previous_problems: Vec::new(),
            attempts: 0,
            next_attempt_at: now,
            verification: None,
            recovery_targets: Vec::new(),
        }
    }

    fn remember(&mut self, snapshot: HealthSnapshot, now: Nanos)
        ensures
            final(self)@ == (WatchdogView {
                history: windowed(old(self)@.history.push((now, snapshot@)), now),
                ..old(self)@
            }),
            final(self)@.history.len() > 0,
    {
        let ghost wanted = windowed(old(self)@.history.push((now, snapshot@)), now);
        self.history.push_back((now, snapshot));
        assert(self@.history =~= old(self)@.history.push((now, snapshot@)));
        while self.history.len() > 1 && time::saturating_elapsed(now, self.history[1].0)
            >= RECEIVE_EVIDENCE_WINDOW
            invariant
                self.history@.len() > 0,
                windowed(self@.history, now) == wanted,
                self@ == (WatchdogView { history: self@.history, ..old(self)@ }),
            decreases self.history@.len(),
        {
            assert(self@.history[1].0 == self.history@[1].0);
            let ghost before = self@.history;
            self.history.pop_front();
            assert(self@.history =~= before.drop_first());
        }
        assert(self.history@.len() > 1 ==> self@.history[1].0 == self.history@[1].0);
    }

    fn observed(&self, input_now: Nanos) -> (r: Vec<(u32, SourceProblem)>)
        requires
            self.wf(),
        ensures
            healthcheck::lists_problems(
                r@,
                self@.history[0].1,
                self@.history.last().1,
                input_now,
            ),
    {
        let last: usize = self.history.len() - 1;
        let baseline = &self.history[0].1;
        let current = &self.history[last].1;
        assess(baseline, current, input_now)
    }

    fn check_verification(
        &mut self,
        users: &SsrcDirectory,
        guild: u64,
        input: &WatchdogInput,
    ) -> (r: (bool, bool))
        requires
            old(self).wf(),
        ensures
            r.0 == proved_sound(old(self)@, users@, guild, *input),
            ({
                let checked = if r.0 {
                    sound_again(old(self)@, input.now)
                } else {
                    old(self)@
                };
                &&& r.1 == report_due(checked, input.now)
                &&& final(self)@ == reported(checked, input.now)
            }),
            final(self).wf(),
    {
        let now: Nanos = input.now;
        let verified = match &self.verification {
            Some(pending) => !input.driver_disconnected && !input.needs_rejoin && audio_verified(
                users,
                guild,
                &input.snapshot,
                pending,
            ),
            None => false,
        };
        if verified {
            self.verification = None;
            self.recovery_targets = Vec::new();
            self.attempts = 0;
            self.next_attempt_at = now;
        }
        let mut report = false;
        if let Some(pending) = self.verification.take() {
            let mut pending = pending;
            if !pending.reported_unverified && time::saturating_elapsed(now, pending.started)
                >= UNVERIFIED_REPORT_AFTER {
                report = true;
                pending.reported_unverified = true;
            }
            self.verification = Some(pending);
        }
        (verified, report)
    }

    /// Looks at the state of the connection.
    pub fn poll(
        &mut self,
        users: &SsrcDirectory,
        guild: u64,
        input: WatchdogInput,
    ) -> (r: WatchdogReport)
        requires
            old(self).wf(),
        ensures
            final(self).wf(),
            r.verified == proved_sound(old(self)@, users@, guild, input),
            r.report_unverified == report_due(
                if r.verified {
                    sound_again(old(self)@, input.now)
                } else {
                    old(self)@
                },
                input.now,
            ),
            exists|found: Seq<(u32, SourceProblem)>| #[trigger]
                found_over_window(old(self)@, input, found) && (final(self)@, r.action) == polled(
                    old(self)@,
                    users@,
                    guild,
                    input,
                    found,
                ),
            (input.driver_disconnected || input.needs_rejoin) && input.listener_present ==> {
                &&& old(self)@.attempts >= 3 ==> r.action is Finalize
                &&& old(self)@.attempts < 3 && input.now >= old(self)@.next_attempt_at
                    ==> r.action is Recover && final(self)@.attempts == old(self)@.attempts + 1
                &&& r.action is Recover && input.driver_disconnected
                    ==> final(self)@.recovery_targets.contains(VerificationTarget::AnyMappedMedia)
            },
            !input.listener_present ==> r.action is Continue,
    {
        let now: Nanos = input.now;
        let (verified, report_unverified) = self.check_verification(users, guild, &input);
        let ghost told = self@;
        let ghost snapshot = input.snapshot@;
        let expired = match &self.verification {
            Some(pending) => time::saturating_elapsed(now, pending.started)
                >= RECOVERY_VERIFICATION_TIMEOUT,
            None => false,
        };
        let driver_disconnected = input.driver_disconnected;
        let needs_rejoin = input.needs_rejoin;
        let listener_present = input.listener_present;
        self.remember(input.snapshot, now);
        proof {
            lemma_windowed_last(told.history.push((now, snapshot)), now);
        }
        let found = self.observed(now);
        assert(found_over_window(old(self)@, input, found@));
        proof {
            law_lost_driver_brings_a_rejoin(old(self)@, users@, guild, input, found@);
        }

        let mut problems: Vec<ReceiveProblem> = Vec::new();
        let mut lasting: Vec<ReceiveProblem> = Vec::new();
        let ghost previous = self.previous_problems@;
        let ghost keep = |problem: ReceiveProblem| previous.contains(problem);
        let ghost all = source_problems(found@);
        proof {
            crate::seqs::lemma_filter_empty(all, keep);
        }
        for i in 0..found.len()
            invariant
                self.previous_problems@ == previous,
                keep == (|problem: ReceiveProblem| previous.contains(problem)),
                all == source_problems(found@),
                problems@ == all.take(i as int),
                lasting@ == all.take(i as int).filter(keep),
        {
            let (ssrc, kind) = found[i];
            let problem = ReceiveProblem::Source(ssrc, kind);
            assert(problem == all[i as int]);
            proof {
                crate::seqs::lemma_filter_take(all, keep, i as int);
            }
            problems.push(problem);
            if has_problem(&self.previous_problems, problem) {
                lasting.push(problem);
            }
        }
        self.previous_problems = problems;
        if driver_disconnected {
            lasting.push(ReceiveProblem::Driver);
        }
        assert(lasting@ == persistent(all, previous, driver_disconnected));
        let decision = recovery_decision(
            lasting.as_slice(),
            needs_rejoin || expired,
            self.attempts,
            now,
            self.next_attempt_at,
        );
        if decision == RecoveryDecision::Wait || !listener_present {
            return WatchdogReport { action: WatchdogAction::Continue, verified, report_unverified };
        }
        if decision == RecoveryDecision::Exhausted {
            return WatchdogReport {
                action: WatchdogAction::Finalize { attempts: self.attempts },
                verified,
                report_unverified,
            };
        }
        let targets = verification_targets(users, guild, lasting.as_slice());
        merge_verification_targets(&mut self.recovery_targets, targets.as_slice());
        self.attempts += 1;
        WatchdogReport { action: WatchdogAction::Recover, verified, report_unverified }
    }

    /// Takes note of how a rejoin ended, with the counts at that time. Says whether the watch goes
    /// on.
    pub fn recovery_done(
        &mut self,
        outcome: RecoveryOutcome,
        snapshot: HealthSnapshot,
        now: Nanos,
    ) -> (r: bool)
        requires
            old(self).wf(),
        ensures
            final(self).wf(),
            (final(self)@, r) == recovered(old(self)@, outcome, snapshot@, now),
    {
        if outcome == RecoveryOutcome::SessionGone {
            return false;
        }
        let delay: u64 = retry_delay(self.attempts);
        if outcome == RecoveryOutcome::Rejoined {
            let mut targets: Vec<VerificationTarget> = Vec::new();
            if self.recovery_targets.len() == 0 {
                targets.push(VerificationTarget::AnyMappedMedia);
            } else {
                for i in 0..self.recovery_targets.len()
                    invariant
                        targets@ == self.recovery_targets@.take(i as int),
                {
                    targets.push(self.recovery_targets[i]);
                }
            }
            assert(targets@ =~= rejoin_targets(self@));
            self.verification = Some(
                Verification { targets, started: now, reported_unverified: false },
            );
            self.history = VecDeque::new();
            self.history.push_back((now, snapshot));
            assert(history_views(self.history@) =~= seq![(now, snapshot@)]);
            self.previous_problems = Vec::new();
        }
        self.next_attempt_at = if delay <= (u64::MAX - now) / time::SECOND {
            now + delay * time::SECOND
        } else {
            u64::MAX
        };
        true
    }
}

fn has_problem(problems: &Vec<ReceiveProblem>, problem: ReceiveProblem) -> (r: bool)
    ensures
        r == problems@.contains(problem),
{
    for i in 0..problems.len()
        invariant
            forall|j: int| 0 <= j < i ==> problems@[j] != problem,
    {
        if problems[i] == problem {
            return true;
        }
    }
    false
}

proof fn lemma_windowed_last(history: Seq<(Nanos, Map<u32, SourceCounts>)>, now: Nanos)
    requires
        history.len() > 0,
    ensures
        windowed(history, now).len() > 0,
        windowed(history, now).last() == history.last(),
    decreases history.len(),
{
    if history.len() > 1 && time::elapsed(now, history[1].0) >= RECEIVE_EVIDENCE_WINDOW {
        lemma_windowed_last(history.drop_first(), now);
    }
}

// ---------------------------------------------------------------------------
// Laws of the watchdog
// ---------------------------------------------------------------------------

/// A connection on which nothing is wrong is left alone: no source has a problem, the driver is
/// connected, and no rejoin is owed.
pub proof fn law_quiet_connection_is_left_alone(
    state: WatchdogView,
    users: Map<(u64, u32), u64>,
    guild: u64,
    input: WatchdogInput,
)
    requires
        state.verification is None,
        !input.driver_disconnected,
        !input.needs_rejoin,
    ensures
        polled(state, users, guild, input, Seq::empty()).1 == WatchdogAction::Continue,
{
    let problems = source_problems(Seq::empty());
    crate::seqs::lemma_filter_empty(
        problems,
        |problem: ReceiveProblem| state.previous_problems.contains(problem),
    );
    assert(problems.take(0) =~= problems);
}

/// No rejoin comes before its time, none comes while nobody is there to be heard, and never more
/// than three come in a row: after the third, a problem that is left ends the call.
pub proof fn law_rejoins_are_bounded(
    state: WatchdogView,
    users: Map<(u64, u32), u64>,
    guild: u64,
    input: WatchdogInput,
    found: Seq<(u32, SourceProblem)>,
)
    requires
        state.attempts <= MAX_RECOVERY_ATTEMPTS,
    ensures
        ({
            let (after, action) = polled(state, users, guild, input, found);
            let sound = proved_sound(state, users, guild, input);
            &&& after.attempts <= MAX_RECOVERY_ATTEMPTS
            &&& action == WatchdogAction::Recover ==> input.listener_present && (sound || input.now
                >= state.next_attempt_at) && after.attempts == (if sound {
                0
            } else {
                state.attempts
            }) + 1
            &&& action matches WatchdogAction::Finalize { attempts } ==> input.listener_present
                && !sound && attempts == MAX_RECOVERY_ATTEMPTS == state.attempts
            &&& action == WatchdogAction::Continue ==> after.attempts == (if sound {
                0
            } else {
                state.attempts
            })
        }),
{
}

/// Where no rejoin is owed and the driver is connected, it takes a problem of one source in two
/// polls running to bring a rejoin about.
pub proof fn law_rejoin_needs_a_lasting_problem(
    state: WatchdogView,
    users: Map<(u64, u32), u64>,
    guild: u64,
    input: WatchdogInput,
    found: Seq<(u32, SourceProblem)>,
)
    requires
        polled(state, users, guild, input, found).1 == WatchdogAction::Recover,
        !input.driver_disconnected,
        !input.needs_rejoin,
        !verification_expired(state, input.now),
    ensures
        exists|problem: ReceiveProblem| #[trigger]
            state.previous_problems.contains(problem) && source_problems(found).contains(problem),
{
    let problems = source_problems(found);
    let keep = |problem: ReceiveProblem| state.previous_problems.contains(problem);
    crate::seqs::lemma_filter_member(problems, keep, 0);
    assert(state.previous_problems.contains(problems.filter(keep)[0]));
}

/// A rejoin that worked starts afresh: until two further polls agree on a problem, or the driver
/// or the affected sources fail again, no other rejoin follows.
pub proof fn law_rejoin_starts_afresh(
    state: WatchdogView,
    snapshot: Map<u32, SourceCounts>,
    joined: Nanos,
    users: Map<(u64, u32), u64>,
    guild: u64,
    input: WatchdogInput,
    found: Seq<(u32, SourceProblem)>,
)
    requires
        !input.driver_disconnected,
        !input.needs_rejoin,
        time::elapsed(input.now, joined) < RECOVERY_VERIFICATION_TIMEOUT,
    ensures
        polled(
            recovered(state, RecoveryOutcome::Rejoined, snapshot, joined).0,
            users,
            guild,
            input,
            found,
        ).1 == WatchdogAction::Continue,
{
    let none = Seq::<ReceiveProblem>::empty();
    let problems = source_problems(found);
    let keep = |problem: ReceiveProblem| none.contains(problem);
    if problems.filter(keep).len() > 0 {
        crate::seqs::lemma_filter_member(problems, keep, 0);
    }
}

/// A source that had this problem at the last poll has it still.
pub open spec fn still_found(
    previous: Seq<ReceiveProblem>,
    found: Seq<(u32, SourceProblem)>,
    ssrc: u32,
    kind: SourceProblem,
) -> bool {
    previous.contains(ReceiveProblem::Source(ssrc, kind)) && found.contains((ssrc, kind))
}

/// There is a cause for a rejoin: the driver has lost its connection; a rejoin is owed; a source
/// has the same problem as at the last poll; or half a minute after the last rejoin the affected
/// sources are not proved sound.
pub open spec fn has_cause(
    state: WatchdogView,
    input: WatchdogInput,
    found: Seq<(u32, SourceProblem)>,
    sound: bool,
) -> bool {
    ||| input.driver_disconnected
    ||| input.needs_rejoin
    ||| exists|ssrc: u32, kind: SourceProblem| #[trigger]
        still_found(state.previous_problems, found, ssrc, kind)
    ||| !sound && state.verification is Some && input.now >= state.verification.unwrap().started
        + 30_000_000_000
}

proof fn lemma_lasting_problems(
    found: Seq<(u32, SourceProblem)>,
    previous: Seq<ReceiveProblem>,
    driver_disconnected: bool,
)
    ensures
        forall|ssrc: u32, kind: SourceProblem|
            persistent(source_problems(found), previous, driver_disconnected).contains(
                ReceiveProblem::Source(ssrc, kind),
            ) <==> #[trigger] still_found(previous, found, ssrc, kind),
        persistent(source_problems(found), previous, driver_disconnected).contains(
            ReceiveProblem::Driver,
        ) <==> driver_disconnected,
{
    let problems = source_problems(found);
    let keep = |problem: ReceiveProblem| previous.contains(problem);
    let kept = problems.filter(keep);
    let lasting = persistent(problems, previous, driver_disconnected);
    assert forall|ssrc: u32, kind: SourceProblem|
        lasting.contains(ReceiveProblem::Source(ssrc, kind)) <==> #[trigger] still_found(
            previous,
            found,
            ssrc,
            kind,
        ) by {
        let problem = ReceiveProblem::Source(ssrc, kind);
        if lasting.contains(problem) {
            let i = choose|i: int| 0 <= i < lasting.len() && lasting[i] == problem;
            assert(i < kept.len() && kept[i] == problem);
            crate::seqs::lemma_filter_member(problems, keep, i);
            let j = choose|j: int| 0 <= j < problems.len() && problems[j] == problem;
            assert(found[j] == (ssrc, kind));
        }
        if still_found(previous, found, ssrc, kind) {
            let j = choose|j: int| 0 <= j < found.len() && found[j] == (ssrc, kind);
            assert(problems[j] == problem);
            crate::seqs::lemma_filter_keeps(problems, keep, j);
            let i = choose|i: int| 0 <= i < kept.len() && kept[i] == problem;
            assert(lasting[i] == problem);
        }
    }
    if driver_disconnected {
        assert(lasting[lasting.len() - 1] == ReceiveProblem::Driver);
    } else if lasting.contains(ReceiveProblem::Driver) {
        let i = choose|i: int| 0 <= i < lasting.len() && lasting[i] == ReceiveProblem::Driver;
        crate::seqs::lemma_filter_member(problems, keep, i);
    }
}

/// Every cause of a rejoin brings one about, and nothing else does. Where there is a cause and
/// somebody is there to be heard, the call is joined anew as soon as the time for it has come, and
/// ends where three rejoins in a row have not helped. A rejoin after which the affected sources
/// were proved sound does not count any more.
pub proof fn law_every_cause_brings_a_rejoin(
    state: WatchdogView,
    users: Map<(u64, u32), u64>,
    guild: u64,
    input: WatchdogInput,
    found: Seq<(u32, SourceProblem)>,
)
    ensures
        ({
            let (after, action) = polled(state, users, guild, input, found);
            let sound = proved_sound(state, users, guild, input);
            let made = if sound {
                0u32
            } else {
                state.attempts
            };
            let due = sound || input.now >= state.next_attempt_at;
            let cause = has_cause(state, input, found, sound);
            &&& action == (if !cause || !input.listener_present {
                WatchdogAction::Continue
            } else if made >= 3 {
                WatchdogAction::Finalize { attempts: made }
            } else if due {
                WatchdogAction::Recover
            } else {
                WatchdogAction::Continue
            })
            &&& after.attempts == made + (if action == WatchdogAction::Recover {
                1int
            } else {
                0
            })
        }),
{
    let sound = proved_sound(state, users, guild, input);
    let checked = if sound {
        sound_again(state, input.now)
    } else {
        state
    };
    let told = reported(checked, input.now);
    let lasting = persistent(
        source_problems(found),
        told.previous_problems,
        input.driver_disconnected,
    );
    lemma_lasting_problems(found, state.previous_problems, input.driver_disconnected);
    if lasting.len() > 0 {
        assert(lasting.contains(lasting[0]));
        match lasting[0] {
            ReceiveProblem::Source(ssrc, kind) => {
                assert(still_found(state.previous_problems, found, ssrc, kind));
            },
            ReceiveProblem::Driver => {},
        }
    }
    if exists|ssrc: u32, kind: SourceProblem| #[trigger]
        still_found(state.previous_problems, found, ssrc, kind) {
        let (ssrc, kind) = choose|ssrc: u32, kind: SourceProblem| #[trigger]
            still_found(state.previous_problems, found, ssrc, kind);
        assert(lasting.contains(ReceiveProblem::Source(ssrc, kind)));
    }
}

/// What has to bring audio after a rejoin is all that was affected, now and before: any audio at
/// all where the driver was disconnected; the user of an affected source where one is known, and
/// the source itself otherwise. Nothing else is added, and nothing that was owed is dropped until
/// the sources are proved sound.
pub proof fn law_affected_sources_are_remembered(
    state: WatchdogView,
    users: Map<(u64, u32), u64>,
    guild: u64,
    input: WatchdogInput,
    found: Seq<(u32, SourceProblem)>,
    target: VerificationTarget,
)
    ensures
        ({
            let (after, action) = polled(state, users, guild, input, found);
            let sound = proved_sound(state, users, guild, input);
            let owed = !sound && state.recovery_targets.contains(target);
            let affected = match target {
                VerificationTarget::AnyMappedMedia => input.driver_disconnected,
                VerificationTarget::Ssrc(ssrc) => !users.contains_key((guild, ssrc))
                    && exists|kind: SourceProblem| #[trigger]
                    still_found(state.previous_problems, found, ssrc, kind),
                VerificationTarget::User(user) => exists|ssrc: u32, kind: SourceProblem| #[trigger]
                    still_found(state.previous_problems, found, ssrc, kind) && users.contains_key(
                        (guild, ssrc),
                    ) && users[(guild, ssrc)] == user,
            };
            &&& action == WatchdogAction::Recover ==> (after.recovery_targets.contains(target)
                <==> owed || affected)
            &&& action != WatchdogAction::Recover ==> (after.recovery_targets.contains(target)
                <==> owed)
        }),
{
    let (after, action) = polled(state, users, guild, input, found);
    let sound = proved_sound(state, users, guild, input);
    let checked = if sound {
        sound_again(state, input.now)
    } else {
        state
    };
    let told = reported(checked, input.now);
    let lasting = persistent(
        source_problems(found),
        told.previous_problems,
        input.driver_disconnected,
    );
    let targets = targets_of(users, guild, lasting);
    lemma_lasting_problems(found, state.previous_problems, input.driver_disconnected);
    law_merging_is_a_union(told.recovery_targets, targets);
    assert(merged(told.recovery_targets, targets).contains(target)
        <==> told.recovery_targets.contains(target) || targets.contains(target));
    if targets.contains(target) {
        let i = choose|i: int| 0 <= i < targets.len() && targets[i] == target;
        assert(target_of(users, guild, lasting[i]) == target);
        assert(lasting.contains(lasting[i]));
        match lasting[i] {
            ReceiveProblem::Source(ssrc, kind) => {
                assert(still_found(state.previous_problems, found, ssrc, kind));
            },
            ReceiveProblem::Driver => {},
        }
    }
    match target {
        VerificationTarget::AnyMappedMedia => {
            if input.driver_disconnected {
                let i = choose|i: int| 0 <= i < lasting.len() && lasting[i] == ReceiveProblem::Driver;
                assert(targets[i] == target);
            }
        },
        VerificationTarget::Ssrc(ssrc) => {
            if !users.contains_key((guild, ssrc)) && exists|kind: SourceProblem| #[trigger]
                still_found(state.previous_problems, found, ssrc, kind) {
                let kind = choose|kind: SourceProblem| #[trigger]
                    still_found(state.previous_problems, found, ssrc, kind);
                let problem = ReceiveProblem::Source(ssrc, kind);
                assert(lasting.contains(problem));
                let i = choose|i: int| 0 <= i < lasting.len() && lasting[i] == problem;
                assert(targets[i] == target);
            }
        },
        VerificationTarget::User(user) => {
            if exists|ssrc: u32, kind: SourceProblem| #[trigger]
                still_found(state.previous_problems, found, ssrc, kind) && users.contains_key(
                    (guild, ssrc),
                ) && users[(guild, ssrc)] == user {
                let (ssrc, kind) = choose|ssrc: u32, kind: SourceProblem| #[trigger]
                    still_found(state.previous_problems, found, ssrc, kind) && users.contains_key(
                        (guild, ssrc),
                    ) && users[(guild, ssrc)] == user;
                let problem = ReceiveProblem::Source(ssrc, kind);
                assert(lasting.contains(problem));
                let i = choose|i: int| 0 <= i < lasting.len() && lasting[i] == problem;
                assert(targets[i] == target);
            }
        },
    }
}

/// The source has brought three packets that were mapped to a user.
pub open spec fn brings_audio(snapshot: Map<u32, SourceCounts>, ssrc: u32) -> bool {
    snapshot.contains_key(ssrc) && snapshot[ssrc].mapped_packets >= 3
}

/// Audio has come from the affected source: from the very source, from any source of the user, or
/// from any source at all.
pub open spec fn is_heard(
    users: Map<(u64, u32), u64>,
    guild: u64,
    snapshot: Map<u32, SourceCounts>,
    target: VerificationTarget,
) -> bool {
    match target {
        VerificationTarget::AnyMappedMedia => exists|ssrc: u32| #[trigger]
            brings_audio(snapshot, ssrc),
        VerificationTarget::Ssrc(ssrc) => brings_audio(snapshot, ssrc),
        VerificationTarget::User(user) => exists|ssrc: u32|
            {
                &&& #[trigger] brings_audio(snapshot, ssrc)
                &&& users.contains_key((guild, ssrc))
                &&& users[(guild, ssrc)] == user
            },
    }
}

proof fn lemma_heard(
    users: Map<(u64, u32), u64>,
    guild: u64,
    snapshot: Map<u32, SourceCounts>,
    target: VerificationTarget,
)
    ensures
        target_verified(users, guild, snapshot, target) <==> is_heard(
            users,
            guild,
            snapshot,
            target,
        ),
{
    assert forall|ssrc: u32| #[trigger] healthcheck::audio_observed(
        snapshot,
        ssrc,
        VERIFIED_PACKETS,
    ) <==> brings_audio(snapshot, ssrc) by {}
    match target {
        VerificationTarget::AnyMappedMedia => {
            if is_heard(users, guild, snapshot, target) {
                let ssrc = choose|ssrc: u32| #[trigger] brings_audio(snapshot, ssrc);
                assert(healthcheck::audio_observed(snapshot, ssrc, VERIFIED_PACKETS));
            }
        },
        VerificationTarget::Ssrc(ssrc) => {
            assert(healthcheck::audio_observed(snapshot, ssrc, VERIFIED_PACKETS)
                <==> brings_audio(snapshot, ssrc));
        },
        VerificationTarget::User(user) => {
            if is_heard(users, guild, snapshot, target) {
                let ssrc = choose|ssrc: u32|
                    {
                        &&& #[trigger] brings_audio(snapshot, ssrc)
                        &&& users.contains_key((guild, ssrc))
                        &&& users[(guild, ssrc)] == user
                    };
                assert(users.contains_key((guild, ssrc)));
                assert(healthcheck::audio_observed(snapshot, ssrc, VERIFIED_PACKETS));
            }
        },
    }
}

/// The affected sources are proved sound exactly where a rejoin was made, the driver is connected,
/// no rejoin is owed, and every one of them has brought three mapped packets since.
pub proof fn law_soundness_takes_audio_of_every_target(
    state: WatchdogView,
    users: Map<(u64, u32), u64>,
    guild: u64,
    input: WatchdogInput,
)
    ensures
        proved_sound(state, users, guild, input) <==> {
            &&& state.verification is Some
            &&& !input.driver_disconnected
            &&& !input.needs_rejoin
            &&& forall|i: int|
                0 <= i < state.verification.unwrap().targets.len() ==> is_heard(
                    users,
                    guild,
                    input.snapshot@,
                    #[trigger] state.verification.unwrap().targets[i],
                )
        },
{
    if state.verification is Some {
        let targets = state.verification.unwrap().targets;
        assert forall|i: int| 0 <= i < targets.len() implies target_verified(
            users,
            guild,
            input.snapshot@,
            #[trigger] targets[i],
        ) == is_heard(users, guild, input.snapshot@, targets[i]) by {
            lemma_heard(users, guild, input.snapshot@, targets[i]);
        }
    }
}

proof fn lemma_window_start(history: Seq<(Nanos, Map<u32, SourceCounts>)>, now: Nanos) -> (k: int)
    requires
        history.len() > 0,
    ensures
        0 <= k < history.len(),
        windowed(history, now) == history.skip(k),
        k + 1 < history.len() ==> time::elapsed(now, history[k + 1].0) < 30_000_000_000,
        forall|i: int| 1 <= i <= k ==> time::elapsed(now, (#[trigger] history[i]).0)
            >= 30_000_000_000,
    decreases history.len(),
{
    if history.len() > 1 && time::elapsed(now, history[1].0) >= RECEIVE_EVIDENCE_WINDOW {
        let rest = history.drop_first();
        let k = lemma_window_start(rest, now);
        assert(rest.skip(k) =~= history.skip(k + 1));
        assert forall|i: int| 1 <= i <= k + 1 implies time::elapsed(now, (#[trigger] history[i]).0)
            >= 30_000_000_000 by {
            if i > 1 {
                assert(rest[i - 1] == history[i]);
            }
        }
        if k + 1 < rest.len() {
            assert(rest[k + 1] == history[k + 2]);
        }
        k + 1
    } else {
        assert(history.skip(0) =~= history);
        0
    }
}

/// The evidence reaches half a minute back: after a poll the history ends with what was just seen,
/// is an end of what there was, and its first entry is the last one that is at least half a minute
/// old, or the first there ever was.
pub proof fn law_evidence_reaches_half_a_minute_back(
    state: WatchdogView,
    users: Map<(u64, u32), u64>,
    guild: u64,
    input: WatchdogInput,
    found: Seq<(u32, SourceProblem)>,
) -> (k: int)
    ensures
        ({
            let seen = state.history.push((input.now, input.snapshot@));
            let history = polled(state, users, guild, input, found).0.history;
            let age = |i: int|
                if input.now >= seen[i].0 {
                    input.now - seen[i].0
                } else {
                    0
                };
            &&& 0 <= k < seen.len()
            &&& history == seen.skip(k)
            &&& history.last() == (input.now, input.snapshot@)
            &&& k + 1 < seen.len() ==> age(k + 1) < 30_000_000_000
            &&& k > 0 ==> age(k) >= 30_000_000_000
        }),
{
    let seen = state.history.push((input.now, input.snapshot@));
    let k = lemma_window_start(seen, input.now);
    lemma_windowed_last(seen, input.now);
    k
}

/// After a rejoin the next may come after 10 seconds, doubled by every rejoin in a row: 20, 40,
/// 80. A rejoin that worked has to be proved by all that was affected, or by any audio where
/// nothing is known, and begins with fresh evidence; one that failed leaves all as it is; and
/// where the call is gone, the watch ends.
pub proof fn law_rejoins_back_off(
    state: WatchdogView,
    outcome: RecoveryOutcome,
    snapshot: Map<u32, SourceCounts>,
    now: Nanos,
)
    requires
        state.attempts <= 3,
        now + 80_000_000_000 <= u64::MAX,
    ensures
        ({
            let (after, goes_on) = recovered(state, outcome, snapshot, now);
            let wait = if state.attempts == 0 {
                10
            } else if state.attempts == 1 {
                20
            } else if state.attempts == 2 {
                40
            } else {
                80int
            };
            &&& goes_on <==> !(outcome is SessionGone)
            &&& goes_on ==> after.next_attempt_at == now + wait * 1_000_000_000
            &&& after.attempts == state.attempts
            &&& after.recovery_targets == state.recovery_targets
            &&& outcome is Failed ==> {
                &&& after.history == state.history
                &&& after.previous_problems == state.previous_problems
                &&& after.verification == state.verification
            }
            &&& outcome is Rejoined ==> {
                &&& after.history == seq![(now, snapshot)]
                &&& after.previous_problems.len() == 0
                &&& after.verification matches Some(pending) && pending.started == now
                    && !pending.reported_unverified && pending.targets == (
                if state.recovery_targets.len() == 0 {
                    seq![VerificationTarget::AnyMappedMedia]
                } else {
                    state.recovery_targets
                })
            }
        }),
{
    assert(10u64 << 0u32 == 10) by (bit_vector);
    assert(10u64 << 1u32 == 20) by (bit_vector);
    assert(10u64 << 2u32 == 40) by (bit_vector);
    assert(10u64 << 3u32 == 80) by (bit_vector);
}

/// A rejoin that is not proved to have worked is reported once, a quarter of a minute after it.
pub proof fn law_unproved_rejoin_is_reported_once(
    state: WatchdogView,
    users: Map<(u64, u32), u64>,
    guild: u64,
    input: WatchdogInput,
    found: Seq<(u32, SourceProblem)>,
)
    ensures
        report_due(state, input.now) <==> state.verification is Some
            && !state.verification.unwrap().reported_unverified && input.now
            - state.verification.unwrap().started >= 15_000_000_000,
        !proved_sound(state, users, guild, input) && report_due(state, input.now) ==> {
            let after = polled(state, users, guild, input, found).0;
            &&& !report_due(after, input.now)
            &&& after.verification is Some
            &&& after.verification.unwrap().reported_unverified
        },
        proved_sound(state, users, guild, input) ==> polled(
            state,
            users,
            guild,
            input,
            found,
        ).0.verification is None,
        polled(state, users, guild, input, found).0.previous_problems == source_problems(found),
        source_problems(found).len() == found.len(),
        forall|i: int|
            0 <= i < found.len() ==> #[trigger] source_problems(found)[i] == (
            ReceiveProblem::Source(found[i].0, found[i].1)),
{
}

/// Where the driver has lost its connection, or a rejoin is owed, and somebody is there to be heard,
/// the call is joined anew when the time for it has come, whatever the sources look like, and ends
/// after three rejoins. Where the driver was the trouble, any audio will prove the rejoin.
pub proof fn law_lost_driver_brings_a_rejoin(
    state: WatchdogView,
    users: Map<(u64, u32), u64>,
    guild: u64,
    input: WatchdogInput,
    found: Seq<(u32, SourceProblem)>,
)
    ensures
        ({
            let (after, action) = polled(state, users, guild, input, found);
            &&& (input.driver_disconnected || input.needs_rejoin) && input.listener_present ==> {
                &&& state.attempts >= 3 ==> action == (WatchdogAction::Finalize {
                    attempts: state.attempts,
                })
                &&& state.attempts < 3 && input.now >= state.next_attempt_at ==> action
                    == WatchdogAction::Recover && after.attempts == state.attempts + 1
                &&& state.attempts < 3 && input.now < state.next_attempt_at ==> action
                    == WatchdogAction::Continue
                &&& action == WatchdogAction::Recover && input.driver_disconnected
                    ==> after.recovery_targets.contains(VerificationTarget::AnyMappedMedia)
            }
            &&& !input.listener_present ==> action == WatchdogAction::Continue
        }),
{
    law_every_cause_brings_a_rejoin(state, users, guild, input, found);
    law_affected_sources_are_remembered(
        state,
        users,
        guild,
        input,
        found,
        VerificationTarget::AnyMappedMedia,
    );
}

/// A problem that a source has at two polls in a row brings a rejoin about, when the time for it has
/// come and fewer than three were made; and the source, or its user, is remembered. One that is seen
/// for the first time does not, by itself.
pub proof fn law_lasting_problem_brings_a_rejoin(
    state: WatchdogView,
    users: Map<(u64, u32), u64>,
    guild: u64,
    input: WatchdogInput,
    found: Seq<(u32, SourceProblem)>,
    ssrc: u32,
    kind: SourceProblem,
)
    requires
        input.listener_present,
        state.verification is None,
        found.contains((ssrc, kind)),
    ensures
        ({
            let (after, action) = polled(state, users, guild, input, found);
            let lasts = state.previous_problems.contains(ReceiveProblem::Source(ssrc, kind));
            &&& lasts && state.attempts >= 3 ==> action is Finalize
            &&& lasts && state.attempts < 3 && input.now >= state.next_attempt_at ==> {
                &&& action == WatchdogAction::Recover
                &&& after.recovery_targets.contains(
                    if users.contains_key((guild, ssrc)) {
                        VerificationTarget::User(users[(guild, ssrc)])
                    } else {
                        VerificationTarget::Ssrc(ssrc)
                    },
                )
            }
            &&& state.previous_problems.len() == 0 && !input.driver_disconnected
                && !input.needs_rejoin ==> action == WatchdogAction::Continue
            &&& after.previous_problems.contains(ReceiveProblem::Source(ssrc, kind))
        }),
{
    law_every_cause_brings_a_rejoin(state, users, guild, input, found);
    if state.previous_problems.contains(ReceiveProblem::Source(ssrc, kind)) {
        assert(still_found(state.previous_problems, found, ssrc, kind));
        law_affected_sources_are_remembered(
            state,
            users,
            guild,
            input,
            found,
            if users.contains_key((guild, ssrc)) {
                VerificationTarget::User(users[(guild, ssrc)])
            } else {
                VerificationTarget::Ssrc(ssrc)
            },
        );
    }
    law_unproved_rejoin_is_reported_once(state, users, guild, input, found);
    let i = choose|i: int| 0 <= i < found.len() && found[i] == (ssrc, kind);
    assert(source_problems(found)[i] == ReceiveProblem::Source(ssrc, kind));
}

/// The sources are judged by how far they have come since the first entry of the evidence.
pub proof fn law_sources_are_judged_by_the_evidence(
    state: WatchdogView,
    users: Map<(u64, u32), u64>,
    guild: u64,
    input: WatchdogInput,
    found: Seq<(u32, SourceProblem)>,
)
    ensures
        found_over_window(state, input, found) <==> healthcheck::lists_problems(
            found,
            polled(state, users, guild, input, found).0.history[0].1,
            input.snapshot@,
            input.now,
        ),
{
}

} // verus!
