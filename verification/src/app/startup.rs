//! Watches over a call that has just begun, and over one that runs: when voice receive is set up
//! anew.
use vstd::prelude::*;

use crate::text;
use crate::time;
use crate::time::Nanos;

verus! {

broadcast use vstd::seq::group_seq_axioms;

/// The most times that receive is set up anew at the start of a call.
pub const STARTUP_RECEIVE_RECOVERY_MAX_ATTEMPTS: u8 = 3;

/// The time without decoded audio after which a running call counts as stalled.
pub const STEADY_STATE_NO_PROGRESS_TIMEOUT: u64 = 60_000_000_000;

/// What is known of a call when the watch looks at it.
pub struct StartupInput {
    pub runtime_present: bool,
    pub session_active: bool,
    pub decoded: usize,
    pub decode_failures: usize,
    pub unmapped: usize,
    pub listener_present: bool,
    pub recovery_free: bool,
    pub attempt: u8,
}

/// Why the watch ends without doing anything.
#[derive(Clone, Copy, Debug, PartialEq, Eq, Structural)]
pub enum StartupExit {
    MissingRuntime,
    NoSession,
    Healthy,
    Idle,
    NobodyThere,
    AlreadyRecovering,
}

/// What the watch does.
#[derive(Clone, Copy, Debug, PartialEq, Eq, Structural)]
pub enum StartupAction {
    /// Nothing more.
    Exit(StartupExit),
    /// End the call.
    Finalize,
    /// Set receive up anew, and look again as the given attempt.
    Recover { next_attempt: u8 },
}

/// The attempt after this one, as far as the counter reaches.
pub open spec fn next_attempt(attempt: u8) -> u8 {
    if attempt == u8::MAX {
        attempt
    } else {
        (attempt + 1) as u8
    }
}

/// What the watch does. The first recovery takes failures to decode or to map audio; once
/// recovery has begun it goes on without fresh ones, as broken receive may bring nothing at all.
pub open spec fn startup_action(input: StartupInput) -> StartupAction {
    if !input.runtime_present {
        StartupAction::Exit(StartupExit::MissingRuntime)
    } else if !input.session_active {
        StartupAction::Exit(StartupExit::NoSession)
    } else if input.decoded > 0 {
        StartupAction::Exit(StartupExit::Healthy)
    } else if input.decode_failures == 0 && input.unmapped == 0 && input.attempt == 0 {
        StartupAction::Exit(StartupExit::Idle)
    } else if !input.listener_present {
        StartupAction::Exit(StartupExit::NobodyThere)
    } else if input.attempt >= STARTUP_RECEIVE_RECOVERY_MAX_ATTEMPTS {
        StartupAction::Finalize
    } else if !input.recovery_free {
        StartupAction::Exit(StartupExit::AlreadyRecovering)
    } else {
        StartupAction::Recover { next_attempt: next_attempt(input.attempt) }
    }
}

/// What the watch over the start of a call does.
pub fn startup_receive_watchdog(input: &StartupInput) -> (r: StartupAction)
    ensures
        r == startup_action(*input),
{
    if !input.runtime_present {
        return StartupAction::Exit(StartupExit::MissingRuntime);
    }
    if !input.session_active {
        return StartupAction::Exit(StartupExit::NoSession);
    }
    if input.decoded > 0 {
        return StartupAction::Exit(StartupExit::Healthy);
    }
    let receive_errors: usize = input.decode_failures.saturating_add(input.unmapped);
    if receive_errors == 0 && input.attempt == 0 {
        return StartupAction::Exit(StartupExit::Idle);
    }
    if !input.listener_present {
        return StartupAction::Exit(StartupExit::NobodyThere);
    }
    if input.attempt >= STARTUP_RECEIVE_RECOVERY_MAX_ATTEMPTS {
        return StartupAction::Finalize;
    }
    if !input.recovery_free {
        return StartupAction::Exit(StartupExit::AlreadyRecovering);
    }
    StartupAction::Recover { next_attempt: input.attempt.saturating_add(1) }
}

/// Recovery at the start of a call comes to an end: each attempt follows the one before it, and
/// there are three at most.
pub proof fn law_startup_recovery_ends(input: StartupInput)
    ensures
        startup_action(input) matches StartupAction::Recover { next_attempt } ==> input.attempt
            < next_attempt <= STARTUP_RECEIVE_RECOVERY_MAX_ATTEMPTS,
        startup_action(input) is Finalize ==> input.attempt
            >= STARTUP_RECEIVE_RECOVERY_MAX_ATTEMPTS,
        startup_action(input) is Recover && input.attempt == 0 ==> input.decode_failures > 0
            || input.unmapped > 0,
        startup_action(input) is Recover || startup_action(input) is Finalize ==> input.decoded
            == 0,
{
}

/// What is said when receive is set up anew.
pub open spec fn recovery_text(attempt: u8) -> Seq<char> {
    "Audio decode/mapping failures observed after join; reinitializing voice receive (attempt "@
        + text::decimal((attempt + 1) as nat) + "/3)..."@
}

/// What is said when receive is set up anew.
pub fn startup_recovery_message(attempt: u8) -> (r: String)
    requires
        attempt < STARTUP_RECEIVE_RECOVERY_MAX_ATTEMPTS,
    ensures
        r@ == recovery_text(attempt),
{
    let mut out = String::new();
    out.append(
        "Audio decode/mapping failures observed after join; reinitializing voice receive (attempt ",
    );
    text::push_decimal(&mut out, attempt as u64 + 1);
    out.append("/3)...");
    assert(out@ =~= recovery_text(attempt));
    out
}

// ---------------------------------------------------------------------------
// A running call
// ---------------------------------------------------------------------------

/// The watch over a running call: the decoded frames when it last saw progress, and when that
/// was.
#[derive(Clone, Copy)]
pub struct SteadyWatch {
    pub last_decode_activity: usize,
    pub last_progress: Nanos,
}

/// What the watch over a running call does.
#[derive(Clone, Copy, Debug, PartialEq, Eq, Structural)]
pub enum SteadyAction {
    Exit,
    Continue,
    Recover,
}

/// The watch and what it does, after a look at the call. Receive counts as stalled when users are
/// there and no audio was decoded for a minute.
pub open spec fn steady_after(
    watch: SteadyWatch,
    session_active: bool,
    listener_present: bool,
    activity: usize,
    now: Nanos,
) -> (SteadyWatch, SteadyAction) {
    if !session_active {
        (watch, SteadyAction::Exit)
    } else if !listener_present {
        (SteadyWatch { last_progress: now, ..watch }, SteadyAction::Continue)
    } else if activity > watch.last_decode_activity {
        (
            SteadyWatch { last_decode_activity: activity, last_progress: now },
            SteadyAction::Continue,
        )
    } else if time::elapsed(now, watch.last_progress) < STEADY_STATE_NO_PROGRESS_TIMEOUT {
        (watch, SteadyAction::Continue)
    } else {
        (watch, SteadyAction::Recover)
    }
}

impl SteadyWatch {
    /// A watch that begins now.
    pub fn new(now: Nanos) -> (r: Self)
        ensures
            r == (SteadyWatch { last_decode_activity: 0, last_progress: now }),
    {
        SteadyWatch { last_decode_activity: 0, last_progress: now }
    }

    /// Looks at the call.
    pub fn poll(
        &mut self,
        session_active: bool,
        listener_present: bool,
        activity: usize,
        now: Nanos,
    ) -> (r: SteadyAction)
        ensures
            (*final(self), r) == steady_after(
                *old(self),
                session_active,
                listener_present,
                activity,
                now,
            ),
    {
        if !session_active {
            return SteadyAction::Exit;
        }
        if !listener_present {
            self.last_progress = now;
            return SteadyAction::Continue;
        }
        if activity > self.last_decode_activity {
            self.last_decode_activity = activity;
            self.last_progress = now;
            return SteadyAction::Continue;
        }
        if time::saturating_elapsed(now, self.last_progress) < STEADY_STATE_NO_PROGRESS_TIMEOUT {
            return SteadyAction::Continue;
        }
        SteadyAction::Recover
    }

    /// Begins anew once receive was set up anew.
    pub fn recovered(&mut self, activity: usize, now: Nanos)
        ensures
            *final(self) == (SteadyWatch { last_decode_activity: activity, last_progress: now }),
    {
        self.last_decode_activity = activity;
        self.last_progress = now;
    }
}

/// A call in which audio is decoded, or in which nobody is, is never set up anew.
pub proof fn law_progress_prevents_recovery(
    watch: SteadyWatch,
    session_active: bool,
    listener_present: bool,
    activity: usize,
    now: Nanos,
)
    requires
        activity > watch.last_decode_activity || !listener_present || time::elapsed(
            now,
            watch.last_progress,
        ) < STEADY_STATE_NO_PROGRESS_TIMEOUT,
    ensures
        steady_after(watch, session_active, listener_present, activity, now).1
            != SteadyAction::Recover,
{
}

/// Right after a call begins, receiving is set up anew exactly where somebody is there to be heard,
/// nothing was decoded, and there was something to decode, or it was set up anew before; at most
/// three times, after which the call ends.
pub proof fn law_startup_is_watched(input: StartupInput)
    ensures
        ({
            let troubled = input.runtime_present && input.session_active && input.decoded == 0 && (
            input.decode_failures > 0 || input.unmapped > 0 || input.attempt > 0)
                && input.listener_present;
            let action = startup_action(input);
            &&& action is Finalize <==> troubled && input.attempt >= 3
            &&& action is Recover <==> troubled && input.attempt < 3 && input.recovery_free
            &&& action matches StartupAction::Recover { next_attempt } ==> next_attempt
                == input.attempt + 1
            &&& action matches StartupAction::Exit(reason) ==> {
                &&& reason is MissingRuntime <==> !input.runtime_present
                &&& reason is NoSession <==> input.runtime_present && !input.session_active
                &&& reason is Healthy <==> input.runtime_present && input.session_active
                    && input.decoded > 0
                &&& reason is AlreadyRecovering <==> troubled && input.attempt < 3
                    && !input.recovery_free
                &&& reason is NobodyThere ==> !input.listener_present
                &&& reason is Idle ==> input.decode_failures == 0 && input.unmapped == 0
                    && input.attempt == 0
            }
        }),
{
}

/// In a running call, receiving is set up anew exactly where somebody is there to be heard and
/// nothing was decoded for a minute. More being decoded, and nobody being there, start the minute
/// afresh; nothing else changes it.
pub proof fn law_a_minute_without_progress(
    watch: SteadyWatch,
    session_active: bool,
    listener_present: bool,
    activity: usize,
    now: Nanos,
)
    ensures
        ({
            let (after, action) = steady_after(
                watch,
                session_active,
                listener_present,
                activity,
                now,
            );
            let more = activity > watch.last_decode_activity;
            &&& action is Exit <==> !session_active
            &&& action is Recover <==> session_active && listener_present && !more && now
                >= watch.last_progress + 60_000_000_000
            &&& after.last_progress == (if session_active && (!listener_present || more) {
                now
            } else {
                watch.last_progress
            })
            &&& after.last_decode_activity == (if session_active && listener_present && more {
                activity
            } else {
                watch.last_decode_activity
            })
        }),
{
}

/// The message about an attempt counts it from one, of three.
pub proof fn law_attempts_are_counted_from_one(attempt: u8)
    requires
        attempt < 255,
    ensures
        recovery_text(attempt)
            == "Audio decode/mapping failures observed after join; reinitializing voice receive (attempt "@
            + text::decimal((attempt + 1) as nat) + "/3)..."@,
{
}

} // verus!
