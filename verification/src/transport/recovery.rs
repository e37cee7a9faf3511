//! What happens after a connection is lost, and how long to wait before the next attempt.
use super::input;
use super::input::{InputView, ReliableInputEvent, ReliableInputReceiver};
use crate::counting;
use crate::time::Duration;
use vstd::prelude::*;

verus! {

#[derive(Clone, Copy, Debug, Eq, PartialEq, Structural)]
pub struct ReconnectPolicy {
    pub initial_delay: Duration,
    pub maximum_delay: Duration,
    pub maximum_attempts: u32,
    pub jitter_percent: u8,
}

impl Default for ReconnectPolicy {
    fn default() -> (policy: ReconnectPolicy)
        ensures
            policy == (ReconnectPolicy {
                initial_delay: Duration::of_millis(250),
                maximum_delay: Duration::of_secs(8),
                maximum_attempts: 8,
                jitter_percent: 20,
            }),
    {
        ReconnectPolicy {
            initial_delay: Duration::from_millis(250),
            maximum_delay: Duration::from_secs(8),
            maximum_attempts: 8,
            jitter_percent: 20,
        }
    }
}

#[derive(Clone, Copy, Debug, Eq, PartialEq, Structural)]
pub enum RecoveryError {
    InvalidPolicy,
    AttemptsExhausted,
}

#[derive(Debug, Eq, PartialEq)]
pub struct DisconnectActions {
    pub input_releases: Vec<ReliableInputEvent>,
    pub discard_video_and_audio: bool,
    pub request_fresh_keyframe: bool,
    pub reauthenticate: bool,
    pub renegotiate_capabilities: bool,
    pub resume_files_after_integrity_check: bool,
}

/// Two to the power of `exponent`.
pub open spec fn doublings(exponent: nat) -> nat
    decreases exponent,
{
    if exponent == 0 {
        1
    } else {
        2 * doublings((exponent - 1) as nat)
    }
}

impl ReconnectPolicy {
    pub open spec fn is_valid(self) -> bool {
        self.initial_delay.nanos != 0 && self.maximum_delay.nanos >= self.initial_delay.nanos
            && self.maximum_attempts != 0 && self.jitter_percent <= 50
    }

    /// The longest delay in milliseconds, without jitter.
    pub open spec fn maximum_millis(self) -> nat {
        (self.maximum_delay.nanos / 1_000_000) as nat
    }

    /// The delay in milliseconds, without jitter, after so many attempts: the initial delay,
    /// doubled with each attempt but at most 31 times, up to the longest delay.
    pub open spec fn base_millis(self, attempts: u32) -> nat {
        let grown = (self.initial_delay.nanos / 1_000_000) as nat * doublings(
            if attempts < 31 {
                attempts as nat
            } else {
                31
            },
        );
        if grown < self.maximum_millis() {
            grown
        } else {
            self.maximum_millis()
        }
    }

    /// By how many milliseconds a delay may differ from the one without jitter.
    pub open spec fn jitter_millis(self, attempts: u32) -> nat {
        self.base_millis(attempts) * self.jitter_percent as nat / 100
    }

    /// The delay in milliseconds after so many attempts, for a random sample.
    pub open spec fn delay_millis(self, attempts: u32, jitter_sample: u64) -> int {
        self.base_millis(attempts) + jitter_sample as nat % (2 * self.jitter_millis(attempts) + 1)
            - self.jitter_millis(attempts)
    }
}

/// Counts the attempts to reconnect and the connections that there were.
pub struct ReconnectState {
    policy: ReconnectPolicy,
    attempts: u32,
    generation: u64,
}

/// What a reconnect state holds.
pub struct ReconnectView {
    pub policy: ReconnectPolicy,
    pub attempts: u32,
    pub generation: u64,
}

impl View for ReconnectState {
    type V = ReconnectView;

    closed spec fn view(&self) -> ReconnectView {
        ReconnectView {
            policy: self.policy,
            attempts: self.attempts,
            generation: self.generation,
        }
    }
}

/// A power of two with a small exponent is small.
proof fn lemma_doublings_bound(exponent: nat)
    requires
        exponent <= 31,
    ensures
        1 <= doublings(exponent) <= 0x8000_0000,
{
    reveal_with_fuel(doublings, 32);
}

/// Two to the power of `exponent`.
fn power_of_two(exponent: u32) -> (power: u128)
    requires
        exponent <= 31,
    ensures
        power == doublings(exponent as nat),
{
    let mut power: u128 = 1;
    let mut done: u32 = 0;
    while done < exponent
        invariant
            done <= exponent <= 31,
            power == doublings(done as nat),
        decreases exponent - done,
    {
        proof {
            lemma_doublings_bound(done as nat);
        }
        power = power * 2;
        done = done + 1;
    }
    power
}

impl ReconnectState {
    #[verifier::type_invariant]
    spec fn within_policy(self) -> bool {
        self.policy.is_valid()
    }

    pub fn new(policy: ReconnectPolicy) -> (result: Result<ReconnectState, RecoveryError>)
        ensures
            if policy.is_valid() {
                result matches Ok(state) && state@ == (ReconnectView {
                    policy,
                    attempts: 0,
                    generation: 1,
                })
            } else {
                result == Err::<ReconnectState, _>(RecoveryError::InvalidPolicy)
            },
    {
        if policy.initial_delay.nanos == 0 || policy.maximum_delay.nanos
            < policy.initial_delay.nanos || policy.maximum_attempts == 0 || policy.jitter_percent
            > 50 {
            return Err(RecoveryError::InvalidPolicy);
        }
        Ok(ReconnectState { policy, attempts: 0, generation: 1 })
    }

    /// What a lost connection calls for: everything that is pressed is released, and nothing
    /// of the old connection is relied on.
    pub fn on_disconnect(&mut self, input: &mut ReliableInputReceiver) -> (actions:
        DisconnectActions)
        ensures
            final(self)@ == (ReconnectView {
                generation: if old(self)@.generation == u64::MAX {
                    u64::MAX
                } else {
                    (old(self)@.generation + 1) as u64
                },
                ..old(self)@
            }),
            final(input)@ == InputView::fresh(),
            exists|keys: Seq<u32>| #[trigger]
                counting::lists_members_in_order(keys, old(input)@.pressed_keys)
                    && actions.input_releases@ == keys.map_values(
                    |key: u32| input::key_release(key),
                ) + input::button_releases(old(input)@.pressed_buttons),
            actions.discard_video_and_audio,
            actions.request_fresh_keyframe,
            actions.reauthenticate,
            actions.renegotiate_capabilities,
            actions.resume_files_after_integrity_check,
    {
        proof {
            use_type_invariant(&*self);
        }
        self.generation = self.generation.saturating_add(1);
        DisconnectActions {
            input_releases: input.release_all(),
            discard_video_and_audio: true,
            request_fresh_keyframe: true,
            reauthenticate: true,
            renegotiate_capabilities: true,
            resume_files_after_integrity_check: true,
        }
    }

    /// The delay in milliseconds, without jitter, before the next attempt.
    fn base_delay(&self) -> (millis: u128)
        ensures
            millis == self@.policy.base_millis(self@.attempts),
    {
        let exponent: u32 = if self.attempts < 31 {
            self.attempts
        } else {
            31
        };
        let power: u128 = power_of_two(exponent);
        let initial: u128 = self.policy.initial_delay.as_millis();
        let maximum: u128 = self.policy.maximum_delay.as_millis();
        match initial.checked_mul(power) {
            Some(grown) => if grown < maximum {
                grown
            } else {
                maximum
            },
            None => maximum,
        }
    }

    /// How long to wait before the next attempt, unless there were enough.
    pub fn next_delay(&mut self, jitter_sample: u64) -> (result: Result<Duration, RecoveryError>)
        ensures
            if old(self)@.attempts >= old(self)@.policy.maximum_attempts {
                &&& result == Err::<Duration, _>(RecoveryError::AttemptsExhausted)
                &&& final(self)@ == old(self)@
            } else {
                let millis = old(self)@.policy.delay_millis(old(self)@.attempts, jitter_sample);
                &&& result matches Ok(delay)
                &&& delay.nanos == if millis > u64::MAX {
                    u64::MAX * 1_000_000
                } else {
                    millis * 1_000_000
                }
                &&& final(self)@ == (ReconnectView {
                    attempts: (old(self)@.attempts + 1) as u32,
                    ..old(self)@
                })
            },
    {
        proof {
            use_type_invariant(&*self);
        }
        if self.attempts >= self.policy.maximum_attempts {
            return Err(RecoveryError::AttemptsExhausted);
        }
        let base_millis: u128 = self.base_delay();
        let jitter_percent: u128 = self.policy.jitter_percent as u128;
        proof {
            assert(base_millis * jitter_percent <= base_millis * 50) by (nonlinear_arith)
                requires
                    jitter_percent <= 50,
            ;
            assert(base_millis <= u128::MAX / 1_000_000);
        }
        self.attempts = self.attempts + 1;
        let range: u128 = base_millis * jitter_percent / 100;
        let width: u128 = 2 * range + 1;
        let jittered: u128 = base_millis - range + jitter_sample as u128 % width;
        Ok(
            Duration::from_millis(
                if jittered > u64::MAX as u128 {
                    u64::MAX
                } else {
                    jittered as u64
                },
            ),
        )
    }

    /// An attempt that the user asks for is made at once.
    pub fn manual_delay(&self) -> (delay: Duration)
        ensures
            delay.nanos == 0,
    {
        Duration { nanos: 0 }
    }

    /// A connection that stands makes all attempts available again.
    pub fn on_connected(&mut self)
        ensures
            final(self)@ == (ReconnectView { attempts: 0, ..old(self)@ }),
    {
        proof {
            use_type_invariant(&*self);
        }
        self.attempts = 0;
    }

    pub fn generation(&self) -> (generation: u64)
        ensures
            generation == self@.generation,
    {
        self.generation
    }
}

/// No delay is longer than the longest one by more than its share of jitter, and none
/// is negative.
pub proof fn lemma_backoff_is_bounded(policy: ReconnectPolicy, attempts: u32, jitter_sample: u64)
    requires
        policy.is_valid(),
    ensures
        policy.base_millis(attempts) <= policy.maximum_millis(),
        policy.jitter_millis(attempts) * 2 <= policy.base_millis(attempts),
        0 <= policy.delay_millis(attempts, jitter_sample) <= policy.maximum_millis()
            + policy.jitter_millis(attempts),
{
    let base = policy.base_millis(attempts);
    let share = policy.jitter_percent as nat;
    assert(base * share <= base * 50) by (nonlinear_arith)
        requires
            share <= 50,
    ;
}

/// Without jitter, no attempt waits less than the one before it.
pub proof fn lemma_backoff_grows(policy: ReconnectPolicy, attempts: u32)
    requires
        policy.is_valid(),
        attempts < u32::MAX,
    ensures
        policy.base_millis(attempts) <= policy.base_millis((attempts + 1) as u32),
{
    if attempts < 31 {
        let initial = (policy.initial_delay.nanos / 1_000_000) as nat;
        let power = doublings(attempts as nat);
        assert(doublings((attempts + 1) as nat) == 2 * power);
        assert(initial * power <= initial * (2 * power)) by (nonlinear_arith);
    }
}

/// Each attempt waits twice as long as the one before, up to the longest delay: without jitter
/// the first delay is the initial one, and from one attempt to the next it doubles.
pub proof fn lemma_delay_doubles(policy: ReconnectPolicy, attempts: u32)
    requires
        policy.is_valid(),
        attempts < 31,
    ensures
        policy.base_millis(0) == policy.initial_delay.nanos / 1_000_000,
        2 * policy.base_millis(attempts) <= policy.maximum_delay.nanos / 1_000_000
            ==> policy.base_millis((attempts + 1) as u32) == 2 * policy.base_millis(attempts),
        2 * policy.base_millis(attempts) > policy.maximum_delay.nanos / 1_000_000
            ==> policy.base_millis((attempts + 1) as u32) == policy.maximum_delay.nanos
            / 1_000_000,
{
    reveal_with_fuel(doublings, 2);
    let first = (policy.initial_delay.nanos / 1_000_000) as nat;
    let power = doublings(attempts as nat);
    assert(doublings((attempts + 1) as nat) == 2 * power);
    assert(first * (2 * power) == 2 * (first * power)) by (nonlinear_arith);
    assert(first * 1 == first) by (nonlinear_arith);
    assert(first <= policy.maximum_millis()) by {
        assert(policy.initial_delay.nanos / 1_000_000 <= policy.maximum_delay.nanos / 1_000_000);
    }
}

/// The jitter shifts a delay by at most its share, either way, and every shift comes from some
/// sample.
pub proof fn lemma_jitter_is_a_share(policy: ReconnectPolicy, attempts: u32, sample: u64)
    requires
        policy.is_valid(),
    ensures
        ({
            let base = policy.base_millis(attempts);
            let delay = policy.delay_millis(attempts, sample);
            let share = base * policy.jitter_percent as nat / 100;
            &&& base - share <= delay <= base + share
            &&& sample <= 2 * share ==> delay == base - share + sample
            &&& policy.jitter_percent == 0 ==> delay == base
        }),
{
    let base = policy.base_millis(attempts);
    let share = policy.jitter_millis(attempts);
    if policy.jitter_percent == 0 {
        assert(base * 0 == 0) by (nonlinear_arith);
    }
    vstd::arithmetic::div_mod::lemma_mod_bound(sample as int, (2 * share + 1) as int);
    if sample <= 2 * share {
        vstd::arithmetic::div_mod::lemma_small_mod(sample as nat, 2 * share + 1);
    }
}

/// A policy makes sense exactly where it waits at all, not longer first than last, makes at
/// least one attempt, and shifts by at most half.
pub proof fn lemma_valid_policies(policy: ReconnectPolicy)
    ensures
        policy.is_valid() <==> 0 < policy.initial_delay.nanos <= policy.maximum_delay.nanos
            && policy.maximum_attempts >= 1 && policy.jitter_percent <= 50,
{
}

} // verus!
