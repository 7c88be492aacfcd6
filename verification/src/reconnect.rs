//! Reconnection back-off shared by the WebSocket client.

use vstd::prelude::*;

verus! {

/// Settings of the exponential reconnection back-off.
#[derive(Debug)]
pub struct ReconnectConfig {
    pub initial_delay_secs: u64,
    pub max_delay_secs: u64,
    pub stale_timeout_secs: u64,
    pub connect_timeout_secs: u64,
    pub max_retries: Option<u32>,
}

impl Clone for ReconnectConfig {
    fn clone(&self) -> (res: Self)
        ensures
            res == *self,
    {
        ReconnectConfig {
            initial_delay_secs: self.initial_delay_secs,
            max_delay_secs: self.max_delay_secs,
            stale_timeout_secs: self.stale_timeout_secs,
            connect_timeout_secs: self.connect_timeout_secs,
            max_retries: self.max_retries,
        }
    }
}

impl Default for ReconnectConfig {
    fn default() -> (res: Self)
        ensures
            res.initial_delay_secs == 5,
            res.max_delay_secs == 60,
            res.stale_timeout_secs == 60,
            res.connect_timeout_secs == 30,
            res.max_retries is None,
    {
        ReconnectConfig {
            initial_delay_secs: 5,
            max_delay_secs: 60,
            stale_timeout_secs: 60,
            connect_timeout_secs: 30,
            max_retries: None,
        }
    }
}

/// Back-off state of one connection loop.
#[derive(Debug)]
pub struct ReconnectState {
    current_delay: u64,
    reconnect_count: u64,
    consecutive_failures: u32,
}

impl ReconnectState {
    /// Delay (seconds) that the next failure waits.
    pub closed spec fn current_delay(&self) -> u64 {
        self.current_delay
    }

    /// Failures since the last reset.
    pub closed spec fn failures(&self) -> u32 {
        self.consecutive_failures
    }

    /// All failures ever counted by this state.
    pub closed spec fn total(&self) -> u64 {
        self.reconnect_count
    }

    /// Whether the retry budget still allows a reconnection after `failures` failures.
    pub open spec fn allows_retry(config: ReconnectConfig, failures: int) -> bool {
        match config.max_retries {
            Some(max) => failures <= max,
            None => true,
        }
    }

    /// The delay that follows `delay`: doubled, but never above the configured maximum.
    pub open spec fn following_delay(config: ReconnectConfig, delay: u64) -> u64 {
        if 2 * delay <= config.max_delay_secs {
            (2 * delay) as u64
        } else {
            config.max_delay_secs
        }
    }

    /// Whether `next_delay` can run on this state without an integer overflow: the
    /// failure count has room, and the delay can be doubled when a retry is allowed.
    pub open spec fn can_advance(&self, config: ReconnectConfig) -> bool {
        &&& self.failures() < u32::MAX
        &&& Self::allows_retry(config, self.failures() + 1) ==> 2 * self.current_delay() <= u64::MAX
    }

    /// The total after one more failure; the count wraps around at `u64::MAX`.
    pub open spec fn counted(total: u64) -> u64 {
        if total == u64::MAX {
            0
        } else {
            (total + 1) as u64
        }
    }

    /// One call of `next_delay` with `config` takes `before` to `after` and answers `res`.
    pub open spec fn next_delay_step(
        before: ReconnectState,
        config: ReconnectConfig,
        after: ReconnectState,
        res: Option<u64>,
    ) -> bool {
        &&& after.failures() == before.failures() + 1
        &&& after.total() == Self::counted(before.total())
        &&& Self::allows_retry(config, before.failures() + 1) ==> {
            &&& res == Some(before.current_delay())
            &&& after.current_delay() == Self::following_delay(config, before.current_delay())
        }
        &&& !Self::allows_retry(config, before.failures() + 1) ==> {
            &&& res is None
            &&& after.current_delay() == before.current_delay()
        }
    }

    /// One call of `reset` with `config` takes `before` to `after`.
    pub open spec fn reset_step(
        before: ReconnectState,
        config: ReconnectConfig,
        after: ReconnectState,
    ) -> bool {
        &&& after.current_delay() == config.initial_delay_secs
        &&& after.failures() == 0
        &&& after.total() == before.total()
    }

    pub fn new(config: &ReconnectConfig) -> (res: Self)
        ensures
            res.current_delay() == config.initial_delay_secs,
            res.failures() == 0,
            res.total() == 0,
    {
        ReconnectState {
            current_delay: config.initial_delay_secs,
            reconnect_count: 0,
            consecutive_failures: 0,
        }
    }

    /// Back to the initial delay after a connection that closed gracefully.
    pub fn reset(&mut self, config: &ReconnectConfig)
        ensures
            Self::reset_step(*old(self), *config, *final(self)),
            final(self).current_delay() == config.initial_delay_secs,
            final(self).failures() == 0,
            final(self).total() == old(self).total(),
    {
        self.current_delay = config.initial_delay_secs;
        self.consecutive_failures = 0;
    }

    /// Counts one failure and answers how long to wait before the next attempt,
    /// or `None` when the retry budget is spent.
    pub fn next_delay(&mut self, config: &ReconnectConfig) -> (res: Option<u64>)
        requires
            old(self).can_advance(*config),
        ensures
            Self::next_delay_step(*old(self), *config, *final(self), res),
    {
        self.consecutive_failures = self.consecutive_failures + 1;
        self.reconnect_count = if self.reconnect_count == u64::MAX {
            0
        } else {
            self.reconnect_count + 1
        };
        if let Some(max) = config.max_retries {
            if self.consecutive_failures > max {
                return None;
            }
        }
        let delay = self.current_delay;
        let doubled = self.current_delay * 2;
        self.current_delay = if doubled < config.max_delay_secs {
            doubled
        } else {
            config.max_delay_secs
        };
        Some(delay)
    }

    /// Whether `next_delay` may run without an integer overflow.
    pub fn next_delay_fits(&self, config: &ReconnectConfig) -> (res: bool)
        ensures
            res == self.can_advance(*config),
            res == (self.failures() < u32::MAX && (match config.max_retries {
                Some(m) => self.failures() + 1 <= m,
                None => true,
            } ==> self.current_delay() <= u64::MAX / 2)),
    {
        if self.consecutive_failures == u32::MAX {
            return false;
        }
        let retry = match config.max_retries {
            Some(max) => self.consecutive_failures + 1 <= max,
            None => true,
        };
        !retry || self.current_delay <= u64::MAX / 2
    }

    pub fn reconnect_count(&self) -> (res: u64)
        ensures
            res == self.total(),
    {
        self.reconnect_count
    }
}

/// The delay that the `k`-th consecutive retry waits, counting from `start`.
pub open spec fn delay_after(config: ReconnectConfig, start: u64, k: nat) -> u64
    decreases k,
{
    if k == 0 {
        start
    } else {
        ReconnectState::following_delay(config, delay_after(config, start, (k - 1) as nat))
    }
}

/// Exponential back-off: starting from a delay within the cap, the `k`-th retry waits
/// `start * 2^k` seconds, or the cap once that is larger; the delays never shrink.
pub proof fn lemma_backoff_schedule(config: ReconnectConfig, start: u64, k: nat)
    requires
        start <= config.max_delay_secs,
    ensures
        delay_after(config, start, k) == if start * vstd::arithmetic::power2::pow2(k)
            <= config.max_delay_secs {
            start * vstd::arithmetic::power2::pow2(k)
        } else {
            config.max_delay_secs as int
        },
        delay_after(config, start, k) <= delay_after(config, start, k + 1),
        delay_after(config, start, k) <= config.max_delay_secs,
    decreases k,
{
    let max = config.max_delay_secs;
    if k == 0 {
        assert(vstd::arithmetic::power2::pow2(0) == 1) by {
            vstd::arithmetic::power2::lemma_pow2(0);
            vstd::arithmetic::power::lemma_pow0(2);
        }
    } else {
        lemma_backoff_schedule(config, start, (k - 1) as nat);
        let p = vstd::arithmetic::power2::pow2((k - 1) as nat);
        assert(vstd::arithmetic::power2::pow2(k) == 2 * p) by {
            vstd::arithmetic::power2::lemma_pow2_unfold(k);
        }
        assert(start * (2 * p) == 2 * (start * p)) by (nonlinear_arith);
    }
    let d = delay_after(config, start, k);
    assert(delay_after(config, start, k + 1) == ReconnectState::following_delay(config, d));
}

/// A reset starts the back-off over, whatever the state before it: the delay is the
/// initial one, no failure is counted, the reconnection count is kept, and the next
/// failure (when the budget allows one retry) waits exactly the initial delay.
pub proof fn lemma_reset_restarts_backoff(
    config: ReconnectConfig,
    before: ReconnectState,
    after: ReconnectState,
    next: ReconnectState,
    answer: Option<u64>,
)
    requires
        ReconnectState::reset_step(before, config, after),
        ReconnectState::next_delay_step(after, config, next, answer),
    ensures
        after.current_delay() == config.initial_delay_secs,
        after.failures() == 0,
        after.total() == before.total(),
        (config.max_retries matches Some(m) ==> m >= 1) ==> answer == Some(config.initial_delay_secs),
        config.max_retries == Some(0u32) ==> answer is None,
        next.failures() == 1,
{
}

/// `next_delay` can run exactly when the failure count has room and, if a retry is
/// still allowed, the current delay can be doubled within `u64`; the configured cap
/// plays no part. In particular every state whose delay is at most `u64::MAX / 2`
/// (so every state of a back-off capped at such a maximum) can advance.
pub proof fn lemma_can_advance_exactly(state: ReconnectState, config: ReconnectConfig)
    ensures
        state.can_advance(config) <==> (state.failures() < u32::MAX && (match config.max_retries {
            Some(m) => state.failures() + 1 <= m,
            None => true,
        } ==> state.current_delay() <= u64::MAX / 2)),
        state.failures() < u32::MAX && state.current_delay() <= u64::MAX / 2 ==> state.can_advance(
            config,
        ),
{
}

/// Whether the retry budget allows a reconnection after `i` failures when it allows
/// one after `i + 1`.
proof fn lemma_allows_retry_monotone(config: ReconnectConfig, i: int)
    requires
        0 <= i,
        ReconnectState::allows_retry(config, i + 1),
    ensures
        ReconnectState::allows_retry(config, i),
{
}

proof fn lemma_failure_history_state(
    config: ReconnectConfig,
    states: Seq<ReconnectState>,
    answers: Seq<Option<u64>>,
    i: int,
)
    requires
        states.len() == answers.len() + 1,
        states[0].failures() == 0,
        states[0].current_delay() == config.initial_delay_secs,
        forall|j: int|
            0 <= j < answers.len() ==> #[trigger] ReconnectState::next_delay_step(
                states[j],
                config,
                states[j + 1],
                answers[j],
            ),
        0 <= i < states.len(),
    ensures
        states[i].failures() == i,
        ReconnectState::allows_retry(config, i) ==> states[i].current_delay() == delay_after(
            config,
            config.initial_delay_secs,
            i as nat,
        ),
    decreases i,
{
    if i > 0 {
        lemma_failure_history_state(config, states, answers, i - 1);
        assert(ReconnectState::next_delay_step(states[i - 1], config, states[i], answers[i - 1]));
        if ReconnectState::allows_retry(config, i) {
            lemma_allows_retry_monotone(config, i - 1);
        }
    }
}

/// Exponential back-off over a history of failures: after `new` or `reset`, the `k`-th
/// consecutive failure (counting from 0) is answered with the delay `delay_after(k)`,
/// which for an initial delay within the cap is `initial * 2^k` or the cap once that is
/// larger, while the retry budget allows it, and with `None` once it is spent.
pub proof fn lemma_failure_history(
    config: ReconnectConfig,
    states: Seq<ReconnectState>,
    answers: Seq<Option<u64>>,
)
    requires
        states.len() == answers.len() + 1,
        states[0].failures() == 0,
        states[0].current_delay() == config.initial_delay_secs,
        forall|j: int|
            0 <= j < answers.len() ==> #[trigger] ReconnectState::next_delay_step(
                states[j],
                config,
                states[j + 1],
                answers[j],
            ),
    ensures
        forall|k: int|
            0 <= k < answers.len() ==> #[trigger] answers[k] == if ReconnectState::allows_retry(
                config,
                k + 1,
            ) {
                Some(delay_after(config, config.initial_delay_secs, k as nat))
            } else {
                None
            },
        config.initial_delay_secs <= config.max_delay_secs ==> forall|k: int|
            0 <= k < answers.len() && ReconnectState::allows_retry(config, k + 1) ==> #[trigger] answers[k]
                == Some(
                if config.initial_delay_secs * vstd::arithmetic::power2::pow2(k as nat)
                    <= config.max_delay_secs {
                    (config.initial_delay_secs * vstd::arithmetic::power2::pow2(k as nat)) as u64
                } else {
                    config.max_delay_secs
                },
            ),
{
    assert forall|k: int| 0 <= k < answers.len() implies #[trigger] answers[k] == if ReconnectState::allows_retry(
        config,
        k + 1,
    ) {
        Some(delay_after(config, config.initial_delay_secs, k as nat))
    } else {
        None
    } by {
        lemma_failure_history_state(config, states, answers, k);
        assert(ReconnectState::next_delay_step(states[k], config, states[k + 1], answers[k]));
        if ReconnectState::allows_retry(config, k + 1) {
            lemma_allows_retry_monotone(config, k);
        }
    }
    if config.initial_delay_secs <= config.max_delay_secs {
        assert forall|k: int|
            0 <= k < answers.len() && ReconnectState::allows_retry(config, k + 1) implies #[trigger] answers[k]
                == Some(
                if config.initial_delay_secs * vstd::arithmetic::power2::pow2(k as nat)
                    <= config.max_delay_secs {
                    (config.initial_delay_secs * vstd::arithmetic::power2::pow2(k as nat)) as u64
                } else {
                    config.max_delay_secs
                },
            ) by {
            lemma_backoff_schedule(config, config.initial_delay_secs, k as nat);
        }
    }
}

/// Number of `true` entries.
pub open spec fn count_true(s: Seq<bool>) -> nat
    decreases s.len(),
{
    if s.len() == 0 {
        0
    } else {
        count_true(s.drop_last()) + if s.last() {
            1nat
        } else {
            0nat
        }
    }
}

/// Over any history of `next_delay` (where `is_failure` holds) and `reset` calls, the
/// reconnection count grows by exactly the number of `next_delay` calls (modulo 2^64),
/// and `reset` never lowers it; from `new` it equals that number.
pub proof fn lemma_count_history(
    config: ReconnectConfig,
    states: Seq<ReconnectState>,
    is_failure: Seq<bool>,
    answers: Seq<Option<u64>>,
)
    requires
        states.len() == is_failure.len() + 1,
        answers.len() == is_failure.len(),
        forall|j: int|
            0 <= j < is_failure.len() && #[trigger] is_failure[j] ==> ReconnectState::next_delay_step(
                states[j],
                config,
                states[j + 1],
                answers[j],
            ),
        forall|j: int|
            0 <= j < is_failure.len() && !#[trigger] is_failure[j] ==> ReconnectState::reset_step(
                states[j],
                config,
                states[j + 1],
            ),
    ensures
        states.last().total() == (states[0].total() + count_true(is_failure)) % 0x1_0000_0000_0000_0000,
    decreases is_failure.len(),
{
    let n = is_failure.len();
    let m: int = 0x1_0000_0000_0000_0000;
    if n == 0 {
        assert(states[0].total() < m);
        assert((states[0].total() as int) % m == states[0].total() as int) by {
            vstd::arithmetic::div_mod::lemma_small_mod(states[0].total() as nat, m as nat);
        }
    } else {
        let prev_states = states.drop_last();
        let prev_flags = is_failure.drop_last();
        let prev_answers = answers.drop_last();
        assert forall|j: int|
            0 <= j < prev_flags.len() && #[trigger] prev_flags[j] implies ReconnectState::next_delay_step(
            prev_states[j],
            config,
            prev_states[j + 1],
            prev_answers[j],
        ) by {
            assert(is_failure[j]);
        }
        assert forall|j: int|
            0 <= j < prev_flags.len() && !#[trigger] prev_flags[j] implies ReconnectState::reset_step(
            prev_states[j],
            config,
            prev_states[j + 1],
        ) by {
            assert(!is_failure[j]);
        }
        lemma_count_history(config, prev_states, prev_flags, prev_answers);
        let t0 = states[0].total() as int;
        let c = count_true(prev_flags) as int;
        let before = states[n - 1].total() as int;
        assert(before == (t0 + c) % m);
        if is_failure[n - 1] {
            assert(ReconnectState::next_delay_step(states[n - 1], config, states[n as int], answers[n - 1]));
            assert(states[n as int].total() == (before + 1) % m);
            vstd::arithmetic::div_mod::lemma_add_mod_noop(t0 + c, 1, m);
            vstd::arithmetic::div_mod::lemma_small_mod(1, m as nat);
            assert(((t0 + c) % m + 1int % m) % m == (t0 + c + 1) % m);
        } else {
            assert(!is_failure[n - 1]);
            assert(ReconnectState::reset_step(states[n - 1], config, states[n as int]));
        }
    }
}

/// With a retry budget of `m`, the failures numbered `1..=m` after a reset are answered
/// with a delay and failure `m + 1` gives up; without a budget every failure is retried.
pub proof fn lemma_retry_budget(config: ReconnectConfig, failures: int)
    requires
        1 <= failures,
    ensures
        config.max_retries matches Some(m) ==> (ReconnectState::allows_retry(config, failures)
            <==> failures <= m),
        config.max_retries is None ==> ReconnectState::allows_retry(config, failures),
{
}

} // verus!
