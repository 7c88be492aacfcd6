//! When the OBI strategy may quote: sample counting, update cadence, warm-up and
//! the length of the observed history.

use vstd::prelude::*;

verus! {

/// Price-change samples needed before the strategy quotes at all.
pub const MIN_SAMPLES_FOR_QUOTE: usize = 100;

/// The integer bookkeeping of the strategy's update loop.
pub struct QuoteGate {
    step_count: u64,
    last_update_step: u64,
    warmed_up: bool,
    first_timestamp_ns: Option<i64>,
    latest_timestamp_ns: i64,
    required_history_ns: u64,
    total_samples: usize,
    logged_valid_for_trading: bool,
}

/// Span of observed exchange time: latest minus first stamp when positive, else 0.
pub open spec fn history_span(first: Option<i64>, latest: i64) -> u64 {
    match first {
        Some(f) => if latest > f {
            (latest - f) as u64
        } else {
            0
        },
        None => 0,
    }
}

impl QuoteGate {
    pub closed spec fn steps(&self) -> u64 {
        self.step_count
    }

    pub closed spec fn last_update(&self) -> u64 {
        self.last_update_step
    }

    pub closed spec fn is_warm(&self) -> bool {
        self.warmed_up
    }

    pub closed spec fn first_stamp(&self) -> Option<i64> {
        self.first_timestamp_ns
    }

    pub closed spec fn latest_stamp(&self) -> i64 {
        self.latest_timestamp_ns
    }

    pub closed spec fn required_history(&self) -> u64 {
        self.required_history_ns
    }

    pub closed spec fn samples(&self) -> usize {
        self.total_samples
    }

    pub closed spec fn announced(&self) -> bool {
        self.logged_valid_for_trading
    }

    /// The last update is a step that has happened.
    #[verifier::type_invariant]
    closed spec fn consistent(self) -> bool {
        self.last_update_step <= self.step_count
    }

    pub open spec fn span(&self) -> u64 {
        history_span(self.first_stamp(), self.latest_stamp())
    }

    /// Nothing observed yet: no step, stamp, sample, warm-up or announcement.
    pub open spec fn is_fresh(&self) -> bool {
        &&& self.steps() == 0
        &&& self.last_update() == 0
        &&& !self.is_warm()
        &&& self.first_stamp() is None
        &&& self.latest_stamp() == 0
        &&& self.samples() == 0
        &&& !self.announced()
    }

    /// A fresh gate that asks for `required_history_ns` of observed history.
    pub fn new(required_history_ns: u64) -> (res: Self)
        ensures
            res.is_fresh(),
            res.required_history() == required_history_ns,
    {
        QuoteGate {
            step_count: 0,
            last_update_step: 0,
            warmed_up: false,
            first_timestamp_ns: None,
            latest_timestamp_ns: 0,
            required_history_ns,
            total_samples: 0,
            logged_valid_for_trading: false,
        }
    }

    /// Records the exchange stamp of a snapshot; stamps that are not positive are ignored.
    pub fn observe_timestamp(&mut self, timestamp_ns: i64)
        ensures
            timestamp_ns > 0 ==> final(self).latest_stamp() == timestamp_ns,
            timestamp_ns > 0 ==> final(self).first_stamp() == match old(self).first_stamp() {
                Some(f) => Some(f),
                None => Some(timestamp_ns),
            },
            timestamp_ns <= 0 ==> final(self).latest_stamp() == old(self).latest_stamp(),
            timestamp_ns <= 0 ==> final(self).first_stamp() == old(self).first_stamp(),
            final(self).steps() == old(self).steps(),
            final(self).last_update() == old(self).last_update(),
            final(self).is_warm() == old(self).is_warm(),
            final(self).samples() == old(self).samples(),
            final(self).required_history() == old(self).required_history(),
            final(self).announced() == old(self).announced(),
    {
        proof {
            use_type_invariant(&*self);
        }
        if timestamp_ns > 0 {
            if self.first_timestamp_ns.is_none() {
                self.first_timestamp_ns = Some(timestamp_ns);
            }
            self.latest_timestamp_ns = timestamp_ns;
        }
    }

    /// Counts one price-change sample.
    pub fn record_sample(&mut self)
        requires
            old(self).samples() < usize::MAX,
        ensures
            final(self).samples() == old(self).samples() + 1,
            final(self).steps() == old(self).steps(),
            final(self).last_update() == old(self).last_update(),
            final(self).is_warm() == old(self).is_warm(),
            final(self).first_stamp() == old(self).first_stamp(),
            final(self).latest_stamp() == old(self).latest_stamp(),
            final(self).required_history() == old(self).required_history(),
            final(self).announced() == old(self).announced(),
    {
        proof {
            use_type_invariant(&*self);
        }
        self.total_samples = self.total_samples + 1;
    }

    /// Counts one step and answers whether the quote is due: at least `interval` steps
    /// since the last update. A due step becomes the last update.
    pub fn next_step(&mut self, interval: usize) -> (res: bool)
        requires
            old(self).steps() < u64::MAX,
        ensures
            final(self).steps() == old(self).steps() + 1,
            res == step_due(old(self).steps() as int, old(self).last_update() as int, interval as int),
            res ==> final(self).last_update() == final(self).steps(),
            !res ==> final(self).last_update() == old(self).last_update(),
            final(self).is_warm() == old(self).is_warm(),
            final(self).samples() == old(self).samples(),
            final(self).first_stamp() == old(self).first_stamp(),
            final(self).latest_stamp() == old(self).latest_stamp(),
            final(self).required_history() == old(self).required_history(),
            final(self).announced() == old(self).announced(),
    {
        proof {
            use_type_invariant(&*self);
        }
        self.step_count = self.step_count + 1;
        let steps_since = self.step_count - self.last_update_step;
        if (steps_since as u128) < (interval as u128) {
            return false;
        }
        self.last_update_step = self.step_count;
        true
    }

    /// Whether enough samples arrived to quote; the first time they have, the strategy
    /// counts as warmed up from then on.
    pub fn try_warm_up(&mut self) -> (res: bool)
        ensures
            res == (old(self).samples() >= MIN_SAMPLES_FOR_QUOTE),
            final(self).is_warm() == (old(self).is_warm() || res),
            final(self).steps() == old(self).steps(),
            final(self).last_update() == old(self).last_update(),
            final(self).samples() == old(self).samples(),
            final(self).first_stamp() == old(self).first_stamp(),
            final(self).latest_stamp() == old(self).latest_stamp(),
            final(self).required_history() == old(self).required_history(),
            final(self).announced() == old(self).announced(),
    {
        proof {
            use_type_invariant(&*self);
        }
        if self.total_samples < MIN_SAMPLES_FOR_QUOTE {
            return false;
        }
        self.warmed_up = true;
        true
    }

    pub fn is_warmed_up(&self) -> (res: bool)
        ensures
            res == self.is_warm(),
    {
        self.warmed_up
    }

    pub fn step_count(&self) -> (res: u64)
        ensures
            res == self.steps(),
    {
        self.step_count
    }

    pub fn total_samples(&self) -> (res: usize)
        ensures
            res == self.samples(),
    {
        self.total_samples
    }

    /// Nanoseconds of exchange time observed since the first stamp.
    pub fn history_duration_ns(&self) -> (res: u64)
        ensures
            res == self.span(),
            self.first_stamp() is Some && self.latest_stamp() > self.first_stamp().unwrap() ==> res
                == self.latest_stamp() - self.first_stamp().unwrap(),
            !(self.first_stamp() is Some && self.latest_stamp() > self.first_stamp().unwrap()) ==> res == 0,
    {
        match self.first_timestamp_ns {
            Some(first) => {
                if self.latest_timestamp_ns > first {
                    let d: i128 = self.latest_timestamp_ns as i128 - first as i128;
                    d as u64
                } else {
                    0
                }
            },
            None => 0,
        }
    }

    /// Warmed up and at least the required history observed.
    pub fn is_valid_for_trading(&self) -> (res: bool)
        ensures
            res == (self.is_warm() && self.span() >= self.required_history()),
            self.first_stamp() is Some && self.latest_stamp() > self.first_stamp().unwrap() ==> res == (
            self.is_warm() && self.latest_stamp() - self.first_stamp().unwrap()
                >= self.required_history()),
    {
        self.warmed_up && self.history_duration_ns() >= self.required_history_ns
    }

    /// Whether the strategy is valid for trading for the first time: true once, when
    /// it first is, so that the moment is announced a single time.
    pub fn announce_valid_for_trading(&mut self) -> (res: bool)
        ensures
            res == (old(self).is_warm() && old(self).span() >= old(self).required_history()
                && !old(self).announced()),
            final(self).announced() == (old(self).announced() || res),
            final(self).steps() == old(self).steps(),
            final(self).last_update() == old(self).last_update(),
            final(self).is_warm() == old(self).is_warm(),
            final(self).samples() == old(self).samples(),
            final(self).first_stamp() == old(self).first_stamp(),
            final(self).latest_stamp() == old(self).latest_stamp(),
            final(self).required_history() == old(self).required_history(),
    {
        proof {
            use_type_invariant(&*self);
        }
        if self.is_valid_for_trading() && !self.logged_valid_for_trading {
            self.logged_valid_for_trading = true;
            true
        } else {
            false
        }
    }

    /// Forgets everything observed; only the required history stays.
    pub fn reset(&mut self)
        ensures
            final(self).is_fresh(),
            final(self).required_history() == old(self).required_history(),
    {
        self.last_update_step = 0;
        self.step_count = 0;
        self.warmed_up = false;
        self.first_timestamp_ns = None;
        self.latest_timestamp_ns = 0;
        self.total_samples = 0;
        self.logged_valid_for_trading = false;
    }
}

/// A reset strategy is not valid for trading until it warms up again.
pub proof fn lemma_reset_not_valid(gate: QuoteGate)
    requires
        gate.is_fresh(),
    ensures
        !(gate.is_warm() && gate.span() >= gate.required_history()),
{
}

/// The observed history is the full elapsed exchange time: for a first stamp `first`
/// and a later latest stamp, exactly `latest - first` nanoseconds (a difference of two
/// `i64` values always fits in `u64`); no history before a stamp or while the latest
/// stamp is not after the first.
pub proof fn lemma_history_is_elapsed_time(first: Option<i64>, latest: i64)
    ensures
        first is Some && latest > first.unwrap() ==> history_span(first, latest) == latest
            - first.unwrap(),
        first is Some && latest > first.unwrap() ==> history_span(first, latest) > 0,
        !(first is Some && latest > first.unwrap()) ==> history_span(first, latest) == 0,
{
}

/// A warmed-up gate whose stamps span at least the required history is valid for
/// trading, and one whose stamps span less is not: the decision compares the full
/// elapsed time `latest - first` with the requirement.
pub proof fn lemma_valid_once_history_spans_requirement(gate: QuoteGate, first: i64)
    requires
        gate.first_stamp() == Some(first),
        gate.latest_stamp() > first,
    ensures
        (gate.is_warm() && gate.span() >= gate.required_history()) <==> (gate.is_warm()
            && gate.latest_stamp() - first >= gate.required_history()),
{
    lemma_history_is_elapsed_time(gate.first_stamp(), gate.latest_stamp());
}

/// Whether the step after `steps` is due when the last update was at `last`.
pub open spec fn step_due(steps: int, last: int, interval: int) -> bool {
    steps + 1 - last >= interval
}

/// With an update interval of `n >= 1`, after an update at step `s` the steps
/// `s + 1, ..., s + n - 1` are not due (and so leave the last update at `s`), and step
/// `s + n` is due: the strategy requotes every `n` steps.
pub proof fn lemma_update_cadence(last: int, interval: int)
    requires
        interval >= 1,
    ensures
        forall|k: int| 1 <= k < interval ==> !#[trigger] step_due(last + k - 1, last, interval),
        step_due(last + interval - 1, last, interval),
{
}

} // verus!
