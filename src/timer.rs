use crate::minutes::{minutes_text_result, parse_minutes, trim_text, trimmed};
use vstd::prelude::*;

verus! {

/// How long each phase of the flash lasts, in milliseconds.
pub const FLASH_INTERVAL_MS: u64 = 500;

/// Milliseconds in one second.
pub const MS_PER_SEC: u64 = 1000;

/// Phases of the countdown.
#[derive(PartialEq, Eq, Structural, Clone, Copy, Debug)]
pub enum TimerState {
    /// Waiting for a number of minutes.
    Input,
    /// Counting down.
    Running,
    /// Ran out; flashing until dismissed.
    Finished,
}

/// Milliseconds from `since` to `now`, zero when `now` is earlier.
pub open spec fn elapsed_ms(since: u64, now: u64) -> int {
    if now >= since {
        now - since
    } else {
        0
    }
}

/// The timer as plain values. Timestamps are milliseconds on a monotonic clock.
pub struct TimerView {
    pub minutes_input: Seq<char>,
    pub state: TimerState,
    pub duration_secs: u64,
    pub remaining_secs: u64,
    pub start_time: Option<u64>,
    pub flash_on: bool,
    pub last_flash: u64,
}

impl TimerView {
    /// The countdown never exceeds its length, a start time is kept exactly
    /// while running, and the flash shows only once finished.
    pub open spec fn wf(self) -> bool {
        &&& self.remaining_secs <= self.duration_secs
        &&& (self.start_time is Some <==> self.state == TimerState::Running)
        &&& (self.flash_on ==> self.state == TimerState::Finished)
    }

    /// The timer as it is first shown.
    pub open spec fn initial() -> TimerView {
        TimerView {
            minutes_input: Seq::empty(),
            state: TimerState::Input,
            duration_secs: 0,
            remaining_secs: 0,
            start_time: None,
            flash_on: false,
            last_flash: 0,
        }
    }

    /// A countdown of `secs` seconds that began at `now`.
    pub open spec fn started(self, secs: u64, now: u64) -> TimerView {
        TimerView {
            state: TimerState::Running,
            duration_secs: secs,
            remaining_secs: secs,
            start_time: Some(now),
            flash_on: false,
            ..self
        }
    }

    /// Asking to start at `now` with the current entry: a valid entry starts
    /// the countdown, any other changes nothing.
    pub open spec fn after_start(self, now: u64) -> TimerView {
        match minutes_text_result(trimmed(self.minutes_input)) {
            Ok(secs) => self.started(secs, now),
            Err(_) => self,
        }
    }

    /// One frame at time `now`.
    pub open spec fn after_tick(self, now: u64) -> TimerView {
        match self.state {
            TimerState::Running => match self.start_time {
                Some(start) => {
                    let secs = elapsed_ms(start, now) / MS_PER_SEC as int;
                    if secs >= self.duration_secs {
                        TimerView {
                            state: TimerState::Finished,
                            remaining_secs: 0,
                            start_time: None,
                            last_flash: now,
                            ..self
                        }
                    } else {
                        TimerView { remaining_secs: (self.duration_secs - secs) as u64, ..self }
                    }
                },
                None => self,
            },
            TimerState::Finished => {
                if elapsed_ms(self.last_flash, now) >= FLASH_INTERVAL_MS {
                    TimerView { flash_on: !self.flash_on, last_flash: now, ..self }
                } else {
                    self
                }
            },
            TimerState::Input => self,
        }
    }

    /// Frames at each of `times`, in order.
    pub open spec fn after_ticks(self, times: Seq<u64>) -> TimerView
        decreases times.len(),
    {
        if times.len() == 0 {
            self
        } else {
            self.after_tick(times[0]).after_ticks(times.drop_first())
        }
    }

    /// Back to the entry, with the entry emptied.
    pub open spec fn after_reset(self) -> TimerView {
        TimerView {
            minutes_input: Seq::empty(),
            state: TimerState::Input,
            start_time: None,
            flash_on: false,
            ..self
        }
    }
}

/// The timer starts well formed, and starting, ticking and resetting keep it so.
pub proof fn lemma_transitions_keep_wf(v: TimerView, now: u64)
    ensures
        TimerView::initial().wf(),
        v.wf() ==> v.after_start(now).wf(),
        v.wf() ==> v.after_tick(now).wf(),
        v.wf() ==> v.after_reset().wf(),
{
}

/// An entry that is not a number, or not a positive one, changes nothing:
/// a timer waiting for its entry keeps waiting.
pub proof fn lemma_rejected_entry_changes_nothing(v: TimerView, now: u64)
    requires
        minutes_text_result(trimmed(v.minutes_input)) is Err,
    ensures
        v.after_start(now) == v,
        v.state == TimerState::Input ==> v.after_start(now).state == TimerState::Input,
{
}

/// Once the whole length has elapsed since the start, one tick finishes the
/// countdown at zero.
pub proof fn lemma_countdown_runs_out(v: TimerView, now: u64)
    requires
        v.state == TimerState::Running,
        v.start_time is Some,
        elapsed_ms(v.start_time->Some_0, now) >= v.duration_secs * MS_PER_SEC,
    ensures
        v.after_tick(now).state == TimerState::Finished,
        v.after_tick(now).remaining_secs == 0,
{
    let e = elapsed_ms(v.start_time->Some_0, now);
    assert(e / 1000 >= v.duration_secs) by (nonlinear_arith)
        requires
            e >= v.duration_secs * 1000,
    ;
}

/// While finished, any number of ticks less than a flash interval after the
/// last toggle leave the timer as it is.
pub proof fn lemma_polls_within_interval(v: TimerView, times: Seq<u64>)
    requires
        v.state == TimerState::Finished,
        forall|i: int| 0 <= i < times.len() ==> elapsed_ms(v.last_flash, #[trigger] times[i]) < FLASH_INTERVAL_MS,
    ensures
        v.after_ticks(times) == v,
    decreases times.len(),
{
    if times.len() > 0 {
        let rest = times.drop_first();
        assert forall|i: int| 0 <= i < rest.len() implies elapsed_ms(v.last_flash, #[trigger] rest[i]) < FLASH_INTERVAL_MS by {
            assert(rest[i] == times[i + 1]);
        }
        lemma_polls_within_interval(v, rest);
    }
}

/// While finished, a tick a flash interval or more after the last toggle
/// toggles the flash, and ticks within the next interval do not toggle it
/// again: one toggle per interval, however often the timer is polled.
pub proof fn lemma_flash_toggles_once(v: TimerView, now: u64, times: Seq<u64>)
    requires
        v.state == TimerState::Finished,
        elapsed_ms(v.last_flash, now) >= FLASH_INTERVAL_MS,
        forall|i: int| 0 <= i < times.len() ==> elapsed_ms(now, #[trigger] times[i]) < FLASH_INTERVAL_MS,
    ensures
        v.after_tick(now).after_ticks(times).state == TimerState::Finished,
        v.after_tick(now).after_ticks(times).flash_on == !v.flash_on,
        v.after_tick(now).after_ticks(times).last_flash == now,
{
    lemma_polls_within_interval(v.after_tick(now), times);
}

/// Cancelling or resetting, from any phase, goes back to the entry with no
/// start time and no flash.
pub proof fn lemma_dismiss(v: TimerView)
    ensures
        v.after_reset().state == TimerState::Input,
        v.after_reset().start_time is None,
        !v.after_reset().flash_on,
        v.after_reset().minutes_input.len() == 0,
{
}

/// A tick less than a second after a start leaves the whole length to go,
/// and one less than two seconds after it leaves at least all but a second.
pub proof fn lemma_prompt_tick_after_start(v: TimerView, now: u64, later: u64)
    requires
        minutes_text_result(trimmed(v.minutes_input)) is Ok,
        now <= later,
        later - now < 2 * MS_PER_SEC,
    ensures
        ({
            let s = v.after_start(now);
            let t = s.after_tick(later);
            &&& s.state == TimerState::Running
            &&& s.remaining_secs == s.duration_secs
            &&& t.remaining_secs == s.duration_secs || t.remaining_secs + 1 == s.duration_secs
            &&& later - now < MS_PER_SEC ==> t.remaining_secs == s.duration_secs
        }),
{
}

/// A countdown timer, polled once per frame.
pub struct TimerApp {
    minutes_input: String,
    state: TimerState,
    duration_secs: u64,
    remaining_secs: u64,
    start_time: Option<u64>,
    flash_on: bool,
    last_flash: u64,
}

impl View for TimerApp {
    type V = TimerView;

    closed spec fn view(&self) -> TimerView {
        TimerView {
            minutes_input: self.minutes_input@,
            state: self.state,
            duration_secs: self.duration_secs,
            remaining_secs: self.remaining_secs,
            start_time: self.start_time,
            flash_on: self.flash_on,
            last_flash: self.last_flash,
        }
    }
}

impl Default for TimerApp {
    fn default() -> (r: Self)
        ensures
            r@ == TimerView::initial(),
    {
        TimerApp {
            minutes_input: String::new(),
            state: TimerState::Input,
            duration_secs: 0,
            remaining_secs: 0,
            start_time: None,
            flash_on: false,
            last_flash: 0,
        }
    }
}

impl TimerApp {
    /// Starts the countdown at `now` when the entry, trimmed, is a positive
    /// number of minutes; otherwise leaves the timer as it is.
    pub fn try_start(&mut self, now: u64)
        ensures
            final(self)@ == old(self)@.after_start(now),
    {
        let parsed = parse_minutes(trim_text(self.minutes_input.as_str()));
        if let Ok(secs) = parsed {
            self.duration_secs = secs;
            self.remaining_secs = secs;
            self.start_time = Some(now);
            self.flash_on = false;
            self.state = TimerState::Running;
        }
    }

    /// Advances the timer to `now`: counts down while running, and toggles
    /// the flash once the last toggle is a flash interval old.
    pub fn tick(&mut self, now: u64)
        ensures
            final(self)@ == old(self)@.after_tick(now),
    {
        if self.state == TimerState::Running {
            if let Some(start) = self.start_time {
                let elapsed = now.saturating_sub(start) / MS_PER_SEC;
                if elapsed >= self.duration_secs {
                    self.remaining_secs = 0;
                    self.state = TimerState::Finished;
                    self.start_time = None;
                    self.last_flash = now;
                } else {
                    self.remaining_secs = self.duration_secs - elapsed;
                }
            }
        } else if self.state == TimerState::Finished {
            if now.saturating_sub(self.last_flash) >= FLASH_INTERVAL_MS {
                self.flash_on = !self.flash_on;
                self.last_flash = now;
            }
        }
    }

    /// Returns to the entry from any phase, emptying it.
    pub fn reset(&mut self)
        ensures
            final(self)@ == old(self)@.after_reset(),
    {
        self.state = TimerState::Input;
        self.minutes_input = String::new();
        self.start_time = None;
        self.flash_on = false;
    }

    /// Whether frames must keep coming: the timer is counting down or flashing.
    pub fn is_active(&self) -> (r: bool)
        ensures
            r == (self@.state != TimerState::Input),
    {
        self.state != TimerState::Input
    }

    /// Whether the flash colour shows now.
    pub fn flash_background(&self) -> (r: bool)
        ensures
            r == (self@.state == TimerState::Finished && self@.flash_on),
    {
        self.state == TimerState::Finished && self.flash_on
    }

    pub fn state(&self) -> (r: TimerState)
        ensures
            r == self@.state,
    {
        self.state
    }

    pub fn duration_secs(&self) -> (r: u64)
        ensures
            r == self@.duration_secs,
    {
        self.duration_secs
    }

    pub fn remaining_secs(&self) -> (r: u64)
        ensures
            r == self@.remaining_secs,
    {
        self.remaining_secs
    }

    pub fn start_time(&self) -> (r: Option<u64>)
        ensures
            r == self@.start_time,
    {
        self.start_time
    }

    pub fn flash_on(&self) -> (r: bool)
        ensures
            r == self@.flash_on,
    {
        self.flash_on
    }

    pub fn last_flash(&self) -> (r: u64)
        ensures
            r == self@.last_flash,
    {
        self.last_flash
    }

    pub fn minutes_input(&self) -> (r: &str)
        ensures
            r@ == self@.minutes_input,
    {
        self.minutes_input.as_str()
    }

    /// Replaces the minutes entry.
    pub fn set_minutes_input(&mut self, text: String)
        ensures
            final(self)@ == (TimerView { minutes_input: text@, ..old(self)@ }),
    {
        self.minutes_input = text;
    }

    /// Aborts a running countdown; the same as `reset`.
    pub fn cancel(&mut self)
        ensures
            final(self)@ == old(self)@.after_reset(),
    {
        self.reset();
    }
}

} // verus!
