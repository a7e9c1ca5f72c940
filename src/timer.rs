//! A pause/resume stopwatch driven by readings of a monotonic clock.
//!
//! Clock readings and durations are whole milliseconds. The timer never reads
//! a clock itself: every operation is handed the current reading, which must
//! not be earlier than any reading handed to the timer before.
use crate::text::{push_char, push_text, push_two_digits, two_digits};
use vstd::prelude::*;

verus! {

/// Whether a timer is currently counting.
#[derive(Debug, Clone, Copy, PartialEq, Eq, Structural)]
pub enum TimerStatus {
    Running,
    Stopped,
}

/// Colour in which the elapsed time of a timer is shown.
#[derive(Debug, Clone, Copy, PartialEq, Eq, Structural)]
pub enum TimerColor {
    Green,
    Red,
}

/// A transition requested of a timer.
#[derive(Debug, Clone, Copy, PartialEq, Eq, Structural)]
pub enum TimerAction {
    Pause,
    Resume,
}

impl TimerStatus {
    /// Label of the key that toggles the timer out of this status.
    pub fn action_text(&self) -> (r: String)
        ensures
            r@ == (if *self == TimerStatus::Running {
                " Pause "@
            } else {
                " Resume "@
            }),
    {
        match self {
            TimerStatus::Running => " Pause ".to_owned(),
            TimerStatus::Stopped => " Resume ".to_owned(),
        }
    }

    /// Colour of the elapsed time while the timer has this status.
    pub fn timer_color(&self) -> (r: TimerColor)
        ensures
            r == (if *self == TimerStatus::Running {
                TimerColor::Green
            } else {
                TimerColor::Red
            }),
    {
        match self {
            TimerStatus::Running => TimerColor::Green,
            TimerStatus::Stopped => TimerColor::Red,
        }
    }
}

/// Milliseconds accumulated over closed running intervals, the status, and
/// `mark`, the clock reading of the latest transition: the start of the open
/// interval while running, the moment of pausing while stopped.
#[derive(Debug, Clone, Copy, PartialEq, Eq, Structural)]
pub struct Timer {
    pub total_duration: u64,
    pub status: TimerStatus,
    pub mark: u64,
}

/// The text `MM:SS` for a number of milliseconds (minutes may take more digits).
pub open spec fn clock_text(ms: nat) -> Seq<char> {
    two_digits(ms / 1000 / 60) + seq![':'] + two_digits(ms / 1000 % 60)
}

impl Timer {
    /// All closed intervals lie between the clock's origin and the latest
    /// transition, so their sum is at most that reading.
    pub open spec fn wf(&self) -> bool {
        self.total_duration <= self.mark
    }

    pub open spec fn is_running(&self) -> bool {
        self.status == TimerStatus::Running
    }

    /// A fresh running timer whose open interval starts at `now`.
    pub open spec fn started_at(now: u64) -> Timer {
        Timer { total_duration: 0, status: TimerStatus::Running, mark: now }
    }

    /// The closed intervals plus, while running, the open one up to `now`.
    pub open spec fn elapsed_at(&self, now: int) -> int {
        if self.is_running() {
            self.total_duration + (now - self.mark)
        } else {
            self.total_duration as int
        }
    }

    /// The timer after a pause at `now`; a stopped timer is left as it is.
    pub open spec fn paused_at(self, now: u64) -> Timer {
        if self.is_running() {
            Timer {
                total_duration: (self.total_duration + (now - self.mark)) as u64,
                status: TimerStatus::Stopped,
                mark: now,
            }
        } else {
            self
        }
    }

    /// The timer after a resume at `now`; a running timer is left as it is.
    pub open spec fn resumed_at(self, now: u64) -> Timer {
        if self.is_running() {
            self
        } else {
            Timer { total_duration: self.total_duration, status: TimerStatus::Running, mark: now }
        }
    }

    /// The timer after `action` at `now`.
    pub open spec fn step(self, action: TimerAction, now: u64) -> Timer {
        match action {
            TimerAction::Pause => self.paused_at(now),
            TimerAction::Resume => self.resumed_at(now),
        }
    }

    /// A running timer with nothing accumulated, started at `now`.
    pub fn start(now: u64) -> (t: Timer)
        ensures
            t == Timer::started_at(now),
            t.wf(),
            t.elapsed_at(now as int) == 0,
    {
        Timer { total_duration: 0, status: TimerStatus::Running, mark: now }
    }

    pub fn status(&self) -> (r: TimerStatus)
        ensures
            r == self.status,
    {
        self.status
    }

    /// Time counted up to `now`, the open interval included.
    pub fn elapsed(&self, now: u64) -> (r: u64)
        requires
            self.wf(),
            self.mark <= now,
        ensures
            r == self.elapsed_at(now as int),
    {
        match self.status {
            TimerStatus::Running => self.total_duration + (now - self.mark),
            TimerStatus::Stopped => self.total_duration,
        }
    }

    /// Folds the open interval into the total and stops; no effect when stopped.
    pub fn pause(&mut self, now: u64)
        requires
            old(self).wf(),
            old(self).mark <= now,
        ensures
            *final(self) == old(self).paused_at(now),
            final(self).wf(),
            final(self).elapsed_at(now as int) == old(self).elapsed_at(now as int),
    {
        if self.status == TimerStatus::Running {
            self.total_duration = self.total_duration + (now - self.mark);
            self.status = TimerStatus::Stopped;
            self.mark = now;
        }
    }

    /// Opens a new interval at `now`; no effect when running.
    pub fn resume(&mut self, now: u64)
        requires
            old(self).wf(),
            old(self).mark <= now,
        ensures
            *final(self) == old(self).resumed_at(now),
            final(self).wf(),
            final(self).elapsed_at(now as int) == old(self).elapsed_at(now as int),
    {
        if self.status == TimerStatus::Stopped {
            self.status = TimerStatus::Running;
            self.mark = now;
        }
    }

    /// Closes any open interval at `now` and returns the final total.
    pub fn finalize(&mut self, now: u64) -> (r: u64)
        requires
            old(self).wf(),
            old(self).mark <= now,
        ensures
            *final(self) == old(self).paused_at(now),
            r == old(self).elapsed_at(now as int),
            r == final(self).total_duration,
            !final(self).is_running(),
    {
        self.pause(now);
        self.total_duration
    }

    /// The elapsed time at `now` as `MM:SS`.
    pub fn clock_text(&self, now: u64) -> (r: String)
        requires
            self.wf(),
            self.mark <= now,
        ensures
            r@ == clock_text(self.elapsed_at(now as int) as nat),
    {
        let secs = self.elapsed(now) / 1000;
        let mut s = String::new();
        push_two_digits(&mut s, (secs / 60) as u128);
        push_char(&mut s, ':');
        push_two_digits(&mut s, (secs % 60) as u128);
        assert(s@ =~= clock_text(self.elapsed_at(now as int) as nat));
        s
    }
}

/// The timer after `events`, each an action at a clock reading, applied in order.
pub open spec fn replay(t: Timer, events: Seq<(u64, TimerAction)>) -> Timer
    decreases events.len(),
{
    if events.len() == 0 {
        t
    } else {
        let (now, action) = events.last();
        replay(t, events.drop_last()).step(action, now)
    }
}

/// The readings of `events` do not go back in time, start at or after `from`,
/// and end at or before `to`.
pub open spec fn readings_ordered(from: u64, events: Seq<(u64, TimerAction)>, to: u64) -> bool {
    &&& forall|i: int| 0 <= i < events.len() ==> from <= (#[trigger] events[i]).0 <= to
    &&& forall|i: int, j: int| 0 <= i <= j < events.len() ==> events[i].0 <= events[j].0
}

/// Running time of a sitting that starts at `from`, sees `events`, and is
/// read at `to`: the span between two consecutive readings counts when the
/// latest action before it is a resume, or when there is none yet.
pub open spec fn running_time(from: u64, events: Seq<(u64, TimerAction)>, to: u64) -> int
    decreases events.len(),
{
    if events.len() == 0 {
        to - from
    } else {
        let (now, action) = events.last();
        running_time(from, events.drop_last(), now) + match action {
            TimerAction::Resume => to - now,
            TimerAction::Pause => 0,
        }
    }
}

/// A pause on a stopped timer and a resume on a running one change nothing, so
/// any run of them leaves the timer, and what it reports at every later
/// reading, as it was.
pub proof fn lemma_same_state_transitions_change_nothing(
    t: Timer,
    events: Seq<(u64, TimerAction)>,
)
    requires
        forall|i: int|
            0 <= i < events.len() ==> (#[trigger] events[i]).1 == (if t.is_running() {
                TimerAction::Resume
            } else {
                TimerAction::Pause
            }),
    ensures
        replay(t, events) == t,
        forall|now: int| #[trigger] replay(t, events).elapsed_at(now) == t.elapsed_at(now),
    decreases events.len(),
{
    if events.len() > 0 {
        let prefix = events.drop_last();
        assert forall|i: int| 0 <= i < prefix.len() implies (#[trigger] prefix[i]).1 == (if t.is_running() {
            TimerAction::Resume
        } else {
            TimerAction::Pause
        }) by {
            assert(prefix[i] == events[i]);
        }
        lemma_same_state_transitions_change_nothing(t, prefix);
        assert(events.last() == events[events.len() - 1]);
    }
}

/// Whatever the interleaving of pauses and resumes, the total that `finalize`
/// returns at `to` (the elapsed time at `to`) is the sum of the closed running
/// intervals plus the interval still open at `to`.
pub proof fn lemma_finalize_sums_running_intervals(
    from: u64,
    events: Seq<(u64, TimerAction)>,
    to: u64,
)
    requires
        from <= to,
        readings_ordered(from, events, to),
    ensures
        replay(Timer::started_at(from), events).wf(),
        replay(Timer::started_at(from), events).mark <= to,
        replay(Timer::started_at(from), events).elapsed_at(to as int) == running_time(
            from,
            events,
            to,
        ),
    decreases events.len(),
{
    if events.len() > 0 {
        let prefix = events.drop_last();
        let (now, action) = events.last();
        assert(events.last() == events[events.len() - 1]);
        assert(readings_ordered(from, prefix, now)) by {
            assert forall|i: int| 0 <= i < prefix.len() implies from <= (#[trigger] prefix[i]).0
                <= now by {
                assert(prefix[i] == events[i]);
            }
        }
        lemma_finalize_sums_running_intervals(from, prefix, now);
    }
}

/// The elapsed time never decreases as the clock advances.
pub proof fn lemma_elapsed_monotone(t: Timer, earlier: int, later: int)
    requires
        t.wf(),
        t.mark <= earlier <= later,
    ensures
        0 <= t.elapsed_at(earlier) <= t.elapsed_at(later),
{
}

/// The whole seconds that `clock_text` shows never go back as the clock
/// advances between two renderings.
pub proof fn lemma_shown_seconds_monotone(t: Timer, earlier: u64, later: u64)
    requires
        t.wf(),
        t.mark <= earlier <= later,
    ensures
        t.elapsed_at(earlier as int) / 1000 <= t.elapsed_at(later as int) / 1000,
{
    lemma_elapsed_monotone(t, earlier as int, later as int);
    vstd::arithmetic::div_mod::lemma_div_is_ordered(
        t.elapsed_at(earlier as int),
        t.elapsed_at(later as int),
        1000,
    );
}

} // verus!
