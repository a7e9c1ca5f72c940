//! The decisions of the interactive sitting: which key does what to the
//! timer, when the loop ends, and what the screen shows.
//!
//! The loop itself (drawing, waiting for input) is run by the caller, which
//! hands each outcome of a wait to [`App::handle_events`] together with the
//! clock reading at that moment.
use crate::issue::Issue;
use crate::store::{recorded, DataStore};
use crate::text::{decimal, push_decimal, push_text};
use crate::timer::{Timer, TimerStatus};
use vstd::prelude::*;

verus! {

/// How long one wait for input may last, in milliseconds.
pub const POLL_TIMEOUT_MS: u64 = 250;

/// The key that ends the sitting.
pub const QUIT_KEY: char = 'q';

/// The key that pauses or resumes the timer.
pub const PAUSE_KEY: char = 'p';

/// The key of a keyboard event.
#[derive(Debug, Clone, Copy, PartialEq, Eq, Structural)]
pub enum KeyInput {
    Char(char),
    Other,
}

/// What a wait for input brought.
#[derive(Debug, Clone, Copy, PartialEq, Eq, Structural)]
pub enum InputEvent {
    /// A keyboard event; `press` is false for a release or a repeat.
    Key { code: KeyInput, press: bool },
    /// Any other terminal event.
    Other,
}

/// A sitting on one issue: its timer, a copy of the issue, and whether the
/// loop is to end.
#[derive(Debug)]
pub struct App {
    pub timer: Timer,
    pub issue: Issue,
    pub exit: bool,
}

impl App {
    pub open spec fn wf(&self) -> bool {
        self.timer.wf()
    }

    /// The app after the key `code` at `now`.
    pub open spec fn key_effect(timer: Timer, exit: bool, code: KeyInput, now: u64) -> (Timer, bool) {
        match code {
            KeyInput::Char(c) => if c == QUIT_KEY {
                (timer.paused_at(now), true)
            } else if c == PAUSE_KEY {
                (
                    if timer.is_running() {
                        timer.paused_at(now)
                    } else {
                        timer.resumed_at(now)
                    },
                    exit,
                )
            } else {
                (timer, exit)
            },
            KeyInput::Other => (timer, exit),
        }
    }

    /// Starts a sitting on `issue` with a timer running from `now`.
    pub fn new(issue: &Issue, now: u64) -> (r: App)
        ensures
            r.wf(),
            r.timer == Timer::started_at(now),
            !r.exit,
            r.issue.number == issue.number,
            r.issue.title@ == issue.title@,
    {
        App { timer: Timer::start(now), issue: issue.duplicate(), exit: false }
    }

    /// Ends the loop and closes the timer's open interval at `now`.
    pub fn exit(&mut self, now: u64)
        requires
            old(self).wf(),
            old(self).timer.mark <= now,
        ensures
            final(self).wf(),
            final(self).exit,
            final(self).timer == old(self).timer.paused_at(now),
            final(self).timer.total_duration == old(self).timer.elapsed_at(now as int),
            final(self).issue == old(self).issue,
    {
        self.exit = true;
        self.timer.finalize(now);
    }

    /// Pauses a running timer, resumes a stopped one.
    pub fn handle_pause(&mut self, now: u64)
        requires
            old(self).wf(),
            old(self).timer.mark <= now,
        ensures
            final(self).wf(),
            final(self).timer == (if old(self).timer.is_running() {
                old(self).timer.paused_at(now)
            } else {
                old(self).timer.resumed_at(now)
            }),
            final(self).exit == old(self).exit,
            final(self).issue == old(self).issue,
            final(self).timer.elapsed_at(now as int) == old(self).timer.elapsed_at(now as int),
    {
        match self.timer.status() {
            TimerStatus::Running => self.timer.pause(now),
            TimerStatus::Stopped => self.timer.resume(now),
        }
    }

    /// The quit key ends the sitting, the pause key toggles the timer, any
    /// other key is ignored.
    pub fn handle_key_event(&mut self, code: KeyInput, now: u64)
        requires
            old(self).wf(),
            old(self).timer.mark <= now,
        ensures
            final(self).wf(),
            (final(self).timer, final(self).exit) == App::key_effect(
                old(self).timer,
                old(self).exit,
                code,
                now,
            ),
            final(self).issue == old(self).issue,
    {
        match code {
            KeyInput::Char(c) => {
                if c == QUIT_KEY {
                    self.exit(now);
                } else if c == PAUSE_KEY {
                    self.handle_pause(now);
                }
            },
            KeyInput::Other => {},
        }
    }

    /// Acts on what one wait for input brought at `now`: `None` when the wait
    /// timed out. Only key presses act; nothing else changes the app.
    pub fn handle_events(&mut self, event: Option<InputEvent>, now: u64)
        requires
            old(self).wf(),
            old(self).timer.mark <= now,
        ensures
            final(self).wf(),
            match event {
                Some(InputEvent::Key { code, press: true }) => (final(self).timer, final(self).exit)
                    == App::key_effect(old(self).timer, old(self).exit, code, now),
                _ => final(self).timer == old(self).timer && final(self).exit == old(self).exit,
            },
            final(self).issue == old(self).issue,
    {
        match event {
            Some(InputEvent::Key { code, press }) => {
                if press {
                    self.handle_key_event(code, now);
                }
            },
            _ => {},
        }
    }

    /// Whether the loop goes on.
    pub fn is_running(&self) -> (r: bool)
        ensures
            r == !self.exit,
    {
        !self.exit
    }

    /// The heading, ` Working on Task #<number>: <title> `.
    pub fn title_text(&self) -> (r: String)
        ensures
            r@ == " Working on Task #"@ + decimal(self.issue.number as nat) + ": "@
                + self.issue.title@ + " "@,
    {
        let mut s = String::new();
        push_text(&mut s, " Working on Task #");
        push_decimal(&mut s, self.issue.number as u128);
        push_text(&mut s, ": ");
        push_text(&mut s, self.issue.title.as_str());
        push_text(&mut s, " ");
        assert(s@ =~= " Working on Task #"@ + decimal(self.issue.number as nat) + ": "@
            + self.issue.title@ + " "@);
        s
    }

    /// Whole seconds of the sitting, to be recorded once the loop has ended.
    pub fn session_seconds(&self) -> (r: u64)
        ensures
            r == self.timer.total_duration / 1000,
    {
        self.timer.total_duration / 1000
    }

    /// Adds the sitting to `store` as a new session of its issue.
    pub fn commit(&self, store: &mut DataStore)
        requires
            old(store).wf(),
        ensures
            final(store).wf(),
            final(store)@ == recorded(
                old(store)@,
                self.issue.number,
                self.issue.title@,
                self.timer.total_duration / 1000,
            ),
    {
        store.record_session(self.issue.number, self.issue.title.as_str(), self.session_seconds());
    }
}

} // verus!
