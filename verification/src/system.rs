//! The window system: when a window comes up, when the client ends, and how
//! its tasks are waited for.

use vstd::prelude::*;

use crate::tasks::{kill_requested, OneshotPoll};

verus! {

/// What happened to a window, as far as it matters.
#[derive(Debug, Clone, Copy, PartialEq, Eq, Structural)]
pub enum WindowingEvent {
    /// Its close button was hit.
    CloseRequested,
    /// The escape key was hit in it.
    EscapeKey,
    /// Anything else.
    Other,
}

/// The handle of the running system.
pub struct SystemBusHandle {}

/// The windows of a client, and who is to be told when it ends.
pub struct WindowingManager {
    pub kill_targets: Vec<String>,
    pub window_generation: usize,
    pub should_exit: bool,
}

impl WindowingManager {
    /// A client without a window.
    pub fn new(kill_targets: Vec<String>) -> (m: Self)
        ensures
            m.kill_targets == kill_targets,
            m.window_generation == 0,
            !m.should_exit,
    {
        WindowingManager { kill_targets, window_generation: 0, should_exit: false }
    }

    /// A window comes up, and gets the next generation.
    pub fn resumed(&mut self) -> (generation: usize)
        requires
            old(self).window_generation < usize::MAX,
        ensures
            generation == old(self).window_generation,
            *final(self) == (WindowingManager {
                window_generation: (generation + 1) as usize,
                ..*old(self)
            }),
    {
        let generation = self.window_generation;
        self.window_generation = generation + 1;
        generation
    }

    /// Something happened to a window. The client is to end where it is told
    /// to, where the window is closed, or at the escape key.
    pub fn window_event(&mut self, kill: OneshotPoll, event: WindowingEvent)
        ensures
            *final(self) == (WindowingManager {
                should_exit: old(self).should_exit || kill != OneshotPoll::Empty || event
                    != WindowingEvent::Other,
                ..*old(self)
            }),
    {
        if kill_requested(kill) {
            self.should_exit = true;
            return ;
        }
        match event {
            WindowingEvent::CloseRequested => {
                self.should_exit = true;
            },
            WindowingEvent::EscapeKey => {
                self.should_exit = true;
            },
            WindowingEvent::Other => {},
        }
    }

    /// Nothing more is there to be handled. Where the client is to end, all
    /// are told, once; `None` where it goes on.
    pub fn about_to_wait(&mut self) -> (told: Option<Vec<String>>)
        ensures
            told is Some <==> old(self).should_exit,
            told matches Some(t) ==> t == old(self).kill_targets && final(self).kill_targets@
                == Seq::<String>::empty(),
            told is None ==> *final(self) == *old(self),
            final(self).should_exit == old(self).should_exit,
            final(self).window_generation == old(self).window_generation,
    {
        if !self.should_exit {
            return None;
        }
        let mut told: Vec<String> = Vec::new();
        std::mem::swap(&mut told, &mut self.kill_targets);
        Some(told)
    }
}

/// The wait for tasks to end, by the tally that they keep.
pub struct DeathWatch {
    pub expected: usize,
    pub seen: usize,
}

impl DeathWatch {
    /// A wait for a number of tasks.
    pub fn new(expected: usize) -> (w: Self)
        ensures
            w.expected == expected,
            w.seen == 0,
    {
        DeathWatch { expected, seen: 0 }
    }

    /// The tally was read. Returns whether it changed, and whether to wait on:
    /// until as many as expected have ended.
    pub fn on_tally(&mut self, current: usize) -> (step: (bool, bool))
        ensures
            step.0 == (current != old(self).seen),
            step.1 == (current < old(self).expected),
            final(self).seen == current,
            final(self).expected == old(self).expected,
    {
        let changed = current != self.seen;
        self.seen = current;
        (changed, current < self.expected)
    }
}

} // verus!
