//! The switchboard of the background features.

use vstd::prelude::*;

verus! {

/// The signal that tells the background threads whether to go on.
#[derive(Clone, Copy, Debug, PartialEq, Eq, Structural)]
pub struct ThreadControl {
    pub stopped: bool,
}

impl ThreadControl {
    /// A control that lets the threads run.
    pub fn new() -> (c: ThreadControl)
        ensures
            !c.stopped,
    {
        ThreadControl { stopped: false }
    }

    /// Whether the threads are to go on.
    pub fn check(&self) -> (go_on: bool)
        ensures
            go_on == !self.stopped,
    {
        !self.stopped
    }

    /// Tells the threads to stop.
    pub fn stop(&mut self)
        ensures
            final(self).stopped,
    {
        self.stopped = true;
    }
}

/// The background features and whether they have been started.
#[derive(Clone, Copy, Debug, PartialEq, Eq, Structural)]
pub struct Features {
    pub thread_control: ThreadControl,
    pub running: bool,
}

impl Features {
    /// The features before they are started: not running, and free to run.
    pub fn new() -> (f: Features)
        ensures
            f == (Features { thread_control: ThreadControl { stopped: false }, running: false }),
    {
        Features { running: false, thread_control: ThreadControl::new() }
    }

    /// Marks the features as started. Returns whether this call started them, which it
    /// does once: the background loop is to be spawned only then.
    pub fn run(&mut self) -> (first: bool)
        ensures
            first == !old(self).running,
            final(self).running,
            final(self).thread_control == old(self).thread_control,
    {
        let first = !self.running;
        self.running = true;
        first
    }
}

} // verus!
