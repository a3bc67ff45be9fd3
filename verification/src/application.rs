//! The application shell: a running flag and the loop that waits on it.

use vstd::prelude::*;

verus! {

/// The application's whole state: whether it is still running.
pub struct Application {
    pub running: bool,
}

impl Application {
    pub fn new() -> (app: Application)
        ensures
            app.running,
    {
        Application { running: true }
    }

    /// Runs the application until it stops. There is no work to drive
    /// here — scanning and parsing are plain function calls — so running
    /// comes to its end at once; on return the flag is clear.
    pub fn run(&mut self)
        ensures
            !final(self).running,
    {
        self.running = false;
    }

    /// Tears the application down. Releasing resources is the owner's
    /// business; the state itself needs no change.
    pub fn destroy(&mut self)
        ensures
            *final(self) == *old(self),
    {
    }
}

} // verus!
