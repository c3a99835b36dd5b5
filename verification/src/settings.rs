//! Persisted user settings, as plain data: the path of the chat log to
//! tail and the saved positions of the two notification windows. Loading
//! and saving them is file work and lives with the surrounding application;
//! the library only carries the values.
use vstd::prelude::*;

verus! {

/// The settings the application persists between runs.
#[derive(Debug)]
pub struct Settings {
    /// Path of the chat log the tailer follows.
    pub logpath: String,
    /// Saved screen position of the incoming-trades window.
    pub incoming_position: (i32, i32),
    /// Saved screen position of the outgoing-trades window.
    pub outgoing_position: (i32, i32),
}

impl Default for Settings {
    /// An empty log path, both windows at the origin.
    fn default() -> (r: Settings)
        ensures
            r.logpath@ == Seq::<char>::empty(),
            r.incoming_position == (0i32, 0i32),
            r.outgoing_position == (0i32, 0i32),
    {
        Settings {
            logpath: String::new(),
            incoming_position: (0, 0),
            outgoing_position: (0, 0),
        }
    }
}

} // verus!
