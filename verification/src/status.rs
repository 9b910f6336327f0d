//! The status of a chat record.

use vstd::prelude::*;

verus! {

/// What a record stands for.
#[derive(Clone, Copy, Debug, PartialEq, Eq, Structural)]
pub enum Status {
    /// A message that a user wrote.
    Normal,
    /// The notice that a session has entered a room.
    Connected,
    /// The notice that a session has left a room.
    Disconnected,
    /// A record read back from the log for replay.
    RollBack,
}

impl Status {
    /// The number that stands for the status on the wire.
    pub open spec fn spec_code(self) -> i8 {
        match self {
            Status::Normal => 0,
            Status::Connected => 1,
            Status::Disconnected => 2,
            Status::RollBack => 3,
        }
    }

    /// The number that stands for the status on the wire.
    #[verifier::when_used_as_spec(spec_code)]
    pub fn code(self) -> (c: i8)
        ensures
            c == self.spec_code(),
    {
        match self {
            Status::Normal => 0,
            Status::Connected => 1,
            Status::Disconnected => 2,
            Status::RollBack => 3,
        }
    }
}

} // verus!
