//! How a worker thread stops, and what is logged of it.
use vstd::prelude::*;

verus! {

/// How a worker thread ends its loop.
#[derive(Debug, PartialEq, Eq, Structural)]
pub enum Stops {
    GracefullStop,
    UngracefullStop,
    Continue,
}

impl Stops {
    /// What to log when a worker stops: `starting_message` followed by how it
    /// finished; nothing when it goes on.
    pub fn log_message(&self, starting_message: String) -> (r: String)
        ensures
            r@ == match self {
                Stops::GracefullStop => starting_message@ + ": finished gracefully"@,
                Stops::UngracefullStop => starting_message@ + ": finished ungracefully"@,
                Stops::Continue => Seq::<char>::empty(),
            },
    {
        match self {
            Stops::GracefullStop => starting_message.concat(": finished gracefully"),
            Stops::UngracefullStop => starting_message.concat(": finished ungracefully"),
            Stops::Continue => String::new(),
        }
    }
}

} // verus!
