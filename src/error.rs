//! The errors that reach a caller of the queue.
use vstd::prelude::*;

verus! {

/// Why an activity could not be handed to the queue, or the queue could
/// not be shut down cleanly.
#[derive(Debug, Clone, Copy, PartialEq, Eq, Structural)]
pub enum Error {
    /// The sending actor has no private key.
    MissingPrivateKey,
    /// The actor's private key is not a PEM-encoded key.
    InvalidPrivateKey,
    /// The queue was shut down: no worker channel accepts tasks any more.
    QueueClosed,
    /// A worker ended abnormally.
    WorkerPanicked,
    /// The counters were still shared when the queue shut down.
    StatsStillShared,
}

impl Error {
    /// A short description of each error.
    pub open spec fn spec_message(self) -> Seq<char> {
        match self {
            Error::MissingPrivateKey => "actor does not contain a private key for signing"@,
            Error::InvalidPrivateKey => "could not create private key from PEM data"@,
            Error::QueueClosed => "activity queue is closed"@,
            Error::WorkerPanicked => "an activity queue worker panicked"@,
            Error::StatsStillShared => "could not retrieve activity queue stats"@,
        }
    }

    /// A short description of the error.
    pub fn message(&self) -> (r: &'static str)
        ensures
            r@ == self.spec_message(),
    {
        proof {
            reveal_strlit("actor does not contain a private key for signing");
            reveal_strlit("could not create private key from PEM data");
            reveal_strlit("activity queue is closed");
            reveal_strlit("an activity queue worker panicked");
            reveal_strlit("could not retrieve activity queue stats");
        }
        match self {
            Error::MissingPrivateKey => "actor does not contain a private key for signing",
            Error::InvalidPrivateKey => "could not create private key from PEM data",
            Error::QueueClosed => "activity queue is closed",
            Error::WorkerPanicked => "an activity queue worker panicked",
            Error::StatsStillShared => "could not retrieve activity queue stats",
        }
    }
}

} // verus!
