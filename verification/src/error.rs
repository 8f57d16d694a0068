//! What can go wrong.

use vstd::prelude::*;

verus! {

/// An error that may be returned when the queue is shutting down - when all senders or all
/// receivers have been dropped.
#[derive(Clone, Copy, Debug, Eq, PartialEq, Structural)]
pub enum Error {
    Shutdown,
}

}
