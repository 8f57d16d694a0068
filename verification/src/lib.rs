//! A multi-producer, multi-consumer queue that natively supports batched enqueue and dequeue
//! operations: a burst of items is sent or received in a single operation, as many as fit at the
//! time.

pub mod accord;
pub mod asked;
pub mod bell;
pub mod burst;
pub mod channel;
pub mod count;
pub mod ends;
pub mod error;
pub mod gate;
pub mod handle;
pub mod laws;
pub mod model;
mod outside;
pub mod plan;
pub mod reports;
pub mod ring;
pub mod shared;
pub mod step;
pub mod vault;
pub mod word;

pub use accord::{Accord, Free, Open};
pub use channel::{
    mpmc, mpmc_with_accord, mpmc_with_rule, send_settled, settled, Receiver, Sender,
};
pub use error::Error;
pub use handle::{Read, ReadIter, Write};
