//! Verified core of a set of message-passing exercises: how work is split
//! between the processes of a group, which messages each process sends and
//! receives, and the arithmetic that the processes perform on their share.

pub mod executor;
pub mod patterns;
pub mod topology;
mod random;
pub mod integration;
pub mod matrix;

pub use executor::Executor;
pub use matrix::Matrix;
