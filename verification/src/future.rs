//! The future trait, under the path where users of the executor look for it.

pub use crate::task::SimpleFuture;
