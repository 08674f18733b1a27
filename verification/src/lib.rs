//! FieldChain: a tamper-evident chain of field submissions.
//!
//! Each submission is hashed into a chain record whose wavehash commits to
//! the previous head of the chain, to a monotonic counter reading and to
//! the hashes of the submission's media files.

pub mod chain;
pub mod config;
pub mod hash;
pub mod order;
pub mod package;
pub mod phoenix;
pub mod saf;
pub mod timing;
pub mod watcher;
pub mod xml;

pub use config::Config;
pub use hash::ChainRecord;
pub use phoenix::Phoenix;
pub use timing::Counter;
