//! Event publishing and consumption over a managed message queue: the
//! record codec, the batch request builders, the client handle and the
//! decisions of a polling worker.

pub mod batch;
pub mod client;
pub mod event;
pub mod worker;
