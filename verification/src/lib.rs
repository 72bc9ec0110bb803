//! A diagnostic workload that reports the service bindings mounted into its
//! file system: the projection of a two-level directory tree onto a list of
//! bindings, written as a state machine that an I/O shell drives, and the
//! rules that turn a route and a projection's outcome into an HTTP reply.

pub mod binding;
pub mod laws;
pub mod order;
pub mod projector;
pub mod surface;
pub mod tree;
