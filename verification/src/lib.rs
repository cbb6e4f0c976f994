//! A message-driven job worker core: a codec for the command/response wire
//! format, and the worker loop's decision logic. The surrounding process
//! (bus connections, blocking receive, publish) lives outside the library
//! and drives these functions.

pub mod codec;
pub mod schema;
pub mod worker;
