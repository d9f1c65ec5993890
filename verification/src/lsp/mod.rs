//! LSP plumbing: `Content-Length` framing and the bookkeeping of a session
//! shared by several clients.

pub mod aux;
pub mod frame;
pub mod messages;
pub mod session;
