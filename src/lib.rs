//! A host-backed asynchronous TCP stream socket, modelled as verified state
//! machines: the per-socket lifecycle, the sender and receiver pipelines over
//! bounded circular buffers, the listener backlog, the level-triggered
//! readiness cell, and an epoll-like multiplexer.
//!
//! Every operation that would talk to the host (a `connect`, `accept`,
//! `sendmsg` or `recvmsg` submission) is returned to the caller as a request
//! value; the caller performs it and hands the completion back.

pub mod errno;
pub mod events;
pub mod circular_buf;
pub mod readiness;
pub mod common;
pub mod connecting;
pub mod connected;
pub mod backlog;
pub mod listener;
pub mod stream;
pub mod epoll;
