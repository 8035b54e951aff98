//! A readiness-based I/O event loop on top of epoll.
//!
//! One thread watches many file descriptors. Each descriptor is registered
//! together with a handler; whenever the kernel reports a descriptor ready
//! for reading or writing, the handler bound to it is called, and to no
//! other.
pub mod dispatch;
pub mod error;
pub mod event;
pub mod event_loop;
pub mod interest;
mod sys;
