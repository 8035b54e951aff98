//! Readiness events, and the token that ties an event to a descriptor.
use crate::interest::Interest;
use vstd::prelude::*;

verus! {

/// The token under which descriptor `fd` is registered with the kernel: the
/// descriptor itself, widened to the 64 bits of user data that epoll keeps
/// with each registration.
pub open spec fn token_of(fd: i32) -> u64 {
    fd as u64
}

/// The descriptor that a token stands for: its low 32 bits.
pub open spec fn descriptor_of(token: u64) -> i32 {
    token as i32
}

/// A descriptor is found again from its own token.
pub proof fn lemma_token_round_trip(fd: i32)
    ensures
        descriptor_of(token_of(fd)) == fd,
{
    assert((fd as u64) as i32 == fd) by (bit_vector);
}

/// Computes the token under which `fd` is registered.
pub fn token_for(fd: i32) -> (token: u64)
    ensures
        token == token_of(fd),
{
    #[verifier::truncate]
    (fd as u64)
}

/// One readiness event, as the kernel reports it: the token of the
/// registration that became ready, and the flags that triggered.
#[derive(Clone, Copy, Debug, PartialEq, Eq, Structural)]
pub struct Event {
    pub token: u64,
    pub flags: Interest,
}

impl Event {
    /// The descriptor that the event is about.
    pub open spec fn descriptor(self) -> i32 {
        descriptor_of(self.token)
    }

    /// The event that reports `flags` on descriptor `fd`.
    pub fn new(fd: i32, flags: Interest) -> (event: Event)
        ensures
            event.token == token_of(fd),
            event.flags == flags,
            event.descriptor() == fd,
    {
        proof {
            lemma_token_round_trip(fd);
        }
        Event { token: token_for(fd), flags }
    }

    /// The descriptor that the event is about.
    pub fn fd(&self) -> (fd: i32)
        ensures
            fd == self.descriptor(),
    {
        #[verifier::truncate]
        (self.token as i32)
    }
}

} // verus!
