//! The system calls that the event loop makes, through the `nix` crate.
use crate::interest::named;
use nix::sys::epoll::{EpollCreateFlags, EpollEvent, EpollFlags, EpollOp};
use vstd::prelude::*;

verus! {

/// Creates an epoll instance with `nix::sys::epoll::epoll_create1`, with no
/// creation flags, and returns its descriptor, or the `errno` of the
/// failure. Nothing is claimed of when the kernel grants one.
#[verifier::external_body]
pub(crate) fn create_context() -> (r: Result<i32, i32>) {
    #[allow(deprecated)]
    match nix::sys::epoll::epoll_create1(EpollCreateFlags::empty()) {
        Ok(context) => Ok(context),
        Err(errno) => Err(errno as i32),
    }
}

/// Adds `fd` to the interest list of the epoll instance `context` with
/// `nix::sys::epoll::epoll_ctl` and the operation `EpollCtlAdd`. The event
/// handed over carries `bits` as its flags, none dropped, and `token` as its
/// user data. Returns the `errno` of a failure. Nothing is claimed of when
/// the kernel accepts a registration. Only named flags may be asked for, so
/// that the kernel has no cause to report another.
#[verifier::external_body]
pub(crate) fn register(context: i32, fd: i32, token: u64, bits: u32) -> (r: Result<(), i32>)
    requires
        named(bits),
{
    let mut event = EpollEvent::new(EpollFlags::from_bits_retain(bits as i32), token);
    #[allow(deprecated)]
    match nix::sys::epoll::epoll_ctl(context, EpollOp::EpollCtlAdd, fd, &mut event) {
        Ok(()) => Ok(()),
        Err(errno) => Err(errno as i32),
    }
}

/// Blocks in `nix::sys::epoll::epoll_wait` on the epoll instance `context`
/// for at most `timeout_ms` milliseconds, without end if that is -1, with
/// room for `capacity` events. Returns the events that the kernel reported,
/// in its order, each as its user data and the bits of its flags; or the
/// `errno` of a failure.
///
/// Two claims are made. The kernel reports at most as many events as there
/// is room for. And the flags come from `EpollEvent::events`, which hands
/// out named flags only: on any other bit it panics. The loop asks the
/// kernel for named flags only, and the kernel reports of a descriptor what
/// was asked for, errors and hang-ups, all of which have names.
#[verifier::external_body]
pub(crate) fn wait(context: i32, capacity: usize, timeout_ms: isize) -> (r: Result<
    Vec<(u64, u32)>,
    i32,
>)
    ensures
        r matches Ok(events) ==> {
            &&& events.len() <= capacity
            &&& forall|i: int| 0 <= i < events.len() ==> named((#[trigger] events[i]).1)
        },
{
    let mut buffer = vec![EpollEvent::empty(); capacity];
    #[allow(deprecated)]
    match nix::sys::epoll::epoll_wait(context, &mut buffer, timeout_ms) {
        Ok(n) => Ok(buffer[..n].iter().map(|e| (e.data(), e.events().bits() as u32)).collect()),
        Err(errno) => Err(errno as i32),
    }
}

/// Closes the descriptor `context` with `nix::unistd::close`. A failure of
/// the system call is not reported.
#[verifier::external_body]
pub(crate) fn close(context: i32)
    opens_invariants none
    no_unwind
{
    let _ = nix::unistd::close(context);
}

} // verus!
