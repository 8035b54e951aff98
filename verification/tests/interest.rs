use mill_io::event::{token_for, Event};
use mill_io::interest::{Interest, EDGE_TRIGGERED, NAMED, READABLE, WRITABLE};
use nix::sys::epoll::EpollFlags;

#[test]
fn flag_bits_are_those_of_epoll() {
    assert_eq!(READABLE, EpollFlags::EPOLLIN.bits() as u32);
    assert_eq!(WRITABLE, EpollFlags::EPOLLOUT.bits() as u32);
    assert_eq!(EDGE_TRIGGERED, EpollFlags::EPOLLET.bits() as u32);
}

#[test]
fn flag_bits_have_their_exact_values() {
    assert_eq!(Interest::readable().bits(), 0x1);
    assert_eq!(Interest::writable().bits(), 0x4);
    assert_eq!(Interest::edge_triggered().bits(), 0x8000_0000);
}

#[test]
fn named_flags_are_those_that_epoll_names() {
    assert_eq!(NAMED, EpollFlags::all().bits() as u32);
    assert_eq!(NAMED, 0xf000_27df);
}

#[test]
fn from_bits_takes_named_flags_and_keeps_every_bit() {
    assert_eq!(Interest::from_bits(0).unwrap().bits(), 0);
    assert_eq!(Interest::from_bits(0x18).unwrap().bits(), 0x18);
    assert_eq!(Interest::from_bits(0x8000_0005).unwrap().bits(), 0x8000_0005);
    assert_eq!(Interest::from_bits(NAMED).unwrap().bits(), NAMED);
    assert_eq!(Interest::from_bits(READABLE), Some(Interest::readable()));
    assert_eq!(Interest::from_bits(WRITABLE), Some(Interest::writable()));
    assert_eq!(Interest::from_bits(EDGE_TRIGGERED), Some(Interest::edge_triggered()));
}

#[test]
fn from_bits_refuses_a_bit_without_a_name() {
    assert_eq!(Interest::from_bits(0x20), None);
    assert_eq!(Interest::from_bits(0x8000), None);
    assert_eq!(Interest::from_bits(0x8001), None);
    assert_eq!(Interest::from_bits(0xdead_beef), None);
    assert_eq!(Interest::from_bits(u32::MAX), None);
    assert_eq!(Interest::from_bits(!NAMED), None);
}

#[test]
fn from_bits_agrees_with_epoll_on_every_single_bit() {
    for shift in 0..32 {
        let bit = 1u32 << shift;
        assert_eq!(
            Interest::from_bits(bit).is_some(),
            EpollFlags::from_bits(bit as i32).is_some(),
            "bit {}",
            shift
        );
    }
}

#[test]
fn union_sets_the_bits_of_both() {
    let both = Interest::readable().union(Interest::writable());
    assert_eq!(both.bits(), 0x5);
    let edge = Interest::readable().union(Interest::edge_triggered());
    assert_eq!(edge.bits(), 0x8000_0001);
    assert_eq!(both.union(both), both);
    assert_eq!(Interest::from_bits(0).unwrap().union(Interest::writable()), Interest::writable());
}

#[test]
fn readable_and_writable_are_told_apart() {
    assert!(Interest::readable().is_readable());
    assert!(!Interest::readable().is_writable());
    assert!(Interest::writable().is_writable());
    assert!(!Interest::writable().is_readable());
    let both = Interest::readable().union(Interest::writable());
    assert!(both.is_readable() && both.is_writable());
    assert!(!Interest::edge_triggered().is_readable());
    assert!(!Interest::edge_triggered().is_writable());
    assert!(!Interest::from_bits(0).unwrap().is_readable());
    assert!(!Interest::from_bits(0).unwrap().is_writable());
    // Bits next to the two are neither.
    assert!(!Interest::from_bits(0x2).unwrap().is_readable());
    assert!(!Interest::from_bits(0x2).unwrap().is_writable());
    assert!(Interest::from_bits(0x19).unwrap().is_readable());
}

#[test]
fn token_is_the_descriptor_widened() {
    assert_eq!(token_for(0), 0);
    assert_eq!(token_for(5), 5);
    assert_eq!(token_for(i32::MAX), 0x7fff_ffff);
    assert_eq!(token_for(-1), u64::MAX);
    assert_eq!(token_for(i32::MIN), 0xffff_ffff_8000_0000);
}

#[test]
fn descriptor_is_found_again_from_its_token() {
    for fd in [0, 1, 5, 1023, 65536, i32::MAX, -1, -2, i32::MIN] {
        let event = Event::new(fd, Interest::readable());
        assert_eq!(event.token, token_for(fd));
        assert_eq!(event.fd(), fd);
        assert_eq!(event.flags, Interest::readable());
    }
}

#[test]
fn descriptor_of_an_event_is_the_low_half_of_its_token() {
    let event = Event { token: 0x0000_0001_0000_0005, flags: Interest::writable() };
    assert_eq!(event.fd(), 5);
    let event = Event { token: 0x0000_0000_ffff_ffff, flags: Interest::writable() };
    assert_eq!(event.fd(), -1);
    let event = Event { token: 0xabcd_ef01_8000_0000, flags: Interest::writable() };
    assert_eq!(event.fd(), i32::MIN);
}
