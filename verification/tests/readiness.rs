use mill_io::error::Error;
use mill_io::event_loop::{EventHandler, EventLoop};
use mill_io::interest::Interest;
use nix::errno::Errno;
use nix::sys::socket::{socketpair, AddressFamily, SockFlag, SockType};
use nix::unistd;
use std::cell::RefCell;
use std::io;
use std::rc::Rc;

/// The number of a descriptor, read from its debug form.
fn raw_fd<T: std::fmt::Debug>(fd: &T) -> i32 {
    let text = format!("{:?}", fd);
    let digits: String = text.chars().filter(|c| c.is_ascii_digit()).collect();
    digits.parse().unwrap()
}

type Log = Rc<RefCell<Vec<(&'static str, char, i32)>>>;

/// Reads what has arrived on each read event, as a handler of a
/// non-blocking socket does: that nothing is left to read is no error.
/// Fails once it has read the byte `stop`.
struct Reader {
    name: &'static str,
    log: Log,
    stop: u8,
}

impl EventHandler for Reader {
    fn handle_read(&mut self, fd: i32) -> io::Result<()> {
        self.log.borrow_mut().push((self.name, 'r', fd));
        let mut buffer = [0u8; 64];
        loop {
            match unistd::read(fd, &mut buffer) {
                Ok(0) => return Ok(()),
                Ok(n) => {
                    if buffer[..n].contains(&self.stop) {
                        return Err(io::Error::new(io::ErrorKind::Interrupted, "told to stop"));
                    }
                }
                Err(Errno::EAGAIN) => return Ok(()),
                Err(errno) => return Err(io::Error::from_raw_os_error(errno as i32)),
            }
        }
    }

    fn handle_write(&mut self, fd: i32) -> io::Result<()> {
        self.log.borrow_mut().push((self.name, 'w', fd));
        Ok(())
    }
}

fn edge_readable() -> Interest {
    Interest::readable().union(Interest::edge_triggered())
}

#[test]
fn turn_delivers_a_written_byte_to_the_registered_handler_once() {
    let log = Log::default();
    let (sock, peer) =
        socketpair(AddressFamily::Unix, SockType::Stream, None, SockFlag::SOCK_NONBLOCK).unwrap();
    let fd = raw_fd(&sock);
    let mut event_loop = EventLoop::new().unwrap();
    event_loop.add_handler(fd, edge_readable(), Reader { name: "a", log: log.clone(), stop: b'!' }).unwrap();

    assert_eq!(unistd::write(&peer, b"x").unwrap(), 1);
    assert!(event_loop.turn().is_ok());
    assert_eq!(*log.borrow(), vec![("a", 'r', fd)]);

    // One more write, one more wait: one more call, not two.
    assert_eq!(unistd::write(&peer, b"y").unwrap(), 1);
    assert!(event_loop.turn().is_ok());
    assert_eq!(*log.borrow(), vec![("a", 'r', fd), ("a", 'r', fd)]);
}

#[test]
fn turn_does_not_report_a_descriptor_that_has_nothing_to_read() {
    let log = Log::default();
    let (quiet, _quiet_peer) =
        socketpair(AddressFamily::Unix, SockType::Stream, None, SockFlag::SOCK_NONBLOCK).unwrap();
    let (busy, busy_peer) =
        socketpair(AddressFamily::Unix, SockType::Stream, None, SockFlag::SOCK_NONBLOCK).unwrap();
    let (fq, fb) = (raw_fd(&quiet), raw_fd(&busy));
    let mut event_loop = EventLoop::new().unwrap();
    event_loop.add_handler(fq, edge_readable(), Reader { name: "quiet", log: log.clone(), stop: b'!' }).unwrap();
    event_loop.add_handler(fb, edge_readable(), Reader { name: "busy", log: log.clone(), stop: b'!' }).unwrap();

    assert_eq!(unistd::write(&busy_peer, b"x").unwrap(), 1);
    assert!(event_loop.turn().is_ok());
    assert_eq!(*log.borrow(), vec![("busy", 'r', fb)]);
}

#[test]
fn turn_serves_two_ready_descriptors_each_exactly_once() {
    let log = Log::default();
    let (a, peer_a) =
        socketpair(AddressFamily::Unix, SockType::Stream, None, SockFlag::SOCK_NONBLOCK).unwrap();
    let (b, peer_b) =
        socketpair(AddressFamily::Unix, SockType::Stream, None, SockFlag::SOCK_NONBLOCK).unwrap();
    let (fa, fb) = (raw_fd(&a), raw_fd(&b));
    let mut event_loop = EventLoop::new().unwrap();
    event_loop.add_handler(fa, edge_readable(), Reader { name: "a", log: log.clone(), stop: b'!' }).unwrap();
    event_loop.add_handler(fb, edge_readable(), Reader { name: "b", log: log.clone(), stop: b'!' }).unwrap();

    assert_eq!(unistd::write(&peer_a, b"x").unwrap(), 1);
    assert_eq!(unistd::write(&peer_b, b"y").unwrap(), 1);
    assert!(event_loop.turn().is_ok());

    let mut calls = log.borrow().clone();
    calls.sort();
    assert_eq!(calls, vec![("a", 'r', fa), ("b", 'r', fb)]);
}

#[test]
fn turn_reports_writability_to_the_write_callback() {
    let log = Log::default();
    let (sock, _peer) =
        socketpair(AddressFamily::Unix, SockType::Stream, None, SockFlag::SOCK_NONBLOCK).unwrap();
    let fd = raw_fd(&sock);
    let mut event_loop = EventLoop::new().unwrap();
    let flags = Interest::writable().union(Interest::edge_triggered());
    event_loop.add_handler(fd, flags, Reader { name: "a", log: log.clone(), stop: b'!' }).unwrap();
    assert!(event_loop.turn().is_ok());
    assert_eq!(*log.borrow(), vec![("a", 'w', fd)]);
}

#[test]
fn turn_calls_read_before_write_when_both_are_ready() {
    let log = Log::default();
    let (sock, peer) =
        socketpair(AddressFamily::Unix, SockType::Stream, None, SockFlag::SOCK_NONBLOCK).unwrap();
    let fd = raw_fd(&sock);
    let mut event_loop = EventLoop::new().unwrap();
    let flags = Interest::readable().union(Interest::writable());
    event_loop.add_handler(fd, flags, Reader { name: "a", log: log.clone(), stop: b'!' }).unwrap();
    assert_eq!(unistd::write(&peer, b"x").unwrap(), 1);
    assert!(event_loop.turn().is_ok());
    assert_eq!(*log.borrow(), vec![("a", 'r', fd), ("a", 'w', fd)]);
}

#[test]
fn run_returns_the_error_of_the_handler_that_failed() {
    let log = Log::default();
    let (sock, peer) =
        socketpair(AddressFamily::Unix, SockType::Stream, None, SockFlag::SOCK_NONBLOCK).unwrap();
    let fd = raw_fd(&sock);
    let mut event_loop = EventLoop::new().unwrap();
    event_loop.add_handler(fd, edge_readable(), Reader { name: "a", log: log.clone(), stop: b'!' }).unwrap();

    assert_eq!(unistd::write(&peer, b"!").unwrap(), 1);
    match event_loop.run() {
        Err(Error::Handler(error)) => {
            assert_eq!(error.kind(), io::ErrorKind::Interrupted);
            assert_eq!(error.to_string(), "told to stop");
        }
        other => panic!("expected the handler's error, got {:?}", other),
    }
    assert_eq!(*log.borrow(), vec![("a", 'r', fd)]);
}

/// Answers each byte but the last with the next one, so that the loop has
/// to go round several times, and fails on the last.
struct Countdown {
    log: Log,
    reply_to: i32,
    replies: Vec<u8>,
}

impl EventHandler for Countdown {
    fn handle_read(&mut self, fd: i32) -> io::Result<()> {
        self.log.borrow_mut().push(("countdown", 'r', fd));
        let mut buffer = [0u8; 8];
        loop {
            match unistd::read(fd, &mut buffer) {
                // Nothing more to read: that the read would block is success.
                Err(Errno::EAGAIN) => break,
                Err(errno) => return Err(io::Error::from_raw_os_error(errno as i32)),
                Ok(_) => {}
            }
        }
        match self.replies.pop() {
            Some(byte) => {
                let peer = nix::unistd::dup(self.reply_to).unwrap();
                let sent = nix::sys::socket::send(peer, &[byte], nix::sys::socket::MsgFlags::empty());
                let _ = nix::unistd::close(peer);
                sent.map(|_| ()).map_err(|errno| io::Error::from_raw_os_error(errno as i32))
            }
            None => Err(io::Error::new(io::ErrorKind::Other, "countdown over")),
        }
    }

    fn handle_write(&mut self, _fd: i32) -> io::Result<()> {
        Ok(())
    }
}

#[test]
fn run_goes_on_while_handlers_succeed_and_ends_with_the_first_error() {
    let log = Log::default();
    let (sock, peer) =
        socketpair(AddressFamily::Unix, SockType::Stream, None, SockFlag::SOCK_NONBLOCK).unwrap();
    let fd = raw_fd(&sock);
    let mut event_loop = EventLoop::new().unwrap();
    let handler = Countdown { log: log.clone(), reply_to: raw_fd(&peer), replies: vec![3, 2, 1] };
    event_loop.add_handler(fd, edge_readable(), handler).unwrap();

    assert_eq!(unistd::write(&peer, &[4]).unwrap(), 1);
    match event_loop.run() {
        Err(Error::Handler(error)) => {
            assert_eq!(error.kind(), io::ErrorKind::Other);
            assert_eq!(error.to_string(), "countdown over");
        }
        other => panic!("expected the handler's error, got {:?}", other),
    }
    // Three turns that went well, each with a read that ended in "would
    // block", then the one that failed.
    assert_eq!(*log.borrow(), vec![("countdown", 'r', fd); 4]);
}

#[test]
fn would_block_inside_a_handler_does_not_end_a_turn() {
    let log = Log::default();
    let (sock, peer) =
        socketpair(AddressFamily::Unix, SockType::Stream, None, SockFlag::SOCK_NONBLOCK).unwrap();
    let fd = raw_fd(&sock);
    // Nothing was written: the read inside the handler would block.
    let mut buffer = [0u8; 1];
    assert_eq!(unistd::read(fd, &mut buffer), Err(Errno::EAGAIN));
    let mut event_loop = EventLoop::new().unwrap();
    let flags = Interest::readable().union(Interest::writable());
    let mut handler = Reader { name: "a", log: log.clone(), stop: b'!' };
    assert!(handler.handle_read(fd).is_ok());
    log.borrow_mut().clear();
    event_loop.add_handler(fd, flags, handler).unwrap();
    assert!(event_loop.turn().is_ok());
    assert_eq!(*log.borrow(), vec![("a", 'w', fd)]);
    drop(peer);
}

#[test]
fn turn_takes_no_more_than_a_full_batch_and_defers_the_rest() {
    // More ready descriptors than one wait takes: none is lost, the rest
    // comes with the next wait.
    let count = 1100;
    let reads = Rc::new(RefCell::new(Vec::new()));
    struct Once {
        reads: Rc<RefCell<Vec<i32>>>,
    }
    impl EventHandler for Once {
        fn handle_read(&mut self, fd: i32) -> io::Result<()> {
            self.reads.borrow_mut().push(fd);
            Ok(())
        }
        fn handle_write(&mut self, _fd: i32) -> io::Result<()> {
            Ok(())
        }
    }
    let mut event_loop = EventLoop::new().unwrap();
    let mut sockets = Vec::new();
    let mut expected = Vec::new();
    for _ in 0..count {
        let pair =
            match socketpair(AddressFamily::Unix, SockType::Stream, None, SockFlag::SOCK_NONBLOCK) {
                Ok(pair) => pair,
                // The process may not hold that many descriptors.
                Err(Errno::EMFILE) => return,
                Err(errno) => panic!("socketpair: {}", errno),
            };
        let fd = raw_fd(&pair.0);
        event_loop.add_handler(fd, edge_readable(), Once { reads: reads.clone() }).unwrap();
        assert_eq!(unistd::write(&pair.1, b"x").unwrap(), 1);
        expected.push(fd);
        sockets.push(pair);
    }
    assert!(event_loop.turn().is_ok());
    assert_eq!(reads.borrow().len(), 1024);
    assert!(event_loop.turn().is_ok());
    let mut seen = reads.borrow().clone();
    seen.sort();
    expected.sort();
    assert_eq!(seen, expected);
}
