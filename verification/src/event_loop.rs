//! The event loop and the contract of its handlers.
use crate::dispatch::{
    batch_plan, carried_out, dispatched, event_plan, lemma_batch_plan_concat,
    lemma_batch_plan_prefix, lemma_batch_plan_push, lemma_carried_out_in_turn,
    lemma_failure_ends_plan, lemma_planned_call_answers_event, Call, Callback, Invocation,
};
use crate::error::{handler_result, Error};
use crate::event::{token_for, Event};
use crate::interest::{named, Interest};
use crate::sys;
use std::collections::HashMap;
use vstd::prelude::*;

verus! {

/// The reaction to readiness of one descriptor.
///
/// Both callbacks run on the loop's thread and must not block. A handler
/// that finds that its operation would block returns `Ok(())`: an error that
/// it returns ends the loop.
///
/// A handler may say what it promises of each callback: in which states,
/// and with which outcomes, a call can leave it. The loop asks for no
/// promise, and a handler that makes none keeps the two defaults, which hold
/// of every call.
pub trait EventHandler {
    /// Whether the read callback, called for `fd`, may return `outcome` and
    /// leave the handler as `self`.
    open spec fn after_read(&self, fd: i32, outcome: Result<(), std::io::Error>) -> bool {
        true
    }

    /// Whether the write callback, called for `fd`, may return `outcome` and
    /// leave the handler as `self`.
    open spec fn after_write(&self, fd: i32, outcome: Result<(), std::io::Error>) -> bool {
        true
    }

    /// Called when `fd` is ready for reading.
    fn handle_read(&mut self, fd: i32) -> (outcome: Result<(), std::io::Error>)
        ensures
            final(self).after_read(fd, outcome),
    ;

    /// Called when `fd` is ready for writing.
    fn handle_write(&mut self, fd: i32) -> (outcome: Result<(), std::io::Error>)
        ensures
            final(self).after_write(fd, outcome),
    ;
}

/// A boxed handler is a handler: it hands each call on to what is in the
/// box, returns what that call returned, and promises of it what the handler
/// in the box promises. With it a loop can hold handlers of different types,
/// as `EventLoop<Box<dyn EventHandler>>`.
impl<H: EventHandler + ?Sized> EventHandler for Box<H> {
    open spec fn after_read(&self, fd: i32, outcome: Result<(), std::io::Error>) -> bool {
        (**self).after_read(fd, outcome)
    }

    open spec fn after_write(&self, fd: i32, outcome: Result<(), std::io::Error>) -> bool {
        (**self).after_write(fd, outcome)
    }

    fn handle_read(&mut self, fd: i32) -> (outcome: Result<(), std::io::Error>) {
        (**self).handle_read(fd)
    }

    fn handle_write(&mut self, fd: i32) -> (outcome: Result<(), std::io::Error>) {
        (**self).handle_write(fd)
    }
}

/// An entry of the registration table: the handler of a descriptor, and
/// the flags with which the descriptor was registered with the kernel. The
/// flags are kept for reasoning only; at run time an entry is its handler.
pub struct Registration<H> {
    pub handler: H,
    pub interest: Ghost<Interest>,
}

/// An epoll instance together with the handlers of the descriptors that it
/// watches.
///
/// The loop owns the epoll instance and closes it when it is dropped. A
/// descriptor enters the table only after the kernel accepted it for the
/// epoll instance, with the flags that the entry records, and no entry ever
/// leaves. Besides its table the loop keeps, for reasoning only, the list of
/// the handler calls that it has made, each with the handler as the call
/// found it and as the call left it, the list of the events that its waits
/// have brought, the count of those waits, and where in the two lists the
/// latest wait came back.
pub struct EventLoop<H: EventHandler = Box<dyn EventHandler>> {
    context: i32,
    handlers: HashMap<i32, Registration<H>>,
    journal: Ghost<Seq<Invocation<H>>>,
    delivered: Ghost<Seq<Event>>,
    waits: Ghost<nat>,
    batch_mark: Ghost<nat>,
    call_mark: Ghost<nat>,
}

/// The most events that one wait takes from the kernel. Events that are
/// ready beyond that are taken by the next wait.
pub const MAX_EVENTS: usize = 1024;

/// The most turns that one call of `run` makes.
pub const MAX_TURNS: u64 = 0xffff_ffff_ffff_ffff;

/// The timeout that makes a wait block until the kernel has an event.
pub const NO_TIMEOUT: isize = -1;

/// Whether one of the calls `calls` went to the handler of `fd`.
pub open spec fn reaches<H>(calls: Seq<Invocation<H>>, fd: i32) -> bool {
    exists|i: int| 0 <= i < calls.len() && (#[trigger] calls[i]).call.fd == fd
}

/// Whether the call `made` is one that its handler allows: the handler's
/// promise of the callback holds of the outcome and of the handler as the
/// call left it.
pub open spec fn kept_promise<H: EventHandler>(made: Invocation<H>) -> bool {
    match made.call.callback {
        Callback::Read => made.left.after_read(made.call.fd, made.outcome),
        Callback::Write => made.left.after_write(made.call.fd, made.outcome),
    }
}

/// The handler of `fd` after the calls `calls`, where it was `start` before
/// them: as the last of the calls that went to it left it, or `start` if
/// none did.
pub open spec fn left_by<H>(start: H, calls: Seq<Invocation<H>>, fd: i32) -> H
    decreases calls.len(),
{
    if calls.len() == 0 {
        start
    } else if calls.last().call.fd == fd {
        calls.last().left
    } else {
        left_by(start, calls.drop_last(), fd)
    }
}

/// Whether the calls `calls` to one handler form a chain from `before` to
/// `after`: each call found the handler as the call before it left it, the
/// first as it was in `before`, and in `after` the handler is as the last
/// call left it.
#[verifier::opaque]
pub open spec fn chained<H>(
    before: Map<i32, Registration<H>>,
    after: Map<i32, Registration<H>>,
    calls: Seq<Invocation<H>>,
) -> bool {
    &&& forall|fd: i32| #[trigger]
        before.contains_key(fd) ==> after[fd].handler == left_by(before[fd].handler, calls, fd)
    &&& forall|i: int|
        0 <= i < calls.len() ==> (#[trigger] calls[i]).found == left_by(
            before[calls[i].call.fd].handler,
            calls.take(i),
            calls[i].call.fd,
        )
}

/// Whether the table `after` is the table `before` after the calls `calls`
/// and nothing else. The same descriptors are registered, with the same
/// flags. Each call went to the handler of a registered descriptor and is one
/// that the handler allows. The calls to each handler form a chain from
/// `before` to `after`. An entry whose handler none of the calls went to is
/// as it was.
pub open spec fn same_but_called<H: EventHandler>(
    before: Map<i32, Registration<H>>,
    after: Map<i32, Registration<H>>,
    calls: Seq<Invocation<H>>,
) -> bool {
    &&& after.dom() == before.dom()
    &&& forall|fd: i32| #[trigger]
        before.contains_key(fd) ==> after[fd].interest@ == before[fd].interest@
    &&& forall|fd: i32| #[trigger]
        before.contains_key(fd) && !reaches(calls, fd) ==> after[fd] == before[fd]
    &&& forall|i: int|
        0 <= i < calls.len() ==> before.contains_key((#[trigger] calls[i]).call.fd) && kept_promise(
            calls[i],
        )
    &&& chained(before, after, calls)
}

/// Without a call the handlers are as they were.
pub proof fn lemma_chained_without_call<H>(table: Map<i32, Registration<H>>)
    ensures
        chained(table, table, Seq::<Invocation<H>>::empty()),
{
    reveal(chained);
}

/// What calls leave can be told in two steps: first what the earlier calls
/// leave, then what the later calls make of that.
pub proof fn lemma_left_by_in_turn<H>(
    start: H,
    first: Seq<Invocation<H>>,
    second: Seq<Invocation<H>>,
    fd: i32,
)
    ensures
        left_by(start, first + second, fd) == left_by(left_by(start, first, fd), second, fd),
    decreases second.len(),
{
    if second.len() == 0 {
        assert(first + second =~= first);
    } else {
        assert((first + second).drop_last() =~= first + second.drop_last());
        lemma_left_by_in_turn(start, first, second.drop_last(), fd);
    }
}

/// Tables change in steps: if the calls `first` lead from `before` to
/// `between`, and the calls `second` from there to `after`, then `first`
/// followed by `second` lead from `before` to `after`.
pub proof fn lemma_same_but_called_in_turn<H: EventHandler>(
    before: Map<i32, Registration<H>>,
    between: Map<i32, Registration<H>>,
    after: Map<i32, Registration<H>>,
    first: Seq<Invocation<H>>,
    second: Seq<Invocation<H>>,
)
    requires
        same_but_called(before, between, first),
        same_but_called(between, after, second),
    ensures
        same_but_called(before, after, first + second),
{
    let calls = first + second;
    assert forall|fd: i32| #[trigger] before.contains_key(fd) && !reaches(calls, fd) implies after[fd]
        == before[fd] by {
        if reaches(first, fd) {
            let i = choose|i: int| 0 <= i < first.len() && (#[trigger] first[i]).call.fd == fd;
            assert(calls[i] == first[i]);
        }
        if reaches(second, fd) {
            let i = choose|i: int| 0 <= i < second.len() && (#[trigger] second[i]).call.fd == fd;
            assert(calls[first.len() + i] == second[i]);
        }
    }
    assert forall|i: int| 0 <= i < calls.len() implies before.contains_key(
        (#[trigger] calls[i]).call.fd,
    ) && kept_promise(calls[i]) by {
        if i >= first.len() {
            assert(calls[i] == second[i - first.len()]);
        }
    }
    assert(chained(before, after, calls)) by {
        reveal(chained);
        assert forall|fd: i32| #[trigger] before.contains_key(fd) implies after[fd].handler
            == left_by(before[fd].handler, calls, fd) by {
            lemma_left_by_in_turn(before[fd].handler, first, second, fd);
        }
        assert forall|i: int| 0 <= i < calls.len() implies (#[trigger] calls[i]).found == left_by(
            before[calls[i].call.fd].handler,
            calls.take(i),
            calls[i].call.fd,
        ) by {
            let fd = calls[i].call.fd;
            if i < first.len() {
                assert(calls[i] == first[i]);
                assert(calls.take(i) =~= first.take(i));
            } else {
                let k = i - first.len();
                assert(calls[i] == second[k]);
                assert(calls.take(i) =~= first + second.take(k));
                lemma_left_by_in_turn(before[fd].handler, first, second.take(k), fd);
            }
        }
    }
}

/// No cross-talk: when a batch of events is dispatched, the entry of a
/// descriptor that none of the events is about stays as it was.
pub proof fn lemma_no_cross_talk<H: EventHandler>(
    before: Map<i32, Registration<H>>,
    after: Map<i32, Registration<H>>,
    calls: Seq<Invocation<H>>,
    events: Seq<Event>,
    result: Result<(), Error>,
    fd: i32,
)
    requires
        same_but_called(before, after, calls),
        carried_out(calls, batch_plan(before.dom(), events), result),
        before.contains_key(fd),
        forall|j: int| 0 <= j < events.len() ==> (#[trigger] events[j]).descriptor() != fd,
    ensures
        after[fd] == before[fd],
{
    if reaches(calls, fd) {
        let i = choose|i: int| 0 <= i < calls.len() && (#[trigger] calls[i]).call.fd == fd;
        lemma_planned_call_answers_event(before.dom(), events, i);
    }
}

/// Makes one call of `handler` and records it in `journal`, with the
/// handler as the call found it, what came back, and the handler as the call
/// left it.
fn invoke<H: EventHandler>(
    handler: &mut H,
    journal: &mut Ghost<Seq<Invocation<H>>>,
    fd: i32,
    callback: Callback,
) -> (outcome: Result<(), std::io::Error>)
    ensures
        final(journal)@ == old(journal)@.push(
            Invocation {
                call: Call { fd, callback },
                found: *old(handler),
                outcome,
                left: *final(handler),
            },
        ),
        kept_promise(final(journal)@.last()),
{
    let ghost found = *handler;
    let outcome = match callback {
        Callback::Read => handler.handle_read(fd),
        Callback::Write => handler.handle_write(fd),
    };
    *journal = Ghost(
        journal@.push(Invocation { call: Call { fd, callback }, found, outcome, left: *handler }),
    );
    outcome
}

/// Dispatches one event on the table `handlers`: the handler of the event's
/// descriptor, if there is one, gets the callbacks that the event asks for,
/// until one fails.
fn serve<H: EventHandler>(
    handlers: &mut HashMap<i32, Registration<H>>,
    journal: &mut Ghost<Seq<Invocation<H>>>,
    event: Event,
) -> (result: Result<(), Error>)
    ensures
        old(journal)@.is_prefix_of(final(journal)@),
        carried_out(
            final(journal)@.skip(old(journal)@.len() as int),
            event_plan(old(handlers)@.dom(), event),
            result,
        ),
        same_but_called(
            old(handlers)@,
            final(handlers)@,
            final(journal)@.skip(old(journal)@.len() as int),
        ),
{
    let fd = event.fd();
    let ghost before = handlers@;
    let ghost recorded = journal@;
    match handlers.remove(&fd) {
        None => {
            proof {
                assert(handlers@ =~= before);
                assert(journal@.skip(recorded.len() as int) =~= Seq::<Invocation<H>>::empty());
                lemma_chained_without_call(before);
            }
            Ok(())
        },
        Some(entry) => {
            let mut entry = entry;
            let mut outcome: Result<(), std::io::Error> = Ok(());
            if event.flags.is_readable() {
                outcome = invoke(&mut entry.handler, journal, fd, Callback::Read);
            }
            if outcome.is_ok() && event.flags.is_writable() {
                outcome = invoke(&mut entry.handler, journal, fd, Callback::Write);
            }
            handlers.insert(fd, entry);
            proof {
                let calls = journal@.skip(recorded.len() as int);
                reveal(chained);
                reveal_with_fuel(left_by, 3);
                assert(calls.take(0) =~= Seq::<Invocation<H>>::empty());
                if calls.len() == 2 {
                    assert(calls.take(1) =~= seq![calls[0]]);
                    assert(calls.drop_last() =~= seq![calls[0]]);
                }
                assert forall|other: i32| #[trigger] before.contains_key(other) implies handlers@[other].handler
                    == left_by(before[other].handler, calls, other) by {
                    if other != fd && calls.len() > 0 {
                        assert(calls.last().call.fd == fd);
                    }
                }
            }
            handler_result(outcome)
        },
    }
}

/// Dispatches the events `events` one after another, until a handler fails.
fn serve_all<H: EventHandler>(
    handlers: &mut HashMap<i32, Registration<H>>,
    journal: &mut Ghost<Seq<Invocation<H>>>,
    events: &Vec<Event>,
) -> (result: Result<(), Error>)
    ensures
        old(journal)@.is_prefix_of(final(journal)@),
        carried_out(
            final(journal)@.skip(old(journal)@.len() as int),
            batch_plan(old(handlers)@.dom(), events@),
            result,
        ),
        same_but_called(
            old(handlers)@,
            final(handlers)@,
            final(journal)@.skip(old(journal)@.len() as int),
        ),
{
    let ghost before = handlers@;
    let ghost recorded = journal@;
    let mut n: usize = 0;
    proof {
        assert(journal@.skip(recorded.len() as int) =~= Seq::<Invocation<H>>::empty());
        lemma_chained_without_call(before);
    }
    while n < events.len()
        invariant
            n <= events.len(),
            before == old(handlers)@,
            recorded == old(journal)@,
            recorded.is_prefix_of(journal@),
            carried_out(
                journal@.skip(recorded.len() as int),
                batch_plan(before.dom(), events@.take(n as int)),
                Ok(()),
            ),
            same_but_called(before, handlers@, journal@.skip(recorded.len() as int)),
        decreases events.len() - n,
    {
        let ghost between = handlers@;
        let ghost earlier = journal@;
        let result = serve(handlers, journal, events[n]);
        proof {
            let first = earlier.skip(recorded.len() as int);
            let second = journal@.skip(earlier.len() as int);
            assert(journal@.skip(recorded.len() as int) =~= first + second);
            lemma_same_but_called_in_turn(before, between, handlers@, first, second);
            lemma_carried_out_in_turn(
                first,
                batch_plan(before.dom(), events@.take(n as int)),
                second,
                event_plan(before.dom(), events@[n as int]),
                result,
            );
            assert(events@.take(n + 1) =~= events@.take(n as int).push(events@[n as int]));
            lemma_batch_plan_push(before.dom(), events@.take(n as int), events@[n as int]);
        }
        if result.is_err() {
            proof {
                lemma_batch_plan_prefix(before.dom(), events@, n + 1);
                lemma_failure_ends_plan(
                    journal@.skip(recorded.len() as int),
                    batch_plan(before.dom(), events@.take(n + 1)),
                    batch_plan(before.dom(), events@),
                    result,
                );
            }
            return result;
        }
        n += 1;
    }
    assert(events@.take(n as int) =~= events@);
    Ok(())
}

/// The events that a wait reported, each from its user data and the bits of
/// its flags.
fn reported(raw: &Vec<(u64, u32)>) -> (events: Vec<Event>)
    requires
        forall|i: int| 0 <= i < raw.len() ==> named((#[trigger] raw[i]).1),
    ensures
        events.len() == raw.len(),
        forall|i: int|
            0 <= i < raw.len() ==> (#[trigger] events[i]).token == raw[i].0 && events[i].flags@
                == raw[i].1,
{
    let mut events: Vec<Event> = Vec::new();
    let mut n: usize = 0;
    while n < raw.len()
        invariant
            n <= raw.len(),
            events.len() == n,
            forall|i: int| 0 <= i < raw.len() ==> named((#[trigger] raw[i]).1),
            forall|i: int|
                0 <= i < n ==> (#[trigger] events[i]).token == raw[i].0 && events[i].flags@
                    == raw[i].1,
        decreases raw.len() - n,
    {
        let (token, bits) = raw[n];
        if let Some(flags) = Interest::from_bits(bits) {
            events.push(Event { token, flags });
        }
        n += 1;
    }
    events
}

impl<H: EventHandler> EventLoop<H> {
    /// The descriptor of the epoll instance.
    pub closed spec fn context(&self) -> i32 {
        self.context
    }

    /// The registration table.
    pub closed spec fn table(&self) -> Map<i32, Registration<H>> {
        self.handlers@
    }

    /// Every call of a handler that the loop has made, oldest first.
    pub closed spec fn history(&self) -> Seq<Invocation<H>> {
        self.journal@
    }

    /// Every event that a wait of the loop has brought, oldest first.
    pub closed spec fn delivered(&self) -> Seq<Event> {
        self.delivered@
    }

    /// How many waits the loop has come back from with events.
    pub closed spec fn waits(&self) -> nat {
        self.waits@
    }

    /// The events that the latest wait brought.
    pub closed spec fn last_batch(&self) -> Seq<Event> {
        self.delivered@.skip(self.batch_mark@ as int)
    }

    /// The calls that the loop has made since its latest wait came back.
    pub closed spec fn last_calls(&self) -> Seq<Invocation<H>> {
        self.journal@.skip(self.call_mark@ as int)
    }

    /// The descriptors that have a handler.
    pub open spec fn registered(&self) -> Set<i32> {
        self.table().dom()
    }

    /// The calls that the loop has made since it was `before`.
    pub open spec fn calls_since(&self, before: &EventLoop<H>) -> Seq<Invocation<H>> {
        self.history().skip(before.history().len() as int)
    }

    /// The events that waits have brought since the loop was `before`.
    pub open spec fn events_since(&self, before: &EventLoop<H>) -> Seq<Event> {
        self.delivered().skip(before.delivered().len() as int)
    }

    /// Whether the loop is `before` after some waits and some calls of its
    /// handlers, and nothing else: the same epoll instance, the events and
    /// the history of `before` with those that came since added, and the
    /// table of `before` but for the handlers that were called.
    pub open spec fn follows(&self, before: &EventLoop<H>) -> bool {
        &&& self.context() == before.context()
        &&& before.waits() <= self.waits()
        &&& before.delivered().is_prefix_of(self.delivered())
        &&& before.history().is_prefix_of(self.history())
        &&& same_but_called(before.table(), self.table(), self.calls_since(before))
    }

    /// Creates an event loop with a new epoll instance and no handler.
    pub fn new() -> (result: Result<EventLoop<H>, Error>)
        ensures
            match result {
                Ok(event_loop) => {
                    &&& event_loop.table() == Map::<i32, Registration<H>>::empty()
                    &&& event_loop.history() == Seq::<Invocation<H>>::empty()
                    &&& event_loop.delivered() == Seq::<Event>::empty()
                    &&& event_loop.waits() == 0
                },
                Err(error) => error is Resource,
            },
    {
        Self::opened(sys::create_context())
    }

    /// What `new` makes of the outcome `created` of creating the epoll
    /// instance: a loop around the instance, with no handler, or the
    /// resource error with the `errno` that was reported.
    fn opened(created: Result<i32, i32>) -> (result: Result<EventLoop<H>, Error>)
        ensures
            match created {
                Ok(context) => {
                    &&& result matches Ok(event_loop)
                    &&& event_loop.context() == context
                    &&& event_loop.table() == Map::<i32, Registration<H>>::empty()
                    &&& event_loop.history() == Seq::<Invocation<H>>::empty()
                    &&& event_loop.delivered() == Seq::<Event>::empty()
                    &&& event_loop.waits() == 0
                },
                Err(errno) => result matches Err(Error::Resource(reported)) && reported == errno,
            },
    {
        match created {
            Ok(context) => Ok(
                EventLoop {
                    context,
                    handlers: HashMap::new(),
                    journal: Ghost(Seq::empty()),
                    delivered: Ghost(Seq::empty()),
                    waits: Ghost(0),
                    batch_mark: Ghost(0),
                    call_mark: Ghost(0),
                },
            ),
            Err(errno) => Err(Error::Resource(errno)),
        }
    }

    /// Registers `fd` with the kernel for the flags `events`, and `handler`
    /// as its handler. If the kernel refuses, the table stays as it was.
    pub fn add_handler(&mut self, fd: i32, events: Interest, handler: H) -> (result:
        Result<(), Error>)
        ensures
            final(self).context() == old(self).context(),
            final(self).history() == old(self).history(),
            final(self).delivered() == old(self).delivered(),
            final(self).waits() == old(self).waits(),
            match result {
                Ok(_) => final(self).table() == old(self).table().insert(
                    fd,
                    Registration { handler, interest: Ghost(events) },
                ),
                Err(error) => error is Resource && final(self).table() == old(self).table(),
            },
    {
        let accepted = sys::register(self.context, fd, token_for(fd), events.bits());
        self.enter(fd, events, handler, accepted)
    }

    /// What `add_handler` makes of the kernel's answer `accepted` to the
    /// registration of `fd`: if the kernel accepted, the handler is entered
    /// in the table under `fd`, in place of one that was there; if not, the
    /// table stays as it was and the result is the resource error with the
    /// `errno` that was reported.
    fn enter(&mut self, fd: i32, events: Interest, handler: H, accepted: Result<(), i32>) -> (result:
        Result<(), Error>)
        ensures
            final(self).context() == old(self).context(),
            final(self).history() == old(self).history(),
            final(self).delivered() == old(self).delivered(),
            final(self).waits() == old(self).waits(),
            match accepted {
                Ok(_) => {
                    &&& result is Ok
                    &&& final(self).table() == old(self).table().insert(
                        fd,
                        Registration { handler, interest: Ghost(events) },
                    )
                },
                Err(errno) => {
                    &&& result matches Err(Error::Resource(reported))
                    &&& reported == errno
                    &&& final(self).table() == old(self).table()
                },
            },
    {
        match accepted {
            Ok(()) => {
                self.handlers.insert(fd, Registration { handler, interest: Ghost(events) });
                Ok(())
            },
            Err(errno) => Err(Error::Resource(errno)),
        }
    }

    /// Dispatches one readiness event.
    pub fn dispatch_event(&mut self, event: Event) -> (result: Result<(), Error>)
        ensures
            final(self).follows(old(self)),
            final(self).waits() == old(self).waits(),
            final(self).delivered() == old(self).delivered(),
            carried_out(
                final(self).calls_since(old(self)),
                event_plan(old(self).registered(), event),
                result,
            ),
    {
        serve(&mut self.handlers, &mut self.journal, event)
    }

    /// Dispatches a batch of readiness events, in order, until a handler
    /// fails.
    pub fn dispatch_batch(&mut self, events: &Vec<Event>) -> (result: Result<(), Error>)
        ensures
            final(self).follows(old(self)),
            final(self).waits() == old(self).waits(),
            final(self).delivered() == old(self).delivered(),
            carried_out(
                final(self).calls_since(old(self)),
                batch_plan(old(self).registered(), events@),
                result,
            ),
    {
        serve_all(&mut self.handlers, &mut self.journal, events)
    }

    /// Makes one turn: waits, without a timeout, until the kernel reports
    /// readiness, and dispatches the events that it reports. A failure of
    /// the wait is returned before any handler is called.
    pub fn turn(&mut self) -> (result: Result<(), Error>)
        ensures
            final(self).follows(old(self)),
            final(self).events_since(old(self)).len() <= MAX_EVENTS,
            dispatched(
                final(self).calls_since(old(self)),
                old(self).registered(),
                final(self).events_since(old(self)),
                result,
            ),
            match result {
                Err(Error::Resource(_)) => {
                    &&& final(self).waits() == old(self).waits()
                    &&& final(self).events_since(old(self)).len() == 0
                    &&& final(self).calls_since(old(self)).len() == 0
                },
                _ => {
                    &&& final(self).waits() == old(self).waits() + 1
                    &&& final(self).last_batch() == final(self).events_since(old(self))
                    &&& final(self).last_calls() == final(self).calls_since(old(self))
                },
            },
    {
        let waited = match sys::wait(self.context, MAX_EVENTS, NO_TIMEOUT) {
            Ok(raw) => Ok(reported(&raw)),
            Err(errno) => Err(errno),
        };
        self.dispatch_waited(waited)
    }

    /// What `turn` makes of the outcome `waited` of its wait: the events
    /// that came are dispatched; a failure of the wait is returned as the
    /// resource error with the `errno` that was reported, and no handler is
    /// called.
    fn dispatch_waited(&mut self, waited: Result<Vec<Event>, i32>) -> (result: Result<(), Error>)
        ensures
            final(self).follows(old(self)),
            match waited {
                Ok(events) => {
                    &&& final(self).waits() == old(self).waits() + 1
                    &&& final(self).events_since(old(self)) == events@
                    &&& final(self).last_batch() == events@
                    &&& final(self).last_calls() == final(self).calls_since(old(self))
                    &&& carried_out(
                        final(self).calls_since(old(self)),
                        batch_plan(old(self).registered(), events@),
                        result,
                    )
                },
                Err(errno) => {
                    &&& result matches Err(Error::Resource(reported))
                    &&& reported == errno
                    &&& final(self).waits() == old(self).waits()
                    &&& final(self).events_since(old(self)).len() == 0
                    &&& final(self).calls_since(old(self)).len() == 0
                },
            },
    {
        match waited {
            Ok(events) => {
                self.waits = Ghost((self.waits@ + 1) as nat);
                self.batch_mark = Ghost(self.delivered@.len());
                self.call_mark = Ghost(self.journal@.len());
                self.delivered = Ghost(self.delivered@ + events@);
                assert(self.delivered@.skip(self.batch_mark@ as int) =~= events@);
                serve_all(&mut self.handlers, &mut self.journal, &events)
            },
            Err(errno) => {
                proof {
                    assert(self.calls_since(old(self)) =~= Seq::<Invocation<H>>::empty());
                    lemma_chained_without_call(self.table());
                }
                Err(Error::Resource(errno))
            },
        }
    }

    /// Following is transitive: a loop that follows one that follows
    /// `before` follows `before`, and its calls and events since `before`
    /// are those up to `between`, then those since.
    pub proof fn lemma_follows_in_turn(&self, between: &EventLoop<H>, before: &EventLoop<H>)
        requires
            between.follows(before),
            self.follows(between),
        ensures
            self.follows(before),
            self.calls_since(before) == between.calls_since(before) + self.calls_since(between),
            self.events_since(before) == between.events_since(before) + self.events_since(between),
    {
        let first = between.calls_since(before);
        let second = self.calls_since(between);
        assert(self.calls_since(before) =~= first + second);
        assert(self.events_since(before) =~= between.events_since(before) + self.events_since(
            between,
        ));
        lemma_same_but_called_in_turn(before.table(), between.table(), self.table(), first, second);
    }

    /// Runs the loop: makes turn after turn until one fails, and returns
    /// that failure, be it a handler's error or that of a wait. A handler's
    /// error ends the loop within the turn in which it came: it is the
    /// result of dispatching the events of the latest wait. There is no
    /// other way out but the end of the count of turns, `MAX_TURNS`, and only
    /// then the result is `Ok`.
    pub fn run(&mut self) -> (result: Result<(), Error>)
        ensures
            final(self).follows(old(self)),
            dispatched(
                final(self).calls_since(old(self)),
                old(self).registered(),
                final(self).events_since(old(self)),
                result,
            ),
            match result {
                Ok(_) => final(self).waits() == old(self).waits() + MAX_TURNS,
                Err(Error::Resource(_)) => final(self).waits() < old(self).waits() + MAX_TURNS,
                Err(Error::Handler(_)) => {
                    &&& old(self).waits() < final(self).waits() <= old(self).waits() + MAX_TURNS
                    &&& final(self).last_batch().len() <= MAX_EVENTS
                    &&& carried_out(
                        final(self).last_calls(),
                        batch_plan(old(self).registered(), final(self).last_batch()),
                        result,
                    )
                },
            },
    {
        let mut turns: u64 = 0;
        proof {
            assert(self.calls_since(old(self)) =~= Seq::<Invocation<H>>::empty());
            lemma_chained_without_call(self.table());
        }
        while turns < MAX_TURNS
            invariant
                self.follows(old(self)),
                self.waits() == old(self).waits() + turns,
                dispatched(
                    self.calls_since(old(self)),
                    old(self).registered(),
                    self.events_since(old(self)),
                    Ok(()),
                ),
            decreases MAX_TURNS - turns,
        {
            let ghost between = *self;
            let result = self.turn();
            proof {
                let outcome: Result<(), Error> = match result {
                    Err(Error::Resource(_)) => Ok(()),
                    _ => result,
                };
                self.lemma_follows_in_turn(&between, old(self));
                lemma_batch_plan_concat(
                    old(self).registered(),
                    between.events_since(old(self)),
                    self.events_since(&between),
                );
                lemma_carried_out_in_turn(
                    between.calls_since(old(self)),
                    batch_plan(old(self).registered(), between.events_since(old(self))),
                    self.calls_since(&between),
                    batch_plan(old(self).registered(), self.events_since(&between)),
                    outcome,
                );
            }
            if result.is_err() {
                return result;
            }
            turns += 1;
        }
        Ok(())
    }
}

impl<H: EventHandler> Drop for EventLoop<H> {
    /// Closes the epoll instance.
    fn drop(&mut self)
        opens_invariants none
        no_unwind
    {
        sys::close(self.context);
    }
}

} // verus!
