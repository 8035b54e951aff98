//! What dispatching readiness events means: which handler calls a batch of
//! events asks for, and when a sequence of calls carries that plan out.
use crate::error::Error;
use crate::event::{lemma_token_round_trip, token_of, Event};
use crate::interest::{Interest, READABLE, WRITABLE};
use vstd::prelude::*;

verus! {

/// The two callbacks of a handler.
#[derive(Clone, Copy, Debug, PartialEq, Eq, Structural)]
pub enum Callback {
    Read,
    Write,
}

/// A call that is due: the callback `callback` of the handler registered
/// for `fd`, with `fd` as its argument.
pub struct Call {
    pub fd: i32,
    pub callback: Callback,
}

/// A call that was made: the handler as the call found it, what the handler
/// returned, and the handler as the call left it.
pub struct Invocation<H> {
    pub call: Call,
    pub found: H,
    pub outcome: Result<(), std::io::Error>,
    pub left: H,
}

/// The callbacks that an event with the given flags asks for: the read
/// callback if the readable bit is set, then the write callback if the
/// writable bit is set.
pub open spec fn callbacks(flags: Interest) -> Seq<Callback> {
    let read = if flags.has(READABLE) {
        seq![Callback::Read]
    } else {
        Seq::<Callback>::empty()
    };
    let write = if flags.has(WRITABLE) {
        seq![Callback::Write]
    } else {
        Seq::<Callback>::empty()
    };
    read + write
}

/// The calls that one event asks for, given the set of registered
/// descriptors: none if the event's descriptor is not registered, else its
/// callbacks, each for that descriptor.
pub open spec fn event_plan(registered: Set<i32>, event: Event) -> Seq<Call> {
    if registered.contains(event.descriptor()) {
        callbacks(event.flags).map_values(
            |callback: Callback| Call { fd: event.descriptor(), callback },
        )
    } else {
        Seq::<Call>::empty()
    }
}

/// The calls that a batch of events asks for: those of each event, in the
/// order of the events.
pub open spec fn batch_plan(registered: Set<i32>, events: Seq<Event>) -> Seq<Call>
    decreases events.len(),
{
    if events.len() == 0 {
        Seq::<Call>::empty()
    } else {
        batch_plan(registered, events.drop_last()) + event_plan(registered, events.last())
    }
}

/// Whether every call in `calls` succeeded.
pub open spec fn all_succeeded<H>(calls: Seq<Invocation<H>>) -> bool {
    forall|i: int| 0 <= i < calls.len() ==> (#[trigger] calls[i]).outcome is Ok
}

/// Whether no call in `calls` but the last one failed.
pub open spec fn none_follows_failure<H>(calls: Seq<Invocation<H>>) -> bool {
    forall|i: int| 0 <= i < calls.len() - 1 ==> (#[trigger] calls[i]).outcome is Ok
}

/// Whether the calls `calls`, ending in the result `result`, carry out the
/// plan `plan`: the calls made are the planned ones, in order and from the
/// start; no call follows a failed one; the result is `Ok` exactly when the
/// whole plan was called and every call succeeded, and otherwise it is the
/// error of the last call, which then is the one that failed.
pub open spec fn carried_out<H>(
    calls: Seq<Invocation<H>>,
    plan: Seq<Call>,
    result: Result<(), Error>,
) -> bool {
    &&& calls.len() <= plan.len()
    &&& forall|i: int| 0 <= i < calls.len() ==> (#[trigger] calls[i]).call == plan[i]
    &&& none_follows_failure(calls)
    &&& match result {
        Ok(_) => calls.len() == plan.len() && all_succeeded(calls),
        Err(Error::Handler(error)) => calls.len() > 0 && calls.last().outcome == Err::<
            (),
            std::io::Error,
        >(error),
        Err(Error::Resource(_)) => false,
    }
}

/// Whether the calls `calls`, ending in the result `result`, are what
/// dispatching the events `events` gives. A result that is a failure of a
/// system call is no handler's: up to it the events were dispatched without
/// a failure.
pub open spec fn dispatched<H>(
    calls: Seq<Invocation<H>>,
    registered: Set<i32>,
    events: Seq<Event>,
    result: Result<(), Error>,
) -> bool {
    match result {
        Err(Error::Resource(_)) => carried_out(calls, batch_plan(registered, events), Ok(())),
        _ => carried_out(calls, batch_plan(registered, events), result),
    }
}

/// The plan of a batch with one more event is the plan of the batch,
/// followed by the calls of that event.
pub proof fn lemma_batch_plan_push(registered: Set<i32>, events: Seq<Event>, event: Event)
    ensures
        batch_plan(registered, events.push(event)) == batch_plan(registered, events) + event_plan(
            registered,
            event,
        ),
{
    assert(events.push(event).drop_last() =~= events);
}

/// The plan of two batches, one after the other, is the plan of the first
/// followed by the plan of the second.
pub proof fn lemma_batch_plan_concat(registered: Set<i32>, first: Seq<Event>, second: Seq<Event>)
    ensures
        batch_plan(registered, first + second) == batch_plan(registered, first) + batch_plan(
            registered,
            second,
        ),
    decreases second.len(),
{
    if second.len() > 0 {
        lemma_batch_plan_concat(registered, first, second.drop_last());
        assert((first + second).drop_last() =~= first + second.drop_last());
        assert(batch_plan(registered, first) + (batch_plan(registered, second.drop_last())
            + event_plan(registered, second.last())) =~= (batch_plan(registered, first)
            + batch_plan(registered, second.drop_last())) + event_plan(registered, second.last()));
    }
}

/// The plan of the first `n` events of a batch is where the plan of the
/// whole batch starts.
pub proof fn lemma_batch_plan_prefix(registered: Set<i32>, events: Seq<Event>, n: int)
    requires
        0 <= n <= events.len(),
    ensures
        batch_plan(registered, events.take(n)).is_prefix_of(batch_plan(registered, events)),
    decreases events.len() - n,
{
    if n == events.len() {
        assert(events.take(n) =~= events);
    } else {
        lemma_batch_plan_prefix(registered, events, n + 1);
        assert(events.take(n + 1) =~= events.take(n).push(events[n]));
        lemma_batch_plan_push(registered, events.take(n), events[n]);
    }
}

/// Calls that end in a failure carry out every plan that goes on from the
/// plan they were made for: what was planned after the failure is not
/// called.
pub proof fn lemma_failure_ends_plan<H>(
    calls: Seq<Invocation<H>>,
    plan: Seq<Call>,
    longer: Seq<Call>,
    result: Result<(), Error>,
)
    requires
        carried_out(calls, plan, result),
        result is Err,
        plan.is_prefix_of(longer),
    ensures
        carried_out(calls, longer, result),
{
}

/// Calls that carried out a first plan without a failure, followed by
/// calls that carry out a second plan, carry out the first plan followed by
/// the second, with the result of the second.
pub proof fn lemma_carried_out_in_turn<H>(
    first: Seq<Invocation<H>>,
    first_plan: Seq<Call>,
    second: Seq<Invocation<H>>,
    second_plan: Seq<Call>,
    result: Result<(), Error>,
)
    requires
        carried_out(first, first_plan, Ok(())),
        carried_out(second, second_plan, result),
    ensures
        carried_out(first + second, first_plan + second_plan, result),
{
    let calls = first + second;
    let plan = first_plan + second_plan;
    assert forall|i: int| 0 <= i < calls.len() implies (#[trigger] calls[i]).call == plan[i] by {
        if i >= first.len() {
            assert(calls[i] == second[i - first.len()]);
        }
    }
    assert forall|i: int| 0 <= i < calls.len() - 1 implies (#[trigger] calls[i]).outcome is Ok by {
        if i >= first.len() {
            assert(calls[i] == second[i - first.len()]);
        }
    }
    if result is Ok {
        assert forall|i: int| 0 <= i < calls.len() implies (#[trigger] calls[i]).outcome is Ok by {
            if i >= first.len() {
                assert(calls[i] == second[i - first.len()]);
            }
        }
    }
}

/// Whether the call `call` answers the event `event`: it goes to the
/// handler of the event's descriptor, and the event reports the readiness
/// that the callback is for.
pub open spec fn answers(call: Call, event: Event) -> bool {
    &&& call.fd == event.descriptor()
    &&& call.callback == Callback::Read ==> event.flags.has(READABLE)
    &&& call.callback == Callback::Write ==> event.flags.has(WRITABLE)
}

/// No handler is called without cause: every call in the plan of a batch
/// goes to a registered descriptor and answers one of the events.
pub proof fn lemma_planned_call_answers_event(registered: Set<i32>, events: Seq<Event>, i: int)
    requires
        0 <= i < batch_plan(registered, events).len(),
    ensures
        registered.contains(batch_plan(registered, events)[i].fd),
        exists|j: int|
            0 <= j < events.len() && answers(batch_plan(registered, events)[i], #[trigger] events[j]),
    decreases events.len(),
{
    let earlier = batch_plan(registered, events.drop_last());
    if i < earlier.len() {
        lemma_planned_call_answers_event(registered, events.drop_last(), i);
        let j = choose|j: int|
            0 <= j < events.drop_last().len() && answers(
                earlier[i],
                #[trigger] events.drop_last()[j],
            );
        assert(answers(batch_plan(registered, events)[i], events[j]));
    } else {
        assert(answers(batch_plan(registered, events)[i], events.last()));
    }
}

/// No event is passed over: for each event of a batch whose descriptor is
/// registered, and each kind of readiness that it reports, the plan holds
/// the call of that callback for that descriptor.
pub proof fn lemma_event_is_planned(
    registered: Set<i32>,
    events: Seq<Event>,
    j: int,
    callback: Callback,
)
    requires
        0 <= j < events.len(),
        registered.contains(events[j].descriptor()),
        callback == Callback::Read ==> events[j].flags.has(READABLE),
        callback == Callback::Write ==> events[j].flags.has(WRITABLE),
    ensures
        exists|i: int|
            0 <= i < batch_plan(registered, events).len() && #[trigger] batch_plan(
                registered,
                events,
            )[i] == (Call { fd: events[j].descriptor(), callback }),
    decreases events.len(),
{
    let plan = batch_plan(registered, events);
    let earlier = batch_plan(registered, events.drop_last());
    if j < events.len() - 1 {
        lemma_event_is_planned(registered, events.drop_last(), j, callback);
        let i = choose|i: int|
            0 <= i < earlier.len() && #[trigger] earlier[i] == (Call {
                fd: events[j].descriptor(),
                callback,
            });
        assert(plan[i] == earlier[i]);
    } else {
        let last = event_plan(registered, events.last());
        let k: int = if callback == Callback::Write && events[j].flags.has(READABLE) {
            1
        } else {
            0
        };
        assert(plan[earlier.len() + k] == last[k]);
    }
}

/// An error of a handler is not swallowed: the call that failed is the last
/// one made, and the result is its error.
pub proof fn lemma_failure_is_returned<H>(
    calls: Seq<Invocation<H>>,
    plan: Seq<Call>,
    result: Result<(), Error>,
    i: int,
)
    requires
        carried_out(calls, plan, result),
        0 <= i < calls.len(),
        calls[i].outcome is Err,
    ensures
        i == calls.len() - 1,
        result matches Err(Error::Handler(error)) && calls[i].outcome == Err::<(), std::io::Error>(
            error,
        ),
{
}

/// Success goes on: while every call returns `Ok`, be it because the handler
/// found that its operation would block, the whole plan is called and the
/// result is `Ok`.
pub proof fn lemma_success_goes_on<H>(
    calls: Seq<Invocation<H>>,
    plan: Seq<Call>,
    result: Result<(), Error>,
)
    requires
        carried_out(calls, plan, result),
        all_succeeded(calls),
    ensures
        result is Ok,
        calls.len() == plan.len(),
{
}

/// Events for a descriptor reach its handler once it is registered: with
/// `fd` among the registered descriptors, an event for `fd` asks for the
/// callbacks of its flags, each for `fd`.
pub proof fn lemma_registered_descriptor_is_served(registered: Set<i32>, fd: i32, flags: Interest)
    ensures
        event_plan(registered.insert(fd), Event { token: token_of(fd), flags }) == callbacks(
            flags,
        ).map_values(|callback: Callback| Call { fd, callback }),
{
    lemma_token_round_trip(fd);
}

} // verus!
