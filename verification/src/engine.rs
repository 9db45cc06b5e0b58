//! The event engine: a queue of events in the order of their times, and the
//! steps that take the earliest event out, hand it to a handler and take in
//! what the handler returns.

use crate::event::{Event, EventHandler, EventType};
use crate::output::{Sample, SampleKind};
use std::collections::VecDeque;
use vstd::prelude::*;

verus! {

/// Whether no event of `s` comes before an earlier one.
pub open spec fn time_ordered(s: Seq<Event>) -> bool {
    forall|i: int, j: int| 0 <= i < j < s.len() ==> (#[trigger] s[i]).time <= (#[trigger] s[j]).time
}

/// The place of a new event at `time` in the queue `s`: behind the last event
/// that is not later than it.
pub open spec fn slot(s: Seq<Event>, time: u64) -> int
    decreases s.len(),
{
    if s.len() == 0 {
        0
    } else if s.last().time <= time {
        s.len() as int
    } else {
        slot(s.drop_last(), time)
    }
}

/// The queue `s` after `event` joined it.
pub open spec fn enqueued(s: Seq<Event>, event: Event) -> Seq<Event> {
    s.insert(slot(s, event.time), event)
}

/// The queue `s` after `events` joined it one after the other.
pub open spec fn enqueued_all(s: Seq<Event>, events: Seq<Event>) -> Seq<Event>
    decreases events.len(),
{
    if events.len() == 0 {
        s
    } else {
        enqueued(enqueued_all(s, events.drop_last()), events.last())
    }
}

/// The place of a new event is in the queue; every event from there on is
/// later than the new one, and in an ordered queue no event before is.
pub proof fn lemma_slot(s: Seq<Event>, time: u64)
    ensures
        0 <= slot(s, time) <= s.len(),
        forall|i: int| slot(s, time) <= i < s.len() ==> (#[trigger] s[i]).time > time,
        time_ordered(s) ==> forall|i: int|
            0 <= i < slot(s, time) ==> (#[trigger] s[i]).time <= time,
    decreases s.len(),
{
    if s.len() > 0 && s.last().time > time {
        lemma_slot(s.drop_last(), time);
        assert forall|i: int| slot(s, time) <= i < s.len() implies (#[trigger] s[i]).time
            > time by {
            if i < s.len() - 1 {
                assert(s.drop_last()[i] == s[i]);
            }
        }
        if time_ordered(s) {
            assert(time_ordered(s.drop_last())) by {
                assert forall|i: int, j: int| 0 <= i < j < s.drop_last().len() implies (
                #[trigger] s.drop_last()[i]).time <= (#[trigger] s.drop_last()[j]).time by {
                    assert(s[i].time <= s[j].time);
                }
            }
            assert forall|i: int| 0 <= i < slot(s, time) implies (#[trigger] s[i]).time <= time by {
                assert(s.drop_last()[i] == s[i]);
            }
        }
    } else if s.len() > 0 {
        if time_ordered(s) {
            assert forall|i: int| 0 <= i < slot(s, time) implies (#[trigger] s[i]).time <= time by {
                if i < s.len() - 1 {
                    assert(s[i].time <= s[s.len() - 1].time);
                }
            }
        }
    }
}

/// Ordering, and first in first out among equals: an event that joins an
/// ordered queue leaves it ordered, with the events that were there in the
/// order they had, the new one behind all that are not later than it.
pub proof fn lemma_enqueued(s: Seq<Event>, event: Event)
    requires
        time_ordered(s),
    ensures
        time_ordered(enqueued(s, event)),
        enqueued(s, event).len() == s.len() + 1,
        enqueued(s, event)[slot(s, event.time)] == event,
        forall|i: int|
            0 <= i < slot(s, event.time) ==> enqueued(s, event)[i] == s[i] && s[i].time
                <= event.time,
        forall|i: int|
            slot(s, event.time) <= i < s.len() ==> enqueued(s, event)[i + 1] == s[i] && s[i].time
                > event.time,
{
    lemma_slot(s, event.time);
    let p = slot(s, event.time);
    let q = enqueued(s, event);
    assert forall|i: int, j: int| 0 <= i < j < q.len() implies (#[trigger] q[i]).time <= (
    #[trigger] q[j]).time by {
        if j < p {
            assert(s[i].time <= s[j].time);
        } else if j == p {
            assert(s[i].time <= event.time);
        } else if i < p {
            assert(s[i].time <= event.time);
            assert(s[j - 1].time > event.time);
        } else if i == p {
            assert(s[j - 1].time > event.time);
        } else {
            assert(s[i - 1].time <= s[j - 1].time);
        }
    }
}

/// An event due at `now` or later that joins a queue whose events are all
/// due at `now` or later leaves such a queue.
pub proof fn lemma_enqueued_floor(s: Seq<Event>, event: Event, now: u64)
    requires
        time_ordered(s),
        forall|i: int| 0 <= i < s.len() ==> (#[trigger] s[i]).time >= now,
        event.time >= now,
    ensures
        time_ordered(enqueued(s, event)),
        forall|i: int|
            0 <= i < enqueued(s, event).len() ==> (#[trigger] enqueued(s, event)[i]).time >= now,
{
    lemma_enqueued(s, event);
    let after = enqueued(s, event);
    let p = slot(s, event.time);
    assert forall|i: int| 0 <= i < after.len() implies (#[trigger] after[i]).time >= now by {
        if i < p {
            assert(after[i] == s[i]);
        } else if i > p {
            assert(after[i] == s[i - 1]);
        }
    }
}

/// Events that join a queue whose events are all due at `now` or later, and
/// that are themselves due at `now` or later, leave such a queue.
pub proof fn lemma_enqueued_all(s: Seq<Event>, events: Seq<Event>, now: u64)
    requires
        time_ordered(s),
        forall|i: int| 0 <= i < s.len() ==> (#[trigger] s[i]).time >= now,
        forall|i: int| 0 <= i < events.len() ==> (#[trigger] events[i]).time >= now,
    ensures
        time_ordered(enqueued_all(s, events)),
        enqueued_all(s, events).len() == s.len() + events.len(),
        forall|i: int|
            0 <= i < enqueued_all(s, events).len() ==> (#[trigger] enqueued_all(s, events)[i]).time
                >= now,
    decreases events.len(),
{
    if events.len() > 0 {
        let head = events.drop_last();
        assert forall|i: int| 0 <= i < head.len() implies (#[trigger] head[i]).time >= now by {
            assert(events[i].time >= now);
        }
        lemma_enqueued_all(s, head, now);
        assert(events[events.len() - 1].time >= now);
        lemma_enqueued(enqueued_all(s, head), events.last());
        lemma_enqueued_floor(enqueued_all(s, head), events.last(), now);
    }
}

/// The number of events of `s` in which `event_type` happens.
pub open spec fn occurrences(s: Seq<Event>, event_type: EventType) -> nat
    decreases s.len(),
{
    if s.len() == 0 {
        0
    } else {
        occurrences(s.drop_last(), event_type) + if s.last().event_type == event_type {
            1nat
        } else {
            0nat
        }
    }
}

/// An event put anywhere into a sequence adds one to the occurrences of its
/// type and none to those of another.
pub proof fn lemma_insert_occurrences(s: Seq<Event>, p: int, event: Event, event_type: EventType)
    requires
        0 <= p <= s.len(),
    ensures
        occurrences(s.insert(p, event), event_type) == occurrences(s, event_type) + if event.event_type
            == event_type {
            1nat
        } else {
            0nat
        },
    decreases s.len(),
{
    let after = s.insert(p, event);
    if p == s.len() {
        assert(after.drop_last() =~= s);
    } else {
        assert(after.drop_last() =~= s.drop_last().insert(p, event));
        assert(after.last() == s.last());
        lemma_insert_occurrences(s.drop_last(), p, event, event_type);
    }
}

/// The queue neither loses nor invents events: after events joined, each
/// type occurs as often as it did in the queue and among the newcomers
/// together.
pub proof fn lemma_enqueued_all_occurrences(
    s: Seq<Event>,
    events: Seq<Event>,
    event_type: EventType,
)
    ensures
        occurrences(enqueued_all(s, events), event_type) == occurrences(s, event_type)
            + occurrences(events, event_type),
    decreases events.len(),
{
    if events.len() > 0 {
        let before = enqueued_all(s, events.drop_last());
        lemma_enqueued_all_occurrences(s, events.drop_last(), event_type);
        lemma_slot(before, events.last().time);
        lemma_insert_occurrences(
            before,
            slot(before, events.last().time),
            events.last(),
            event_type,
        );
    }
}

/// Taking out the first event of a queue takes one from the occurrences of
/// its type and none from those of another.
pub proof fn lemma_drop_first_occurrences(s: Seq<Event>, event_type: EventType)
    requires
        s.len() > 0,
    ensures
        occurrences(s, event_type) == occurrences(s.drop_first(), event_type) + if s[0].event_type
            == event_type {
            1nat
        } else {
            0nat
        },
    decreases s.len(),
{
    if s.len() == 1 {
        assert(s.drop_last() =~= s.drop_first());
        assert(s.drop_last().len() == 0);
    } else {
        assert(s.drop_last().drop_first() =~= s.drop_first().drop_last());
        assert(s.drop_first().last() == s.last());
        assert(s.drop_last()[0] == s[0]);
        lemma_drop_first_occurrences(s.drop_last(), event_type);
    }
}

/// The events waiting to happen, in the order in which they will: by time,
/// and among events at the same time in the order in which they joined.
#[derive(Debug)]
pub struct EventQueue {
    events: VecDeque<Event>,
}

impl View for EventQueue {
    type V = Seq<Event>;

    closed spec fn view(&self) -> Seq<Event> {
        self.events@
    }
}

impl EventQueue {
    /// The events are in the order of their times.
    pub open spec fn wf(&self) -> bool {
        time_ordered(self@)
    }

    /// A queue without events.
    pub fn new() -> (queue: EventQueue)
        ensures
            queue.wf(),
            queue@ == Seq::<Event>::empty(),
    {
        EventQueue { events: VecDeque::new() }
    }

    /// The number of events that wait.
    pub fn len(&self) -> (n: usize)
        ensures
            n == self@.len(),
    {
        self.events.len()
    }

    /// Whether no event waits.
    pub fn is_empty(&self) -> (b: bool)
        ensures
            b == (self@.len() == 0),
    {
        self.events.len() == 0
    }

    /// The `i`-th event to happen, if so many wait.
    pub fn get(&self, i: usize) -> (event: Option<Event>)
        ensures
            event == if i < self@.len() {
                Some(self@[i as int])
            } else {
                None
            },
    {
        if i < self.events.len() {
            Some(self.events[i])
        } else {
            None
        }
    }

    /// The next event to happen, if any waits.
    pub fn peek(&self) -> (event: Option<Event>)
        ensures
            event == if self@.len() > 0 {
                Some(self@[0])
            } else {
                None
            },
    {
        self.get(0)
    }

    /// Take out the next event to happen, if any waits.
    pub fn pop(&mut self) -> (event: Option<Event>)
        requires
            old(self).wf(),
        ensures
            final(self).wf(),
            match event {
                Some(e) => old(self)@.len() > 0 && e == old(self)@[0] && final(self)@ == old(
                    self,
                )@.drop_first(),
                None => old(self)@.len() == 0 && final(self)@ == old(self)@,
            },
    {
        let event = self.events.pop_front();
        proof {
            if event.is_some() {
                assert(self@ =~= old(self)@.drop_first());
                assert forall|i: int, j: int| 0 <= i < j < self@.len() implies (
                #[trigger] self@[i]).time <= (#[trigger] self@[j]).time by {
                    assert(old(self)@[i + 1].time <= old(self)@[j + 1].time);
                }
            }
        }
        event
    }

    /// Put `event` into the queue: behind every event that is not later than
    /// it, ahead of every later one.
    pub fn push(&mut self, event: Event)
        requires
            old(self).wf(),
        ensures
            final(self).wf(),
            final(self)@ == enqueued(old(self)@, event),
    {
        let ghost before = self.events@;
        let mut k: usize = self.events.len();
        assert(before.take(k as int) =~= before);
        while k > 0 && self.events[k - 1].time > event.time
            invariant
                k <= before.len(),
                self.events@ == before,
                slot(before, event.time) == slot(before.take(k as int), event.time),
            decreases k,
        {
            assert(before.take(k as int).drop_last() =~= before.take(k - 1));
            k -= 1;
        }
        proof {
            lemma_enqueued(before, event);
        }
        self.events.insert(k, event);
    }
}

/// Why the engine stops short.
#[derive(Clone, Copy, Debug, PartialEq, Eq, Structural)]
pub enum EngineError {
    /// The event is due before the present time of the simulation.
    InThePast(Event),
    /// The time of the event, counted from the present time of the
    /// simulation, is not a `u64`.
    TimeOverflow(Event),
}

/// What a step of the engine did.
#[derive(Clone, Copy, Debug, PartialEq, Eq, Structural)]
pub enum Step {
    /// An event was taken out and dealt with.
    Advanced,
    /// The event that ends the experiment was taken out.
    Ended,
    /// No event is due up to the time limit.
    Idle,
}

/// Why a run of the engine came to its end.
#[derive(Clone, Copy, Debug, PartialEq, Eq, Structural)]
pub enum Stop {
    /// The event that ends the experiment was taken out.
    Ended,
    /// No event is due up to the time limit.
    Idle,
    /// As many events as were allowed have been dealt with.
    OutOfSteps,
}

/// `event`, due `now` ns later than it says.
pub open spec fn delayed(event: Event, now: u64) -> Event {
    Event { time: (now + event.time) as u64, ..event }
}

/// The first of `events` whose time, counted from `now`, is not a `u64`.
pub open spec fn first_overflow(events: Seq<Event>, now: u64) -> Option<int>
    decreases events.len(),
{
    if events.len() == 0 {
        None
    } else {
        match first_overflow(events.drop_last(), now) {
            Some(i) => Some(i),
            None => if now + events.last().time > u64::MAX {
                Some(events.len() - 1)
            } else {
                None
            },
        }
    }
}

/// The samples of `samples` taken at `warmup_end_ns` or later, in their
/// order.
pub open spec fn retained(samples: Seq<Sample>, warmup_end_ns: u64) -> Seq<Sample>
    decreases samples.len(),
{
    if samples.len() == 0 {
        Seq::empty()
    } else {
        let rest = retained(samples.drop_last(), warmup_end_ns);
        if samples.last().time_ns >= warmup_end_ns {
            rest.push(samples.last())
        } else {
            rest
        }
    }
}

/// The time by which `percent` percent of `until_ns` have passed.
pub open spec fn progress_time(until_ns: u64, percent: int) -> int {
    until_ns * percent / 100
}

/// The progress reports of a simulation that lasts `until_ns`, one every
/// `step` percent of that time up to 100 percent. A step of 0 means none.
pub open spec fn progress_events(until_ns: u64, step: u16) -> Seq<Event> {
    if step == 0 {
        Seq::empty()
    } else {
        Seq::new(
            (100int / (step as int)) as nat,
            |i: int|
                Event {
                    time: progress_time(until_ns, (i + 1) * step) as u64,
                    event_type: EventType::Progress(((i + 1) * step) as u16),
                },
        )
    }
}

/// Up to 100 percent, the time of a progress report is no later than the end
/// and no earlier than that of a report of a smaller percentage.
pub proof fn lemma_progress_time(until_ns: u64, smaller: int, percent: int)
    requires
        0 <= smaller <= percent <= 100,
    ensures
        0 <= progress_time(until_ns, smaller) <= progress_time(until_ns, percent) <= until_ns,
{
    assert(0 <= until_ns * smaller <= until_ns * percent <= until_ns * 100) by (nonlinear_arith)
        requires
            0 <= smaller <= percent <= 100,
            0 <= until_ns,
    ;
}

/// What the engine holds.
pub struct EngineView {
    /// The present time of the simulation, in ns.
    pub now: u64,
    /// The time at which the warm-up period ends, in ns.
    pub warmup_end_ns: u64,
    /// The events that wait, in the order in which they will happen.
    pub queue: Seq<Event>,
    /// The samples collected.
    pub samples: Seq<Sample>,
}

impl EngineView {
    /// The engine once the earliest event has been taken out: the present
    /// time is the time of that event.
    pub open spec fn popped(self) -> EngineView {
        EngineView { now: self.queue[0].time, queue: self.queue.drop_first(), ..self }
    }

    /// Whether an event is due up to `until_ns`.
    pub open spec fn due(self, until_ns: u64) -> bool {
        self.queue.len() > 0 && self.queue[0].time <= until_ns
    }

    /// The engine after it took in what a handler returned for an event at
    /// the present time: the events, whose times count from now, and the
    /// samples, of which those of the warm-up period are dropped. If the time
    /// of an event is not a `u64`, the first such event is reported and
    /// nothing is taken in.
    pub open spec fn absorbed(self, events: Seq<Event>, samples: Seq<Sample>) -> Result<
        EngineView,
        EngineError,
    > {
        match first_overflow(events, self.now) {
            Some(i) => Err(EngineError::TimeOverflow(events[i])),
            None => Ok(
                EngineView {
                    queue: enqueued_all(
                        self.queue,
                        Seq::new(events.len(), |i: int| delayed(events[i], self.now)),
                    ),
                    samples: self.samples + retained(samples, self.warmup_end_ns),
                    ..self
                },
            ),
        }
    }

    /// The waiting events are in the order of their times, and none is due
    /// before the present time.
    pub open spec fn wf(self) -> bool {
        &&& time_ordered(self.queue)
        &&& forall|i: int| 0 <= i < self.queue.len() ==> (#[trigger] self.queue[i]).time >= self.now
    }
}

/// Taking in what a handler returned leaves the queue ordered, with no event
/// due before the present time, and moves no clock.
pub proof fn lemma_absorbed(view: EngineView, events: Seq<Event>, samples: Seq<Sample>)
    requires
        view.wf(),
    ensures
        view.absorbed(events, samples) matches Ok(after) ==> {
            &&& after.wf()
            &&& after.now == view.now
            &&& after.warmup_end_ns == view.warmup_end_ns
            &&& after.queue.len() == view.queue.len() + events.len()
        },
{
    if first_overflow(events, view.now).is_none() {
        let shifted = Seq::new(events.len(), |i: int| delayed(events[i], view.now));
        assert forall|i: int| 0 <= i < shifted.len() implies (#[trigger] shifted[i]).time
            >= view.now by {
            lemma_first_overflow(events, view.now, i);
        }
        lemma_enqueued_all(view.queue, shifted, view.now);
    }
}

/// What a handler returns is in the queue once it is taken in: each type of
/// event occurs as often as it did in the queue and in what was returned
/// together.
pub proof fn lemma_absorbed_occurrences(
    view: EngineView,
    events: Seq<Event>,
    samples: Seq<Sample>,
    event_type: EventType,
)
    ensures
        view.absorbed(events, samples) matches Ok(after) ==> occurrences(after.queue, event_type)
            == occurrences(view.queue, event_type) + occurrences(events, event_type),
{
    if first_overflow(events, view.now).is_none() {
        let shifted = Seq::new(events.len(), |i: int| delayed(events[i], view.now));
        lemma_enqueued_all_occurrences(view.queue, shifted, event_type);
        lemma_delayed_occurrences(events, view.now, event_type);
    }
}

/// Delaying events changes no type.
pub proof fn lemma_delayed_occurrences(events: Seq<Event>, now: u64, event_type: EventType)
    ensures
        occurrences(Seq::new(events.len(), |i: int| delayed(events[i], now)), event_type)
            == occurrences(events, event_type),
    decreases events.len(),
{
    let shifted = Seq::new(events.len(), |i: int| delayed(events[i], now));
    if events.len() > 0 {
        let head = events.drop_last();
        assert(shifted.drop_last() =~= Seq::new(head.len(), |i: int| delayed(head[i], now)));
        lemma_delayed_occurrences(head, now, event_type);
    }
}

/// Where no time overflows, none does.
pub proof fn lemma_first_overflow(events: Seq<Event>, now: u64, i: int)
    requires
        first_overflow(events, now).is_none(),
        0 <= i < events.len(),
    ensures
        now + events[i].time <= u64::MAX,
    decreases events.len(),
{
    if i < events.len() - 1 {
        lemma_first_overflow(events.drop_last(), now, i);
    }
}

/// The engine of a discrete-event simulation.
#[derive(Debug)]
pub struct Engine {
    now: u64,
    warmup_end_ns: u64,
    queue: EventQueue,
    samples: Vec<Sample>,
}

impl View for Engine {
    type V = EngineView;

    closed spec fn view(&self) -> EngineView {
        EngineView {
            now: self.now,
            warmup_end_ns: self.warmup_end_ns,
            queue: self.queue@,
            samples: self.samples@,
        }
    }
}

impl Engine {
    /// The waiting events are in the order of their times, and none is due
    /// before the present time.
    pub open spec fn wf(&self) -> bool {
        self@.wf()
    }

    /// An engine at time 0, with the end of the warm-up period scheduled at
    /// `warmup_end_ns`.
    pub fn new(warmup_end_ns: u64) -> (engine: Engine)
        ensures
            engine.wf(),
            engine@ == (EngineView {
                now: 0,
                warmup_end_ns,
                queue: seq![Event { time: warmup_end_ns, event_type: EventType::WarmupPeriodEnd }],
                samples: Seq::empty(),
            }),
    {
        let mut queue = EventQueue::new();
        queue.push(Event::new(warmup_end_ns, EventType::WarmupPeriodEnd));
        let engine = Engine { now: 0, warmup_end_ns, queue, samples: Vec::new() };
        assert(engine@.queue =~= seq![
            Event { time: warmup_end_ns, event_type: EventType::WarmupPeriodEnd },
        ]);
        engine
    }

    /// The present time of the simulation, in ns.
    pub fn now(&self) -> (now: u64)
        ensures
            now == self@.now,
    {
        self.now
    }

    /// The time at which the warm-up period ends, in ns.
    pub fn warmup_end_ns(&self) -> (t: u64)
        ensures
            t == self@.warmup_end_ns,
    {
        self.warmup_end_ns
    }

    /// The events that wait.
    pub fn queue(&self) -> (queue: &EventQueue)
        ensures
            queue@ == self@.queue,
    {
        &self.queue
    }

    /// The samples collected so far.
    pub fn samples(&self) -> (samples: &Vec<Sample>)
        ensures
            samples@ == self@.samples,
    {
        &self.samples
    }

    /// Hand over the samples collected so far; the engine keeps none of them.
    pub fn take_samples(&mut self) -> (samples: Vec<Sample>)
        ensures
            samples@ == old(self)@.samples,
            final(self)@ == (EngineView { samples: Seq::empty(), ..old(self)@ }),
    {
        let mut samples: Vec<Sample> = Vec::new();
        std::mem::swap(&mut self.samples, &mut samples);
        samples
    }

    /// Schedule an event of type `kind` at `time_ns`, which must not be before
    /// the present time.
    pub fn schedule_absolute(&mut self, kind: EventType, time_ns: u64) -> (r: Result<
        (),
        EngineError,
    >)
        requires
            old(self).wf(),
        ensures
            final(self).wf(),
            time_ns < old(self)@.now ==> r == Err::<(), EngineError>(
                EngineError::InThePast(Event { time: time_ns, event_type: kind }),
            ) && final(self)@ == old(self)@,
            time_ns >= old(self)@.now ==> r == Ok::<(), EngineError>(()) && final(self)@ == (
            EngineView {
                queue: enqueued(old(self)@.queue, Event { time: time_ns, event_type: kind }),
                ..old(self)@
            }),
    {
        let event = Event::new(time_ns, kind);
        if time_ns < self.now {
            return Err(EngineError::InThePast(event));
        }
        proof {
            lemma_enqueued_floor(self.queue@, event, self.now);
        }
        self.queue.push(event);
        Ok(())
    }

    /// Schedule an event of type `kind` in `dt_ns` ns from the present time.
    pub fn schedule_relative(&mut self, kind: EventType, dt_ns: u64) -> (r: Result<
        (),
        EngineError,
    >)
        requires
            old(self).wf(),
        ensures
            final(self).wf(),
            old(self)@.now + dt_ns > u64::MAX ==> r == Err::<(), EngineError>(
                EngineError::TimeOverflow(Event { time: dt_ns, event_type: kind }),
            ) && final(self)@ == old(self)@,
            old(self)@.now + dt_ns <= u64::MAX ==> r == Ok::<(), EngineError>(()) && final(self)@
                == (EngineView {
                queue: enqueued(
                    old(self)@.queue,
                    Event { time: (old(self)@.now + dt_ns) as u64, event_type: kind },
                ),
                ..old(self)@
            }),
    {
        match self.now.checked_add(dt_ns) {
            None => Err(EngineError::TimeOverflow(Event::new(dt_ns, kind))),
            Some(time_ns) => {
                let event = Event::new(time_ns, kind);
                proof {
                    lemma_enqueued_floor(self.queue@, event, self.now);
                }
                self.queue.push(event);
                Ok(())
            },
        }
    }

    /// Schedule the progress reports of a simulation that lasts `until_ns`:
    /// one every `step` percent of that time, up to 100 percent.
    ///
    /// If the first report is due before the present time, it is reported as
    /// an error and nothing is scheduled.
    pub fn schedule_progress(&mut self, until_ns: u64, step: u16) -> (r: Result<(), EngineError>)
        requires
            old(self).wf(),
        ensures
            final(self).wf(),
            0 < step <= 100 && progress_time(until_ns, step as int) < old(self)@.now ==> r == Err::<
                (),
                EngineError,
            >(EngineError::InThePast(progress_events(until_ns, step)[0])) && final(self)@ == old(
                self,
            )@,
            !(0 < step <= 100 && progress_time(until_ns, step as int) < old(self)@.now) ==> r
                == Ok::<(), EngineError>(()) && final(self)@ == (EngineView {
                queue: enqueued_all(old(self)@.queue, progress_events(until_ns, step)),
                ..old(self)@
            }),
    {
        if step == 0 || step > 100 {
            proof {
                if step > 100 {
                    assert(100int / (step as int) == 0) by (nonlinear_arith)
                        requires
                            step > 100,
                    ;
                }
                assert(progress_events(until_ns, step) =~= Seq::empty());
            }
            return Ok(());
        }
        let ghost reports = progress_events(until_ns, step);
        let mut percent: u16 = step;
        let mut done: usize = 0;
        proof {
            lemma_progress_count(step, 0);
            assert(reports.take(0) =~= Seq::empty());
        }
        while percent <= 100
            invariant
                0 < step <= 100,
                percent == (done + 1) * step,
                done <= reports.len(),
                percent <= 100 <==> done < reports.len(),
                reports == progress_events(until_ns, step),
                self.wf(),
                done == 0 ==> *self == *old(self),
                done > 0 ==> progress_time(until_ns, step as int) >= self@.now,
                self@ == (EngineView {
                    queue: enqueued_all(old(self)@.queue, reports.take(done as int)),
                    ..old(self)@
                }),
            decreases 200 - percent,
        {
            proof {
                assert(step <= (done + 1) * step) by (nonlinear_arith)
                    requires
                        0 <= done,
                        0 < step,
                ;
                lemma_progress_time(until_ns, step as int, percent as int);
                assert(reports.take(done + 1).drop_last() =~= reports.take(done as int));
                assert(until_ns * percent <= 0xffff_ffff_ffff_ffff * 100) by (nonlinear_arith)
                    requires
                        0 <= until_ns <= 0xffff_ffff_ffff_ffff,
                        0 <= percent <= 100,
                ;
            }
            let time_ns = (until_ns as u128 * percent as u128 / 100) as u64;
            let event = Event::new(time_ns, EventType::Progress(percent));
            assert(event == reports[done as int]);
            if time_ns < self.now {
                return Err(EngineError::InThePast(event));
            }
            proof {
                if done == 0 {
                    assert(percent == step) by (nonlinear_arith)
                        requires
                            percent == (done + 1) * step,
                            done == 0,
                    ;
                }
                assert(progress_time(until_ns, step as int) >= self.now);
                lemma_enqueued_floor(self.queue@, event, self.now);
            }
            self.queue.push(event);
            proof {
                assert((done + 1 + 1) * step == percent + step) by (nonlinear_arith)
                    requires
                        percent == (done + 1) * step,
                ;
                lemma_progress_count(step, done as int + 1);
            }
            percent += step;
            done += 1;
        }
        assert(reports.take(done as int) =~= reports);
        Ok(())
    }

    /// Take in what a handler returned for an event at the present time: the
    /// events, whose times count from now, join the queue in their order, and
    /// the samples taken at the end of the warm-up period or later are kept.
    ///
    /// If the time of an event is not a `u64`, the first such event is
    /// reported and nothing is taken in.
    pub fn absorb(&mut self, events: Vec<Event>, samples: Vec<Sample>) -> (r: Result<
        (),
        EngineError,
    >)
        requires
            old(self).wf(),
        ensures
            final(self).wf(),
            match old(self)@.absorbed(events@, samples@) {
                Ok(after) => r == Ok::<(), EngineError>(()) && final(self)@ == after,
                Err(e) => r == Err::<(), EngineError>(e) && final(self)@ == old(self)@,
            },
    {
        let now = self.now;
        let mut i: usize = 0;
        while i < events.len()
            invariant
                i <= events@.len(),
                first_overflow(events@.take(i as int), now).is_none(),
                *self == *old(self),
                self.wf(),
                now == self.now,
            decreases events@.len() - i,
        {
            if now.checked_add(events[i].time).is_none() {
                proof {
                    lemma_first_overflow_found(events@, now, i as int);
                }
                return Err(EngineError::TimeOverflow(events[i]));
            }
            assert(events@.take(i + 1).drop_last() =~= events@.take(i as int));
            i += 1;
        }
        assert(events@.take(i as int) =~= events@);

        let ghost shifted = Seq::new(events@.len(), |k: int| delayed(events@[k], now));
        let mut j: usize = 0;
        while j < events.len()
            invariant
                j <= events@.len(),
                first_overflow(events@, now).is_none(),
                shifted == Seq::new(events@.len(), |k: int| delayed(events@[k], now)),
                self.queue.wf(),
                self.queue@ == enqueued_all(old(self)@.queue, shifted.take(j as int)),
                self.now == now,
                self.warmup_end_ns == old(self).warmup_end_ns,
                self.samples@ == old(self)@.samples,
            decreases events@.len() - j,
        {
            proof {
                lemma_first_overflow(events@, now, j as int);
                assert(shifted.take(j + 1).drop_last() =~= shifted.take(j as int));
            }
            self.queue.push(Event::new(now + events[j].time, events[j].event_type));
            j += 1;
        }
        assert(shifted.take(j as int) =~= shifted);

        let mut k: usize = 0;
        while k < samples.len()
            invariant
                k <= samples@.len(),
                self.queue@ == enqueued_all(old(self)@.queue, shifted),
                self.now == now,
                self.warmup_end_ns == old(self).warmup_end_ns,
                self.samples@ == old(self)@.samples + retained(
                    samples@.take(k as int),
                    self.warmup_end_ns,
                ),
            decreases samples@.len() - k,
        {
            assert(samples@.take(k + 1).drop_last() =~= samples@.take(k as int));
            if samples[k].time_ns >= self.warmup_end_ns {
                self.samples.push(samples[k]);
            }
            k += 1;
            assert(self.samples@ =~= old(self)@.samples + retained(
                samples@.take(k as int),
                self.warmup_end_ns,
            ));
        }
        assert(samples@.take(k as int) =~= samples@);
        proof {
            lemma_absorbed(old(self)@, events@, samples@);
        }
        Ok(())
    }

    /// Take out the earliest event, if it is due up to `until_ns`, and make
    /// its time the present time. Otherwise nothing changes.
    pub fn next_event(&mut self, until_ns: u64) -> (event: Option<Event>)
        requires
            old(self).wf(),
        ensures
            final(self).wf(),
            old(self)@.due(until_ns) ==> event == Some(old(self)@.queue[0]) && final(self)@ == old(
                self,
            )@.popped(),
            !old(self)@.due(until_ns) ==> event.is_none() && final(self)@ == old(self)@,
    {
        match self.queue.peek() {
            None => None,
            Some(next) => {
                if next.time() > until_ns {
                    None
                } else {
                    let event = self.queue.pop();
                    self.now = next.time();
                    proof {
                        assert forall|i: int| 0 <= i < self@.queue.len() implies (
                        #[trigger] self@.queue[i]).time >= self@.now by {
                            assert(old(self)@.queue[0].time <= old(self)@.queue[i + 1].time);
                        }
                    }
                    event
                }
            },
        }
    }

    /// Attach `handler`: the events that start it off join the queue, their
    /// times counted from the present time.
    pub fn register<H: EventHandler>(&mut self, handler: &mut H) -> (r: Result<(), EngineError>)
        requires
            old(self).wf(),
        ensures
            final(self).wf(),
            exists|events: Seq<Event>|
                match #[trigger] old(self)@.absorbed(events, Seq::empty()) {
                    Ok(after) => r == Ok::<(), EngineError>(()) && final(self)@ == after,
                    Err(e) => r == Err::<(), EngineError>(e) && final(self)@ == old(self)@,
                },
    {
        let events = handler.initial();
        let ghost initial = events@;
        let r = self.absorb(events, Vec::new());
        assert(old(self)@.absorbed(initial, Seq::empty()) is Ok ==> r is Ok);
        r
    }

    /// One step of the simulation: take out the earliest event, if it is due
    /// up to `until_ns`, and deal with it.
    ///
    /// The end of the experiment stops the simulation. The end of the warm-up
    /// period only moves the clock. Progress is sampled, whether or not the
    /// warm-up period is over. Every other event goes to `handler`, and what
    /// it returns is taken in.
    pub fn step<H: EventHandler>(&mut self, handler: &mut H, until_ns: u64) -> (r: Result<
        Step,
        EngineError,
    >)
        requires
            old(self).wf(),
        ensures
            final(self).wf(),
            step_outcome(old(self)@, until_ns, final(self)@, r),
    {
        let event = match self.next_event(until_ns) {
            None => {
                return Ok(Step::Idle);
            },
            Some(event) => event,
        };
        match event.event_type {
            EventType::ExperimentEnd => Ok(Step::Ended),
            EventType::WarmupPeriodEnd => Ok(Step::Advanced),
            EventType::Progress(percent) => {
                self.samples.push(
                    Sample { time_ns: self.now, kind: SampleKind::Progress(percent) },
                );
                Ok(Step::Advanced)
            },
            _ => {
                let (events, samples) = handler.handle(event);
                let ghost popped = self@;
                let ghost returned = (events@, samples@);
                match self.absorb(events, samples) {
                    Ok(()) => {
                        assert(popped.absorbed(returned.0, returned.1) is Ok);
                        Ok(Step::Advanced)
                    },
                    Err(e) => {
                        assert(popped.absorbed(returned.0, returned.1) is Err);
                        Err(e)
                    },
                }
            },
        }
    }

    /// Run the simulation: step until the experiment ends, no event is due up
    /// to `until_ns`, or `max_events` events have been dealt with.
    ///
    /// The events are dealt with in the order of their times, those at the
    /// same time in the order in which they joined the queue.
    pub fn run<H: EventHandler>(&mut self, handler: &mut H, until_ns: u64, max_events: u64) -> (r:
        Result<Stop, EngineError>)
        requires
            old(self).wf(),
        ensures
            final(self).wf(),
            run_outcome(old(self)@, until_ns, max_events as nat, final(self)@, r),
            final(self)@.now >= old(self)@.now,
            final(self)@.warmup_end_ns == old(self)@.warmup_end_ns,
            r == Ok::<Stop, EngineError>(Stop::Idle) ==> !final(self)@.due(until_ns),
    {
        let mut left = max_events;
        while left > 0
            invariant
                self.wf(),
                self@.now >= old(self)@.now,
                self@.warmup_end_ns == old(self)@.warmup_end_ns,
                left <= max_events,
                forall|after: EngineView, r: Result<Stop, EngineError>| #[trigger]
                    run_outcome(self@, until_ns, left as nat, after, r) ==> run_outcome(
                        old(self)@,
                        until_ns,
                        max_events as nat,
                        after,
                        r,
                    ),
            decreases left,
        {
            let ghost before = self@;
            let step = self.step(handler, until_ns);
            proof {
                lemma_step_outcome(before, until_ns, self@, step);
            }
            match step {
                Ok(Step::Advanced) => {
                    let ghost allowed = left as nat;
                    left -= 1;
                    proof {
                        assert forall|after: EngineView, r: Result<Stop, EngineError>| #[trigger]
                            run_outcome(self@, until_ns, left as nat, after, r) implies run_outcome(
                            old(self)@,
                            until_ns,
                            max_events as nat,
                            after,
                            r,
                        ) by {
                            assert(step_outcome(before, until_ns, self@, step));
                            assert(left as nat == (allowed - 1) as nat);
                            assert(run_outcome(before, until_ns, allowed, after, r));
                        }
                    }
                },
                Ok(Step::Ended) => {
                    assert(run_outcome(
                        before,
                        until_ns,
                        left as nat,
                        self@,
                        Ok::<Stop, EngineError>(Stop::Ended),
                    ));
                    return Ok(Stop::Ended);
                },
                Ok(Step::Idle) => {
                    assert(run_outcome(
                        before,
                        until_ns,
                        left as nat,
                        self@,
                        Ok::<Stop, EngineError>(Stop::Idle),
                    ));
                    return Ok(Stop::Idle);
                },
                Err(e) => {
                    assert(run_outcome(
                        before,
                        until_ns,
                        left as nat,
                        self@,
                        Err::<Stop, EngineError>(e),
                    ));
                    return Err(e);
                },
            }
        }
        assert(run_outcome(self@, until_ns, 0, self@, Ok::<Stop, EngineError>(Stop::OutOfSteps)));
        Ok(Stop::OutOfSteps)
    }
}

/// What a run of the engine comes to, whatever the handler returns: a chain
/// of at most `max_events` steps, each from where the one before left off,
/// that goes on while steps deal with events.
pub open spec fn run_outcome(
    before: EngineView,
    until_ns: u64,
    max_events: nat,
    after: EngineView,
    r: Result<Stop, EngineError>,
) -> bool
    decreases max_events,
{
    if max_events == 0 {
        r == Ok::<Stop, EngineError>(Stop::OutOfSteps) && after == before
    } else {
        exists|next: EngineView, step: Result<Step, EngineError>|
            {
                &&& #[trigger] step_outcome(before, until_ns, next, step)
                &&& match step {
                    Ok(Step::Advanced) => run_outcome(
                        next,
                        until_ns,
                        (max_events - 1) as nat,
                        after,
                        r,
                    ),
                    Ok(Step::Ended) => r == Ok::<Stop, EngineError>(Stop::Ended) && after == next,
                    Ok(Step::Idle) => r == Ok::<Stop, EngineError>(Stop::Idle) && after == next,
                    Err(e) => r == Err::<Stop, EngineError>(e) && after == next,
                }
            }
    }
}

/// A step moves the clock forwards only, leaves the end of the warm-up period
/// where it is, and is idle only when no event is due.
pub proof fn lemma_step_outcome(
    before: EngineView,
    until_ns: u64,
    after: EngineView,
    r: Result<Step, EngineError>,
)
    requires
        before.wf(),
        step_outcome(before, until_ns, after, r),
    ensures
        after.now >= before.now,
        after.warmup_end_ns == before.warmup_end_ns,
        r == Ok::<Step, EngineError>(Step::Idle) <==> !before.due(until_ns),
        r == Ok::<Step, EngineError>(Step::Idle) ==> after == before,
        before.due(until_ns) ==> after.now == before.queue[0].time,
{
    if before.due(until_ns) {
        let popped = before.popped();
        match before.queue[0].event_type {
            EventType::EprGenerated(_) | EventType::EprNotified(_) => {
                let (events, samples) = choose|events: Seq<Event>, samples: Seq<Sample>|
                    match #[trigger] popped.absorbed(events, samples) {
                        Ok(taken) => r == Ok::<Step, EngineError>(Step::Advanced) && after == taken,
                        Err(e) => r == Err::<Step, EngineError>(e) && after == popped,
                    };
            },
            _ => {},
        }
    }
}

/// What a step of the engine comes to, whatever the handler returns.
///
/// With no event due up to `until_ns`, nothing changes. Otherwise the
/// earliest event is taken out and its time becomes the present time; what
/// follows goes by the type of the event.
pub open spec fn step_outcome(
    before: EngineView,
    until_ns: u64,
    after: EngineView,
    r: Result<Step, EngineError>,
) -> bool {
    if !before.due(until_ns) {
        r == Ok::<Step, EngineError>(Step::Idle) && after == before
    } else {
        let event = before.queue[0];
        let popped = before.popped();
        match event.event_type {
            EventType::ExperimentEnd => r == Ok::<Step, EngineError>(Step::Ended) && after
                == popped,
            EventType::WarmupPeriodEnd => r == Ok::<Step, EngineError>(Step::Advanced) && after
                == popped,
            EventType::Progress(percent) => r == Ok::<Step, EngineError>(Step::Advanced) && after
                == (EngineView {
                samples: popped.samples.push(
                    Sample { time_ns: event.time, kind: SampleKind::Progress(percent) },
                ),
                ..popped
            }),
            _ => exists|events: Seq<Event>, samples: Seq<Sample>|
                match #[trigger] popped.absorbed(events, samples) {
                    Ok(taken) => r == Ok::<Step, EngineError>(Step::Advanced) && after == taken,
                    Err(e) => r == Err::<Step, EngineError>(e) && after == popped,
                },
        }
    }
}

/// The `k`-th multiple of `step` is within 100 exactly when `k` is within
/// `100 / step`.
proof fn lemma_progress_count(step: u16, k: int)
    requires
        0 < step <= 100,
        0 <= k,
    ensures
        (k + 1) * step <= 100 <==> k < 100int / (step as int),
{
    let q = 100int / (step as int);
    assert(q * step <= 100 < (q + 1) * step) by (nonlinear_arith)
        requires
            q == 100int / (step as int),
            0 < step <= 100,
    ;
    if k < q {
        assert((k + 1) * step <= q * step) by (nonlinear_arith)
            requires
                k + 1 <= q,
                0 < step,
        ;
    } else {
        assert((k + 1) * step >= (q + 1) * step) by (nonlinear_arith)
            requires
                k + 1 >= q + 1,
                0 < step,
        ;
    }
}

/// An event whose time overflows, after events whose times do not, is the
/// first whose time overflows.
proof fn lemma_first_overflow_found(events: Seq<Event>, now: u64, i: int)
    requires
        0 <= i < events.len(),
        first_overflow(events.take(i), now).is_none(),
        now + events[i].time > u64::MAX,
    ensures
        first_overflow(events, now) == Some(i),
    decreases events.len(),
{
    if i == events.len() - 1 {
        assert(events.drop_last() =~= events.take(i));
    } else {
        assert(events.drop_last().take(i) =~= events.take(i));
        lemma_first_overflow_found(events.drop_last(), now, i);
    }
}

} // verus!
