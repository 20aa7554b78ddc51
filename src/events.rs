//! An append-only record of what each actor of the control loop did.
use vstd::prelude::*;

verus! {

/// The actor an event comes from.
#[derive(Clone, Copy, Debug, PartialEq, Eq, Structural)]
pub enum EventSource {
    Controller,
    Actuator,
    Filler,
}

/// One entry of the event log.
pub struct Event {
    /// When it happened, in milliseconds since the Unix epoch.
    pub timestamp: i64,
    /// Who did it.
    pub source: EventSource,
    /// What happened.
    pub message: String,
}

/// The event log; it only ever grows.
pub struct Events {
    events: Vec<Event>,
}

/// Relies on chrono's `Local::now`: the current time, in milliseconds since
/// the Unix epoch.
#[verifier::external_body]
fn now_millis() -> i64 {
    chrono::Local::now().timestamp_millis()
}

impl View for Events {
    type V = Seq<Event>;

    closed spec fn view(&self) -> Seq<Event> {
        self.events@
    }
}

impl Events {
    /// An empty log.
    pub fn new() -> (r: Events)
        ensures
            r@ == Seq::<Event>::empty(),
    {
        Events { events: Vec::new() }
    }

    /// Appends an event stamped with the current time.
    pub fn add(&mut self, source: EventSource, message: String)
        ensures
            final(self)@.len() == old(self)@.len() + 1,
            final(self)@.drop_last() == old(self)@,
            final(self)@.last().source == source,
            final(self)@.last().message == message,
    {
        let timestamp = now_millis();
        self.record(timestamp, source, message);
    }

    /// Appends an event with the given time stamp.
    pub fn record(&mut self, timestamp: i64, source: EventSource, message: String)
        ensures
            final(self)@ == old(self)@.push(Event { timestamp, source, message }),
    {
        self.events.push(Event { timestamp, source, message });
    }

    /// All events, oldest first.
    pub fn get_all(&self) -> (r: &Vec<Event>)
        ensures
            r@ == self@,
    {
        &self.events
    }
}

} // verus!
