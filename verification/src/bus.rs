use std::collections::VecDeque;
use vstd::prelude::*;
use crate::ring::{newest, push_bounded, ring_push, ring_push_all, lemma_ring_keeps_newest};

verus! {

broadcast use vstd::std_specs::vecdeque::group_vec_dequeue_axioms;

/// Known event topics across the UI system.
#[derive(Debug, Clone, Hash)]
pub enum Topic {
    /// A plugin panel content changed.
    PanelUpdate { region: String },
}

impl PartialEq for Topic {
    fn eq(&self, other: &Topic) -> (r: bool) {
        match (self, other) {
            (Topic::PanelUpdate { region: a }, Topic::PanelUpdate { region: b }) => crate::text::str_eq(a.as_str(), b.as_str()),
        }
    }
}

impl Eq for Topic {}

impl vstd::std_specs::cmp::PartialEqSpecImpl for Topic {
    open spec fn obeys_eq_spec() -> bool {
        true
    }

    open spec fn eq_spec(&self, other: &Topic) -> bool {
        match (self, other) {
            (Topic::PanelUpdate { region: a }, Topic::PanelUpdate { region: b }) => a@ == b@,
        }
    }
}

/// A typed message delivered across bus channels.
#[derive(Debug, Clone)]
pub struct Event {
    pub topic: Topic,
    pub payload: Option<String>,
}

impl Event {
    /// Creates an event carrying an associated string payload.
    pub fn with_payload(topic: Topic, payload: String) -> (e: Event)
        ensures
            e.topic == topic,
            e.payload == Some(payload),
    {
        Event { topic, payload: Some(payload) }
    }
}

/// The pending events after `e` is published onto a bus holding `q` with
/// drop threshold `cap`: the oldest leaves first once `cap` are held, and a
/// bus with threshold zero keeps nothing.
pub open spec fn bus_push(q: Seq<Event>, cap: nat, e: Event) -> Seq<Event> {
    if cap == 0 { q } else { ring_push(q, cap, e) }
}

/// The pending events after every event of `es` is published, in order.
pub open spec fn bus_push_all(q: Seq<Event>, cap: nat, es: Seq<Event>) -> Seq<Event>
    decreases es.len(),
{
    if es.len() == 0 {
        q
    } else {
        bus_push(bus_push_all(q, cap, es.drop_last()), cap, es.last())
    }
}

/// A lightweight in-process pub/sub bus backed by a bounded ring-buffer queue.
/// Capped to max_capacity events so slow consumers cannot cause unbounded growth.
pub struct EventBus {
    queue: VecDeque<Event>,
    max_capacity: usize,
}

impl EventBus {
    /// The pending events, oldest first.
    pub closed spec fn pending(&self) -> Seq<Event> {
        self.queue@
    }

    /// The drop threshold the bus was created with.
    pub closed spec fn capacity(&self) -> nat {
        self.max_capacity as nat
    }

    /// The bus never holds more events than its capacity allows.
    #[verifier::type_invariant]
    closed spec fn holds_at_most_capacity(&self) -> bool {
        self.queue@.len() <= self.max_capacity
    }

    /// Creates a bus with the given event drop threshold.
    pub fn new(max_capacity: usize) -> (bus: EventBus)
        ensures
            bus.pending() == Seq::<Event>::empty(),
            bus.capacity() == max_capacity,
    {
        EventBus { queue: VecDeque::with_capacity(max_capacity), max_capacity }
    }

    /// Pushes an event onto the bus, dropping the oldest if at capacity.
    pub fn publish(&mut self, event: Event)
        ensures
            final(self).pending() == bus_push(old(self).pending(), old(self).capacity(), event),
            final(self).capacity() == old(self).capacity(),
            final(self).pending().len() <= final(self).capacity(),
    {
        proof {
            use_type_invariant(&*self);
        }
        let cap = self.max_capacity;
        if cap == 0 {
            return;
        }
        let mut q: VecDeque<Event> = VecDeque::new();
        std::mem::swap(&mut q, &mut self.queue);
        push_bounded(&mut q, event, cap);
        self.queue = q;
    }

    /// Drains all pending events and returns them oldest-first.
    pub fn drain(&mut self) -> (events: Vec<Event>)
        ensures
            events@ == old(self).pending(),
            final(self).pending() == Seq::<Event>::empty(),
            final(self).capacity() == old(self).capacity(),
    {
        let mut queue: VecDeque<Event> = VecDeque::new();
        std::mem::swap(&mut queue, &mut self.queue);
        let mut out: Vec<Event> = Vec::new();
        let ghost original = queue@;
        while queue.len() > 0
            invariant
                out@ + queue@ == original,
            decreases queue@.len(),
        {
            let ghost before = queue@;
            match queue.pop_front() {
                Some(e) => {
                    out.push(e);
                    assert(out@ + queue@ =~= original) by {
                        assert(before =~= seq![e] + queue@);
                    }
                },
                None => {},
            }
        }
        assert(out@ =~= original);
        out
    }
}

/// Publishing a series of events onto an empty bus and then draining it
/// yields the newest of those events, as many as the drop threshold allows,
/// in publication order; when no more were published than the threshold,
/// that is every one of them. The bus never holds more than the threshold.
pub proof fn lemma_bus_delivers_newest(cap: nat, es: Seq<Event>)
    ensures
        bus_push_all(Seq::empty(), cap, es) == newest(es, cap),
        bus_push_all(Seq::empty(), cap, es).len() <= cap,
        es.len() <= cap ==> bus_push_all(Seq::empty(), cap, es) == es,
    decreases es.len(),
{
    if cap == 0 {
        lemma_bus_keeps_nothing(es);
        assert(es.len() > 0 ==> es.skip(es.len() as int) =~= Seq::<Event>::empty());
    } else {
        lemma_bus_push_all_is_ring(cap, es);
        lemma_ring_keeps_newest(Seq::<Event>::empty(), cap, es);
        assert(Seq::<Event>::empty() + es =~= es);
    }
}

/// A bus with threshold zero stays empty whatever is published.
proof fn lemma_bus_keeps_nothing(es: Seq<Event>)
    ensures
        bus_push_all(Seq::empty(), 0, es) == Seq::<Event>::empty(),
    decreases es.len(),
{
    if es.len() > 0 {
        lemma_bus_keeps_nothing(es.drop_last());
    }
}

/// With a positive threshold the bus follows the bounded-series rule.
proof fn lemma_bus_push_all_is_ring(cap: nat, es: Seq<Event>)
    requires
        cap > 0,
    ensures
        bus_push_all(Seq::empty(), cap, es) == ring_push_all(Seq::empty(), cap, es),
    decreases es.len(),
{
    if es.len() > 0 {
        lemma_bus_push_all_is_ring(cap, es.drop_last());
    }
}

} // verus!
