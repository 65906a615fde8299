//! Analysis: one write, every subscriber hears it, in connection order.
//! A bus holds subscribers and nothing else: a write with no subscribers is
//! simply gone, and a subscriber connected later does not receive it.

use vstd::prelude::*;

verus! {

/// A subscriber, as the caller numbers them.
pub type SinkId = usize;

pub struct AnalysisBus {
    subs: Vec<SinkId>,
}

/// The publish side of a bus.
pub struct PublishExport {
    _private: (),
}

/// The subscribe side of a bus; connect as many subscribers as you like.
pub struct SubscribeExport {
    _private: (),
}

impl AnalysisBus {
    /// The subscribers, in connection order.
    pub closed spec fn subscribers(&self) -> Seq<SinkId> {
        self.subs@
    }

    pub fn new() -> (b: AnalysisBus)
        ensures
            b.subscribers() == Seq::<SinkId>::empty(),
    {
        AnalysisBus { subs: Vec::new() }
    }

    pub fn pub_export(&self) -> (e: PublishExport)
    {
        PublishExport { _private: () }
    }

    pub fn sub_export(&self) -> (e: SubscribeExport)
    {
        SubscribeExport { _private: () }
    }

    /// Broadcast one item: the subscribers it is delivered to, in the order
    /// it is delivered. Nothing is stored.
    pub fn write(&self) -> (delivered_to: Vec<SinkId>)
        ensures
            delivered_to@ == self.subscribers(),
    {
        self.subs.clone()
    }

    /// How many subscribers are listening; zero is legal.
    pub fn subscriber_count(&self) -> (n: usize)
        ensures
            n == self.subscribers().len(),
    {
        self.subs.len()
    }
}

impl SubscribeExport {
    /// Add a subscriber to the end of the broadcast list.
    pub fn connect(&self, bus: &mut AnalysisBus, sink: SinkId)
        ensures
            final(bus).subscribers() == old(bus).subscribers().push(sink),
    {
        bus.subs.push(sink);
    }
}

impl PublishExport {
    /// The subscribers a publisher connected through this export reaches
    /// (the bus's list at the time of each write).
    pub fn connect(&self, bus: &AnalysisBus) -> (reach: usize)
        ensures
            reach == bus.subscribers().len(),
    {
        bus.subscriber_count()
    }
}

} // verus!
