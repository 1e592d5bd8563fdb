use vstd::prelude::*;

use crate::peer::PeerId;

verus! {

/// What a reader reports to the coordinator. For one peer the coordinator sees
/// `Connected` first, then its `Message`s, then one `Disconnected`.
#[derive(Debug)]
pub enum Event<H> {
    /// A peer connected; `H` is the handle through which it is written to.
    Connected(PeerId, H),
    /// A peer's connection ended.
    Disconnected(PeerId),
    /// A peer sent a chunk of bytes.
    Message(PeerId, Vec<u8>),
}

impl<H> Event<H> {
    /// The peer the event is about.
    pub open spec fn peer(self) -> PeerId {
        match self {
            Event::Connected(id, _) => id,
            Event::Disconnected(id) => id,
            Event::Message(id, _) => id,
        }
    }
}

/// The registry after the coordinator has processed `e` on registry `m`.
pub open spec fn next_registry<H>(m: Map<PeerId, H>, e: Event<H>) -> Map<PeerId, H> {
    match e {
        Event::Connected(id, h) => m.insert(id, h),
        Event::Disconnected(id) => m.remove(id),
        Event::Message(_, _) => m,
    }
}

/// The registry after processing `trace` in order, starting from `m`.
pub open spec fn run<H>(m: Map<PeerId, H>, trace: Seq<Event<H>>) -> Map<PeerId, H>
    decreases trace.len(),
{
    if trace.len() == 0 {
        m
    } else {
        next_registry(run(m, trace.drop_last()), trace.last())
    }
}

/// Every `Connected` in `trace` is for a peer that is not registered at that
/// point, and every `Disconnected` for one that is: the order in which each
/// peer's own reader reports, interleaved in any way with the other peers'.
pub open spec fn follows_peer_order<H>(trace: Seq<Event<H>>) -> bool
    decreases trace.len(),
{
    if trace.len() == 0 {
        true
    } else {
        let before = run(Map::empty(), trace.drop_last());
        &&& follows_peer_order(trace.drop_last())
        &&& match trace.last() {
            Event::Connected(id, _) => !before.contains_key(id),
            Event::Disconnected(id) => before.contains_key(id),
            Event::Message(_, _) => true,
        }
    }
}

/// Number of `Connected` events in `trace`.
pub open spec fn connects<H>(trace: Seq<Event<H>>) -> nat
    decreases trace.len(),
{
    if trace.len() == 0 {
        0
    } else {
        connects(trace.drop_last()) + if trace.last() is Connected { 1nat } else { 0nat }
    }
}

/// Number of `Disconnected` events in `trace`.
pub open spec fn disconnects<H>(trace: Seq<Event<H>>) -> nat
    decreases trace.len(),
{
    if trace.len() == 0 {
        0
    } else {
        disconnects(trace.drop_last()) + if trace.last() is Disconnected { 1nat } else { 0nat }
    }
}

/// Whatever the interleaving of the peers' events, after each processed
/// event the number of registered peers is the number of `Connected` events
/// processed minus the number of `Disconnected` events processed.
pub proof fn lemma_registered_count<H>(trace: Seq<Event<H>>)
    requires
        follows_peer_order(trace),
    ensures
        run(Map::<PeerId, H>::empty(), trace).dom().finite(),
        run(Map::<PeerId, H>::empty(), trace).dom().len() == connects(trace) - disconnects(trace),
    decreases trace.len(),
{
    if trace.len() > 0 {
        lemma_registered_count(trace.drop_last());
    }
}

/// Processing `Disconnected` for a peer that is not registered changes nothing.
pub proof fn lemma_disconnect_unknown_is_noop<H>(m: Map<PeerId, H>, id: PeerId)
    requires
        !m.contains_key(id),
    ensures
        next_registry(m, Event::Disconnected(id)) == m,
{
    assert(m.remove(id) =~= m);
}

/// Processing `Disconnected` for one peer keeps every other peer's entry.
pub proof fn lemma_disconnect_keeps_others<H>(m: Map<PeerId, H>, id: PeerId, q: PeerId)
    requires
        m.contains_key(q),
        q != id,
    ensures
        next_registry(m, Event::Disconnected(id)).contains_key(q),
        next_registry(m, Event::Disconnected(id))[q] == m[q],
{
}

} // verus!
