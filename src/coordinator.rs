use vstd::prelude::*;

use crate::event::{next_registry, Event};
use crate::peer::PeerId;
use crate::registry::Registry;

verus! {

/// What the coordinator decided for one event. Only `Relayed` asks for
/// writes; see `writes`.
#[derive(Debug, PartialEq, Eq)]
pub enum Report {
    /// A peer was registered; `replaced` tells whether an earlier registration
    /// of the same identity was overwritten.
    Joined { peer: PeerId, replaced: bool },
    /// A peer was unregistered; `was_registered` is false when it was absent.
    Left { peer: PeerId, was_registered: bool },
    /// A peer's bytes are to be written once to each peer of `to`.
    Relayed { from: PeerId, to: Vec<PeerId>, payload: Vec<u8> },
}

/// The writes that carry out `r` on registry `m`, in order: for `Relayed`,
/// one write of the payload to the handle of each target; for the other
/// reports, none. A failed write changes nothing and is followed by the rest.
pub open spec fn writes<H>(m: Map<PeerId, H>, r: Report) -> Seq<(H, Seq<u8>)> {
    match r {
        Report::Relayed { to, payload, .. } => to@.map_values(|q: PeerId| (m[q], payload@)),
        _ => Seq::empty(),
    }
}

/// `to` names each peer of `m` other than `sender` exactly once, and no one
/// else.
pub open spec fn all_others<H>(m: Map<PeerId, H>, sender: PeerId, to: Seq<PeerId>) -> bool {
    &&& to.no_duplicates()
    &&& to.to_set() == m.dom().remove(sender)
    &&& !to.contains(sender)
    &&& to.len() == m.dom().remove(sender).len()
}

/// Once a peer's `Disconnected` has been processed, a later message from any
/// peer is written to it no more.
pub proof fn lemma_left_peer_not_relayed_to<H>(
    m: Map<PeerId, H>,
    gone: PeerId,
    sender: PeerId,
    to: Seq<PeerId>,
)
    requires
        all_others(next_registry(m, Event::Disconnected(gone)), sender, to),
    ensures
        !to.contains(gone),
{
    if to.contains(gone) {
        assert(to.to_set().contains(gone));
    }
}

/// A message is written to every other peer exactly once, with its bytes as
/// they are, and never to the sender: each write goes to
/// the handle of a registered peer whose identity differs from the sender's.
pub proof fn lemma_relay_writes<H>(m: Map<PeerId, H>, sender: PeerId, to: Vec<PeerId>, payload: Vec<u8>)
    requires
        all_others(m, sender, to@),
    ensures
        writes(m, Report::Relayed { from: sender, to, payload }).len() == m.dom().remove(sender).len(),
        forall|j: int|
            0 <= j < to@.len() ==> {
                &&& m.contains_key(to@[j])
                &&& to@[j] != sender
                &&& #[trigger] writes(m, Report::Relayed { from: sender, to, payload })[j] == (
                m[to@[j]],
                payload@,
            )
            },
        forall|q: PeerId|
            m.contains_key(q) && q != sender ==> exists|j: int|
                0 <= j < to@.len() && #[trigger] to@[j] == q,
{
    assert forall|j: int| 0 <= j < to@.len() implies m.contains_key(to@[j]) && to@[j] != sender by {
        assert(to@.to_set().contains(to@[j]));
    }
    assert forall|q: PeerId| m.contains_key(q) && q != sender implies exists|j: int|
        0 <= j < to@.len() && #[trigger] to@[j] == q by {
        assert(m.dom().remove(sender).contains(q));
        assert(to@.to_set().contains(q));
    }
}

/// The single owner of the registry. It processes one event at a time, so
/// every change to the registry and every broadcast is decided in one order.
pub struct Coordinator<H> {
    registry: Registry<H>,
}

impl<H> View for Coordinator<H> {
    type V = Map<PeerId, H>;

    closed spec fn view(&self) -> Map<PeerId, H> {
        self.registry@
    }
}

impl<H> Coordinator<H> {
    pub closed spec fn wf(&self) -> bool {
        self.registry.wf()
    }

    /// A coordinator with no registered peer.
    pub fn new() -> (r: Coordinator<H>)
        ensures
            r.wf(),
            r@ == Map::<PeerId, H>::empty(),
    {
        Coordinator { registry: Registry::new() }
    }

    /// The registry, for reading.
    pub fn registry(&self) -> (r: &Registry<H>)
        requires
            self.wf(),
        ensures
            r.wf(),
            r@ == self@,
    {
        &self.registry
    }

    /// Number of registered peers.
    pub fn len(&self) -> (r: usize)
        requires
            self.wf(),
        ensures
            self@.dom().finite(),
            r == self@.dom().len(),
    {
        self.registry.len()
    }

    /// Processes one event. `Connected` registers the peer's handle,
    /// overwriting an earlier one; `Disconnected` unregisters the peer if it is
    /// registered; `Message` leaves the registry as it is and names every other
    /// registered peer as a target. Only `Message` asks for writes.
    pub fn process(&mut self, event: Event<H>) -> (r: Report)
        requires
            old(self).wf(),
        ensures
            final(self).wf(),
            final(self)@ == next_registry(old(self)@, event),
            event matches Event::Connected(id, _) ==> r == (Report::Joined {
                peer: id,
                replaced: old(self)@.contains_key(id),
            }),
            event matches Event::Disconnected(id) ==> r == (Report::Left {
                peer: id,
                was_registered: old(self)@.contains_key(id),
            }),
            !(event is Message) ==> writes(final(self)@, r) == Seq::<(H, Seq<u8>)>::empty(),
            event matches Event::Message(id, bytes) ==> r matches Report::Relayed {
                from,
                to,
                payload,
            } && from == id && payload@ == bytes@ && all_others(old(self)@, id, to@),
    {
        match event {
            Event::Connected(id, handle) => {
                let replaced = self.registry.insert(id, handle);
                Report::Joined { peer: id, replaced }
            },
            Event::Disconnected(id) => {
                let removed = self.registry.remove(&id);
                Report::Left { peer: id, was_registered: removed.is_some() }
            },
            Event::Message(id, bytes) => {
                let to = self.registry.others(&id);
                Report::Relayed { from: id, to, payload: bytes }
            },
        }
    }
}


} // verus!
