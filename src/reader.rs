use vstd::prelude::*;

use crate::event::Event;
use crate::peer::PeerId;

verus! {

/// Size of the buffer a reader reads into; one read yields at most this many
/// bytes. Chunks are not messages: the relay does no reassembly.
pub const READ_BUFFER_SIZE: usize = 64;

/// Where a reader stands in its connection's life.
#[derive(Clone, Copy, Debug, PartialEq, Eq, Structural)]
pub enum Phase {
    /// Accepted; `Connected` not reported yet.
    Starting,
    /// `Connected` reported; each read is reported as a `Message`.
    Relaying,
    /// A read failed or found the end of the stream; `Disconnected` reported.
    Terminated,
}

/// The decisions of the task that reads one connection: which event to report
/// to the coordinator for each step, in the order `Connected`, then one
/// `Message` per chunk read, then one `Disconnected`.
pub struct Reader {
    peer: PeerId,
    phase: Phase,
    reported: Ghost<Seq<Event<()>>>,
}

/// An event with its handle left out.
pub open spec fn unhandled<H>(e: Event<H>) -> Event<()> {
    match e {
        Event::Connected(id, _) => Event::Connected(id, ()),
        Event::Disconnected(id) => Event::Disconnected(id),
        Event::Message(id, bytes) => Event::Message(id, bytes),
    }
}

/// `s` is what a reader of `peer` in `phase` has reported: nothing before it
/// starts; then `Connected`, followed by `Message`s; and once terminated, one
/// `Disconnected` as the last report.
pub open spec fn reports_in_order(peer: PeerId, phase: Phase, s: Seq<Event<()>>) -> bool {
    match phase {
        Phase::Starting => s.len() == 0,
        Phase::Relaying => {
            &&& s.len() >= 1
            &&& s[0] == Event::Connected(peer, ())
            &&& forall|i: int| 1 <= i < s.len() ==> #[trigger] s[i] is Message && s[i].peer() == peer
        },
        Phase::Terminated => {
            &&& s.len() >= 2
            &&& s[0] == Event::Connected(peer, ())
            &&& forall|i: int|
                1 <= i < s.len() - 1 ==> #[trigger] s[i] is Message && s[i].peer() == peer
            &&& s.last() == Event::<()>::Disconnected(peer)
        },
    }
}

/// A terminated reader has reported `Disconnected` exactly once, as its last
/// report, after its `Connected` and its `Message`s.
pub proof fn lemma_disconnect_reported_once(r: Reader)
    requires
        r.wf(),
        r.spec_phase() == Phase::Terminated,
    ensures
        r.reported().last() == Event::<()>::Disconnected(r.spec_peer()),
        forall|i: int| 0 <= i < r.reported().len() - 1 ==> !(#[trigger] r.reported()[i] is Disconnected),
{
    assert forall|i: int| 0 <= i < r.reported().len() - 1 implies !(#[trigger] r.reported()[i] is Disconnected) by {
        if i > 0 {
            assert(r.reported()[i] is Message);
        }
    }
}

impl Reader {
    pub closed spec fn spec_peer(&self) -> PeerId {
        self.peer
    }

    pub closed spec fn spec_phase(&self) -> Phase {
        self.phase
    }

    /// Everything this reader has reported so far, in order.
    pub closed spec fn reported(&self) -> Seq<Event<()>> {
        self.reported@
    }

    pub open spec fn wf(&self) -> bool {
        reports_in_order(self.spec_peer(), self.spec_phase(), self.reported())
    }

    /// A reader for the connection of `peer`, before anything is reported.
    pub fn new(peer: PeerId) -> (r: Reader)
        ensures
            r.wf(),
            r.spec_peer() == peer,
            r.spec_phase() == Phase::Starting,
            r.reported() == Seq::<Event<()>>::empty(),
    {
        Reader { peer, phase: Phase::Starting, reported: Ghost(Seq::empty()) }
    }

    /// The peer whose connection this reader reads.
    pub fn peer(&self) -> (r: PeerId)
        ensures
            r == self.spec_peer(),
    {
        self.peer
    }

    /// The reader's current phase.
    pub fn phase(&self) -> (r: Phase)
        ensures
            r == self.spec_phase(),
    {
        self.phase
    }

    /// Whether the reader has reported `Disconnected` and is done.
    pub fn is_terminated(&self) -> (r: bool)
        ensures
            r == (self.spec_phase() == Phase::Terminated),
    {
        self.phase == Phase::Terminated
    }

    /// The first step: reports `Connected` with the handle through which the
    /// coordinator writes to this peer.
    pub fn start<H>(&mut self, handle: H) -> (e: Event<H>)
        requires
            old(self).wf(),
            old(self).spec_phase() == Phase::Starting,
        ensures
            final(self).wf(),
            final(self).reported() == old(self).reported().push(unhandled(e)),
            final(self).spec_peer() == old(self).spec_peer(),
            final(self).spec_phase() == Phase::Relaying,
            e == Event::Connected(old(self).spec_peer(), handle),
    {
        self.phase = Phase::Relaying;
        self.reported = Ghost(self.reported@.push(Event::Connected(self.peer, ())));
        Event::Connected(self.peer, handle)
    }

    /// One read of the connection: `Some(n)` when the read put `n` bytes at the
    /// front of `buffer`, `None` when it failed. A chunk of bytes is reported as
    /// a `Message`; an end of stream (`Some(0)`) or a failure is reported as
    /// `Disconnected` and ends the reader.
    pub fn on_read<H>(&mut self, read: Option<usize>, buffer: &Vec<u8>) -> (e: Event<H>)
        requires
            old(self).wf(),
            old(self).spec_phase() == Phase::Relaying,
            read matches Some(n) ==> n <= buffer@.len(),
        ensures
            final(self).wf(),
            final(self).reported() == old(self).reported().push(unhandled(e)),
            final(self).spec_peer() == old(self).spec_peer(),
            read is Some && read->Some_0 > 0 ==> {
                &&& final(self).spec_phase() == Phase::Relaying
                &&& e matches Event::Message(id, bytes)
                &&& id == old(self).spec_peer()
                &&& bytes@ == buffer@.take(read->Some_0 as int)
            },
            !(read is Some && read->Some_0 > 0) ==> {
                &&& final(self).spec_phase() == Phase::Terminated
                &&& e == Event::<H>::Disconnected(old(self).spec_peer())
            },
    {
        match read {
            Some(n) if n > 0 => {
                let mut bytes: Vec<u8> = Vec::new();
                let mut i: usize = 0;
                while i < n
                    invariant
                        n <= buffer@.len(),
                        i <= n,
                        bytes@ == buffer@.take(i as int),
                    decreases n - i,
                {
                    bytes.push(buffer[i]);
                    i = i + 1;
                    assert(bytes@ =~= buffer@.take(i as int));
                }
                let ghost prev = self.reported@;
                self.reported = Ghost(prev.push(Event::Message(self.peer, bytes)));
                proof {
                    assert forall|k: int| 1 <= k < self.reported@.len() implies #[trigger] self.reported@[k] is Message
                        && self.reported@[k].peer() == self.peer by {
                        if k < prev.len() {
                            assert(self.reported@[k] == prev[k]);
                        }
                    }
                }
                Event::Message(self.peer, bytes)
            },
            _ => {
                self.phase = Phase::Terminated;
                let ghost prev = self.reported@;
                self.reported = Ghost(prev.push(Event::Disconnected(self.peer)));
                proof {
                    assert forall|k: int| 1 <= k < self.reported@.len() - 1 implies #[trigger] self.reported@[k] is Message
                        && self.reported@[k].peer() == self.peer by {
                        assert(self.reported@[k] == prev[k]);
                    }
                }
                Event::Disconnected(self.peer)
            },
        }
    }
}

} // verus!
