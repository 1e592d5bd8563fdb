use vstd::prelude::*;

use crate::peer::PeerId;

verus! {

/// The set of connected peers: each identity maps to the handle through which
/// the peer is written to. Identities are unique; handles are kept in the
/// order in which their peers first registered.
pub struct Registry<H> {
    entries: Vec<(PeerId, H)>,
    model: Ghost<Map<PeerId, H>>,
}

impl<H> View for Registry<H> {
    type V = Map<PeerId, H>;

    closed spec fn view(&self) -> Map<PeerId, H> {
        self.model@
    }
}

impl<H> Registry<H> {
    /// The registered identities in the order the registry holds them.
    pub closed spec fn ids(&self) -> Seq<PeerId> {
        self.entries@.map_values(|e: (PeerId, H)| e.0)
    }

    pub closed spec fn wf(&self) -> bool {
        &&& self.ids().no_duplicates()
        &&& self.model@.dom() == self.ids().to_set()
        &&& forall|i: int|
            0 <= i < self.entries@.len() ==> self.model@[#[trigger] self.entries@[i].0]
                == self.entries@[i].1
    }

    /// `x` is the identity of one of the first `n` entries.
    closed spec fn held_before(&self, x: PeerId, n: int) -> bool {
        exists|k: int| 0 <= k < n && #[trigger] self.entries@[k].0 == x
    }

    proof fn lemma_len(&self)
        requires
            self.wf(),
        ensures
            self@.dom().finite(),
            self@.dom().len() == self.entries@.len(),
    {
        self.ids().unique_seq_to_set();
    }

    /// An empty registry.
    pub fn new() -> (r: Registry<H>)
        ensures
            r.wf(),
            r@ == Map::<PeerId, H>::empty(),
    {
        let r = Registry { entries: Vec::new(), model: Ghost(Map::empty()) };
        assert(r.ids().to_set() =~= Set::empty());
        r
    }

    /// Number of registered peers.
    pub fn len(&self) -> (r: usize)
        requires
            self.wf(),
        ensures
            self@.dom().finite(),
            r == self@.dom().len(),
    {
        proof {
            self.lemma_len();
        }
        self.entries.len()
    }

    /// Position of `id` among the entries, if it is registered.
    fn find(&self, id: &PeerId) -> (r: Option<usize>)
        requires
            self.wf(),
        ensures
            r is None ==> !self@.contains_key(*id),
            r matches Some(i) ==> i < self.entries@.len() && self.entries@[i as int].0 == *id,
    {
        let mut i: usize = 0;
        while i < self.entries.len()
            invariant
                i <= self.entries@.len(),
                forall|k: int| 0 <= k < i ==> self.entries@[k].0 != *id,
            decreases self.entries@.len() - i,
        {
            if self.entries[i].0.same_as(id) {
                return Some(i);
            }
            i = i + 1;
        }
        proof {
            if self@.contains_key(*id) {
                let k = choose|k: int| 0 <= k < self.ids().len() && self.ids()[k] == *id;
                assert(self.entries@[k].0 == *id);
            }
        }
        None
    }

    /// Whether `id` is registered.
    pub fn contains(&self, id: &PeerId) -> (r: bool)
        requires
            self.wf(),
        ensures
            r == self@.contains_key(*id),
    {
        match self.find(id) {
            Some(i) => {
                assert(self.ids()[i as int] == *id);
                true
            },
            None => false,
        }
    }

    /// The handle registered for `id`, if any.
    pub fn get(&self, id: &PeerId) -> (r: Option<&H>)
        requires
            self.wf(),
        ensures
            r is None ==> !self@.contains_key(*id),
            r matches Some(h) ==> self@.contains_key(*id) && *h == self@[*id],
    {
        match self.find(id) {
            Some(i) => {
                assert(self.ids()[i as int] == *id);
                Some(&self.entries[i].1)
            },
            None => None,
        }
    }
    /// Registers `handle` under `id`, replacing the handle of an earlier
    /// registration of the same identity. Returns whether one was replaced.
    pub fn insert(&mut self, id: PeerId, handle: H) -> (replaced: bool)
        requires
            old(self).wf(),
        ensures
            final(self).wf(),
            final(self)@ == old(self)@.insert(id, handle),
            replaced == old(self)@.contains_key(id),
    {
        let ghost before = self.entries@;
        match self.find(&id) {
            Some(i) => {
                proof {
                    assert(self.ids()[i as int] == id);
                }
                self.entries.set(i, (id, handle));
                self.model = Ghost(self.model@.insert(id, handle));
                proof {
                    assert(self.ids() =~= before.map_values(|e: (PeerId, H)| e.0));
                    assert(self.model@.dom() =~= self.ids().to_set());
                    assert forall|k: int| 0 <= k < self.entries@.len() implies self.model@[
                        #[trigger] self.entries@[k].0] == self.entries@[k].1 by {
                        if k != i {
                            assert(self.ids()[k] != self.ids()[i as int]);
                        }
                    }
                }
                true
            },
            None => {
                let ghost old_ids = self.ids();
                self.entries.push((id, handle));
                self.model = Ghost(self.model@.insert(id, handle));
                proof {
                    assert(self.ids() =~= old_ids.push(id));
                    old_ids.lemma_push_to_set_commute(id);
                    assert(!old_ids.contains(id));
                    assert forall|a: int, b: int|
                        0 <= a < self.ids().len() && 0 <= b < self.ids().len() && a != b
                        implies self.ids()[a] != self.ids()[b] by {
                        if a < old_ids.len() && b < old_ids.len() {
                        } else if a == old_ids.len() {
                            assert(old_ids[b] == self.ids()[b]);
                        } else {
                            assert(old_ids[a] == self.ids()[a]);
                        }
                    }
                    assert(self.model@.dom() =~= self.ids().to_set());
                    assert forall|k: int| 0 <= k < self.entries@.len() implies self.model@[
                        #[trigger] self.entries@[k].0] == self.entries@[k].1 by {
                        if k < old_ids.len() {
                            assert(old_ids[k] == self.entries@[k].0);
                        }
                    }
                }
                false
            },
        }
    }

    /// Unregisters `id` and returns its handle; an identity that is not
    /// registered leaves the registry as it is.
    pub fn remove(&mut self, id: &PeerId) -> (r: Option<H>)
        requires
            old(self).wf(),
        ensures
            final(self).wf(),
            final(self)@ == old(self)@.remove(*id),
            r is Some <==> old(self)@.contains_key(*id),
            r matches Some(h) ==> h == old(self)@[*id],
    {
        match self.find(id) {
            Some(i) => {
                let ghost old_ids = self.ids();
                let ghost old_entries = self.entries@;
                proof {
                    assert(old_ids[i as int] == *id);
                }
                let (_, h) = self.entries.remove(i);
                self.model = Ghost(self.model@.remove(*id));
                proof {
                    assert(self.ids() =~= old_ids.remove(i as int));
                    assert forall|k: int| 0 <= k < self.ids().len() implies #[trigger] self.ids()[k]
                        != *id by {
                        if k < i {
                            assert(self.ids()[k] == old_ids[k]);
                        } else {
                            assert(self.ids()[k] == old_ids[k + 1]);
                        }
                    }
                    assert forall|a: int, b: int|
                        0 <= a < self.ids().len() && 0 <= b < self.ids().len() && a != b
                        implies self.ids()[a] != self.ids()[b] by {
                        let oa = if a < i { a } else { a + 1 };
                        let ob = if b < i { b } else { b + 1 };
                        assert(self.ids()[a] == old_ids[oa]);
                        assert(self.ids()[b] == old_ids[ob]);
                    }
                    assert forall|x: PeerId| self.model@.dom().contains(x) <==> self.ids().to_set().contains(x) by {
                        if self.model@.dom().contains(x) {
                            let k = choose|k: int| 0 <= k < old_ids.len() && old_ids[k] == x;
                            assert(k != i);
                            if k < i {
                                assert(self.ids()[k] == x);
                            } else {
                                assert(self.ids()[k - 1] == x);
                            }
                        }
                        if self.ids().to_set().contains(x) {
                            let k = choose|k: int| 0 <= k < self.ids().len() && self.ids()[k] == x;
                            if k < i {
                                assert(old_ids[k] == x);
                            } else {
                                assert(old_ids[k + 1] == x);
                            }
                        }
                    }
                    assert(self.model@.dom() =~= self.ids().to_set());
                    assert forall|k: int| 0 <= k < self.entries@.len() implies self.model@[
                        #[trigger] self.entries@[k].0] == self.entries@[k].1 by {
                        let ok = if k < i { k } else { k + 1 };
                        assert(self.entries@[k] == old_entries[ok]);
                        assert(self.ids()[k] == self.entries@[k].0);
                    }
                    assert(old_entries[i as int].0 == *id);
                }
                Some(h)
            },
            None => {
                proof {
                    assert(self.model@.remove(*id) =~= self.model@);
                }
                None
            },
        }
    }
    /// The peers a message from `sender` goes to: every registered peer other
    /// than `sender`, each once, in registry order. The sender is left out by
    /// identity, whatever its handle.
    pub fn others(&self, sender: &PeerId) -> (r: Vec<PeerId>)
        requires
            self.wf(),
        ensures
            r@.no_duplicates(),
            r@.to_set() == self@.dom().remove(*sender),
            !r@.contains(*sender),
            self@.dom().remove(*sender).finite(),
            r@.len() == self@.dom().remove(*sender).len(),
    {
        let mut out: Vec<PeerId> = Vec::new();
        let mut i: usize = 0;
        while i < self.entries.len()
            invariant
                self.wf(),
                i <= self.entries@.len(),
                out@.no_duplicates(),
                forall|j: int| 0 <= j < out@.len() ==> self.held_before(#[trigger] out@[j], i as int),
                forall|j: int| 0 <= j < out@.len() ==> #[trigger] out@[j] != *sender,
                forall|k: int|
                    0 <= k < i && #[trigger] self.entries@[k].0 != *sender ==> out@.contains(
                        self.entries@[k].0,
                    ),
            decreases self.entries@.len() - i,
        {
            let id = self.entries[i].0;
            if !id.same_as(sender) {
                let ghost prev = out@;
                out.push(id);
                proof {
                    assert forall|j: int| 0 <= j < prev.len() implies prev[j] != id by {
                        let k = choose|k: int| 0 <= k < i && #[trigger] self.entries@[k].0 == prev[j];
                        assert(self.ids()[k] == self.entries@[k].0);
                        assert(self.ids()[i as int] == self.entries@[i as int].0);
                    }
                    assert forall|j: int| 0 <= j < out@.len() implies self.held_before(
                        #[trigger] out@[j],
                        i + 1,
                    ) by {
                        if j < prev.len() {
                            let k = choose|k: int| 0 <= k < i && #[trigger] self.entries@[k].0 == prev[j];
                        } else {
                            assert(self.entries@[i as int].0 == out@[j]);
                        }
                    }
                    assert forall|k: int|
                        0 <= k < i + 1 && #[trigger] self.entries@[k].0 != *sender implies out@.contains(
                        self.entries@[k].0,
                    ) by {
                        if k < i {
                            let j = choose|j: int| 0 <= j < prev.len() && prev[j] == self.entries@[k].0;
                            assert(out@[j] == self.entries@[k].0);
                        } else {
                            assert(out@[prev.len() as int] == self.entries@[k].0);
                        }
                    }
                }
            }
            i = i + 1;
        }
        proof {
            assert forall|x: PeerId| out@.to_set().contains(x) <==> self@.dom().remove(*sender).contains(x) by {
                if out@.to_set().contains(x) {
                    let j = choose|j: int| 0 <= j < out@.len() && out@[j] == x;
                    let k = choose|k: int| 0 <= k < i && #[trigger] self.entries@[k].0 == out@[j];
                    assert(self.ids()[k] == x);
                    assert(self.ids().to_set().contains(x));
                }
                if self@.dom().remove(*sender).contains(x) {
                    let k = choose|k: int| 0 <= k < self.ids().len() && self.ids()[k] == x;
                    assert(self.entries@[k].0 == x);
                }
            }
            assert(out@.to_set() =~= self@.dom().remove(*sender));
            out@.unique_seq_to_set();
        }
        out
    }
}

} // verus!
