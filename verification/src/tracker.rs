//! The authorization tracker: the last-known authorization state of every
//! peer, as delivered by the peer authorization service.

use vstd::prelude::*;
use crate::messages::str_eq;

verus! {

#[derive(Clone, Copy, PartialEq, Eq, Structural, Debug)]
pub enum PeerAuthorizationState {
    Unknown,
    Connecting,
    Authorized,
    Unauthorized,
}

pub struct PeerEntry {
    pub peer_id: String,
    pub state: PeerAuthorizationState,
}

pub struct PeerEntryView {
    pub peer_id: Seq<char>,
    pub state: PeerAuthorizationState,
}

impl View for PeerEntry {
    type V = PeerEntryView;

    open spec fn view(&self) -> PeerEntryView {
        PeerEntryView { peer_id: self.peer_id@, state: self.state }
    }
}

pub open spec fn peers_view(l: Seq<PeerEntry>) -> Seq<PeerEntryView> {
    Seq::new(l.len(), |i: int| l[i]@)
}

/// The state recorded for a peer: that of its first entry, or `Unknown`
/// where no entry exists.
pub open spec fn find_state(v: Seq<PeerEntryView>, p: Seq<char>) -> PeerAuthorizationState
    decreases v.len(),
{
    if v.len() == 0 {
        PeerAuthorizationState::Unknown
    } else if v[0].peer_id == p {
        v[0].state
    } else {
        find_state(v.drop_first(), p)
    }
}

proof fn lemma_find_state_skip(v: Seq<PeerEntryView>, p: Seq<char>, i: int)
    requires
        0 <= i <= v.len(),
        forall|k: int| 0 <= k < i ==> (#[trigger] v[k]).peer_id != p,
    ensures
        find_state(v, p) == find_state(v.skip(i), p),
    decreases i,
{
    if i > 0 {
        assert(v.drop_first().skip(i - 1) =~= v.skip(i));
        assert(forall|k: int|
            0 <= k < i - 1 ==> (#[trigger] v.drop_first()[k]).peer_id != p) by {
            assert(forall|k: int| 0 <= k < i - 1 ==> v.drop_first()[k] == v[k + 1]);
        }
        lemma_find_state_skip(v.drop_first(), p, i - 1);
    } else {
        assert(v.skip(0) =~= v);
    }
}

proof fn lemma_find_state_update(
    v: Seq<PeerEntryView>,
    idx: int,
    e: PeerEntryView,
    q: Seq<char>,
)
    requires
        0 <= idx < v.len(),
        v[idx].peer_id == e.peer_id,
        q != e.peer_id,
    ensures
        find_state(v.update(idx, e), q) == find_state(v, q),
    decreases idx,
{
    let w = v.update(idx, e);
    if idx == 0 {
        assert(w[0].peer_id == v[0].peer_id);
        assert(w.drop_first() =~= v.drop_first());
    } else {
        assert(w[0] == v[0]);
        if v[0].peer_id != q {
            assert(w.drop_first() =~= v.drop_first().update(idx - 1, e));
            lemma_find_state_update(v.drop_first(), idx - 1, e, q);
        }
    }
}

proof fn lemma_find_state_push(v: Seq<PeerEntryView>, e: PeerEntryView, q: Seq<char>)
    requires
        forall|k: int| 0 <= k < v.len() ==> (#[trigger] v[k]).peer_id != e.peer_id,
    ensures
        q != e.peer_id ==> find_state(v.push(e), q) == find_state(v, q),
        find_state(v.push(e), e.peer_id) == e.state,
    decreases v.len(),
{
    if v.len() == 0 {
        assert(v.push(e)[0] == e);
        assert(v.push(e).drop_first() =~= Seq::<PeerEntryView>::empty());
    } else {
        assert(v.push(e)[0] == v[0]);
        assert(v.push(e).drop_first() =~= v.drop_first().push(e));
        assert(forall|k: int|
            0 <= k < v.drop_first().len() ==> (#[trigger] v.drop_first()[k]).peer_id
                != e.peer_id) by {
            assert(forall|k: int|
                0 <= k < v.drop_first().len() ==> v.drop_first()[k] == v[k + 1]);
        }
        lemma_find_state_push(v.drop_first(), e, q);
    }
}

/// Observes per-peer authorization transitions and answers whether a peer
/// is currently authorized.
pub struct AuthorizationTracker {
    pub peers: Vec<PeerEntry>,
}

impl View for AuthorizationTracker {
    type V = Seq<PeerEntryView>;

    open spec fn view(&self) -> Seq<PeerEntryView> {
        peers_view(self.peers@)
    }
}

impl AuthorizationTracker {
    pub open spec fn state_of(self, p: Seq<char>) -> PeerAuthorizationState {
        find_state(self@, p)
    }

    pub open spec fn authorized(self, p: Seq<char>) -> bool {
        self.state_of(p) == PeerAuthorizationState::Authorized
    }

    pub fn new() -> (r: Self)
        ensures
            r@ == Seq::<PeerEntryView>::empty(),
            forall|p: Seq<char>| r.state_of(p) == PeerAuthorizationState::Unknown,
    {
        let r = AuthorizationTracker { peers: Vec::new() };
        proof {
            assert(r@ =~= Seq::<PeerEntryView>::empty());
        }
        r
    }

    pub fn is_authorized(&self, peer_id: &str) -> (r: bool)
        ensures
            r == self.authorized(peer_id@),
    {
        let mut i: usize = 0;
        while i < self.peers.len()
            invariant
                i <= self.peers@.len(),
                forall|k: int| 0 <= k < i ==> (#[trigger] self@[k]).peer_id != peer_id@,
            decreases self.peers@.len() - i,
        {
            if str_eq(self.peers[i].peer_id.as_str(), peer_id) {
                proof {
                    lemma_find_state_skip(self@, peer_id@, i as int);
                    assert(self@.skip(i as int)[0] == self@[i as int]);
                }
                return matches!(self.peers[i].state, PeerAuthorizationState::Authorized);
            }
            i = i + 1;
        }
        proof {
            lemma_find_state_skip(self@, peer_id@, self@.len() as int);
            assert(self@.skip(self@.len() as int) =~= Seq::<PeerEntryView>::empty());
        }
        false
    }

    /// Records the newest authorization state delivered for a peer; every
    /// other peer's recorded state is untouched.
    pub fn set_state(&mut self, peer_id: &str, state: PeerAuthorizationState)
        ensures
            final(self).state_of(peer_id@) == state,
            forall|q: Seq<char>| q != peer_id@ ==> final(self).state_of(q) == old(self).state_of(q),
    {
        let ghost oldv = self@;
        let mut i: usize = 0;
        while i < self.peers.len()
            invariant
                i <= self.peers@.len(),
                self@ == oldv,
                oldv == old(self)@,
                forall|k: int| 0 <= k < i ==> (#[trigger] self@[k]).peer_id != peer_id@,
            decreases self.peers@.len() - i,
        {
            if str_eq(self.peers[i].peer_id.as_str(), peer_id) {
                let mut e = self.peers.remove(i);
                e.state = state;
                self.peers.insert(i, e);
                proof {
                    let ev = PeerEntryView { peer_id: oldv[i as int].peer_id, state: state };
                    assert(self@ =~= oldv.update(i as int, ev));
                    lemma_find_state_skip(self@, peer_id@, i as int);
                    assert(self@.skip(i as int)[0] == self@[i as int]);
                    assert forall|q: Seq<char>| q != peer_id@ implies find_state(self@, q)
                        == find_state(oldv, q) by {
                        lemma_find_state_update(oldv, i as int, ev, q);
                    }
                }
                return ;
            }
            i = i + 1;
        }
        let e = PeerEntry { peer_id: String::from_str(peer_id), state };
        self.peers.push(e);
        proof {
            let ev = PeerEntryView { peer_id: peer_id@, state: state };
            assert(self@ =~= oldv.push(ev));
            lemma_find_state_push(oldv, ev, peer_id@);
            assert forall|q: Seq<char>| q != peer_id@ implies find_state(self@, q) == find_state(
                oldv,
                q,
            ) by {
                lemma_find_state_push(oldv, ev, q);
            }
        }
    }
}

} // verus!
