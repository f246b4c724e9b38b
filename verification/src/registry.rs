//! The subscriber registry: long-lived client channels keyed by circuit
//! management type, receiving circuit-lifecycle events in FIFO order.
//!
//! A subscriber here is an outbound buffer; the surrounding runtime drains
//! each buffer onto its real channel and removes subscribers whose channel
//! has failed.

use vstd::prelude::*;
use crate::messages::str_eq;

verus! {

#[derive(Clone, Copy, PartialEq, Eq, Structural, Debug)]
pub enum AdminEventKind {
    CircuitReady,
    CircuitRejected,
    ServiceStartFailed,
}

/// A circuit-lifecycle event: what happened, to which proposal, for which
/// circuit where the payload named one, and — for a failed service start —
/// which roster service it concerned.
pub struct AdminEvent {
    pub kind: AdminEventKind,
    pub proposal_id: Vec<u8>,
    pub circuit_id: Option<String>,
    pub service_id: Option<String>,
}

pub struct AdminEventView {
    pub kind: AdminEventKind,
    pub proposal_id: Seq<u8>,
    pub circuit_id: Option<Seq<char>>,
    pub service_id: Option<Seq<char>>,
}

impl View for AdminEvent {
    type V = AdminEventView;

    open spec fn view(&self) -> AdminEventView {
        AdminEventView {
            kind: self.kind,
            proposal_id: self.proposal_id@,
            circuit_id: match self.circuit_id {
                Some(ref c) => Some(c@),
                None => None,
            },
            service_id: match self.service_id {
                Some(ref c) => Some(c@),
                None => None,
            },
        }
    }
}

impl Clone for AdminEvent {
    fn clone(&self) -> (r: Self)
        ensures
            r@ == self@,
    {
        AdminEvent {
            kind: self.kind,
            proposal_id: self.proposal_id.clone(),
            circuit_id: match &self.circuit_id {
                Some(c) => Some(c.clone()),
                None => None,
            },
            service_id: match &self.service_id {
                Some(c) => Some(c.clone()),
                None => None,
            },
        }
    }
}

pub struct Subscriber {
    pub management_type: String,
    pub queue: Vec<AdminEvent>,
}

pub struct SubscriberView {
    pub management_type: Seq<char>,
    pub queue: Seq<AdminEventView>,
}

impl View for Subscriber {
    type V = SubscriberView;

    open spec fn view(&self) -> SubscriberView {
        SubscriberView {
            management_type: self.management_type@,
            queue: Seq::new(self.queue@.len(), |i: int| self.queue@[i]@),
        }
    }
}

pub open spec fn subs_view(l: Seq<Subscriber>) -> Seq<SubscriberView> {
    Seq::new(l.len(), |i: int| l[i]@)
}

/// The registry after an event is delivered to every subscriber of the
/// given management type, appended in FIFO order.
pub open spec fn broadcast_spec(
    v: Seq<SubscriberView>,
    mgmt: Seq<char>,
    e: AdminEventView,
) -> Seq<SubscriberView> {
    Seq::new(
        v.len(),
        |i: int|
            if v[i].management_type == mgmt {
                SubscriberView { management_type: v[i].management_type, queue: v[i].queue.push(e) }
            } else {
                v[i]
            },
    )
}

pub struct SubscriberRegistry {
    pub subs: Vec<Subscriber>,
}

impl View for SubscriberRegistry {
    type V = Seq<SubscriberView>;

    open spec fn view(&self) -> Seq<SubscriberView> {
        subs_view(self.subs@)
    }
}

impl SubscriberRegistry {
    pub fn new() -> (r: Self)
        ensures
            r@ == Seq::<SubscriberView>::empty(),
    {
        let r = SubscriberRegistry { subs: Vec::new() };
        proof {
            assert(r@ =~= Seq::<SubscriberView>::empty());
        }
        r
    }

    /// Registers a client for events of one management type; the returned
    /// index names the subscriber for draining and removal.
    pub fn add_subscriber(&mut self, management_type: String) -> (r: usize)
        ensures
            final(self)@ == old(self)@.push(
                SubscriberView {
                    management_type: management_type@,
                    queue: Seq::<AdminEventView>::empty(),
                },
            ),
            r == old(self)@.len(),
    {
        let ghost oldv = self@;
        let idx = self.subs.len();
        self.subs.push(Subscriber { management_type, queue: Vec::new() });
        proof {
            let n = self@.len() as int;
            assert(self@[n - 1].queue =~= Seq::<AdminEventView>::empty());
            assert(self@ =~= oldv.push(self@[n - 1]));
        }
        idx
    }

    /// Delivers an event to every subscriber of the management type, in
    /// registration order, appending to each queue (FIFO within a key).
    pub fn broadcast(&mut self, management_type: &str, event: &AdminEvent)
        ensures
            final(self)@ == broadcast_spec(old(self)@, management_type@, event@),
    {
        let ghost oldv = self@;
        let mut i: usize = 0;
        while i < self.subs.len()
            invariant
                i <= self.subs@.len(),
                self@.len() == oldv.len(),
                forall|k: int|
                    i <= k < oldv.len() ==> (#[trigger] self@[k]) == oldv[k],
                forall|k: int|
                    0 <= k < i ==> (#[trigger] self@[k]) == broadcast_spec(
                        oldv,
                        management_type@,
                        event@,
                    )[k],
            decreases self.subs@.len() - i,
        {
            if str_eq(self.subs[i].management_type.as_str(), management_type) {
                let ghost before = self@[i as int];
                let ghost prevsubs = self.subs@;
                let e = event.clone();
                let mut s = self.subs.remove(i);
                s.queue.push(e);
                let ghost se = s;
                self.subs.insert(i, s);
                proof {
                    assert(self.subs@ =~= prevsubs.update(i as int, se));
                    assert forall|k: int| 0 <= k < oldv.len() && k != i implies (
                    #[trigger] self@[k]) == subs_view(prevsubs)[k] by {
                        assert(self.subs@[k] == prevsubs[k]);
                    }
                    assert(self@[i as int].management_type == before.management_type);
                    assert(self@[i as int].queue =~= before.queue.push(event@));
                }
            }
            i = i + 1;
        }
        proof {
            assert(self@ =~= broadcast_spec(oldv, management_type@, event@));
        }
    }

    /// Hands back everything queued for one subscriber, leaving its queue
    /// empty; the runtime sends the events down the real channel.
    pub fn take_events(&mut self, idx: usize) -> (r: Vec<AdminEvent>)
        requires
            idx < old(self)@.len(),
        ensures
            final(self)@.len() == old(self)@.len(),
            Seq::new(r@.len(), |i: int| r@[i]@) == old(self)@[idx as int].queue,
            final(self)@[idx as int].management_type == old(self)@[idx as int].management_type,
            final(self)@[idx as int].queue == Seq::<AdminEventView>::empty(),
            forall|k: int|
                0 <= k < old(self)@.len() && k != idx ==> (#[trigger] final(self)@[k]) == old(
                    self,
                )@[k],
    {
        let mut s = self.subs.remove(idx);
        let q = s.queue;
        s.queue = Vec::new();
        self.subs.insert(idx, s);
        proof {
            assert(final(self)@[idx as int].queue =~= Seq::<AdminEventView>::empty());
            assert(Seq::new(q@.len(), |i: int| q@[i]@) =~= old(self)@[idx as int].queue);
        }
        q
    }

    /// Drops a subscriber whose channel has closed or failed on send.
    pub fn remove_subscriber(&mut self, idx: usize)
        requires
            idx < old(self)@.len(),
        ensures
            final(self)@ == old(self)@.remove(idx as int),
    {
        self.subs.remove(idx);
        proof {
            assert(self@ =~= old(self)@.remove(idx as int));
        }
    }
}

} // verus!
