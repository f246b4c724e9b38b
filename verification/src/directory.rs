//! The circuit directory: the committed circuits of this node.  Commits only
//! add circuits; nothing here ever removes one, so the directory grows
//! monotonically and circuit ids stay unique.

use vstd::prelude::*;
use crate::messages::{str_eq, Circuit, CircuitView};

verus! {

pub open spec fn circuits_view(l: Seq<Circuit>) -> Seq<CircuitView> {
    Seq::new(l.len(), |i: int| l[i]@)
}

/// The first committed circuit carrying the given id, if any.
pub open spec fn find_circuit(v: Seq<CircuitView>, cid: Seq<char>) -> Option<CircuitView>
    decreases v.len(),
{
    if v.len() == 0 {
        None
    } else if v[0].circuit_id == cid {
        Some(v[0])
    } else {
        find_circuit(v.drop_first(), cid)
    }
}

proof fn lemma_find_circuit_skip(v: Seq<CircuitView>, cid: Seq<char>, i: int)
    requires
        0 <= i <= v.len(),
        forall|k: int| 0 <= k < i ==> (#[trigger] v[k]).circuit_id != cid,
    ensures
        find_circuit(v, cid) == find_circuit(v.skip(i), cid),
    decreases i,
{
    if i > 0 {
        assert(v.drop_first().skip(i - 1) =~= v.skip(i));
        assert(forall|k: int|
            0 <= k < i - 1 ==> (#[trigger] v.drop_first()[k]).circuit_id != cid) by {
            assert(forall|k: int| 0 <= k < i - 1 ==> v.drop_first()[k] == v[k + 1]);
        }
        lemma_find_circuit_skip(v.drop_first(), cid, i - 1);
    } else {
        assert(v.skip(0) =~= v);
    }
}

proof fn lemma_find_circuit_push(v: Seq<CircuitView>, c: CircuitView, cid: Seq<char>)
    ensures
        find_circuit(v, cid) is Some ==> find_circuit(v.push(c), cid) == find_circuit(v, cid),
        find_circuit(v, cid) is None && c.circuit_id == cid ==> find_circuit(v.push(c), cid)
            == Some(c),
        find_circuit(v, cid) is None && c.circuit_id != cid ==> find_circuit(v.push(c), cid)
            is None,
    decreases v.len(),
{
    if v.len() == 0 {
        assert(v.push(c)[0] == c);
        assert(v.push(c).drop_first() =~= Seq::<CircuitView>::empty());
    } else {
        assert(v.push(c)[0] == v[0]);
        assert(v.push(c).drop_first() =~= v.drop_first().push(c));
        lemma_find_circuit_push(v.drop_first(), c, cid);
    }
}

/// The persistent store of committed circuits.
pub struct CircuitDirectory {
    pub circuits: Vec<Circuit>,
}

impl View for CircuitDirectory {
    type V = Seq<CircuitView>;

    open spec fn view(&self) -> Seq<CircuitView> {
        circuits_view(self.circuits@)
    }
}

impl CircuitDirectory {
    pub open spec fn has_circuit(self, cid: Seq<char>) -> bool {
        find_circuit(self@, cid) is Some
    }

    pub fn new() -> (r: Self)
        ensures
            r@ == Seq::<CircuitView>::empty(),
    {
        let r = CircuitDirectory { circuits: Vec::new() };
        proof {
            assert(r@ =~= Seq::<CircuitView>::empty());
        }
        r
    }

    /// The committed circuit with this id, if one exists.
    pub fn lookup(&self, cid: &str) -> (r: Option<&Circuit>)
        ensures
            (match r {
                Some(c) => find_circuit(self@, cid@) == Some(c@),
                None => find_circuit(self@, cid@) is None,
            }),
    {
        let mut i: usize = 0;
        while i < self.circuits.len()
            invariant
                i <= self.circuits@.len(),
                forall|k: int| 0 <= k < i ==> (#[trigger] self@[k]).circuit_id != cid@,
            decreases self.circuits@.len() - i,
        {
            if str_eq(self.circuits[i].circuit_id.as_str(), cid) {
                proof {
                    lemma_find_circuit_skip(self@, cid@, i as int);
                    assert(self@.skip(i as int)[0] == self@[i as int]);
                }
                return Some(&self.circuits[i]);
            }
            i = i + 1;
        }
        proof {
            lemma_find_circuit_skip(self@, cid@, self@.len() as int);
            assert(self@.skip(self@.len() as int) =~= Seq::<CircuitView>::empty());
        }
        None
    }

    /// Commits a circuit.  The directory only ever grows: the new view is
    /// the old view with this circuit appended.
    pub fn commit(&mut self, c: Circuit)
        requires
            !old(self).has_circuit(c@.circuit_id),
        ensures
            final(self)@ == old(self)@.push(c@),
            final(self).has_circuit(c@.circuit_id),
            find_circuit(final(self)@, c@.circuit_id) == Some(c@),
            forall|q: Seq<char>|
                q != c@.circuit_id ==> find_circuit(final(self)@, q) == find_circuit(
                    old(self)@,
                    q,
                ),
    {
        let ghost oldv = self@;
        let ghost cv = c@;
        self.circuits.push(c);
        proof {
            assert(self@ =~= oldv.push(cv));
            lemma_find_circuit_push(oldv, cv, cv.circuit_id);
            assert forall|q: Seq<char>| q != cv.circuit_id implies find_circuit(self@, q)
                == find_circuit(oldv, q) by {
                lemma_find_circuit_push(oldv, cv, q);
            }
        }
    }
}

} // verus!
