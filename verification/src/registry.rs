//! Peer registry: the directory from player identity to that connection's
//! outbound delivery channel. Sending enqueues and never blocks; a send to
//! an unknown identity is reported as not found, never as a failure of the
//! caller.

use vstd::prelude::*;
use crate::protocol::{Directed, OutboundEvent};

verus! {

#[verifier::external_type_specification]
#[verifier::external_body]
#[verifier::reject_recursive_types(T)]
pub struct ExUnboundedSender<T>(tokio::sync::mpsc::UnboundedSender<T>);

/// Relies on tokio's `UnboundedSender::send`: enqueues a clone of the
/// event onto the receiver's unbounded queue without blocking, and fails
/// only when the receiving half is gone. Nothing is assumed about the
/// outcome.
#[verifier::external_body]
fn channel_send(
    tx: &tokio::sync::mpsc::UnboundedSender<OutboundEvent>,
    event: &OutboundEvent,
) -> bool {
    tx.send(event.clone()).is_ok()
}

/// One delivery channel per registered player.
pub struct PeerRegistry {
    pub entries: Vec<(String, tokio::sync::mpsc::UnboundedSender<OutboundEvent>)>,
}

/// The registered identities, in registration order.
pub open spec fn registry_ids(
    entries: Seq<(String, tokio::sync::mpsc::UnboundedSender<OutboundEvent>)>,
) -> Seq<Seq<char>> {
    entries.map_values(
        |e: (String, tokio::sync::mpsc::UnboundedSender<OutboundEvent>)| e.0@,
    )
}

/// `ids` with every occurrence of `ex` dropped, order kept.
pub open spec fn except(ids: Seq<Seq<char>>, ex: Seq<char>) -> Seq<Seq<char>>
    decreases ids.len(),
{
    if ids.len() == 0 {
        Seq::empty()
    } else {
        let rest = except(ids.drop_last(), ex);
        if ids.last() == ex {
            rest
        } else {
            rest.push(ids.last())
        }
    }
}

impl PeerRegistry {
    /// The registered identities, in registration order.
    pub open spec fn ids(self) -> Seq<Seq<char>> {
        registry_ids(self.entries@)
    }

    /// The identity is registered.
    pub open spec fn has_peer(self, id: Seq<char>) -> bool {
        exists|i: int| 0 <= i < self.entries@.len() && (#[trigger] self.entries@[i]).0@ == id
    }

    /// Identities are unique.
    pub open spec fn wf(self) -> bool {
        forall|i: int, j: int|
            0 <= i < j < self.entries@.len() ==> (#[trigger] self.entries@[i]).0@ != (
            #[trigger] self.entries@[j]).0@
    }

    /// An empty registry.
    pub fn new() -> (r: Self)
        ensures
            r.wf(),
            r.ids() == Seq::<Seq<char>>::empty(),
    {
        let r = PeerRegistry { entries: Vec::new() };
        proof {
            assert(r.ids() =~= Seq::<Seq<char>>::empty());
        }
        r
    }

    fn find_index(&self, id: &str) -> (res: Option<usize>)
        ensures
            match res {
                Some(i) => i < self.entries@.len() && self.entries@[i as int].0@ == id@,
                None => !self.has_peer(id@),
            },
    {
        let mut i: usize = 0;
        while i < self.entries.len()
            invariant
                i <= self.entries@.len(),
                forall|j: int| 0 <= j < i ==> (#[trigger] self.entries@[j]).0@ != id@,
            decreases self.entries@.len() - i,
        {
            if crate::rooms::str_eq(self.entries[i].0.as_str(), id) {
                return Some(i);
            }
            i += 1;
        }
        None
    }

    /// Add (or refresh) the delivery channel for an identity.
    pub fn register(
        &mut self,
        id: String,
        tx: tokio::sync::mpsc::UnboundedSender<OutboundEvent>,
    )
        requires
            old(self).wf(),
        ensures
            final(self).wf(),
            forall|p: Seq<char>|
                #[trigger] final(self).has_peer(p) <==> (old(self).has_peer(p) || p == id@),
    {
        let ghost es0 = self.entries@;
        match self.find_index(id.as_str()) {
            Some(i) => {
                self.entries.remove(i);
                proof {
                    assert forall|a: int, b: int|
                        0 <= a < b < self.entries@.len() implies (#[trigger] self.entries@[a]).0@
                        != (#[trigger] self.entries@[b]).0@ by {
                        let oa: int = if a < i { a } else { a + 1 };
                        let ob: int = if b < i { b } else { b + 1 };
                        assert(self.entries@[a] == es0[oa] && self.entries@[b] == es0[ob]);
                    }
                }
                let ghost es1 = self.entries@;
                self.entries.push((id, tx));
                proof {
                    assert forall|p: Seq<char>|
                        #[trigger] self.has_peer(p) implies (old(self).has_peer(p) || p == id@) by {
                        let w = choose|w: int|
                            0 <= w < self.entries@.len() && (#[trigger] self.entries@[w]).0@ == p;
                        if w < es1.len() {
                            let ow: int = if w < i { w } else { w + 1 };
                            assert(self.entries@[w] == es0[ow]);
                        }
                    }
                    assert forall|p: Seq<char>|
                        old(self).has_peer(p) || p == id@ implies #[trigger] self.has_peer(p) by {
                        if p == id@ {
                            assert(self.entries@[es1.len() as int].0@ == id@);
                        } else {
                            let w = choose|w: int|
                                0 <= w < es0.len() && (#[trigger] es0[w]).0@ == p;
                            if w < i {
                                assert(self.entries@[w] == es0[w]);
                            } else {
                                assert(w != i);
                                assert(self.entries@[w - 1] == es0[w]);
                            }
                        }
                    }
                }
            },
            None => {
                self.entries.push((id, tx));
                proof {
                    assert forall|p: Seq<char>|
                        #[trigger] self.has_peer(p) implies (old(self).has_peer(p) || p
                        == id@) by {
                        let w = choose|w: int|
                            0 <= w < self.entries@.len() && (#[trigger] self.entries@[w]).0@ == p;
                        if w < es0.len() {
                            assert(self.entries@[w] == es0[w]);
                        }
                    }
                    assert forall|p: Seq<char>|
                        old(self).has_peer(p) || p == id@ implies #[trigger] self.has_peer(
                        p,
                    ) by {
                        if old(self).has_peer(p) {
                            let w = choose|w: int|
                                0 <= w < es0.len() && (#[trigger] es0[w]).0@ == p;
                            assert(self.entries@[w] == es0[w]);
                        } else {
                            assert(self.entries@[es0.len() as int].0@ == id@);
                        }
                    }
                }
            },
        }
    }

    /// Drop the identity's channel, if it is registered.
    pub fn unregister(&mut self, id: &str)
        requires
            old(self).wf(),
        ensures
            final(self).wf(),
            forall|p: Seq<char>|
                #[trigger] final(self).has_peer(p) <==> (old(self).has_peer(p) && p != id@),
    {
        let ghost es0 = self.entries@;
        match self.find_index(id) {
            Some(i) => {
                self.entries.remove(i);
                proof {
                    assert forall|a: int, b: int|
                        0 <= a < b < self.entries@.len() implies (#[trigger] self.entries@[a]).0@
                        != (#[trigger] self.entries@[b]).0@ by {
                        let oa: int = if a < i { a } else { a + 1 };
                        let ob: int = if b < i { b } else { b + 1 };
                        assert(self.entries@[a] == es0[oa] && self.entries@[b] == es0[ob]);
                    }
                    assert forall|p: Seq<char>|
                        #[trigger] self.has_peer(p) implies (old(self).has_peer(p) && p
                        != id@) by {
                        let w = choose|w: int|
                            0 <= w < self.entries@.len() && (#[trigger] self.entries@[w]).0@ == p;
                        let ow: int = if w < i { w } else { w + 1 };
                        assert(self.entries@[w] == es0[ow]);
                        if ow < i {
                            assert(es0[ow].0@ != es0[i as int].0@);
                        } else {
                            assert(es0[i as int].0@ != es0[ow].0@);
                        }
                    }
                    assert forall|p: Seq<char>|
                        old(self).has_peer(p) && p != id@ implies #[trigger] self.has_peer(
                        p,
                    ) by {
                        let w = choose|w: int| 0 <= w < es0.len() && (#[trigger] es0[w]).0@ == p;
                        if w < i {
                            assert(self.entries@[w] == es0[w]);
                        } else {
                            assert(w > i);
                            assert(self.entries@[w - 1] == es0[w]);
                        }
                    }
                }
            },
            None => {},
        }
    }

    /// Enqueue one event for one identity. Reports whether the identity
    /// was registered; a send to an unknown or departed peer is a no-op.
    pub fn send(&self, id: &str, event: &OutboundEvent) -> (found: bool)
        ensures
            found == self.has_peer(id@),
    {
        match self.find_index(id) {
            Some(i) => {
                channel_send(&self.entries[i].1, event);
                proof {
                    assert(self.entries@[i as int].0@ == id@);
                }
                true
            },
            None => false,
        }
    }

    /// Enqueue the event for every registered identity but `excluded`,
    /// returning the identities reached, in registration order.
    pub fn broadcast_except(&self, excluded: &str, event: &OutboundEvent) -> (receivers: Vec<
        String,
    >)
        ensures
            receivers@.map_values(|s: String| s@) == except(self.ids(), excluded@),
    {
        let mut receivers: Vec<String> = Vec::new();
        let mut i: usize = 0;
        while i < self.entries.len()
            invariant
                i <= self.entries@.len(),
                receivers@.map_values(|s: String| s@) == except(
                    registry_ids(self.entries@.subrange(0, i as int)),
                    excluded@,
                ),
            decreases self.entries@.len() - i,
        {
            let ghost pre = self.entries@.subrange(0, i as int);
            if !crate::rooms::str_eq(self.entries[i].0.as_str(), excluded) {
                channel_send(&self.entries[i].1, event);
                receivers.push(self.entries[i].0.clone());
            }
            i += 1;
            proof {
                let cur = self.entries@.subrange(0, i as int);
                assert(cur.drop_last() =~= pre);
                assert(registry_ids(cur).drop_last() =~= registry_ids(pre));
                assert(registry_ids(cur).last() == self.entries@[i - 1].0@);
                assert(receivers@.map_values(|s: String| s@) =~= except(
                    registry_ids(cur),
                    excluded@,
                ));
            }
        }
        proof {
            assert(self.entries@.subrange(0, self.entries@.len() as int) =~= self.entries@);
        }
        receivers
    }
}

/// Deliver each directed event to its target, dropping those whose target
/// is not registered.
pub fn dispatch(registry: &PeerRegistry, out: &Vec<Directed>)
{
    let mut i: usize = 0;
    while i < out.len()
        decreases out@.len() - i,
    {
        registry.send(out[i].target.as_str(), &out[i].event);
        i += 1;
    }
}

} // verus!
