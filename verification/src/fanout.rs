//! The fanout broadcaster: one best-effort push of a new message to every
//! peer that the registry knows.

use crate::error::ChatError;
use crate::identity::{identity_views, PeerIdentity};
use crate::message::Message;
use crate::network::{deliver_all, lemma_fanout_same_peers, lemma_same_peers_unique, Network};
use crate::registry::get_peers;
use vstd::prelude::*;

verus! {

/// A fanout as a mathematical value.
pub struct FanoutView {
    /// The peers to push to, in the order in which they are tried.
    pub targets: Seq<Seq<u8>>,
    /// How many of them have had their attempt.
    pub tried: nat,
    /// How many of the attempts arrived.
    pub arrived: nat,
}

/// The course of one fanout: every target gets one attempt, in order,
/// whatever became of the attempts before it, and none gets a second.
pub struct Fanout {
    targets: Vec<PeerIdentity>,
    tried: usize,
    arrived: usize,
}

impl View for Fanout {
    type V = FanoutView;

    closed spec fn view(&self) -> FanoutView {
        FanoutView {
            targets: identity_views(self.targets@),
            tried: self.tried as nat,
            arrived: self.arrived as nat,
        }
    }
}

impl Fanout {
    #[verifier::type_invariant]
    spec fn in_range(self) -> bool {
        self.arrived <= self.tried <= self.targets.len()
    }

    /// A fanout to `targets` of which nothing is done yet.
    pub fn new(targets: Vec<PeerIdentity>) -> (fanout: Fanout)
        ensures
            fanout@ == (FanoutView { targets: identity_views(targets@), tried: 0, arrived: 0 }),
    {
        Fanout { targets, tried: 0, arrived: 0 }
    }

    /// The peer whose turn it is, or `None` when all have had theirs.
    pub fn target(&self) -> (target: Option<&PeerIdentity>)
        ensures
            self@.arrived <= self@.tried <= self@.targets.len(),
            target is Some <==> self@.tried < self@.targets.len(),
            target matches Some(peer) ==> peer@ == self@.targets[self@.tried as int],
    {
        proof {
            use_type_invariant(self);
        }
        if self.tried < self.targets.len() {
            Some(&self.targets[self.tried])
        } else {
            None
        }
    }

    /// Whether every target has had its attempt.
    pub fn finished(&self) -> (finished: bool)
        ensures
            self@.arrived <= self@.tried <= self@.targets.len(),
            finished <==> self@.tried == self@.targets.len(),
    {
        proof {
            use_type_invariant(self);
        }
        self.tried >= self.targets.len()
    }

    /// Notes how the attempt for the present target went, and moves on to
    /// the next target whether it arrived or not. A note made when all
    /// targets have had their attempt changes nothing.
    pub fn record(&mut self, arrived: bool)
        ensures
            final(self)@ == if old(self)@.tried < old(self)@.targets.len() {
                FanoutView {
                    tried: old(self)@.tried + 1,
                    arrived: if arrived {
                        old(self)@.arrived + 1
                    } else {
                        old(self)@.arrived
                    },
                    ..old(self)@
                }
            } else {
                old(self)@
            },
    {
        proof {
            use_type_invariant(&*self);
        }
        if self.tried < self.targets.len() {
            self.tried = self.tried + 1;
            if arrived {
                self.arrived = self.arrived + 1;
            }
        }
    }

    /// How many attempts arrived so far.
    pub fn arrived(&self) -> (count: usize)
        ensures
            count == self@.arrived,
    {
        self.arrived
    }

    /// How many attempts did not arrive so far.
    pub fn missed(&self) -> (count: usize)
        ensures
            count == self@.tried - self@.arrived,
    {
        proof {
            use_type_invariant(self);
        }
        self.tried - self.arrived
    }

    /// What the fanout comes to: a success, however its attempts went.
    pub fn outcome(&self) -> (sent: Result<(), ChatError>)
        ensures
            sent is Ok,
    {
        Ok(())
    }
}

/// Pushes `signal` once to each peer of `me`, in the order of the registry.
/// Each push stands alone: one that does not arrive stops no other, gets no
/// second attempt, and does not fail the broadcast. The storage is not
/// touched, and `me` is never pushed to.
pub fn signal_peers(net: &mut Network, me: &PeerIdentity, signal: &Message) -> (sent: Result<
    (),
    ChatError,
>)
    ensures
        sent is Ok,
        final(net)@ == old(net)@.broadcast(me@, signal@),
        old(net)@.valid() ==> final(net)@.valid(),
{
    let peers = get_peers(net, me);
    let ghost targets = identity_views(peers@);
    let mut fanout = Fanout::new(peers);
    while !fanout.finished()
        invariant
            fanout@.targets == targets,
            fanout@.tried <= targets.len(),
            net@.dht == old(net)@.dht,
            net@.endpoints == deliver_all(
                old(net)@.endpoints,
                targets.take(fanout@.tried as int),
                signal@,
            ),
        decreases targets.len() - fanout@.tried,
    {
        proof {
            let i = fanout@.tried as int;
            assert(targets.take(i + 1).drop_last() =~= targets.take(i));
            assert(targets.take(i + 1).last() == targets[i]);
        }
        let arrived = match fanout.target() {
            Some(peer) => net.call_remote(peer, signal),
            None => false,
        };
        fanout.record(arrived);
    }
    proof {
        assert(targets.take(targets.len() as int) =~= targets);
        assert(net@ =~~= old(net)@.broadcast(me@, signal@));
        if old(net)@.valid() {
            lemma_fanout_same_peers(old(net)@.endpoints, targets, signal@);
            lemma_same_peers_unique(old(net)@.endpoints, net@.endpoints);
        }
    }
    fanout.outcome()
}

} // verus!
