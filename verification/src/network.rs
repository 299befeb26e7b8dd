//! The host in memory: the storage that all peers share, and for each peer
//! the endpoint at which pushed messages arrive.

use crate::bootstrap::{RECEIVER, ZOME_NAME};
use crate::capability::{allowed, any_allows, grant_views, CapGrant, GrantView};
use crate::dht::{Anchor, Dht, DhtView};
use crate::identity::PeerIdentity;
use crate::log::messages_among;
use crate::message::{message_views, EntryView, Message, MessageView};
use crate::registry::peers_among;
use vstd::prelude::*;

verus! {

/// The endpoint of one peer as a mathematical value.
#[verifier::ext_equal]
pub struct EndpointView {
    /// Whose endpoint it is.
    pub id: Seq<u8>,
    /// Whether the transport reaches the peer at present.
    pub reachable: bool,
    /// The grants that the peer has made.
    pub grants: Seq<GrantView>,
    /// Whether a live listener is attached.
    pub attached: bool,
    /// What the live listener has been handed, oldest first.
    pub inbox: Seq<MessageView>,
}

impl EndpointView {
    /// The endpoint of a peer that has just come up: reachable, its receiver
    /// closed to others, nobody listening.
    pub open spec fn fresh(id: Seq<u8>) -> EndpointView {
        EndpointView {
            id,
            reachable: true,
            grants: Seq::empty(),
            attached: false,
            inbox: Seq::empty(),
        }
    }

    /// Whether the peer lets others call its receiver: whether one of its
    /// grants opens the receiver to everybody.
    pub open spec fn granted(self) -> bool {
        allowed(self.grants, ZOME_NAME@, RECEIVER@)
    }

    /// Whether a message emitted at the peer `me` reaches a listener here.
    pub open spec fn hears(self, me: Seq<u8>) -> bool {
        self.id == me && self.attached
    }

    /// Whether a call from another peer to `peer`'s receiver gets through to
    /// this endpoint.
    pub open spec fn takes_calls(self, peer: Seq<u8>) -> bool {
        self.id == peer && self.reachable && self.granted()
    }

    /// The endpoint after `message` was emitted at the peer `me`: handed to
    /// the listener where one is attached, lost otherwise.
    pub open spec fn emitted(self, me: Seq<u8>, message: MessageView) -> EndpointView {
        if self.hears(me) {
            EndpointView { inbox: self.inbox.push(message), ..self }
        } else {
            self
        }
    }

    /// The endpoint after another peer tried to push `message` to `peer`.
    pub open spec fn delivered(self, peer: Seq<u8>, message: MessageView) -> EndpointView {
        if self.takes_calls(peer) {
            self.emitted(peer, message)
        } else {
            self
        }
    }

    /// The endpoint after the peer `me` opened its receiver to others.
    pub open spec fn opened(self, me: Seq<u8>) -> EndpointView {
        if self.id == me {
            EndpointView { grants: self.grants.push(GrantView::receiver(ZOME_NAME@)), ..self }
        } else {
            self
        }
    }

    /// The endpoint after a live listener was attached at the peer `me`.
    pub open spec fn listening(self, me: Seq<u8>) -> EndpointView {
        if self.id == me {
            EndpointView { attached: true, ..self }
        } else {
            self
        }
    }

    /// The endpoint after the transport's reach of `peer` was set.
    pub open spec fn reached(self, peer: Seq<u8>, reachable: bool) -> EndpointView {
        if self.id == peer {
            EndpointView { reachable, ..self }
        } else {
            self
        }
    }
}

/// Whether `me` has an endpoint.
pub open spec fn present(endpoints: Seq<EndpointView>, me: Seq<u8>) -> bool {
    exists|k: int| 0 <= k < endpoints.len() && (#[trigger] endpoints[k]).id == me
}

/// Whether a message emitted at `me` reaches a listener.
pub open spec fn listened(endpoints: Seq<EndpointView>, me: Seq<u8>) -> bool {
    exists|k: int| 0 <= k < endpoints.len() && (#[trigger] endpoints[k]).hears(me)
}

/// Whether a push to `peer` arrives: the peer is reached, lets itself be
/// called, and has a listener attached.
pub open spec fn arrives(endpoints: Seq<EndpointView>, peer: Seq<u8>) -> bool {
    exists|k: int|
        0 <= k < endpoints.len() && (#[trigger] endpoints[k]).takes_calls(peer)
            && endpoints[k].attached
}

/// No peer has two endpoints.
pub open spec fn unique(endpoints: Seq<EndpointView>) -> bool {
    forall|i: int, j: int|
        0 <= i < j < endpoints.len() ==> (#[trigger] endpoints[i]).id != (#[trigger] endpoints[j]).id
}

/// Whether two sequences of endpoints belong, place by place, to the same
/// peers.
pub open spec fn same_peers(before: Seq<EndpointView>, after: Seq<EndpointView>) -> bool {
    &&& after.len() == before.len()
    &&& forall|k: int| 0 <= k < before.len() ==> (#[trigger] after[k]).id == before[k].id
}

/// Endpoints of the same peers, place by place, are unique together.
pub proof fn lemma_same_peers_unique(before: Seq<EndpointView>, after: Seq<EndpointView>)
    requires
        same_peers(before, after),
        unique(before),
    ensures
        unique(after),
{
    assert forall|i: int, j: int| 0 <= i < j < after.len() implies (#[trigger] after[i]).id != (
    #[trigger] after[j]).id by {
        assert(before[i].id != before[j].id);
    }
}

/// A fanout moves no endpoint and changes nobody's identity.
pub proof fn lemma_fanout_same_peers(
    endpoints: Seq<EndpointView>,
    targets: Seq<Seq<u8>>,
    message: MessageView,
)
    ensures
        same_peers(endpoints, deliver_all(endpoints, targets, message)),
    decreases targets.len(),
{
    if targets.len() > 0 {
        lemma_fanout_same_peers(endpoints, targets.drop_last(), message);
    }
}

/// The endpoints after `message` was emitted at `me`.
pub open spec fn emit(endpoints: Seq<EndpointView>, me: Seq<u8>, message: MessageView) -> Seq<
    EndpointView,
> {
    endpoints.map_values(|e: EndpointView| e.emitted(me, message))
}

/// The endpoints after one attempt to push `message` to `peer`.
pub open spec fn deliver(endpoints: Seq<EndpointView>, peer: Seq<u8>, message: MessageView) -> Seq<
    EndpointView,
> {
    endpoints.map_values(|e: EndpointView| e.delivered(peer, message))
}

/// The endpoints after one attempt to push `message` to each of `targets`,
/// in their order. What an attempt does never depends on how another went.
pub open spec fn deliver_all(
    endpoints: Seq<EndpointView>,
    targets: Seq<Seq<u8>>,
    message: MessageView,
) -> Seq<EndpointView>
    decreases targets.len(),
{
    if targets.len() == 0 {
        endpoints
    } else {
        deliver(deliver_all(endpoints, targets.drop_last(), message), targets.last(), message)
    }
}

/// `id`, as a predicate on the targets of a fanout.
pub open spec fn aimed_at(id: Seq<u8>) -> spec_fn(Seq<u8>) -> bool {
    |target: Seq<u8>| target == id
}

/// How many of the pushes to `targets` go to `id`.
pub open spec fn pushes_to(targets: Seq<Seq<u8>>, id: Seq<u8>) -> nat {
    targets.filter(aimed_at(id)).len()
}

/// `count` copies of `message`.
pub open spec fn repeated(message: MessageView, count: nat) -> Seq<MessageView> {
    Seq::new(count, |i: int| message)
}

/// What the listener of `endpoint` hears of one fanout of `message` to
/// `targets`: one copy for each push that goes to it, where it is reached,
/// takes calls and has a listener attached; nothing otherwise.
pub open spec fn heard(endpoint: EndpointView, targets: Seq<Seq<u8>>, message: MessageView) -> Seq<
    MessageView,
> {
    if endpoint.reachable && endpoint.granted() && endpoint.attached {
        repeated(message, pushes_to(targets, endpoint.id))
    } else {
        Seq::empty()
    }
}

/// The endpoints after `me` came up and opened its receiver to others: its
/// endpoint is there, once, and takes calls.
pub open spec fn joined(endpoints: Seq<EndpointView>, me: Seq<u8>) -> Seq<EndpointView> {
    if present(endpoints, me) {
        endpoints.map_values(|e: EndpointView| e.opened(me))
    } else {
        endpoints.push(EndpointView::fresh(me).opened(me))
    }
}

/// What the live listener of `me` has been handed so far, oldest first;
/// `None` where `me` has no endpoint.
pub open spec fn inbox_of(endpoints: Seq<EndpointView>, me: Seq<u8>) -> Option<Seq<MessageView>>
    decreases endpoints.len(),
{
    if endpoints.len() == 0 {
        None
    } else if endpoints.first().id == me {
        Some(endpoints.first().inbox)
    } else {
        inbox_of(endpoints.drop_first(), me)
    }
}

/// The endpoint of one peer.
pub struct Endpoint {
    id: PeerIdentity,
    reachable: bool,
    grants: Vec<CapGrant>,
    attached: bool,
    inbox: Vec<Message>,
}

impl View for Endpoint {
    type V = EndpointView;

    closed spec fn view(&self) -> EndpointView {
        EndpointView {
            id: self.id@,
            reachable: self.reachable,
            grants: grant_views(self.grants@),
            attached: self.attached,
            inbox: message_views(self.inbox@),
        }
    }
}

/// The views of a sequence of endpoints, in order.
pub open spec fn endpoint_views(endpoints: Seq<Endpoint>) -> Seq<EndpointView> {
    endpoints.map_values(|e: Endpoint| e@)
}

impl Endpoint {
    /// The endpoint of a peer that has just come up.
    pub fn new(id: PeerIdentity) -> (endpoint: Endpoint)
        ensures
            endpoint@ == EndpointView::fresh(id@),
    {
        let endpoint = Endpoint {
            id,
            reachable: true,
            grants: Vec::new(),
            attached: false,
            inbox: Vec::new(),
        };
        assert(endpoint@ =~~= EndpointView::fresh(id@));
        endpoint
    }

    /// Whose endpoint it is.
    pub fn id(&self) -> (id: &PeerIdentity)
        ensures
            id@ == self@.id,
    {
        &self.id
    }

    /// Whether a listener is attached.
    pub fn has_listener(&self) -> (attached: bool)
        ensures
            attached == self@.attached,
    {
        self.attached
    }

    /// Whether a call from another peer gets through.
    pub fn takes_calls(&self) -> (open: bool)
        ensures
            open == (self@.reachable && self@.granted()),
    {
        self.reachable && any_allows(&self.grants, ZOME_NAME, RECEIVER)
    }

    /// Makes one more grant.
    pub fn grant(&mut self, grant: CapGrant)
        ensures
            final(self)@ == (EndpointView { grants: old(self)@.grants.push(grant@), ..old(self)@ }),
    {
        self.grants.push(grant);
        assert(grant_views(self.grants@) =~= grant_views(old(self).grants@).push(grant@));
        assert(self@ =~~= (EndpointView { grants: old(self)@.grants.push(grant@), ..old(self)@ }));
    }

    /// Attaches a live listener.
    pub fn attach(&mut self)
        ensures
            final(self)@ == (EndpointView { attached: true, ..old(self)@ }),
    {
        self.attached = true;
        assert(self@ =~~= (EndpointView { attached: true, ..old(self)@ }));
    }

    /// Sets whether the transport reaches the peer.
    pub fn set_reachable(&mut self, reachable: bool)
        ensures
            final(self)@ == (EndpointView { reachable, ..old(self)@ }),
    {
        self.reachable = reachable;
        assert(self@ =~~= (EndpointView { reachable, ..old(self)@ }));
    }

    /// Hands a message to the listener. Where none is attached the message
    /// is lost and the endpoint stays as it was.
    pub fn emit(&mut self, message: Message) -> (heard: bool)
        ensures
            heard == old(self)@.attached,
            final(self)@ == old(self)@.emitted(old(self)@.id, message@),
    {
        if self.attached {
            self.inbox.push(message);
            assert(message_views(self.inbox@) =~= message_views(old(self).inbox@).push(message@));
            assert(self@ =~~= old(self)@.emitted(old(self)@.id, message@));
            true
        } else {
            false
        }
    }

    /// A copy of what the listener has been handed so far, oldest first.
    pub fn inbox(&self) -> (messages: Vec<Message>)
        ensures
            message_views(messages@) == self@.inbox,
    {
        let mut messages: Vec<Message> = Vec::new();
        let mut i: usize = 0;
        while i < self.inbox.len()
            invariant
                i <= self.inbox.len(),
                message_views(messages@) == message_views(self.inbox@.take(i as int)),
            decreases self.inbox.len() - i,
        {
            let ghost before = messages@;
            messages.push(self.inbox[i].duplicate());
            proof {
                assert(self.inbox@.take(i + 1) =~= self.inbox@.take(i as int).push(
                    self.inbox@[i as int],
                ));
                assert(message_views(messages@) =~= message_views(before).push(
                    self.inbox@[i as int]@,
                ));
                assert(message_views(self.inbox@.take(i + 1)) =~= message_views(
                    self.inbox@.take(i as int),
                ).push(self.inbox@[i as int]@));
            }
            i += 1;
        }
        assert(self.inbox@.take(self.inbox@.len() as int) =~= self.inbox@);
        messages
    }
}

/// The network as a mathematical value.
#[verifier::ext_equal]
pub struct NetworkView {
    pub dht: DhtView,
    pub endpoints: Seq<EndpointView>,
}

impl NetworkView {
    /// A network with empty storage and no peers.
    pub open spec fn empty() -> NetworkView {
        NetworkView { dht: DhtView::empty(), endpoints: Seq::empty() }
    }

    /// Nothing is stored twice, and no peer has two endpoints. A network
    /// that is only ever changed by the operations of this library, from an
    /// empty one, is always so.
    pub open spec fn valid(self) -> bool {
        self.dht.distinct() && unique(self.endpoints)
    }

    /// The peers that `me` pushes to: the identities that the registry
    /// resolves at present, `me` left out.
    pub open spec fn peers(self, me: Seq<u8>) -> Seq<Seq<u8>> {
        peers_among(self.dht.lookups(Anchor::Agents), me)
    }

    /// The history: the messages that the log resolves at present, in the
    /// order of their links.
    pub open spec fn history(self) -> Seq<MessageView> {
        messages_among(self.dht.lookups(Anchor::Messages))
    }

    /// The network after `me` registered itself: its identity stored and
    /// linked from the identity anchor, its endpoint up and open to calls.
    pub open spec fn registered(self, me: Seq<u8>) -> NetworkView {
        NetworkView {
            dht: self.dht.with_entry(EntryView::Agent(me)).with_link(
                Anchor::Agents,
                EntryView::Agent(me),
            ),
            endpoints: joined(self.endpoints, me),
        }
    }

    /// The network after `message` was written to the log: stored, and
    /// linked from the message anchor after all earlier links.
    pub open spec fn logged(self, message: MessageView) -> NetworkView {
        NetworkView {
            dht: self.dht.with_entry(EntryView::Message(message)).with_link(
                Anchor::Messages,
                EntryView::Message(message),
            ),
            ..self
        }
    }

    /// The network after `me` pushed `message` once to each of its peers.
    pub open spec fn broadcast(self, me: Seq<u8>, message: MessageView) -> NetworkView {
        NetworkView { endpoints: deliver_all(self.endpoints, self.peers(me), message), ..self }
    }

    /// The network after `me` appended `message`: written to the log, then
    /// pushed to the peers.
    pub open spec fn appended(self, me: Seq<u8>, message: MessageView) -> NetworkView {
        self.logged(message).broadcast(me, message)
    }

    /// The network after `message` was emitted at `me` towards its listener.
    pub open spec fn received(self, me: Seq<u8>, message: MessageView) -> NetworkView {
        NetworkView { endpoints: emit(self.endpoints, me, message), ..self }
    }
}

/// The storage that all peers share, and the endpoint of each peer.
pub struct Network {
    pub dht: Dht,
    pub endpoints: Vec<Endpoint>,
}

impl View for Network {
    type V = NetworkView;

    open spec fn view(&self) -> NetworkView {
        NetworkView { dht: self.dht@, endpoints: endpoint_views(self.endpoints@) }
    }
}

impl Network {
    /// A network with empty storage and no peers.
    pub fn new() -> (network: Network)
        ensures
            network@ == NetworkView::empty(),
            network@.valid(),
    {
        let network = Network { dht: Dht::new(), endpoints: Vec::new() };
        assert(network@ =~~= NetworkView::empty());
        network
    }

    /// Brings the endpoint of `me` up, if it is not, and opens its receiver
    /// to calls from other peers.
    pub fn join(&mut self, me: &PeerIdentity)
        ensures
            final(self)@ == (NetworkView {
                endpoints: joined(old(self)@.endpoints, me@),
                ..old(self)@
            }),
            old(self)@.valid() ==> final(self)@.valid(),
    {
        let ghost before = endpoint_views(self.endpoints@);
        let mut found: bool = false;
        let mut i: usize = 0;
        while i < self.endpoints.len()
            invariant
                i <= self.endpoints.len(),
                self.endpoints.len() == before.len(),
                self.dht == old(self).dht,
                forall|j: int| 0 <= j < i ==> (#[trigger] self.endpoints@[j])@ == before[j].opened(me@),
                forall|j: int| i <= j < before.len() ==> (#[trigger] self.endpoints@[j])@ == before[j],
                found <==> exists|j: int| 0 <= j < i && (#[trigger] before[j]).id == me@,
            decreases self.endpoints.len() - i,
        {
            if self.endpoints[i].id().same_as(me) {
                self.endpoints[i].grant(CapGrant::receiver(ZOME_NAME));
                found = true;
            }
            i += 1;
        }
        if !found {
            let mut endpoint = Endpoint::new(me.duplicate());
            endpoint.grant(CapGrant::receiver(ZOME_NAME));
            self.endpoints.push(endpoint);
            assert(!present(before, me@));
        } else {
            assert(present(before, me@));
        }
        assert(self@.endpoints =~= joined(before, me@));
        proof {
            if old(self)@.valid() {
                if present(before, me@) {
                    lemma_same_peers_unique(before, self@.endpoints);
                }
            }
        }
    }

    /// Attaches a live listener at `me`. Says whether `me` has an endpoint
    /// to attach it to.
    pub fn attach_listener(&mut self, me: &PeerIdentity) -> (attached: bool)
        ensures
            attached == present(old(self)@.endpoints, me@),
            final(self)@ == (NetworkView {
                endpoints: old(self)@.endpoints.map_values(|e: EndpointView| e.listening(me@)),
                ..old(self)@
            }),
            old(self)@.valid() ==> final(self)@.valid(),
    {
        let ghost before = endpoint_views(self.endpoints@);
        let mut found: bool = false;
        let mut i: usize = 0;
        while i < self.endpoints.len()
            invariant
                i <= self.endpoints.len(),
                self.endpoints.len() == before.len(),
                self.dht == old(self).dht,
                forall|j: int|
                    0 <= j < i ==> (#[trigger] self.endpoints@[j])@ == before[j].listening(me@),
                forall|j: int| i <= j < before.len() ==> (#[trigger] self.endpoints@[j])@ == before[j],
                found <==> exists|j: int| 0 <= j < i && (#[trigger] before[j]).id == me@,
            decreases self.endpoints.len() - i,
        {
            if self.endpoints[i].id().same_as(me) {
                self.endpoints[i].attach();
                found = true;
            }
            i += 1;
        }
        assert(self@.endpoints =~= before.map_values(|e: EndpointView| e.listening(me@)));
        proof {
            if old(self)@.valid() {
                lemma_same_peers_unique(before, self@.endpoints);
            }
        }
        found
    }

    /// Sets whether the transport reaches `peer`.
    pub fn set_reachable(&mut self, peer: &PeerIdentity, reachable: bool)
        ensures
            final(self)@ == (NetworkView {
                endpoints: old(self)@.endpoints.map_values(
                    |e: EndpointView| e.reached(peer@, reachable),
                ),
                ..old(self)@
            }),
            old(self)@.valid() ==> final(self)@.valid(),
    {
        let ghost before = endpoint_views(self.endpoints@);
        let mut i: usize = 0;
        while i < self.endpoints.len()
            invariant
                i <= self.endpoints.len(),
                self.endpoints.len() == before.len(),
                self.dht == old(self).dht,
                forall|j: int|
                    0 <= j < i ==> (#[trigger] self.endpoints@[j])@ == before[j].reached(
                        peer@,
                        reachable,
                    ),
                forall|j: int| i <= j < before.len() ==> (#[trigger] self.endpoints@[j])@ == before[j],
            decreases self.endpoints.len() - i,
        {
            if self.endpoints[i].id().same_as(peer) {
                self.endpoints[i].set_reachable(reachable);
            }
            i += 1;
        }
        assert(self@.endpoints =~= before.map_values(
            |e: EndpointView| e.reached(peer@, reachable),
        ));
        proof {
            if old(self)@.valid() {
                lemma_same_peers_unique(before, self@.endpoints);
            }
        }
    }

    /// Emits a message at `me`, towards its own live listener. Says whether
    /// a listener took it.
    pub fn emit_signal(&mut self, me: &PeerIdentity, message: &Message) -> (heard: bool)
        ensures
            heard == listened(old(self)@.endpoints, me@),
            final(self)@ == (NetworkView {
                endpoints: emit(old(self)@.endpoints, me@, message@),
                ..old(self)@
            }),
            old(self)@.valid() ==> final(self)@.valid(),
    {
        let ghost before = endpoint_views(self.endpoints@);
        let mut heard: bool = false;
        let mut i: usize = 0;
        while i < self.endpoints.len()
            invariant
                i <= self.endpoints.len(),
                self.endpoints.len() == before.len(),
                self.dht == old(self).dht,
                forall|j: int|
                    0 <= j < i ==> (#[trigger] self.endpoints@[j])@ == before[j].emitted(
                        me@,
                        message@,
                    ),
                forall|j: int| i <= j < before.len() ==> (#[trigger] self.endpoints@[j])@ == before[j],
                heard <==> exists|j: int| 0 <= j < i && (#[trigger] before[j]).hears(me@),
            decreases self.endpoints.len() - i,
        {
            if self.endpoints[i].id().same_as(me) {
                if self.endpoints[i].emit(message.duplicate()) {
                    heard = true;
                }
            }
            i += 1;
        }
        assert(self@.endpoints =~= emit(before, me@, message@));
        proof {
            if old(self)@.valid() {
                lemma_same_peers_unique(before, self@.endpoints);
            }
        }
        heard
    }

    /// Makes one attempt to push a message to `peer`, as another peer's call
    /// to its receiver. Says whether the push arrived.
    pub fn call_remote(&mut self, peer: &PeerIdentity, message: &Message) -> (arrived: bool)
        ensures
            arrived == arrives(old(self)@.endpoints, peer@),
            final(self)@ == (NetworkView {
                endpoints: deliver(old(self)@.endpoints, peer@, message@),
                ..old(self)@
            }),
            old(self)@.valid() ==> final(self)@.valid(),
    {
        let ghost before = endpoint_views(self.endpoints@);
        let mut arrived: bool = false;
        let mut i: usize = 0;
        while i < self.endpoints.len()
            invariant
                i <= self.endpoints.len(),
                self.endpoints.len() == before.len(),
                self.dht == old(self).dht,
                forall|j: int|
                    0 <= j < i ==> (#[trigger] self.endpoints@[j])@ == before[j].delivered(
                        peer@,
                        message@,
                    ),
                forall|j: int| i <= j < before.len() ==> (#[trigger] self.endpoints@[j])@ == before[j],
                arrived <==> exists|j: int|
                    0 <= j < i && (#[trigger] before[j]).takes_calls(peer@) && before[j].attached,
            decreases self.endpoints.len() - i,
        {
            if self.endpoints[i].id().same_as(peer) && self.endpoints[i].takes_calls() {
                if self.endpoints[i].emit(message.duplicate()) {
                    arrived = true;
                }
            }
            i += 1;
        }
        assert(self@.endpoints =~= deliver(before, peer@, message@));
        proof {
            if old(self)@.valid() {
                lemma_same_peers_unique(before, self@.endpoints);
            }
        }
        arrived
    }

    /// A copy of what the live listener of `me` has been handed so far,
    /// oldest first; `None` where `me` has no endpoint.
    pub fn signals_of(&self, me: &PeerIdentity) -> (messages: Option<Vec<Message>>)
        ensures
            messages is Some <==> inbox_of(self@.endpoints, me@) is Some,
            messages matches Some(m) ==> Some(message_views(m@)) == inbox_of(self@.endpoints, me@),
    {
        let mut i: usize = 0;
        assert(self@.endpoints.skip(0) =~= self@.endpoints);
        while i < self.endpoints.len()
            invariant
                i <= self.endpoints.len(),
                inbox_of(self@.endpoints, me@) == inbox_of(self@.endpoints.skip(i as int), me@),
            decreases self.endpoints.len() - i,
        {
            proof {
                let rest = self@.endpoints.skip(i as int);
                assert(rest.first() == self.endpoints@[i as int]@);
                assert(rest.drop_first() =~= self@.endpoints.skip(i + 1));
            }
            if self.endpoints[i].id().same_as(me) {
                return Some(self.endpoints[i].inbox());
            }
            i += 1;
        }
        assert(self@.endpoints.skip(self@.endpoints.len() as int).len() == 0);
        None
    }
}

} // verus!
