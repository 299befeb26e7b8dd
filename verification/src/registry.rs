//! The identity registry: which peers a message is pushed to.

use crate::dht::{write_views, Anchor, DhtView, Write, WriteView};
use crate::error::ChatError;
use crate::identity::{identity_views, PeerIdentity};
use crate::laws::law_self_excluded;
use crate::message::{lookup_view, lookup_views, Agent, Entry, EntryView};
use crate::network::Network;
use vstd::prelude::*;

verus! {

/// Whether a lookup resolved to the identity of a peer other than `me`.
pub open spec fn is_other_peer(lookup: Option<EntryView>, me: Seq<u8>) -> bool {
    lookup matches Some(EntryView::Agent(key)) && key != me
}

/// `is_other_peer` as a predicate on lookups.
pub open spec fn other_peer(me: Seq<u8>) -> spec_fn(Option<EntryView>) -> bool {
    |lookup: Option<EntryView>| is_other_peer(lookup, me)
}

/// The key in a lookup that resolved to an identity.
pub open spec fn peer_key(lookup: Option<EntryView>) -> Seq<u8> {
    match lookup {
        Some(EntryView::Agent(key)) => key,
        _ => Seq::empty(),
    }
}

/// `peer_key` as a function on lookups.
pub open spec fn peer_key_fn() -> spec_fn(Option<EntryView>) -> Seq<u8> {
    |lookup: Option<EntryView>| peer_key(lookup)
}

/// The peers among the lookups of the identity anchor's links: every lookup
/// that resolved to an identity other than `me`, in the order of the links.
/// Lookups that did not resolve, or that resolved to something else, are
/// passed over.
pub open spec fn peers_among(lookups: Seq<Option<EntryView>>, me: Seq<u8>) -> Seq<Seq<u8>> {
    lookups.filter(other_peer(me)).map_values(peer_key_fn())
}

/// `peers_among` after one more lookup.
pub proof fn lemma_peers_among_push(
    lookups: Seq<Option<EntryView>>,
    lookup: Option<EntryView>,
    me: Seq<u8>,
)
    ensures
        peers_among(lookups.push(lookup), me) == if is_other_peer(lookup, me) {
            peers_among(lookups, me).push(peer_key(lookup))
        } else {
            peers_among(lookups, me)
        },
{
    lookups.lemma_filter_push(lookup, other_peer(me));
    if is_other_peer(lookup, me) {
        assert(lookups.filter(other_peer(me)).push(lookup).map_values(peer_key_fn())
            =~= lookups.filter(other_peer(me)).map_values(peer_key_fn()).push(peer_key(lookup)));
    }
}

/// Picks the peers out of what following the identity anchor's links gave:
/// one lookup per link, `None` where the target did not resolve.
pub fn select_peers(lookups: &Vec<Option<Entry>>, me: &PeerIdentity) -> (peers: Vec<PeerIdentity>)
    ensures
        identity_views(peers@) == peers_among(lookup_views(lookups@), me@),
        forall|i: int| 0 <= i < peers.len() ==> (#[trigger] peers[i])@ != me@,
{
    let mut peers: Vec<PeerIdentity> = Vec::new();
    let mut i: usize = 0;
    proof {
        reveal(Seq::filter);
        assert(lookup_views(lookups@.take(0)) =~= Seq::<Option<EntryView>>::empty());
        assert(identity_views(peers@) =~= peers_among(lookup_views(lookups@.take(0)), me@));
    }
    while i < lookups.len()
        invariant
            i <= lookups.len(),
            identity_views(peers@) == peers_among(lookup_views(lookups@.take(i as int)), me@),
        decreases lookups.len() - i,
    {
        proof {
            assert(lookups@.take(i + 1) =~= lookups@.take(i as int).push(lookups@[i as int]));
            assert(lookup_views(lookups@.take(i + 1)) =~= lookup_views(lookups@.take(i as int)).push(
                lookup_view(lookups@[i as int]),
            ));
            lemma_peers_among_push(
                lookup_views(lookups@.take(i as int)),
                lookup_view(lookups@[i as int]),
                me@,
            );
        }
        let ghost before = peers@;
        match &lookups[i] {
            Some(Entry::Agent(agent)) => {
                if !agent.identity().same_as(me) {
                    peers.push(agent.identity().duplicate());
                    assert(identity_views(peers@) =~= identity_views(before).push(agent@));
                }
            },
            _ => {},
        }
        i += 1;
    }
    assert(lookups@.take(lookups@.len() as int) =~= lookups@);
    assert forall|i: int| 0 <= i < peers.len() implies (#[trigger] peers[i])@ != me@ by {
        law_self_excluded(lookup_views(lookups@), me@);
        assert(identity_views(peers@)[i] == peers[i]@);
    }
    peers
}

/// The peers that `me` pushes to: every identity that the registry resolves
/// at present, in the order of its links, `me` itself left out. Links whose
/// target does not resolve to an identity are passed over.
pub fn get_peers(net: &Network, me: &PeerIdentity) -> (peers: Vec<PeerIdentity>)
    ensures
        identity_views(peers@) == net@.peers(me@),
        forall|i: int| 0 <= i < peers.len() ==> (#[trigger] peers[i])@ != me@,
{
    let lookups = net.dht.follow_links(Anchor::Agents);
    select_peers(&lookups, me)
}

/// What registering `me` writes: its identity as an entry, then a link to
/// it from the identity anchor.
pub open spec fn registration_of(me: Seq<u8>) -> Seq<WriteView> {
    seq![
        WriteView::Entry(EntryView::Agent(me)),
        WriteView::Link(Anchor::Agents, EntryView::Agent(me)),
    ]
}

/// The writes that register `me`, in the order in which they are made.
pub fn registration_writes(me: &PeerIdentity) -> (writes: Vec<Write>)
    ensures
        write_views(writes@) == registration_of(me@),
{
    let mut writes: Vec<Write> = Vec::new();
    writes.push(Write::Entry(Entry::Agent(Agent::new(me.duplicate()))));
    writes.push(Write::Link(Anchor::Agents, Entry::Agent(Agent::new(me.duplicate()))));
    assert(write_views(writes@) =~= registration_of(me@));
    writes
}

/// Registers `me`: stores its identity, links it from the identity anchor,
/// and opens its receiver to calls from other peers. Fails, with nothing
/// changed, exactly when the storage takes no writes. Nothing is done to
/// keep an identity from being linked twice: whoever runs a peer registers
/// it once.
pub fn register_self(net: &mut Network, me: &PeerIdentity) -> (registered: Result<(), ChatError>)
    ensures
        registered is Ok <==> old(net)@.dht.writable,
        registered is Ok ==> final(net)@ == old(net)@.registered(me@),
        registered matches Err(error) ==> error == ChatError::StorageWrite && final(net)@ == old(
            net,
        )@,
        old(net)@.valid() ==> final(net)@.valid(),
{
    let writes = registration_writes(me);
    match net.dht.apply_all(&writes) {
        Ok(()) => {},
        Err(error) => {
            return Err(error);
        },
    }
    proof {
        reveal_with_fuel(DhtView::written_all, 3);
        let views = registration_of(me@);
        assert(views.drop_last() =~= seq![views[0]]);
        assert(views.drop_last().drop_last() =~= Seq::<WriteView>::empty());
    }
    net.join(me);
    assert(net@ =~~= old(net)@.registered(me@));
    Ok(())
}

} // verus!
