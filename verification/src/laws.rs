//! What holds of the chat core whatever the registry, the log and the peers
//! look like.

use crate::dht::{law_withheld_fails_alone, law_write_resolves, law_write_stores_once};
use crate::dht::Anchor;
use crate::log::{is_message, message_found, message_in, messages_among};
use crate::message::{EntryView, MessageView};
use crate::network::{aimed_at, deliver_all, heard, pushes_to, repeated};
use crate::network::{present, EndpointView, NetworkView};
use crate::registry::{is_other_peer, other_peer, peer_key, peers_among};
use vstd::prelude::*;

verus! {

/// Self-exclusion: whatever the registry holds, the peers of `me` never
/// include `me`.
pub proof fn law_self_excluded(lookups: Seq<Option<EntryView>>, me: Seq<u8>)
    ensures
        !peers_among(lookups, me).contains(me),
{
    let found = lookups.filter(other_peer(me));
    let peers = peers_among(lookups, me);
    if peers.contains(me) {
        let i = choose|i: int| 0 <= i < peers.len() && peers[i] == me;
        lookups.lemma_filter_pred(other_peer(me), i);
        assert(is_other_peer(found[i], me));
        assert(peers[i] == peer_key(found[i]));
    }
}

/// Every identity other than `me` that a link of the registry resolves to
/// is among the peers of `me`, whatever became of the other links.
pub proof fn law_others_listed(lookups: Seq<Option<EntryView>>, me: Seq<u8>, k: int)
    requires
        0 <= k < lookups.len(),
        is_other_peer(lookups[k], me),
    ensures
        peers_among(lookups, me).contains(peer_key(lookups[k])),
{
    let found = lookups.filter(other_peer(me));
    lookups.lemma_filter_contains(other_peer(me), k);
    let j = choose|j: int| 0 <= j < found.len() && found[j] == lookups[k];
    assert(peers_among(lookups, me)[j] == peer_key(lookups[k]));
}

/// Read tolerance: every message that a link of the log resolves to is in
/// the history, whatever became of the other links.
pub proof fn law_resolved_listed(lookups: Seq<Option<EntryView>>, k: int)
    requires
        0 <= k < lookups.len(),
        is_message(lookups[k]),
    ensures
        messages_among(lookups).contains(message_in(lookups[k])),
{
    let found = lookups.filter(message_found());
    lookups.lemma_filter_contains(message_found(), k);
    let j = choose|j: int| 0 <= j < found.len() && found[j] == lookups[k];
    assert(messages_among(lookups)[j] == message_in(lookups[k]));
}

/// The history holds nothing but messages that some link resolved to.
pub proof fn law_history_from_links(lookups: Seq<Option<EntryView>>, message: MessageView)
    requires
        messages_among(lookups).contains(message),
    ensures
        lookups.contains(Some(EntryView::Message(message))),
{
    let found = lookups.filter(message_found());
    let history = messages_among(lookups);
    let i = choose|i: int| 0 <= i < history.len() && history[i] == message;
    lookups.lemma_filter_pred(message_found(), i);
    assert(found.contains(found[i]));
    lookups.lemma_filter_contains_rev(message_found(), found[i]);
    assert(found[i] == Some(EntryView::Message(message)));
}

/// Fanout isolation: after one push to each of `targets`, every endpoint is
/// what it was, but for the copies of the message that its own listener was
/// handed. What an endpoint hears depends on that endpoint alone: on whether
/// it is reached, takes calls and listens, and on how many pushes went to
/// it, never on how a push to another peer went.
pub proof fn law_fanout_isolated(
    endpoints: Seq<EndpointView>,
    targets: Seq<Seq<u8>>,
    message: MessageView,
    k: int,
)
    requires
        0 <= k < endpoints.len(),
    ensures
        deliver_all(endpoints, targets, message).len() == endpoints.len(),
        deliver_all(endpoints, targets, message)[k] == (EndpointView {
            inbox: endpoints[k].inbox + heard(endpoints[k], targets, message),
            ..endpoints[k]
        }),
    decreases targets.len(),
{
    let after = deliver_all(endpoints, targets, message);
    let id = endpoints[k].id;
    if targets.len() == 0 {
        reveal(Seq::filter);
        assert(endpoints[k].inbox + heard(endpoints[k], targets, message) =~= endpoints[k].inbox);
    } else {
        let earlier = targets.drop_last();
        let before = deliver_all(endpoints, earlier, message);
        law_fanout_isolated(endpoints, earlier, message, k);
        assert(targets =~= earlier.push(targets.last()));
        earlier.lemma_filter_push(targets.last(), aimed_at(id));
        assert(after[k] == before[k].delivered(targets.last(), message));
        if targets.last() == id {
            assert(pushes_to(targets, id) == pushes_to(earlier, id) + 1);
            assert(repeated(message, pushes_to(earlier, id)).push(message) =~= repeated(
                message,
                pushes_to(targets, id),
            ));
        }
        assert(after[k].inbox =~= endpoints[k].inbox + heard(endpoints[k], targets, message));
    }
}

/// Idempotent content addressing: two appends of the same text by the same
/// author leave one stored entry for it and two links to it, one for each
/// append, after the links that were there.
pub proof fn law_append_twice_stores_once(
    network: NetworkView,
    first: Seq<u8>,
    second: Seq<u8>,
    message: MessageView,
)
    requires
        network.dht.distinct(),
    ensures
        ({
            let once = network.appended(first, message);
            let twice = once.appended(second, message);
            let content = EntryView::Message(message);
            &&& twice.dht.distinct()
            &&& twice.dht.holds(content)
            &&& twice.dht.slots.len() == once.dht.slots.len()
            &&& twice.dht.message_links == network.dht.message_links.push(content).push(content)
            &&& twice.dht.agent_links == network.dht.agent_links
        }),
{
    let content = EntryView::Message(message);
    let once = network.appended(first, message);
    law_write_stores_once(network.dht, content);
    assert(once.dht.slots == network.dht.with_entry(content).slots);
    assert(once.dht.holds(content)) by {
        let i = choose|i: int|
            0 <= i < network.dht.with_entry(content).slots.len() && (
            #[trigger] network.dht.with_entry(content).slots[i]).content == content;
        assert(once.dht.slots[i].content == content);
    }
    assert(once.dht.distinct());
    law_write_stores_once(once.dht, content);
    let twice = once.appended(second, message);
    assert(twice.dht.slots == once.dht.with_entry(content).slots);
    assert(twice.dht.holds(content)) by {
        let i = choose|i: int|
            0 <= i < once.dht.with_entry(content).slots.len() && (
            #[trigger] once.dht.with_entry(content).slots[i]).content == content;
        assert(twice.dht.slots[i].content == content);
    }
}

/// Two sequences that agree wherever either passes a filter pass the same
/// elements through it.
proof fn lemma_filter_agrees<A>(a: Seq<A>, b: Seq<A>, pred: spec_fn(A) -> bool)
    requires
        a.len() == b.len(),
        forall|i: int| 0 <= i < a.len() ==> pred(#[trigger] a[i]) == pred(b[i]),
        forall|i: int| 0 <= i < a.len() && pred(#[trigger] a[i]) ==> a[i] == b[i],
    ensures
        a.filter(pred) == b.filter(pred),
    decreases a.len(),
{
    reveal(Seq::filter);
    if a.len() > 0 {
        let last = a.len() - 1;
        assert(pred(a[last]) == pred(b[last]));
        assert forall|i: int| 0 <= i < a.drop_last().len() implies pred(
            #[trigger] a.drop_last()[i],
        ) == pred(b.drop_last()[i]) by {
            assert(pred(a[i]) == pred(b[i]));
        }
        assert forall|i: int| 0 <= i < a.drop_last().len() && pred(
            #[trigger] a.drop_last()[i],
        ) implies a.drop_last()[i] == b.drop_last()[i] by {
            assert(pred(a[i]));
        }
        lemma_filter_agrees(a.drop_last(), b.drop_last(), pred);
    }
}

/// Writing a message to the log changes nobody's peers.
pub proof fn law_log_keeps_registry(network: NetworkView, message: MessageView, me: Seq<u8>)
    ensures
        network.logged(message).peers(me) == network.peers(me),
{
    let content = EntryView::Message(message);
    let before = network.dht.lookups(Anchor::Agents);
    let after = network.logged(message).dht.lookups(Anchor::Agents);
    let written = network.dht.with_entry(content);
    assert forall|i: int| 0 <= i < before.len() implies other_peer(me)(#[trigger] before[i])
        == other_peer(me)(after[i]) && (other_peer(me)(before[i]) ==> before[i] == after[i]) by {
        let target = network.dht.agent_links[i];
        law_write_resolves(network.dht, content, target);
        assert(network.logged(message).dht.resolves(target) == written.resolves(target));
    }
    lemma_filter_agrees(before, after, other_peer(me));
}

/// Fanout isolation, of an append: after `me` appended `message`, every
/// endpoint is what it was, but for one copy of the message for each time
/// that its identity stands among the peers of `me`, handed to its listener
/// where it is reached, takes calls and listens. An endpoint that does not
/// listen hears nothing, and no endpoint changes what another hears.
pub proof fn law_append_heard(network: NetworkView, me: Seq<u8>, message: MessageView, k: int)
    requires
        0 <= k < network.endpoints.len(),
    ensures
        network.appended(me, message).endpoints.len() == network.endpoints.len(),
        network.appended(me, message).endpoints[k] == (EndpointView {
            inbox: network.endpoints[k].inbox + heard(
                network.endpoints[k],
                network.peers(me),
                message,
            ),
            ..network.endpoints[k]
        }),
{
    law_log_keeps_registry(network, message, me);
    law_fanout_isolated(network.endpoints, network.peers(me), message, k);
}

/// A message appended once while a peer listens reaches that peer's live
/// listener once: where the peer is reached, takes calls, listens, and
/// stands once among the peers of the author, its inbox grows by exactly
/// that message.
pub proof fn law_live_once(network: NetworkView, me: Seq<u8>, message: MessageView, k: int)
    requires
        0 <= k < network.endpoints.len(),
        network.endpoints[k].reachable,
        network.endpoints[k].granted(),
        network.endpoints[k].attached,
        pushes_to(network.peers(me), network.endpoints[k].id) == 1,
    ensures
        network.appended(me, message).endpoints[k].inbox == network.endpoints[k].inbox.push(
            message,
        ),
{
    law_append_heard(network, me, message, k);
    assert(network.endpoints[k].inbox + repeated(message, 1) =~= network.endpoints[k].inbox.push(
        message,
    ));
}

/// A message appended while a peer does not listen is not handed to that
/// peer's live path, then or later: its inbox stays as it was. Such a
/// message reaches the peer through the history alone.
pub proof fn law_unattached_hears_nothing(
    network: NetworkView,
    me: Seq<u8>,
    message: MessageView,
    k: int,
)
    requires
        0 <= k < network.endpoints.len(),
        !network.endpoints[k].attached,
    ensures
        network.appended(me, message).endpoints[k] == network.endpoints[k],
{
    law_append_heard(network, me, message, k);
    assert(network.endpoints[k].inbox + Seq::<MessageView>::empty() =~= network.endpoints[k].inbox);
}

/// The author of an append is never pushed its own message.
pub proof fn law_author_hears_nothing(
    network: NetworkView,
    me: Seq<u8>,
    message: MessageView,
    k: int,
)
    requires
        0 <= k < network.endpoints.len(),
        network.endpoints[k].id == me,
    ensures
        network.appended(me, message).endpoints[k] == network.endpoints[k],
{
    law_append_heard(network, me, message, k);
    law_self_excluded(network.dht.lookups(Anchor::Agents), me);
    let peers = network.peers(me);
    let aimed = peers.filter(aimed_at(me));
    if aimed.len() > 0 {
        peers.lemma_filter_pred(aimed_at(me), 0);
        assert(aimed.contains(aimed[0]));
        peers.lemma_filter_contains_rev(aimed_at(me), aimed[0]);
    }
    assert(repeated(message, 0) =~= Seq::<MessageView>::empty());
    assert(network.endpoints[k].inbox + Seq::<MessageView>::empty() =~= network.endpoints[k].inbox);
}

/// History completeness: a message that was appended is the last of the
/// history that a read finds afterwards. Where its content resolved before,
/// or no link led to it, the history is the earlier one with the message
/// after it: nothing else is added, dropped or moved.
pub proof fn law_append_extends_history(network: NetworkView, me: Seq<u8>, message: MessageView)
    ensures
        network.appended(me, message).history().len() > 0,
        network.appended(me, message).history().last() == message,
        network.dht.resolves(EntryView::Message(message)) || !network.dht.message_links.contains(
            EntryView::Message(message),
        ) ==> network.appended(me, message).history() == network.history().push(message),
{
    let content = EntryView::Message(message);
    let written = network.dht.with_entry(content);
    let after = network.appended(me, message).dht;
    let links = network.dht.message_links;
    let earlier = links.map_values(after.getter());
    law_write_resolves(network.dht, content, content);
    assert(after.resolves(content) == written.resolves(content));
    assert(after.lookups(Anchor::Messages) =~= earlier.push(Some(content)));
    crate::log::lemma_messages_among_push(earlier, Some(content));
    if network.dht.resolves(content) || !links.contains(content) {
        assert forall|i: int| 0 <= i < links.len() implies #[trigger] earlier[i]
            == network.dht.lookups(Anchor::Messages)[i] by {
            law_write_resolves(network.dht, content, links[i]);
            assert(after.resolves(links[i]) == written.resolves(links[i]));
            assert(links.contains(links[i]));
        }
        assert(earlier =~= network.dht.lookups(Anchor::Messages));
    }
}

/// A peer that registered is among the peers of every other peer.
pub proof fn law_registered_is_listed(network: NetworkView, me: Seq<u8>, other: Seq<u8>)
    requires
        me != other,
    ensures
        network.registered(me).peers(other).contains(me),
        !network.registered(me).peers(me).contains(me),
{
    let content = EntryView::Agent(me);
    let after = network.registered(me).dht;
    let lookups = after.lookups(Anchor::Agents);
    law_write_resolves(network.dht, content, content);
    assert(after.resolves(content) == network.dht.with_entry(content).resolves(content));
    let last = lookups.len() - 1;
    assert(lookups[last] == Some(content));
    law_others_listed(lookups, other, last);
    law_self_excluded(lookups, me);
}

/// Every message but `message`, as a predicate.
pub open spec fn other_than(message: MessageView) -> spec_fn(MessageView) -> bool {
    |m: MessageView| m != message
}

/// The lookup `lookup`, failed if it had found `content`.
pub open spec fn blanked(lookup: Option<EntryView>, content: EntryView) -> Option<EntryView> {
    if lookup == Some(content) {
        None
    } else {
        lookup
    }
}

/// If the lookups that found one message fail, the history is the earlier
/// one without that message.
proof fn lemma_blanked_history(lookups: Seq<Option<EntryView>>, message: MessageView)
    ensures
        messages_among(
            lookups.map_values(|l: Option<EntryView>| blanked(l, EntryView::Message(message))),
        ) == messages_among(lookups).filter(other_than(message)),
    decreases lookups.len(),
{
    let content = EntryView::Message(message);
    let blank = |l: Option<EntryView>| blanked(l, content);
    reveal(Seq::filter);
    if lookups.len() == 0 {
        assert(lookups.map_values(blank) =~= lookups);
        assert(messages_among(lookups) =~= Seq::<MessageView>::empty());
    } else {
        let earlier = lookups.drop_last();
        let last = lookups.last();
        lemma_blanked_history(earlier, message);
        assert(lookups =~= earlier.push(last));
        assert(lookups.map_values(blank) =~= earlier.map_values(blank).push(blanked(last, content)));
        crate::log::lemma_messages_among_push(earlier, last);
        crate::log::lemma_messages_among_push(earlier.map_values(blank), blanked(last, content));
        if is_message(last) {
            messages_among(earlier).lemma_filter_push(message_in(last), other_than(message));
        }
    }
}

/// Read tolerance, of the history: where the lookups of one message fail,
/// the read still succeeds, and finds the earlier history without that
/// message: every other message, in the same order.
pub proof fn law_lost_message_drops_alone(network: NetworkView, message: MessageView)
    ensures
        (NetworkView {
            dht: network.dht.without(EntryView::Message(message)),
            ..network
        }).history() == network.history().filter(other_than(message)),
{
    let content = EntryView::Message(message);
    let before = network.dht.lookups(Anchor::Messages);
    let after = network.dht.without(content).lookups(Anchor::Messages);
    assert forall|i: int| 0 <= i < before.len() implies #[trigger] after[i] == blanked(
        before[i],
        content,
    ) by {
        law_withheld_fails_alone(network.dht, content, network.dht.message_links[i]);
    }
    assert(after =~= before.map_values(|l: Option<EntryView>| blanked(l, content)));
    lemma_blanked_history(before, message);
}

/// Every peer but `peer`, as a predicate.
pub open spec fn other_peer_than(peer: Seq<u8>) -> spec_fn(Seq<u8>) -> bool {
    |p: Seq<u8>| p != peer
}

/// If the lookups that found one identity fail, the peers are the earlier
/// ones without that identity.
proof fn lemma_blanked_peers(lookups: Seq<Option<EntryView>>, peer: Seq<u8>, me: Seq<u8>)
    ensures
        peers_among(
            lookups.map_values(|l: Option<EntryView>| blanked(l, EntryView::Agent(peer))),
            me,
        ) == peers_among(lookups, me).filter(other_peer_than(peer)),
    decreases lookups.len(),
{
    let content = EntryView::Agent(peer);
    let blank = |l: Option<EntryView>| blanked(l, content);
    reveal(Seq::filter);
    if lookups.len() == 0 {
        assert(lookups.map_values(blank) =~= lookups);
        assert(peers_among(lookups, me) =~= Seq::<Seq<u8>>::empty());
    } else {
        let earlier = lookups.drop_last();
        let last = lookups.last();
        lemma_blanked_peers(earlier, peer, me);
        assert(lookups =~= earlier.push(last));
        assert(lookups.map_values(blank) =~= earlier.map_values(blank).push(blanked(last, content)));
        crate::registry::lemma_peers_among_push(earlier, last, me);
        crate::registry::lemma_peers_among_push(earlier.map_values(blank), blanked(last, content), me);
        if is_other_peer(last, me) {
            peers_among(earlier, me).lemma_filter_push(peer_key(last), other_peer_than(peer));
        }
    }
}

/// Read tolerance, of the registry: where the lookups of one identity fail,
/// the peers of `me` are the earlier ones without that identity: every
/// other peer, in the same order.
pub proof fn law_lost_identity_drops_alone(network: NetworkView, peer: Seq<u8>, me: Seq<u8>)
    ensures
        (NetworkView { dht: network.dht.without(EntryView::Agent(peer)), ..network }).peers(me)
            == network.peers(me).filter(other_peer_than(peer)),
{
    let content = EntryView::Agent(peer);
    let before = network.dht.lookups(Anchor::Agents);
    let after = network.dht.without(content).lookups(Anchor::Agents);
    assert forall|i: int| 0 <= i < before.len() implies #[trigger] after[i] == blanked(
        before[i],
        content,
    ) by {
        law_withheld_fails_alone(network.dht, content, network.dht.agent_links[i]);
    }
    assert(after =~= before.map_values(|l: Option<EntryView>| blanked(l, content)));
    lemma_blanked_peers(before, peer, me);
}

/// History and live stream together, outside the window between read and
/// attachment: let a client have read the history `read` and then listened,
/// so that `read` followed by what its listener heard is the log's present
/// history. After another peer's append that is still so: the message is
/// added once, by the live path, and nothing is shown twice or left out.
/// It is asked that the client is reached, takes calls, listens and stands
/// once among the author's peers, and that the message's content resolves
/// unless no link led to it before.
pub proof fn law_live_follows_history(
    network: NetworkView,
    author: Seq<u8>,
    message: MessageView,
    k: int,
    read: Seq<MessageView>,
)
    requires
        0 <= k < network.endpoints.len(),
        network.endpoints[k].reachable,
        network.endpoints[k].granted(),
        network.endpoints[k].attached,
        pushes_to(network.peers(author), network.endpoints[k].id) == 1,
        network.dht.resolves(EntryView::Message(message)) || !network.dht.message_links.contains(
            EntryView::Message(message),
        ),
        read + network.endpoints[k].inbox == network.history(),
    ensures
        read + network.appended(author, message).endpoints[k].inbox == network.appended(
            author,
            message,
        ).history(),
{
    law_live_once(network, author, message, k);
    law_append_extends_history(network, author, message);
    assert(read + network.endpoints[k].inbox.push(message) =~= (read
        + network.endpoints[k].inbox).push(message));
}

/// The window between read and attachment: a message that is appended
/// after a client read the history `read` and before its listener is
/// attached reaches the client by neither path. Its inbox stays as it was,
/// and what it has is the log's history but for that one message, which
/// only another read brings.
pub proof fn law_window_misses(
    network: NetworkView,
    author: Seq<u8>,
    message: MessageView,
    k: int,
    read: Seq<MessageView>,
)
    requires
        0 <= k < network.endpoints.len(),
        !network.endpoints[k].attached,
        network.dht.resolves(EntryView::Message(message)) || !network.dht.message_links.contains(
            EntryView::Message(message),
        ),
        read + network.endpoints[k].inbox == network.history(),
    ensures
        network.appended(author, message).endpoints[k].inbox == network.endpoints[k].inbox,
        network.appended(author, message).history() == (read + network.endpoints[k].inbox).push(
            message,
        ),
{
    law_unattached_hears_nothing(network, author, message, k);
    law_append_extends_history(network, author, message);
}

/// Writing an identity to the registry changes nobody's history.
pub proof fn law_registration_keeps_history(network: NetworkView, me: Seq<u8>)
    ensures
        network.registered(me).history() == network.history(),
{
    let content = EntryView::Agent(me);
    let before = network.dht.lookups(Anchor::Messages);
    let after = network.registered(me).dht.lookups(Anchor::Messages);
    let written = network.dht.with_entry(content);
    assert forall|i: int| 0 <= i < before.len() implies message_found()(#[trigger] before[i])
        == message_found()(after[i]) && (message_found()(before[i]) ==> before[i] == after[i]) by {
        let target = network.dht.message_links[i];
        law_write_resolves(network.dht, content, target);
        assert(network.registered(me).dht.resolves(target) == written.resolves(target));
    }
    lemma_filter_agrees(before, after, message_found());
}

/// The live path stores nothing: a fanout and a receipt leave the storage
/// as it is, and with it the history and everybody's peers.
pub proof fn law_live_path_stores_nothing(network: NetworkView, me: Seq<u8>, message: MessageView)
    ensures
        network.broadcast(me, message).dht == network.dht,
        network.received(me, message).dht == network.dht,
        network.broadcast(me, message).history() == network.history(),
        network.received(me, message).history() == network.history(),
{
}

/// The index only grows: an append puts one link after those of the message
/// anchor, a registration one after those of the identity anchor, and
/// neither removes, reorders or touches any other link. What was stored
/// stays stored.
pub proof fn law_index_only_grows(
    network: NetworkView,
    me: Seq<u8>,
    message: MessageView,
    content: EntryView,
)
    ensures
        network.appended(me, message).dht.message_links == network.dht.message_links.push(
            EntryView::Message(message),
        ),
        network.appended(me, message).dht.agent_links == network.dht.agent_links,
        network.registered(me).dht.agent_links == network.dht.agent_links.push(
            EntryView::Agent(me),
        ),
        network.registered(me).dht.message_links == network.dht.message_links,
        network.dht.holds(content) ==> network.appended(me, message).dht.holds(content),
        network.dht.holds(content) ==> network.registered(me).dht.holds(content),
{
    law_write_resolves(network.dht, EntryView::Message(message), content);
    law_write_resolves(network.dht, EntryView::Agent(me), content);
    if network.dht.holds(content) {
        let written = network.dht.with_entry(EntryView::Message(message));
        let i = choose|i: int|
            0 <= i < written.slots.len() && (#[trigger] written.slots[i]).content == content;
        assert(network.appended(me, message).dht.slots[i].content == content);
        let written = network.dht.with_entry(EntryView::Agent(me));
        let j = choose|j: int|
            0 <= j < written.slots.len() && (#[trigger] written.slots[j]).content == content;
        assert(network.registered(me).dht.slots[j].content == content);
    }
}

/// Among lookups of which no two found the same entry, no identity is found
/// twice: it stands among the peers once where a lookup found it, and not
/// at all where none did.
proof fn lemma_found_once(lookups: Seq<Option<EntryView>>, me: Seq<u8>, id: Seq<u8>)
    requires
        forall|i: int, j: int|
            0 <= i < j < lookups.len() && (#[trigger] lookups[i]) is Some ==> lookups[i] != (
            #[trigger] lookups[j]),
    ensures
        pushes_to(peers_among(lookups, me), id) <= 1,
        !lookups.contains(Some(EntryView::Agent(id))) ==> pushes_to(peers_among(lookups, me), id)
            == 0,
    decreases lookups.len(),
{
    reveal(Seq::filter);
    if lookups.len() > 0 {
        let earlier = lookups.drop_last();
        let last = lookups.last();
        assert forall|i: int, j: int|
            0 <= i < j < earlier.len() && (#[trigger] earlier[i]) is Some implies earlier[i] != (
        #[trigger] earlier[j]) by {
            assert(lookups[i] != lookups[j]);
        }
        lemma_found_once(earlier, me, id);
        assert(lookups =~= earlier.push(last));
        crate::registry::lemma_peers_among_push(earlier, last, me);
        if is_other_peer(last, me) {
            peers_among(earlier, me).lemma_filter_push(peer_key(last), aimed_at(id));
            if peer_key(last) == id {
                if earlier.contains(Some(EntryView::Agent(id))) {
                    let i = choose|i: int|
                        0 <= i < earlier.len() && earlier[i] == Some(EntryView::Agent(id));
                    assert(lookups[i] != lookups[lookups.len() - 1]);
                }
            }
        }
        if !lookups.contains(Some(EntryView::Agent(id))) {
            assert forall|i: int| 0 <= i < earlier.len() implies earlier[i] != Some(
                EntryView::Agent(id),
            ) by {
                assert(lookups[i] == earlier[i]);
            }
            assert(last == lookups[lookups.len() - 1]);
        }
    }
}

/// At most one push for each peer: where no identity is linked twice from
/// the identity anchor, as it is when every peer registers once, a fanout
/// goes to no peer more than once.
pub proof fn law_one_push_per_peer(network: NetworkView, me: Seq<u8>, id: Seq<u8>)
    requires
        network.dht.agent_links.no_duplicates(),
    ensures
        pushes_to(network.peers(me), id) <= 1,
{
    let links = network.dht.agent_links;
    let lookups = network.dht.lookups(Anchor::Agents);
    assert forall|i: int, j: int|
        0 <= i < j < lookups.len() && (#[trigger] lookups[i]) is Some implies lookups[i] != (
    #[trigger] lookups[j]) by {
        assert(links[i] != links[j]);
    }
    lemma_found_once(lookups, me, id);
}

/// A peer that registered has an endpoint, and every endpoint of it lets
/// others call its receiver.
pub proof fn law_registered_takes_calls(network: NetworkView, me: Seq<u8>, k: int)
    requires
        0 <= k < network.registered(me).endpoints.len(),
        network.registered(me).endpoints[k].id == me,
    ensures
        present(network.registered(me).endpoints, me),
        network.registered(me).endpoints[k].granted(),
{
    let after = network.registered(me).endpoints;
    let grant = crate::capability::GrantView::receiver(crate::bootstrap::ZOME_NAME@);
    assert(grant.functions[0] == (crate::bootstrap::ZOME_NAME@, crate::bootstrap::RECEIVER@));
    assert(grant.allows(crate::bootstrap::ZOME_NAME@, crate::bootstrap::RECEIVER@));
    let last = after[k].grants.len() - 1;
    if present(network.endpoints, me) {
        assert(after[k] == network.endpoints[k].opened(me));
    } else {
        assert(k == network.endpoints.len()) by {
            if k < network.endpoints.len() {
                assert(after[k] == network.endpoints[k]);
            }
        }
    }
    assert(after[k].grants[last] == grant);
}

} // verus!
