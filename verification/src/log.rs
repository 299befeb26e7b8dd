//! The message log as a reader sees it: the history behind the message
//! anchor's links.

use crate::dht::{write_views, Anchor, DhtView, Write, WriteView};
use crate::error::ChatError;
use crate::fanout::signal_peers;
use crate::identity::PeerIdentity;
use crate::message::{lookup_view, lookup_views, message_views, Entry, EntryView, MessageView};
use crate::message::{FetchMessagesResponse, Message};
use crate::network::Network;
use vstd::prelude::*;

verus! {

/// Whether a lookup resolved to a chat message.
pub open spec fn is_message(lookup: Option<EntryView>) -> bool {
    lookup matches Some(EntryView::Message(_))
}

/// `is_message` as a predicate on lookups.
pub open spec fn message_found() -> spec_fn(Option<EntryView>) -> bool {
    |lookup: Option<EntryView>| is_message(lookup)
}

/// The message in a lookup that resolved to one.
pub open spec fn message_in(lookup: Option<EntryView>) -> MessageView {
    match lookup {
        Some(EntryView::Message(message)) => message,
        _ => MessageView { text: Seq::empty(), author: Seq::empty() },
    }
}

/// `message_in` as a function on lookups.
pub open spec fn message_in_fn() -> spec_fn(Option<EntryView>) -> MessageView {
    |lookup: Option<EntryView>| message_in(lookup)
}

/// The history among the lookups of the message anchor's links: every
/// lookup that resolved to a message, in the order of the links. Lookups
/// that did not resolve, or that resolved to something else, are passed
/// over.
pub open spec fn messages_among(lookups: Seq<Option<EntryView>>) -> Seq<MessageView> {
    lookups.filter(message_found()).map_values(message_in_fn())
}

/// `messages_among` after one more lookup.
pub proof fn lemma_messages_among_push(lookups: Seq<Option<EntryView>>, lookup: Option<EntryView>)
    ensures
        messages_among(lookups.push(lookup)) == if is_message(lookup) {
            messages_among(lookups).push(message_in(lookup))
        } else {
            messages_among(lookups)
        },
{
    lookups.lemma_filter_push(lookup, message_found());
    if is_message(lookup) {
        assert(lookups.filter(message_found()).push(lookup).map_values(message_in_fn())
            =~= lookups.filter(message_found()).map_values(message_in_fn()).push(
            message_in(lookup),
        ));
    }
}

/// Collects the history out of what following the message anchor's links
/// gave: one lookup per link, `None` where the target did not resolve.
pub fn select_messages(lookups: &Vec<Option<Entry>>) -> (response: FetchMessagesResponse)
    ensures
        response@ == messages_among(lookup_views(lookups@)),
{
    let mut messages: Vec<Message> = Vec::new();
    let mut i: usize = 0;
    proof {
        reveal(Seq::filter);
        assert(lookup_views(lookups@.take(0)) =~= Seq::<Option<EntryView>>::empty());
        assert(message_views(messages@) =~= messages_among(lookup_views(lookups@.take(0))));
    }
    while i < lookups.len()
        invariant
            i <= lookups.len(),
            message_views(messages@) == messages_among(lookup_views(lookups@.take(i as int))),
        decreases lookups.len() - i,
    {
        proof {
            assert(lookups@.take(i + 1) =~= lookups@.take(i as int).push(lookups@[i as int]));
            assert(lookup_views(lookups@.take(i + 1)) =~= lookup_views(lookups@.take(i as int)).push(
                lookup_view(lookups@[i as int]),
            ));
            lemma_messages_among_push(
                lookup_views(lookups@.take(i as int)),
                lookup_view(lookups@[i as int]),
            );
        }
        let ghost before = messages@;
        match &lookups[i] {
            Some(Entry::Message(message)) => {
                messages.push(message.duplicate());
                assert(message_views(messages@) =~= message_views(before).push(message@));
            },
            _ => {},
        }
        i += 1;
    }
    assert(lookups@.take(lookups@.len() as int) =~= lookups@);
    FetchMessagesResponse::new(messages)
}

/// The history: every message that the log resolves at present, in the
/// order of the message anchor's links. Links whose target does not resolve
/// to a message are passed over; the read itself never fails, and changes
/// nothing.
pub fn fetch_messages(net: &Network) -> (response: FetchMessagesResponse)
    ensures
        response@ == net@.history(),
{
    let lookups = net.dht.follow_links(Anchor::Messages);
    select_messages(&lookups)
}

/// What appending `message` writes: the message as an entry, then a link
/// to it from the message anchor.
pub open spec fn append_of(message: MessageView) -> Seq<WriteView> {
    seq![
        WriteView::Entry(EntryView::Message(message)),
        WriteView::Link(Anchor::Messages, EntryView::Message(message)),
    ]
}

/// The writes that append `message`, in the order in which they are made.
pub fn append_writes(message: &Message) -> (writes: Vec<Write>)
    ensures
        write_views(writes@) == append_of(message@),
{
    let mut writes: Vec<Write> = Vec::new();
    writes.push(Write::Entry(Entry::Message(message.duplicate())));
    writes.push(Write::Link(Anchor::Messages, Entry::Message(message.duplicate())));
    assert(write_views(writes@) =~= append_of(message@));
    writes
}

/// Appends a message on behalf of `me`: stores it under the address of its
/// content, links it from the message anchor, then pushes it to the peers.
/// Fails, with nothing changed, exactly when the storage takes no writes;
/// how the pushes go never decides the result.
pub fn create_message(net: &mut Network, me: &PeerIdentity, message: Message) -> (appended: Result<
    (),
    ChatError,
>)
    ensures
        appended is Ok <==> old(net)@.dht.writable,
        appended is Ok ==> final(net)@ == old(net)@.appended(me@, message@),
        appended matches Err(error) ==> error == ChatError::StorageWrite && final(net)@ == old(
            net,
        )@,
        old(net)@.valid() ==> final(net)@.valid(),
{
    let writes = append_writes(&message);
    match net.dht.apply_all(&writes) {
        Ok(()) => {},
        Err(error) => {
            return Err(error);
        },
    }
    proof {
        reveal_with_fuel(DhtView::written_all, 3);
        let views = append_of(message@);
        assert(views.drop_last() =~= seq![views[0]]);
        assert(views.drop_last().drop_last() =~= Seq::<WriteView>::empty());
        assert(net@ =~~= old(net)@.logged(message@));
    }
    let _ = signal_peers(net, me, &message);
    Ok(())
}

} // verus!
