use cmdchat::dht::{Anchor, Dht, Write};
use cmdchat::error::ChatError;
use cmdchat::fanout::{signal_peers, Fanout};
use cmdchat::identity::PeerIdentity;
use cmdchat::log::{append_writes, create_message, fetch_messages, select_messages};
use cmdchat::message::{Agent, Entry, Message};
use cmdchat::network::Network;
use cmdchat::receiver::{emit_outcome, receive_signal};
use cmdchat::registry::{get_peers, register_self, registration_writes, select_peers};

fn peer(n: u8) -> PeerIdentity {
    let mut key = vec![132u8, 32, 36];
    key.extend(vec![n; 36]);
    PeerIdentity::new(key)
}

fn said(text: &str, author: &PeerIdentity) -> Message {
    Message::new(text.to_string(), author.clone())
}

fn listening(net: &mut Network, who: &PeerIdentity) {
    assert_eq!(register_self(net, who), Ok(()));
    assert!(net.attach_listener(who));
}

#[test]
fn identical_appends_store_one_entry_and_two_links() {
    let a = peer(1);
    let mut net = Network::new();
    assert_eq!(register_self(&mut net, &a), Ok(()));
    let entries_before = net.dht.entry_count();
    assert_eq!(create_message(&mut net, &a, said("hi", &a)), Ok(()));
    assert_eq!(net.dht.entry_count(), entries_before + 1);
    assert_eq!(create_message(&mut net, &a, said("hi", &a)), Ok(()));
    assert_eq!(net.dht.entry_count(), entries_before + 1);
    assert_eq!(net.dht.link_count(Anchor::Messages), 2);
    let history = fetch_messages(&net).into_inner();
    assert_eq!(history, vec![said("hi", &a), said("hi", &a)]);
}

#[test]
fn same_text_by_another_author_is_another_entry() {
    let a = peer(1);
    let b = peer(2);
    let mut net = Network::new();
    assert_eq!(create_message(&mut net, &a, said("hi", &a)), Ok(()));
    assert_eq!(create_message(&mut net, &b, said("hi", &b)), Ok(()));
    assert_eq!(create_message(&mut net, &a, said("ho", &a)), Ok(()));
    assert_eq!(net.dht.entry_count(), 3);
    assert_eq!(net.dht.link_count(Anchor::Messages), 3);
}

#[test]
fn peers_never_include_the_local_identity() {
    let me = peer(0);
    let mut net = Network::new();
    assert_eq!(register_self(&mut net, &me), Ok(()));
    let mut others = Vec::new();
    for n in 1..=5u8 {
        let other = peer(n);
        assert_eq!(register_self(&mut net, &other), Ok(()));
        others.push(other);
    }
    let peers = get_peers(&net, &me);
    assert!(!peers.contains(&me));
    assert_eq!(peers, others);
}

#[test]
fn peers_of_an_empty_registry_are_none() {
    let net = Network::new();
    assert_eq!(get_peers(&net, &peer(0)), Vec::<PeerIdentity>::new());
}

#[test]
fn a_lone_peer_has_no_peers() {
    let me = peer(0);
    let mut net = Network::new();
    assert_eq!(register_self(&mut net, &me), Ok(()));
    assert_eq!(get_peers(&net, &me), Vec::<PeerIdentity>::new());
    assert_eq!(get_peers(&net, &peer(1)), vec![me]);
}

#[test]
fn peers_come_in_the_order_of_registration() {
    let mut net = Network::new();
    for n in [7u8, 3, 9] {
        assert_eq!(register_self(&mut net, &peer(n)), Ok(()));
    }
    assert_eq!(get_peers(&net, &peer(3)), vec![peer(7), peer(9)]);
    assert_eq!(get_peers(&net, &peer(0)), vec![peer(7), peer(3), peer(9)]);
}

#[test]
fn one_unreachable_peer_stops_no_other_delivery() {
    let a = peer(1);
    let b = peer(2);
    let c = peer(3);
    let d = peer(4);
    let mut net = Network::new();
    assert_eq!(register_self(&mut net, &a), Ok(()));
    listening(&mut net, &b);
    listening(&mut net, &c);
    listening(&mut net, &d);
    net.set_reachable(&c, false);
    assert_eq!(create_message(&mut net, &a, said("hello", &a)), Ok(()));
    assert_eq!(net.signals_of(&b), Some(vec![said("hello", &a)]));
    assert_eq!(net.signals_of(&c), Some(vec![]));
    assert_eq!(net.signals_of(&d), Some(vec![said("hello", &a)]));
    assert_eq!(fetch_messages(&net).into_inner(), vec![said("hello", &a)]);
}

#[test]
fn a_peer_without_a_listener_stops_no_other_delivery() {
    let a = peer(1);
    let b = peer(2);
    let c = peer(3);
    let mut net = Network::new();
    assert_eq!(register_self(&mut net, &a), Ok(()));
    assert_eq!(register_self(&mut net, &b), Ok(()));
    listening(&mut net, &c);
    assert_eq!(signal_peers(&mut net, &a, &said("hello", &a)), Ok(()));
    assert_eq!(net.signals_of(&b), Some(vec![]));
    assert_eq!(net.signals_of(&c), Some(vec![said("hello", &a)]));
}

#[test]
fn a_registered_identity_without_an_endpoint_stops_no_delivery() {
    let a = peer(1);
    let ghost = peer(2);
    let c = peer(3);
    let mut net = Network::new();
    let address = net.dht.create_entry(Entry::Agent(Agent::new(ghost.clone()))).unwrap();
    assert_eq!(net.dht.create_link(Anchor::Agents, address), Ok(()));
    listening(&mut net, &c);
    assert_eq!(get_peers(&net, &a), vec![ghost.clone(), c.clone()]);
    assert_eq!(create_message(&mut net, &a, said("hello", &a)), Ok(()));
    assert_eq!(net.signals_of(&ghost), None);
    assert_eq!(net.signals_of(&c), Some(vec![said("hello", &a)]));
}

#[test]
fn the_author_is_not_pushed_its_own_message() {
    let a = peer(1);
    let b = peer(2);
    let mut net = Network::new();
    listening(&mut net, &a);
    listening(&mut net, &b);
    assert_eq!(create_message(&mut net, &a, said("mine", &a)), Ok(()));
    assert_eq!(net.signals_of(&a), Some(vec![]));
    assert_eq!(net.signals_of(&b), Some(vec![said("mine", &a)]));
}

#[test]
fn a_fanout_stores_nothing() {
    let a = peer(1);
    let b = peer(2);
    let mut net = Network::new();
    assert_eq!(register_self(&mut net, &a), Ok(()));
    listening(&mut net, &b);
    let entries = net.dht.entry_count();
    assert_eq!(signal_peers(&mut net, &a, &said("live only", &a)), Ok(()));
    assert_eq!(net.dht.entry_count(), entries);
    assert_eq!(net.dht.link_count(Anchor::Messages), 0);
    assert_eq!(fetch_messages(&net).into_inner(), Vec::<Message>::new());
    assert_eq!(net.signals_of(&b), Some(vec![said("live only", &a)]));
}

#[test]
fn an_identity_registered_twice_is_pushed_to_twice() {
    let a = peer(1);
    let b = peer(2);
    let mut net = Network::new();
    assert_eq!(register_self(&mut net, &a), Ok(()));
    listening(&mut net, &b);
    assert_eq!(register_self(&mut net, &b), Ok(()));
    assert_eq!(net.dht.link_count(Anchor::Agents), 3);
    assert_eq!(net.dht.entry_count(), 2);
    assert_eq!(net.endpoints.len(), 2);
    assert_eq!(get_peers(&net, &a), vec![b.clone(), b.clone()]);
    assert_eq!(create_message(&mut net, &a, said("twice", &a)), Ok(()));
    assert_eq!(net.signals_of(&b), Some(vec![said("twice", &a), said("twice", &a)]));
}

#[test]
fn history_and_live_stream_show_each_message_once() {
    let a = peer(1);
    let b = peer(2);
    let mut net = Network::new();
    assert_eq!(register_self(&mut net, &a), Ok(()));
    assert_eq!(register_self(&mut net, &b), Ok(()));
    assert_eq!(create_message(&mut net, &a, said("before", &a)), Ok(()));
    let read = fetch_messages(&net).into_inner();
    assert_eq!(read, vec![said("before", &a)]);
    assert!(net.attach_listener(&b));
    assert_eq!(net.signals_of(&b), Some(vec![]));
    assert_eq!(create_message(&mut net, &a, said("after", &a)), Ok(()));
    let live = net.signals_of(&b).unwrap();
    assert_eq!(live, vec![said("after", &a)]);
    let mut seen = read.clone();
    seen.extend(live);
    assert_eq!(seen, vec![said("before", &a), said("after", &a)]);
    assert_eq!(seen, fetch_messages(&net).into_inner());
}

#[test]
fn a_message_appended_before_a_read_is_in_its_result() {
    let a = peer(1);
    let mut net = Network::new();
    assert_eq!(create_message(&mut net, &a, said("one", &a)), Ok(()));
    assert_eq!(create_message(&mut net, &a, said("two", &a)), Ok(()));
    assert_eq!(create_message(&mut net, &a, said("three", &a)), Ok(()));
    assert_eq!(
        fetch_messages(&net).into_inner(),
        vec![said("one", &a), said("two", &a), said("three", &a)]
    );
}

#[test]
fn a_read_changes_nothing() {
    let a = peer(1);
    let mut net = Network::new();
    listening(&mut net, &a);
    assert_eq!(create_message(&mut net, &peer(2), said("x", &peer(2))), Ok(()));
    let first = fetch_messages(&net);
    let second = fetch_messages(&net);
    assert_eq!(first, second);
    assert_eq!(net.dht.entry_count(), 2);
    assert_eq!(net.dht.link_count(Anchor::Messages), 1);
    assert_eq!(net.signals_of(&a), Some(vec![said("x", &peer(2))]));
}

#[test]
fn the_history_of_an_empty_log_is_empty() {
    let net = Network::new();
    assert_eq!(fetch_messages(&net).into_inner(), Vec::<Message>::new());
    assert_eq!(fetch_messages(&net).messages().len(), 0);
}

#[test]
fn an_unresolvable_message_is_skipped_and_the_rest_returned() {
    let a = peer(1);
    let mut net = Network::new();
    assert_eq!(create_message(&mut net, &a, said("one", &a)), Ok(()));
    assert_eq!(create_message(&mut net, &a, said("two", &a)), Ok(()));
    assert_eq!(create_message(&mut net, &a, said("three", &a)), Ok(()));
    net.dht.withhold(&Dht::hash_entry(&Entry::Message(said("two", &a))));
    assert_eq!(net.dht.link_count(Anchor::Messages), 3);
    assert_eq!(fetch_messages(&net).into_inner(), vec![said("one", &a), said("three", &a)]);
}

#[test]
fn an_unresolvable_identity_is_skipped_and_the_rest_returned() {
    let me = peer(0);
    let mut net = Network::new();
    for n in 0..4u8 {
        assert_eq!(register_self(&mut net, &peer(n)), Ok(()));
    }
    net.dht.withhold(&Dht::hash_entry(&Entry::Agent(Agent::new(peer(2)))));
    assert_eq!(get_peers(&net, &me), vec![peer(1), peer(3)]);
}

#[test]
fn a_withheld_message_appended_again_resolves_again() {
    let a = peer(1);
    let mut net = Network::new();
    assert_eq!(create_message(&mut net, &a, said("lost", &a)), Ok(()));
    net.dht.withhold(&Dht::hash_entry(&Entry::Message(said("lost", &a))));
    assert_eq!(fetch_messages(&net).into_inner(), Vec::<Message>::new());
    assert_eq!(create_message(&mut net, &a, said("lost", &a)), Ok(()));
    assert_eq!(net.dht.entry_count(), 1);
    assert_eq!(fetch_messages(&net).into_inner(), vec![said("lost", &a), said("lost", &a)]);
}

#[test]
fn links_to_entries_of_the_wrong_kind_are_skipped() {
    let a = peer(1);
    let b = peer(2);
    let mut net = Network::new();
    assert_eq!(register_self(&mut net, &b), Ok(()));
    assert_eq!(create_message(&mut net, &a, said("text", &a)), Ok(()));
    let message = Dht::hash_entry(&Entry::Message(said("text", &a)));
    let agent = Dht::hash_entry(&Entry::Agent(Agent::new(b.clone())));
    assert_eq!(net.dht.create_link(Anchor::Agents, message), Ok(()));
    assert_eq!(net.dht.create_link(Anchor::Messages, agent), Ok(()));
    assert_eq!(get_peers(&net, &a), vec![b]);
    assert_eq!(fetch_messages(&net).into_inner(), vec![said("text", &a)]);
}

#[test]
fn select_peers_passes_over_failed_lookups_and_self() {
    let me = peer(0);
    let lookups = vec![
        None,
        Some(Entry::Agent(Agent::new(peer(1)))),
        Some(Entry::Agent(Agent::new(me.clone()))),
        Some(Entry::Message(said("not a peer", &peer(5)))),
        None,
        Some(Entry::Agent(Agent::new(peer(2)))),
        Some(Entry::Agent(Agent::new(peer(1)))),
    ];
    assert_eq!(select_peers(&lookups, &me), vec![peer(1), peer(2), peer(1)]);
    assert_eq!(select_peers(&Vec::new(), &me), Vec::<PeerIdentity>::new());
    assert_eq!(select_peers(&vec![None, None], &me), Vec::<PeerIdentity>::new());
}

#[test]
fn select_messages_passes_over_failed_lookups() {
    let a = peer(1);
    let lookups = vec![
        Some(Entry::Message(said("one", &a))),
        None,
        Some(Entry::Agent(Agent::new(peer(1)))),
        Some(Entry::Message(said("two", &a))),
        Some(Entry::Message(said("one", &a))),
    ];
    assert_eq!(
        select_messages(&lookups).into_inner(),
        vec![said("one", &a), said("two", &a), said("one", &a)]
    );
    assert_eq!(select_messages(&Vec::new()).into_inner(), Vec::<Message>::new());
    assert_eq!(select_messages(&vec![None]).into_inner(), Vec::<Message>::new());
}

#[test]
fn an_append_fails_when_the_storage_takes_no_write() {
    let a = peer(1);
    let b = peer(2);
    let mut net = Network::new();
    assert_eq!(register_self(&mut net, &a), Ok(()));
    listening(&mut net, &b);
    net.dht.set_writable(false);
    assert_eq!(create_message(&mut net, &a, said("lost", &a)), Err(ChatError::StorageWrite));
    assert_eq!(net.dht.entry_count(), 2);
    assert_eq!(net.dht.link_count(Anchor::Messages), 0);
    assert_eq!(net.signals_of(&b), Some(vec![]));
    assert_eq!(fetch_messages(&net).into_inner(), Vec::<Message>::new());
    net.dht.set_writable(true);
    assert_eq!(create_message(&mut net, &a, said("kept", &a)), Ok(()));
    assert_eq!(fetch_messages(&net).into_inner(), vec![said("kept", &a)]);
}

#[test]
fn a_registration_fails_when_the_storage_takes_no_write() {
    let a = peer(1);
    let mut net = Network::new();
    net.dht.set_writable(false);
    assert_eq!(register_self(&mut net, &a), Err(ChatError::StorageWrite));
    assert_eq!(net.dht.entry_count(), 0);
    assert_eq!(net.dht.link_count(Anchor::Agents), 0);
    assert_eq!(net.endpoints.len(), 0);
    assert!(!net.attach_listener(&a));
}

#[test]
fn reads_go_on_while_the_storage_takes_no_write() {
    let a = peer(1);
    let mut net = Network::new();
    assert_eq!(register_self(&mut net, &a), Ok(()));
    assert_eq!(create_message(&mut net, &a, said("there", &a)), Ok(()));
    net.dht.set_writable(false);
    assert_eq!(fetch_messages(&net).into_inner(), vec![said("there", &a)]);
    assert_eq!(get_peers(&net, &peer(9)), vec![a]);
}

#[test]
fn receive_hands_the_message_to_the_listener() {
    let a = peer(1);
    let b = peer(2);
    let mut net = Network::new();
    listening(&mut net, &b);
    assert_eq!(receive_signal(&mut net, &b, said("pushed", &a)), Ok(()));
    assert_eq!(receive_signal(&mut net, &b, said("again", &a)), Ok(()));
    assert_eq!(net.signals_of(&b), Some(vec![said("pushed", &a), said("again", &a)]));
    assert_eq!(net.dht.entry_count(), 1);
    assert_eq!(fetch_messages(&net).into_inner(), Vec::<Message>::new());
}

#[test]
fn receive_without_a_listener_reports_an_error() {
    let a = peer(1);
    let b = peer(2);
    let mut net = Network::new();
    assert_eq!(register_self(&mut net, &b), Ok(()));
    assert_eq!(receive_signal(&mut net, &b, said("pushed", &a)), Err(ChatError::SignalEmit));
    assert_eq!(net.signals_of(&b), Some(vec![]));
    assert_eq!(receive_signal(&mut net, &peer(7), said("pushed", &a)), Err(ChatError::SignalEmit));
    assert!(net.attach_listener(&b));
    assert_eq!(net.signals_of(&b), Some(vec![]));
}

#[test]
fn call_remote_says_whether_the_push_arrived() {
    let a = peer(1);
    let b = peer(2);
    let mut net = Network::new();
    assert!(!net.call_remote(&b, &said("x", &a)));
    assert_eq!(register_self(&mut net, &b), Ok(()));
    assert!(!net.call_remote(&b, &said("x", &a)));
    assert!(net.attach_listener(&b));
    assert!(net.call_remote(&b, &said("y", &a)));
    net.set_reachable(&b, false);
    assert!(!net.call_remote(&b, &said("z", &a)));
    assert!(net.emit_signal(&b, &said("local", &b)));
    net.set_reachable(&b, true);
    assert!(net.call_remote(&b, &said("w", &a)));
    assert_eq!(
        net.signals_of(&b),
        Some(vec![said("y", &a), said("local", &b), said("w", &a)])
    );
}

#[test]
fn register_then_send_then_join_late() {
    let a = peer(1);
    let b = peer(2);
    let c = peer(3);
    let mut net = Network::new();
    assert_eq!(register_self(&mut net, &a), Ok(()));
    assert_eq!(register_self(&mut net, &b), Ok(()));
    assert!(net.attach_listener(&a));
    assert!(net.attach_listener(&b));
    assert_eq!(create_message(&mut net, &a, said("hello", &a)), Ok(()));
    assert_eq!(net.signals_of(&b), Some(vec![said("hello", &a)]));
    assert_eq!(register_self(&mut net, &c), Ok(()));
    assert_eq!(fetch_messages(&net).into_inner(), vec![said("hello", &a)]);
    assert_eq!(net.signals_of(&c), Some(vec![]));
}

#[test]
fn error_messages_read_as_reported() {
    assert_eq!(
        ChatError::SignalEmit.message(),
        "couldnt convert to bytes to send as signal"
    );
    assert_eq!(ChatError::StorageWrite.message(), "the storage did not take the write");
}

#[test]
fn an_append_writes_the_entry_then_its_link() {
    let a = peer(1);
    let message = said("hi", &a);
    assert_eq!(
        append_writes(&message),
        vec![
            Write::Entry(Entry::Message(message.clone())),
            Write::Link(Anchor::Messages, Entry::Message(message.clone())),
        ]
    );
}

#[test]
fn a_registration_writes_the_identity_then_its_link() {
    let a = peer(1);
    assert_eq!(
        registration_writes(&a),
        vec![
            Write::Entry(Entry::Agent(Agent::new(a.clone()))),
            Write::Link(Anchor::Agents, Entry::Agent(Agent::new(a.clone()))),
        ]
    );
}

#[test]
fn a_fanout_gives_each_target_one_attempt_in_order() {
    let mut fanout = Fanout::new(vec![peer(1), peer(2), peer(3)]);
    assert!(!fanout.finished());
    assert_eq!(fanout.target(), Some(&peer(1)));
    assert_eq!(fanout.target(), Some(&peer(1)));
    fanout.record(true);
    assert_eq!(fanout.target(), Some(&peer(2)));
    fanout.record(false);
    assert_eq!(fanout.target(), Some(&peer(3)));
    assert!(!fanout.finished());
    fanout.record(true);
    assert_eq!(fanout.target(), None);
    assert!(fanout.finished());
    assert_eq!(fanout.arrived(), 2);
    assert_eq!(fanout.missed(), 1);
    assert_eq!(fanout.outcome(), Ok(()));
    fanout.record(true);
    assert_eq!(fanout.arrived(), 2);
    assert_eq!(fanout.missed(), 1);
    assert!(fanout.finished());
}

#[test]
fn a_fanout_succeeds_even_when_nothing_arrives() {
    let mut fanout = Fanout::new(vec![peer(1), peer(2)]);
    fanout.record(false);
    fanout.record(false);
    assert!(fanout.finished());
    assert_eq!(fanout.arrived(), 0);
    assert_eq!(fanout.missed(), 2);
    assert_eq!(fanout.outcome(), Ok(()));
    let empty = Fanout::new(Vec::new());
    assert!(empty.finished());
    assert_eq!(empty.target(), None);
    assert_eq!(empty.outcome(), Ok(()));
}

#[test]
fn a_message_that_no_listener_took_is_an_error() {
    assert_eq!(emit_outcome(true), Ok(()));
    assert_eq!(emit_outcome(false), Err(ChatError::SignalEmit));
}

#[test]
fn a_message_appended_between_read_and_attachment_is_missed() {
    let a = peer(1);
    let b = peer(2);
    let mut net = Network::new();
    assert_eq!(register_self(&mut net, &a), Ok(()));
    assert_eq!(register_self(&mut net, &b), Ok(()));
    assert_eq!(create_message(&mut net, &a, said("before", &a)), Ok(()));
    let read = fetch_messages(&net).into_inner();
    assert_eq!(create_message(&mut net, &a, said("in the window", &a)), Ok(()));
    assert!(net.attach_listener(&b));
    assert_eq!(create_message(&mut net, &a, said("after", &a)), Ok(()));
    let mut seen = read;
    seen.extend(net.signals_of(&b).unwrap());
    assert_eq!(seen, vec![said("before", &a), said("after", &a)]);
    assert_eq!(
        fetch_messages(&net).into_inner(),
        vec![said("before", &a), said("in the window", &a), said("after", &a)]
    );
}

#[test]
fn the_operations_are_found_at_the_root_of_the_crate() {
    let a = cmdchat::PeerIdentity::new(vec![1, 2, 3]);
    let b = cmdchat::PeerIdentity::new(vec![4, 5, 6]);
    let mut net = cmdchat::Network::new();
    assert_eq!(cmdchat::register_self(&mut net, &a), Ok(()));
    assert_eq!(cmdchat::register_self(&mut net, &b), Ok(()));
    assert!(net.attach_listener(&b));
    let message = cmdchat::Message("hi".to_string(), a.clone());
    assert_eq!(cmdchat::create_message(&mut net, &a, message.clone()), Ok(()));
    assert_eq!(cmdchat::signal_peers(&mut net, &a, &message), Ok(()));
    assert_eq!(
        cmdchat::receive_signal(&mut net, &a, message.clone()),
        Err(cmdchat::ChatError::SignalEmit)
    );
    assert_eq!(cmdchat::get_peers(&net, &a), vec![b.clone()]);
    assert_eq!(cmdchat::fetch_messages(&net).into_inner(), vec![message.clone()]);
    assert_eq!(net.signals_of(&b), Some(vec![message.clone(), message]));
    assert_eq!(cmdchat::Agent::new(a.clone()).identity(), &a);
    assert_eq!(cmdchat::FetchMessagesResponse::new(Vec::new()).into_inner(), Vec::new());
}
