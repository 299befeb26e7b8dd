use cmdchat::bootstrap::{activation_failed, same_text, setup_plan, Setup};
use cmdchat::bootstrap::{INSTALLED_APP_ID, RECEIVER, ZOME_NAME};
use cmdchat::client::{display_line, display_message, prompt, Action, Client, Event, Phase};
use cmdchat::identity::{short_name, PeerIdentity};
use cmdchat::log::{create_message, fetch_messages};
use cmdchat::message::Message;
use cmdchat::network::Network;
use cmdchat::registry::register_self;

fn peer(n: u8) -> PeerIdentity {
    let mut key = vec![132u8, 32, 36];
    key.extend(vec![n; 36]);
    PeerIdentity::new(key)
}

fn said(text: &str, author: &PeerIdentity) -> Message {
    Message::new(text.to_string(), author.clone())
}

fn live_client(me: &PeerIdentity) -> Client {
    let mut client = registering();
    client.step(Event::Identity(Some(me.clone())));
    client.step(Event::History(None));
    client.step(Event::Attached(true));
    assert_eq!(client.phase(), Phase::Live);
    client
}

fn registering() -> Client {
    let mut client = Client::new();
    client.step(Event::Cells(Some(1)));
    assert_eq!(client.phase(), Phase::Registering);
    client
}

#[test]
fn the_text_of_a_key_is_its_base64_form() {
    let zero = peer(0);
    let mut expected = String::from("uhCAk");
    expected.push_str(&"A".repeat(48));
    assert_eq!(zero.text(), expected);
    let mut expected = String::from("uhCAk");
    expected.push_str(&"29vb".repeat(12));
    assert_eq!(peer(0xdb).text(), expected);
    assert_eq!(PeerIdentity::new(Vec::new()).text(), "u");
    assert_eq!(PeerIdentity::new(vec![255, 255, 254]).text(), "u___-");
}

#[test]
fn the_short_name_is_cut_after_the_shared_start() {
    assert_eq!(short_name("uhCAkWCsAgoKkkfwyJAglj30xX"), Some("WCsAg".to_string()));
    assert_eq!(short_name("0123456789"), Some("56789".to_string()));
    assert_eq!(short_name("012345678"), None);
    assert_eq!(short_name(""), None);
    assert_eq!(short_name("01234567é9abc"), None);
}

#[test]
fn a_message_is_shown_with_the_short_name_of_its_author() {
    let author = peer(0xdb);
    assert_eq!(display_message(&said("hello", &author)), Some("29vb2: hello".to_string()));
    assert_eq!(display_message(&said("", &author)), Some("29vb2: ".to_string()));
    assert_eq!(display_message(&said("a: b", &peer(0))), Some("AAAAA: a: b".to_string()));
    let short = PeerIdentity::new(vec![132, 32, 36]);
    assert_eq!(display_message(&said("hello", &short)), None);
}

#[test]
fn a_line_is_name_colon_space_text() {
    assert_eq!(display_line("uhCAkabcdefgh", "hi there"), Some("abcde: hi there".to_string()));
    assert_eq!(display_line("uhCAkabcd", "hi there"), None);
}

#[test]
fn the_prompt_is_the_short_name_of_the_local_peer() {
    assert_eq!(prompt(&peer(0xdb)), Some("29vb2: ".to_string()));
    assert_eq!(prompt(&PeerIdentity::new(vec![1, 2, 3])), None);
}

#[test]
fn a_new_client_waits_for_the_cells_of_the_host() {
    let client = Client::new();
    assert_eq!(client.phase(), Phase::Starting);
    assert_eq!(client.identity(), None);
}

#[test]
fn a_host_without_cells_is_installed_afresh() {
    let mut client = Client::new();
    assert_eq!(client.step(Event::Cells(Some(0))), vec![Action::Install]);
    assert_eq!(client.phase(), Phase::Registering);
}

#[test]
fn a_host_with_cells_goes_on_as_it_is() {
    let mut client = Client::new();
    assert_eq!(client.step(Event::Cells(Some(1))), vec![Action::UseExisting]);
    assert_eq!(client.phase(), Phase::Registering);
    let mut client = Client::new();
    assert_eq!(client.step(Event::Cells(Some(3))), vec![Action::UseExisting]);
    assert_eq!(client.phase(), Phase::Registering);
}

#[test]
fn a_host_that_cannot_list_its_cells_is_fatal() {
    let mut client = Client::new();
    assert_eq!(client.step(Event::Cells(None)), vec![Action::Abort]);
    assert_eq!(client.phase(), Phase::Failed);
    assert_eq!(client.step(Event::Cells(Some(0))), Vec::<Action>::new());
}

#[test]
fn registration_leads_to_the_history() {
    let me = peer(1);
    let mut client = registering();
    assert_eq!(client.step(Event::Identity(Some(me.clone()))), vec![Action::FetchHistory]);
    assert_eq!(client.phase(), Phase::LoadingHistory);
    assert_eq!(client.identity(), Some(&me));
}

#[test]
fn a_failed_registration_is_fatal() {
    let mut client = registering();
    assert_eq!(client.step(Event::Identity(None)), vec![Action::Abort]);
    assert_eq!(client.phase(), Phase::Failed);
    assert_eq!(client.step(Event::Identity(Some(peer(1)))), Vec::<Action>::new());
    assert_eq!(client.step(Event::Line("x".to_string())), Vec::<Action>::new());
    assert_eq!(client.phase(), Phase::Failed);
    assert_eq!(client.identity(), None);
}

#[test]
fn the_history_is_shown_in_order_before_the_listener_is_attached() {
    let me = peer(1);
    let a = peer(2);
    let mut client = registering();
    client.step(Event::Identity(Some(me)));
    let history = vec![said("one", &a), said("two", &a), said("one", &a)];
    assert_eq!(
        client.step(Event::History(Some(history))),
        vec![
            Action::Display(said("one", &a)),
            Action::Display(said("two", &a)),
            Action::Display(said("one", &a)),
            Action::AttachListener,
        ]
    );
    assert_eq!(client.phase(), Phase::Attaching);
}

#[test]
fn an_empty_or_failed_history_still_leads_on() {
    let mut client = registering();
    client.step(Event::Identity(Some(peer(1))));
    assert_eq!(client.step(Event::History(Some(Vec::new()))), vec![Action::AttachListener]);
    assert_eq!(client.phase(), Phase::Attaching);
    let mut client = registering();
    client.step(Event::Identity(Some(peer(1))));
    assert_eq!(client.step(Event::History(None)), vec![Action::AttachListener]);
    assert_eq!(client.phase(), Phase::Attaching);
}

#[test]
fn a_listener_that_cannot_be_attached_is_fatal() {
    let mut client = registering();
    client.step(Event::Identity(Some(peer(1))));
    client.step(Event::History(None));
    assert_eq!(client.step(Event::Attached(false)), vec![Action::Abort]);
    assert_eq!(client.phase(), Phase::Failed);
}

#[test]
fn an_attached_listener_makes_the_client_live() {
    let mut client = registering();
    client.step(Event::Identity(Some(peer(1))));
    client.step(Event::History(None));
    assert_eq!(client.step(Event::Attached(true)), Vec::<Action>::new());
    assert_eq!(client.phase(), Phase::Live);
}

#[test]
fn a_live_message_is_shown_at_once() {
    let a = peer(2);
    let mut client = live_client(&peer(1));
    assert_eq!(
        client.step(Event::Signal(said("now", &a))),
        vec![Action::Display(said("now", &a))]
    );
    assert_eq!(client.phase(), Phase::Live);
}

#[test]
fn a_typed_line_is_sent_as_the_local_peer() {
    let me = peer(1);
    let mut client = live_client(&me);
    assert_eq!(
        client.step(Event::Line("hello".to_string())),
        vec![Action::Send(said("hello", &me))]
    );
    assert_eq!(client.step(Event::Line(String::new())), vec![Action::Send(said("", &me))]);
    assert_eq!(client.phase(), Phase::Live);
}

#[test]
fn a_failed_send_is_reported_and_the_session_goes_on() {
    let me = peer(1);
    let mut client = live_client(&me);
    assert_eq!(client.step(Event::SendFailed), vec![Action::ReportSendFailure]);
    assert_eq!(client.phase(), Phase::Live);
    assert_eq!(
        client.step(Event::Line("again".to_string())),
        vec![Action::Send(said("again", &me))]
    );
}

#[test]
fn a_closed_live_stream_is_fatal() {
    let mut client = live_client(&peer(1));
    assert_eq!(client.step(Event::SignalsClosed), vec![Action::Abort]);
    assert_eq!(client.phase(), Phase::Failed);
    assert_eq!(client.step(Event::Signal(said("late", &peer(2)))), Vec::<Action>::new());
}

#[test]
fn the_end_of_the_input_stops_the_client() {
    let mut client = live_client(&peer(1));
    assert_eq!(client.step(Event::InputEnded), vec![Action::Shutdown]);
    assert_eq!(client.phase(), Phase::Stopped);
    assert_eq!(client.step(Event::Line("late".to_string())), Vec::<Action>::new());
    assert_eq!(client.step(Event::InputEnded), Vec::<Action>::new());
    assert_eq!(client.phase(), Phase::Stopped);
}

#[test]
fn events_that_a_phase_does_not_wait_for_are_passed_over() {
    let a = peer(2);
    let mut client = Client::new();
    assert_eq!(client.step(Event::Identity(Some(peer(1)))), Vec::<Action>::new());
    assert_eq!(client.step(Event::Line("x".to_string())), Vec::<Action>::new());
    assert_eq!(client.phase(), Phase::Starting);
    assert_eq!(client.identity(), None);
    let mut client = registering();
    assert_eq!(client.step(Event::Cells(Some(0))), Vec::<Action>::new());
    assert_eq!(client.step(Event::History(Some(vec![said("x", &a)]))), Vec::<Action>::new());
    assert_eq!(client.step(Event::Attached(true)), Vec::<Action>::new());
    assert_eq!(client.step(Event::Signal(said("x", &a))), Vec::<Action>::new());
    assert_eq!(client.step(Event::Line("x".to_string())), Vec::<Action>::new());
    assert_eq!(client.step(Event::SendFailed), Vec::<Action>::new());
    assert_eq!(client.step(Event::SignalsClosed), Vec::<Action>::new());
    assert_eq!(client.step(Event::InputEnded), Vec::<Action>::new());
    assert_eq!(client.phase(), Phase::Registering);
    client.step(Event::Identity(Some(peer(1))));
    assert_eq!(client.step(Event::Identity(Some(peer(3)))), Vec::<Action>::new());
    assert_eq!(client.step(Event::Signal(said("x", &a))), Vec::<Action>::new());
    assert_eq!(client.step(Event::Attached(true)), Vec::<Action>::new());
    assert_eq!(client.phase(), Phase::LoadingHistory);
    assert_eq!(client.identity(), Some(&peer(1)));
    client.step(Event::History(None));
    assert_eq!(client.step(Event::History(None)), Vec::<Action>::new());
    assert_eq!(client.step(Event::Line("x".to_string())), Vec::<Action>::new());
    assert_eq!(client.step(Event::Signal(said("x", &a))), Vec::<Action>::new());
    assert_eq!(client.phase(), Phase::Attaching);
    client.step(Event::Attached(true));
    assert_eq!(client.step(Event::Identity(None)), Vec::<Action>::new());
    assert_eq!(client.step(Event::History(None)), Vec::<Action>::new());
    assert_eq!(client.step(Event::Attached(false)), Vec::<Action>::new());
    assert_eq!(client.phase(), Phase::Live);
}

#[test]
fn two_peers_chat_and_a_third_joins_late() {
    let a = peer(1);
    let b = peer(2);
    let c = peer(3);
    let mut net = Network::new();
    let mut shown_to_b: Vec<String> = Vec::new();

    let mut client_a = Client::new();
    assert_eq!(client_a.step(Event::Cells(Some(net.endpoints.len()))), vec![Action::Install]);
    assert_eq!(register_self(&mut net, &a), Ok(()));
    assert_eq!(client_a.step(Event::Identity(Some(a.clone()))), vec![Action::FetchHistory]);
    let history = fetch_messages(&net).into_inner();
    assert_eq!(client_a.step(Event::History(Some(history))), vec![Action::AttachListener]);
    let attached = net.attach_listener(&a);
    assert_eq!(client_a.step(Event::Attached(attached)), Vec::<Action>::new());

    let mut client_b = registering();
    assert_eq!(register_self(&mut net, &b), Ok(()));
    client_b.step(Event::Identity(Some(b.clone())));
    let history = fetch_messages(&net).into_inner();
    assert_eq!(client_b.step(Event::History(Some(history))), vec![Action::AttachListener]);
    let attached = net.attach_listener(&b);
    client_b.step(Event::Attached(attached));
    assert_eq!(client_b.phase(), Phase::Live);

    let actions = client_a.step(Event::Line("hello".to_string()));
    assert_eq!(actions, vec![Action::Send(said("hello", &a))]);
    for action in actions {
        if let Action::Send(message) = action {
            assert_eq!(create_message(&mut net, &a, message), Ok(()));
        }
    }
    let heard = net.signals_of(&b).unwrap();
    assert_eq!(heard, vec![said("hello", &a)]);
    for message in heard {
        for action in client_b.step(Event::Signal(message)) {
            if let Action::Display(message) = action {
                shown_to_b.push(display_message(&message).unwrap());
            }
        }
    }
    assert_eq!(shown_to_b, vec![format!("{}: hello", &a.text()[5..10])]);
    assert_eq!(net.signals_of(&a), Some(vec![]));

    let mut client_c = registering();
    assert_eq!(register_self(&mut net, &c), Ok(()));
    client_c.step(Event::Identity(Some(c.clone())));
    let history = fetch_messages(&net).into_inner();
    assert_eq!(history, vec![said("hello", &a)]);
    assert_eq!(
        client_c.step(Event::History(Some(history))),
        vec![Action::Display(said("hello", &a)), Action::AttachListener]
    );
}

#[test]
fn a_start_is_fresh_only_without_cells() {
    assert_eq!(setup_plan(0), Setup::Fresh);
    assert_eq!(setup_plan(1), Setup::Existing);
    assert_eq!(setup_plan(2), Setup::Existing);
    assert_eq!(setup_plan(usize::MAX), Setup::Existing);
}

#[test]
fn an_activation_fails_when_the_app_is_among_the_failed() {
    let failed = vec!["other".to_string(), "my_app_id".to_string()];
    assert!(activation_failed(&failed, INSTALLED_APP_ID));
    assert!(activation_failed(&failed, "other"));
    assert!(!activation_failed(&failed, "my_app"));
    assert!(!activation_failed(&Vec::new(), INSTALLED_APP_ID));
    assert!(same_text("a", "a"));
    assert!(!same_text("a", "b"));
    assert!(!same_text("a", ""));
}

#[test]
fn the_well_known_names() {
    assert_eq!(INSTALLED_APP_ID, "my_app_id");
    assert_eq!(ZOME_NAME, "cmdchat");
    assert_eq!(RECEIVER, "receive_signal");
}
