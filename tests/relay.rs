use std::cell::RefCell;
use std::rc::Rc;

use chat_relay::broadcaster::Broadcaster;
use chat_relay::message::{announcement, chat_line, echo_reply, NAME_PROMPT};
use chat_relay::session::{HandlerAction, ReadOutcome, Session};

/// A client as the tests see it: what it has received, and whether its socket
/// still accepts writes.
struct Client {
    open: RefCell<bool>,
    received: RefCell<Vec<String>>,
}

fn client() -> Rc<Client> {
    Rc::new(Client { open: RefCell::new(true), received: RefCell::new(Vec::new()) })
}

/// Runs one fan-out pass the way the server does: write to every sink in
/// turn, then report the outcomes.
fn pass(b: &mut Broadcaster<Rc<Client>>, message: &str) {
    let mut delivered = Vec::new();
    for i in 0..b.len() {
        let c = b.sink(i);
        let ok = *c.open.borrow();
        if ok {
            c.received.borrow_mut().push(message.to_string());
        }
        delivered.push(ok);
    }
    b.complete_pass(message, &delivered);
}

fn submitted(a: HandlerAction) -> String {
    match a {
        HandlerAction::Submit(m) => m,
        HandlerAction::Stop => panic!("expected a message, got Stop"),
        HandlerAction::Abort => panic!("expected a message, got Abort"),
    }
}

fn ids(b: &Broadcaster<Rc<Client>>) -> Vec<u64> {
    (0..b.len()).map(|i| b.id_at(i)).collect()
}

#[test]
fn announcement_and_chat_text() {
    assert_eq!(announcement("Alice"), "Alice has entered the chat\n");
    assert_eq!(chat_line("Alice", "hello\n"), "Alice: hello\n");
    assert_eq!(echo_reply("ping\n"), "Server responds: ping\n");
    assert_eq!(NAME_PROMPT, "Enter your display name\n");
}

#[test]
fn first_line_names_the_client() {
    let mut s = Session::new();
    assert_eq!(s.display_name(), None);
    let m = submitted(s.step(ReadOutcome::Line("Alice\n".to_string())));
    assert_eq!(m, "Alice has entered the chat\n");
    assert_eq!(s.display_name(), Some("Alice"));
}

#[test]
fn name_loses_trailing_whitespace() {
    let mut s = Session::new();
    let m = submitted(s.step(ReadOutcome::Line("Bob \t\r\n".to_string())));
    assert_eq!(m, "Bob has entered the chat\n");
    assert_eq!(s.display_name(), Some("Bob"));
}

#[test]
fn later_lines_are_prefixed_and_keep_their_newline() {
    let mut s = Session::new();
    submitted(s.step(ReadOutcome::Line("Alice\n".to_string())));
    let m = submitted(s.step(ReadOutcome::Line("hello\n".to_string())));
    assert_eq!(m, "Alice: hello\n");
    let m = submitted(s.step(ReadOutcome::Line("  spaced  \n".to_string())));
    assert_eq!(m, "Alice:   spaced  \n");
    assert_eq!(s.display_name(), Some("Alice"));
}

#[test]
fn lines_are_submitted_in_order() {
    let mut s = Session::new();
    let mut out = Vec::new();
    for l in ["Carol\n", "m1\n", "m2\n", "m3\n"] {
        out.push(submitted(s.step(ReadOutcome::Line(l.to_string()))));
    }
    assert_eq!(
        out,
        vec!["Carol has entered the chat\n", "Carol: m1\n", "Carol: m2\n", "Carol: m3\n"]
    );
}

#[test]
fn end_of_stream_stops_and_closes() {
    let mut s = Session::new();
    submitted(s.step(ReadOutcome::Line("Alice\n".to_string())));
    assert!(matches!(s.step(ReadOutcome::EndOfStream), HandlerAction::Stop));
    assert_eq!(s.display_name(), None);
    assert!(matches!(s.step(ReadOutcome::Line("late\n".to_string())), HandlerAction::Stop));
}

#[test]
fn end_of_stream_before_a_name() {
    let mut s = Session::new();
    assert!(matches!(s.step(ReadOutcome::EndOfStream), HandlerAction::Stop));
    assert!(matches!(s.step(ReadOutcome::Line("Alice\n".to_string())), HandlerAction::Stop));
}

#[test]
fn failed_read_aborts_only_the_session() {
    let mut s = Session::new();
    submitted(s.step(ReadOutcome::Line("Alice\n".to_string())));
    assert!(matches!(s.step(ReadOutcome::Failed), HandlerAction::Abort));
    assert!(matches!(s.step(ReadOutcome::Line("more\n".to_string())), HandlerAction::Stop));
}

#[test]
fn registered_ids_are_distinct() {
    let mut b = Broadcaster::new();
    assert!(b.is_empty());
    let mut got = Vec::new();
    for _ in 0..5 {
        got.push(b.register(client()).unwrap());
    }
    assert_eq!(got, vec![0, 1, 2, 3, 4]);
    assert_eq!(ids(&b), vec![0, 1, 2, 3, 4]);
    assert_eq!(b.len(), 5);
}

#[test]
fn announcement_reaches_every_connected_client_once() {
    let mut b = Broadcaster::new();
    let clients: Vec<Rc<Client>> = (0..3).map(|_| client()).collect();
    for c in &clients {
        b.register(c.clone()).unwrap();
        let mut s = Session::new();
        let m = submitted(s.step(ReadOutcome::Line("Dana\n".to_string())));
        pass(&mut b, &m);
    }
    assert_eq!(*clients[0].received.borrow(), vec!["Dana has entered the chat\n"; 3]);
    assert_eq!(*clients[1].received.borrow(), vec!["Dana has entered the chat\n"; 2]);
    assert_eq!(*clients[2].received.borrow(), vec!["Dana has entered the chat\n"; 1]);
}

#[test]
fn one_senders_messages_arrive_in_order() {
    let mut b = Broadcaster::new();
    let watcher = client();
    b.register(watcher.clone()).unwrap();
    let mut s = Session::new();
    for l in ["Eve\n", "m1\n", "m2\n", "m3\n"] {
        let m = submitted(s.step(ReadOutcome::Line(l.to_string())));
        pass(&mut b, &m);
    }
    assert_eq!(
        *watcher.received.borrow(),
        vec!["Eve has entered the chat\n", "Eve: m1\n", "Eve: m2\n", "Eve: m3\n"]
    );
}

#[test]
fn closed_sink_is_pruned_after_one_failed_write() {
    let mut b = Broadcaster::new();
    let a = client();
    let c = client();
    b.register(a.clone()).unwrap();
    b.register(c.clone()).unwrap();
    pass(&mut b, "one\n");
    *a.open.borrow_mut() = false;
    pass(&mut b, "two\n");
    assert_eq!(ids(&b), vec![1]);
    pass(&mut b, "three\n");
    assert_eq!(ids(&b), vec![1]);
    assert_eq!(*a.received.borrow(), vec!["one\n"]);
    assert_eq!(*c.received.borrow(), vec!["one\n", "two\n", "three\n"]);
}

#[test]
fn failure_on_one_client_leaves_others_working() {
    let mut b = Broadcaster::new();
    let a = client();
    let c = client();
    b.register(a.clone()).unwrap();
    b.register(c.clone()).unwrap();
    *a.open.borrow_mut() = false;
    pass(&mut b, "x\n");
    let late = client();
    assert_eq!(b.register(late.clone()), Some(2));
    pass(&mut b, "y\n");
    assert_eq!(ids(&b), vec![1, 2]);
    assert_eq!(*c.received.borrow(), vec!["x\n", "y\n"]);
    assert_eq!(*late.received.borrow(), vec!["y\n"]);
    assert!(a.received.borrow().is_empty());
}

#[test]
fn all_sinks_failing_empties_the_registry() {
    let mut b = Broadcaster::new();
    let a = client();
    let c = client();
    b.register(a.clone()).unwrap();
    b.register(c.clone()).unwrap();
    *a.open.borrow_mut() = false;
    *c.open.borrow_mut() = false;
    pass(&mut b, "gone\n");
    assert!(b.is_empty());
}

#[test]
fn alice_then_bob_scenario() {
    let mut b = Broadcaster::new();
    let observer = client();
    b.register(observer.clone()).unwrap();

    let client1 = client();
    b.register(client1.clone()).unwrap();
    let mut alice = Session::new();
    let m = submitted(alice.step(ReadOutcome::Line("Alice\n".to_string())));
    pass(&mut b, &m);
    let m = submitted(alice.step(ReadOutcome::Line("hello\n".to_string())));
    pass(&mut b, &m);
    assert_eq!(
        *observer.received.borrow(),
        vec!["Alice has entered the chat\n", "Alice: hello\n"]
    );

    let client2 = client();
    b.register(client2.clone()).unwrap();
    let mut bob = Session::new();
    let m = submitted(bob.step(ReadOutcome::Line("Bob\n".to_string())));
    pass(&mut b, &m);
    assert_eq!(
        *client1.received.borrow(),
        vec!["Alice has entered the chat\n", "Alice: hello\n", "Bob has entered the chat\n"]
    );
    assert_eq!(*client2.received.borrow(), vec!["Bob has entered the chat\n"]);
}

#[test]
fn fan_out_over_empty_registry_is_a_no_op() {
    let mut b: Broadcaster<Rc<Client>> = Broadcaster::new();
    pass(&mut b, "nobody\n");
    assert!(b.is_empty());
    assert_eq!(b.register(client()), Some(0));
}
