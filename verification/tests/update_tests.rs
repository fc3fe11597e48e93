use game_server::msg::{MsgIn, MsgInAuthData, MsgInEchoData, MsgOut, MsgOutEchoData};
use game_server::session::{IncomingFrame, Session, Sessions};
use game_server::update::UpdateThread;

fn echo(text: &str) -> MsgIn {
    MsgIn::Echo(MsgInEchoData { message: text.to_string() })
}

#[test]
fn new_update_thread_keeps_parts() {
    let mut clients = Sessions::new();
    clients.insert(3, Session::connected(3, None));
    let t = UpdateThread::new(clients, 42u8);
    assert_eq!(t.state, 42);
    assert!(t.clients.contains_key(3));
}

#[test]
fn update_sends_to_connected_clients_only() {
    let mut clients = Sessions::new();
    clients.insert(1, Session::connected(1, None));
    clients.insert(2, Session::connected(2, None));
    clients.insert(3, Session::connected(3, None));
    clients.push_outgoing(1, MsgOut::OnEcho(MsgOutEchoData { message: "earlier".to_string() }));
    clients.receive_frame(1, IncomingFrame::Message(echo("hi")));
    clients.receive_frame(2, IncomingFrame::Message(echo("lost")));
    clients.receive_frame(2, IncomingFrame::Close);
    let mut t = UpdateThread::new(clients, ());
    let mut out = t.update();
    out.sort_by_key(|(k, _)| *k);
    assert_eq!(out.len(), 2);
    assert_eq!(out[0].0, 1);
    assert_eq!(out[0].1.len(), 2);
    assert!(matches!(&out[0].1[0], MsgOut::OnEcho(d) if d.message == "earlier"));
    assert!(matches!(&out[0].1[1], MsgOut::OnEcho(d) if d.message == "hi"));
    assert_eq!(out[1].0, 3);
    assert!(out[1].1.is_empty());
    // the client that is gone keeps its queue untouched
    assert_eq!(t.clients.get(2).unwrap().message_inbound.len(), 1);
    assert!(t.clients.get(1).unwrap().message_outbound.is_empty());
    assert!(t.clients.get(1).unwrap().message_inbound.is_empty());
}

#[test]
fn update_thread_process_message() {
    let mut clients = Sessions::new();
    clients.insert(1, Session::connected(1, None));
    let mut t = UpdateThread::new(clients, ());
    assert_eq!(t.process_message(echo("z"), 1), Ok(()));
    assert_eq!(t.process_message(echo("z"), 2), Err("Sender not found".to_string()));
    assert_eq!(t.clients.get(1).unwrap().message_outbound.len(), 1);
}

#[test]
fn update_steps_separately() {
    let mut clients = Sessions::new();
    clients.insert(1, Session::connected(1, None));
    clients.insert(2, Session::connected(2, None));
    clients.receive_frame(1, IncomingFrame::Message(echo("a")));
    clients.receive_frame(2, IncomingFrame::Message(echo("b")));
    clients.receive_frame(2, IncomingFrame::Failed);
    let mut t = UpdateThread::new(clients, ());
    t.process_messages();
    assert_eq!(t.clients.get(1).unwrap().message_outbound.len(), 1);
    assert_eq!(t.clients.get(2).unwrap().message_inbound.len(), 1);
    let out = t.take_outgoing_batches();
    assert_eq!(out.len(), 1);
    assert_eq!(out[0].0, 1);
    assert!(matches!(&out[0].1[0], MsgOut::OnEcho(d) if d.message == "a"));
    assert!(t.clients.get(1).unwrap().message_outbound.is_empty());
}

#[test]
fn update_thread_reports_refusals_of_connected_clients() {
    let mut clients = Sessions::new();
    clients.insert(1, Session::connected(1, None));
    clients.insert(2, Session::connected(2, None));
    let empty_auth = MsgIn::Auth(MsgInAuthData { user_identifier: String::new(), device_id: String::new() });
    clients.receive_frame(1, IncomingFrame::Message(empty_auth.clone()));
    clients.receive_frame(2, IncomingFrame::Message(empty_auth));
    clients.receive_frame(2, IncomingFrame::Close);
    let mut t = UpdateThread::new(clients, ());
    let report = t.process_messages();
    assert_eq!(report, vec![(1, vec!["user_identifier empty".to_string()])]);
}
