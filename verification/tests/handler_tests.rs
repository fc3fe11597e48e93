use game_server::handler::{handle_auth, handle_echo, handle_message, handle_ping};
use game_server::msg::{MsgIn, MsgInAuthData, MsgInEchoData, MsgInPingData, MsgOut};
use game_server::session::{Session, Sessions};

fn table_with(key: u32) -> Sessions {
    let mut s = Sessions::new();
    s.insert(key, Session::connected(key, Some("127.0.0.1:5000".to_string())));
    s
}

fn outgoing(s: &Sessions, key: u32) -> Vec<MsgOut> {
    s.get(key).unwrap().message_outbound.iter().cloned().collect()
}

fn auth(id: &str) -> MsgInAuthData {
    MsgInAuthData { user_identifier: id.to_string(), device_id: "dev-1".to_string() }
}

#[test]
fn echo_returns_text_to_sender() {
    let mut s = table_with(1000);
    let r = handle_echo(&MsgInEchoData { message: "hello".to_string() }, 1000, &mut s);
    assert_eq!(r, Ok(()));
    let out = outgoing(&s, 1000);
    assert_eq!(out.len(), 1);
    match &out[0] {
        MsgOut::OnEcho(d) => assert_eq!(d.message, "hello"),
        other => panic!("unexpected reply {:?}", other),
    }
}

#[test]
fn echo_without_session_is_refused() {
    let mut s = table_with(1000);
    let r = handle_echo(&MsgInEchoData { message: "hello".to_string() }, 7, &mut s);
    assert_eq!(r, Err("Sender not found".to_string()));
    assert!(outgoing(&s, 1000).is_empty());
    assert_eq!(s.len(), 1);
}

#[test]
fn ping_answered_with_pong_timestamp() {
    let mut s = table_with(5);
    let r = handle_ping(&MsgInPingData { timestamp: 1_700_000_000_123 }, 5, &mut s);
    assert_eq!(r, Ok(()));
    match &outgoing(&s, 5)[0] {
        MsgOut::OnPong(d) => assert_eq!(d.timestamp, 1_700_000_000_123),
        other => panic!("unexpected reply {:?}", other),
    }
}

#[test]
fn ping_without_session_is_refused() {
    let mut s = Sessions::new();
    let r = handle_ping(&MsgInPingData { timestamp: 1 }, 5, &mut s);
    assert_eq!(r, Err("Sender not found".to_string()));
}

#[test]
fn auth_empty_identifier_is_error_even_without_session() {
    let mut s = Sessions::new();
    let r = handle_auth(&auth(""), 5, &mut s);
    assert_eq!(r, Err("user_identifier empty".to_string()));
    let mut s = table_with(5);
    let r = handle_auth(&auth(""), 5, &mut s);
    assert_eq!(r, Err("user_identifier empty".to_string()));
    assert!(outgoing(&s, 5).is_empty());
}

#[test]
fn auth_without_session_is_refused() {
    let mut s = Sessions::new();
    let r = handle_auth(&auth("abcdefgh"), 5, &mut s);
    assert_eq!(r, Err("Sender not found".to_string()));
}

#[test]
fn auth_short_identifier_fails() {
    let mut s = table_with(5);
    assert_eq!(handle_auth(&auth("abcde"), 5, &mut s), Ok(()));
    match &outgoing(&s, 5)[0] {
        MsgOut::OnAuth(d) => {
            assert!(!d.success);
            assert_eq!(d.access_token, "");
        }
        other => panic!("unexpected reply {:?}", other),
    }
}

#[test]
fn auth_six_bytes_succeeds() {
    let mut s = table_with(5);
    assert_eq!(handle_auth(&auth("abcdef"), 5, &mut s), Ok(()));
    match &outgoing(&s, 5)[0] {
        MsgOut::OnAuth(d) => {
            assert!(d.success);
            assert_eq!(d.access_token, "access_token");
        }
        other => panic!("unexpected reply {:?}", other),
    }
}

#[test]
fn auth_counts_bytes_not_characters() {
    // three characters of two bytes each
    let mut s = table_with(5);
    assert_eq!(handle_auth(&auth("\u{e9}\u{e9}\u{e9}"), 5, &mut s), Ok(()));
    match &outgoing(&s, 5)[0] {
        MsgOut::OnAuth(d) => assert!(d.success),
        other => panic!("unexpected reply {:?}", other),
    }
}

#[test]
fn handle_message_dispatches_by_kind() {
    let mut s = table_with(9);
    assert_eq!(handle_message(MsgIn::Echo(MsgInEchoData { message: "a".to_string() }), 9, &mut s), Ok(()));
    assert_eq!(handle_message(MsgIn::Ping(MsgInPingData { timestamp: 4 }), 9, &mut s), Ok(()));
    assert_eq!(handle_message(MsgIn::Auth(auth("longenough")), 9, &mut s), Ok(()));
    let out = outgoing(&s, 9);
    assert_eq!(out.len(), 3);
    assert!(matches!(&out[0], MsgOut::OnEcho(d) if d.message == "a"));
    assert!(matches!(&out[1], MsgOut::OnPong(d) if d.timestamp == 4));
    assert!(matches!(&out[2], MsgOut::OnAuth(d) if d.success));
}
