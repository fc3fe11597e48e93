use game_server::msg::{MsgIn, MsgInAuthData, MsgInEchoData, MsgInPingData, MsgOut};
use game_server::server::{
    average_fps, clock_millis, millis_as_u64, is_session_of_worker, network_task_count, network_task_count_checked,
    network_task_count_for_machine,
    FrameRateCounter, GameServer, FIRST_OBJECT_KEY, FIRST_SESSION_KEY,
};
use game_server::session::{FrameOutcome, IncomingFrame};

fn echo(text: &str) -> MsgIn {
    MsgIn::Echo(MsgInEchoData { message: text.to_string() })
}

#[test]
fn new_server_starts_empty() {
    let s = GameServer::new();
    assert_eq!(s.sessions.len(), 0);
    assert_eq!(s.next_session_key, 1000);
    assert_eq!(FIRST_SESSION_KEY, 1000);
    assert_eq!(s.next_object_key, 1000000);
    assert_eq!(FIRST_OBJECT_KEY, 1000000);
    assert_eq!(s.timestamp_server_start, 0);
    assert_eq!(s.timestamp_server_end, 0);
    assert!(s.game_map.tiles.is_empty());
}

#[test]
fn connections_get_consecutive_keys() {
    let mut s = GameServer::new();
    let a = s.handle_connection(Some("10.0.0.1:1".to_string()));
    let b = s.handle_connection(None);
    assert_eq!((a, b), (1000, 1001));
    assert_eq!(s.next_session_key, 1002);
    let sa = s.sessions.get(a).unwrap();
    assert!(sa.alive);
    assert_eq!(sa.key, 1000);
    assert_eq!(sa.address.as_deref(), Some("10.0.0.1:1"));
    assert_eq!(sa.session, "");
    assert!(sa.message_inbound.is_empty() && sa.message_outbound.is_empty());
    assert_eq!((sa.user_index, sa.user_access_token.clone(), sa.player_object_key), (None, None, None));
}

#[test]
fn session_key_counter_wraps() {
    let mut s = GameServer::new();
    s.next_session_key = u32::MAX;
    assert_eq!(s.handle_connection(None), u32::MAX);
    assert_eq!(s.next_session_key, 0);
    assert_eq!(s.handle_connection(None), 0);
}

#[test]
fn disconnect_removes_session() {
    let mut s = GameServer::new();
    let k = s.handle_connection(None);
    s.process_message(echo("x"), k).unwrap();
    assert!(s.handle_disconnect(k));
    assert!(!s.sessions.contains_key(k));
    assert_eq!(s.process_message(echo("y"), k), Err("Sender not found".to_string()));
    assert!(!s.handle_disconnect(k));
    assert_eq!(s.sessions.len(), 0);
}

#[test]
fn process_update_handles_inbox_and_drops_gone_clients() {
    let mut s = GameServer::new();
    let a = s.handle_connection(None);
    let b = s.handle_connection(None);
    s.sessions.receive_frame(a, IncomingFrame::Message(echo("one")));
    s.sessions.receive_frame(a, IncomingFrame::Message(MsgIn::Ping(MsgInPingData { timestamp: 9 })));
    s.sessions.receive_frame(a, IncomingFrame::Message(MsgIn::Auth(MsgInAuthData {
        user_identifier: String::new(),
        device_id: String::new(),
    })));
    s.sessions.receive_frame(b, IncomingFrame::Message(echo("two")));
    assert_eq!(s.sessions.receive_frame(b, IncomingFrame::Close), Some(FrameOutcome::StopReading));
    s.process_update();
    assert!(!s.sessions.contains_key(b));
    let sa = s.sessions.get(a).unwrap();
    assert!(sa.message_inbound.is_empty());
    let out: Vec<MsgOut> = sa.message_outbound.iter().cloned().collect();
    assert_eq!(out.len(), 2);
    assert!(matches!(&out[0], MsgOut::OnEcho(d) if d.message == "one"));
    assert!(matches!(&out[1], MsgOut::OnPong(d) if d.timestamp == 9));
}

#[test]
fn idle_update_changes_nothing() {
    let mut s = GameServer::new();
    let a = s.handle_connection(None);
    s.process_update();
    assert!(s.sessions.contains_key(a));
    assert!(s.sessions.get(a).unwrap().message_outbound.is_empty());
}

#[test]
fn frames_change_session() {
    let mut s = GameServer::new();
    let a = s.handle_connection(None);
    assert_eq!(s.sessions.receive_frame(a, IncomingFrame::Message(echo("m"))), Some(FrameOutcome::KeepReading));
    assert_eq!(s.sessions.get(a).unwrap().message_inbound.len(), 1);
    assert_eq!(s.sessions.receive_frame(a, IncomingFrame::NonText), Some(FrameOutcome::StopWorker));
    assert_eq!(s.sessions.receive_frame(a, IncomingFrame::Malformed), Some(FrameOutcome::StopWorker));
    assert!(s.sessions.get(a).unwrap().alive);
    assert_eq!(s.sessions.receive_frame(a, IncomingFrame::Failed), Some(FrameOutcome::StopReading));
    assert!(!s.sessions.get(a).unwrap().alive);
    assert_eq!(s.sessions.receive_frame(a + 1, IncomingFrame::Close), None);
}

#[test]
fn take_outgoing_empties_queue() {
    let mut s = GameServer::new();
    let a = s.handle_connection(None);
    s.process_message(echo("p"), a).unwrap();
    s.process_message(echo("q"), a).unwrap();
    let out = s.sessions.take_outgoing(a);
    assert_eq!(out.len(), 2);
    assert!(matches!(&out[1], MsgOut::OnEcho(d) if d.message == "q"));
    assert!(s.sessions.take_outgoing(a).is_empty());
    assert!(s.sessions.take_outgoing(a + 5).is_empty());
}

#[test]
fn network_task_counts() {
    assert_eq!(network_task_count(4), 1);
    assert_eq!(network_task_count(7), 1);
    assert_eq!(network_task_count(8), 4);
    assert_eq!(network_task_count(10), 4);
    assert_eq!(network_task_count(12), 8);
    assert_eq!(network_task_count(20), 16);
    assert_eq!(network_task_count(64), 16);
}

#[test]
fn machine_network_task_count_in_range() {
    if let Some(n) = network_task_count_for_machine() {
        assert!((1..=16).contains(&n));
        assert!(n == 1 || n % 4 == 0);
    }
}

#[test]
fn worker_assignment_by_key_modulo() {
    assert!(is_session_of_worker(1000, 0, 4));
    assert!(is_session_of_worker(1001, 1, 4));
    assert!(!is_session_of_worker(1001, 0, 4));
    assert!(is_session_of_worker(7, 0, 1));
    let owners: Vec<usize> = (0..4).filter(|w| is_session_of_worker(1003, *w, 4)).collect();
    assert_eq!(owners, vec![3]);
}

#[test]
fn average_fps_rounds_down() {
    assert_eq!(average_fps(&vec![60, 61, 59], 3), 60);
    assert_eq!(average_fps(&vec![10, 11], 2), 10);
    assert_eq!(average_fps(&vec![], 4), 0);
}

#[test]
fn frame_counter_reports_each_interval() {
    let mut c = FrameRateCounter::new(0);
    assert_eq!(c.record_frame(100), None);
    assert_eq!(c.record_frame(999), None);
    assert_eq!(c.record_frame(1000), Some(3));
    assert_eq!((c.frames, c.window_start_ms), (0, 1000));
    assert_eq!(c.record_frame(1500), None);
    assert_eq!(c.record_frame(500), None);
    assert_eq!(c.record_frame(2100), Some(3));
}

#[test]
fn start_and_end_times_recorded() {
    let mut s = GameServer::new();
    let start = s.record_start_time().unwrap();
    let end = s.record_end_time().unwrap();
    assert_eq!(s.timestamp_server_start, start);
    assert_eq!(s.timestamp_server_end, end);
    assert!(s.timestamp_server_start > 1_600_000_000_000);
    assert!(s.timestamp_server_end >= s.timestamp_server_start);
    assert_eq!(s.next_session_key, 1000);
}

#[test]
fn update_of_a_session_ignores_other_sessions() {
    let mut one = GameServer::new();
    let mut two = GameServer::new();
    let a1 = one.handle_connection(None);
    let a2 = two.handle_connection(None);
    assert_eq!(a1, a2);
    let b = two.handle_connection(None);
    one.sessions.receive_frame(a1, IncomingFrame::Message(echo("same")));
    two.sessions.receive_frame(a2, IncomingFrame::Message(echo("same")));
    two.sessions.receive_frame(b, IncomingFrame::Message(echo("other")));
    one.process_update();
    two.process_update();
    let o1: Vec<MsgOut> = one.sessions.get(a1).unwrap().message_outbound.iter().cloned().collect();
    let o2: Vec<MsgOut> = two.sessions.get(a2).unwrap().message_outbound.iter().cloned().collect();
    assert_eq!(o1, o2);
}

#[test]
fn checked_network_task_count() {
    assert_eq!(network_task_count_checked(0), None);
    assert_eq!(network_task_count_checked(3), None);
    assert_eq!(network_task_count_checked(4), Some(1));
    assert_eq!(network_task_count_checked(12), Some(8));
    assert_eq!(network_task_count_checked(100), Some(16));
}

#[test]
fn clock_reads_after_epoch() {
    let a = clock_millis().unwrap();
    let b = clock_millis().unwrap();
    assert!(a > 1_600_000_000_000);
    assert!(b >= a);
}

#[test]
fn setters_store_given_readings() {
    let mut s = GameServer::new();
    s.set_start_time(1_700_000_000_000);
    s.set_end_time(1_700_000_005_000);
    assert_eq!(s.timestamp_server_start, 1_700_000_000_000);
    assert_eq!(s.timestamp_server_end, 1_700_000_005_000);
    assert!(s.timestamp_server_start <= s.timestamp_server_end);
    assert_eq!(s.next_session_key, 1000);
}

#[test]
fn ith_connection_gets_key_999_plus_i() {
    let mut s = GameServer::new();
    for i in 1..=50u32 {
        assert_eq!(s.handle_connection(None), 999 + i);
    }
    assert_eq!(s.sessions.len(), 50);
}

#[test]
fn messages_step_then_removal_step() {
    let mut s = GameServer::new();
    let a = s.handle_connection(None);
    let b = s.handle_connection(None);
    s.sessions.receive_frame(b, IncomingFrame::Message(echo("bye")));
    s.sessions.receive_frame(b, IncomingFrame::Close);
    s.process_messages();
    // the gone client's messages are handled, and it is still there until removal
    assert_eq!(s.sessions.get(b).unwrap().message_outbound.len(), 1);
    assert!(s.sessions.get(b).unwrap().message_inbound.is_empty());
    s.remove_disconnected();
    assert!(!s.sessions.contains_key(b));
    assert!(s.sessions.contains_key(a));
}

#[test]
fn millis_conversion_keeps_low_bits() {
    assert_eq!(millis_as_u64(1_700_000_000_123), 1_700_000_000_123);
    assert_eq!(millis_as_u64(u64::MAX as u128 + 6), 5);
}

#[test]
fn process_messages_reports_refusals() {
    let mut s = GameServer::new();
    let a = s.handle_connection(None);
    let b = s.handle_connection(None);
    s.sessions.receive_frame(a, IncomingFrame::Message(MsgIn::Auth(MsgInAuthData {
        user_identifier: String::new(),
        device_id: String::new(),
    })));
    s.sessions.receive_frame(a, IncomingFrame::Message(echo("ok")));
    let mut report = s.process_messages();
    report.sort_by_key(|(k, _)| *k);
    assert_eq!(report.len(), 2);
    assert_eq!(report[0], (a, vec!["user_identifier empty".to_string()]));
    assert_eq!(report[1], (b, vec![]));
    assert_eq!(s.sessions.get(a).unwrap().message_outbound.len(), 1);
}
