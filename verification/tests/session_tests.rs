use server_core::messages::ServerControlStreamMessage;
use server_core::session::{
    bind_control_stream, AuthState, ConnectionRole, ServerSession, SessionAddr, SessionManager,
};

fn loopback() -> SessionAddr {
    SessionAddr { ip: 0x7F00_0001, port: 5250, ipv4: true }
}

fn remote() -> SessionAddr {
    SessionAddr { ip: 0x0A00_0001, port: 40000, ipv4: true }
}

#[test]
fn fresh_session_waits_for_credentials() {
    let s = ServerSession::new(remote());
    assert_eq!(s.auth, AuthState::WaitingForCredentials);
    assert!(!s.control_stream_opened);
    assert_eq!(s.selected_character, None);
}

#[test]
fn loopback_addresses_get_the_local_master_role() {
    assert_eq!(ServerSession::new(loopback()).role, ConnectionRole::LocalMaster);
    assert_eq!(ServerSession::new(remote()).role, ConnectionRole::RemoteClient);
    let v6_loopback = SessionAddr { ip: 1, port: 1, ipv4: false };
    assert_eq!(ServerSession::new(v6_loopback).role, ConnectionRole::LocalMaster);
    let v6_remote = SessionAddr { ip: 0x2001_0000_0000_0000_0000_0000_0000_0001, port: 1, ipv4: false };
    assert_eq!(ServerSession::new(v6_remote).role, ConnectionRole::RemoteClient);
}

#[test]
fn second_control_stream_is_rejected_and_first_unaffected() {
    let mut s = ServerSession::new(remote());
    assert!(bind_control_stream(&mut s).is_none());
    assert!(s.control_stream_opened);

    let before = s.clone();
    let reply = bind_control_stream(&mut s);
    match reply {
        Some(ServerControlStreamMessage::Disconnected(reason)) => {
            assert_eq!(reason, "Control stream already opened");
        }
        other => panic!("expected a disconnect notice, got {:?}", other),
    }
    // The session, and with it the original control stream, is unchanged.
    assert_eq!(s, before);

    // And a third attempt says the same.
    let reply = bind_control_stream(&mut s);
    assert!(matches!(reply, Some(ServerControlStreamMessage::Disconnected(_))));
}

#[test]
fn session_manager_keys_sessions_by_address() {
    let mut m = SessionManager::new();
    assert!(m.find(remote()).is_none());
    m.insert(remote(), ServerSession::new(remote()));
    m.insert(loopback(), ServerSession::new(loopback()));
    assert!(m.find(remote()).is_some());
    assert!(m.find(loopback()).is_some());
    let other = SessionAddr { ip: 0x0A00_0001, port: 40001, ipv4: true };
    assert!(m.find(other).is_none());
    // Re-inserting the same address replaces, not duplicates.
    m.insert(remote(), ServerSession::new(remote()));
    assert_eq!(m.sessions.len(), 2);
}

#[test]
fn insert_stores_the_given_session_and_keeps_the_rest() {
    let mut m = SessionManager::new();
    m.insert(loopback(), ServerSession::new(loopback()));

    let mut updated = ServerSession::new(remote());
    updated.auth = AuthState::Authenticated { username: "alice".to_string() };
    m.insert(remote(), updated.clone());

    // The stored entry is exactly the inserted session.
    let stored = &m.sessions[m.find(remote()).unwrap()];
    assert_eq!(stored.0, remote());
    assert_eq!(stored.1, updated);

    // The entry for the other address is untouched.
    let other = &m.sessions[m.find(loopback()).unwrap()];
    assert_eq!(other.1, ServerSession::new(loopback()));
}
