use server_core::account_store::AccountStore;
use server_core::chunk_manager::ChunkManager;
use server_core::game_manager::GameManager;
use server_core::messages::{
    AccountCredentials, ClientControlStreamMessage, ServerControlStreamMessage,
};
use server_core::session::{AuthState, ServerSession, SessionAddr};
use server_core::terrain::TerrainSampler;

const NOW: i64 = 1_700_000_000;

fn fresh_manager() -> GameManager {
    GameManager::new(AccountStore::new(), ChunkManager::new(TerrainSampler::new(0)))
}

fn fresh_session() -> ServerSession {
    ServerSession::new(SessionAddr { ip: 0x0A00_0001, port: 40000, ipv4: true })
}

fn creds(user: &str, pw: &str) -> AccountCredentials {
    AccountCredentials::new(user.to_string(), pw.to_string(), None)
}

#[test]
fn create_account_then_login_succeeds() {
    let mut gm = fresh_manager();
    let mut s = fresh_session();
    let reply = gm.create(creds("alice", "secret"), NOW, &mut s);
    match reply {
        ServerControlStreamMessage::Authenticated(info) => {
            assert_eq!(info.username, "alice");
            assert!(info.characters.is_empty());
        }
        other => panic!("expected authentication, got {:?}", other),
    }
    assert_eq!(s.auth, AuthState::Authenticated { username: "alice".to_string() });

    let mut s2 = fresh_session();
    let reply = gm.login(creds("alice", "secret"), &mut s2);
    assert!(matches!(reply, ServerControlStreamMessage::Authenticated(_)));
    assert_eq!(s2.auth, AuthState::Authenticated { username: "alice".to_string() });
}

#[test]
fn login_with_wrong_password_rejects_and_never_authenticates() {
    let mut gm = fresh_manager();
    let mut s = fresh_session();
    let _ = gm.create(creds("alice", "secret"), NOW, &mut s);

    let mut s2 = fresh_session();
    let reply = gm.login(creds("alice", "wrong"), &mut s2);
    match reply {
        ServerControlStreamMessage::LoginDenied(reason) => {
            assert_eq!(reason, "Invalid Password");
        }
        other => panic!("expected a login denial, got {:?}", other),
    }
    assert_eq!(s2.auth, AuthState::Rejected("Invalid Password".to_string()));
}

#[test]
fn login_with_unknown_account_rejects() {
    let gm = fresh_manager();
    let mut s = fresh_session();
    let reply = gm.login(creds("nobody", "pw"), &mut s);
    match reply {
        ServerControlStreamMessage::LoginDenied(reason) => {
            assert_eq!(reason, "Account does not exist");
        }
        other => panic!("expected a login denial, got {:?}", other),
    }
    assert!(matches!(s.auth, AuthState::Rejected(_)));
}

#[test]
fn duplicate_account_is_denied_and_not_inserted() {
    let mut gm = fresh_manager();
    let mut s = fresh_session();
    let _ = gm.create(creds("alice", "secret"), NOW, &mut s);
    assert_eq!(gm.store.accounts.len(), 1);

    let mut s2 = fresh_session();
    let reply = gm.create(creds("alice", "other"), NOW, &mut s2);
    match reply {
        ServerControlStreamMessage::AccountCreateDenied(reason) => {
            assert_eq!(reason, "Account already exists");
        }
        other => panic!("expected an account denial, got {:?}", other),
    }
    assert_eq!(gm.store.accounts.len(), 1);
    assert!(matches!(s2.auth, AuthState::Rejected(_)));
}

#[test]
fn character_creation_and_selection() {
    let mut gm = fresh_manager();
    let mut s = fresh_session();
    let _ = gm.create(creds("alice", "secret"), NOW, &mut s);

    let reply = gm.create_character("alice".to_string(), "Hero".to_string(), NOW);
    let id = match reply {
        ServerControlStreamMessage::CharacterSelected(id) => id,
        other => panic!("expected a character id, got {:?}", other),
    };
    assert_eq!(id, 1);
    assert_eq!(gm.store.characters.len(), 1);
    assert_eq!(gm.store.characters[0].name, "Hero");
    assert_eq!(gm.store.characters[0].account_username, "alice");

    let reply = gm.select_character(&"alice".to_string(), id);
    assert!(matches!(reply, ServerControlStreamMessage::CharacterSelected(i) if i == id));

    let reply = gm.select_character(&"alice".to_string(), 999);
    assert!(matches!(reply, ServerControlStreamMessage::CharacterDenied(_)));
}

#[test]
fn character_creation_for_missing_account_is_denied() {
    let mut gm = fresh_manager();
    let reply = gm.create_character("ghost".to_string(), "Hero".to_string(), NOW);
    match reply {
        ServerControlStreamMessage::CharacterDenied(reason) => {
            assert_eq!(reason, "Account does not exist");
        }
        other => panic!("expected a denial, got {:?}", other),
    }
    assert!(gm.store.characters.is_empty());
}

#[test]
fn selecting_someone_elses_character_is_denied_and_changes_nothing() {
    let mut gm = fresh_manager();
    let mut s_alice = fresh_session();
    let mut s_bob = fresh_session();
    let _ = gm.create(creds("alice", "pw-a"), NOW, &mut s_alice);
    let _ = gm.create(creds("bob", "pw-b"), NOW, &mut s_bob);
    let alice_char = match gm.create_character("alice".to_string(), "Hero".to_string(), NOW) {
        ServerControlStreamMessage::CharacterSelected(id) => id,
        other => panic!("expected a character id, got {:?}", other),
    };

    // Bob tries to select Alice's character through the protocol step.
    let mut session = fresh_session();
    session.auth = AuthState::Authenticated { username: "bob".to_string() };
    let before = session.clone();
    let chars_before = gm.store.characters.len();
    let reply = gm.handle_control_message(
        &mut session,
        ClientControlStreamMessage::SelectCharacter(alice_char),
        NOW,
    );
    match reply {
        ServerControlStreamMessage::CharacterDenied(reason) => {
            assert_eq!(reason, "Could not find character");
        }
        other => panic!("expected a denial, got {:?}", other),
    }
    assert_eq!(session, before);
    assert_eq!(gm.store.characters.len(), chars_before);
}

#[test]
fn connection_request_always_answers_connected() {
    let mut gm = fresh_manager();
    let mut s = fresh_session();
    let reply =
        gm.handle_control_message(&mut s, ClientControlStreamMessage::ConnectionRequest, NOW);
    assert!(matches!(reply, ServerControlStreamMessage::Connected));
    assert_eq!(s.auth, AuthState::WaitingForCredentials);

    s.auth = AuthState::Rejected("gone".to_string());
    let reply =
        gm.handle_control_message(&mut s, ClientControlStreamMessage::ConnectionRequest, NOW);
    assert!(matches!(reply, ServerControlStreamMessage::Connected));
}

#[test]
fn wrong_login_then_join_world_is_refused() {
    // The full scenario: account "alice" exists, a fresh session sends
    // Login("alice", "wrong"), then JoinWorldRequest on the same stream.
    let mut gm = fresh_manager();
    let mut setup = fresh_session();
    let _ = gm.create(creds("alice", "secret"), NOW, &mut setup);

    let mut session = fresh_session();
    let reply = gm.handle_control_message(
        &mut session,
        ClientControlStreamMessage::Login(creds("alice", "wrong")),
        NOW,
    );
    match reply {
        ServerControlStreamMessage::LoginDenied(reason) => {
            assert_eq!(reason, "Invalid Password");
        }
        other => panic!("expected a login denial, got {:?}", other),
    }
    assert_eq!(session.auth, AuthState::Rejected("Invalid Password".to_string()));

    let reply =
        gm.handle_control_message(&mut session, ClientControlStreamMessage::JoinWorldRequest, NOW);
    match reply {
        ServerControlStreamMessage::CharacterDenied(reason) => {
            assert_eq!(reason, "not authenticated");
        }
        other => panic!("expected a denial, got {:?}", other),
    }
}

#[test]
fn join_world_after_selection_sends_the_spawn_square() {
    let mut gm = fresh_manager();
    let mut session = fresh_session();
    let _ = gm.handle_control_message(
        &mut session,
        ClientControlStreamMessage::CreateAccount(creds("alice", "secret")),
        NOW,
    );
    let reply = gm.handle_control_message(
        &mut session,
        ClientControlStreamMessage::CreateCharacter("Hero".to_string()),
        NOW,
    );
    assert!(matches!(reply, ServerControlStreamMessage::CharacterSelected(_)));
    assert!(session.selected_character.is_some());

    let reply =
        gm.handle_control_message(&mut session, ClientControlStreamMessage::JoinWorldRequest, NOW);
    match reply {
        ServerControlStreamMessage::InitialWorld { chunks } => {
            assert_eq!(chunks.len(), 25);
            for x in -2i64..=2 {
                for y in -2i64..=2 {
                    assert!(chunks.iter().any(|(p, _)| p.x == x && p.y == y));
                }
            }
        }
        other => panic!("expected the initial world, got {:?}", other),
    }
}

#[test]
fn join_world_without_selection_is_refused() {
    let mut gm = fresh_manager();
    let mut session = fresh_session();
    let _ = gm.handle_control_message(
        &mut session,
        ClientControlStreamMessage::CreateAccount(creds("alice", "secret")),
        NOW,
    );
    let reply =
        gm.handle_control_message(&mut session, ClientControlStreamMessage::JoinWorldRequest, NOW);
    match reply {
        ServerControlStreamMessage::CharacterDenied(reason) => {
            assert_eq!(reason, "no character selected");
        }
        other => panic!("expected a denial, got {:?}", other),
    }
}

#[test]
fn unauthenticated_character_messages_are_denied() {
    let mut gm = fresh_manager();
    let mut session = fresh_session();
    let reply = gm.handle_control_message(
        &mut session,
        ClientControlStreamMessage::CreateCharacter("Hero".to_string()),
        NOW,
    );
    assert!(matches!(reply, ServerControlStreamMessage::CharacterDenied(ref r) if r == "not authenticated"));
    let reply = gm.handle_control_message(
        &mut session,
        ClientControlStreamMessage::SelectCharacter(1),
        NOW,
    );
    assert!(matches!(reply, ServerControlStreamMessage::CharacterDenied(ref r) if r == "not authenticated"));
    assert_eq!(session.auth, AuthState::WaitingForCredentials);
}

#[test]
fn login_outside_waiting_state_is_denied() {
    let mut gm = fresh_manager();
    let mut session = fresh_session();
    let _ = gm.handle_control_message(
        &mut session,
        ClientControlStreamMessage::CreateAccount(creds("alice", "secret")),
        NOW,
    );
    let reply = gm.handle_control_message(
        &mut session,
        ClientControlStreamMessage::Login(creds("alice", "secret")),
        NOW,
    );
    assert!(matches!(reply, ServerControlStreamMessage::LoginDenied(_)));
    // Still authenticated as before.
    assert_eq!(session.auth, AuthState::Authenticated { username: "alice".to_string() });
}
