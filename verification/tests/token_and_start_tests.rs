use server_core::token::generate_session_token;
use server_core::{resolve_game_dir, GameDirAction, GameStartOption};

#[test]
fn session_tokens_are_64_hex_digits() {
    let token = generate_session_token().expect("token generation should succeed");
    assert_eq!(token.len(), 64);
    assert!(token.chars().all(|c| c.is_ascii_hexdigit()));
}

#[test]
fn session_tokens_differ_between_calls() {
    let a = generate_session_token().unwrap();
    let b = generate_session_token().unwrap();
    assert_ne!(a, b);
}

#[test]
fn new_game_refuses_an_existing_save() {
    let opt = GameStartOption::NewGame("world1".to_string());
    assert!(resolve_game_dir(&opt, true).is_err());
    assert_eq!(
        resolve_game_dir(&opt, false).unwrap(),
        GameDirAction::CreateNew("world1".to_string())
    );
}

#[test]
fn load_game_needs_the_save_to_exist() {
    let opt = GameStartOption::LoadGame("world1".to_string());
    assert!(resolve_game_dir(&opt, false).is_err());
    assert_eq!(
        resolve_game_dir(&opt, true).unwrap(),
        GameDirAction::UseExisting("world1".to_string())
    );
}
