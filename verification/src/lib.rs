//! Server-side core of a small multiplayer game: session state machine,
//! wire codec, chunk generation, and a supervision-tree model.

pub mod account_store;
pub mod chunk;
pub mod chunk_manager;
pub mod codec;
pub mod game_manager;
pub mod messages;
pub mod password;
pub mod session;
pub mod supervisor;
pub mod pos;
pub mod terrain;
pub mod tile;
pub mod token;

use vstd::prelude::*;

verus! {

/// How a game is started: a fresh save under a new name, or an existing
/// save loaded back.
#[derive(Debug, Clone, PartialEq)]
pub enum GameStartOption {
    NewGame(String),
    LoadGame(String),
}

/// What start-up should do with the save directory.
#[derive(Debug, Clone, PartialEq)]
pub enum GameDirAction {
    CreateNew(String),
    UseExisting(String),
}

/// Decide the save directory from the start option and whether the named
/// save already exists: a new game must not overwrite an existing save,
/// and loading needs the save to be there.
pub fn resolve_game_dir(option: &GameStartOption, save_exists: bool) -> (r: Result<
    GameDirAction,
    String,
>)
    ensures
        match option {
            GameStartOption::NewGame(name) => if save_exists {
                r is Err
            } else {
                r matches Ok(GameDirAction::CreateNew(n)) && n@ == name@
            },
            GameStartOption::LoadGame(name) => if save_exists {
                r matches Ok(GameDirAction::UseExisting(n)) && n@ == name@
            } else {
                r is Err
            },
        },
{
    match option {
        GameStartOption::NewGame(name) => {
            if save_exists {
                Err(String::from_str("Error creating game, save already exists: ").concat(
                    name.as_str(),
                ))
            } else {
                Ok(GameDirAction::CreateNew(name.clone()))
            }
        }
        GameStartOption::LoadGame(name) => {
            if save_exists {
                Ok(GameDirAction::UseExisting(name.clone()))
            } else {
                Err(String::from_str("Error loading game, save does not exist: ").concat(
                    name.as_str(),
                ))
            }
        }
    }
}

} // verus!
