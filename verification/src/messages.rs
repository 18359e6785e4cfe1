//! The control-stream message set and the account data it carries.

use vstd::prelude::*;
use crate::chunk::Chunk;
use crate::pos::ChunkPos;
use crate::tile::Tile;

verus! {

/// Credentials a client presents when logging in or creating an account.
#[derive(Debug, Clone, PartialEq)]
pub struct AccountCredentials {
    pub username: String,
    pub user_password: String,
    pub server_password: Option<String>,
}

/// Mathematical view of [`AccountCredentials`].
pub ghost struct CredView {
    pub username: Seq<char>,
    pub user_password: Seq<char>,
    pub server_password: Option<Seq<char>>,
}

impl View for AccountCredentials {
    type V = CredView;

    open spec fn view(&self) -> CredView {
        CredView {
            username: self.username@,
            user_password: self.user_password@,
            server_password: match self.server_password {
                Some(ref s) => Some(s@),
                None => None,
            },
        }
    }
}

impl AccountCredentials {
    pub fn new(username: String, user_password: String, server_password: Option<String>) -> (r: Self)
        ensures
            r.username == username,
            r.user_password == user_password,
            r.server_password == server_password,
    {
        Self { username, user_password, server_password }
    }
}

/// One character row: id, owning account, display name, creation time
/// (seconds since the epoch).
#[derive(Debug, Clone, PartialEq)]
pub struct CharacterRecord {
    pub character_id: i64,
    pub account_username: String,
    pub name: String,
    pub created_at: i64,
}

/// Mathematical view of [`CharacterRecord`].
pub ghost struct CharacterView {
    pub character_id: i64,
    pub account_username: Seq<char>,
    pub name: Seq<char>,
    pub created_at: i64,
}

impl View for CharacterRecord {
    type V = CharacterView;

    open spec fn view(&self) -> CharacterView {
        CharacterView {
            character_id: self.character_id,
            account_username: self.account_username@,
            name: self.name@,
            created_at: self.created_at,
        }
    }
}

/// What a successful authentication reports: the account name and its
/// characters.
#[derive(Debug, Clone, PartialEq)]
pub struct AccountInfo {
    pub username: String,
    pub characters: Vec<CharacterRecord>,
}

/// Mathematical view of [`AccountInfo`].
pub ghost struct AccountInfoView {
    pub username: Seq<char>,
    pub characters: Seq<CharacterView>,
}

impl View for AccountInfo {
    type V = AccountInfoView;

    open spec fn view(&self) -> AccountInfoView {
        AccountInfoView {
            username: self.username@,
            characters: self.characters@.map_values(|c: CharacterRecord| c@),
        }
    }
}

/// Mathematical view of a [`Chunk`] as carried in a message.
pub ghost struct ChunkView {
    pub pos: ChunkPos,
    pub size: usize,
    pub tiles: Seq<Tile>,
}

impl View for Chunk {
    type V = ChunkView;

    open spec fn view(&self) -> ChunkView {
        ChunkView { pos: self.pos, size: self.size, tiles: self.tiles@ }
    }
}

/// Everything a client may send on the control stream.
#[derive(Debug, Clone, PartialEq)]
pub enum ClientControlStreamMessage {
    ConnectionRequest,
    CreateAccount(AccountCredentials),
    Login(AccountCredentials),
    CreateCharacter(String),
    SelectCharacter(i64),
    JoinWorldRequest,
}

/// Mathematical view of [`ClientControlStreamMessage`].
pub ghost enum ClientMsgView {
    ConnectionRequest,
    CreateAccount(CredView),
    Login(CredView),
    CreateCharacter(Seq<char>),
    SelectCharacter(i64),
    JoinWorldRequest,
}

impl View for ClientControlStreamMessage {
    type V = ClientMsgView;

    open spec fn view(&self) -> ClientMsgView {
        match self {
            ClientControlStreamMessage::ConnectionRequest => ClientMsgView::ConnectionRequest,
            ClientControlStreamMessage::CreateAccount(c) => ClientMsgView::CreateAccount(c@),
            ClientControlStreamMessage::Login(c) => ClientMsgView::Login(c@),
            ClientControlStreamMessage::CreateCharacter(n) => ClientMsgView::CreateCharacter(n@),
            ClientControlStreamMessage::SelectCharacter(id) => ClientMsgView::SelectCharacter(*id),
            ClientControlStreamMessage::JoinWorldRequest => ClientMsgView::JoinWorldRequest,
        }
    }
}

/// Everything the server may send back on the control stream.
#[derive(Debug, Clone, PartialEq)]
pub enum ServerControlStreamMessage {
    Connected,
    Disconnected(String),
    Authenticated(AccountInfo),
    LoginDenied(String),
    AccountCreateDenied(String),
    CharacterSelected(i64),
    CharacterDenied(String),
    InitialWorld { chunks: Vec<(ChunkPos, Chunk)> },
}

/// Mathematical view of [`ServerControlStreamMessage`].
pub ghost enum ServerMsgView {
    Connected,
    Disconnected(Seq<char>),
    Authenticated(AccountInfoView),
    LoginDenied(Seq<char>),
    AccountCreateDenied(Seq<char>),
    CharacterSelected(i64),
    CharacterDenied(Seq<char>),
    InitialWorld(Seq<(ChunkPos, ChunkView)>),
}

impl View for ServerControlStreamMessage {
    type V = ServerMsgView;

    open spec fn view(&self) -> ServerMsgView {
        match self {
            ServerControlStreamMessage::Connected => ServerMsgView::Connected,
            ServerControlStreamMessage::Disconnected(r) => ServerMsgView::Disconnected(r@),
            ServerControlStreamMessage::Authenticated(a) => ServerMsgView::Authenticated(a@),
            ServerControlStreamMessage::LoginDenied(r) => ServerMsgView::LoginDenied(r@),
            ServerControlStreamMessage::AccountCreateDenied(r) => ServerMsgView::AccountCreateDenied(r@),
            ServerControlStreamMessage::CharacterSelected(id) => ServerMsgView::CharacterSelected(*id),
            ServerControlStreamMessage::CharacterDenied(r) => ServerMsgView::CharacterDenied(r@),
            ServerControlStreamMessage::InitialWorld { chunks } => ServerMsgView::InitialWorld(
                chunks@.map_values(|e: (ChunkPos, Chunk)| (e.0, e.1@)),
            ),
        }
    }
}

} // verus!
