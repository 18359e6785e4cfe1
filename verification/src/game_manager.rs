//! The per-connection protocol logic: authentication, account and character
//! handling, and the world-join reply, driven by one message at a time.

use vstd::prelude::*;
use crate::account_store::{Account, AccountStore, spec_characters_of};
use crate::chunk_manager::{ChunkManager, INITIAL_RADIUS, within_chebyshev};
use crate::messages::{
    AccountCredentials, AccountInfo, ClientControlStreamMessage, ServerControlStreamMessage,
};
use crate::password::{bcrypt_digest_ok, bcrypt_verifies, hash_password, verify_password};
use crate::pos::ChunkPos;
use crate::session::{AuthState, ServerSession};

verus! {

/// The chunk every client spawns into.
pub open spec fn spawn_chunk() -> ChunkPos {
    ChunkPos { x: 0, y: 0 }
}

/// The digest stored for `username`; meaningful when the store holds the
/// account (usernames are unique under `wf`).
pub open spec fn account_digest(store: AccountStore, username: Seq<char>) -> Seq<char> {
    let i = choose|i: int|
        0 <= i < store.accounts@.len() && (#[trigger] store.accounts@[i]).username@ == username;
    store.accounts@[i].password_hash@
}

/// The reply to a world join: an initial-world message whose chunk list
/// covers the square of Chebyshev radius `INITIAL_RADIUS` around the spawn
/// chunk exactly, with no duplicates, each chunk at its named position.
pub open spec fn covers_spawn_area(r: ServerControlStreamMessage) -> bool {
    r matches ServerControlStreamMessage::InitialWorld { chunks } && {
        &&& forall|p: ChunkPos|
            within_chebyshev(p, spawn_chunk(), INITIAL_RADIUS as int)
                <==> exists|k: int| 0 <= k < chunks@.len() && (#[trigger] chunks@[k]).0 == p
        &&& forall|k1: int, k2: int| 0 <= k1 < k2 < chunks@.len()
            ==> (#[trigger] chunks@[k1]).0 != (#[trigger] chunks@[k2]).0
        &&& forall|k: int| 0 <= k < chunks@.len()
            ==> (#[trigger] chunks@[k]).1.pos == chunks@[k].0
    }
}

/// Owns the account store and the chunk store; one instance serves every
/// session.
pub struct GameManager {
    pub store: AccountStore,
    pub chunk_manager: ChunkManager,
}

impl GameManager {
    pub open spec fn wf(&self) -> bool {
        &&& self.store.wf()
        &&& self.chunk_manager.wf()
    }

    pub fn new(store: AccountStore, chunk_manager: ChunkManager) -> (r: Self)
        ensures
            r.store == store,
            r.chunk_manager == chunk_manager,
    {
        Self { store, chunk_manager }
    }

    /// Look the account up and verify the password digest. On success the
    /// session becomes `Authenticated` and the reply carries the account's
    /// characters; a missing account or a failed verification rejects the
    /// session, and a wrong password never authenticates it.
    pub fn login(
        &self,
        credentials: AccountCredentials,
        session: &mut ServerSession,
    ) -> (r: ServerControlStreamMessage)
        requires
            self.store.wf(),
        ensures
            final(session).addr == old(session).addr,
            final(session).role == old(session).role,
            final(session).control_stream_opened == old(session).control_stream_opened,
            final(session).selected_character == old(session).selected_character,
            r matches ServerControlStreamMessage::Authenticated(_)
                || r matches ServerControlStreamMessage::LoginDenied(_),
            !self.store.has_account(credentials.username@) ==> {
                &&& r matches ServerControlStreamMessage::LoginDenied(m) && m@ == "Account does not exist"@
            },
            self.store.has_account(credentials.username@)
                && !bcrypt_verifies(credentials.user_password@, account_digest(self.store, credentials.username@))
                ==> r matches ServerControlStreamMessage::LoginDenied(_),
            self.store.has_account(credentials.username@)
                && bcrypt_digest_ok(account_digest(self.store, credentials.username@))
                && bcrypt_verifies(credentials.user_password@, account_digest(self.store, credentials.username@))
                ==> r matches ServerControlStreamMessage::Authenticated(_),
            self.store.has_account(credentials.username@)
                && bcrypt_digest_ok(account_digest(self.store, credentials.username@))
                && !bcrypt_verifies(credentials.user_password@, account_digest(self.store, credentials.username@))
                ==> {
                &&& r matches ServerControlStreamMessage::LoginDenied(m) && m@ == "Invalid Password"@
            },
            r matches ServerControlStreamMessage::LoginDenied(m) ==> {
                &&& m@.len() > 0
                &&& final(session).auth matches AuthState::Rejected(m2) && m2@ == m@
            },
            r matches ServerControlStreamMessage::Authenticated(info) ==> {
                &&& self.store.has_account(credentials.username@)
                &&& bcrypt_verifies(credentials.user_password@, account_digest(self.store, credentials.username@))
                &&& final(session).auth matches AuthState::Authenticated { username }
                    && username@ == credentials.username@
                &&& info.username@ == credentials.username@
                &&& info.characters@ == spec_characters_of(self.store.characters@, credentials.username@)
            },
    {
        proof {
            reveal_strlit("Account does not exist");
            reveal_strlit("Invalid Password");
            reveal_strlit("Password verification failed: ");
        }
        let account_index = match self.store.find_account(&credentials.username) {
            None => {
                let msg = String::from_str("Account does not exist");
                session.auth = AuthState::Rejected(msg.clone());
                return ServerControlStreamMessage::LoginDenied(msg);
            }
            Some(i) => i,
        };
        proof {
            let j = choose|j: int|
                0 <= j < self.store.accounts@.len()
                    && (#[trigger] self.store.accounts@[j]).username@ == credentials.username@;
            assert(j == account_index as int);
        }
        match verify_password(&credentials.user_password, &self.store.accounts[account_index].password_hash) {
            Ok(true) => {
                let characters = self.store.characters_for_account(&credentials.username);
                session.auth = AuthState::Authenticated { username: credentials.username.clone() };
                ServerControlStreamMessage::Authenticated(AccountInfo {
                    username: credentials.username,
                    characters,
                })
            }
            Ok(false) => {
                let msg = String::from_str("Invalid Password");
                session.auth = AuthState::Rejected(msg.clone());
                ServerControlStreamMessage::LoginDenied(msg)
            }
            Err(e) => {
                let msg = String::from_str("Password verification failed: ").concat(e.as_str());
                session.auth = AuthState::Rejected(msg.clone());
                ServerControlStreamMessage::LoginDenied(msg)
            }
        }
    }

    /// Create an account: refused when the username is taken (the store is
    /// left without a duplicate row) or when hashing fails; otherwise the
    /// account is inserted and the session authenticated, with an empty
    /// character list in the reply.
    pub fn create(
        &mut self,
        credentials: AccountCredentials,
        created_at: i64,
        session: &mut ServerSession,
    ) -> (r: ServerControlStreamMessage)
        requires
            old(self).wf(),
        ensures
            final(self).wf(),
            final(self).chunk_manager == old(self).chunk_manager,
            final(self).store.characters@ == old(self).store.characters@,
            final(session).addr == old(session).addr,
            final(session).role == old(session).role,
            final(session).control_stream_opened == old(session).control_stream_opened,
            final(session).selected_character == old(session).selected_character,
            r matches ServerControlStreamMessage::Authenticated(_)
                || r matches ServerControlStreamMessage::AccountCreateDenied(_),
            old(self).store.has_account(credentials.username@) ==> {
                &&& r matches ServerControlStreamMessage::AccountCreateDenied(m)
                    && m@ == "Account already exists"@
                &&& final(self).store.same_state(&old(self).store)
            },
            r matches ServerControlStreamMessage::AccountCreateDenied(m) ==> {
                &&& m@.len() > 0
                &&& final(session).auth matches AuthState::Rejected(m2) && m2@ == m@
                &&& final(self).store.same_state(&old(self).store)
            },
            r matches ServerControlStreamMessage::Authenticated(info) ==> {
                &&& !old(self).store.has_account(credentials.username@)
                &&& final(session).auth matches AuthState::Authenticated { username }
                    && username@ == credentials.username@
                &&& info.username@ == credentials.username@
                &&& info.characters@.len() == 0
                &&& final(self).store.accounts@.len() == old(self).store.accounts@.len() + 1
                &&& final(self).store.has_account(credentials.username@)
                &&& forall|u: Seq<char>| final(self).store.has_account(u)
                    <==> (old(self).store.has_account(u) || u == credentials.username@)
                &&& bcrypt_verifies(credentials.user_password@,
                    account_digest(final(self).store, credentials.username@))
                &&& bcrypt_digest_ok(account_digest(final(self).store, credentials.username@))
            },
    {
        proof {
            reveal_strlit("Account already exists");
            reveal_strlit("Password hash failed: ");
            reveal_strlit("Failed to create account: ");
        }
        match self.store.find_account(&credentials.username) {
            Some(_) => {
                let msg = String::from_str("Account already exists");
                session.auth = AuthState::Rejected(msg.clone());
                ServerControlStreamMessage::AccountCreateDenied(msg)
            }
            None => {
                let password_hash = match hash_password(&credentials.user_password) {
                    Ok(h) => h,
                    Err(e) => {
                        let msg = String::from_str("Password hash failed: ").concat(e.as_str());
                        session.auth = AuthState::Rejected(msg.clone());
                        return ServerControlStreamMessage::AccountCreateDenied(msg);
                    }
                };
                let ghost digest_view = password_hash@;
                let account = Account {
                    username: credentials.username.clone(),
                    password_hash,
                    created_at,
                };
                match self.store.insert_account(account) {
                    Ok(()) => {
                        session.auth = AuthState::Authenticated {
                            username: credentials.username.clone(),
                        };
                        proof {
                            let accounts = self.store.accounts@;
                            let j = choose|j: int|
                                0 <= j < accounts.len()
                                    && (#[trigger] accounts[j]).username@ == credentials.username@;
                            assert(accounts[accounts.len() - 1].username@ == credentials.username@);
                            assert(j == accounts.len() - 1);
                            assert(account_digest(self.store, credentials.username@) == digest_view);
                        }
                        ServerControlStreamMessage::Authenticated(AccountInfo {
                            username: credentials.username,
                            characters: Vec::new(),
                        })
                    }
                    Err(e) => {
                        let msg = String::from_str("Failed to create account: ").concat(e.as_str());
                        session.auth = AuthState::Rejected(msg.clone());
                        ServerControlStreamMessage::AccountCreateDenied(msg)
                    }
                }
            }
        }
    }

    /// Insert a character owned by `username` under a fresh id; the reply
    /// names the id. Refused when the account is missing; the session's
    /// state is never changed, so creation may be retried.
    pub fn create_character(
        &mut self,
        username: String,
        character_name: String,
        created_at: i64,
    ) -> (r: ServerControlStreamMessage)
        requires
            old(self).wf(),
        ensures
            final(self).wf(),
            final(self).chunk_manager == old(self).chunk_manager,
            final(self).store.accounts@ == old(self).store.accounts@,
            !old(self).store.has_account(username@) ==> {
                &&& r matches ServerControlStreamMessage::CharacterDenied(m)
                    && m@ == "Account does not exist"@
                &&& final(self).store.same_state(&old(self).store)
            },
            old(self).store.has_account(username@)
                && old(self).store.next_character_id < i64::MAX ==> {
                &&& r matches ServerControlStreamMessage::CharacterSelected(_)
            },
            r matches ServerControlStreamMessage::CharacterSelected(id) ==> {
                &&& id == old(self).store.next_character_id
                &&& final(self).store.characters@.len() == old(self).store.characters@.len() + 1
                &&& final(self).store.has_character(username@, id)
                &&& final(self).store.characters@.last().name@ == character_name@
                &&& final(self).store.characters@.last().created_at == created_at
                &&& final(self).store.characters@.drop_last() == old(self).store.characters@
            },
            r matches ServerControlStreamMessage::CharacterSelected(_)
                || r matches ServerControlStreamMessage::CharacterDenied(_),
            r matches ServerControlStreamMessage::CharacterDenied(m)
                ==> final(self).store.same_state(&old(self).store) && m@.len() > 0,
    {
        proof {
            reveal_strlit("Account does not exist");
            reveal_strlit("Failed to create character: ");
        }
        match self.store.find_account(&username) {
            None => {
                return ServerControlStreamMessage::CharacterDenied(
                    String::from_str("Account does not exist"),
                );
            }
            Some(_) => {}
        }
        match self.store.insert_character(&username, &character_name, created_at) {
            Ok(record) => {
                proof {
                    let cs = self.store.characters@;
                    assert(cs.drop_last() =~= old(self).store.characters@);
                    assert(cs[cs.len() - 1].character_id == old(self).store.next_character_id);
                }
                ServerControlStreamMessage::CharacterSelected(record.character_id)
            }
            Err(e) => ServerControlStreamMessage::CharacterDenied(
                String::from_str("Failed to create character: ").concat(e.as_str()),
            ),
        }
    }

    /// Verify that the character belongs to `username`: the reply confirms
    /// the id exactly when the store holds such a row; a character owned by
    /// a different account is not found, and nothing changes either way.
    pub fn select_character(&self, username: &String, character_id: i64) -> (r: ServerControlStreamMessage)
        ensures
            self.store.has_character(username@, character_id) ==> {
                &&& r matches ServerControlStreamMessage::CharacterSelected(id) && id == character_id
            },
            !self.store.has_character(username@, character_id) ==> {
                &&& r matches ServerControlStreamMessage::CharacterDenied(m)
                    && m@ == "Could not find character"@ && m@.len() > 0
            },
    {
        proof {
            reveal_strlit("Could not find character");
        }
        match self.store.find_character(username, character_id) {
            Some(i) => {
                let id = self.store.characters[i].character_id;
                ServerControlStreamMessage::CharacterSelected(id)
            }
            None => ServerControlStreamMessage::CharacterDenied(
                String::from_str("Could not find character"),
            ),
        }
    }

    /// One step of the control-stream protocol: dispatch one inbound message
    /// against the session's current state, reply exactly once, and perform
    /// at most one store change. Messages that need authentication are
    /// denied with "not authenticated" when the session has none, and the
    /// session is left as it was.
    #[verifier::spinoff_prover]
    #[verifier::rlimit(100)]
    pub fn handle_control_message(
        &mut self,
        session: &mut ServerSession,
        msg: ClientControlStreamMessage,
        created_at: i64,
    ) -> (r: ServerControlStreamMessage)
        requires
            old(self).wf(),
        ensures
            final(self).wf(),
            final(session).addr == old(session).addr,
            final(session).role == old(session).role,
            final(session).control_stream_opened == old(session).control_stream_opened,
            r matches ServerControlStreamMessage::LoginDenied(m) ==> m@.len() > 0,
            r matches ServerControlStreamMessage::AccountCreateDenied(m) ==> m@.len() > 0,
            r matches ServerControlStreamMessage::CharacterDenied(m) ==> m@.len() > 0,
            msg matches ClientControlStreamMessage::ConnectionRequest ==> {
                &&& r matches ServerControlStreamMessage::Connected
                &&& *final(session) == *old(session)
                &&& final(self).store.same_state(&old(self).store)
                &&& final(self).chunk_manager == old(self).chunk_manager
            },
            msg matches ClientControlStreamMessage::Login(c) ==> {
                &&& final(self).store.same_state(&old(self).store)
                &&& final(self).chunk_manager == old(self).chunk_manager
                &&& final(session).selected_character == old(session).selected_character
                &&& if (old(session).auth matches AuthState::WaitingForCredentials) {
                    &&& (r matches ServerControlStreamMessage::Authenticated(_)
                        || r matches ServerControlStreamMessage::LoginDenied(_))
                    &&& !old(self).store.has_account(c.username@)
                        ==> (r matches ServerControlStreamMessage::LoginDenied(_))
                    &&& old(self).store.has_account(c.username@)
                        && !bcrypt_verifies(c.user_password@, account_digest(old(self).store, c.username@))
                        ==> (r matches ServerControlStreamMessage::LoginDenied(_))
                    &&& old(self).store.has_account(c.username@)
                        && bcrypt_digest_ok(account_digest(old(self).store, c.username@))
                        && bcrypt_verifies(c.user_password@, account_digest(old(self).store, c.username@))
                        ==> (r matches ServerControlStreamMessage::Authenticated(_))
                    &&& old(self).store.has_account(c.username@)
                        && bcrypt_digest_ok(account_digest(old(self).store, c.username@))
                        && !bcrypt_verifies(c.user_password@, account_digest(old(self).store, c.username@))
                        ==> {
                        &&& r matches ServerControlStreamMessage::LoginDenied(m)
                            && m@ == "Invalid Password"@
                    }
                    &&& r matches ServerControlStreamMessage::LoginDenied(m) ==> {
                        &&& final(session).auth matches AuthState::Rejected(m2) && m2@ == m@
                    }
                    &&& r matches ServerControlStreamMessage::Authenticated(info) ==> {
                        &&& bcrypt_verifies(c.user_password@, account_digest(old(self).store, c.username@))
                        &&& final(session).auth matches AuthState::Authenticated { username }
                            && username@ == c.username@
                        &&& info.username@ == c.username@
                        &&& info.characters@ == spec_characters_of(old(self).store.characters@, c.username@)
                    }
                } else {
                    &&& r matches ServerControlStreamMessage::LoginDenied(m)
                        && m@ == "not waiting for credentials"@
                    &&& *final(session) == *old(session)
                }
            },
            msg matches ClientControlStreamMessage::CreateAccount(c) ==> {
                &&& final(self).chunk_manager == old(self).chunk_manager
                &&& final(self).store.characters@ == old(self).store.characters@
                &&& final(session).selected_character == old(session).selected_character
                &&& if (old(session).auth matches AuthState::WaitingForCredentials) {
                    &&& (r matches ServerControlStreamMessage::Authenticated(_)
                        || r matches ServerControlStreamMessage::AccountCreateDenied(_))
                    &&& old(self).store.has_account(c.username@) ==> {
                        &&& r matches ServerControlStreamMessage::AccountCreateDenied(m)
                            && m@ == "Account already exists"@
                        &&& final(self).store.same_state(&old(self).store)
                    }
                    &&& r matches ServerControlStreamMessage::AccountCreateDenied(_)
                        ==> final(self).store.same_state(&old(self).store)
                            && (final(session).auth matches AuthState::Rejected(_))
                    &&& r matches ServerControlStreamMessage::Authenticated(info) ==> {
                        &&& !old(self).store.has_account(c.username@)
                        &&& final(session).auth matches AuthState::Authenticated { username }
                            && username@ == c.username@
                        &&& info.characters@.len() == 0
                        &&& forall|u: Seq<char>| final(self).store.has_account(u)
                            <==> (old(self).store.has_account(u) || u == c.username@)
                    }
                } else {
                    &&& r matches ServerControlStreamMessage::AccountCreateDenied(m)
                        && m@ == "not waiting for credentials"@
                    &&& *final(session) == *old(session)
                    &&& final(self).store.same_state(&old(self).store)
                }
            },
            msg matches ClientControlStreamMessage::CreateCharacter(name) ==> {
                &&& final(self).chunk_manager == old(self).chunk_manager
                &&& final(self).store.accounts@ == old(self).store.accounts@
                &&& final(session).auth == old(session).auth
                &&& (old(session).auth matches AuthState::Authenticated { username } ==> {
                    &&& (r matches ServerControlStreamMessage::CharacterSelected(id) ==> {
                        &&& final(self).store.characters@.len() == old(self).store.characters@.len() + 1
                        &&& final(self).store.has_character(username@, id)
                        &&& final(self).store.characters@.last().name@ == name@
                        &&& final(session).selected_character == Some(id)
                    })
                    &&& (r matches ServerControlStreamMessage::CharacterDenied(_) ==> {
                        &&& final(self).store.same_state(&old(self).store)
                        &&& *final(session) == *old(session)
                    })
                    &&& (r matches ServerControlStreamMessage::CharacterSelected(_)
                        || r matches ServerControlStreamMessage::CharacterDenied(_))
                })
                &&& !(old(session).auth matches AuthState::Authenticated { .. }) ==> {
                    &&& r matches ServerControlStreamMessage::CharacterDenied(m)
                        && m@ == "not authenticated"@
                    &&& *final(session) == *old(session)
                    &&& final(self).store.same_state(&old(self).store)
                }
            },
            msg matches ClientControlStreamMessage::SelectCharacter(id) ==> {
                &&& final(self).chunk_manager == old(self).chunk_manager
                &&& final(self).store.same_state(&old(self).store)
                &&& final(session).auth == old(session).auth
                &&& (old(session).auth matches AuthState::Authenticated { username } ==> {
                    &&& (old(self).store.has_character(username@, id) ==> {
                        &&& r matches ServerControlStreamMessage::CharacterSelected(rid) && rid == id
                        &&& final(session).selected_character == Some(id)
                    })
                    &&& (!old(self).store.has_character(username@, id) ==> {
                        &&& r matches ServerControlStreamMessage::CharacterDenied(m)
                            && m@ == "Could not find character"@
                        &&& *final(session) == *old(session)
                    })
                })
                &&& !(old(session).auth matches AuthState::Authenticated { .. }) ==> {
                    &&& r matches ServerControlStreamMessage::CharacterDenied(m)
                        && m@ == "not authenticated"@
                    &&& *final(session) == *old(session)
                }
            },
            msg matches ClientControlStreamMessage::JoinWorldRequest ==> {
                &&& final(self).store.same_state(&old(self).store)
                &&& *final(session) == *old(session)
                &&& !(old(session).auth matches AuthState::Authenticated { .. }) ==> {
                    &&& r matches ServerControlStreamMessage::CharacterDenied(m)
                        && m@ == "not authenticated"@
                    &&& final(self).chunk_manager == old(self).chunk_manager
                }
                &&& ((old(session).auth matches AuthState::Authenticated { .. })
                    && old(session).selected_character is None) ==> {
                    &&& r matches ServerControlStreamMessage::CharacterDenied(m)
                        && m@ == "no character selected"@
                    &&& final(self).chunk_manager == old(self).chunk_manager
                }
                &&& ((old(session).auth matches AuthState::Authenticated { .. })
                    && old(session).selected_character is Some) ==> covers_spawn_area(r)
            },
    {
        proof {
            reveal_strlit("not waiting for credentials");
            reveal_strlit("not authenticated");
            reveal_strlit("no character selected");
        }
        match msg {
            ClientControlStreamMessage::ConnectionRequest => ServerControlStreamMessage::Connected,
            ClientControlStreamMessage::Login(credentials) => {
                let waiting = match &session.auth {
                    AuthState::WaitingForCredentials => true,
                    _ => false,
                };
                if waiting {
                    self.login(credentials, session)
                } else {
                    ServerControlStreamMessage::LoginDenied(
                        String::from_str("not waiting for credentials"),
                    )
                }
            }
            ClientControlStreamMessage::CreateAccount(credentials) => {
                let waiting = match &session.auth {
                    AuthState::WaitingForCredentials => true,
                    _ => false,
                };
                if waiting {
                    self.create(credentials, created_at, session)
                } else {
                    ServerControlStreamMessage::AccountCreateDenied(
                        String::from_str("not waiting for credentials"),
                    )
                }
            }
            ClientControlStreamMessage::CreateCharacter(name) => {
                let username = match &session.auth {
                    AuthState::Authenticated { username } => Some(username.clone()),
                    _ => None,
                };
                match username {
                    Some(username) => {
                        let reply = self.create_character(username, name, created_at);
                        match &reply {
                            ServerControlStreamMessage::CharacterSelected(id) => {
                                session.selected_character = Some(*id);
                            }
                            _ => {}
                        }
                        reply
                    }
                    None => ServerControlStreamMessage::CharacterDenied(
                        String::from_str("not authenticated"),
                    ),
                }
            }
            ClientControlStreamMessage::SelectCharacter(id) => {
                let username = match &session.auth {
                    AuthState::Authenticated { username } => Some(username.clone()),
                    _ => None,
                };
                match username {
                    Some(username) => {
                        let reply = self.select_character(&username, id);
                        match &reply {
                            ServerControlStreamMessage::CharacterSelected(rid) => {
                                session.selected_character = Some(*rid);
                            }
                            _ => {}
                        }
                        reply
                    }
                    None => ServerControlStreamMessage::CharacterDenied(
                        String::from_str("not authenticated"),
                    ),
                }
            }
            ClientControlStreamMessage::JoinWorldRequest => {
                let authenticated = match &session.auth {
                    AuthState::Authenticated { .. } => true,
                    _ => false,
                };
                if !authenticated {
                    return ServerControlStreamMessage::CharacterDenied(
                        String::from_str("not authenticated"),
                    );
                }
                let selected = match &session.selected_character {
                    Some(_) => true,
                    None => false,
                };
                if !selected {
                    return ServerControlStreamMessage::CharacterDenied(
                        String::from_str("no character selected"),
                    );
                }
                let spawn = ChunkPos { x: 0, y: 0 };
                let chunks = self.chunk_manager.get_chunks_radius(spawn, INITIAL_RADIUS);
                let ghost cs = chunks@;
                proof {
                    assert(spawn == spawn_chunk());
                    assert(forall|p: ChunkPos|
                        within_chebyshev(p, spawn_chunk(), INITIAL_RADIUS as int)
                            <==> exists|k: int| 0 <= k < cs.len() && (#[trigger] cs[k]).0 == p);
                    assert(forall|k1: int, k2: int| 0 <= k1 < k2 < cs.len()
                        ==> (#[trigger] cs[k1]).0 != (#[trigger] cs[k2]).0);
                    assert(forall|k: int| 0 <= k < cs.len()
                        ==> (#[trigger] cs[k]).1.pos == cs[k].0);
                }
                let reply = ServerControlStreamMessage::InitialWorld { chunks };
                proof {
                    assert(reply matches ServerControlStreamMessage::InitialWorld { chunks: c2 }
                        && c2@ == cs);
                    assert(covers_spawn_area(reply));
                }
                reply
            }
        }
    }
}

} // verus!