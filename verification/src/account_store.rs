//! The account store: accounts and characters, behind the same interface
//! the persistence collaborator offers (lookup, insert, list), held in
//! memory and passed in as a dependency.

use vstd::prelude::*;
use crate::messages::CharacterRecord;

verus! {

/// One account row: unique username, password digest, creation time
/// (seconds since the epoch).
#[derive(Debug, Clone, PartialEq)]
pub struct Account {
    pub username: String,
    pub password_hash: String,
    pub created_at: i64,
}

impl CharacterRecord {
    /// A field-for-field copy of this record.
    pub fn duplicate(&self) -> (r: Self)
        ensures
            r == *self,
    {
        CharacterRecord {
            character_id: self.character_id,
            account_username: self.account_username.clone(),
            name: self.name.clone(),
            created_at: self.created_at,
        }
    }
}

/// The records of `s` owned by `username`, in store order.
pub open spec fn spec_characters_of(s: Seq<CharacterRecord>, username: Seq<char>) -> Seq<CharacterRecord>
    decreases s.len(),
{
    if s.len() == 0 {
        Seq::empty()
    } else {
        let pre = spec_characters_of(s.drop_last(), username);
        if s.last().account_username@ == username {
            pre.push(s.last())
        } else {
            pre
        }
    }
}

/// Accounts keyed by username, characters keyed by generated id.
pub struct AccountStore {
    pub accounts: Vec<Account>,
    pub characters: Vec<CharacterRecord>,
    pub next_character_id: i64,
}

impl AccountStore {
    /// The two stores hold the same rows and the same next id.
    pub open spec fn same_state(&self, other: &AccountStore) -> bool {
        &&& self.accounts@ == other.accounts@
        &&& self.characters@ == other.characters@
        &&& self.next_character_id == other.next_character_id
    }

    /// Usernames unique; character ids unique and below the next free id.
    pub open spec fn wf(&self) -> bool {
        &&& forall|i: int, j: int|
            0 <= i < j < self.accounts@.len()
                ==> (#[trigger] self.accounts@[i]).username@ != (#[trigger] self.accounts@[j]).username@
        &&& forall|i: int, j: int|
            0 <= i < j < self.characters@.len()
                ==> (#[trigger] self.characters@[i]).character_id != (#[trigger] self.characters@[j]).character_id
        &&& forall|i: int| 0 <= i < self.characters@.len()
            ==> (#[trigger] self.characters@[i]).character_id < self.next_character_id
        &&& self.next_character_id >= 1
    }

    /// The store holds an account under `username`.
    pub open spec fn has_account(&self, username: Seq<char>) -> bool {
        exists|i: int| 0 <= i < self.accounts@.len() && (#[trigger] self.accounts@[i]).username@ == username
    }

    /// The store holds a character with id `id` owned by `username`.
    pub open spec fn has_character(&self, username: Seq<char>, id: i64) -> bool {
        exists|i: int|
            0 <= i < self.characters@.len() && (#[trigger] self.characters@[i]).character_id == id
                && self.characters@[i].account_username@ == username
    }

    pub fn new() -> (r: Self)
        ensures
            r.wf(),
            r.accounts@.len() == 0,
            r.characters@.len() == 0,
    {
        Self { accounts: Vec::new(), characters: Vec::new(), next_character_id: 1 }
    }

    /// Index of the account under `username`, if the store holds one.
    pub fn find_account(&self, username: &String) -> (r: Option<usize>)
        ensures
            match r {
                Some(i) => i < self.accounts@.len() && self.accounts@[i as int].username@ == username@,
                None => !self.has_account(username@),
            },
    {
        let mut i: usize = 0;
        while i < self.accounts.len()
            invariant
                i <= self.accounts@.len(),
                forall|k: int| 0 <= k < i ==> (#[trigger] self.accounts@[k]).username@ != username@,
            decreases self.accounts@.len() - i,
        {
            if self.accounts[i].username == *username {
                return Some(i);
            }
            i += 1;
        }
        None
    }

    /// Insert a new account row; refused exactly when the username is
    /// taken, and then nothing changes.
    pub fn insert_account(&mut self, account: Account) -> (r: Result<(), String>)
        requires
            old(self).wf(),
        ensures
            final(self).wf(),
            old(self).has_account(account.username@) ==> {
                &&& r is Err
                &&& final(self).accounts@ == old(self).accounts@
            },
            !old(self).has_account(account.username@) ==> {
                &&& r is Ok
                &&& final(self).accounts@ == old(self).accounts@.push(account)
            },
            final(self).characters@ == old(self).characters@,
            final(self).next_character_id == old(self).next_character_id,
            forall|u: Seq<char>| final(self).has_account(u)
                <==> (old(self).has_account(u) || (r is Ok && u == account.username@)),
    {
        let ghost pre = self.accounts@;
        match self.find_account(&account.username) {
            Some(_) => Err(String::from_str("Account already exists")),
            None => {
                self.accounts.push(account);
                proof {
                    assert forall|u: Seq<char>| final(self).has_account(u)
                        implies (old(self).has_account(u) || u == account.username@) by {
                        let k = choose|k: int|
                            0 <= k < self.accounts@.len() && (#[trigger] self.accounts@[k]).username@ == u;
                        if k < pre.len() {
                            assert(pre[k].username@ == u);
                        }
                    }
                    assert forall|u: Seq<char>| (old(self).has_account(u) || u == account.username@)
                        implies final(self).has_account(u) by {
                        if old(self).has_account(u) {
                            let k = choose|k: int| 0 <= k < pre.len() && (#[trigger] pre[k]).username@ == u;
                            assert(self.accounts@[k].username@ == u);
                        } else {
                            assert(self.accounts@[pre.len() as int].username@ == u);
                        }
                    }
                }
                Ok(())
            }
        }
    }

    /// Every character owned by `username`, in store order.
    pub fn characters_for_account(&self, username: &String) -> (r: Vec<CharacterRecord>)
        ensures
            r@ == spec_characters_of(self.characters@, username@),
    {
        let mut out: Vec<CharacterRecord> = Vec::new();
        let mut i: usize = 0;
        while i < self.characters.len()
            invariant
                i <= self.characters@.len(),
                out@ == spec_characters_of(self.characters@.take(i as int), username@),
            decreases self.characters@.len() - i,
        {
            let ghost pre = out@;
            if self.characters[i].account_username == *username {
                out.push(self.characters[i].duplicate());
            }
            proof {
                let t = self.characters@.take(i + 1int);
                assert(t.drop_last() =~= self.characters@.take(i as int));
                assert(t.last() == self.characters@[i as int]);
            }
            i += 1;
        }
        proof {
            assert(self.characters@.take(self.characters@.len() as int) =~= self.characters@);
        }
        out
    }

    /// Index of the character with `id` owned by `username`, if any. A
    /// character owned by someone else is not found.
    pub fn find_character(&self, username: &String, id: i64) -> (r: Option<usize>)
        ensures
            match r {
                Some(i) => {
                    &&& i < self.characters@.len()
                    &&& self.characters@[i as int].character_id == id
                    &&& self.characters@[i as int].account_username@ == username@
                },
                None => !self.has_character(username@, id),
            },
    {
        let mut i: usize = 0;
        while i < self.characters.len()
            invariant
                i <= self.characters@.len(),
                forall|k: int| 0 <= k < i
                    ==> !((#[trigger] self.characters@[k]).character_id == id
                        && self.characters@[k].account_username@ == username@),
            decreases self.characters@.len() - i,
        {
            if self.characters[i].character_id == id && self.characters[i].account_username == *username {
                return Some(i);
            }
            i += 1;
        }
        None
    }

    /// Insert a character row owned by `account_username` under a fresh id;
    /// refused only when the id space is exhausted, and then nothing
    /// changes.
    pub fn insert_character(
        &mut self,
        account_username: &String,
        name: &String,
        created_at: i64,
    ) -> (r: Result<CharacterRecord, String>)
        requires
            old(self).wf(),
        ensures
            final(self).wf(),
            final(self).accounts@ == old(self).accounts@,
            old(self).next_character_id == i64::MAX ==> {
                &&& r is Err
                &&& final(self).characters@ == old(self).characters@
                &&& final(self).next_character_id == old(self).next_character_id
            },
            old(self).next_character_id < i64::MAX ==> {
                &&& r matches Ok(c)
                &&& final(self).characters@ == old(self).characters@.push(c)
                &&& c.character_id == old(self).next_character_id
                &&& c.account_username@ == account_username@
                &&& c.name@ == name@
                &&& c.created_at == created_at
                &&& final(self).next_character_id == old(self).next_character_id + 1
            },
    {
        if self.next_character_id == i64::MAX {
            return Err(String::from_str("character id space exhausted"));
        }
        let record = CharacterRecord {
            character_id: self.next_character_id,
            account_username: account_username.clone(),
            name: name.clone(),
            created_at,
        };
        let result = record.duplicate();
        self.characters.push(record);
        self.next_character_id = self.next_character_id + 1;
        Ok(result)
    }
}

} // verus!
