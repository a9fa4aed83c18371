//! The credential store: a flat keyed collection of users with signup and
//! signin. The stored credential is the raw submitted password, compared
//! directly on signin, and the contracts say so openly; empty input,
//! duplicate usernames, unknown usernames and mismatched passwords each
//! surface their own error.

use vstd::prelude::*;

use crate::text::{blank, is_blank};

verus! {

/// A registered user.
pub struct User {
    username: String,
    password_hash: String,
    created_at: u64,
}

/// Mathematical model of a user.
#[verifier::ext_equal]
pub ghost struct UserModel {
    pub username: Seq<char>,
    pub password_hash: Seq<char>,
    pub created_at: u64,
}

impl View for User {
    type V = UserModel;

    closed spec fn view(&self) -> UserModel {
        UserModel {
            username: self.username@,
            password_hash: self.password_hash@,
            created_at: self.created_at,
        }
    }
}

/// The mapping described by a sequence of users; a later entry with the
/// same username wins.
pub open spec fn users_map(s: Seq<UserModel>) -> Map<Seq<char>, UserModel>
    decreases s.len(),
{
    if s.len() == 0 {
        Map::empty()
    } else {
        users_map(s.drop_last()).insert(s.last().username, s.last())
    }
}

/// No two users of `s` share a username.
pub open spec fn usernames_distinct(s: Seq<UserModel>) -> bool {
    forall|i: int, j: int| 0 <= i < j < s.len() ==> s[i].username != s[j].username
}

/// The entry at a given index is what the mapping holds for its username.
proof fn lemma_users_map_index(s: Seq<UserModel>, i: int)
    requires
        usernames_distinct(s),
        0 <= i < s.len(),
    ensures
        users_map(s).contains_key(s[i].username),
        users_map(s)[s[i].username] == s[i],
    decreases s.len(),
{
    if i < s.len() - 1 {
        assert(s.drop_last()[i] == s[i]);
        lemma_users_map_index(s.drop_last(), i);
    }
}

/// A username no entry carries is absent from the mapping.
proof fn lemma_users_map_absent(s: Seq<UserModel>, k: Seq<char>)
    requires
        forall|i: int| 0 <= i < s.len() ==> s[i].username != k,
    ensures
        !users_map(s).contains_key(k),
    decreases s.len(),
{
    if s.len() > 0 {
        lemma_users_map_absent(s.drop_last(), k);
    }
}

/// Appending a user inserts it into the mapping.
proof fn lemma_users_map_push(s: Seq<UserModel>, u: UserModel)
    ensures
        users_map(s.push(u)) == users_map(s).insert(u.username, u),
{
    assert(s.push(u).drop_last() =~= s);
}

/// The in-memory keyed collection of users.
pub struct UserStore {
    users: Vec<User>,
}

impl View for UserStore {
    type V = Map<Seq<char>, UserModel>;

    closed spec fn view(&self) -> Map<Seq<char>, UserModel> {
        users_map(self.models())
    }
}

impl UserStore {
    /// The user models, in insertion order.
    spec fn models(&self) -> Seq<UserModel> {
        self.users@.map_values(|u: User| u@)
    }

    /// Well-formedness: usernames are pairwise distinct.
    pub closed spec fn inv(&self) -> bool {
        usernames_distinct(self.models())
    }

    /// An empty store.
    pub fn new() -> (r: UserStore)
        ensures
            r.inv(),
            r@ == Map::<Seq<char>, UserModel>::empty(),
    {
        UserStore { users: Vec::new() }
    }

    /// The index of the user named `username`, if any.
    fn find_index(&self, username: &String) -> (r: Option<usize>)
        ensures
            match r {
                Some(i) => i < self.models().len() && self.models()[i as int].username
                    == username@,
                None => forall|j: int|
                    0 <= j < self.models().len() ==> self.models()[j].username != username@,
            },
    {
        let mut i: usize = 0;
        while i < self.users.len()
            invariant
                i <= self.models().len(),
                forall|j: int| 0 <= j < i ==> self.models()[j].username != username@,
            decreases self.models().len() - i,
        {
            if self.users[i].username == *username {
                return Some(i);
            }
            i = i + 1;
        }
        None
    }

    /// Register `username` at instant `now`. Blank credentials are
    /// rejected; so is a username already taken; otherwise the user is
    /// added with the submitted password and a success message returned.
    pub fn signup(&mut self, username: String, password: String, now: u64) -> (r: Result<
        String,
        String,
    >)
        requires
            old(self).inv(),
        ensures
            final(self).inv(),
            blank(username@) || blank(password@) ==> {
                &&& r matches Err(m) && m@ == "Username and password cannot be empty"@
                &&& final(self)@ == old(self)@
            },
            !(blank(username@) || blank(password@)) && old(self)@.contains_key(username@) ==> {
                &&& r matches Err(m) && m@ == "Username already exists"@
                &&& final(self)@ == old(self)@
            },
            !(blank(username@) || blank(password@)) && !old(self)@.contains_key(username@) ==> {
                &&& r matches Ok(m) && m@ == "User created successfully"@
                &&& final(self)@ == old(self)@.insert(
                    username@,
                    UserModel { username: username@, password_hash: password@, created_at: now },
                )
            },
    {
        if is_blank(username.as_str()) || is_blank(password.as_str()) {
            return Err(String::from_str("Username and password cannot be empty"));
        }
        let ghost pre = self.models();
        match self.find_index(&username) {
            Some(i) => {
                proof {
                    lemma_users_map_index(pre, i as int);
                }
                Err(String::from_str("Username already exists"))
            },
            None => {
                proof {
                    lemma_users_map_absent(pre, username@);
                }
                let user = User {
                    username,
                    password_hash: password,
                    created_at: now,
                };
                let ghost um = user@;
                self.users.push(user);
                proof {
                    assert(self.models() =~= pre.push(um));
                    lemma_users_map_push(pre, um);
                }
                Ok(String::from_str("User created successfully"))
            },
        }
    }

    /// Check `username`'s password. An unknown username and a mismatched
    /// password are distinct failures; a match succeeds.
    pub fn signin(&self, username: String, password: String) -> (r: Result<String, String>)
        requires
            self.inv(),
        ensures
            self@.contains_key(username@) && self@[username@].password_hash == password@ ==> (
            r matches Ok(m) && m@ == "Login successful"@),
            self@.contains_key(username@) && self@[username@].password_hash != password@ ==> (
            r matches Err(m) && m@ == "Invalid password"@),
            !self@.contains_key(username@) ==> (r matches Err(m) && m@ == "User not found"@),
    {
        match self.find_index(&username) {
            Some(i) => {
                proof {
                    lemma_users_map_index(self.models(), i as int);
                }
                if self.users[i].password_hash == password {
                    Ok(String::from_str("Login successful"))
                } else {
                    Err(String::from_str("Invalid password"))
                }
            },
            None => {
                proof {
                    lemma_users_map_absent(self.models(), username@);
                }
                Err(String::from_str("User not found"))
            },
        }
    }
}

} // verus!
