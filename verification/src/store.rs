//! The user repository: accounts keyed by id, with the email-uniqueness
//! invariant enforced before every insert and every profile update.
use vstd::prelude::*;

use crate::error::Error;

verus! {

/// One account. `password` holds the salted hash, never the password.
pub struct User {
    pub id: u64,
    pub email: String,
    pub password: String,
    pub given_name: String,
    pub surname: String,
    pub created_at: u64,
    pub updated_at: u64,
}

/// The mathematical image of an account.
pub struct UserModel {
    pub id: u64,
    pub email: Seq<char>,
    pub password: Seq<char>,
    pub given_name: Seq<char>,
    pub surname: Seq<char>,
    pub created_at: u64,
    pub updated_at: u64,
}

impl View for User {
    type V = UserModel;

    open spec fn view(&self) -> UserModel {
        UserModel {
            id: self.id,
            email: self.email@,
            password: self.password@,
            given_name: self.given_name@,
            surname: self.surname@,
            created_at: self.created_at,
            updated_at: self.updated_at,
        }
    }
}

impl Clone for User {
    fn clone(&self) -> (r: Self)
        ensures
            r@ == self@,
    {
        User {
            id: self.id,
            email: self.email.clone(),
            password: self.password.clone(),
            given_name: self.given_name.clone(),
            surname: self.surname.clone(),
            created_at: self.created_at,
            updated_at: self.updated_at,
        }
    }
}

/// Profile fields an account holder may change.
pub struct Params {
    pub email: String,
    pub given_name: String,
    pub surname: String,
}

/// Whether some account uses this email.
pub open spec fn has_email(s: Seq<UserModel>, email: Seq<char>) -> bool {
    exists|i: int| 0 <= i < s.len() && #[trigger] s[i].email == email
}

/// Whether some account has this id.
pub open spec fn has_user_id(s: Seq<UserModel>, id: u64) -> bool {
    exists|i: int| 0 <= i < s.len() && #[trigger] s[i].id == id
}

/// The accounts, with emails and ids pairwise distinct.
pub struct UserStore {
    users: Vec<User>,
    next_id: u64,
}

impl View for UserStore {
    type V = Seq<UserModel>;

    closed spec fn view(&self) -> Seq<UserModel> {
        self.users@.map(|_i: int, u: User| u@)
    }
}

impl UserStore {
    /// Emails and ids are unique, and ids stay below the next fresh id.
    pub open spec fn inv(&self) -> bool {
        &&& (forall|i: int, j: int|
            0 <= i < j < self@.len() ==> #[trigger] self@[i].email != #[trigger] self@[j].email)
        &&& (forall|i: int, j: int|
            0 <= i < j < self@.len() ==> #[trigger] self@[i].id != #[trigger] self@[j].id)
        &&& self.ids_fresh()
    }

    /// Every stored id lies below the next fresh one.
    pub closed spec fn ids_fresh(&self) -> bool {
        forall|i: int| 0 <= i < self@.len() ==> #[trigger] self@[i].id < self.next_id
    }

    pub fn new() -> (r: UserStore)
        ensures
            r@ == Seq::<UserModel>::empty(),
            r.inv(),
            r.can_insert(),
    {
        let r = UserStore { users: Vec::new(), next_id: 1 };
        proof {
            assert(r@ =~= Seq::<UserModel>::empty());
        }
        r
    }

    fn index_by_email(&self, email: &String) -> (r: Option<usize>)
        ensures
            r matches Some(i) ==> i < self@.len() && self@[i as int].email == email@,
            r is None ==> !has_email(self@, email@),
    {
        let mut i: usize = 0;
        while i < self.users.len()
            invariant
                i <= self.users.len(),
                self@.len() == self.users.len(),
                forall|j: int| 0 <= j < i ==> #[trigger] self@[j].email != email@,
            decreases self.users.len() - i,
        {
            if self.users[i].email == *email {
                proof {
                    assert(self@[i as int].email == email@);
                }
                return Some(i);
            }
            i = i + 1;
        }
        None
    }

    fn index_by_id(&self, id: u64) -> (r: Option<usize>)
        ensures
            r matches Some(i) ==> i < self@.len() && self@[i as int].id == id,
            r is None ==> !has_user_id(self@, id),
    {
        let mut i: usize = 0;
        while i < self.users.len()
            invariant
                i <= self.users.len(),
                self@.len() == self.users.len(),
                forall|j: int| 0 <= j < i ==> #[trigger] self@[j].id != id,
            decreases self.users.len() - i,
        {
            if self.users[i].id == id {
                proof {
                    assert(self@[i as int].id == id);
                }
                return Some(i);
            }
            i = i + 1;
        }
        None
    }

    /// Looks an account up by email.
    pub fn find_by_email(&self, email: &String) -> (r: Option<&User>)
        ensures
            r is Some <==> has_email(self@, email@),
            r matches Some(u) ==> u@.email == email@ && (exists|i: int|
                0 <= i < self@.len() && self@[i] == u@),
    {
        match self.index_by_email(email) {
            Some(i) => {
                let u = &self.users[i];
                proof {
                    assert(self@[i as int] == u@);
                }
                Some(u)
            },
            None => None,
        }
    }

    /// Looks an account up by id.
    pub fn find_by_id(&self, id: u64) -> (r: Option<&User>)
        ensures
            r is Some <==> has_user_id(self@, id),
            r matches Some(u) ==> u@.id == id && (exists|i: int|
                0 <= i < self@.len() && self@[i] == u@),
    {
        match self.index_by_id(id) {
            Some(i) => {
                let u = &self.users[i];
                proof {
                    assert(self@[i as int] == u@);
                }
                Some(u)
            },
            None => None,
        }
    }

    /// Looks an account up by id and email together: the double check a
    /// stateless reset claim is held to, so a claim minted before an email
    /// change no longer matches anyone.
    pub fn find_by_id_and_email(&self, id: u64, email: &String) -> (r: Option<&User>)
        requires
            self.inv(),
        ensures
            r is Some <==> (exists|i: int|
                0 <= i < self@.len() && #[trigger] self@[i].id == id && self@[i].email == email@),
            r matches Some(u) ==> u@.id == id && u@.email == email@ && (exists|i: int|
                0 <= i < self@.len() && self@[i] == u@),
    {
        match self.index_by_id(id) {
            Some(i) => {
                if self.users[i].email == *email {
                    let u = &self.users[i];
                    proof {
                        assert(self@[i as int] == u@);
                        assert(self@[i as int].id == id);
                    }
                    Some(u)
                } else {
                    proof {
                        assert forall|j: int|
                            0 <= j < self@.len() && #[trigger] self@[j].id == id implies self@[j].email
                            != email@ by {
                            if j != i {
                                assert(self@[i as int].id == id);
                            }
                        }
                    }
                    None
                }
            },
            None => None,
        }
    }

    /// Whether a fresh id can still be drawn.
    pub closed spec fn can_insert(&self) -> bool {
        self.next_id < u64::MAX
    }

    /// Creates an account. Fails when the email is already registered, or
    /// — after the ids have been exhausted — with an infrastructure error.
    pub fn insert(
        &mut self,
        email: String,
        password_hash: String,
        given_name: String,
        surname: String,
        now: u64,
    ) -> (r: Result<u64, Error>)
        requires
            old(self).inv(),
        ensures
            final(self).inv(),
            has_email(old(self)@, email@) ==> (r matches Err(e) && e matches Error::BadRequest(m)
                && m@ == "Email is taken"@) && final(self)@ == old(self)@,
            !has_email(old(self)@, email@) && !old(self).can_insert() ==> (r matches Err(e)
                && e matches Error::Internal(_)) && final(self)@ == old(self)@,
            !has_email(old(self)@, email@) && old(self).can_insert() ==> (r matches Ok(id)
                && !has_user_id(old(self)@, id) && final(self)@ == old(self)@.push(
                UserModel {
                    id: id,
                    email: email@,
                    password: password_hash@,
                    given_name: given_name@,
                    surname: surname@,
                    created_at: now,
                    updated_at: now,
                },
            )),
    {
        match self.index_by_email(&email) {
            Some(_) => Err(Error::BadRequest("Email is taken".to_owned())),
            None => {
                if self.next_id == u64::MAX {
                    return Err(Error::Internal("no fresh account id".to_owned()));
                }
                let id = self.next_id;
                self.next_id = self.next_id + 1;
                let ghost prev = self@;
                let u = User {
                    id,
                    email,
                    password: password_hash,
                    given_name,
                    surname,
                    created_at: now,
                    updated_at: now,
                };
                let ghost um = u@;
                self.users.push(u);
                proof {
                    assert(self@ =~= prev.push(um));
                    assert forall|i: int, j: int| 0 <= i < j < self@.len() implies #[trigger] self@[i].email
                        != #[trigger] self@[j].email by {
                        if j == self@.len() - 1 {
                            assert(self@[i] == prev[i]);
                            assert(!has_email(prev, um.email));
                        }
                    }
                    assert forall|i: int, j: int| 0 <= i < j < self@.len() implies #[trigger] self@[i].id
                        != #[trigger] self@[j].id by {
                        if j == self@.len() - 1 {
                            assert(self@[i] == prev[i]);
                        }
                    }
                }
                Ok(id)
            },
        }
    }

    /// Replaces the password hash of the account matching both id and
    /// email; fails without a trace of which check missed.
    pub fn update_password(&mut self, id: u64, email: &String, new_hash: String, now: u64) -> (r:
        Result<(), Error>)
        requires
            old(self).inv(),
        ensures
            final(self).inv(),
            (exists|i: int|
                0 <= i < old(self)@.len() && #[trigger] old(self)@[i].id == id
                    && old(self)@[i].email == email@) ==> (r is Ok && exists|i: int|
                0 <= i < old(self)@.len() && #[trigger] old(self)@[i].id == id
                    && old(self)@[i].email == email@ && final(self)@ == old(self)@.update(
                    i,
                    UserModel { password: new_hash@, updated_at: now, ..old(self)@[i] },
                )),
            !(exists|i: int|
                0 <= i < old(self)@.len() && #[trigger] old(self)@[i].id == id
                    && old(self)@[i].email == email@) ==> r == Err::<(), Error>(
                Error::InvalidCredentials,
            ) && final(self)@ == old(self)@,
    {
        let ghost prev = self@;
        match self.index_by_id(id) {
            Some(i) => {
                if self.users[i].email == *email {
                    let u = &self.users[i];
                    let updated = User {
                        id: u.id,
                        email: u.email.clone(),
                        password: new_hash,
                        given_name: u.given_name.clone(),
                        surname: u.surname.clone(),
                        created_at: u.created_at,
                        updated_at: now,
                    };
                    self.users.set(i, updated);
                    proof {
                        assert(self@ =~= prev.update(
                            i as int,
                            UserModel { password: new_hash@, updated_at: now, ..prev[i as int] },
                        ));
                    }
                    Ok(())
                } else {
                    proof {
                        assert forall|j: int|
                            0 <= j < prev.len() && #[trigger] prev[j].id == id implies prev[j].email
                            != email@ by {
                            if j != i {
                                assert(prev[i as int].id == id);
                            }
                        }
                    }
                    Err(Error::InvalidCredentials)
                }
            },
            None => Err(Error::InvalidCredentials),
        }
    }

    /// Updates the profile fields of an account; a changed email must not
    /// collide with another account's.
    pub fn update_profile(&mut self, id: u64, params: Params, now: u64) -> (r: Result<(), Error>)
        requires
            old(self).inv(),
        ensures
            final(self).inv(),
            !has_user_id(old(self)@, id) ==> r == Err::<(), Error>(Error::NotFound) && final(self)@
                == old(self)@,
            (exists|i: int|
                0 <= i < old(self)@.len() && #[trigger] old(self)@[i].id == id
                    && old(self)@[i].email != params.email@ && has_email(
                    old(self)@,
                    params.email@,
                )) ==> (r matches Err(e) && e matches Error::BadRequest(m) && m@
                == "Email is taken"@) && final(self)@ == old(self)@,
            (exists|i: int|
                0 <= i < old(self)@.len() && #[trigger] old(self)@[i].id == id
                    && (old(self)@[i].email == params.email@ || !has_email(
                    old(self)@,
                    params.email@,
                ))) ==> (r is Ok && exists|i: int|
                0 <= i < old(self)@.len() && #[trigger] old(self)@[i].id == id && final(self)@
                    == old(self)@.update(
                    i,
                    UserModel {
                        email: params.email@,
                        given_name: params.given_name@,
                        surname: params.surname@,
                        updated_at: now,
                        ..old(self)@[i]
                    },
                )),
    {
        let ghost prev = self@;
        let i = match self.index_by_id(id) {
            Some(i) => i,
            None => {
                return Err(Error::NotFound);
            },
        };
        if !(self.users[i].email == params.email) {
            match self.index_by_email(&params.email) {
                Some(j) => {
                    proof {
                        assert(prev[j as int].email == params.email@);
                        assert forall|k: int|
                            0 <= k < prev.len() && #[trigger] prev[k].id == id implies prev[k].email
                            != params.email@ by {
                            if k != i {
                                assert(prev[i as int].id == id);
                            }
                        }
                    }
                    return Err(Error::BadRequest("Email is taken".to_owned()));
                },
                None => {},
            }
        }
        let u = &self.users[i];
        let updated = User {
            id: u.id,
            email: params.email,
            password: u.password.clone(),
            given_name: params.given_name,
            surname: params.surname,
            created_at: u.created_at,
            updated_at: now,
        };
        let ghost um = updated@;
        self.users.set(i, updated);
        proof {
            assert(self@ =~= prev.update(i as int, um));
            assert forall|a: int, b: int| 0 <= a < b < self@.len() implies #[trigger] self@[a].email
                != #[trigger] self@[b].email by {
                if a == i || b == i {
                    if prev[i as int].email != um.email {
                        assert(!has_email(prev, um.email));
                    }
                }
            }
            assert forall|a: int, b: int| 0 <= a < b < self@.len() implies #[trigger] self@[a].id
                != #[trigger] self@[b].id by {}
        }
        Ok(())
    }

    /// Removes an account.
    pub fn delete(&mut self, id: u64) -> (r: Result<(), Error>)
        requires
            old(self).inv(),
        ensures
            final(self).inv(),
            has_user_id(old(self)@, id) ==> (r is Ok && exists|i: int|
                0 <= i < old(self)@.len() && #[trigger] old(self)@[i].id == id && final(self)@
                    == old(self)@.remove(i)),
            !has_user_id(old(self)@, id) ==> r == Err::<(), Error>(Error::NotFound)
                && final(self)@ == old(self)@,
    {
        let ghost prev = self@;
        match self.index_by_id(id) {
            Some(i) => {
                self.users.remove(i);
                proof {
                    assert(self@ =~= prev.remove(i as int));
                }
                Ok(())
            },
            None => Err(Error::NotFound),
        }
    }
}

} // verus!
