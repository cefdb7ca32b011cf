use vstd::prelude::*;

use crate::auth::bcrypt_check;
use crate::auth::bcrypt_verify;
use crate::auth::generate_token;
use crate::auth::invalid_credentials_msg;
use crate::auth::jwt_claims;
use crate::auth::jwt_token;
use crate::auth::password_check_err_msg;
use crate::auth::token_encode_err_msg;
use crate::auth::TOKEN_TTL_SECS;
use crate::error::AppError;

verus! {

/// A stored account.  Accounts are created out of band; the system only
/// ever reads them, to check credentials at login.
#[derive(Debug)]
pub struct User {
    pub id: i32,
    pub username: String,
    pub password_hash: String,
    pub created_at: u64,
    pub updated_at: u64,
}

/// One row of the orders table.  `total_amount_cents` carries the decimal
/// amount in minor units; timestamps are seconds since the epoch.
#[derive(Debug)]
pub struct OrderRecord {
    pub id: i32,
    pub customer_name: String,
    pub phone: String,
    pub prescription: String,
    pub frame_type: String,
    pub lens_type: String,
    pub total_amount_cents: u64,
    pub status: String,
    pub created_by: i32,
    pub created_at: u64,
    pub updated_at: u64,
}

impl Clone for OrderRecord {
    fn clone(&self) -> (r: Self)
        ensures
            r == *self,
    {
        OrderRecord {
            id: self.id,
            customer_name: self.customer_name.clone(),
            phone: self.phone.clone(),
            prescription: self.prescription.clone(),
            frame_type: self.frame_type.clone(),
            lens_type: self.lens_type.clone(),
            total_amount_cents: self.total_amount_cents,
            status: self.status.clone(),
            created_by: self.created_by,
            created_at: self.created_at,
            updated_at: self.updated_at,
        }
    }
}

/// The two tables and the id counter.  It stands behind the handlers the
/// way a relational store stands behind a set of routes; every order
/// query goes through the owner filter.
#[derive(Debug)]
pub struct Store {
    pub users: Vec<User>,
    pub orders: Vec<OrderRecord>,
    pub next_order_id: i32,
}

pub open spec fn username_exists_msg() -> Seq<char> {
    "Username already exists"@
}

pub open spec fn username_taken(users: Seq<User>, name: Seq<char>) -> bool {
    exists|i: int| 0 <= i < users.len() && (#[trigger] users[i]).username@ == name
}

/// The stored account with the given username, if any; well defined on a
/// well-formed store, where usernames are unique.
pub open spec fn user_lookup(users: Seq<User>, name: Seq<char>) -> Option<User> {
    if username_taken(users, name) {
        Some(users[choose|i: int| 0 <= i < users.len() && (#[trigger] users[i]).username@ == name])
    } else {
        None
    }
}

impl Store {
    /// Usernames are unique, order ids are unique, and every order id is
    /// below the counter that the next insertion will use.
    pub open spec fn wf(&self) -> bool {
        &&& forall|i: int, j: int|
            0 <= i < j < self.users@.len() ==> (#[trigger] self.users@[i]).username@ != (
            #[trigger] self.users@[j]).username@
        &&& forall|i: int, j: int|
            0 <= i < j < self.orders@.len() ==> (#[trigger] self.orders@[i]).id != (
            #[trigger] self.orders@[j]).id
        &&& forall|i: int|
            0 <= i < self.orders@.len() ==> (#[trigger] self.orders@[i]).id < self.next_order_id
    }

    pub fn new() -> (s: Store)
        ensures
            s.wf(),
            s.users@.len() == 0,
            s.orders@.len() == 0,
            s.next_order_id == 1,
    {
        Store { users: Vec::new(), orders: Vec::new(), next_order_id: 1 }
    }

    /// Registers an account, refusing a username that is already taken.
    pub fn add_user(&mut self, user: User) -> (r: Result<(), AppError>)
        requires
            old(self).wf(),
        ensures
            final(self).wf(),
            final(self).orders@ == old(self).orders@,
            final(self).next_order_id == old(self).next_order_id,
            username_taken(old(self).users@, user.username@) ==> (r matches Err(e) && e
                matches AppError::ValidationError(m) && m@ == username_exists_msg()
                && final(self).users@ == old(self).users@),
            !username_taken(old(self).users@, user.username@) ==> (r is Ok && final(self).users@
                == old(self).users@.push(user)),
    {
        let n = self.users.len();
        let mut i: usize = 0;
        while i < n
            invariant
                0 <= i <= n,
                n == self.users@.len(),
                self.wf(),
                *self == *old(self),
                forall|j: int| 0 <= j < i ==> (#[trigger] self.users@[j]).username@ != user.username@,
            decreases n - i,
        {
            if self.users[i].username == user.username {
                return Err(AppError::ValidationError("Username already exists".to_owned()));
            }
            i = i + 1;
        }
        self.users.push(user);
        Ok(())
    }
}

/// What login returns, for every combination of lookup and password
/// check: on valid credentials the token is owed, and carries the user's
/// id and the expiry a day past `now` (unless that expiry cannot be
/// represented, a machine limit answered with an internal error); one
/// uniform authentication error whether the username or the password was
/// wrong; and an internal error when hash verification itself fails.
pub open spec fn login_post(
    users: Seq<User>,
    username: Seq<char>,
    password: Seq<char>,
    secret: Seq<char>,
    now: u64,
    r: Result<String, AppError>,
) -> bool {
    match user_lookup(users, username) {
        None => r matches Err(e) && e matches AppError::AuthError(m) && m@
            == invalid_credentials_msg(),
        Some(u) => match bcrypt_check(password, u.password_hash@) {
            Some(true) => if now + TOKEN_TTL_SECS <= u64::MAX {
                r matches Ok(t) && t@ == jwt_token(secret, u.id, (now + TOKEN_TTL_SECS) as u64)
                    && jwt_claims(secret, t@) == Some((u.id as i64, (now + TOKEN_TTL_SECS) as u64))
            } else {
                r matches Err(e) && e matches AppError::InternalError(m) && m@
                    == token_encode_err_msg()
            },
            Some(false) => r matches Err(e) && e matches AppError::AuthError(m) && m@
                == invalid_credentials_msg(),
            None => r matches Err(e) && e matches AppError::InternalError(m) && m@
                == password_check_err_msg(),
        },
    }
}

/// Looks the user up by exact username, verifies the password against the
/// stored bcrypt hash, and issues a token for the user's id.
pub fn login(store: &Store, username: &String, password: &String, secret: &str, now: u64) -> (r:
    Result<String, AppError>)
    requires
        store.wf(),
    ensures
        login_post(store.users@, username@, password@, secret@, now, r),
{
    let n = store.users.len();
    let mut i: usize = 0;
    while i < n
        invariant
            0 <= i <= n,
            n == store.users@.len(),
            store.wf(),
            forall|j: int| 0 <= j < i ==> (#[trigger] store.users@[j]).username@ != username@,
        decreases n - i,
    {
        if store.users[i].username == *username {
            proof {
                let k = choose|k: int|
                    0 <= k < store.users@.len() && (#[trigger] store.users@[k]).username@
                        == username@;
                assert(store.wf());
                assert(k == i as int);
            }
            let user = &store.users[i];
            match bcrypt_verify(password.as_str(), user.password_hash.as_str()) {
                Some(true) => {
                    if now > u64::MAX - TOKEN_TTL_SECS {
                        return Err(AppError::InternalError("Token encoding error".to_owned()));
                    }
                    return generate_token(secret, user.id, now);
                },
                Some(false) => {
                    return Err(AppError::AuthError("Invalid username or password".to_owned()));
                },
                None => {
                    return Err(AppError::InternalError("Password verification error".to_owned()));
                },
            }
        }
        i = i + 1;
    }
    Err(AppError::AuthError("Invalid username or password".to_owned()))
}

/// An unknown username and a wrong password are rejected identically:
/// whatever made the credentials invalid, the caller sees one error with
/// one message and one status, so responses cannot be used to enumerate
/// accounts.
pub proof fn lemma_login_rejection_uniform(
    users1: Seq<User>,
    username1: Seq<char>,
    password1: Seq<char>,
    r1: Result<String, AppError>,
    users2: Seq<User>,
    username2: Seq<char>,
    password2: Seq<char>,
    r2: Result<String, AppError>,
    secret: Seq<char>,
    now: u64,
)
    requires
        login_post(users1, username1, password1, secret, now, r1),
        login_post(users2, username2, password2, secret, now, r2),
        user_lookup(users1, username1) is None,
        user_lookup(users2, username2) matches Some(u) && bcrypt_check(password2, u.password_hash@)
            == Some(false),
    ensures
        r1 matches Err(e1) && r2 matches Err(e2) && e1.message_view() == e2.message_view()
            && e1.status_code_spec() == e2.status_code_spec(),
{
}

} // verus!
