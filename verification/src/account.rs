//! Accounts as the store holds them, and what is shown of them.

use crate::text::{copy_optional, optional_text, same_text};
use crate::token::{Identity, Token};
use vstd::prelude::*;

verus! {

/// An account as the store holds it.
#[derive(Debug, PartialEq, Eq)]
pub struct Account {
    pub id: i32,
    pub username: String,
    pub email: Option<String>,
    pub password: String,
}

/// An `Account` as contracts speak of it.
pub struct AccountView {
    pub id: i32,
    pub username: Seq<char>,
    pub email: Option<Seq<char>>,
    pub password: Seq<char>,
}

impl View for Account {
    type V = AccountView;

    open spec fn view(&self) -> AccountView {
        AccountView {
            id: self.id,
            username: self.username@,
            email: optional_text(self.email),
            password: self.password@,
        }
    }
}

impl AccountView {
    /// The identity of the account: its user name and its email address.
    pub open spec fn identity(self) -> Identity {
        Identity { username: self.username, email: self.email }
    }

    /// Whether `name` is the account's user name or its email address,
    /// character for character.
    pub open spec fn answers_to(self, name: Seq<char>) -> bool {
        self.username == name || self.email == Some(name)
    }
}

/// The fields of an account that is to be stored: the store gives it its
/// number.
#[derive(Debug, PartialEq, Eq)]
pub struct NewAccount {
    pub username: String,
    pub email: Option<String>,
    pub password: String,
}

/// A `NewAccount` as contracts speak of it.
pub struct NewAccountView {
    pub username: Seq<char>,
    pub email: Option<Seq<char>>,
    pub password: Seq<char>,
}

impl View for NewAccount {
    type V = NewAccountView;

    open spec fn view(&self) -> NewAccountView {
        NewAccountView {
            username: self.username@,
            email: optional_text(self.email),
            password: self.password@,
        }
    }
}

impl NewAccountView {
    /// The identity of the account: its user name and its email address.
    pub open spec fn identity(self) -> Identity {
        Identity { username: self.username, email: self.email }
    }
}

/// What is shown of an account: its user name and its email address.
#[derive(Debug, PartialEq, Eq)]
pub struct User {
    pub username: String,
    pub email: Option<String>,
}

impl View for User {
    type V = Identity;

    open spec fn view(&self) -> Identity {
        Identity { username: self.username@, email: optional_text(self.email) }
    }
}

impl Account {
    /// Tells whether `name` is the account's user name or its email address.
    /// Upper and lower case are told apart.
    pub fn answers_to(&self, name: &str) -> (b: bool)
        ensures
            b == self@.answers_to(name@),
    {
        if same_text(self.username.as_str(), name) {
            return true;
        }
        match &self.email {
            Some(e) => same_text(e.as_str(), name),
            None => false,
        }
    }

    /// The identity that a token for this account carries.
    pub fn token(&self) -> (t: Token)
        ensures
            t@ == self@.identity(),
    {
        Token { username: self.username.clone(), email: copy_optional(&self.email) }
    }

    /// What is shown of this account.
    pub fn user(&self) -> (u: User)
        ensures
            u@ == self@.identity(),
    {
        User { username: self.username.clone(), email: copy_optional(&self.email) }
    }
}

impl NewAccount {
    /// The identity that a token for this account carries.
    pub fn token(&self) -> (t: Token)
        ensures
            t@ == self@.identity(),
    {
        Token { username: self.username.clone(), email: copy_optional(&self.email) }
    }
}

impl Token {
    /// What is shown of the identity that a token carried.
    pub fn into_user(self) -> (u: User)
        ensures
            u@ == self@,
    {
        User { username: self.username, email: self.email }
    }
}

} // verus!
