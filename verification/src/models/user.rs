//! Accounts.

use vstd::prelude::*;
use crate::text::opt_text;

verus! {

/// A stored account. `password` holds the digest of the password, never the
/// password itself.
#[derive(Debug)]
pub struct User {
    pub id: i64,
    pub username: String,
    pub password: String,
    pub nickname: String,
    pub email: Option<String>,
    pub avatar: Option<String>,
    pub status: i32,
    pub created_at: String,
    pub updated_at: String,
}

/// What an account shows of itself: everything but the password digest.
#[derive(Debug)]
pub struct UserProfile {
    pub id: i64,
    pub username: String,
    pub nickname: String,
    pub email: Option<String>,
    pub avatar: Option<String>,
    pub status: i32,
    pub created_at: String,
    pub updated_at: String,
}

/// Mathematical model of a [`UserProfile`].
pub struct ProfileView {
    pub id: int,
    pub username: Seq<char>,
    pub nickname: Seq<char>,
    pub email: Option<Seq<char>>,
    pub avatar: Option<Seq<char>>,
    pub status: int,
    pub created_at: Seq<char>,
    pub updated_at: Seq<char>,
}

impl View for UserProfile {
    type V = ProfileView;

    open spec fn view(&self) -> ProfileView {
        ProfileView {
            id: self.id as int,
            username: self.username@,
            nickname: self.nickname@,
            email: opt_text(self.email),
            avatar: opt_text(self.avatar),
            status: self.status as int,
            created_at: self.created_at@,
            updated_at: self.updated_at@,
        }
    }
}

impl User {
    /// What the account shows of itself.
    pub open spec fn profile_view(&self) -> ProfileView {
        ProfileView {
            id: self.id as int,
            username: self.username@,
            nickname: self.nickname@,
            email: opt_text(self.email),
            avatar: opt_text(self.avatar),
            status: self.status as int,
            created_at: self.created_at@,
            updated_at: self.updated_at@,
        }
    }

    /// The account without its password digest.
    pub fn into_profile(self) -> (profile: UserProfile)
        ensures
            profile@ == self.profile_view(),
    {
        UserProfile {
            id: self.id,
            username: self.username,
            nickname: self.nickname,
            email: self.email,
            avatar: self.avatar,
            status: self.status,
            created_at: self.created_at,
            updated_at: self.updated_at,
        }
    }
}

/// What a client sends to create an account. `password` is the password as
/// typed.
#[derive(Debug)]
pub struct CreateUser {
    pub username: String,
    pub password: String,
    pub nickname: String,
    pub email: Option<String>,
    pub avatar: Option<String>,
    pub status: i32,
}

/// What a client sends to change an account.
#[derive(Debug)]
pub struct UpdateUser {
    pub nickname: String,
    pub email: Option<String>,
    pub avatar: Option<String>,
    pub status: i32,
}

/// What a client sends to change its own password.
#[derive(Debug)]
pub struct UpdatePasswordRequest {
    pub old_password: String,
    pub new_password: String,
}

} // verus!
