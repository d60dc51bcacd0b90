//! What a user changes about itself: its profile and its password.

use vstd::prelude::*;
use crate::models::user::{UpdatePasswordRequest, User};
use crate::password::{hash_password, password_digest, verify_password};
use crate::text::opt_text;

verus! {

/// The status of a change that the request does not allow.
pub const BAD_REQUEST: u16 = 400;

/// What a client sends to change its profile: the fields it names. A field
/// that it leaves out stays as it is.
#[derive(Debug)]
pub struct UpdateProfileRequest {
    pub nickname: Option<String>,
    pub email: Option<String>,
    pub avatar: Option<String>,
}

/// What is written to the account.
#[derive(Debug)]
pub struct ProfileUpdate {
    pub nickname: String,
    pub email: Option<String>,
    pub avatar: Option<String>,
}

/// Mathematical model of a [`ProfileUpdate`].
pub struct ProfileUpdateView {
    pub nickname: Seq<char>,
    pub email: Option<Seq<char>>,
    pub avatar: Option<Seq<char>>,
}

impl View for ProfileUpdate {
    type V = ProfileUpdateView;

    open spec fn view(&self) -> ProfileUpdateView {
        ProfileUpdateView {
            nickname: self.nickname@,
            email: opt_text(self.email),
            avatar: opt_text(self.avatar),
        }
    }
}

/// Why a change was refused.
#[derive(Debug, Clone, Copy, PartialEq, Eq)]
pub enum ProfileError {
    /// The nickname is empty or blank.
    EmptyNickname,
    /// The e-mail address is empty or blank.
    EmptyEmail,
    /// The old password is not the account's password.
    WrongOldPassword,
}

/// `text` without the white space at its beginning and at its end.
pub uninterp spec fn trimmed_text(text: Seq<char>) -> Seq<char>;

/// `str::trim`: the text without leading and trailing white space, which
/// depends on the text alone.
#[verifier::external_body]
fn trimmed<'a>(text: &'a str) -> (out: &'a str)
    ensures
        out@ == trimmed_text(text@),
{
    text.trim()
}

/// The text holds nothing but white space.
pub open spec fn is_blank(text: Seq<char>) -> bool {
    trimmed_text(text).len() == 0
}

/// A field is named and blank.
pub open spec fn named_blank(field: Option<String>) -> bool {
    match field {
        Some(text) => is_blank(text@),
        None => false,
    }
}

/// What a profile request makes of an account, where `nickname_blank` and
/// `email_blank` tell whether the request names a blank nickname and a
/// blank e-mail address. The nickname is looked at first.
pub open spec fn merged_profile(
    request: UpdateProfileRequest,
    current: User,
    nickname_blank: bool,
    email_blank: bool,
) -> Result<ProfileUpdateView, ProfileError> {
    if nickname_blank {
        Err(ProfileError::EmptyNickname)
    } else if email_blank {
        Err(ProfileError::EmptyEmail)
    } else {
        Ok(
            ProfileUpdateView {
                nickname: match request.nickname {
                    Some(n) => n@,
                    None => current.nickname@,
                },
                email: match request.email {
                    Some(e) => Some(e@),
                    None => opt_text(current.email),
                },
                avatar: match request.avatar {
                    Some(a) => Some(a@),
                    None => opt_text(current.avatar),
                },
            },
        )
    }
}

/// The model of the result of a profile change.
pub open spec fn update_view(r: Result<ProfileUpdate, ProfileError>) -> Result<
    ProfileUpdateView,
    ProfileError,
> {
    match r {
        Ok(update) => Ok(update@),
        Err(e) => Err(e),
    }
}

impl ProfileError {
    /// The status that the client gets.
    pub fn status(&self) -> (code: u16)
        ensures
            code == BAD_REQUEST,
    {
        BAD_REQUEST
    }

    /// The message that the client gets.
    pub open spec fn message_text(self) -> Seq<char> {
        match self {
            ProfileError::EmptyNickname => "昵称不能为空"@,
            ProfileError::EmptyEmail => "邮箱不能为空"@,
            ProfileError::WrongOldPassword => "旧密码不正确"@,
        }
    }

    /// The message that the client gets.
    pub fn message(&self) -> (text: String)
        ensures
            text@ == self.message_text(),
    {
        let text = match self {
            ProfileError::EmptyNickname => "昵称不能为空",
            ProfileError::EmptyEmail => "邮箱不能为空",
            ProfileError::WrongOldPassword => "旧密码不正确",
        };
        text.to_owned()
    }
}

/// Tells whether a field is named and blank.
pub fn is_named_blank(field: &Option<String>) -> (blank: bool)
    ensures
        blank == named_blank(*field),
{
    match field {
        Some(text) => trimmed(text.as_str()).is_empty(),
        None => false,
    }
}

/// Merges a profile request into an account, given which of the named
/// fields are blank.
pub fn merge_profile(
    request: UpdateProfileRequest,
    current: User,
    nickname_blank: bool,
    email_blank: bool,
) -> (r: Result<ProfileUpdate, ProfileError>)
    ensures
        update_view(r) == merged_profile(request, current, nickname_blank, email_blank),
{
    if nickname_blank {
        return Err(ProfileError::EmptyNickname);
    }
    if email_blank {
        return Err(ProfileError::EmptyEmail);
    }
    let nickname = match request.nickname {
        Some(n) => n,
        None => current.nickname,
    };
    let email = match request.email {
        Some(e) => Some(e),
        None => current.email,
    };
    let avatar = match request.avatar {
        Some(a) => Some(a),
        None => current.avatar,
    };
    Ok(ProfileUpdate { nickname, email, avatar })
}

/// What is written to the account `current` for a profile request: the
/// named fields as the request has them, the others as the account has
/// them. A nickname or an e-mail address that is named must not be blank.
pub fn update_profile(request: UpdateProfileRequest, current: User) -> (r: Result<
    ProfileUpdate,
    ProfileError,
>)
    ensures
        update_view(r) == merged_profile(
            request,
            current,
            named_blank(request.nickname),
            named_blank(request.email),
        ),
{
    let nickname_blank = is_named_blank(&request.nickname);
    let email_blank = is_named_blank(&request.email);
    merge_profile(request, current, nickname_blank, email_blank)
}

/// The digest to store for a password change on an account whose stored
/// digest is `stored`: that of the new password, where the old password is
/// the account's.
pub fn update_password(request: &UpdatePasswordRequest, stored: &str) -> (r: Result<
    String,
    ProfileError,
>)
    ensures
        match r {
            Ok(digest) => password_digest(request.old_password@) == stored@ && digest@
                == password_digest(request.new_password@),
            Err(e) => password_digest(request.old_password@) != stored@ && e
                == ProfileError::WrongOldPassword,
        },
{
    if verify_password(request.old_password.as_str(), stored) {
        Ok(hash_password(request.new_password.as_str()))
    } else {
        Err(ProfileError::WrongOldPassword)
    }
}

} // verus!
