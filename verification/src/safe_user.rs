//! The public face of an account.
//!
//! A `SafeUser` is an account stripped of everything sensitive — the
//! credential digest, the internal identifier and the email address stay
//! behind — and is what profile queries hand back to clients.

use vstd::prelude::*;

use crate::user::User;

verus! {

pub struct SafeUser {
    pub username: String,
    pub displayname: String,
    pub suid: String,
    pub age: u8,
}

/// Mathematical model of a public account view.
pub struct SafeUserView {
    pub username: Seq<char>,
    pub displayname: Seq<char>,
    pub suid: Seq<char>,
    pub age: u8,
}

impl View for SafeUser {
    type V = SafeUserView;

    open spec fn view(&self) -> SafeUserView {
        SafeUserView {
            username: self.username@,
            displayname: self.displayname@,
            suid: self.suid@,
            age: self.age,
        }
    }
}

/// The public view an account exposes: name, display name, public
/// identifier and age, nothing else.
pub open spec fn spec_safe_user(u: crate::user::UserView) -> SafeUserView {
    SafeUserView { username: u.username, displayname: u.displayname, suid: u.suid, age: u.age }
}

/// Strips an account down to its public view.
pub fn convert_user(user: User) -> (r: SafeUser)
    ensures
        r@ == spec_safe_user(user@),
{
    SafeUser {
        username: user.username,
        displayname: user.displayname,
        suid: user.suid,
        age: user.age,
    }
}

} // verus!
