//! Who a membership belongs to: one connection of one user.

use vstd::prelude::*;

verus! {

/// One connection of one user. A user may hold several connections at once,
/// each of them a membership of its own.
#[derive(Debug, PartialEq, Eq)]
pub struct SessionAndUserId {
    pub session_id: String,
    pub user_id: String,
}

/// Mathematical value of a [`SessionAndUserId`].
pub struct IdentityView {
    pub session_id: Seq<char>,
    pub user_id: Seq<char>,
}

impl View for SessionAndUserId {
    type V = IdentityView;

    open spec fn view(&self) -> IdentityView {
        IdentityView { session_id: self.session_id@, user_id: self.user_id@ }
    }
}

impl Clone for SessionAndUserId {
    fn clone(&self) -> (copy: Self)
        ensures
            copy@ == self@,
    {
        SessionAndUserId { session_id: self.session_id.clone(), user_id: self.user_id.clone() }
    }
}

impl SessionAndUserId {
    /// The identity of connection `session_id` of user `user_id`.
    pub fn new(session_id: &str, user_id: &str) -> (id: Self)
        ensures
            id@ == (IdentityView { session_id: session_id@, user_id: user_id@ }),
    {
        SessionAndUserId { session_id: session_id.to_owned(), user_id: user_id.to_owned() }
    }

    /// Whether both name the same connection of the same user.
    pub fn same(&self, other: &SessionAndUserId) -> (b: bool)
        ensures
            b == (self@ == other@),
    {
        self.session_id == other.session_id && self.user_id == other.user_id
    }
}

} // verus!
