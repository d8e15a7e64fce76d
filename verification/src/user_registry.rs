//! Which connections are present in a room, and which users that makes present.

use vstd::prelude::*;
use crate::identity::{IdentityView, SessionAndUserId};

verus! {

/// Whether at least one connection of `user` is among `members`.
pub open spec fn user_present(members: Set<IdentityView>, user: Seq<char>) -> bool {
    exists|session: Seq<char>| #[trigger]
        members.contains(IdentityView { session_id: session, user_id: user })
}

/// The users with at least one connection among `members`.
pub open spec fn present_users(members: Set<IdentityView>) -> Set<Seq<char>> {
    Set::new(|user: Seq<char>| user_present(members, user))
}

/// Whether `id` is the value of one of `ids`.
pub open spec fn holds_identity(ids: Seq<SessionAndUserId>, id: IdentityView) -> bool {
    exists|i: int| 0 <= i < ids.len() && (#[trigger] ids[i])@ == id
}

/// Whether one of `ids` belongs to `user`.
pub open spec fn holds_user(ids: Seq<SessionAndUserId>, user: Seq<char>) -> bool {
    exists|i: int| 0 <= i < ids.len() && (#[trigger] ids[i]).user_id@ == user
}

/// Whether `user` is one of `users`.
pub open spec fn lists_user(users: Seq<String>, user: Seq<char>) -> bool {
    exists|k: int| 0 <= k < users.len() && (#[trigger] users[k])@ == user
}

/// The connections present in one room, together with the distinct users
/// they belong to.
#[derive(Debug)]
pub struct UserRegistry {
    identities: Vec<SessionAndUserId>,
    user_ids: Vec<String>,
}

impl View for UserRegistry {
    type V = Set<IdentityView>;

    /// The registered connections.
    closed spec fn view(&self) -> Set<IdentityView> {
        Set::new(|id: IdentityView| holds_identity(self.identities@, id))
    }
}

impl UserRegistry {
    /// No connection is stored twice, no user is listed twice, and a user is
    /// listed exactly when one of the stored connections is theirs.
    pub closed spec fn wf(&self) -> bool {
        &&& forall|i: int, j: int|
            0 <= i < j < self.identities.len() ==> (#[trigger] self.identities[i])@ != (
            #[trigger] self.identities[j])@
        &&& forall|i: int, j: int|
            0 <= i < j < self.user_ids.len() ==> (#[trigger] self.user_ids[i])@ != (
            #[trigger] self.user_ids[j])@
        &&& forall|user: Seq<char>| #[trigger]
            lists_user(self.user_ids@, user) <==> holds_user(self.identities@, user)
    }

    /// The listed users, in the order in which they became present.
    pub closed spec fn listed_users(&self) -> Seq<Seq<char>> {
        self.user_ids.deep_view()
    }

    /// A user has a connection in the view exactly when one of the stored
    /// connections is theirs.
    proof fn lemma_present(&self, user: Seq<char>)
        ensures
            user_present(self@, user) <==> holds_user(self.identities@, user),
    {
        if user_present(self@, user) {
            let session = choose|session: Seq<char>| #[trigger]
                self@.contains(IdentityView { session_id: session, user_id: user });
            let id = IdentityView { session_id: session, user_id: user };
            assert(holds_identity(self.identities@, id));
            let i = choose|i: int|
                0 <= i < self.identities@.len() && (#[trigger] self.identities@[i])@ == id;
            assert(self.identities@[i].user_id@ == user);
        }
        if holds_user(self.identities@, user) {
            let i = choose|i: int|
                0 <= i < self.identities@.len() && (#[trigger] self.identities@[i]).user_id@
                    == user;
            let id = self.identities@[i]@;
            assert(holds_identity(self.identities@, id));
            assert(self@.contains(IdentityView { session_id: id.session_id, user_id: user }));
        }
    }

    /// The listed users are the present users, each listed once.
    pub proof fn lemma_listed_users(&self)
        requires
            self.wf(),
        ensures
            self.listed_users().no_duplicates(),
            self.listed_users().to_set() == present_users(self@),
    {
        let listed = self.listed_users();
        assert forall|user: Seq<char>| listed.to_set().contains(user) == present_users(
            self@,
        ).contains(user) by {
            self.lemma_present(user);
            if listed.contains(user) {
                let k = choose|k: int| 0 <= k < listed.len() && listed[k] == user;
                assert(self.user_ids@[k]@ == user);
                assert(lists_user(self.user_ids@, user));
            }
            if lists_user(self.user_ids@, user) {
                let k = choose|k: int|
                    0 <= k < self.user_ids@.len() && (#[trigger] self.user_ids@[k])@ == user;
                assert(listed[k] == user);
            }
        }
        assert(listed.to_set() =~= present_users(self@));
    }

    /// A registry with nobody in it.
    pub fn new() -> (registry: Self)
        ensures
            registry.wf(),
            registry@ == Set::<IdentityView>::empty(),
    {
        let registry = UserRegistry { identities: Vec::new(), user_ids: Vec::new() };
        assert(registry@ =~= Set::<IdentityView>::empty());
        registry
    }

    /// Where `identity` is stored, if it is.
    fn find_identity(&self, identity: &SessionAndUserId) -> (found: Option<usize>)
        ensures
            found matches Some(i) ==> i < self.identities.len() && self.identities[i as int]@
                == identity@,
            found is None ==> !holds_identity(self.identities@, identity@),
    {
        let mut i: usize = 0;
        while i < self.identities.len()
            invariant
                i <= self.identities.len(),
                forall|j: int| 0 <= j < i ==> (#[trigger] self.identities[j])@ != identity@,
            decreases self.identities.len() - i,
        {
            if self.identities[i].same(identity) {
                return Some(i);
            }
            i += 1;
        }
        None
    }

    /// Whether one of the stored connections belongs to `user`.
    fn has_user(&self, user: &String) -> (found: bool)
        ensures
            found == holds_user(self.identities@, user@),
    {
        let mut i: usize = 0;
        while i < self.identities.len()
            invariant
                i <= self.identities.len(),
                forall|j: int| 0 <= j < i ==> (#[trigger] self.identities[j]).user_id@ != user@,
            decreases self.identities.len() - i,
        {
            if self.identities[i].user_id == *user {
                return true;
            }
            i += 1;
        }
        false
    }

    /// Where `user` is listed, if they are.
    fn find_user(&self, user: &String) -> (found: Option<usize>)
        ensures
            found matches Some(k) ==> k < self.user_ids.len() && self.user_ids[k as int]@ == user@,
            found is None ==> !lists_user(self.user_ids@, user@),
    {
        let mut k: usize = 0;
        while k < self.user_ids.len()
            invariant
                k <= self.user_ids.len(),
                forall|j: int| 0 <= j < k ==> (#[trigger] self.user_ids[j])@ != user@,
            decreases self.user_ids.len() - k,
        {
            if self.user_ids[k] == *user {
                return Some(k);
            }
            k += 1;
        }
        None
    }

    /// Whether `identity` is registered.
    pub fn contains(&self, identity: &SessionAndUserId) -> (found: bool)
        ensures
            found == self@.contains(identity@),
    {
        self.find_identity(identity).is_some()
    }

    /// Registers `identity`. Returns `true` exactly when the user had no
    /// connection here before, so that this call makes the user present.
    /// Registering a connection that is already registered changes nothing.
    pub fn insert(&mut self, identity: &SessionAndUserId) -> (became_present: bool)
        requires
            old(self).wf(),
        ensures
            final(self).wf(),
            final(self)@ == old(self)@.insert(identity@),
            became_present == !user_present(old(self)@, identity.user_id@),
    {
        proof {
            self.lemma_present(identity.user_id@);
        }
        if self.find_identity(identity).is_some() {
            assert(self@.contains(identity@));
            assert(self@ =~= self@.insert(identity@));
            return false;
        }
        let user_known = self.has_user(&identity.user_id);
        let ghost before = *self;
        self.identities.push(identity.clone());
        if !user_known {
            self.user_ids.push(identity.user_id.clone());
        }
        proof {
            let n = before.identities@.len() as int;
            let m = before.user_ids@.len() as int;
            assert(self.identities@[n]@ == identity@);
            assert forall|id: IdentityView| self@.contains(id) == before@.insert(
                identity@,
            ).contains(id) by {
                if holds_identity(self.identities@, id) {
                    let i = choose|i: int|
                        0 <= i < self.identities@.len() && (#[trigger] self.identities@[i])@ == id;
                    if i < n {
                        assert(before.identities@[i]@ == id);
                    }
                }
                if holds_identity(before.identities@, id) {
                    let i = choose|i: int|
                        0 <= i < before.identities@.len() && (#[trigger] before.identities@[i])@
                            == id;
                    assert(self.identities@[i]@ == id);
                }
            }
            assert(self@ =~= before@.insert(identity@));
            assert forall|user: Seq<char>| #[trigger]
                lists_user(self.user_ids@, user) <==> holds_user(self.identities@, user) by {
                assert(lists_user(before.user_ids@, user) <==> holds_user(
                    before.identities@,
                    user,
                ));
                if lists_user(self.user_ids@, user) {
                    let k = choose|k: int|
                        0 <= k < self.user_ids@.len() && (#[trigger] self.user_ids@[k])@ == user;
                    if k < m {
                        assert(before.user_ids@[k]@ == user);
                        let i = choose|i: int|
                            0 <= i < before.identities@.len() && (
                            #[trigger] before.identities@[i]).user_id@ == user;
                        assert(self.identities@[i].user_id@ == user);
                    } else {
                        assert(self.identities@[n].user_id@ == user);
                    }
                }
                if holds_user(self.identities@, user) {
                    let i = choose|i: int|
                        0 <= i < self.identities@.len() && (
                        #[trigger] self.identities@[i]).user_id@ == user;
                    if i < n {
                        assert(before.identities@[i].user_id@ == user);
                        let k = choose|k: int|
                            0 <= k < before.user_ids@.len() && (#[trigger] before.user_ids@[k])@
                                == user;
                        assert(self.user_ids@[k]@ == user);
                    } else if user_known {
                        assert(lists_user(before.user_ids@, identity.user_id@));
                        let k = choose|k: int|
                            0 <= k < before.user_ids@.len() && (#[trigger] before.user_ids@[k])@
                                == user;
                        assert(self.user_ids@[k]@ == user);
                    } else {
                        assert(self.user_ids@[m]@ == user);
                    }
                }
            }
            assert forall|i: int, j: int| 0 <= i < j < self.user_ids.len() implies (
            #[trigger] self.user_ids[i])@ != (#[trigger] self.user_ids[j])@ by {
                if j == m && !user_known {
                    assert(before.user_ids@[i]@ == self.user_ids[i]@);
                    if self.user_ids[i]@ == identity.user_id@ {
                        assert(lists_user(before.user_ids@, identity.user_id@));
                    }
                }
            }
            assert forall|i: int, j: int| 0 <= i < j < self.identities.len() implies (
            #[trigger] self.identities[i])@ != (#[trigger] self.identities[j])@ by {
                if j == n {
                    assert(before.identities@[i]@ == self.identities[i]@);
                }
            }
        }
        !user_known
    }

    /// Unregisters `identity`. Returns `true` exactly when it was registered
    /// and no other connection of its user remains, so that this call makes
    /// the user absent.
    pub fn remove(&mut self, identity: &SessionAndUserId) -> (became_absent: bool)
        requires
            old(self).wf(),
        ensures
            final(self).wf(),
            final(self)@ == old(self)@.remove(identity@),
            became_absent == (old(self)@.contains(identity@) && !user_present(
                final(self)@,
                identity.user_id@,
            )),
    {
        let ghost before = *self;
        let found = self.find_identity(identity);
        let at = match found {
            None => {
                assert(self@ =~= self@.remove(identity@));
                return false;
            },
            Some(at) => at,
        };
        assert(holds_identity(before.identities@, identity@));
        self.identities.remove(at);
        let others_remain = self.has_user(&identity.user_id);
        let listed: Option<usize> = if others_remain {
            None
        } else {
            assert(before.identities@[at as int].user_id@ == identity.user_id@);
            assert(holds_user(before.identities@, identity.user_id@));
            assert(lists_user(before.user_ids@, identity.user_id@));
            self.find_user(&identity.user_id)
        };
        if let Some(k) = listed {
            self.user_ids.remove(k);
        }
        proof {
            let a = at as int;
            assert forall|i: int| 0 <= i < self.identities@.len() implies (
            #[trigger] self.identities@[i]) == before.identities@[if i < a {
                i
            } else {
                i + 1
            }] by {}
            assert forall|id: IdentityView| self@.contains(id) == before@.remove(
                identity@,
            ).contains(id) by {
                if holds_identity(self.identities@, id) {
                    let i = choose|i: int|
                        0 <= i < self.identities@.len() && (#[trigger] self.identities@[i])@ == id;
                    let j = if i < a {
                        i
                    } else {
                        i + 1
                    };
                    assert(before.identities@[j]@ == id);
                    assert(before.identities@[a]@ == identity@);
                    assert(j != a);
                    assert(id != identity@);
                }
                if holds_identity(before.identities@, id) && id != identity@ {
                    let j = choose|j: int|
                        0 <= j < before.identities@.len() && (#[trigger] before.identities@[j])@
                            == id;
                    let i = if j < a {
                        j
                    } else {
                        j - 1
                    };
                    assert(self.identities@[i]@ == id);
                }
            }
            assert(self@ =~= before@.remove(identity@));
            self.lemma_present(identity.user_id@);
            assert forall|user: Seq<char>| #[trigger]
                lists_user(self.user_ids@, user) <==> holds_user(self.identities@, user) by {
                assert(lists_user(before.user_ids@, user) <==> holds_user(
                    before.identities@,
                    user,
                ));
                if lists_user(self.user_ids@, user) {
                    let k = choose|k: int|
                        0 <= k < self.user_ids@.len() && (#[trigger] self.user_ids@[k])@ == user;
                    if others_remain {
                        assert(before.user_ids@[k]@ == user);
                    } else {
                        let r = listed.unwrap() as int;
                        let k0 = if k < r {
                            k
                        } else {
                            k + 1
                        };
                        assert(before.user_ids@[k0]@ == user);
                        assert(before.user_ids@[r]@ == identity.user_id@);
                        assert(user != identity.user_id@);
                    }
                    let j = choose|j: int|
                        0 <= j < before.identities@.len() && (
                        #[trigger] before.identities@[j]).user_id@ == user;
                    if j == a {
                        assert(user == identity.user_id@);
                        assert(holds_user(self.identities@, user));
                    } else {
                        let i = if j < a {
                            j
                        } else {
                            j - 1
                        };
                        assert(self.identities@[i].user_id@ == user);
                    }
                }
                if holds_user(self.identities@, user) {
                    let i = choose|i: int|
                        0 <= i < self.identities@.len() && (
                        #[trigger] self.identities@[i]).user_id@ == user;
                    let j = if i < a {
                        i
                    } else {
                        i + 1
                    };
                    assert(before.identities@[j].user_id@ == user);
                    let k0 = choose|k: int|
                        0 <= k < before.user_ids@.len() && (#[trigger] before.user_ids@[k])@
                            == user;
                    if others_remain {
                        assert(self.user_ids@[k0]@ == user);
                    } else {
                        let r = listed.unwrap() as int;
                        assert(user != identity.user_id@);
                        assert(k0 != r);
                        let k = if k0 < r {
                            k0
                        } else {
                            k0 - 1
                        };
                        assert(self.user_ids@[k]@ == user);
                    }
                }
            }
        }
        !others_remain
    }

    /// The distinct users present, each once, in the order in which they
    /// became present.
    pub fn get_unique_user_ids(&self) -> (ids: Vec<String>)
        requires
            self.wf(),
        ensures
            ids.deep_view() == self.listed_users(),
            ids.deep_view().no_duplicates(),
            ids.deep_view().to_set() == present_users(self@),
    {
        let mut ids: Vec<String> = Vec::new();
        let mut k: usize = 0;
        while k < self.user_ids.len()
            invariant
                k <= self.user_ids.len(),
                ids.len() == k,
                forall|j: int| 0 <= j < k ==> (#[trigger] ids[j])@ == self.user_ids[j]@,
            decreases self.user_ids.len() - k,
        {
            ids.push(self.user_ids[k].clone());
            k += 1;
        }
        proof {
            assert(ids.deep_view() =~= self.listed_users());
            self.lemma_listed_users();
        }
        ids
    }
}

} // verus!
