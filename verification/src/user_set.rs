//! A set of user ids.

use vstd::prelude::*;
use crate::text::str_equal;

verus! {

/// A set of user ids, kept in the order in which they were added.
#[derive(Debug)]
pub struct UserSet {
    ids: Vec<String>,
}

impl View for UserSet {
    type V = Set<Seq<char>>;

    closed spec fn view(&self) -> Set<Seq<char>> {
        self.ids.deep_view().to_set()
    }
}

impl UserSet {
    /// No id is stored twice.
    pub closed spec fn wf(&self) -> bool {
        self.ids.deep_view().no_duplicates()
    }

    /// The ids in the order in which they were added.
    pub closed spec fn listed(&self) -> Seq<Seq<char>> {
        self.ids.deep_view()
    }

    /// The empty set.
    pub fn new() -> (set: Self)
        ensures
            set.wf(),
            set@ == Set::<Seq<char>>::empty(),
    {
        let set = UserSet { ids: Vec::new() };
        assert(set.ids.deep_view() =~= Seq::empty());
        assert(set@ =~= Set::<Seq<char>>::empty());
        set
    }

    /// Where `user` is stored, if it is.
    fn find(&self, user: &str) -> (found: Option<usize>)
        ensures
            found matches Some(i) ==> i < self.ids.len() && self.ids[i as int]@ == user@,
            found is None ==> !self@.contains(user@),
    {
        let mut i: usize = 0;
        while i < self.ids.len()
            invariant
                i <= self.ids.len(),
                forall|j: int| 0 <= j < i ==> (#[trigger] self.ids[j])@ != user@,
            decreases self.ids.len() - i,
        {
            if str_equal(self.ids[i].as_str(), user) {
                return Some(i);
            }
            i += 1;
        }
        proof {
            let listed = self.ids.deep_view();
            if listed.contains(user@) {
                let j = choose|j: int| 0 <= j < listed.len() && listed[j] == user@;
                assert(self.ids[j]@ == user@);
            }
        }
        None
    }

    /// Whether `user` is a member.
    pub fn contains(&self, user: &str) -> (found: bool)
        ensures
            found == self@.contains(user@),
    {
        match self.find(user) {
            Some(i) => {
                assert(self.ids.deep_view()[i as int] == user@);
                true
            },
            None => false,
        }
    }

    /// How many members there are.
    pub fn len(&self) -> (n: usize)
        requires
            self.wf(),
        ensures
            n == self@.len(),
    {
        proof {
            self.ids.deep_view().unique_seq_to_set();
        }
        self.ids.len()
    }

    /// Adds `user`. Returns whether it was new.
    pub fn insert(&mut self, user: String) -> (added: bool)
        requires
            old(self).wf(),
        ensures
            final(self).wf(),
            final(self)@ == old(self)@.insert(user@),
            added == !old(self)@.contains(user@),
    {
        if self.contains(user.as_str()) {
            assert(self@ =~= self@.insert(user@));
            return false;
        }
        let ghost before = self.ids.deep_view();
        self.ids.push(user);
        proof {
            let after = self.ids.deep_view();
            assert(after =~= before.push(user@));
            assert forall|i: int, j: int| 0 <= i < after.len() && 0 <= j < after.len() && i
                != j implies after[i] != after[j] by {
                if i < before.len() && j < before.len() {
                    assert(before[i] != before[j]);
                } else if i < before.len() {
                    assert(before.contains(before[i]));
                } else {
                    assert(before.contains(before[j]));
                }
            }
            assert forall|u: Seq<char>| after.to_set().contains(u) == before.to_set().insert(
                user@,
            ).contains(u) by {
                if after.contains(u) {
                    let i = choose|i: int| 0 <= i < after.len() && after[i] == u;
                    if i < before.len() {
                        assert(before[i] == u);
                    }
                }
                if before.contains(u) {
                    let i = choose|i: int| 0 <= i < before.len() && before[i] == u;
                    assert(after[i] == u);
                }
                assert(after[before.len() as int] == user@);
            }
            assert(self@ =~= before.to_set().insert(user@));
        }
        true
    }

    /// Takes `user` out. Returns whether it was a member.
    pub fn remove(&mut self, user: &str) -> (removed: bool)
        requires
            old(self).wf(),
        ensures
            final(self).wf(),
            final(self)@ == old(self)@.remove(user@),
            removed == old(self)@.contains(user@),
    {
        let at = match self.find(user) {
            Some(at) => at,
            None => {
                assert(self@ =~= self@.remove(user@));
                return false;
            },
        };
        let ghost before = self.ids.deep_view();
        assert(before[at as int] == user@);
        self.ids.remove(at);
        proof {
            let after = self.ids.deep_view();
            let a = at as int;
            assert(after =~= before.remove(a));
            assert forall|i: int, j: int| 0 <= i < after.len() && 0 <= j < after.len() && i
                != j implies after[i] != after[j] by {
                let i0 = if i < a { i } else { i + 1 };
                let j0 = if j < a { j } else { j + 1 };
                assert(before[i0] != before[j0]);
            }
            assert forall|u: Seq<char>| after.to_set().contains(u) == before.to_set().remove(
                user@,
            ).contains(u) by {
                if after.contains(u) {
                    let i = choose|i: int| 0 <= i < after.len() && after[i] == u;
                    let i0 = if i < a { i } else { i + 1 };
                    assert(before[i0] == u);
                    assert(before[i0] != before[a]);
                }
                if before.contains(u) && u != user@ {
                    let i0 = choose|i: int| 0 <= i < before.len() && before[i] == u;
                    let i = if i0 < a { i0 } else { i0 - 1 };
                    assert(after[i] == u);
                }
            }
            assert(self@ =~= before.to_set().remove(user@));
        }
        true
    }

    /// The set of the ids in `list`.
    pub fn from_list(list: &Vec<String>) -> (set: Self)
        ensures
            set.wf(),
            set@ == list.deep_view().to_set(),
    {
        let mut set = UserSet::new();
        let mut i: usize = 0;
        let ghost ids = list.deep_view();
        assert(ids.subrange(0, 0).to_set() =~= Set::<Seq<char>>::empty());
        while i < list.len()
            invariant
                i <= list.len(),
                ids == list.deep_view(),
                set.wf(),
                set@ == ids.subrange(0, i as int).to_set(),
            decreases list.len() - i,
        {
            let ghost before = set@;
            set.insert(list[i].clone());
            proof {
                let shorter = ids.subrange(0, i as int);
                let longer = ids.subrange(0, i as int + 1);
                assert(longer =~= shorter.push(ids[i as int]));
                assert forall|u: Seq<char>| longer.to_set().contains(u) == before.insert(
                    ids[i as int],
                ).contains(u) by {
                    if longer.contains(u) {
                        let j = choose|j: int| 0 <= j < longer.len() && longer[j] == u;
                        if j < shorter.len() {
                            assert(shorter[j] == u);
                        }
                    }
                    if shorter.contains(u) {
                        let j = choose|j: int| 0 <= j < shorter.len() && shorter[j] == u;
                        assert(longer[j] == u);
                    }
                    assert(longer[i as int] == ids[i as int]);
                }
                assert(set@ =~= longer.to_set());
            }
            i += 1;
        }
        assert(ids.subrange(0, i as int) =~= ids);
        set
    }

    /// The members, each once, in the order in which they were added.
    pub fn to_vec(&self) -> (ids: Vec<String>)
        requires
            self.wf(),
        ensures
            ids.deep_view() == self.listed(),
            ids.deep_view().no_duplicates(),
            ids.deep_view().to_set() == self@,
    {
        crate::text::clone_strings(&self.ids)
    }
}

impl Clone for UserSet {
    fn clone(&self) -> (copy: Self)
        ensures
            copy@ == self@,
            copy.listed() == self.listed(),
            copy.wf() == self.wf(),
    {
        UserSet { ids: crate::text::clone_strings(&self.ids) }
    }
}

} // verus!
