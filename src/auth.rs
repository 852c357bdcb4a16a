//! The cache of per-owner platform credentials, keyed by installation.
use vstd::prelude::*;

use crate::text::str_equal;

verus! {

/// The installation id stored for `user`: the first entry for that user.
pub open spec fn stored_installation(users: Seq<(Seq<char>, u64)>, user: Seq<char>) -> Option<u64>
    decreases users.len(),
{
    if users.len() == 0 {
        None
    } else {
        match stored_installation(users.drop_last(), user) {
            Some(id) => Some(id),
            None => if users.last().0 == user {
                Some(users.last().1)
            } else {
                None
            },
        }
    }
}

/// The position of the first entry of `user`.
pub open spec fn user_index(users: Seq<(Seq<char>, u64)>, user: Seq<char>) -> Option<int>
    decreases users.len(),
{
    if users.len() == 0 {
        None
    } else {
        match user_index(users.drop_last(), user) {
            Some(i) => Some(i),
            None => if users.last().0 == user {
                Some(users.len() - 1)
            } else {
                None
            },
        }
    }
}

/// The entries after `user` was stored for installation `id`: its first entry
/// replaced, or a new entry at the end.
pub open spec fn users_after_update(users: Seq<(Seq<char>, u64)>, user: Seq<char>, id: u64) -> Seq<(Seq<char>, u64)> {
    match user_index(users, user) {
        Some(i) => users.update(i, (user, id)),
        None => users.push((user, id)),
    }
}

proof fn lemma_user_index(users: Seq<(Seq<char>, u64)>, user: Seq<char>, i: int)
    requires
        0 <= i < users.len(),
        users[i].0 == user,
        forall|j: int| 0 <= j < i ==> (#[trigger] users[j]).0 != user,
    ensures
        user_index(users, user) == Some(i),
    decreases users.len(),
{
    if i < users.len() - 1 {
        lemma_user_index(users.drop_last(), user, i);
    } else {
        lemma_user_index_none(users.drop_last(), user);
    }
}

proof fn lemma_user_index_none(users: Seq<(Seq<char>, u64)>, user: Seq<char>)
    requires
        forall|j: int| 0 <= j < users.len() ==> (#[trigger] users[j]).0 != user,
    ensures
        user_index(users, user).is_none(),
    decreases users.len(),
{
    if users.len() > 0 {
        lemma_user_index_none(users.drop_last(), user);
    }
}

/// A handle per owner, with the installation id it was obtained for. `H` is
/// whatever the caller authenticates with.
pub struct Auth<H> {
    users: Vec<(String, u64, H)>,
}

impl<H> View for Auth<H> {
    type V = Seq<(Seq<char>, u64)>;

    closed spec fn view(&self) -> Seq<(Seq<char>, u64)> {
        self.users@.map_values(|e: (String, u64, H)| (e.0@, e.1))
    }
}

/// Replacing the first entry of a user, or adding one, stores the new id.
proof fn lemma_stored_after_set(users: Seq<(Seq<char>, u64)>, user: Seq<char>, id: u64, i: int)
    requires
        0 <= i < users.len(),
        users[i].0 == user,
        forall|j: int| 0 <= j < i ==> (#[trigger] users[j]).0 != user,
    ensures
        stored_installation(users, user) == Some(users[i].1),
    decreases users.len(),
{
    if i < users.len() - 1 {
        lemma_stored_after_set(users.drop_last(), user, id, i);
    } else {
        lemma_stored_none(users.drop_last(), user);
    }
}

proof fn lemma_stored_none(users: Seq<(Seq<char>, u64)>, user: Seq<char>)
    requires
        forall|j: int| 0 <= j < users.len() ==> (#[trigger] users[j]).0 != user,
    ensures
        stored_installation(users, user).is_none(),
    decreases users.len(),
{
    if users.len() > 0 {
        lemma_stored_none(users.drop_last(), user);
    }
}

impl<H> Auth<H> {
    pub fn new() -> (r: Auth<H>)
        ensures
            r@.len() == 0,
    {
        let r = Auth { users: Vec::new() };
        assert(r@ =~= Seq::<(Seq<char>, u64)>::empty());
        r
    }

    fn position(&self, user: &str) -> (r: Option<usize>)
        ensures
            r.is_some() ==> r.unwrap() < self@.len() && self@[r.unwrap() as int].0 == user@
                && forall|j: int| 0 <= j < r.unwrap() ==> (#[trigger] self@[j]).0 != user@,
            r.is_none() ==> forall|j: int| 0 <= j < self@.len() ==> (#[trigger] self@[j]).0 != user@,
    {
        let mut i: usize = 0;
        while i < self.users.len()
            invariant
                i <= self.users@.len(),
                self@.len() == self.users@.len(),
                forall|j: int| 0 <= j < self@.len() ==> #[trigger] self@[j] == (self.users@[j].0@, self.users@[j].1),
                forall|j: int| 0 <= j < i ==> (#[trigger] self@[j]).0 != user@,
            decreases self.users@.len() - i,
        {
            if str_equal(self.users[i].0.as_str(), user) {
                return Some(i);
            }
            i = i + 1;
        }
        None
    }

    /// The installation id stored for `user`.
    pub fn installation(&self, user: &str) -> (r: Option<u64>)
        ensures
            r == stored_installation(self@, user@),
    {
        match self.position(user) {
            Some(i) => {
                proof {
                    lemma_stored_after_set(self@, user@, 0, i as int);
                }
                Some(self.users[i].1)
            },
            None => {
                proof {
                    lemma_stored_none(self@, user@);
                }
                None
            },
        }
    }

    /// Whether the handle of `user` must be fetched anew for installation
    /// `id`: there is none, or it was obtained for another installation.
    pub fn needs_update(&self, user: &str, id: u64) -> (r: bool)
        ensures
            r == (stored_installation(self@, user@) != Some(id)),
    {
        match self.installation(user) {
            Some(stored) => stored != id,
            None => true,
        }
    }

    /// Stores the handle of `user`, obtained for installation `id`.
    pub fn update_user(&mut self, user: &str, id: u64, handle: H)
        ensures
            final(self)@ == users_after_update(old(self)@, user@, id),
            stored_installation(final(self)@, user@) == Some(id),
            forall|u: Seq<char>| u != user@ ==> #[trigger] stored_installation(final(self)@, u)
                == stored_installation(old(self)@, u),
    {
        let ghost before = self@;
        match self.position(user) {
            Some(i) => {
                self.users.set(i, (user.to_owned(), id, handle));
                proof {
                    lemma_user_index(before, user@, i as int);
                    assert(self@ =~= before.update(i as int, (user@, id)));
                    lemma_stored_after_set(self@, user@, id, i as int);
                    assert forall|u: Seq<char>| u != user@ implies #[trigger] stored_installation(self@, u)
                        == stored_installation(before, u) by {
                        lemma_stored_other(before, i as int, (user@, id), u);
                    }
                }
            },
            None => {
                self.users.push((user.to_owned(), id, handle));
                proof {
                    lemma_user_index_none(before, user@);
                    assert(self@ =~= before.push((user@, id)));
                    assert(self@.drop_last() =~= before);
                    lemma_stored_none(before, user@);
                    assert forall|u: Seq<char>| u != user@ implies #[trigger] stored_installation(self@, u)
                        == stored_installation(before, u) by {
                        assert(self@.drop_last() =~= before);
                    }
                }
            },
        }
    }

    /// The handle stored for `user`.
    pub fn user(&self, user: &str) -> (r: Option<&H>)
        ensures
            r.is_some() == stored_installation(self@, user@).is_some(),
    {
        match self.position(user) {
            Some(i) => {
                proof {
                    lemma_stored_after_set(self@, user@, 0, i as int);
                }
                Some(&self.users[i].2)
            },
            None => {
                proof {
                    lemma_stored_none(self@, user@);
                }
                None
            },
        }
    }
}

proof fn lemma_stored_other(users: Seq<(Seq<char>, u64)>, i: int, e: (Seq<char>, u64), u: Seq<char>)
    requires
        0 <= i < users.len(),
        users[i].0 == e.0,
        u != e.0,
    ensures
        stored_installation(users.update(i, e), u) == stored_installation(users, u),
    decreases users.len(),
{
    if i < users.len() - 1 {
        lemma_stored_other(users.drop_last(), i, e, u);
        assert(users.update(i, e).drop_last() =~= users.drop_last().update(i, e));
    } else {
        assert(users.update(i, e).drop_last() =~= users.drop_last());
    }
}

/// Updating a user twice with the same installation fetches one handle:
/// after `update_user(user, id, ..)`, `needs_update(user, id)` is false, and
/// other users keep their installations.
pub proof fn lemma_update_user_once(users: Seq<(Seq<char>, u64)>, user: Seq<char>, id: u64)
    ensures
        stored_installation(users_after_update(users, user, id), user) == Some(id),
        forall|u: Seq<char>|
            u != user ==> #[trigger] stored_installation(users_after_update(users, user, id), u)
                == stored_installation(users, u),
{
    match user_index(users, user) {
        Some(i) => {
            lemma_user_index_facts(users, user);
            let after = users.update(i, (user, id));
            assert forall|j: int| 0 <= j < i implies (#[trigger] after[j]).0 != user by {
                assert(after[j] == users[j]);
            }
            lemma_stored_after_set(after, user, id, i);
            assert forall|u: Seq<char>| u != user implies #[trigger] stored_installation(after, u)
                == stored_installation(users, u) by {
                lemma_stored_other(users, i, (user, id), u);
            }
        },
        None => {
            lemma_user_index_facts(users, user);
            let after = users.push((user, id));
            assert(after.drop_last() =~= users);
            lemma_stored_none(users, user);
        },
    }
}

proof fn lemma_user_index_facts(users: Seq<(Seq<char>, u64)>, user: Seq<char>)
    ensures
        user_index(users, user).is_some() ==> {
            let i = user_index(users, user).unwrap();
            &&& 0 <= i < users.len()
            &&& users[i].0 == user
            &&& forall|j: int| 0 <= j < i ==> (#[trigger] users[j]).0 != user
        },
        user_index(users, user).is_none() ==> forall|j: int|
            0 <= j < users.len() ==> (#[trigger] users[j]).0 != user,
    decreases users.len(),
{
    if users.len() > 0 {
        let p = users.drop_last();
        lemma_user_index_facts(p, user);
        assert forall|j: int| 0 <= j < p.len() implies #[trigger] p[j] == users[j] by {}
        if user_index(p, user).is_none() && users.last().0 != user {
            assert forall|j: int| 0 <= j < users.len() implies (#[trigger] users[j]).0 != user by {
                if j < p.len() {
                    assert(p[j] == users[j]);
                }
            }
        }
        if user_index(p, user).is_none() {
            assert forall|j: int| 0 <= j < p.len() implies (#[trigger] users[j]).0 != user by {
                assert(p[j] == users[j]);
            }
        }
        if user_index(p, user).is_some() {
            let i = user_index(p, user).unwrap();
            assert forall|j: int| 0 <= j < i implies (#[trigger] users[j]).0 != user by {
                assert(p[j] == users[j]);
            }
        }
    }
}

} // verus!
