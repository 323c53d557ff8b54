//! An in-memory address book of known participants, queried by name.
//! Uniqueness of names is deliberately not enforced: lookups return the
//! first match in insertion order, removal drops every match.

use vstd::prelude::*;
use vstd::string::*;
use crate::user::User;

verus! {

/// The first user carrying a name, in insertion order, if any.
pub open spec fn find_user(users: Seq<User>, name: Seq<char>) -> Option<User>
    decreases users.len(),
{
    if users.len() == 0 {
        None
    } else if users[0].username@ == name {
        Some(users[0])
    } else {
        find_user(users.subrange(1, users.len() as int), name)
    }
}

/// The users left after dropping every one carrying a name, in order.
pub open spec fn remove_named(users: Seq<User>, name: Seq<char>) -> Seq<User>
    decreases users.len(),
{
    if users.len() == 0 {
        Seq::empty()
    } else if users[0].username@ == name {
        remove_named(users.subrange(1, users.len() as int), name)
    } else {
        seq![users[0]] + remove_named(users.subrange(1, users.len() as int), name)
    }
}

proof fn lemma_find_user_at(users: Seq<User>, name: Seq<char>, k: int)
    requires
        0 <= k < users.len(),
        users[k].username@ == name,
        forall|j: int| 0 <= j < k ==> (#[trigger] users[j]).username@ != name,
    ensures
        find_user(users, name) == Some(users[k]),
    decreases k,
{
    if k > 0 {
        lemma_find_user_at(users.subrange(1, users.len() as int), name, k - 1);
    }
}

proof fn lemma_find_user_none(users: Seq<User>, name: Seq<char>)
    requires
        forall|j: int| 0 <= j < users.len() ==> (#[trigger] users[j]).username@ != name,
    ensures
        find_user(users, name) is None,
    decreases users.len(),
{
    if users.len() > 0 {
        lemma_find_user_none(users.subrange(1, users.len() as int), name);
    }
}

/// A successful lookup returns one of the listed users, and that user
/// carries the looked-up name.
pub proof fn lemma_find_user_found(users: Seq<User>, name: Seq<char>)
    requires
        find_user(users, name) is Some,
    ensures
        exists|k: int|
            0 <= k < users.len() && #[trigger] users[k] == find_user(users, name)->Some_0
                && users[k].username@ == name,
    decreases users.len(),
{
    if users.len() > 0 && users[0].username@ != name {
        let t = users.subrange(1, users.len() as int);
        lemma_find_user_found(t, name);
        let k = choose|k: int|
            0 <= k < t.len() && #[trigger] t[k] == find_user(t, name)->Some_0 && t[k].username@
                == name;
        assert(users[k + 1] == find_user(users, name)->Some_0);
    }
}

proof fn lemma_remove_named_app(a: Seq<User>, b: Seq<User>, name: Seq<char>)
    ensures
        remove_named(a + b, name) == remove_named(a, name) + remove_named(b, name),
    decreases a.len(),
{
    if a.len() == 0 {
        assert(a + b =~= b);
        assert(remove_named(a, name) + remove_named(b, name) =~= remove_named(b, name));
    } else {
        let t = a.subrange(1, a.len() as int);
        lemma_remove_named_app(t, b, name);
        assert((a + b).subrange(1, (a + b).len() as int) =~= t + b);
        assert((a + b)[0] == a[0]);
        if a[0].username@ != name {
            assert(seq![a[0]] + (remove_named(t, name) + remove_named(b, name)) =~= (seq![a[0]]
                + remove_named(t, name)) + remove_named(b, name));
        }
    }
}

proof fn lemma_remove_named_single(u: User, name: Seq<char>)
    ensures
        remove_named(seq![u], name) == if u.username@ == name {
            Seq::<User>::empty()
        } else {
            seq![u]
        },
{
    assert(seq![u].subrange(1, 1) =~= Seq::<User>::empty());
    assert(remove_named(Seq::<User>::empty(), name) == Seq::<User>::empty());
    if u.username@ != name {
        assert(seq![u] + Seq::<User>::empty() =~= seq![u]);
    }
}

/// The address book: a plain list of users in insertion order.
pub struct Contacts {
    pub users: Vec<User>,
}

impl Contacts {
    /// An empty address book.
    pub fn new() -> (r: Contacts)
        ensures
            r.users@.len() == 0,
    {
        Contacts { users: Vec::new() }
    }

    /// Appends a user. Nothing prevents a duplicate name.
    pub fn add(&mut self, user: User)
        ensures
            final(self).users@ == old(self).users@.push(user),
    {
        self.users.push(user);
    }

    /// Drops every user carrying the given name, keeping the others in
    /// order.
    pub fn remove(&mut self, username: &str)
        ensures
            final(self).users@ == remove_named(old(self).users@, username@),
    {
        let uname = String::from_str(username);
        let ghost orig = self.users@;
        let mut kept: Vec<User> = Vec::new();
        while self.users.len() > 0
            invariant
                uname@ == username@,
                self.users@.len() <= orig.len(),
                self.users@ =~= orig.subrange(
                    orig.len() - self.users@.len(),
                    orig.len() as int,
                ),
                kept@ == remove_named(
                    orig.subrange(0, orig.len() - self.users@.len()),
                    username@,
                ),
            decreases self.users@.len(),
        {
            let ghost p = orig.len() - self.users@.len();
            let u = self.users.remove(0);
            proof {
                assert(u == orig[p as int]);
                assert(self.users@ =~= orig.subrange(p as int + 1, orig.len() as int));
                assert(orig.subrange(0, p as int + 1) =~= orig.subrange(0, p as int) + seq![
                    orig[p as int],
                ]);
                lemma_remove_named_app(
                    orig.subrange(0, p as int),
                    seq![orig[p as int]],
                    username@,
                );
                lemma_remove_named_single(orig[p as int], username@);
            }
            if !(u.username == uname) {
                kept.push(u);
                proof {
                    assert(kept@ =~= remove_named(orig.subrange(0, p as int), username@) + seq![
                        orig[p as int],
                    ]);
                }
            } else {
                proof {
                    assert(kept@ =~= remove_named(orig.subrange(0, p as int), username@)
                        + Seq::<User>::empty());
                }
            }
        }
        proof {
            assert(orig.subrange(0, orig.len() as int) =~= orig);
        }
        self.users = kept;
    }

    /// The first user with the given name, or nothing.
    pub fn find(&self, username: &str) -> (r: Option<&User>)
        ensures
            match r {
                Some(u) => find_user(self.users@, username@) == Some(*u),
                None => find_user(self.users@, username@) is None,
            },
    {
        let uname = String::from_str(username);
        let mut k: usize = 0;
        while k < self.users.len()
            invariant
                uname@ == username@,
                k <= self.users@.len(),
                forall|j: int| 0 <= j < k ==> (#[trigger] self.users@[j]).username@ != username@,
            decreases self.users@.len() - k,
        {
            if self.users[k].username == uname {
                proof {
                    lemma_find_user_at(self.users@, username@, k as int);
                }
                return Some(&self.users[k]);
            }
            k += 1;
        }
        proof {
            lemma_find_user_none(self.users@, username@);
        }
        None
    }

    /// The names of all users, in insertion order.
    pub fn names(&self) -> (r: Vec<String>)
        ensures
            r@.len() == self.users@.len(),
            forall|j: int| 0 <= j < r@.len() ==> r@[j]@ == (#[trigger] self.users@[j]).username@,
    {
        let mut r: Vec<String> = Vec::new();
        let mut k: usize = 0;
        while k < self.users.len()
            invariant
                k <= self.users@.len(),
                r@.len() == k,
                forall|j: int| 0 <= j < k ==> r@[j]@ == (#[trigger] self.users@[j]).username@,
            decreases self.users@.len() - k,
        {
            r.push(String::from_str(self.users[k].username.as_str()));
            k += 1;
        }
        r
    }

    /// The first user with the given name, looked up through the name
    /// accessor; the same result as `find`.
    pub fn get(&self, username: &str) -> (r: Option<&User>)
        ensures
            match r {
                Some(u) => find_user(self.users@, username@) == Some(*u),
                None => find_user(self.users@, username@) is None,
            },
    {
        self.find(username)
    }
}

} // verus!
