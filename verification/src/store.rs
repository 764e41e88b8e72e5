//! The subscription store: one record per (user, title) interest, with
//! insert, first-match delete, first-match update, and per-user scans.
//!
//! This is the in-memory store the verified logic runs against; a
//! persistent backend with the same operation contracts can stand in for
//! it outside the library.

use vstd::prelude::*;

verus! {

/// One user's interest in one catalog title.
pub struct Subscription {
    pub user_id: i64,
    pub anime_id: i32,
    pub anime_name: String,
    pub last_episode: i32,
}

impl Clone for Subscription {
    fn clone(&self) -> (r: Self)
        ensures
            r == *self,
    {
        Subscription {
            user_id: self.user_id,
            anime_id: self.anime_id,
            anime_name: self.anime_name.clone(),
            last_episode: self.last_episode,
        }
    }
}

/// Whether a record carries exactly these user and title identifiers.
pub open spec fn same_ids(s: Subscription, user_id: i64, anime_id: i32) -> bool {
    s.user_id == user_id && s.anime_id == anime_id
}

/// Whether a record carries this user identifier and this stored title name.
pub open spec fn same_user_name(s: Subscription, user_id: i64, name: Seq<char>) -> bool {
    s.user_id == user_id && s.anime_name@ == name
}

/// The record with its episode count replaced.
pub open spec fn with_last(s: Subscription, n: i32) -> Subscription {
    Subscription { last_episode: n, ..s }
}

/// `i` is the position of the first identifier match in `rows`.
pub open spec fn first_ids_match(rows: Seq<Subscription>, user_id: i64, anime_id: i32, i: int) -> bool {
    &&& 0 <= i < rows.len()
    &&& same_ids(rows[i], user_id, anime_id)
    &&& forall|j: int| 0 <= j < i ==> !same_ids(rows[j], user_id, anime_id)
}

/// `i` is the position of the first (user, stored name) match in `rows`.
pub open spec fn first_name_match(rows: Seq<Subscription>, user_id: i64, name: Seq<char>, i: int) -> bool {
    &&& 0 <= i < rows.len()
    &&& same_user_name(rows[i], user_id, name)
    &&& forall|j: int| 0 <= j < i ==> !same_user_name(rows[j], user_id, name)
}

/// The character sequences behind a vector of strings, in order.
pub open spec fn views_of(v: Seq<String>) -> Seq<Seq<char>> {
    v.map_values(|s: String| s@)
}

/// The stored names of one user's records, in store order.
pub open spec fn names_for_user(rows: Seq<Subscription>, user_id: i64) -> Seq<Seq<char>>
    decreases rows.len(),
{
    if rows.len() == 0 {
        Seq::empty()
    } else {
        let rest = names_for_user(rows.drop_first(), user_id);
        if rows[0].user_id == user_id {
            seq![rows[0].anime_name@] + rest
        } else {
            rest
        }
    }
}

/// One user's records, in store order.
pub open spec fn rows_for_user(rows: Seq<Subscription>, user_id: i64) -> Seq<Subscription>
    decreases rows.len(),
{
    if rows.len() == 0 {
        Seq::empty()
    } else {
        let rest = rows_for_user(rows.drop_first(), user_id);
        if rows[0].user_id == user_id {
            seq![rows[0]] + rest
        } else {
            rest
        }
    }
}

/// All subscription records, in insertion order.
pub struct SubscriptionStore {
    rows: Vec<Subscription>,
}

impl SubscriptionStore {
    /// The stored records, in store order.
    pub closed spec fn rows(&self) -> Seq<Subscription> {
        self.rows@
    }

    pub fn new() -> (s: Self)
        ensures
            s.rows() == Seq::<Subscription>::empty(),
    {
        SubscriptionStore { rows: Vec::new() }
    }

    pub fn len(&self) -> (n: usize)
        ensures
            n == self.rows().len(),
    {
        self.rows.len()
    }

    /// A copy of the record at `i`.
    pub fn get(&self, i: usize) -> (s: Subscription)
        requires
            i < self.rows().len(),
        ensures
            s == self.rows()[i as int],
    {
        self.rows[i].clone()
    }

    /// Appends a record; the store itself does not enforce uniqueness of
    /// (user, title) pairs.
    pub fn insert(&mut self, s: Subscription)
        ensures
            final(self).rows() == old(self).rows().push(s),
    {
        self.rows.push(s);
    }

    /// Removes the first record with these identifiers, if any, and reports
    /// how many records were removed (zero or one).
    pub fn delete_by_ids(&mut self, user_id: i64, anime_id: i32) -> (removed: u64)
        ensures
            removed <= 1,
            removed == 0 ==> {
                &&& final(self).rows() == old(self).rows()
                &&& forall|i: int|
                    0 <= i < old(self).rows().len() ==> !same_ids(old(self).rows()[i], user_id, anime_id)
            },
            removed == 1 ==> exists|i: int|
                #[trigger] first_ids_match(old(self).rows(), user_id, anime_id, i)
                    && final(self).rows() == old(self).rows().remove(i),
    {
        let n = self.rows.len();
        for i in 0..n
            invariant
                n == self.rows@.len(),
                self.rows@ == old(self).rows(),
                forall|j: int| 0 <= j < i ==> !same_ids(self.rows@[j], user_id, anime_id),
        {
            if self.rows[i].user_id == user_id && self.rows[i].anime_id == anime_id {
                proof {
                    assert(first_ids_match(old(self).rows(), user_id, anime_id, i as int));
                }
                self.rows.remove(i);
                return 1;
            }
        }
        0
    }

    /// Removes the first record of this user with this stored title name, if
    /// any, and reports how many records were removed (zero or one).
    pub fn delete_by_name(&mut self, user_id: i64, name: &str) -> (removed: u64)
        ensures
            removed <= 1,
            removed == 0 ==> {
                &&& final(self).rows() == old(self).rows()
                &&& forall|i: int|
                    0 <= i < old(self).rows().len() ==> !same_user_name(old(self).rows()[i], user_id, name@)
            },
            removed == 1 ==> exists|i: int|
                #[trigger] first_name_match(old(self).rows(), user_id, name@, i)
                    && final(self).rows() == old(self).rows().remove(i),
    {
        let n = self.rows.len();
        let owned: String = name.to_owned();
        for i in 0..n
            invariant
                n == self.rows@.len(),
                self.rows@ == old(self).rows(),
                owned@ == name@,
                forall|j: int| 0 <= j < i ==> !same_user_name(self.rows@[j], user_id, name@),
        {
            if self.rows[i].user_id == user_id && self.rows[i].anime_name == owned {
                proof {
                    assert(first_name_match(old(self).rows(), user_id, name@, i as int));
                }
                self.rows.remove(i);
                return 1;
            }
        }
        0
    }

    /// Sets the episode count of the first record with these identifiers, if
    /// any, and reports whether a record matched.
    pub fn update_episode_count(&mut self, user_id: i64, anime_id: i32, new_count: i32) -> (updated: bool)
        ensures
            !updated ==> {
                &&& final(self).rows() == old(self).rows()
                &&& forall|i: int|
                    0 <= i < old(self).rows().len() ==> !same_ids(old(self).rows()[i], user_id, anime_id)
            },
            updated ==> exists|i: int|
                #[trigger] first_ids_match(old(self).rows(), user_id, anime_id, i)
                    && final(self).rows() == old(self).rows().update(i, with_last(old(self).rows()[i], new_count)),
    {
        let n = self.rows.len();
        for i in 0..n
            invariant
                n == self.rows@.len(),
                self.rows@ == old(self).rows(),
                forall|j: int| 0 <= j < i ==> !same_ids(self.rows@[j], user_id, anime_id),
        {
            if self.rows[i].user_id == user_id && self.rows[i].anime_id == anime_id {
                proof {
                    assert(first_ids_match(old(self).rows(), user_id, anime_id, i as int));
                }
                self.rows[i].last_episode = new_count;
                proof {
                    assert(self.rows@[i as int] == with_last(old(self).rows()[i as int], new_count));
                    assert(self.rows@ =~= old(self).rows().update(
                        i as int,
                        with_last(old(self).rows()[i as int], new_count),
                    ));
                }
                return true;
            }
        }
        false
    }

    /// A fresh copy of every stored record, in store order; each pass
    /// scans such a snapshot.
    pub fn find_all(&self) -> (out: Vec<Subscription>)
        ensures
            out@ == self.rows(),
    {
        let mut out: Vec<Subscription> = Vec::new();
        let n = self.rows.len();
        for i in 0..n
            invariant
                n == self.rows@.len(),
                out@ =~= self.rows@.take(i as int),
        {
            out.push(self.rows[i].clone());
            proof {
                assert(out@ =~= self.rows@.take(i as int + 1));
            }
        }
        proof {
            assert(self.rows@.take(n as int) =~= self.rows@);
        }
        out
    }

    /// A copy of one user's records, in store order.
    pub fn find_by_user(&self, user_id: i64) -> (out: Vec<Subscription>)
        ensures
            out@ == rows_for_user(self.rows(), user_id),
    {
        let mut out: Vec<Subscription> = Vec::new();
        let n = self.rows.len();
        proof {
            assert(self.rows@.skip(0) =~= self.rows@);
            assert(out@ + rows_for_user(self.rows@, user_id) =~= rows_for_user(
                self.rows@,
                user_id,
            ));
        }
        for i in 0..n
            invariant
                n == self.rows@.len(),
                rows_for_user(self.rows@, user_id) == out@ + rows_for_user(
                    self.rows@.skip(i as int),
                    user_id,
                ),
        {
            proof {
                assert(self.rows@.skip(i as int).drop_first() =~= self.rows@.skip(i as int + 1));
                assert(self.rows@.skip(i as int)[0] == self.rows@[i as int]);
            }
            let ghost prev = out@;
            if self.rows[i].user_id == user_id {
                out.push(self.rows[i].clone());
                proof {
                    let ghost row = self.rows@[i as int];
                    let ghost rest = rows_for_user(self.rows@.skip(i as int + 1), user_id);
                    assert(out@ =~= prev + seq![row]);
                    assert(prev + (seq![row] + rest) =~= (prev + seq![row]) + rest);
                }
            }
        }
        proof {
            assert(self.rows@.skip(n as int) =~= Seq::<Subscription>::empty());
            assert(out@ + rows_for_user(self.rows@.skip(n as int), user_id) =~= out@);
        }
        out
    }

    /// The stored title names of one user's records, in store order.
    pub fn list_names(&self, user_id: i64) -> (out: Vec<String>)
        ensures
            views_of(out@) == names_for_user(self.rows(), user_id),
    {
        let mut out: Vec<String> = Vec::new();
        let n = self.rows.len();
        proof {
            assert(self.rows@.skip(0) =~= self.rows@);
            assert(views_of(out@) + names_for_user(self.rows@, user_id)
                =~= names_for_user(self.rows@, user_id));
        }
        for i in 0..n
            invariant
                n == self.rows@.len(),
                names_for_user(self.rows@, user_id) == views_of(out@)
                    + names_for_user(self.rows@.skip(i as int), user_id),
        {
            proof {
                assert(self.rows@.skip(i as int).drop_first() =~= self.rows@.skip(i as int + 1));
                assert(self.rows@.skip(i as int)[0] == self.rows@[i as int]);
            }
            let ghost prev = out@;
            if self.rows[i].user_id == user_id {
                out.push(self.rows[i].anime_name.clone());
                proof {
                    let ghost name = self.rows@[i as int].anime_name@;
                    let ghost rest = names_for_user(self.rows@.skip(i as int + 1), user_id);
                    assert(views_of(out@) =~= views_of(prev) + seq![name]);
                    assert(views_of(prev) + (seq![name] + rest) =~= (views_of(prev) + seq![name]) + rest);
                }
            }
        }
        proof {
            assert(self.rows@.skip(n as int) =~= Seq::<Subscription>::empty());
            assert(views_of(out@) + names_for_user(self.rows@.skip(n as int), user_id) =~= views_of(out@));
        }
        out
    }
}

} // verus!
