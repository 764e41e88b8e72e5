//! The reconciliation pass: for every stored subscription, diff the
//! catalog's current view of the title against the stored episode count,
//! then either do nothing, record and announce a new episode, or drop the
//! subscription and announce that the title finished.
//!
//! Store mutation always comes before the matching notification, so the
//! store is already correct even when a delivery fails.

use vstd::prelude::*;

use crate::catalog::AnimeResponse;
use crate::store::{
    first_ids_match, same_ids, with_last, Subscription, SubscriptionStore,
};

verus! {

/// Outcome of one catalog lookup for a stored title name.
pub enum Lookup {
    /// The lookup failed (network or malformed response); try again next pass.
    Transient,
    /// The catalog knows no such title; the subscription is left untouched.
    NotFound,
    /// The catalog's current record for the title.
    Found(AnimeResponse),
}

/// What the pass does for one subscription.
#[derive(Clone, Copy, PartialEq, Eq, Structural, Debug)]
pub enum Action {
    /// No change observed; leave the record as it is.
    Keep,
    /// The title finished: drop the record and announce the completion.
    Complete,
    /// More episodes aired than last recorded: store the new count and
    /// announce it.
    NewEpisode(i32),
}

/// One message owed to a user, produced by the pass.
#[derive(Debug, PartialEq)]
pub enum Notification {
    NewEpisode { user_id: i64, anime_name: String, episode: i32 },
    Completed { user_id: i64, anime_name: String },
}

/// The action the pass takes for subscription `s` given lookup outcome `lk`.
pub open spec fn decision(s: Subscription, lk: Lookup) -> Action {
    match lk {
        Lookup::Transient => Action::Keep,
        Lookup::NotFound => Action::Keep,
        Lookup::Found(e) => if e.spec_is_released() {
            Action::Complete
        } else {
            match e.episodes_aired {
                Some(n) => if n > s.last_episode {
                    Action::NewEpisode(n)
                } else {
                    Action::Keep
                },
                None => Action::Keep,
            }
        },
    }
}

/// The notification owed for subscription `s` under action `a`.
pub open spec fn notif_for(s: Subscription, a: Action) -> Option<Notification> {
    match a {
        Action::Keep => None,
        Action::Complete => Some(
            Notification::Completed { user_id: s.user_id, anime_name: s.anime_name },
        ),
        Action::NewEpisode(n) => Some(
            Notification::NewEpisode { user_id: s.user_id, anime_name: s.anime_name, episode: n },
        ),
    }
}

/// A sequence of the option's content: empty, or a single element.
pub open spec fn opt_seq(o: Option<Notification>) -> Seq<Notification> {
    match o {
        Some(x) => seq![x],
        None => Seq::empty(),
    }
}

/// Position of the first identifier match in `rows`; `rows.len()` when none.
pub open spec fn spec_first_idx_ids(rows: Seq<Subscription>, user_id: i64, anime_id: i32) -> int
    decreases rows.len(),
{
    if rows.len() == 0 {
        0
    } else if same_ids(rows[0], user_id, anime_id) {
        0
    } else {
        1 + spec_first_idx_ids(rows.drop_first(), user_id, anime_id)
    }
}

/// `rows` with its first identifier match removed, if any.
pub open spec fn spec_delete_ids(rows: Seq<Subscription>, user_id: i64, anime_id: i32) -> Seq<Subscription> {
    let i = spec_first_idx_ids(rows, user_id, anime_id);
    if i < rows.len() {
        rows.remove(i)
    } else {
        rows
    }
}

/// `rows` with the episode count of its first identifier match replaced, if any.
pub open spec fn spec_update_ids(
    rows: Seq<Subscription>,
    user_id: i64,
    anime_id: i32,
    n: i32,
) -> Seq<Subscription> {
    let i = spec_first_idx_ids(rows, user_id, anime_id);
    if i < rows.len() {
        rows.update(i, with_last(rows[i], n))
    } else {
        rows
    }
}

/// The store contents after action `a` for subscription `s` is applied to `pre`.
pub open spec fn rows_after(pre: Seq<Subscription>, s: Subscription, a: Action) -> Seq<Subscription> {
    match a {
        Action::Keep => pre,
        Action::Complete => spec_delete_ids(pre, s.user_id, s.anime_id),
        Action::NewEpisode(n) => spec_update_ids(pre, s.user_id, s.anime_id, n),
    }
}

/// The store contents after the whole pass: the snapshot rows `snap` are
/// visited left to right with their lookup outcomes `lks`, each action
/// applied to the evolving store that started as `pre`.
pub open spec fn pass_rows(
    snap: Seq<Subscription>,
    lks: Seq<Lookup>,
    pre: Seq<Subscription>,
) -> Seq<Subscription>
    decreases snap.len(),
{
    if snap.len() == 0 || lks.len() == 0 {
        pre
    } else {
        pass_rows(
            snap.drop_first(),
            lks.drop_first(),
            rows_after(pre, snap[0], decision(snap[0], lks[0])),
        )
    }
}

/// Every notification the pass attempts, in order of the snapshot rows.
pub open spec fn pass_notifs(snap: Seq<Subscription>, lks: Seq<Lookup>) -> Seq<Notification>
    decreases snap.len(),
{
    if snap.len() == 0 || lks.len() == 0 {
        Seq::empty()
    } else {
        opt_seq(notif_for(snap[0], decision(snap[0], lks[0])))
            + pass_notifs(snap.drop_first(), lks.drop_first())
    }
}

/// A first match characterized by `first_ids_match` sits exactly where
/// `spec_first_idx_ids` points.
pub proof fn lemma_first_idx_ids_unique(rows: Seq<Subscription>, user_id: i64, anime_id: i32, i: int)
    requires
        first_ids_match(rows, user_id, anime_id, i),
    ensures
        spec_first_idx_ids(rows, user_id, anime_id) == i,
    decreases rows.len(),
{
    if i > 0 {
        assert(!same_ids(rows[0], user_id, anime_id));
        assert(first_ids_match(rows.drop_first(), user_id, anime_id, i - 1)) by {
            assert(forall|j: int|
                0 <= j < i - 1 ==> rows.drop_first()[j] == rows[j + 1]);
        }
        lemma_first_idx_ids_unique(rows.drop_first(), user_id, anime_id, i - 1);
    }
}

/// With no identifier match anywhere, `spec_first_idx_ids` points past the end.
pub proof fn lemma_first_idx_ids_absent(rows: Seq<Subscription>, user_id: i64, anime_id: i32)
    requires
        forall|i: int| 0 <= i < rows.len() ==> !same_ids(rows[i], user_id, anime_id),
    ensures
        spec_first_idx_ids(rows, user_id, anime_id) == rows.len(),
    decreases rows.len(),
{
    if rows.len() > 0 {
        assert(forall|i: int|
            0 <= i < rows.drop_first().len() ==> rows.drop_first()[i] == rows[i + 1]);
        lemma_first_idx_ids_absent(rows.drop_first(), user_id, anime_id);
    }
}

/// Chooses the pass action for one subscription from its lookup outcome:
/// transient failures and unknown titles change nothing, a released title
/// completes the subscription, and a higher aired-episode count than the
/// stored one is a new episode.
pub fn decide(sub: &Subscription, lookup: &Lookup) -> (a: Action)
    ensures
        a == decision(*sub, *lookup),
{
    match lookup {
        Lookup::Transient => Action::Keep,
        Lookup::NotFound => Action::Keep,
        Lookup::Found(e) => {
            if e.is_released() {
                Action::Complete
            } else {
                match e.episodes_aired {
                    Some(n) => if n > sub.last_episode {
                        Action::NewEpisode(n)
                    } else {
                        Action::Keep
                    },
                    None => Action::Keep,
                }
            }
        },
    }
}

/// Applies one subscription's action to the store and hands back the
/// notification still owed, if any. The mutation is complete before the
/// caller can attempt delivery, so a failed delivery never loses the
/// store change.
pub fn apply(store: &mut SubscriptionStore, sub: &Subscription, action: &Action) -> (notif: Option<
    Notification,
>)
    ensures
        final(store).rows() == rows_after(old(store).rows(), *sub, *action),
        notif == notif_for(*sub, *action),
{
    match action {
        Action::Keep => None,
        Action::Complete => {
            let ghost pre = store.rows();
            let removed = store.delete_by_ids(sub.user_id, sub.anime_id);
            proof {
                if removed == 1 {
                    let i = choose|i: int|
                        #[trigger] first_ids_match(pre, sub.user_id, sub.anime_id, i)
                            && store.rows() == pre.remove(i);
                    lemma_first_idx_ids_unique(pre, sub.user_id, sub.anime_id, i);
                } else {
                    lemma_first_idx_ids_absent(pre, sub.user_id, sub.anime_id);
                }
            }
            Some(Notification::Completed { user_id: sub.user_id, anime_name: sub.anime_name.clone() })
        },
        Action::NewEpisode(n) => {
            let ghost pre = store.rows();
            let updated = store.update_episode_count(sub.user_id, sub.anime_id, *n);
            proof {
                if updated {
                    let i = choose|i: int|
                        #[trigger] first_ids_match(pre, sub.user_id, sub.anime_id, i)
                            && store.rows() == pre.update(i, with_last(pre[i], *n));
                    lemma_first_idx_ids_unique(pre, sub.user_id, sub.anime_id, i);
                } else {
                    lemma_first_idx_ids_absent(pre, sub.user_id, sub.anime_id);
                }
            }
            Some(
                Notification::NewEpisode {
                    user_id: sub.user_id,
                    anime_name: sub.anime_name.clone(),
                    episode: *n,
                },
            )
        },
    }
}

/// One full reconciliation pass over an in-memory store: visits a snapshot
/// of the rows in order, applies each decision, and returns every
/// notification owed, in order. `lookups[i]` is the catalog outcome for
/// snapshot row `i`.
pub fn run_pass(store: &mut SubscriptionStore, lookups: &Vec<Lookup>) -> (notifs: Vec<Notification>)
    requires
        lookups@.len() == old(store).rows().len(),
    ensures
        final(store).rows() == pass_rows(old(store).rows(), lookups@, old(store).rows()),
        notifs@ == pass_notifs(old(store).rows(), lookups@),
{
    let ghost snap0 = store.rows();
    let mut notifs: Vec<Notification> = Vec::new();
    let n = store.len();
    let mut snap: Vec<Subscription> = Vec::new();
    for i in 0..n
        invariant
            n == store.rows().len(),
            store.rows() == snap0,
            snap@ == snap0.take(i as int),
    {
        snap.push(store.get(i));
        proof {
            assert(snap@ =~= snap0.take(i as int + 1));
        }
    }
    proof {
        assert(snap@ =~= snap0);
        assert(snap0.skip(0) =~= snap0);
        assert(lookups@.skip(0) =~= lookups@);
        assert(Seq::<Notification>::empty() + pass_notifs(snap0, lookups@)
            =~= pass_notifs(snap0, lookups@));
    }
    for i in 0..n
        invariant
            n == snap@.len(),
            snap@ == snap0,
            lookups@.len() == n,
            pass_rows(snap0, lookups@, snap0) == pass_rows(
                snap0.skip(i as int),
                lookups@.skip(i as int),
                store.rows(),
            ),
            pass_notifs(snap0, lookups@) == notifs@ + pass_notifs(
                snap0.skip(i as int),
                lookups@.skip(i as int),
            ),
    {
        proof {
            assert(snap0.skip(i as int).drop_first() =~= snap0.skip(i as int + 1));
            assert(lookups@.skip(i as int).drop_first() =~= lookups@.skip(i as int + 1));
            assert(snap0.skip(i as int)[0] == snap0[i as int]);
            assert(lookups@.skip(i as int)[0] == lookups@[i as int]);
        }
        let action = decide(&snap[i], &lookups[i]);
        let notif = apply(store, &snap[i], &action);
        let ghost prev = notifs@;
        let ghost owed = notif_for(snap0[i as int], action);
        match notif {
            Some(nf) => notifs.push(nf),
            None => (),
        }
        proof {
            let ghost rest = pass_notifs(snap0.skip(i as int + 1), lookups@.skip(i as int + 1));
            assert(notifs@ =~= prev + opt_seq(owed));
            assert(prev + (opt_seq(owed) + rest) =~= (prev + opt_seq(owed)) + rest);
        }
    }
    proof {
        assert(snap0.skip(n as int) =~= Seq::<Subscription>::empty());
        assert(notifs@ + pass_notifs(snap0.skip(n as int), lookups@.skip(n as int)) =~= notifs@);
    }
    notifs
}

} // verus!
