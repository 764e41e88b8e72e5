//! Pass-level laws: with distinct (user, title) keys, a pass acts on each
//! row independently, a pass changes nothing the second time around, and
//! one row's transient lookup failure never touches the others.

use vstd::prelude::*;

use crate::catalog::AnimeResponse;
use crate::reconcile::{
    decision, lemma_first_idx_ids_unique, notif_for, opt_seq,
    pass_notifs, pass_rows, rows_after, spec_first_idx_ids, Action, Lookup, Notification,
};
use crate::store::{first_ids_match, same_ids, with_last, Subscription};

verus! {

/// No two rows share a (user, title) identifier pair.
pub open spec fn unique_ids(rows: Seq<Subscription>) -> bool {
    forall|i: int, j: int|
        0 <= i < j < rows.len() ==> !(rows[i].user_id == rows[j].user_id
            && rows[i].anime_id == rows[j].anime_id)
}

/// Some row carries exactly these identifiers.
pub open spec fn has_ids(rows: Seq<Subscription>, user_id: i64, anime_id: i32) -> bool {
    exists|i: int| 0 <= i < rows.len() && same_ids(rows[i], user_id, anime_id)
}

/// What each snapshot row becomes after the pass, row by row: kept rows
/// stay, completed rows vanish, new-episode rows carry the new count.
pub open spec fn transform(snap: Seq<Subscription>, lks: Seq<Lookup>) -> Seq<Subscription>
    decreases snap.len(),
{
    if snap.len() == 0 || lks.len() == 0 {
        Seq::empty()
    } else {
        let rest = transform(snap.drop_first(), lks.drop_first());
        match decision(snap[0], lks[0]) {
            Action::Keep => seq![snap[0]] + rest,
            Action::Complete => rest,
            Action::NewEpisode(n) => seq![with_last(snap[0], n)] + rest,
        }
    }
}

/// With pairwise-distinct keys, the first identifier match of a row of
/// `snap` inside `prefix + snap` sits right after the prefix.
proof fn lemma_first_idx_after_prefix(prefix: Seq<Subscription>, snap: Seq<Subscription>)
    requires
        snap.len() > 0,
        unique_ids(prefix + snap),
    ensures
        spec_first_idx_ids((prefix + snap), snap[0].user_id, snap[0].anime_id) == prefix.len(),
{
    let all = prefix + snap;
    let u = snap[0].user_id;
    let a = snap[0].anime_id;
    assert(all[prefix.len() as int] == snap[0]);
    assert(forall|j: int| 0 <= j < prefix.len() ==> all[j] == prefix[j]);
    assert(forall|j: int| 0 <= j < prefix.len() ==> !same_ids(all[j], u, a));
    assert(first_ids_match(all, u, a, prefix.len() as int));
    lemma_first_idx_ids_unique(all, u, a, prefix.len() as int);
}

/// The key pairs on both sides agree position by position, so uniqueness
/// carries over.
proof fn lemma_unique_same_keys(xs: Seq<Subscription>, ys: Seq<Subscription>)
    requires
        unique_ids(xs),
        ys.len() == xs.len(),
        forall|i: int|
            0 <= i < xs.len() ==> ys[i].user_id == xs[i].user_id && ys[i].anime_id
                == xs[i].anime_id,
    ensures
        unique_ids(ys),
{
}

/// Under pairwise-distinct keys, a pass over `prefix + snap` that visits
/// only the rows of `snap` leaves the prefix alone and rewrites the
/// visited rows elementwise.
pub proof fn lemma_pass_shape(snap: Seq<Subscription>, lks: Seq<Lookup>, prefix: Seq<Subscription>)
    requires
        lks.len() == snap.len(),
        unique_ids(prefix + snap),
    ensures
        pass_rows(snap, lks, prefix + snap) == prefix + transform(snap, lks),
    decreases snap.len(),
{
    let all = prefix + snap;
    if snap.len() == 0 {
        assert(prefix + snap =~= prefix);
        assert(prefix + transform(snap, lks) =~= prefix);
    } else {
        let s0 = snap[0];
        let u = s0.user_id;
        let a = s0.anime_id;
        let rest = snap.drop_first();
        let lrest = lks.drop_first();
        lemma_first_idx_after_prefix(prefix, snap);
        match decision(s0, lks[0]) {
            Action::Keep => {
                assert(rows_after(all, s0, Action::Keep) == all);
                let prefix2 = prefix + seq![s0];
                assert(prefix2 + rest =~= all);
                lemma_pass_shape(rest, lrest, prefix2);
                assert(pass_rows(snap, lks, all) == pass_rows(rest, lrest, all));
                assert(prefix2 + transform(rest, lrest) =~= prefix + (seq![s0] + transform(
                    rest,
                    lrest,
                )));
            },
            Action::Complete => {
                assert(all.remove(prefix.len() as int) =~= prefix + rest);
                assert(rows_after(all, s0, Action::Complete) == prefix + rest);
                assert(unique_ids(prefix + rest)) by {
                    assert(forall|k: int|
                        0 <= k < prefix.len() ==> (prefix + rest)[k] == all[k]);
                    assert(forall|k: int|
                        prefix.len() <= k < (prefix + rest).len() ==> (prefix + rest)[k] == all[k
                            + 1]);
                }
                lemma_pass_shape(rest, lrest, prefix);
            },
            Action::NewEpisode(n) => {
                let s1 = with_last(s0, n);
                assert(all.update(prefix.len() as int, with_last(all[prefix.len() as int], n))
                    =~= (prefix + seq![s1]) + rest);
                assert(rows_after(all, s0, Action::NewEpisode(n)) == (prefix + seq![s1]) + rest);
                let prefix2 = prefix + seq![s1];
                assert(unique_ids(prefix2 + rest)) by {
                    assert((prefix2 + rest).len() == all.len());
                    assert(forall|k: int|
                        0 <= k < all.len() ==> ((prefix2 + rest)[k].user_id == all[k].user_id
                            && (prefix2 + rest)[k].anime_id == all[k].anime_id));
                    lemma_unique_same_keys(all, prefix2 + rest);
                }
                lemma_pass_shape(rest, lrest, prefix2);
                assert(prefix2 + transform(rest, lrest) =~= prefix + (seq![s1] + transform(
                    rest,
                    lrest,
                )));
            },
        }
    }
}

/// A pass over a uniquely-keyed store rewrites it elementwise.
pub proof fn lemma_pass_rows_elementwise(snap: Seq<Subscription>, lks: Seq<Lookup>)
    requires
        lks.len() == snap.len(),
        unique_ids(snap),
    ensures
        pass_rows(snap, lks, snap) == transform(snap, lks),
{
    assert(Seq::<Subscription>::empty() + snap =~= snap);
    assert(unique_ids(Seq::<Subscription>::empty() + snap));
    lemma_pass_shape(snap, lks, Seq::empty());
    assert(Seq::<Subscription>::empty() + transform(snap, lks) =~= transform(snap, lks));
}

/// Row rewriting and notification gathering both work row by row, so they
/// split over concatenation.
pub proof fn lemma_transform_concat(
    a: Seq<Subscription>,
    la: Seq<Lookup>,
    b: Seq<Subscription>,
    lb: Seq<Lookup>,
)
    requires
        la.len() == a.len(),
        lb.len() == b.len(),
    ensures
        transform(a + b, la + lb) == transform(a, la) + transform(b, lb),
        pass_notifs(a + b, la + lb) == pass_notifs(a, la) + pass_notifs(b, lb),
    decreases a.len(),
{
    if a.len() == 0 {
        assert(a + b =~= b);
        assert(la + lb =~= lb);
        assert(transform(a, la) + transform(b, lb) =~= transform(b, lb));
        assert(pass_notifs(a, la) + pass_notifs(b, lb) =~= pass_notifs(b, lb));
    } else {
        assert((a + b).drop_first() =~= a.drop_first() + b);
        assert((la + lb).drop_first() =~= la.drop_first() + lb);
        assert((a + b)[0] == a[0]);
        assert((la + lb)[0] == la[0]);
        lemma_transform_concat(a.drop_first(), la.drop_first(), b, lb);
        let restt = transform(a.drop_first(), la.drop_first()) + transform(b, lb);
        match decision(a[0], la[0]) {
            Action::Keep => {
                assert(seq![a[0]] + restt =~= (seq![a[0]] + transform(a.drop_first(), la.drop_first()))
                    + transform(b, lb));
            },
            Action::Complete => {},
            Action::NewEpisode(n) => {
                assert(seq![with_last(a[0], n)] + restt =~= (seq![with_last(a[0], n)] + transform(
                    a.drop_first(),
                    la.drop_first(),
                )) + transform(b, lb));
            },
        }
        let restn = pass_notifs(a.drop_first(), la.drop_first()) + pass_notifs(b, lb);
        assert(opt_seq(notif_for(a[0], decision(a[0], la[0]))) + restn
            =~= (opt_seq(notif_for(a[0], decision(a[0], la[0]))) + pass_notifs(
            a.drop_first(),
            la.drop_first(),
        )) + pass_notifs(b, lb));
    }
}

/// Rewriting one row with its lookup outcome, spelled out.
pub proof fn lemma_transform_one(s: Subscription, lk: Lookup)
    ensures
        transform(seq![s], seq![lk]) == match decision(s, lk) {
            Action::Keep => seq![s],
            Action::Complete => Seq::<Subscription>::empty(),
            Action::NewEpisode(n) => seq![with_last(s, n)],
        },
        pass_notifs(seq![s], seq![lk]) == opt_seq(notif_for(s, decision(s, lk))),
{
    let snap = seq![s];
    let lks = seq![lk];
    assert(snap.drop_first() =~= Seq::<Subscription>::empty());
    assert(lks.drop_first() =~= Seq::<Lookup>::empty());
    assert(transform(snap.drop_first(), lks.drop_first()) == Seq::<Subscription>::empty());
    assert(pass_notifs(snap.drop_first(), lks.drop_first()) == Seq::<Notification>::empty());
    match decision(s, lk) {
        Action::Keep => {
            assert(transform(snap, lks) =~= seq![s]);
        },
        Action::Complete => {},
        Action::NewEpisode(n) => {
            assert(transform(snap, lks) =~= seq![with_last(s, n)]);
        },
    }
    assert(pass_notifs(snap, lks) =~= opt_seq(notif_for(s, decision(s, lk))));
}

/// One lookup outcome per row, drawn from a fixed catalog keyed by the
/// stored title name.
pub open spec fn lookups_of(cat: Map<Seq<char>, Lookup>, rows: Seq<Subscription>) -> Seq<Lookup> {
    Seq::new(rows.len(), |i: int| cat[rows[i].anime_name@])
}

/// Every row's decision under this catalog is to keep it unchanged.
pub open spec fn stable(rows: Seq<Subscription>, cat: Map<Seq<char>, Lookup>) -> bool {
    forall|i: int|
        0 <= i < rows.len() ==> decision(rows[i], cat[rows[i].anime_name@]) == Action::Keep
}

/// After a pass under a fixed catalog, every surviving row's decision is
/// to keep it: kept rows still show nothing new, and updated rows already
/// carry the aired count the catalog reports.
pub proof fn lemma_transform_stable(snap: Seq<Subscription>, cat: Map<Seq<char>, Lookup>)
    ensures
        stable(transform(snap, lookups_of(cat, snap)), cat),
    decreases snap.len(),
{
    let lks = lookups_of(cat, snap);
    if snap.len() > 0 {
        assert(lks.drop_first() =~= lookups_of(cat, snap.drop_first()));
        lemma_transform_stable(snap.drop_first(), cat);
        let rest = transform(snap.drop_first(), lks.drop_first());
        match decision(snap[0], lks[0]) {
            Action::Keep => {
                let t = seq![snap[0]] + rest;
                assert forall|i: int| 0 <= i < t.len() implies decision(
                    t[i],
                    cat[t[i].anime_name@],
                ) == Action::Keep by {
                    if i > 0 {
                        assert(t[i] == rest[i - 1]);
                    }
                }
            },
            Action::Complete => {},
            Action::NewEpisode(n) => {
                let s1 = with_last(snap[0], n);
                assert(decision(s1, cat[s1.anime_name@]) == Action::Keep);
                let t = seq![s1] + rest;
                assert forall|i: int| 0 <= i < t.len() implies decision(
                    t[i],
                    cat[t[i].anime_name@],
                ) == Action::Keep by {
                    if i > 0 {
                        assert(t[i] == rest[i - 1]);
                    }
                }
            },
        }
    }
}

/// A pass over rows that are all stable under the catalog changes nothing
/// and owes no notification.
pub proof fn lemma_stable_identity(rows: Seq<Subscription>, cat: Map<Seq<char>, Lookup>)
    requires
        stable(rows, cat),
    ensures
        transform(rows, lookups_of(cat, rows)) == rows,
        pass_notifs(rows, lookups_of(cat, rows)) == Seq::<Notification>::empty(),
    decreases rows.len(),
{
    let lks = lookups_of(cat, rows);
    if rows.len() > 0 {
        assert(decision(rows[0], lks[0]) == Action::Keep);
        assert(lks.drop_first() =~= lookups_of(cat, rows.drop_first()));
        assert(forall|i: int|
            0 <= i < rows.drop_first().len() ==> rows.drop_first()[i] == rows[i + 1]);
        lemma_stable_identity(rows.drop_first(), cat);
        assert(transform(rows, lks) =~= rows);
        assert(pass_notifs(rows, lks) =~= Seq::<Notification>::empty());
    }
}

/// A pass never invents a key: the surviving rows keep pairwise-distinct
/// keys, and every surviving key was already present.
pub proof fn lemma_transform_ids(snap: Seq<Subscription>, lks: Seq<Lookup>)
    requires
        unique_ids(snap),
    ensures
        unique_ids(transform(snap, lks)),
        forall|u: i64, a: i32|
            #[trigger] has_ids(transform(snap, lks), u, a) ==> has_ids(snap, u, a),
    decreases snap.len(),
{
    let t = transform(snap, lks);
    if snap.len() == 0 || lks.len() == 0 {
    } else {
        let tail = snap.drop_first();
        assert(forall|i: int| 0 <= i < tail.len() ==> tail[i] == snap[i + 1]);
        lemma_transform_ids(tail, lks.drop_first());
        let rest = transform(tail, lks.drop_first());
        assert forall|u: i64, a: i32| #[trigger] has_ids(rest, u, a) implies has_ids(snap, u, a) by {
            assert(has_ids(tail, u, a));
            let j = choose|j: int| 0 <= j < tail.len() && same_ids(tail[j], u, a);
            assert(same_ids(snap[j + 1], u, a));
        }
        match decision(snap[0], lks[0]) {
            Action::Complete => {
                assert forall|u: i64, a: i32| #[trigger] has_ids(t, u, a) implies has_ids(
                    snap,
                    u,
                    a,
                ) by {
                    assert(has_ids(rest, u, a));
                }
            },
            Action::Keep => {
                lemma_cons_ids(snap, t, rest, snap[0]);
            },
            Action::NewEpisode(n) => {
                lemma_cons_ids(snap, t, rest, with_last(snap[0], n));
            },
        }
    }
}

/// Helper for the two surviving-head cases of `lemma_transform_ids`: the
/// head keeps the old head's key and the tail's keys come from the old
/// tail, so the combined rows keep distinct keys drawn from the old rows.
proof fn lemma_cons_ids(
    snap: Seq<Subscription>,
    t: Seq<Subscription>,
    rest: Seq<Subscription>,
    head: Subscription,
)
    requires
        snap.len() > 0,
        unique_ids(snap),
        t == seq![head] + rest,
        head.user_id == snap[0].user_id,
        head.anime_id == snap[0].anime_id,
        unique_ids(rest),
        forall|u: i64, a: i32| #[trigger] has_ids(rest, u, a) ==> has_ids(snap.drop_first(), u, a),
    ensures
        unique_ids(t),
        forall|u: i64, a: i32| #[trigger] has_ids(t, u, a) ==> has_ids(snap, u, a),
{
    let tail = snap.drop_first();
    assert(forall|i: int| 0 <= i < tail.len() ==> tail[i] == snap[i + 1]);
    assert forall|u: i64, a: i32| #[trigger] has_ids(t, u, a) implies has_ids(snap, u, a) by {
        let i = choose|i: int| 0 <= i < t.len() && same_ids(t[i], u, a);
        if i == 0 {
            assert(same_ids(snap[0], u, a));
        } else {
            assert(t[i] == rest[i - 1]);
            assert(has_ids(rest, u, a));
            let j = choose|j: int| 0 <= j < tail.len() && same_ids(tail[j], u, a);
            assert(same_ids(snap[j + 1], u, a));
        }
    }
    assert forall|i: int, j: int| 0 <= i < j < t.len() implies !(t[i].user_id == t[j].user_id
        && t[i].anime_id == t[j].anime_id) by {
        if i == 0 {
            assert(t[j] == rest[j - 1]);
            if t[0].user_id == t[j].user_id && t[0].anime_id == t[j].anime_id {
                assert(same_ids(rest[j - 1], snap[0].user_id, snap[0].anime_id));
                assert(has_ids(rest, snap[0].user_id, snap[0].anime_id));
                assert(has_ids(tail, snap[0].user_id, snap[0].anime_id));
                let k = choose|k: int|
                    0 <= k < tail.len() && same_ids(tail[k], snap[0].user_id, snap[0].anime_id);
                assert(same_ids(snap[k + 1], snap[0].user_id, snap[0].anime_id));
                assert(false);
            }
        } else {
            assert(t[i] == rest[i - 1]);
            assert(t[j] == rest[j - 1]);
        }
    }
}

/// Idempotence: after one pass under a fixed catalog, a second pass under
/// the same catalog leaves the store as it is and owes no notification.
/// Keys must be pairwise distinct; with a duplicated (user, title) key a
/// first-match update can leave the duplicate behind by one episode.
pub proof fn lemma_pass_idempotent(rows: Seq<Subscription>, cat: Map<Seq<char>, Lookup>)
    requires
        unique_ids(rows),
    ensures
        ({
            let st1 = pass_rows(rows, lookups_of(cat, rows), rows);
            &&& pass_rows(st1, lookups_of(cat, st1), st1) == st1
            &&& pass_notifs(st1, lookups_of(cat, st1)) == Seq::<Notification>::empty()
        }),
{
    let lks0 = lookups_of(cat, rows);
    lemma_pass_rows_elementwise(rows, lks0);
    let st1 = transform(rows, lks0);
    lemma_transform_ids(rows, lks0);
    lemma_transform_stable(rows, cat);
    lemma_stable_identity(st1, cat);
    lemma_pass_rows_elementwise(st1, lookups_of(cat, st1));
}

/// A row whose catalog entry shows more aired episodes than the stored
/// count is rewritten to the new count, and contributes exactly one
/// new-episode notification; every other row is handled exactly as it
/// would be on its own.
pub proof fn lemma_new_episode_row(
    snap: Seq<Subscription>,
    lks: Seq<Lookup>,
    i: int,
    e: AnimeResponse,
    n: i32,
)
    requires
        lks.len() == snap.len(),
        0 <= i < snap.len(),
        lks[i] == Lookup::Found(e),
        !e.spec_is_released(),
        e.episodes_aired == Some(n),
        n > snap[i].last_episode,
    ensures
        transform(snap, lks) == transform(snap.take(i), lks.take(i)) + seq![with_last(snap[i], n)]
            + transform(snap.skip(i + 1), lks.skip(i + 1)),
        pass_notifs(snap, lks) == pass_notifs(snap.take(i), lks.take(i)) + seq![
            Notification::NewEpisode {
                user_id: snap[i].user_id,
                anime_name: snap[i].anime_name,
                episode: n,
            },
        ] + pass_notifs(snap.skip(i + 1), lks.skip(i + 1)),
{
    assert(decision(snap[i], lks[i]) == Action::NewEpisode(n));
    lemma_split_at_row(snap, lks, i);
    lemma_transform_one(snap[i], lks[i]);
}

/// A row whose catalog entry reports the title released is absent from the
/// store after the pass, and contributes exactly one completion
/// notification; every other row is handled exactly as it would be on its
/// own.
pub proof fn lemma_completed_row(snap: Seq<Subscription>, lks: Seq<Lookup>, i: int, e: AnimeResponse)
    requires
        lks.len() == snap.len(),
        0 <= i < snap.len(),
        unique_ids(snap),
        lks[i] == Lookup::Found(e),
        e.spec_is_released(),
    ensures
        transform(snap, lks) == transform(snap.take(i), lks.take(i)) + transform(
            snap.skip(i + 1),
            lks.skip(i + 1),
        ),
        !has_ids(transform(snap, lks), snap[i].user_id, snap[i].anime_id),
        pass_notifs(snap, lks) == pass_notifs(snap.take(i), lks.take(i)) + seq![
            Notification::Completed { user_id: snap[i].user_id, anime_name: snap[i].anime_name },
        ] + pass_notifs(snap.skip(i + 1), lks.skip(i + 1)),
{
    assert(decision(snap[i], lks[i]) == Action::Complete);
    lemma_split_at_row(snap, lks, i);
    lemma_transform_one(snap[i], lks[i]);
    lemma_no_key_outside(snap, lks, i);
    let u = snap[i].user_id;
    let a = snap[i].anime_id;
    let tf = transform(snap.take(i), lks.take(i));
    let tb = transform(snap.skip(i + 1), lks.skip(i + 1));
    assert(transform(seq![snap[i]], seq![lks[i]]) =~= Seq::<Subscription>::empty());
    assert(!has_ids(tf + tb, u, a)) by {
        if has_ids(tf + tb, u, a) {
            let j = choose|j: int| 0 <= j < (tf + tb).len() && same_ids((tf + tb)[j], u, a);
            if j < tf.len() {
                assert(same_ids(tf[j], u, a));
            } else {
                assert(same_ids(tb[j - tf.len()], u, a));
            }
            assert(false);
        }
    }
}

/// With pairwise-distinct keys, neither the rows before a given row nor
/// those after it can leave a row with its key behind.
proof fn lemma_no_key_outside(snap: Seq<Subscription>, lks: Seq<Lookup>, i: int)
    requires
        lks.len() == snap.len(),
        0 <= i < snap.len(),
        unique_ids(snap),
    ensures
        !has_ids(transform(snap.take(i), lks.take(i)), snap[i].user_id, snap[i].anime_id),
        !has_ids(transform(snap.skip(i + 1), lks.skip(i + 1)), snap[i].user_id, snap[i].anime_id),
{
    let u = snap[i].user_id;
    let a = snap[i].anime_id;
    let front = snap.take(i);
    let back = snap.skip(i + 1);
    assert(forall|j: int| 0 <= j < front.len() ==> front[j] == snap[j]);
    assert(forall|j: int| 0 <= j < back.len() ==> back[j] == snap[j + i + 1]);
    lemma_transform_ids(front, lks.take(i));
    lemma_transform_ids(back, lks.skip(i + 1));
    let tf = transform(front, lks.take(i));
    let tb = transform(back, lks.skip(i + 1));
    assert(!has_ids(tf, u, a)) by {
        if has_ids(tf, u, a) {
            let j = choose|j: int| 0 <= j < front.len() && same_ids(front[j], u, a);
            assert(same_ids(snap[j], u, a));
            assert(false);
        }
    }
    assert(!has_ids(tb, u, a)) by {
        if has_ids(tb, u, a) {
            let j = choose|j: int| 0 <= j < back.len() && same_ids(back[j], u, a);
            assert(same_ids(snap[j + i + 1], u, a));
            assert(false);
        }
    }
}

/// With pairwise-distinct keys, a new-episode row leaves exactly one row
/// with its key in the store after the pass, and that row carries the new
/// aired count.
pub proof fn lemma_new_episode_updates_store(
    snap: Seq<Subscription>,
    lks: Seq<Lookup>,
    i: int,
    e: AnimeResponse,
    n: i32,
)
    requires
        lks.len() == snap.len(),
        0 <= i < snap.len(),
        unique_ids(snap),
        lks[i] == Lookup::Found(e),
        !e.spec_is_released(),
        e.episodes_aired == Some(n),
        n > snap[i].last_episode,
    ensures
        ({
            let t = transform(snap, lks);
            exists|j: int|
                0 <= j < t.len() && #[trigger] t[j] == with_last(snap[i], n) && (forall|k: int|
                    0 <= k < t.len() && k != j ==> !same_ids(
                        t[k],
                        snap[i].user_id,
                        snap[i].anime_id,
                    ))
        }),
{
    lemma_new_episode_row(snap, lks, i, e, n);
    lemma_no_key_outside(snap, lks, i);
    let u = snap[i].user_id;
    let a = snap[i].anime_id;
    let tf = transform(snap.take(i), lks.take(i));
    let tb = transform(snap.skip(i + 1), lks.skip(i + 1));
    let t = transform(snap, lks);
    let j = tf.len() as int;
    assert(t == tf + seq![with_last(snap[i], n)] + tb);
    assert(t[j] == with_last(snap[i], n));
    assert forall|k: int| 0 <= k < t.len() && k != j implies !same_ids(t[k], u, a) by {
        if k < j {
            assert(t[k] == tf[k]);
            if same_ids(t[k], u, a) {
                assert(has_ids(tf, u, a));
            }
        } else {
            assert(t[k] == tb[k - j - 1]);
            if same_ids(t[k], u, a) {
                assert(has_ids(tb, u, a));
            }
        }
    }
}

/// Isolation: when one row's lookup fails transiently, that row survives
/// the pass unchanged with nothing sent for it, and every other row is
/// handled exactly as it would be on its own.
pub proof fn lemma_transient_isolation(snap: Seq<Subscription>, lks: Seq<Lookup>, k: int)
    requires
        lks.len() == snap.len(),
        0 <= k < snap.len(),
        lks[k] == Lookup::Transient,
    ensures
        transform(snap, lks) == transform(snap.take(k), lks.take(k)) + seq![snap[k]] + transform(
            snap.skip(k + 1),
            lks.skip(k + 1),
        ),
        pass_notifs(snap, lks) == pass_notifs(snap.take(k), lks.take(k)) + pass_notifs(
            snap.skip(k + 1),
            lks.skip(k + 1),
        ),
{
    assert(decision(snap[k], lks[k]) == Action::Keep);
    lemma_split_at_row(snap, lks, k);
    lemma_transform_one(snap[k], lks[k]);
    assert(pass_notifs(seq![snap[k]], seq![lks[k]]) =~= Seq::<Notification>::empty());
    assert(pass_notifs(snap.take(k), lks.take(k)) + (Seq::<Notification>::empty() + pass_notifs(
        snap.skip(k + 1),
        lks.skip(k + 1),
    )) =~= pass_notifs(snap.take(k), lks.take(k)) + pass_notifs(snap.skip(k + 1), lks.skip(k + 1)));
}

/// Splits a pass around one row: before it, the row alone, after it.
proof fn lemma_split_at_row(snap: Seq<Subscription>, lks: Seq<Lookup>, i: int)
    requires
        lks.len() == snap.len(),
        0 <= i < snap.len(),
    ensures
        transform(snap, lks) == transform(snap.take(i), lks.take(i)) + transform(
            seq![snap[i]],
            seq![lks[i]],
        ) + transform(snap.skip(i + 1), lks.skip(i + 1)),
        pass_notifs(snap, lks) == pass_notifs(snap.take(i), lks.take(i)) + pass_notifs(
            seq![snap[i]],
            seq![lks[i]],
        ) + pass_notifs(snap.skip(i + 1), lks.skip(i + 1)),
{
    let mid = seq![snap[i]] + snap.skip(i + 1);
    let lmid = seq![lks[i]] + lks.skip(i + 1);
    assert(snap =~= snap.take(i) + mid);
    assert(lks =~= lks.take(i) + lmid);
    lemma_transform_concat(snap.take(i), lks.take(i), mid, lmid);
    lemma_transform_concat(seq![snap[i]], seq![lks[i]], snap.skip(i + 1), lks.skip(i + 1));
    assert(transform(snap.take(i), lks.take(i)) + (transform(seq![snap[i]], seq![lks[i]])
        + transform(snap.skip(i + 1), lks.skip(i + 1))) =~= transform(snap.take(i), lks.take(i))
        + transform(seq![snap[i]], seq![lks[i]]) + transform(snap.skip(i + 1), lks.skip(i + 1)));
    assert(pass_notifs(snap.take(i), lks.take(i)) + (pass_notifs(seq![snap[i]], seq![lks[i]])
        + pass_notifs(snap.skip(i + 1), lks.skip(i + 1))) =~= pass_notifs(snap.take(i), lks.take(i))
        + pass_notifs(seq![snap[i]], seq![lks[i]]) + pass_notifs(
        snap.skip(i + 1),
        lks.skip(i + 1),
    ));
}

} // verus!
