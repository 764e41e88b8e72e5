//! Decisions behind the chat commands: title validation, subscribing to a
//! looked-up title, unsubscribing by stored name, and the labels the info
//! command shows. Message wording and transport stay outside the library.

use vstd::prelude::*;

use crate::catalog::{AnimeResponse, Genre};
use crate::store::{
    first_name_match, same_user_name, views_of, Subscription, SubscriptionStore,
};

verus! {

/// The Unicode white-space characters, the ones a trimmed title argument
/// loses.
pub open spec fn is_space_char(c: char) -> bool {
    let u = c as u32;
    u == 0x20 || u == 0x09 || u == 0x0a || u == 0x0d || u == 0x0b || u == 0x0c || u == 0x85
        || u == 0xa0 || u == 0x1680 || (0x2000 <= u && u <= 0x200a) || u == 0x2028 || u == 0x2029
        || u == 0x202f || u == 0x205f || u == 0x3000
}

/// Whether this character counts as white space for title trimming.
pub fn char_is_space(c: char) -> (r: bool)
    ensures
        r == is_space_char(c),
{
    let u = c as u32;
    u == 0x20 || u == 0x09 || u == 0x0a || u == 0x0d || u == 0x0b || u == 0x0c || u == 0x85
        || u == 0xa0 || u == 0x1680 || (0x2000 <= u && u <= 0x200a) || u == 0x2028 || u == 0x2029
        || u == 0x202f || u == 0x205f || u == 0x3000
}

/// A title argument that trims away to nothing.
pub open spec fn blank(s: Seq<char>) -> bool {
    forall|i: int| 0 <= i < s.len() ==> is_space_char(s[i])
}

/// Some row carries this user identifier and this stored title name.
pub open spec fn has_name(rows: Seq<Subscription>, user_id: i64, name: Seq<char>) -> bool {
    exists|i: int| 0 <= i < rows.len() && same_user_name(rows[i], user_id, name)
}

/// Whether a title argument is empty or all whitespace; such an argument
/// is rejected before any catalog or store access.
pub fn title_is_blank(title: &str) -> (r: bool)
    ensures
        r == blank(title@),
{
    let n = title.unicode_len();
    for i in 0..n
        invariant
            n == title@.len(),
            forall|j: int| 0 <= j < i ==> is_space_char(title@[j]),
    {
        let c = title.get_char(i);
        if !char_is_space(c) {
            proof {
                assert(!is_space_char(title@[i as int]));
            }
            return false;
        }
    }
    true
}

/// The record a successful subscribe stores: the localized name when the
/// catalog has one, and the aired count as of subscribe time (zero when
/// the catalog does not report one).
pub open spec fn subscription_of(user_id: i64, e: AnimeResponse) -> Subscription {
    Subscription {
        user_id,
        anime_id: e.id,
        anime_name: match e.russian {
            Some(r) => r,
            None => e.name,
        },
        last_episode: match e.episodes_aired {
            Some(n) => n,
            None => 0,
        },
    }
}

/// Reply to a subscribe command.
#[derive(Debug, PartialEq)]
pub enum SubscribeReply {
    /// The catalog knows no such title; nothing was stored.
    NotFound,
    /// The subscription was stored.
    Subscribed,
}

/// Reply to an unsubscribe command.
#[derive(Clone, Copy, PartialEq, Eq, Structural, Debug)]
pub enum UnsubscribeReply {
    /// The title argument was empty; the store was not touched.
    EmptyTitle,
    /// A matching record existed and was removed.
    Unsubscribed,
    /// No record of this user carried that name; nothing was removed.
    NotSubscribed,
}

/// Stores a subscription for the looked-up title, or reports that the
/// catalog does not know it. `anime` is the catalog's answer for the
/// user's query; a lookup that failed outright never reaches the store.
pub fn handle_subscribe(
    store: &mut SubscriptionStore,
    user_id: i64,
    anime: Option<&AnimeResponse>,
) -> (r: SubscribeReply)
    ensures
        match anime {
            None => r == SubscribeReply::NotFound && final(store).rows() == old(store).rows(),
            Some(e) => r == SubscribeReply::Subscribed && final(store).rows() == old(
                store,
            ).rows().push(subscription_of(user_id, *e)),
        },
{
    match anime {
        None => SubscribeReply::NotFound,
        Some(e) => {
            store.insert(make_subscription(user_id, e));
            SubscribeReply::Subscribed
        },
    }
}

/// Builds the record a subscribe stores for this user and catalog entry.
pub fn make_subscription(user_id: i64, e: &AnimeResponse) -> (s: Subscription)
    ensures
        s == subscription_of(user_id, *e),
{
    let name: String = match &e.russian {
        Some(r) => r.clone(),
        None => e.name.clone(),
    };
    let last: i32 = match e.episodes_aired {
        Some(n) => n,
        None => 0,
    };
    Subscription { user_id, anime_id: e.id, anime_name: name, last_episode: last }
}

/// Removes this user's record with the given stored name. A blank title is
/// rejected before the store is touched; otherwise the first matching
/// record is removed, and the reply says whether one existed.
pub fn handle_unsubscribe(store: &mut SubscriptionStore, user_id: i64, title: &str) -> (r:
    UnsubscribeReply)
    ensures
        (r == UnsubscribeReply::EmptyTitle) == blank(title@),
        blank(title@) ==> final(store).rows() == old(store).rows(),
        !blank(title@) && !has_name(old(store).rows(), user_id, title@) ==> r
            == UnsubscribeReply::NotSubscribed && final(store).rows() == old(store).rows(),
        !blank(title@) && has_name(old(store).rows(), user_id, title@) ==> r
            == UnsubscribeReply::Unsubscribed && exists|i: int|
            #[trigger] first_name_match(old(store).rows(), user_id, title@, i)
                && final(store).rows() == old(store).rows().remove(i),
{
    if title_is_blank(title) {
        return UnsubscribeReply::EmptyTitle;
    }
    let removed = store.delete_by_name(user_id, title);
    if removed > 0 {
        proof {
            let i = choose|i: int|
                #[trigger] first_name_match(old(store).rows(), user_id, title@, i)
                    && store.rows() == old(store).rows().remove(i);
            assert(same_user_name(old(store).rows()[i], user_id, title@));
        }
        UnsubscribeReply::Unsubscribed
    } else {
        UnsubscribeReply::NotSubscribed
    }
}

/// The label shown for each genre: the localized name when present, else
/// the primary name.
pub open spec fn labels_of(gs: Seq<Genre>) -> Seq<Seq<char>> {
    gs.map_values(
        |g: Genre|
            match g.russian {
                Some(r) => r@,
                None => g.name@,
            },
    )
}

/// The genre labels of a title, in order, as the info command lists them.
pub fn genre_labels(genres: &Vec<Genre>) -> (out: Vec<String>)
    ensures
        views_of(out@) == labels_of(genres@),
{
    let mut out: Vec<String> = Vec::new();
    let n = genres.len();
    for i in 0..n
        invariant
            n == genres@.len(),
            views_of(out@) =~= labels_of(genres@).take(i as int),
    {
        let label: String = match &genres[i].russian {
            Some(r) => r.clone(),
            None => genres[i].name.clone(),
        };
        let ghost prev = out@;
        out.push(label);
        proof {
            assert(views_of(prev).len() == i as int);
            assert(prev.len() == i as int);
            assert(labels_of(genres@)[i as int] == label@);
            assert forall|j: int| 0 <= j < i + 1 implies views_of(out@)[j] == labels_of(
                genres@,
            ).take(i as int + 1)[j] by {
                if j < i {
                    assert(out@[j] == prev[j]);
                    assert(views_of(prev)[j] == labels_of(genres@).take(i as int)[j]);
                }
            }
            assert(views_of(out@) =~= labels_of(genres@).take(i as int + 1));
        }
    }
    proof {
        assert(labels_of(genres@).take(n as int) =~= labels_of(genres@));
    }
    out
}

} // verus!
