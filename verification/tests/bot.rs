use larium::catalog::{AnimeResponse, Genre, ImageData};
use larium::commands::{
    genre_labels, handle_subscribe, handle_unsubscribe, title_is_blank, SubscribeReply,
    UnsubscribeReply,
};
use larium::reconcile::{apply, decide, run_pass, Action, Lookup, Notification};
use larium::store::{Subscription, SubscriptionStore};

fn entry(id: i32, name: &str, russian: Option<&str>, status: &str, aired: Option<i32>) -> AnimeResponse {
    AnimeResponse {
        id,
        name: name.to_string(),
        russian: russian.map(|s| s.to_string()),
        episodes: None,
        episodes_aired: aired,
        status: status.to_string(),
        description: None,
        score: None,
        genres: None,
        image: ImageData { original: String::new() },
    }
}

fn sub(user_id: i64, anime_id: i32, name: &str, last: i32) -> Subscription {
    Subscription {
        user_id,
        anime_id,
        anime_name: name.to_string(),
        last_episode: last,
    }
}

#[test]
fn new_episode_scenario() {
    // store {user=1, title="Foo", last=3}; catalog: Foo ongoing, aired=4
    let mut store = SubscriptionStore::new();
    store.insert(sub(1, 10, "Foo", 3));
    let lookups = vec![Lookup::Found(entry(10, "Foo", None, "ongoing", Some(4)))];
    let notifs = run_pass(&mut store, &lookups);
    assert_eq!(store.len(), 1);
    let row = store.get(0);
    assert_eq!(row.user_id, 1);
    assert_eq!(row.anime_id, 10);
    assert_eq!(row.anime_name, "Foo");
    assert_eq!(row.last_episode, 4);
    assert_eq!(
        notifs,
        vec![Notification::NewEpisode { user_id: 1, anime_name: "Foo".to_string(), episode: 4 }]
    );
}

#[test]
fn completed_scenario() {
    // store {user=2, title="Bar", last=12}; catalog: Bar released
    let mut store = SubscriptionStore::new();
    store.insert(sub(2, 20, "Bar", 12));
    let lookups = vec![Lookup::Found(entry(20, "Bar", None, "released", Some(12)))];
    let notifs = run_pass(&mut store, &lookups);
    assert_eq!(store.len(), 0);
    assert_eq!(
        notifs,
        vec![Notification::Completed { user_id: 2, anime_name: "Bar".to_string() }]
    );
}

#[test]
fn pass_is_idempotent() {
    let mut store = SubscriptionStore::new();
    store.insert(sub(1, 10, "Foo", 3));
    store.insert(sub(2, 20, "Bar", 12));
    store.insert(sub(3, 30, "Baz", 7));
    let foo = || Lookup::Found(entry(10, "Foo", None, "ongoing", Some(4)));
    let bar = || Lookup::Found(entry(20, "Bar", None, "released", Some(12)));
    let baz = || Lookup::Found(entry(30, "Baz", None, "ongoing", Some(7)));
    let notifs = run_pass(&mut store, &vec![foo(), bar(), baz()]);
    assert_eq!(notifs.len(), 2);
    assert_eq!(store.len(), 2);
    // same catalog, no real-world change: the remaining rows are Foo and Baz
    let notifs2 = run_pass(&mut store, &vec![foo(), baz()]);
    assert_eq!(notifs2, vec![]);
    assert_eq!(store.len(), 2);
    assert_eq!(store.get(0).last_episode, 4);
    assert_eq!(store.get(1).last_episode, 7);
}

#[test]
fn transient_failure_is_isolated() {
    let mut store = SubscriptionStore::new();
    store.insert(sub(1, 10, "Foo", 3));
    store.insert(sub(2, 20, "Bar", 12));
    store.insert(sub(3, 30, "Baz", 7));
    let lookups = vec![
        Lookup::Found(entry(10, "Foo", None, "ongoing", Some(4))),
        Lookup::Transient,
        Lookup::Found(entry(30, "Baz", None, "released", None)),
    ];
    let notifs = run_pass(&mut store, &lookups);
    // the failed row is untouched, the others were processed to completion
    assert_eq!(store.len(), 2);
    assert_eq!(store.get(0).last_episode, 4);
    assert_eq!(store.get(1).anime_name, "Bar");
    assert_eq!(store.get(1).last_episode, 12);
    assert_eq!(
        notifs,
        vec![
            Notification::NewEpisode { user_id: 1, anime_name: "Foo".to_string(), episode: 4 },
            Notification::Completed { user_id: 3, anime_name: "Baz".to_string() },
        ]
    );
}

#[test]
fn mutation_comes_before_notification() {
    // apply returns the owed notification only after the store change is
    // complete, so a delivery failure cannot lose the mutation
    let mut store = SubscriptionStore::new();
    store.insert(sub(1, 10, "Foo", 3));
    let s = store.get(0);
    let action = decide(&s, &Lookup::Found(entry(10, "Foo", None, "ongoing", Some(5))));
    assert_eq!(action, Action::NewEpisode(5));
    let owed = apply(&mut store, &s, &action);
    // the store already holds the new count, whatever becomes of `owed`
    assert_eq!(store.get(0).last_episode, 5);
    assert_eq!(
        owed,
        Some(Notification::NewEpisode { user_id: 1, anime_name: "Foo".to_string(), episode: 5 })
    );
}

#[test]
fn not_found_and_stale_counts_keep_the_row() {
    let s = sub(1, 10, "Foo", 5);
    assert_eq!(decide(&s, &Lookup::NotFound), Action::Keep);
    assert_eq!(decide(&s, &Lookup::Transient), Action::Keep);
    // no aired count reported
    assert_eq!(decide(&s, &Lookup::Found(entry(10, "Foo", None, "ongoing", None))), Action::Keep);
    // aired count not above the stored one
    assert_eq!(
        decide(&s, &Lookup::Found(entry(10, "Foo", None, "ongoing", Some(5)))),
        Action::Keep
    );
    // released wins even when the aired count grew
    assert_eq!(
        decide(&s, &Lookup::Found(entry(10, "Foo", None, "released", Some(6)))),
        Action::Complete
    );
}

#[test]
fn empty_pass_does_nothing() {
    let mut store = SubscriptionStore::new();
    let notifs = run_pass(&mut store, &vec![]);
    assert_eq!(notifs, vec![]);
    assert_eq!(store.len(), 0);
}

#[test]
fn unsubscribe_blank_title_is_rejected() {
    let mut store = SubscriptionStore::new();
    store.insert(sub(1, 10, "Foo", 3));
    assert_eq!(handle_unsubscribe(&mut store, 1, "   "), UnsubscribeReply::EmptyTitle);
    assert_eq!(handle_unsubscribe(&mut store, 1, ""), UnsubscribeReply::EmptyTitle);
    assert_eq!(store.len(), 1);
}

#[test]
fn unsubscribe_matches_by_user_and_name() {
    let mut store = SubscriptionStore::new();
    store.insert(sub(1, 10, "Foo", 3));
    store.insert(sub(2, 10, "Foo", 3));
    assert_eq!(handle_unsubscribe(&mut store, 2, "Foo"), UnsubscribeReply::Unsubscribed);
    assert_eq!(store.len(), 1);
    assert_eq!(store.get(0).user_id, 1);
    assert_eq!(handle_unsubscribe(&mut store, 2, "Foo"), UnsubscribeReply::NotSubscribed);
    assert_eq!(store.len(), 1);
}

#[test]
fn subscribe_unknown_title_stores_nothing() {
    let mut store = SubscriptionStore::new();
    assert_eq!(handle_subscribe(&mut store, 1, None), SubscribeReply::NotFound);
    assert_eq!(store.len(), 0);
}

#[test]
fn subscribe_stores_localized_name_and_aired_count() {
    let mut store = SubscriptionStore::new();
    let e = entry(77, "Foo", Some("Фу"), "ongoing", Some(9));
    assert_eq!(handle_subscribe(&mut store, 5, Some(&e)), SubscribeReply::Subscribed);
    assert_eq!(store.len(), 1);
    let row = store.get(0);
    assert_eq!(row.user_id, 5);
    assert_eq!(row.anime_id, 77);
    assert_eq!(row.anime_name, "Фу");
    assert_eq!(row.last_episode, 9);
}

#[test]
fn subscribe_without_aired_count_starts_at_zero() {
    let mut store = SubscriptionStore::new();
    let e = entry(78, "Foo", None, "anons", None);
    assert_eq!(handle_subscribe(&mut store, 5, Some(&e)), SubscribeReply::Subscribed);
    let row = store.get(0);
    assert_eq!(row.anime_name, "Foo");
    assert_eq!(row.last_episode, 0);
}

#[test]
fn list_names_picks_one_user_in_order() {
    let mut store = SubscriptionStore::new();
    store.insert(sub(1, 10, "Foo", 3));
    store.insert(sub(2, 20, "Bar", 1));
    store.insert(sub(1, 30, "Baz", 2));
    assert_eq!(store.list_names(1), vec!["Foo".to_string(), "Baz".to_string()]);
    assert_eq!(store.list_names(2), vec!["Bar".to_string()]);
    assert_eq!(store.list_names(3), Vec::<String>::new());
}

#[test]
fn find_all_and_find_by_user_copy_rows() {
    let mut store = SubscriptionStore::new();
    store.insert(sub(1, 10, "Foo", 3));
    store.insert(sub(2, 20, "Bar", 1));
    store.insert(sub(1, 30, "Baz", 2));
    let all = store.find_all();
    assert_eq!(all.len(), 3);
    assert_eq!(all[1].anime_name, "Bar");
    let mine = store.find_by_user(1);
    assert_eq!(mine.len(), 2);
    assert_eq!(mine[0].anime_id, 10);
    assert_eq!(mine[1].anime_id, 30);
    assert!(store.find_by_user(9).is_empty());
}

#[test]
fn blank_titles() {
    assert!(title_is_blank(""));
    assert!(title_is_blank(" \t\r\n"));
    assert!(title_is_blank("\u{a0}\u{2003}"));
    assert!(!title_is_blank(" Foo "));
    assert!(!title_is_blank("\u{2003}x"));
}

#[test]
fn released_status_is_exact() {
    assert!(entry(1, "A", None, "released", None).is_released());
    assert!(!entry(1, "A", None, "ongoing", None).is_released());
    assert!(!entry(1, "A", None, "Released", None).is_released());
}

#[test]
fn display_name_prefers_localized() {
    assert_eq!(entry(1, "A", Some("Б"), "ongoing", None).display_name(), "Б");
    assert_eq!(entry(1, "A", None, "ongoing", None).display_name(), "A");
}

#[test]
fn genre_labels_prefer_localized() {
    let genres = vec![
        Genre { name: "action".to_string(), russian: Some("экшен".to_string()) },
        Genre { name: "drama".to_string(), russian: None },
    ];
    assert_eq!(genre_labels(&genres), vec!["экшен".to_string(), "drama".to_string()]);
}

#[test]
fn duplicate_keys_update_only_the_first_match() {
    // the store does not enforce uniqueness; a pass over duplicated keys
    // updates the first match both times and can announce twice
    let mut store = SubscriptionStore::new();
    store.insert(sub(1, 10, "Foo", 3));
    store.insert(sub(1, 10, "Foo", 3));
    let lk = || Lookup::Found(entry(10, "Foo", None, "ongoing", Some(4)));
    let notifs = run_pass(&mut store, &vec![lk(), lk()]);
    assert_eq!(notifs.len(), 2);
    assert_eq!(store.get(0).last_episode, 4);
    assert_eq!(store.get(1).last_episode, 3);
}
