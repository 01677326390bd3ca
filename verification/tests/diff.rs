use std::sync::mpsc;

use notifier::config::ConfigFeedEntry;
use notifier::entry::Entry;
use notifier::feed::{Feed, Feeds};
use notifier::interfaces::{filter_feeds, Interfaces};
use notifier::orchestrator::fetch_feeds;
use notifier::providers::YouTubeProvider;
use notifier::state::State;
use notifier::table::Table;
use notifier::update::{flatten_feeds, Updater, UpdateResponse};

fn snapshot(now: i64, entries: &[(&str, &str)]) -> Feeds {
    // One feed holding the given (title, guid) pairs as status entries.
    let mut feed = Feed::new();
    for (title, guid) in entries {
        feed.status.push(Entry::new(title, guid));
    }
    let mut feeds = Feeds::new(now);
    feeds.feeds.insert("main".to_string(), feed);
    feeds
}

fn guids(v: &[Entry]) -> Vec<String> {
    v.iter().map(|e| e.guid.clone()).collect()
}

#[test]
fn first_round_reports_everything() {
    let mut u = Updater::new();
    let delta = u.run_update(&snapshot(1, &[("a", "A"), ("b", "B")])).unwrap();
    assert_eq!(guids(&delta.status), vec!["A", "B"]);
    assert_eq!(delta.notifications.len(), 0);
}

#[test]
fn reappearing_entry_counts_as_new() {
    // Round 1 yields {A, B}; round 2 {A, B, C}: delta is exactly {C}.
    // Round 3 drops C; round 4 brings it back: the delta holds C again,
    // because the identity memory follows the last snapshot only.
    let mut u = Updater::new();
    u.run_update(&snapshot(1, &[("a", "A"), ("b", "B")]));
    let d2 = u
        .run_update(&snapshot(2, &[("a", "A"), ("b", "B"), ("c", "C")]))
        .unwrap();
    assert_eq!(guids(&d2.status), vec!["C"]);
    let d3 = u.run_update(&snapshot(3, &[("a", "A"), ("b", "B")]));
    assert!(d3.is_none());
    let d4 = u
        .run_update(&snapshot(4, &[("a", "A"), ("b", "B"), ("c", "C")]))
        .unwrap();
    assert_eq!(guids(&d4.status), vec!["C"]);
}

#[test]
fn quiet_round_sends_nothing() {
    // No-op suppression: a snapshot without new identities produces no
    // delta and no message reaches a subscriber.
    let mut u = Updater::new();
    u.run_update(&snapshot(1, &[("a", "A")]));
    let (tx, rx) = mpsc::channel::<UpdateResponse>();
    u.add_updater(tx);
    let delta = u.run_update(&snapshot(2, &[("a", "A")]));
    assert!(delta.is_none());
    assert!(rx.try_recv().is_err());
    assert_eq!(u.subscriber_count(), 1);
}

#[test]
fn subscriber_receives_delta() {
    let mut u = Updater::new();
    let (tx, rx) = mpsc::channel::<UpdateResponse>();
    u.add_updater(tx);
    u.run_update(&snapshot(1, &[("a", "A")]));
    let got = rx.try_recv().unwrap();
    assert_eq!(guids(&got.status), vec!["A"]);
}

#[test]
fn broken_subscriber_is_pruned() {
    // Subscriber pruning: a subscriber whose channel is dropped before the
    // next delta is removed and gets no further delivery attempts, while a
    // live subscriber stays and is served.
    let mut u = Updater::new();
    let (tx_dead, rx_dead) = mpsc::channel::<UpdateResponse>();
    let (tx_live, rx_live) = mpsc::channel::<UpdateResponse>();
    u.add_updater(tx_dead);
    u.add_updater(tx_live);
    assert_eq!(u.subscriber_count(), 2);
    drop(rx_dead);
    u.run_update(&snapshot(1, &[("a", "A")]));
    assert_eq!(u.subscriber_count(), 1);
    assert_eq!(guids(&rx_live.try_recv().unwrap().status), vec!["A"]);
    u.run_update(&snapshot(2, &[("b", "B")]));
    assert_eq!(u.subscriber_count(), 1);
    assert_eq!(guids(&rx_live.try_recv().unwrap().status), vec!["B"]);
}

#[test]
fn error_entries_enter_memory_but_not_delta() {
    let mut u = Updater::new();
    let mut feed = Feed::new();
    feed.add_err("broken", "why", None, None, 1);
    let mut feeds = Feeds::new(1);
    feeds.feeds.insert("main".to_string(), feed);
    let delta = u.run_update(&feeds);
    assert!(delta.is_none());
}

#[test]
fn end_to_end_two_feeds_one_failure() {
    // Configure feedA -> providerX and feedB -> providerY. providerX
    // returns one status entry E1; providerY fails. The published snapshot
    // holds E1 for feedA and a single error entry for feedB, and the
    // subsequent delta holds E1 only.
    let mut configs: Table<ConfigFeedEntry> = Table::new();
    configs.insert(
        "feedA".to_string(),
        ConfigFeedEntry::new("providerX".to_string(), "{}".to_string(), None),
    );
    configs.insert(
        "feedB".to_string(),
        ConfigFeedEntry::new("providerY".to_string(), "{}".to_string(), None),
    );
    let mut fx: Table<Feed> = Table::new();
    let mut fa = Feed::new();
    fa.status.push(Entry::new("E1", "E1-guid").timestamp(10));
    fx.insert("feedA".to_string(), fa);
    let out = fetch_feeds(
        &configs,
        vec![
            ("providerX".to_string(), Ok(fx)),
            ("providerY".to_string(), Err("socket closed".to_string())),
        ],
        99,
    );
    let a = out.feeds.get("feedA").unwrap();
    assert_eq!(guids(&a.status), vec!["E1-guid"]);
    assert_eq!(a.errors.len(), 0);
    let b = out.feeds.get("feedB").unwrap();
    assert_eq!(b.status.len(), 0);
    assert_eq!(b.errors.len(), 1);

    let mut u = Updater::new();
    let (tx, rx) = mpsc::channel::<UpdateResponse>();
    u.add_updater(tx);
    let delta = u.run_update(&out).unwrap();
    assert_eq!(guids(&delta.status), vec!["E1-guid"]);
    assert_eq!(delta.notifications.len(), 0);
    let got = rx.try_recv().unwrap();
    assert_eq!(guids(&got.status), vec!["E1-guid"]);
}

#[test]
fn flatten_merges_and_sorts_across_feeds() {
    let mut feeds: Table<Feed> = Table::new();
    let mut f1 = Feed::new();
    f1.status.push(Entry::new("old", "a").timestamp(1));
    f1.notifications.push(Entry::new("n1", "n1").timestamp(5));
    f1.add_err("late", "m1", None, None, 7);
    let mut f2 = Feed::new();
    f2.status.push(Entry::new("new", "b").timestamp(9));
    f2.add_err("early", "m2", None, None, 2);
    feeds.insert("one".to_string(), f1);
    feeds.insert("two".to_string(), f2);
    let flat = flatten_feeds(&feeds);
    let titles: Vec<&str> = flat.status.iter().map(|e| e.title.as_str()).collect();
    assert_eq!(titles, vec!["new", "old"]);
    assert_eq!(flat.notifications.len(), 1);
    // Errors merge sorted by the ordering law too.
    let errors: Vec<&str> = flat.errors.iter().map(|e| e.title.as_str()).collect();
    assert_eq!(errors, vec!["late", "early"]);
}

#[test]
fn state_publishes_whole_snapshots() {
    // Atomic publish: a reader always sees one whole snapshot, here the
    // most recently stored one; an earlier reference stays valid.
    let mut configs: Table<ConfigFeedEntry> = Table::new();
    configs.insert(
        "feedA".to_string(),
        ConfigFeedEntry::new("providerX".to_string(), "{}".to_string(), None),
    );
    let state = State::new(configs, Feeds::new(1));
    let before = state.load_feeds();
    assert_eq!(before.created, 1);
    assert_eq!(before.feeds.len(), 0);
    let snap = snapshot(2, &[("a", "A")]);
    state.store_feeds(snap);
    let reader = state.clone();
    let after = reader.load_feeds();
    assert_eq!(after.created, 2);
    assert_eq!(after.feeds.len(), 1);
    // The reference taken before the store still sees the old value whole.
    assert_eq!(before.created, 1);
    let cfg = state.load_config();
    assert!(cfg.contains_key("feedA"));
}

#[test]
fn youtube_token_cache() {
    let mut p = YouTubeProvider::new(
        "key".to_string(),
        Some("refresh".to_string()),
        Some("id".to_string()),
        Some("secret".to_string()),
    );
    assert!(p.needs_refresh(1000));
    p.store_token("tok".to_string(), 60, 1000);
    assert!(!p.needs_refresh(1000));
    assert!(!p.needs_refresh(60999));
    assert!(p.needs_refresh(61000));
}

#[test]
fn filter_selects_matching_names() {
    let mut feeds: Table<Feed> = Table::new();
    feeds.insert("funmaker-one".to_string(), Feed::new());
    feeds.insert("funmaker-two".to_string(), Feed::new());
    feeds.insert("other".to_string(), Feed::new());
    let matched = filter_feeds(&feeds, "funmaker-").unwrap();
    assert_eq!(matched.len(), 2);
    assert!(matched.contains_key("funmaker-one"));
    assert!(matched.contains_key("funmaker-two"));
    assert!(!matched.contains_key("other"));
    // Case-insensitive, as the serving interfaces configure the pattern.
    let upper = filter_feeds(&feeds, "FUNMAKER-ONE").unwrap();
    assert_eq!(upper.len(), 1);
    // The empty pattern matches everything.
    assert_eq!(filter_feeds(&feeds, "").unwrap().len(), 3);
    // A pattern that does not compile is rejected.
    assert!(filter_feeds(&feeds, "[unclosed").is_none());
}

#[test]
fn interfaces_hold_their_configs() {
    let mut t: Table<String> = Table::new();
    t.insert("web".to_string(), "{\"port\":8080}".to_string());
    let i = Interfaces::new(t);
    assert_eq!(i.len(), 1);
    assert_eq!(i.name_at(0), "web");
    assert_eq!(i.config_for("web").map(|s| s.as_str()), Some("{\"port\":8080}"));
    assert!(i.config_for("tcp").is_none());
}
