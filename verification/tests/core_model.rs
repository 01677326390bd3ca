use notifier::config::{Config, ConfigFeedEntry, ConfigUpdateError};
use notifier::entry::Entry;
use notifier::feed::Feed;
use notifier::hashing::{guid_for, hash};
use notifier::table::Table;

#[test]
fn entry_builders_set_fields() {
    let e = Entry::new("title", "id-1")
        .description("desc")
        .link("http://example.org/")
        .color("#123456")
        .image_url("http://example.org/i.png")
        .timestamp(42)
        .extra("{\"k\":1}".to_string())
        .feed_name("my-feed");
    assert_eq!(e.title, "title");
    assert_eq!(e.guid, "id-1");
    assert_eq!(e.description.as_deref(), Some("desc"));
    assert_eq!(e.link.as_deref(), Some("http://example.org/"));
    assert_eq!(e.color.as_deref(), Some("#123456"));
    assert_eq!(e.image_url.as_deref(), Some("http://example.org/i.png"));
    assert_eq!(e.timestamp, Some(42));
    assert_eq!(e.extra.as_deref(), Some("{\"k\":1}"));
    assert_eq!(e.feed_name.as_deref(), Some("my-feed"));
}

#[test]
fn entry_setters_overwrite_and_clear() {
    let e = Entry::new("t", "g")
        .description("one")
        .set_description(None)
        .set_link(Some("l".to_string()))
        .set_color(Some("c".to_string()))
        .set_image_url(Some("i".to_string()))
        .set_timestamp(Some(7))
        .set_extra(Some("x".to_string()))
        .set_feed_name(Some("f".to_string()));
    assert_eq!(e.description, None);
    assert_eq!(e.link.as_deref(), Some("l"));
    assert_eq!(e.color.as_deref(), Some("c"));
    assert_eq!(e.image_url.as_deref(), Some("i"));
    assert_eq!(e.timestamp, Some(7));
    assert_eq!(e.extra.as_deref(), Some("x"));
    assert_eq!(e.feed_name.as_deref(), Some("f"));
}

#[test]
fn sort_orders_newest_first_with_untimestamped_last() {
    let mut v = vec![
        Entry::new("old", "a").timestamp(10),
        Entry::new("none1", "b"),
        Entry::new("new", "c").timestamp(30),
        Entry::new("mid", "d").timestamp(20),
        Entry::new("none2", "e"),
    ];
    notifier::entry::sort_entries(&mut v);
    let titles: Vec<&str> = v.iter().map(|e| e.title.as_str()).collect();
    assert_eq!(titles[0], "new");
    assert_eq!(titles[1], "mid");
    assert_eq!(titles[2], "old");
    // Entries without a timestamp come after every timestamped entry.
    assert!(v[3].timestamp.is_none());
    assert!(v[4].timestamp.is_none());
    assert_eq!(v.len(), 5);
}

#[test]
fn sort_is_stable_for_equal_timestamps() {
    let mut v = vec![
        Entry::new("first", "a").timestamp(5),
        Entry::new("second", "b").timestamp(5),
        Entry::new("third", "c").timestamp(5),
    ];
    notifier::entry::sort_entries(&mut v);
    let titles: Vec<&str> = v.iter().map(|e| e.title.as_str()).collect();
    assert_eq!(titles, vec!["first", "second", "third"]);
}

#[test]
fn hash_matches_fnv1a_reference_values() {
    // FNV-1a of the empty string is the offset basis.
    assert_eq!(hash(""), "CBF29CE484222325");
    // FNV-1a of "a".
    assert_eq!(hash("a"), "AF63DC4C8601EC8C");
}

#[test]
fn hash_is_deterministic_and_discriminating() {
    assert_eq!(hash("some text"), hash("some text"));
    assert_ne!(hash("some text"), hash("some text!"));
}

#[test]
fn guid_is_deterministic_sixteen_hex_digits() {
    let g1 = guid_for(1700000000000, "reason", "message");
    let g2 = guid_for(1700000000000, "reason", "message");
    assert_eq!(g1, g2);
    assert_eq!(g1.len(), 16);
    assert!(g1.chars().all(|c| c.is_ascii_hexdigit()));
    assert_ne!(g1, guid_for(1700000000001, "reason", "message"));
    assert_ne!(g1, guid_for(1700000000000, "reason", "other"));
    // The separator keeps field splits apart.
    assert_ne!(
        guid_for(1, "ab", "c"),
        guid_for(1, "a", "bc"),
    );
}

#[test]
fn add_err_appends_one_red_entry() {
    let mut f = Feed::new();
    f.add_err("Fetch broke", "connection refused", Some("http://x/".to_string()), None, 123);
    assert_eq!(f.status.len(), 0);
    assert_eq!(f.notifications.len(), 0);
    assert_eq!(f.errors.len(), 1);
    let e = &f.errors[0];
    assert_eq!(e.title, "Fetch broke");
    assert_eq!(e.description.as_deref(), Some("connection refused"));
    assert_eq!(e.color.as_deref(), Some("#FF0000"));
    assert_eq!(e.timestamp, Some(123));
    assert_eq!(e.link.as_deref(), Some("http://x/"));
    assert_eq!(e.guid, guid_for(123, "Fetch broke", "connection refused"));
}

#[test]
fn from_err_builds_single_error_feed() {
    let f = Feed::from_err("broken", "why", 9);
    assert_eq!(f.status.len(), 0);
    assert_eq!(f.notifications.len(), 0);
    assert_eq!(f.errors.len(), 1);
    assert_eq!(f.errors[0].title, "broken");
}

#[test]
fn feed_append_concatenates_pairwise() {
    let mut a = Feed::new();
    a.status.push(Entry::new("s1", "g1"));
    a.notifications.push(Entry::new("n1", "g2"));
    let mut b = Feed::new();
    b.status.push(Entry::new("s2", "g3"));
    b.add_err("e", "m", None, None, 1);
    let c = a.append(b);
    assert_eq!(c.status.len(), 2);
    assert_eq!(c.status[0].title, "s1");
    assert_eq!(c.status[1].title, "s2");
    assert_eq!(c.notifications.len(), 1);
    assert_eq!(c.errors.len(), 1);
}

#[test]
fn config_add_and_remove_feed() {
    let mut config = Config::new(Table::new(), Table::new(), Table::new(), 60);
    let entry = ConfigFeedEntry::new("rss".to_string(), "\"http://x/\"".to_string(), None);
    assert_eq!(config.add_feed("news".to_string(), entry.clone()), Ok(()));
    assert_eq!(
        config.add_feed("news".to_string(), entry.clone()),
        Err(ConfigUpdateError::FeedExists)
    );
    assert!(config.feeds.contains_key("news"));
    let removed = config.remove_feed("news").unwrap();
    assert_eq!(removed.provider, "rss");
    assert!(!config.feeds.contains_key("news"));
    assert!(matches!(config.remove_feed("news"), Err(ConfigUpdateError::NoSuchFeed)));
}

#[test]
fn table_remove_unbinds_only_that_name() {
    let mut t: Table<u32> = Table::new();
    t.insert("a".to_string(), 1);
    t.insert("b".to_string(), 2);
    assert_eq!(t.remove("a"), Some(1));
    assert_eq!(t.remove("a"), None);
    assert_eq!(t.get("b").copied(), Some(2));
    assert_eq!(t.len(), 1);
}

#[test]
fn table_insert_get_replace() {
    let mut t: Table<u32> = Table::new();
    assert!(t.is_empty());
    t.insert("a".to_string(), 1);
    t.insert("b".to_string(), 2);
    assert_eq!(t.len(), 2);
    assert_eq!(t.get("a").copied(), Some(1));
    assert_eq!(t.get("b").copied(), Some(2));
    assert_eq!(t.get("c").copied(), None);
    assert!(t.contains_key("a"));
    assert!(!t.contains_key("c"));
    t.insert("a".to_string(), 10);
    assert_eq!(t.len(), 2);
    assert_eq!(t.get("a").copied(), Some(10));
    let popped = t.pop().unwrap();
    assert_eq!(popped.0, "b");
    assert_eq!(t.len(), 1);
}
