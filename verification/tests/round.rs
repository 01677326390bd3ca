use notifier::config::ConfigFeedEntry;
use notifier::entry::Entry;
use notifier::feed::Feed;
use notifier::orchestrator::{fetch_feeds, partition_for_provider};
use notifier::providers::{
    find_provider, init_provider, NullProvider, ProviderInitError, ProviderKind,
};
use notifier::table::Table;

fn cfg(provider: &str, color: Option<&str>) -> ConfigFeedEntry {
    ConfigFeedEntry::new(
        provider.to_string(),
        "{}".to_string(),
        color.map(|c| c.to_string()),
    )
}

fn two_provider_configs() -> Table<ConfigFeedEntry> {
    let mut configs: Table<ConfigFeedEntry> = Table::new();
    configs.insert("feedA".to_string(), cfg("providerX", Some("#00FF00")));
    configs.insert("feedB".to_string(), cfg("providerY", None));
    configs
}

#[test]
fn partition_splits_by_provider() {
    let configs = two_provider_configs();
    let x = partition_for_provider(&configs, "providerX");
    assert_eq!(x.len(), 1);
    assert!(x.contains_key("feedA"));
    assert!(!x.contains_key("feedB"));
    let y = partition_for_provider(&configs, "providerY");
    assert_eq!(y.len(), 1);
    assert!(y.contains_key("feedB"));
    let z = partition_for_provider(&configs, "providerZ");
    assert!(z.is_empty());
}

#[test]
fn round_fills_feed_name_and_color() {
    let configs = two_provider_configs();
    let mut fm: Table<Feed> = Table::new();
    let mut feed = Feed::new();
    feed.status.push(Entry::new("live", "s1"));
    feed.status
        .push(Entry::new("styled", "s2").color("#AAAAAA").feed_name("custom"));
    fm.insert("feedA".to_string(), feed);
    let out = fetch_feeds(&configs, vec![("providerX".to_string(), Ok(fm))], 50);
    let a = out.feeds.get("feedA").unwrap();
    assert_eq!(a.status.len(), 2);
    for e in &a.status {
        match e.guid.as_str() {
            "s1" => {
                assert_eq!(e.feed_name.as_deref(), Some("feedA"));
                assert_eq!(e.color.as_deref(), Some("#00FF00"));
            }
            "s2" => {
                assert_eq!(e.feed_name.as_deref(), Some("custom"));
                assert_eq!(e.color.as_deref(), Some("#AAAAAA"));
            }
            other => panic!("unexpected guid {}", other),
        }
    }
}

#[test]
fn round_sorts_status_newest_first() {
    let configs = two_provider_configs();
    let mut fm: Table<Feed> = Table::new();
    let mut feed = Feed::new();
    feed.status.push(Entry::new("old", "a").timestamp(1));
    feed.status.push(Entry::new("untimed", "b"));
    feed.status.push(Entry::new("new", "c").timestamp(9));
    fm.insert("feedA".to_string(), feed);
    let out = fetch_feeds(&configs, vec![("providerX".to_string(), Ok(fm))], 0);
    let a = out.feeds.get("feedA").unwrap();
    let titles: Vec<&str> = a.status.iter().map(|e| e.title.as_str()).collect();
    assert_eq!(titles, vec!["new", "old", "untimed"]);
}

#[test]
fn failed_provider_owns_only_its_feeds() {
    // Fault isolation: providerY fails outright; feedA is untouched and
    // feedB gets exactly one error entry and nothing else.
    let configs = two_provider_configs();
    let mut fm: Table<Feed> = Table::new();
    let mut feed = Feed::new();
    feed.status.push(Entry::new("E1", "e1").timestamp(3));
    fm.insert("feedA".to_string(), feed);
    let out = fetch_feeds(
        &configs,
        vec![
            ("providerX".to_string(), Ok(fm)),
            ("providerY".to_string(), Err("boom".to_string())),
        ],
        77,
    );
    let a = out.feeds.get("feedA").unwrap();
    assert_eq!(a.status.len(), 1);
    assert_eq!(a.status[0].title, "E1");
    assert_eq!(a.errors.len(), 0);
    let b = out.feeds.get("feedB").unwrap();
    assert_eq!(b.status.len(), 0);
    assert_eq!(b.notifications.len(), 0);
    assert_eq!(b.errors.len(), 1);
    assert_eq!(b.errors[0].title, "Failed to fetch feeds");
    assert_eq!(b.errors[0].description.as_deref(), Some("boom"));
    assert_eq!(b.errors[0].color.as_deref(), Some("#FF0000"));
    assert_eq!(b.errors[0].timestamp, Some(77));
}

#[test]
fn merged_names_are_union_without_duplicates() {
    // Merge disjointness: the snapshot holds exactly the union of the
    // providers' names, each exactly once.
    let configs = two_provider_configs();
    let mut fx: Table<Feed> = Table::new();
    fx.insert("feedA".to_string(), Feed::new());
    let mut fy: Table<Feed> = Table::new();
    fy.insert("feedB".to_string(), Feed::new());
    let out = fetch_feeds(
        &configs,
        vec![
            ("providerX".to_string(), Ok(fx)),
            ("providerY".to_string(), Ok(fy)),
        ],
        0,
    );
    assert_eq!(out.feeds.len(), 2);
    assert!(out.feeds.contains_key("feedA"));
    assert!(out.feeds.contains_key("feedB"));
    assert!(!out.feeds.contains_key("feedC"));
}

#[test]
fn round_stamps_creation_time() {
    let configs: Table<ConfigFeedEntry> = Table::new();
    let out = fetch_feeds(&configs, vec![], 123456);
    assert_eq!(out.created, 123456);
    assert_eq!(out.feeds.len(), 0);
}

#[test]
fn null_provider_answers_every_assigned_name() {
    let configs = two_provider_configs();
    let null = NullProvider::new("could not initialize".to_string());
    let out = null.fetch(&configs, 5);
    assert_eq!(out.len(), 2);
    for name in ["feedA", "feedB"] {
        let f = out.get(name).unwrap();
        assert_eq!(f.status.len(), 0);
        assert_eq!(f.notifications.len(), 0);
        assert_eq!(f.errors.len(), 1);
        assert_eq!(f.errors[0].title, "Failed to load provider");
        assert_eq!(
            f.errors[0].description.as_deref(),
            Some("could not initialize")
        );
    }
}

#[test]
fn provider_registry_resolves_known_names() {
    assert_eq!(find_provider("rss"), Some(ProviderKind::Rss));
    assert_eq!(find_provider("youtube"), Some(ProviderKind::YouTube));
    assert_eq!(find_provider("chan"), Some(ProviderKind::Chan));
    assert_eq!(find_provider("vinesauce"), Some(ProviderKind::Vinesauce));
    assert_eq!(find_provider("gopher"), None);
}

#[test]
fn init_provider_disabled_and_unknown() {
    assert_eq!(
        init_provider("rss", Some(false)),
        Err(ProviderInitError::Disabled)
    );
    assert_eq!(init_provider("rss", Some(true)), Ok(ProviderKind::Rss));
    assert_eq!(init_provider("rss", None), Ok(ProviderKind::Rss));
    assert_eq!(
        init_provider("gopher", None),
        Err(ProviderInitError::NotFound)
    );
}

#[test]
fn later_result_wins_on_clashing_name() {
    // Outside the disjoint partition, the later outcome takes precedence.
    let configs = two_provider_configs();
    let mut f1: Table<Feed> = Table::new();
    let mut feed1 = Feed::new();
    feed1.status.push(Entry::new("first", "g1"));
    f1.insert("feedA".to_string(), feed1);
    let mut f2: Table<Feed> = Table::new();
    let mut feed2 = Feed::new();
    feed2.status.push(Entry::new("second", "g2"));
    f2.insert("feedA".to_string(), feed2);
    let out = fetch_feeds(
        &configs,
        vec![
            ("providerX".to_string(), Ok(f1)),
            ("providerX".to_string(), Ok(f2)),
        ],
        0,
    );
    assert_eq!(out.feeds.len(), 1);
    let a = out.feeds.get("feedA").unwrap();
    assert_eq!(a.status.len(), 1);
    assert_eq!(a.status[0].title, "second");
}
