//! Configuration data: one entry per logical feed name routes to a provider
//! and carries provider-specific data (serialized, opaque to the core) plus
//! an optional display color.

use vstd::prelude::*;

use crate::table::{tget, Table};

verus! {

/// Why an administrative configuration update was refused.
#[derive(Clone, Copy, Debug, PartialEq, Eq, Structural)]
pub enum ConfigUpdateError {
    /// A feed of that name is already configured.
    FeedExists,
    /// No feed of that name is configured.
    NoSuchFeed,
}

/// Routing and post-processing data for one logical feed name.
pub struct ConfigFeedEntry {
    pub provider: String,
    pub provider_data: String,
    pub color: Option<String>,
}

impl Clone for ConfigFeedEntry {
    fn clone(&self) -> (r: Self)
        ensures
            r == *self,
    {
        ConfigFeedEntry {
            provider: self.provider.clone(),
            provider_data: self.provider_data.clone(),
            color: match &self.color {
                Some(c) => Some(c.clone()),
                None => None,
            },
        }
    }
}

impl ConfigFeedEntry {
    pub fn new(provider: String, provider_data: String, color: Option<String>) -> (r:
        ConfigFeedEntry)
        ensures
            r.provider == provider,
            r.provider_data == provider_data,
            r.color == color,
    {
        ConfigFeedEntry { provider, provider_data, color }
    }
}

/// The whole configuration: feed routing, per-provider and per-interface
/// settings (serialized, opaque to the core), and the fetch interval.
pub struct Config {
    pub feeds: Table<ConfigFeedEntry>,
    pub providers: Table<String>,
    pub interfaces: Table<String>,
    pub fetch_interval_secs: u64,
}

impl Config {
    pub fn new(
        feeds: Table<ConfigFeedEntry>,
        providers: Table<String>,
        interfaces: Table<String>,
        fetch_interval_secs: u64,
    ) -> (r: Config)
        ensures
            r.feeds == feeds,
            r.providers == providers,
            r.interfaces == interfaces,
            r.fetch_interval_secs == fetch_interval_secs,
    {
        Config { feeds, providers, interfaces, fetch_interval_secs }
    }

    /// The administrative add: configures a new feed name, and refuses a
    /// name that is already configured, leaving everything unchanged then.
    pub fn add_feed(&mut self, name: String, entry: ConfigFeedEntry) -> (r: Result<
        (),
        ConfigUpdateError,
    >)
        requires
            old(self).feeds.wf(),
        ensures
            final(self).feeds.wf(),
            tget(old(self).feeds@, name@) is Some ==> r == Err::<(), ConfigUpdateError>(
                ConfigUpdateError::FeedExists,
            ) && *final(self) == *old(self),
            tget(old(self).feeds@, name@) is None ==> r == Ok::<(), ConfigUpdateError>(())
                && tget(final(self).feeds@, name@) == Some(entry) && (forall|k2: Seq<char>|
                k2 != name@ ==> tget(final(self).feeds@, k2) == tget(old(self).feeds@, k2)),
            final(self).providers == old(self).providers,
            final(self).interfaces == old(self).interfaces,
            final(self).fetch_interval_secs == old(self).fetch_interval_secs,
    {
        if self.feeds.contains_key(name.as_str()) {
            return Err(ConfigUpdateError::FeedExists);
        }
        self.feeds.insert(name, entry);
        Ok(())
    }

    /// The administrative remove: drops a configured feed name, returning
    /// its entry, and refuses a name that is not configured.
    pub fn remove_feed(&mut self, name: &str) -> (r: Result<ConfigFeedEntry, ConfigUpdateError>)
        requires
            old(self).feeds.wf(),
        ensures
            final(self).feeds.wf(),
            match tget(old(self).feeds@, name@) {
                Some(entry) => r == Ok::<ConfigFeedEntry, ConfigUpdateError>(entry) && tget(
                    final(self).feeds@,
                    name@,
                ) is None && (forall|k2: Seq<char>|
                    k2 != name@ ==> tget(final(self).feeds@, k2) == tget(old(self).feeds@, k2)),
                None => r == Err::<ConfigFeedEntry, ConfigUpdateError>(
                    ConfigUpdateError::NoSuchFeed,
                ) && final(self).feeds@ == old(self).feeds@,
            },
            final(self).providers == old(self).providers,
            final(self).interfaces == old(self).interfaces,
            final(self).fetch_interval_secs == old(self).fetch_interval_secs,
    {
        match self.feeds.remove(name) {
            Some(entry) => Ok(entry),
            None => Err(ConfigUpdateError::NoSuchFeed),
        }
    }
}

} // verus!
