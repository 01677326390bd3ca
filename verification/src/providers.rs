//! The provider registry: the closed set of known source adapters, the
//! decision that routes a configured name to one of them, and the null
//! provider that stands in for an adapter that could not initialize.

use vstd::prelude::*;

use crate::config::ConfigFeedEntry;
use crate::feed::{is_error_feed, Feed};
use crate::table::{tget, Table};
use crate::table::lemma_tget_occurs;
use crate::text::str_eql;

verus! {

/// The closed set of source adapters this aggregator knows.
#[derive(Clone, Copy, Debug, PartialEq, Eq, Structural)]
pub enum ProviderKind {
    Rss,
    YouTube,
    Chan,
    Vinesauce,
}

/// Why a configured provider could not be set up.
#[derive(Clone, Copy, Debug, PartialEq, Eq, Structural)]
pub enum ProviderInitError {
    Disabled,
    NotFound,
}

/// No provider is registered under the configured name.
pub struct ProviderNotFoundError;

impl ProviderNotFoundError {
    pub fn message(&self) -> (r: &'static str)
        ensures
            r@ == "Provider not found"@,
    {
        "Provider not found"
    }
}

/// The provider is switched off in its configuration.
pub struct ProviderDisabledError;

impl ProviderDisabledError {
    pub fn message(&self) -> (r: &'static str)
        ensures
            r@ == "Provider is disabled"@,
    {
        "Provider is disabled"
    }
}

/// A requested board is missing from the fetched catalog data.
pub struct BoardNotFound;

impl BoardNotFound {
    pub fn message(&self) -> (r: &'static str)
        ensures
            r@ == "Board Not Found"@,
    {
        "Board Not Found"
    }
}

/// The registration table: which adapter a provider name denotes.
pub open spec fn provider_for_name(name: Seq<char>) -> Option<ProviderKind> {
    if name == "rss"@ {
        Some(ProviderKind::Rss)
    } else if name == "youtube"@ {
        Some(ProviderKind::YouTube)
    } else if name == "chan"@ {
        Some(ProviderKind::Chan)
    } else if name == "vinesauce"@ {
        Some(ProviderKind::Vinesauce)
    } else {
        None
    }
}

/// Looks a provider name up in the registration table.
pub fn find_provider(name: &str) -> (r: Option<ProviderKind>)
    ensures
        r == provider_for_name(name@),
{
    if str_eql(name, "rss") {
        Some(ProviderKind::Rss)
    } else if str_eql(name, "youtube") {
        Some(ProviderKind::YouTube)
    } else if str_eql(name, "chan") {
        Some(ProviderKind::Chan)
    } else if str_eql(name, "vinesauce") {
        Some(ProviderKind::Vinesauce)
    } else {
        None
    }
}

/// The provider-setup decision: a provider whose configuration switches it
/// off is disabled whatever its name; otherwise the name must be registered.
pub fn init_provider(name: &str, enabled: Option<bool>) -> (r: Result<
    ProviderKind,
    ProviderInitError,
>)
    ensures
        enabled == Some(false) ==> r == Err::<ProviderKind, ProviderInitError>(
            ProviderInitError::Disabled,
        ),
        enabled != Some(false) ==> r == match provider_for_name(name@) {
            Some(k) => Ok::<ProviderKind, ProviderInitError>(k),
            None => Err(ProviderInitError::NotFound),
        },
{
    if enabled == Some(false) {
        return Err(ProviderInitError::Disabled);
    }
    match find_provider(name) {
        Some(k) => Ok(k),
        None => Err(ProviderInitError::NotFound),
    }
}

/// Stands in for a provider that could not initialize: it answers every
/// assigned feed name with a feed whose only content is one error entry
/// explaining the failure.
pub struct NullProvider {
    pub error: String,
}

impl NullProvider {
    pub fn new(error: String) -> (r: NullProvider)
        ensures
            r.error == error,
    {
        NullProvider { error }
    }

    /// One error feed per assigned feed name; no name is lost and none is
    /// invented, keeping the orchestrator's dispatch provider-agnostic.
    #[verifier::loop_isolation(false)]
    pub fn fetch(&self, config: &Table<ConfigFeedEntry>, now: i64) -> (r: Table<Feed>)
        ensures
            r.wf(),
            forall|k: Seq<char>| (tget(r@, k) is Some) == (tget(config@, k) is Some),
            forall|k: Seq<char>|
                #[trigger] tget(r@, k) matches Some(f) ==> is_error_feed(
                    f,
                    "Failed to load provider"@,
                    self.error@,
                    now,
                ),
    {
        let mut r: Table<Feed> = Table::new();
        let n = config.len();
        for i in 0..n
            invariant
                r.wf(),
                forall|k: Seq<char>|
                    (tget(r@, k) is Some) == exists|j: int| 0 <= j < i && config@[j].0@ == k,
                forall|k: Seq<char>|
                    #[trigger] tget(r@, k) matches Some(f) ==> is_error_feed(
                        f,
                        "Failed to load provider"@,
                        self.error@,
                        now,
                    ),
        {
            let name = config.key_at(i).clone();
            let feed = Feed::from_err("Failed to load provider", self.error.as_str(), now);
            proof {
                assert(config@[i as int].0@ == name@);
            }
            r.insert(name, feed);
            assert forall|k: Seq<char>| (tget(r@, k) is Some) == exists|j: int|
                0 <= j < i + 1 && config@[j].0@ == k by {
                if k == name@ {
                    assert(config@[i as int].0@ == k);
                }
            }
        }
        proof {
            assert forall|k: Seq<char>| (tget(r@, k) is Some) == (tget(config@, k) is Some) by {
                lemma_tget_occurs(config@, k);
            }
        }
        r
    }
}

/// A syndication-feed adapter; initialization never fails.
pub struct RssProvider;

impl RssProvider {
    pub fn new() -> (r: RssProvider) {
        RssProvider
    }
}

/// A forum-catalog adapter; initialization never fails.
pub struct ChanProvider;

impl ChanProvider {
    pub fn new() -> (r: ChanProvider) {
        ChanProvider
    }
}

/// A live-stream team-status adapter; initialization never fails.
pub struct VinesauceProvider;

impl VinesauceProvider {
    pub fn new() -> (r: VinesauceProvider) {
        VinesauceProvider
    }
}

/// A video-platform adapter: carries its API credentials and a cached access
/// token with its expiry, in milliseconds since the epoch.
pub struct YouTubeProvider {
    pub api_key: String,
    pub access_token: Option<String>,
    pub access_expires: Option<i64>,
    pub refresh_token: Option<String>,
    pub client_id: Option<String>,
    pub client_secret: Option<String>,
}

impl YouTubeProvider {
    pub fn new(
        api_key: String,
        refresh_token: Option<String>,
        client_id: Option<String>,
        client_secret: Option<String>,
    ) -> (r: YouTubeProvider)
        ensures
            r.api_key == api_key,
            r.access_token is None,
            r.access_expires is None,
            r.refresh_token == refresh_token,
            r.client_id == client_id,
            r.client_secret == client_secret,
    {
        YouTubeProvider {
            api_key,
            access_token: None,
            access_expires: None,
            refresh_token,
            client_id,
            client_secret,
        }
    }

    /// The cached access token is reused until it expires; a refresh is due
    /// when none is cached or its expiry is not after the present time.
    pub fn needs_refresh(&self, now: i64) -> (r: bool)
        ensures
            r == !(self.access_token is Some && (self.access_expires matches Some(t) && t > now)),
    {
        match (&self.access_token, &self.access_expires) {
            (Some(_), Some(t)) => !(*t > now),
            _ => true,
        }
    }

    /// Caches a token obtained by the refresh call, valid for the given
    /// number of seconds from the present time.
    pub fn store_token(&mut self, token: String, expires_in_secs: i64, now: i64)
        requires
            0 <= expires_in_secs,
            0 <= now,
            now + expires_in_secs * 1000 <= i64::MAX,
        ensures
            final(self).access_token == Some(token),
            final(self).access_expires == Some((now + expires_in_secs * 1000) as i64),
            final(self).api_key == old(self).api_key,
            final(self).refresh_token == old(self).refresh_token,
            final(self).client_id == old(self).client_id,
            final(self).client_secret == old(self).client_secret,
    {
        self.access_token = Some(token);
        self.access_expires = Some(now + expires_in_secs * 1000);
    }
}

} // verus!
