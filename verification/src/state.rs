//! The process-wide state store: the current feed configuration and the
//! current published snapshot, each independently and atomically
//! replaceable. Readers take a complete, self-consistent value without
//! blocking the writer; a reader holding an earlier snapshot keeps it valid.
//!
//! The store is an atomic pointer swap (arc_swap); Verus does not look
//! inside it. What the contracts assume of it is listed on each method: a
//! load returns a whole value that was earlier given to `new`, `store_feeds`
//! or `store_config`, never a torn mixture, so the well-formedness that
//! every stored value is required to carry holds of every loaded one. The
//! fields are private, so those methods are the only way a value gets in.

use std::sync::Arc;

use arc_swap::ArcSwap;

use vstd::prelude::*;

use crate::config::ConfigFeedEntry;
use crate::feed::Feeds;
use crate::table::Table;

verus! {

/// Holder of the current configuration and the current snapshot.
#[verifier::external_body]
pub struct State {
    feed_entries: Arc<ArcSwap<Table<ConfigFeedEntry>>>,
    feeds: Arc<ArcSwap<Feeds>>,
}

impl State {
    /// Relies on arc_swap::ArcSwap::from_pointee to hold exactly the given
    /// values until they are replaced. Starts with the given configuration
    /// and the given initial snapshot (usually an empty one).
    #[verifier::external_body]
    pub fn new(feed_entries: Table<ConfigFeedEntry>, initial: Feeds) -> (r: State)
        requires
            feed_entries.wf(),
            initial.wf(),
    {
        State {
            feed_entries: Arc::new(ArcSwap::from_pointee(feed_entries)),
            feeds: Arc::new(ArcSwap::from_pointee(initial)),
        }
    }

    /// Relies on arc_swap::ArcSwap::load_full: returns one whole previously
    /// stored snapshot, atomically, without blocking a concurrent store.
    /// Every stored snapshot is well-formed by the contracts of `new` and
    /// `store_feeds`, so the loaded one is.
    #[verifier::external_body]
    pub fn load_feeds(&self) -> (r: Arc<Feeds>)
        ensures
            (*r).wf(),
    {
        self.feeds.load_full()
    }

    /// Relies on arc_swap::ArcSwap::store: publishes the whole snapshot
    /// atomically; readers holding the previous snapshot keep it valid.
    #[verifier::external_body]
    pub fn store_feeds(&self, snapshot: Feeds)
        requires
            snapshot.wf(),
    {
        self.feeds.store(Arc::new(snapshot));
    }

    /// Relies on arc_swap::ArcSwap::load_full, as `load_feeds` does.
    #[verifier::external_body]
    pub fn load_config(&self) -> (r: Arc<Table<ConfigFeedEntry>>)
        ensures
            (*r).wf(),
    {
        self.feed_entries.load_full()
    }

    /// Relies on arc_swap::ArcSwap::store, as `store_feeds` does.
    #[verifier::external_body]
    pub fn store_config(&self, config: Table<ConfigFeedEntry>)
        requires
            config.wf(),
    {
        self.feed_entries.store(Arc::new(config));
    }
}

impl Clone for State {
    /// Relies on std::sync::Arc::clone: another handle to the same store.
    #[verifier::external_body]
    fn clone(&self) -> (r: Self) {
        State { feed_entries: Arc::clone(&self.feed_entries), feeds: Arc::clone(&self.feeds) }
    }
}

} // verus!
