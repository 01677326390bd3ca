//! A named bucket of entries, split into three disjoint lists: durable
//! `status` items, discrete `notifications`, and synthesized `errors` that
//! surface fetch failures as ordinary-looking red entries.

use vstd::prelude::*;

use crate::entry::{entry_wf, Entry};
use crate::hashing::{guid_for, guid_of};
use crate::table::Table;

verus! {

/// Every entry of the sequence satisfies the entry invariant.
pub open spec fn entries_wf(s: Seq<Entry>) -> bool {
    forall|i: int| 0 <= i < s.len() ==> entry_wf(#[trigger] s[i])
}

/// The fields of a synthesized error entry: red marker, timestamp of the
/// round, identity derived from timestamp, title and message.
pub open spec fn is_error_entry(
    e: Entry,
    desc: Seq<char>,
    msg: Seq<char>,
    link: Option<String>,
    extra: Option<String>,
    now: i64,
) -> bool {
    &&& e.title@ == desc
    &&& e.guid@ == guid_of(now, desc, msg)
    &&& e.description matches Some(d) && d@ == msg
    &&& e.link == link
    &&& e.color matches Some(c) && c@ == "#FF0000"@
    &&& e.image_url is None
    &&& e.feed_name is None
    &&& e.timestamp == Some(now)
    &&& e.extra == extra
}

/// A feed that reports nothing but a single fetch failure.
pub open spec fn is_error_feed(f: Feed, desc: Seq<char>, msg: Seq<char>, now: i64) -> bool {
    &&& f.status@.len() == 0
    &&& f.notifications@.len() == 0
    &&& f.errors@.len() == 1
    &&& is_error_entry(f.errors@[0], desc, msg, None, None, now)
}

/// One logical feed's content for a round.
pub struct Feed {
    pub status: Vec<Entry>,
    pub notifications: Vec<Entry>,
    pub errors: Vec<Entry>,
}

fn clone_entries(v: &Vec<Entry>) -> (r: Vec<Entry>)
    ensures
        r@ == v@,
{
    let mut r: Vec<Entry> = Vec::new();
    let n = v.len();
    for i in 0..n
        invariant
            n == v@.len(),
            r@ =~= v@.subrange(0, i as int),
    {
        r.push(v[i].clone());
    }
    proof {
        assert(v@.subrange(0, n as int) =~= v@);
    }
    r
}

impl Clone for Feed {
    fn clone(&self) -> (r: Self)
        ensures
            r.status@ == self.status@,
            r.notifications@ == self.notifications@,
            r.errors@ == self.errors@,
    {
        Feed {
            status: clone_entries(&self.status),
            notifications: clone_entries(&self.notifications),
            errors: clone_entries(&self.errors),
        }
    }
}

impl Feed {
    /// All entries carry a non-empty guid.
    pub open spec fn wf(self) -> bool {
        entries_wf(self.status@) && entries_wf(self.notifications@) && entries_wf(self.errors@)
    }

    /// A feed with no content.
    pub fn new() -> (r: Feed)
        ensures
            r.status@ == Seq::<Entry>::empty(),
            r.notifications@ == Seq::<Entry>::empty(),
            r.errors@ == Seq::<Entry>::empty(),
            r.wf(),
    {
        Feed { status: Vec::new(), notifications: Vec::new(), errors: Vec::new() }
    }

    /// Merges another raw result into this feed: the three lists concatenate
    /// pairwise. Used when one provider supplies several raw results that
    /// combine into one named feed.
    pub fn append(self, other: Feed) -> (r: Feed)
        ensures
            r.status@ == self.status@ + other.status@,
            r.notifications@ == self.notifications@ + other.notifications@,
            r.errors@ == self.errors@ + other.errors@,
            self.wf() && other.wf() ==> r.wf(),
    {
        let mut s = self;
        let mut o = other;
        s.status.append(&mut o.status);
        s.notifications.append(&mut o.notifications);
        s.errors.append(&mut o.errors);
        proof {
            assert forall|i: int|
                0 <= i < s.status@.len() && self.wf() && other.wf() implies entry_wf(
                #[trigger] s.status@[i],
            ) by {}
            assert forall|i: int|
                0 <= i < s.notifications@.len() && self.wf() && other.wf() implies entry_wf(
                #[trigger] s.notifications@[i],
            ) by {}
            assert forall|i: int|
                0 <= i < s.errors@.len() && self.wf() && other.wf() implies entry_wf(
                #[trigger] s.errors@[i],
            ) by {}
        }
        s
    }

    /// Appends a synthesized error entry describing a fetch failure: a fresh
    /// deterministic guid from the round timestamp, reason and message, a red
    /// color marker, and best-effort cause info prepared by the caller.
    pub fn add_err(
        &mut self,
        desc: &str,
        message: &str,
        link: Option<String>,
        extra: Option<String>,
        now: i64,
    )
        ensures
            final(self).status@ == old(self).status@,
            final(self).notifications@ == old(self).notifications@,
            final(self).errors@ == old(self).errors@.push(final(self).errors@.last()),
            final(self).errors@.len() == old(self).errors@.len() + 1,
            is_error_entry(final(self).errors@.last(), desc@, message@, link, extra, now),
            old(self).wf() ==> final(self).wf(),
    {
        let guid = guid_for(now, desc, message);
        let e = Entry::new(desc, guid.as_str()).description(message).color("#FF0000").timestamp(
            now,
        ).set_link(link).set_extra(extra);
        self.errors.push(e);
    }

    /// A fresh feed holding exactly one synthesized error entry.
    pub fn from_err(desc: &str, message: &str, now: i64) -> (r: Feed)
        ensures
            is_error_feed(r, desc@, message@, now),
            r.wf(),
    {
        let mut feed = Feed::new();
        feed.add_err(desc, message, None, None, now);
        feed
    }
}

/// The full aggregate snapshot across all logical feed names at one point in
/// time. Built fresh each round and never mutated once published.
pub struct Feeds {
    pub created: i64,
    pub feeds: Table<Feed>,
}

impl Feeds {
    /// Each feed name occurs once.
    pub open spec fn wf(self) -> bool {
        self.feeds.wf()
    }

    /// An empty snapshot stamped with its assembly time.
    pub fn new(now: i64) -> (r: Feeds)
        ensures
            r.created == now,
            r.feeds@ == Seq::<(String, Feed)>::empty(),
            r.wf(),
    {
        Feeds { created: now, feeds: Table::new() }
    }
}

} // verus!
