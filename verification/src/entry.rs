//! The normalized unit of content. Every entry carries a stable `guid` used
//! for deduplication and change detection, and orders newest-first by
//! timestamp, with entries lacking a timestamp after all timestamped ones.

use vstd::prelude::*;

verus! {

/// One piece of content, normalized across all sources. Timestamps are
/// milliseconds since the epoch; `extra` carries source-specific structured
/// metadata, serialized, opaque to the core.
pub struct Entry {
    pub title: String,
    pub guid: String,
    pub feed_name: Option<String>,
    pub description: Option<String>,
    pub link: Option<String>,
    pub color: Option<String>,
    pub image_url: Option<String>,
    pub timestamp: Option<i64>,
    pub extra: Option<String>,
}

/// The entry invariant: a guid is never empty.
pub open spec fn entry_wf(e: Entry) -> bool {
    e.guid@.len() > 0
}

/// The ordering law: newest first; entries without a timestamp come after
/// every timestamped entry; two entries without timestamps are tied.
pub open spec fn entry_le(a: Entry, b: Entry) -> bool {
    match (a.timestamp, b.timestamp) {
        (Some(x), Some(y)) => x >= y,
        (Some(_), None) => true,
        (None, Some(_)) => false,
        (None, None) => true,
    }
}

/// Sortedness under the entry ordering law.
pub open spec fn sorted_newest_first(s: Seq<Entry>) -> bool {
    forall|i: int, j: int| 0 <= i < j < s.len() ==> entry_le(s[i], s[j])
}

/// The ordering law is total: any two entries compare one way or the other.
pub proof fn lemma_entry_le_total(a: Entry, b: Entry)
    ensures
        entry_le(a, b) || entry_le(b, a),
{
}

/// The ordering law spelled out for a sorted list: an earlier timestamped
/// entry is never older than a later one, and once an entry without a
/// timestamp appears, no timestamped entry follows.
pub proof fn lemma_sorted_newest_first(s: Seq<Entry>, i: int, j: int)
    requires
        sorted_newest_first(s),
        0 <= i < j < s.len(),
    ensures
        s[i].timestamp is Some && s[j].timestamp is Some ==> s[i].timestamp.unwrap()
            >= s[j].timestamp.unwrap(),
        s[i].timestamp is None ==> s[j].timestamp is None,
{
    assert(entry_le(s[i], s[j]));
}

/// The ordering law is transitive.
pub proof fn lemma_entry_le_trans(a: Entry, b: Entry, c: Entry)
    requires
        entry_le(a, b),
        entry_le(b, c),
    ensures
        entry_le(a, c),
{
}

fn clone_opt_string(o: &Option<String>) -> (r: Option<String>)
    ensures
        r == *o,
{
    match o {
        Some(s) => Some(s.clone()),
        None => None,
    }
}

impl Clone for Entry {
    fn clone(&self) -> (r: Self)
        ensures
            r == *self,
    {
        Entry {
            title: self.title.clone(),
            guid: self.guid.clone(),
            feed_name: clone_opt_string(&self.feed_name),
            description: clone_opt_string(&self.description),
            link: clone_opt_string(&self.link),
            color: clone_opt_string(&self.color),
            image_url: clone_opt_string(&self.image_url),
            timestamp: self.timestamp,
            extra: clone_opt_string(&self.extra),
        }
    }
}

impl Entry {
    /// A fresh entry with only a title and its stable identity set.
    pub fn new(title: &str, guid: &str) -> (r: Entry)
        requires
            guid@.len() > 0,
        ensures
            r.title@ == title@,
            r.guid@ == guid@,
            r.feed_name is None,
            r.description is None,
            r.link is None,
            r.color is None,
            r.image_url is None,
            r.timestamp is None,
            r.extra is None,
            entry_wf(r),
    {
        Entry {
            title: title.to_owned(),
            guid: guid.to_owned(),
            feed_name: None,
            description: None,
            link: None,
            color: None,
            image_url: None,
            timestamp: None,
            extra: None,
        }
    }

    pub fn feed_name(self, feed_name: &str) -> (r: Entry)
        ensures
            r == (Entry { feed_name: r.feed_name, ..self }),
            r.feed_name matches Some(v) && v@ == feed_name@,
    {
        Entry { feed_name: Some(feed_name.to_owned()), ..self }
    }

    pub fn description(self, description: &str) -> (r: Entry)
        ensures
            r == (Entry { description: r.description, ..self }),
            r.description matches Some(v) && v@ == description@,
    {
        Entry { description: Some(description.to_owned()), ..self }
    }

    pub fn link(self, link: &str) -> (r: Entry)
        ensures
            r == (Entry { link: r.link, ..self }),
            r.link matches Some(v) && v@ == link@,
    {
        Entry { link: Some(link.to_owned()), ..self }
    }

    pub fn color(self, color: &str) -> (r: Entry)
        ensures
            r == (Entry { color: r.color, ..self }),
            r.color matches Some(v) && v@ == color@,
    {
        Entry { color: Some(color.to_owned()), ..self }
    }

    pub fn image_url(self, image_url: &str) -> (r: Entry)
        ensures
            r == (Entry { image_url: r.image_url, ..self }),
            r.image_url matches Some(v) && v@ == image_url@,
    {
        Entry { image_url: Some(image_url.to_owned()), ..self }
    }

    pub fn timestamp(self, timestamp: i64) -> (r: Entry)
        ensures
            r == (Entry { timestamp: Some(timestamp), ..self }),
    {
        Entry { timestamp: Some(timestamp), ..self }
    }

    pub fn extra(self, extra: String) -> (r: Entry)
        ensures
            r == (Entry { extra: Some(extra), ..self }),
    {
        Entry { extra: Some(extra), ..self }
    }

    pub fn set_feed_name(self, feed_name: Option<String>) -> (r: Entry)
        ensures
            r == (Entry { feed_name, ..self }),
    {
        Entry { feed_name, ..self }
    }

    pub fn set_description(self, description: Option<String>) -> (r: Entry)
        ensures
            r == (Entry { description, ..self }),
    {
        Entry { description, ..self }
    }

    pub fn set_link(self, link: Option<String>) -> (r: Entry)
        ensures
            r == (Entry { link, ..self }),
    {
        Entry { link, ..self }
    }

    pub fn set_color(self, color: Option<String>) -> (r: Entry)
        ensures
            r == (Entry { color, ..self }),
    {
        Entry { color, ..self }
    }

    pub fn set_image_url(self, image_url: Option<String>) -> (r: Entry)
        ensures
            r == (Entry { image_url, ..self }),
    {
        Entry { image_url, ..self }
    }

    pub fn set_timestamp(self, timestamp: Option<i64>) -> (r: Entry)
        ensures
            r == (Entry { timestamp, ..self }),
    {
        Entry { timestamp, ..self }
    }

    pub fn set_extra(self, extra: Option<String>) -> (r: Entry)
        ensures
            r == (Entry { extra, ..self }),
    {
        Entry { extra, ..self }
    }

    /// The entry ordering law, executable form.
    pub fn le(&self, other: &Entry) -> (r: bool)
        ensures
            r == entry_le(*self, *other),
    {
        match (self.timestamp, other.timestamp) {
            (Some(x), Some(y)) => x >= y,
            (Some(_), None) => true,
            (None, Some(_)) => false,
            (None, None) => true,
        }
    }
}

/// The insertion step of the stable sort: the entry goes after every entry
/// that sorts no later than it, so a tie keeps the earlier entry first.
pub open spec fn insert_newest(s: Seq<Entry>, e: Entry) -> Seq<Entry>
    decreases s.len(),
{
    if s.len() == 0 {
        seq![e]
    } else if entry_le(s[0], e) {
        seq![s[0]] + insert_newest(s.drop_first(), e)
    } else {
        seq![e] + s
    }
}

/// The stable sort under the ordering law: entries are taken left to right
/// and each is inserted after every earlier-placed entry that sorts no
/// later, so tied entries keep their input order.
pub open spec fn stable_sorted(s: Seq<Entry>) -> Seq<Entry>
    decreases s.len(),
{
    if s.len() == 0 {
        Seq::empty()
    } else {
        insert_newest(stable_sorted(s.drop_last()), s.last())
    }
}

/// Inserting at the first position whose entry sorts strictly later is
/// exactly the stable insertion step.
proof fn lemma_insert_newest_at(s: Seq<Entry>, e: Entry, p: int)
    requires
        0 <= p <= s.len(),
        forall|j: int| 0 <= j < p ==> entry_le(s[j], e),
        p < s.len() ==> !entry_le(s[p], e),
    ensures
        insert_newest(s, e) == s.insert(p, e),
    decreases s.len(),
{
    if s.len() == 0 {
        assert(s.insert(0, e) =~= seq![e]);
    } else if p == 0 {
        assert(s.insert(0, e) =~= seq![e] + s);
    } else {
        lemma_insert_newest_at(s.drop_first(), e, p - 1);
        assert(s.insert(p, e) =~= seq![s[0]] + s.drop_first().insert(p - 1, e));
    }
}

/// Sorts entries by the ordering law. The result is exactly the stable
/// sort: sorted newest-first, a permutation of the input, and tied entries
/// keep their input order.
#[verifier::loop_isolation(false)]
pub fn sort_entries(v: &mut Vec<Entry>)
    ensures
        final(v)@ == stable_sorted(old(v)@),
        sorted_newest_first(final(v)@),
        final(v)@.to_multiset() == old(v)@.to_multiset(),
        final(v)@.len() == old(v)@.len(),
{
    broadcast use vstd::seq_lib::group_to_multiset_ensures;

    let mut out: Vec<Entry> = Vec::new();
    let n = v.len();
    for i in 0..n
        invariant
            n == v@.len(),
            sorted_newest_first(out@),
            out@.to_multiset() == v@.subrange(0, i as int).to_multiset(),
            out@ == stable_sorted(v@.subrange(0, i as int)),
    {
        let e = v[i].clone();
        let ghost out0 = out@;
        let mut p: usize = 0;
        while p < out.len() && out[p].le(&e)
            invariant
                p <= out@.len(),
                out@ == out0,
                forall|j: int| 0 <= j < p ==> entry_le(out@[j], e),
            decreases out@.len() - p,
        {
            p += 1;
        }
        out.insert(p, e);
        proof {
            let pi = p as int;
            assert(out@ == out0.insert(pi, e));
            assert forall|a: int, b: int| 0 <= a < b < out@.len() implies entry_le(
                out@[a],
                out@[b],
            ) by {
                if b < pi {
                    assert(out@[a] == out0[a]);
                    assert(out@[b] == out0[b]);
                } else if b == pi {
                    assert(out@[a] == out0[a]);
                    assert(entry_le(out0[a], e));
                } else {
                    assert(out@[b] == out0[b - 1]);
                    if a < pi {
                        assert(out@[a] == out0[a]);
                        assert(entry_le(out0[a], out0[b - 1]));
                    } else if a == pi {
                        assert(pi < out0.len());
                        assert(!entry_le(out0[pi], e));
                        assert(entry_le(e, out0[pi]));
                        assert(entry_le(out0[pi], out0[b - 1]));
                    } else {
                        assert(out@[a] == out0[a - 1]);
                        assert(entry_le(out0[a - 1], out0[b - 1]));
                    }
                }
            }
            assert(v@.subrange(0, i + 1) =~= v@.subrange(0, i as int).push(v@[i as int]));
            assert(out@.to_multiset() == v@.subrange(0, i + 1).to_multiset());
            lemma_insert_newest_at(out0, e, pi);
            assert(v@.subrange(0, i + 1).drop_last() =~= v@.subrange(0, i as int));
            assert(v@.subrange(0, i + 1).last() == v@[i as int]);
            assert(out@ == stable_sorted(v@.subrange(0, i + 1)));
        }
    }
    proof {
        assert(v@.subrange(0, n as int) =~= v@);
        out@.to_multiset_ensures();
        v@.to_multiset_ensures();
    }
    *v = out;
}

} // verus!
