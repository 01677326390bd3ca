//! The fetch round: partition feed names by provider, hand each provider its
//! slice of the configuration, then fold every provider's outcome into one
//! fresh snapshot. A provider that failed outright contributes one error feed
//! per feed name it owns, and never touches any other name; a provider that
//! answered has its entries post-processed (missing feed names and colors
//! filled from the configuration) and its feeds sorted by the ordering law.
//!
//! The waiting on providers is the caller's: this module takes each
//! provider's finished outcome as a value and computes the round's snapshot
//! from those outcomes alone.

use vstd::prelude::*;

use crate::config::ConfigFeedEntry;
use crate::entry::{sorted_newest_first, Entry};
use crate::feed::{is_error_feed, Feed, Feeds};
use crate::table::{
    lemma_tget_found,
    lemma_tget_occurs,
    lemma_tgetp_absent,
    lemma_tgetp_push,
    lemma_tgetp_agrees,
    lemma_tgetp_found,
    tget,
    tgetp,
    Table,
};
use crate::text::{str_eql, string_eq};

verus! {

/// Title of the error entry synthesized when a whole provider fails.
pub open spec fn fetch_failed_title() -> Seq<char> {
    "Failed to fetch feeds"@
}

/// An entry after post-processing: a missing feed name is filled from the
/// logical feed name, a missing color from the feed's configured color.
pub open spec fn processed_entry(e: Entry, key: String, color: Option<String>) -> Entry {
    Entry {
        feed_name: if e.feed_name is Some {
            e.feed_name
        } else {
            Some(key)
        },
        color: if e.color is Some {
            e.color
        } else {
            color
        },
        ..e
    }
}

/// Pointwise post-processing of an entry list.
pub open spec fn processed_entries(es: Seq<Entry>, key: String, color: Option<String>) -> Seq<
    Entry,
> {
    es.map_values(|e: Entry| processed_entry(e, key, color))
}

/// What one of a feed's lists must become: post-processed when the feed name
/// is configured, untouched otherwise.
pub open spec fn target_entries(es: Seq<Entry>, c: Option<ConfigFeedEntry>, key: String) -> Seq<
    Entry,
> {
    match c {
        Some(cfg) => processed_entries(es, key, cfg.color),
        None => es,
    }
}

/// A provider's feed right after post-processing, before sorting.
pub open spec fn feed_absorbed(g: Feed, f: Feed, c: Option<ConfigFeedEntry>, key: String) -> bool {
    &&& g.status@ == target_entries(f.status@, c, key)
    &&& g.notifications@ == target_entries(f.notifications@, c, key)
    &&& g.errors@ == target_entries(f.errors@, c, key)
}

/// A provider's feed as published: status and notifications are sorted
/// permutations of the post-processed lists, errors are kept as they came.
pub open spec fn feed_round_ok(g: Feed, f: Feed, c: Option<ConfigFeedEntry>, key: String) -> bool {
    &&& sorted_newest_first(g.status@)
    &&& g.status@.to_multiset() == target_entries(f.status@, c, key).to_multiset()
    &&& sorted_newest_first(g.notifications@)
    &&& g.notifications@.to_multiset() == target_entries(f.notifications@, c, key).to_multiset()
    &&& g.errors@ == target_entries(f.errors@, c, key)
}

/// The provider named `p` owns the feed name `name`.
pub open spec fn owns(configs: Seq<(String, ConfigFeedEntry)>, p: Seq<char>, name: Seq<char>) -> bool {
    tget(configs, name) matches Some(c) && c.provider@ == p
}

/// Where a feed name's published content comes from.
pub enum RoundSource {
    /// A provider answered with this feed under this key, post-processed
    /// against this configuration entry.
    Fetched { key: String, feed: Feed, cfg: Option<ConfigFeedEntry> },
    /// The name's own provider failed outright with this message.
    Failed { msg: String },
}

/// Which outcome decides the feed name `name`: the latest result that either
/// answered for the name, or failed while owning it.
pub open spec fn round_source(
    configs: Seq<(String, ConfigFeedEntry)>,
    results: Seq<(String, Result<Table<Feed>, String>)>,
    name: Seq<char>,
) -> Option<RoundSource>
    decreases results.len(),
{
    if results.len() == 0 {
        None
    } else {
        let last = results.last();
        match last.1 {
            Ok(fm) => match tgetp(fm@, name) {
                Some(p) => Some(
                    RoundSource::Fetched { key: p.0, feed: p.1, cfg: tget(configs, name) },
                ),
                None => round_source(configs, results.drop_last(), name),
            },
            Err(msg) => if owns(configs, last.0@, name) {
                Some(RoundSource::Failed { msg })
            } else {
                round_source(configs, results.drop_last(), name)
            },
        }
    }
}

/// The snapshot a round must publish, name by name, before sorting.
pub open spec fn round_pre(
    configs: Seq<(String, ConfigFeedEntry)>,
    results: Seq<(String, Result<Table<Feed>, String>)>,
    now: i64,
    out: Table<Feed>,
) -> bool {
    forall|name: Seq<char>|
        match #[trigger] round_source(configs, results, name) {
            None => tget(out@, name) is None,
            Some(RoundSource::Fetched { key, feed, cfg }) => key@ == name && (tget(out@, name)
                matches Some(g) && feed_absorbed(g, feed, cfg, key)),
            Some(RoundSource::Failed { msg }) => tget(out@, name) matches Some(g)
                && is_error_feed(g, fetch_failed_title(), msg@, now),
        }
}

/// The snapshot a round must publish, name by name.
pub open spec fn round_ok(
    configs: Seq<(String, ConfigFeedEntry)>,
    results: Seq<(String, Result<Table<Feed>, String>)>,
    now: i64,
    out: Table<Feed>,
) -> bool {
    forall|name: Seq<char>|
        match #[trigger] round_source(configs, results, name) {
            None => tget(out@, name) is None,
            Some(RoundSource::Fetched { key, feed, cfg }) => key@ == name && (tget(out@, name)
                matches Some(g) && feed_round_ok(g, feed, cfg, key)),
            Some(RoundSource::Failed { msg }) => tget(out@, name) matches Some(g)
                && is_error_feed(g, fetch_failed_title(), msg@, now),
        }
}

fn clone_opt(o: &Option<String>) -> (r: Option<String>)
    ensures
        r == *o,
{
    match o {
        Some(s) => Some(s.clone()),
        None => None,
    }
}

/// Fills missing feed names and colors in one entry list.
#[verifier::loop_isolation(false)]
fn fill_entries(v: &mut Vec<Entry>, key: &String, color: &Option<String>)
    ensures
        final(v)@ == processed_entries(old(v)@, *key, *color),
{
    let ghost v0 = v@;
    let n = v.len();
    for i in 0..n
        invariant
            n == v@.len(),
            v@.len() == v0.len(),
            forall|j: int| 0 <= j < i ==> v@[j] == processed_entry(v0[j], *key, *color),
            forall|j: int| i <= j < n ==> v@[j] == v0[j],
    {
        let e = &mut v[i];
        if e.feed_name.is_none() {
            e.feed_name = Some(key.clone());
        }
        if e.color.is_none() {
            e.color = clone_opt(color);
        }
    }
    proof {
        assert(final(v)@ =~= processed_entries(v0, *key, *color));
    }
}

/// Post-processes a whole feed against its configuration entry.
fn fill_feed(f: &mut Feed, key: &String, color: &Option<String>)
    ensures
        final(f).status@ == processed_entries(old(f).status@, *key, *color),
        final(f).notifications@ == processed_entries(old(f).notifications@, *key, *color),
        final(f).errors@ == processed_entries(old(f).errors@, *key, *color),
{
    fill_entries(&mut f.status, key, color);
    fill_entries(&mut f.notifications, key, color);
    fill_entries(&mut f.errors, key, color);
}

/// Folds one provider's answered map into the accumulator: every name the
/// accumulator already binds is left alone; every other name of the map is
/// post-processed against its configuration entry and added.
#[verifier::loop_isolation(false)]
fn absorb_result(acc: &mut Table<Feed>, fm: Table<Feed>, configs: &Table<ConfigFeedEntry>)
    requires
        old(acc).wf(),
        fm.wf(),
    ensures
        final(acc).wf(),
        forall|name: Seq<char>|
            match #[trigger] tget(old(acc)@, name) {
                Some(g) => tget(final(acc)@, name) == Some(g),
                None => match tgetp(fm@, name) {
                    Some(p) => p.0@ == name && (tget(final(acc)@, name) matches Some(g)
                        && feed_absorbed(g, p.1, tget(configs@, name), p.0)),
                    None => tget(final(acc)@, name) is None,
                },
            },
{
    let ghost acc0 = old(acc)@;
    let ghost fm0 = fm@;
    let mut m = fm;
    while m.len() != 0
        invariant
            m@ == fm0.subrange(0, m@.len() as int),
            m@.len() <= fm0.len(),
            acc.wf(),
            forall|name: Seq<char>|
                match #[trigger] tget(acc0, name) {
                    Some(g) => tget(acc@, name) == Some(g),
                    None => match tgetp(fm0, name) {
                        Some(p) => if tgetp(m@, name) is Some {
                            tget(acc@, name) is None
                        } else {
                            p.0@ == name && (tget(acc@, name) matches Some(g) && feed_absorbed(
                                g,
                                p.1,
                                tget(configs@, name),
                                p.0,
                            ))
                        },
                        None => tget(acc@, name) is None,
                    },
                },
        decreases m@.len(),
    {
        let ghost mpre = m@;
        let p = m.pop().unwrap();
        let ghost j = m@.len() as int;
        proof {
            assert(mpre == fm0.subrange(0, j + 1));
            assert(m@ =~= fm0.subrange(0, j));
            assert(p == fm0[j]);
        }
        let (key, mut feed) = p;
        let ghost acc_pre = acc@;
        if !acc.contains_key(key.as_str()) {
            match configs.get(key.as_str()) {
                Some(c) => {
                    let color = clone_opt(&c.color);
                    fill_feed(&mut feed, &key, &color);
                    acc.insert(key, feed);
                },
                None => {
                    acc.insert(key, feed);
                },
            }
        }
        proof {
            let kj = fm0[j].0@;
            assert forall|j2: int| 0 <= j2 < j implies fm0[j2].0@ != kj by {}
            lemma_tgetp_found(fm0, kj, j);
            assert(mpre =~= m@.push(fm0[j]));
            assert forall|name: Seq<char>|
                match #[trigger] tget(acc0, name) {
                    Some(g) => tget(acc@, name) == Some(g),
                    None => match tgetp(fm0, name) {
                        Some(p2) => if tgetp(m@, name) is Some {
                            tget(acc@, name) is None
                        } else {
                            p2.0@ == name && (tget(acc@, name) matches Some(g) && feed_absorbed(
                                g,
                                p2.1,
                                tget(configs@, name),
                                p2.0,
                            ))
                        },
                        None => tget(acc@, name) is None,
                    },
                } by {
                lemma_tgetp_agrees(fm0, name);
                lemma_tgetp_push(m@, fm0[j], name);
                if name == kj {
                    assert forall|j2: int| 0 <= j2 < m@.len() implies m@[j2].0@ != name by {
                        assert(m@[j2] == fm0[j2]);
                    }
                    lemma_tgetp_absent(m@, name);
                }
            }
        }
    }
    proof {
        assert(m@ =~= Seq::<(String, Feed)>::empty());
    }
}

/// Folds one provider's outright failure into the accumulator: every feed
/// name the provider owns and the accumulator does not bind yet gets a feed
/// holding exactly one error entry; no other name is touched.
#[verifier::loop_isolation(false)]
fn absorb_failure(
    acc: &mut Table<Feed>,
    configs: &Table<ConfigFeedEntry>,
    pname: &String,
    msg: &String,
    now: i64,
)
    requires
        old(acc).wf(),
        configs.wf(),
    ensures
        final(acc).wf(),
        forall|name: Seq<char>|
            match #[trigger] tget(old(acc)@, name) {
                Some(g) => tget(final(acc)@, name) == Some(g),
                None => if owns(configs@, pname@, name) {
                    tget(final(acc)@, name) matches Some(g) && is_error_feed(
                        g,
                        fetch_failed_title(),
                        msg@,
                        now,
                    )
                } else {
                    tget(final(acc)@, name) is None
                },
            },
{
    let ghost acc0 = old(acc)@;
    let ghost cs = configs@;
    let n = configs.len();
    for i in 0..n
        invariant
            n == cs.len(),
            acc.wf(),
            forall|name: Seq<char>|
                match #[trigger] tget(acc0, name) {
                    Some(g) => tget(acc@, name) == Some(g),
                    None => if exists|j: int|
                        0 <= j < i && (#[trigger] cs[j]).0@ == name && cs[j].1.provider@
                            == pname@ {
                        tget(acc@, name) matches Some(g) && is_error_feed(
                            g,
                            fetch_failed_title(),
                            msg@,
                            now,
                        )
                    } else {
                        tget(acc@, name) is None
                    },
                },
    {
        let owned = string_eq(&configs.value_at(i).provider, pname);
        let ghost acc_pre = acc@;
        if owned {
            let key = configs.key_at(i).clone();
            if !acc.contains_key(key.as_str()) {
                let feed = Feed::from_err("Failed to fetch feeds", msg.as_str(), now);
                acc.insert(key, feed);
            }
        }
        proof {
            let ki = cs[i as int].0@;
            assert forall|name: Seq<char>|
                match #[trigger] tget(acc0, name) {
                    Some(g) => tget(acc@, name) == Some(g),
                    None => if exists|j: int|
                        0 <= j < i + 1 && (#[trigger] cs[j]).0@ == name && cs[j].1.provider@
                            == pname@ {
                        tget(acc@, name) matches Some(g) && is_error_feed(
                            g,
                            fetch_failed_title(),
                            msg@,
                            now,
                        )
                    } else {
                        tget(acc@, name) is None
                    },
                } by {
                if tget(acc0, name) is None {
                    if name == ki && cs[i as int].1.provider@ == pname@ {
                        assert(cs[i as int].0@ == name && cs[i as int].1.provider@ == pname@);
                    } else {
                        assert(forall|j: int|
                            0 <= j < i + 1 && (#[trigger] cs[j]).0@ == name && cs[j].1.provider@
                                == pname@ ==> j < i);
                    }
                }
            }
        }
    }
    proof {
        assert forall|name: Seq<char>|
            (exists|j: int|
                0 <= j < n && (#[trigger] cs[j]).0@ == name && cs[j].1.provider@ == pname@) == owns(
            cs,
            pname@,
            name,
        ) by {
            if exists|j: int|
                0 <= j < n && (#[trigger] cs[j]).0@ == name && cs[j].1.provider@ == pname@ {
                let j = choose|j: int|
                    0 <= j < n && (#[trigger] cs[j]).0@ == name && cs[j].1.provider@ == pname@;
                assert forall|j2: int| 0 <= j2 < j implies cs[j2].0@ != name by {}
                lemma_tget_found(cs, name, j);
            } else {
                if owns(cs, pname@, name) {
                    lemma_tget_occurs(cs, name);
                    let j = choose|j: int|
                        0 <= j < cs.len() && (#[trigger] cs[j]).0@ == name && cs[j].1 == tget(
                            cs,
                            name,
                        ).unwrap();
                    assert(cs[j].1.provider@ == pname@);
                }
            }
        }
    }
}

/// A result put in front of others decides a name only where none of the
/// later results does: later rounds' outcomes take precedence.
proof fn lemma_round_source_prepend(
    configs: Seq<(String, ConfigFeedEntry)>,
    x: (String, Result<Table<Feed>, String>),
    s: Seq<(String, Result<Table<Feed>, String>)>,
    name: Seq<char>,
)
    ensures
        round_source(configs, seq![x] + s, name) == if round_source(configs, s, name) is Some {
            round_source(configs, s, name)
        } else {
            round_source(configs, seq![x], name)
        },
    decreases s.len(),
{
    let t = seq![x] + s;
    if s.len() == 0 {
        assert(t =~= seq![x]);
    } else {
        assert(t.last() == s.last());
        assert(t.drop_last() =~= seq![x] + s.drop_last());
        lemma_round_source_prepend(configs, x, s.drop_last(), name);
    }
}

/// A feed whose status and notifications were sorted in place still matches
/// its round source, now in published form.
proof fn lemma_sorted_feed_ok(
    configs: Seq<(String, ConfigFeedEntry)>,
    results: Seq<(String, Result<Table<Feed>, String>)>,
    now: i64,
    name: Seq<char>,
    g0: Feed,
    g: Feed,
)
    requires
        sorted_newest_first(g.status@),
        g.status@.to_multiset() == g0.status@.to_multiset(),
        sorted_newest_first(g.notifications@),
        g.notifications@.to_multiset() == g0.notifications@.to_multiset(),
        g.errors@ == g0.errors@,
        match round_source(configs, results, name) {
            None => false,
            Some(RoundSource::Fetched { key, feed, cfg }) => key@ == name && feed_absorbed(
                g0,
                feed,
                cfg,
                key,
            ),
            Some(RoundSource::Failed { msg }) => is_error_feed(
                g0,
                fetch_failed_title(),
                msg@,
                now,
            ),
        },
    ensures
        match round_source(configs, results, name) {
            None => false,
            Some(RoundSource::Fetched { key, feed, cfg }) => key@ == name && feed_round_ok(
                g,
                feed,
                cfg,
                key,
            ),
            Some(RoundSource::Failed { msg }) => is_error_feed(g, fetch_failed_title(), msg@, now),
        },
{
    broadcast use vstd::seq_lib::group_to_multiset_ensures;

    match round_source(configs, results, name) {
        None => {},
        Some(RoundSource::Fetched { key, feed, cfg }) => {},
        Some(RoundSource::Failed { msg }) => {
            g.status@.to_multiset_ensures();
            g0.status@.to_multiset_ensures();
            g.notifications@.to_multiset_ensures();
            g0.notifications@.to_multiset_ensures();
            assert(g.status@.len() == 0);
            assert(g.notifications@.len() == 0);
        },
    }
}

/// One fetch round's merge: folds every provider's outcome into one fresh
/// snapshot stamped `now`. Later elements of `results` take precedence on a
/// clashing name; under the usual disjoint partition no clash occurs. A
/// failed provider yields one error feed per feed name it owns and touches
/// no other name; an answering provider's feeds are post-processed against
/// the configuration and sorted by the entry ordering law.
#[verifier::loop_isolation(false)]
pub fn fetch_feeds(
    configs: &Table<ConfigFeedEntry>,
    results: Vec<(String, Result<Table<Feed>, String>)>,
    now: i64,
) -> (r: Feeds)
    requires
        configs.wf(),
        forall|i: int|
            0 <= i < results@.len() ==> ((#[trigger] results@[i]).1 matches Ok(fm) ==> fm.wf()),
    ensures
        r.created == now,
        r.feeds.wf(),
        round_ok(configs@, results@, now, r.feeds),
{
    let ghost all = results@;
    let mut rs = results;
    let mut acc: Table<Feed> = Table::new();
    proof {
        assert(all.subrange(0, all.len() as int) =~= all);
        assert(all.skip(all.len() as int) =~= Seq::<
            (String, Result<Table<Feed>, String>),
        >::empty());
    }
    while rs.len() != 0
        invariant
            rs@ == all.subrange(0, rs@.len() as int),
            rs@.len() <= all.len(),
            acc.wf(),
            round_pre(configs@, all.skip(rs@.len() as int), now, acc),
        decreases rs@.len(),
    {
        let ghost mpre = rs@.len() as int;
        let ghost suffix_pre = all.skip(mpre);
        let popped = rs.pop().unwrap();
        let ghost m = rs@.len() as int;
        proof {
            assert(rs@ =~= all.subrange(0, m));
            assert(popped == all[m]);
        }
        let (pname, outcome) = popped;
        let ghost acc_pre = acc;
        match outcome {
            Ok(fm) => {
                absorb_result(&mut acc, fm, configs);
            },
            Err(msg) => {
                absorb_failure(&mut acc, configs, &pname, &msg, now);
            },
        }
        proof {
            let suffix = all.skip(m);
            assert(suffix =~= seq![all[m]] + suffix_pre);
            assert(seq![all[m]].drop_last() =~= Seq::<
                (String, Result<Table<Feed>, String>),
            >::empty());
            assert forall|name: Seq<char>|
                match #[trigger] round_source(configs@, suffix, name) {
                    None => tget(acc@, name) is None,
                    Some(RoundSource::Fetched { key, feed, cfg }) => key@ == name && (tget(
                        acc@,
                        name,
                    ) matches Some(g) && feed_absorbed(g, feed, cfg, key)),
                    Some(RoundSource::Failed { msg }) => tget(acc@, name) matches Some(g)
                        && is_error_feed(g, fetch_failed_title(), msg@, now),
                } by {
                reveal_with_fuel(round_source, 3);
                lemma_round_source_prepend(configs@, all[m], suffix_pre, name);
                let pre_src = round_source(configs@, suffix_pre, name);
                let single = seq![all[m]];
                assert(round_pre(configs@, suffix_pre, now, acc_pre));
                assert(single.last() == all[m]);
                assert(single.drop_last() =~= Seq::<
                    (String, Result<Table<Feed>, String>),
                >::empty());
                assert(round_source(configs@, suffix, name) == if pre_src is Some {
                    pre_src
                } else {
                    round_source(configs@, single, name)
                });
                match tget(acc_pre@, name) {
                    Some(g) => {
                        assert(tget(acc@, name) == Some(g));
                        assert(pre_src is Some);
                    },
                    None => {
                        assert(pre_src is None);
                        match all[m].1 {
                            Ok(fm) => {
                                lemma_tgetp_agrees(fm@, name);
                                assert(round_source(configs@, single, name) == match tgetp(
                                    fm@,
                                    name,
                                ) {
                                    Some(p) => Some(
                                        RoundSource::Fetched {
                                            key: p.0,
                                            feed: p.1,
                                            cfg: tget(configs@, name),
                                        },
                                    ),
                                    None => None,
                                });
                            },
                            Err(_) => {},
                        }
                    },
                }
            }
        }
    }
    proof {
        assert(rs@.len() == 0);
        assert(all.skip(0) =~= all);
    }
    let ghost acc1 = acc;
    let n = acc.len();
    for i in 0..n
        invariant
            n == acc@.len(),
            acc@.len() == acc1@.len(),
            forall|j: int| 0 <= j < n ==> (#[trigger] acc@[j]).0 == acc1@[j].0,
            forall|j: int|
                0 <= j < i ==> {
                    let g = (#[trigger] acc@[j]).1;
                    let g0 = acc1@[j].1;
                    sorted_newest_first(g.status@) && g.status@.to_multiset()
                        == g0.status@.to_multiset() && sorted_newest_first(g.notifications@)
                        && g.notifications@.to_multiset() == g0.notifications@.to_multiset()
                        && g.errors@ == g0.errors@
                },
            forall|j: int| i <= j < n ==> (#[trigger] acc@[j]).1 == acc1@[j].1,
    {
        let f = acc.value_at_mut(i);
        crate::entry::sort_entries(&mut f.status);
        crate::entry::sort_entries(&mut f.notifications);
    }
    proof {
        assert forall|a: int, b: int| 0 <= a < b < acc@.len() implies acc@[a].0@ != acc@[b].0@ by {
            assert(acc@[a].0 == acc1@[a].0);
            assert(acc@[b].0 == acc1@[b].0);
        }
        assert forall|name: Seq<char>|
            match #[trigger] round_source(configs@, all, name) {
                None => tget(acc@, name) is None,
                Some(RoundSource::Fetched { key, feed, cfg }) => key@ == name && (tget(acc@, name)
                    matches Some(g) && feed_round_ok(g, feed, cfg, key)),
                Some(RoundSource::Failed { msg }) => tget(acc@, name) matches Some(g)
                    && is_error_feed(g, fetch_failed_title(), msg@, now),
            } by {
            // Naming the source instantiates the pre-sort round relation.
            let src = round_source(configs@, all, name);
            match tget(acc1@, name) {
                Some(g0) => {
                    lemma_tget_occurs(acc1@, name);
                    let j = choose|j: int|
                        0 <= j < acc1@.len() && (#[trigger] acc1@[j]).0@ == name && acc1@[j].1
                            == tget(acc1@, name).unwrap();
                    assert forall|j2: int| 0 <= j2 < j implies acc@[j2].0@ != name by {
                        assert(acc1@[j2].0@ != name);
                    }
                    lemma_tget_found(acc@, name, j);
                    lemma_sorted_feed_ok(configs@, all, now, name, g0, acc@[j].1);
                },
                None => {
                    assert forall|j2: int| 0 <= j2 < acc@.len() implies acc@[j2].0@ != name by {
                        lemma_tget_occurs(acc1@, name);
                        if acc1@[j2].0@ == name {
                            assert(tget(acc1@, name) is Some);
                        }
                    }
                    crate::table::lemma_tget_absent(acc@, name);
                },
            }
        }
    }
    Feeds { created: now, feeds: acc }
}

/// The slice of the configuration one provider receives: exactly the feed
/// names it owns, with their configuration entries.
#[verifier::loop_isolation(false)]
pub fn partition_for_provider(configs: &Table<ConfigFeedEntry>, provider: &str) -> (r: Table<
    ConfigFeedEntry,
>)
    requires
        configs.wf(),
    ensures
        r.wf(),
        forall|name: Seq<char>|
            #[trigger] tget(r@, name) == if owns(configs@, provider@, name) {
                tget(configs@, name)
            } else {
                None::<ConfigFeedEntry>
            },
{
    let ghost cs = configs@;
    let mut r: Table<ConfigFeedEntry> = Table::new();
    let n = configs.len();
    for i in 0..n
        invariant
            n == cs.len(),
            r.wf(),
            forall|name: Seq<char>|
                #[trigger] tget(r@, name) == if exists|j: int|
                    0 <= j < i && (#[trigger] cs[j]).0@ == name && cs[j].1.provider@
                        == provider@ {
                    tget(cs, name)
                } else {
                    None::<ConfigFeedEntry>
                },
    {
        let ce = configs.value_at(i);
        if str_eql(ce.provider.as_str(), provider) {
            let key = configs.key_at(i).clone();
            let val = ce.clone();
            proof {
                assert forall|j2: int| 0 <= j2 < i implies cs[j2].0@ != cs[i as int].0@ by {}
                lemma_tget_found(cs, cs[i as int].0@, i as int);
            }
            r.insert(key, val);
        }
        proof {
            let ki = cs[i as int].0@;
            assert forall|name: Seq<char>|
                #[trigger] tget(r@, name) == (if exists|j: int|
                    0 <= j < i + 1 && (#[trigger] cs[j]).0@ == name && cs[j].1.provider@
                        == provider@ {
                    tget(cs, name)
                } else {
                    None::<ConfigFeedEntry>
                }) by {
                if name == ki && cs[i as int].1.provider@ == provider@ {
                    assert(cs[i as int].0@ == name && cs[i as int].1.provider@ == provider@);
                } else {
                    assert(forall|j: int|
                        0 <= j < i + 1 && (#[trigger] cs[j]).0@ == name && cs[j].1.provider@
                            == provider@ ==> j < i);
                }
            }
        }
    }
    proof {
        assert forall|name: Seq<char>|
            (exists|j: int|
                0 <= j < n && (#[trigger] cs[j]).0@ == name && cs[j].1.provider@ == provider@)
                == owns(cs, provider@, name) by {
            if exists|j: int|
                0 <= j < n && (#[trigger] cs[j]).0@ == name && cs[j].1.provider@ == provider@ {
                let j = choose|j: int|
                    0 <= j < n && (#[trigger] cs[j]).0@ == name && cs[j].1.provider@ == provider@;
                assert forall|j2: int| 0 <= j2 < j implies cs[j2].0@ != name by {}
                lemma_tget_found(cs, name, j);
            } else {
                if owns(cs, provider@, name) {
                    lemma_tget_occurs(cs, name);
                    let j = choose|j: int|
                        0 <= j < cs.len() && (#[trigger] cs[j]).0@ == name && cs[j].1 == tget(
                            cs,
                            name,
                        ).unwrap();
                    assert(cs[j].1.provider@ == provider@);
                }
            }
        }
    }
    r
}

/// No provider name appears twice among the round's outcomes.
pub open spec fn distinct_providers(results: Seq<(String, Result<Table<Feed>, String>)>) -> bool {
    forall|i: int, j: int| 0 <= i < j < results.len() ==> results[i].0@ != results[j].0@
}

/// A provider's answer covers exactly the feed names it owns.
pub open spec fn result_covers(
    configs: Seq<(String, ConfigFeedEntry)>,
    p: Seq<char>,
    fm: Table<Feed>,
) -> bool {
    forall|name: Seq<char>| (#[trigger] tget(fm@, name) is Some) == owns(configs, p, name)
}

/// The round's outcomes follow the partition discipline: one outcome per
/// provider, and every answered map covers exactly the names its provider
/// owns.
pub open spec fn partitioned(
    configs: Seq<(String, ConfigFeedEntry)>,
    results: Seq<(String, Result<Table<Feed>, String>)>,
) -> bool {
    &&& distinct_providers(results)
    &&& forall|i: int|
        0 <= i < results.len() ==> match (#[trigger] results[i]).1 {
            Ok(fm) => result_covers(configs, results[i].0@, fm),
            Err(_) => true,
        }
}

/// Under the partition discipline, a feed name is decided by its own
/// provider's outcome and by nothing else.
pub proof fn lemma_partitioned_source(
    configs: Seq<(String, ConfigFeedEntry)>,
    results: Seq<(String, Result<Table<Feed>, String>)>,
    i: int,
    name: Seq<char>,
)
    requires
        partitioned(configs, results),
        0 <= i < results.len(),
        owns(configs, results[i].0@, name),
    ensures
        match results[i].1 {
            Ok(fm) => round_source(configs, results, name) == Some(
                RoundSource::Fetched {
                    key: tgetp(fm@, name).unwrap().0,
                    feed: tgetp(fm@, name).unwrap().1,
                    cfg: tget(configs, name),
                },
            ) && tgetp(fm@, name) is Some,
            Err(msg) => round_source(configs, results, name) == Some(RoundSource::Failed { msg }),
        },
    decreases results.len(),
{
    let l = results.len() - 1;
    let last = results.last();
    if i == l {
        match last.1 {
            Ok(fm) => {
                assert(result_covers(configs, last.0@, fm));
                lemma_tgetp_agrees(fm@, name);
            },
            Err(_) => {},
        }
    } else {
        assert(results[l].0@ != results[i].0@);
        assert(!owns(configs, results[l].0@, name));
        match last.1 {
            Ok(fm) => {
                assert(result_covers(configs, last.0@, fm));
                assert(tget(fm@, name) is None);
                lemma_tgetp_agrees(fm@, name);
            },
            Err(_) => {},
        }
        let prefix = results.drop_last();
        assert(partitioned(configs, prefix)) by {
            assert forall|a: int|
                0 <= a < prefix.len() implies match (#[trigger] prefix[a]).1 {
                Ok(fm) => result_covers(configs, prefix[a].0@, fm),
                Err(_) => true,
            } by {
                assert(prefix[a] == results[a]);
            }
        }
        assert(prefix[i] == results[i]);
        lemma_partitioned_source(configs, prefix, i, name);
    }
}

/// Under the partition discipline, a feed name owned by no listed provider
/// is decided by nothing.
pub proof fn lemma_unowned_undecided(
    configs: Seq<(String, ConfigFeedEntry)>,
    results: Seq<(String, Result<Table<Feed>, String>)>,
    name: Seq<char>,
)
    requires
        partitioned(configs, results),
        forall|i: int| 0 <= i < results.len() ==> !owns(configs, (#[trigger] results[i]).0@, name),
    ensures
        round_source(configs, results, name) is None,
    decreases results.len(),
{
    if results.len() > 0 {
        let l = results.len() - 1;
        match results[l].1 {
            Ok(fm) => {
                assert(result_covers(configs, results[l].0@, fm));
                assert(tget(fm@, name) is None);
                lemma_tgetp_agrees(fm@, name);
            },
            Err(_) => {},
        }
        let prefix = results.drop_last();
        assert(partitioned(configs, prefix)) by {
            assert forall|a: int|
                0 <= a < prefix.len() implies match (#[trigger] prefix[a]).1 {
                Ok(fm) => result_covers(configs, prefix[a].0@, fm),
                Err(_) => true,
            } by {
                assert(prefix[a] == results[a]);
            }
        }
        assert forall|a: int|
            0 <= a < prefix.len() implies !owns(configs, (#[trigger] prefix[a]).0@, name) by {
            assert(prefix[a] == results[a]);
        }
        lemma_unowned_undecided(configs, prefix, name);
    }
}

/// Fault isolation: when one provider's fetch fails entirely, every feed
/// name it owns is published as exactly one error entry with no successful
/// content, and no feed name owned by another provider is affected by the
/// failure: each keeps exactly its own provider's post-processed result.
pub proof fn lemma_fault_isolation(
    configs: Seq<(String, ConfigFeedEntry)>,
    results: Seq<(String, Result<Table<Feed>, String>)>,
    now: i64,
    out: Table<Feed>,
    i: int,
    name: Seq<char>,
)
    requires
        round_ok(configs, results, now, out),
        partitioned(configs, results),
        0 <= i < results.len(),
        owns(configs, results[i].0@, name),
    ensures
        results[i].1 matches Err(msg) ==> (tget(out@, name) matches Some(g) && is_error_feed(
            g,
            fetch_failed_title(),
            msg@,
            now,
        )),
        results[i].1 matches Ok(fm) ==> (tgetp(fm@, name) matches Some(p) && (tget(out@, name)
            matches Some(g) && feed_round_ok(g, p.1, tget(configs, name), p.0))),
{
    lemma_partitioned_source(configs, results, i, name);
    // Naming the source instantiates the round relation at this name.
    let src = round_source(configs, results, name);
}

/// Merge disjointness: under the partition discipline the published
/// snapshot's names are exactly the union of the names the listed providers
/// own, and each name's feed comes from its own provider alone.
pub proof fn lemma_merge_disjointness(
    configs: Seq<(String, ConfigFeedEntry)>,
    results: Seq<(String, Result<Table<Feed>, String>)>,
    now: i64,
    out: Table<Feed>,
    name: Seq<char>,
)
    requires
        round_ok(configs, results, now, out),
        partitioned(configs, results),
    ensures
        (tget(out@, name) is Some) == exists|i: int|
            0 <= i < results.len() && owns(configs, (#[trigger] results[i]).0@, name),
{
    if exists|i: int| 0 <= i < results.len() && owns(configs, (#[trigger] results[i]).0@, name) {
        let i = choose|i: int|
            0 <= i < results.len() && owns(configs, (#[trigger] results[i]).0@, name);
        // Naming the source instantiates the round relation at this name.
        lemma_partitioned_source(configs, results, i, name);
        let src = round_source(configs, results, name);
    } else {
        lemma_unowned_undecided(configs, results, name);
        let src = round_source(configs, results, name);
    }
}

} // verus!
