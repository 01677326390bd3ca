//! The update diff engine: remembers the identities seen in the previous
//! snapshot, computes which entries of a fresh snapshot are genuinely new,
//! and fans that delta out to subscriber channels, dropping a subscriber
//! whose channel no longer accepts messages.
//!
//! The identity memory is last-snapshot-only: after every round it is
//! replaced with exactly the identities of that round's snapshot, quiet
//! rounds included, so an entry that disappears and later returns is
//! reported as new again.

use std::sync::mpsc::Sender;

use vstd::prelude::*;

use crate::entry::Entry;
use crate::feed::{Feed, Feeds};
use crate::table::Table;
use crate::text::string_eq;

verus! {

/// Declares std::sync::mpsc::Sender so subscriber channels can be held and
/// passed around; the value is opaque and only `send_update` touches it.
#[verifier::external_type_specification]
#[verifier::external_body]
#[verifier::reject_recursive_types(T)]
pub struct ExSender<T>(Sender<T>);

/// The identities a sequence of guid strings holds.
pub open spec fn id_set(ids: Seq<String>) -> Set<Seq<char>> {
    Set::new(|g: Seq<char>| exists|i: int| 0 <= i < ids.len() && ids[i]@ == g)
}

/// The guids of an entry list, in order.
pub open spec fn guid_seq(es: Seq<Entry>) -> Seq<Seq<char>> {
    es.map_values(|e: Entry| e.guid@)
}

/// Every identity one feed holds, over all three of its lists.
pub open spec fn feed_guids(f: Feed) -> Set<Seq<char>> {
    guid_seq(f.status@).to_set().union(guid_seq(f.errors@).to_set()).union(
        guid_seq(f.notifications@).to_set(),
    )
}

/// Every identity a snapshot holds.
pub open spec fn snapshot_ids(fs: Seq<(String, Feed)>) -> Set<Seq<char>>
    decreases fs.len(),
{
    if fs.len() == 0 {
        Set::empty()
    } else {
        feed_guids(fs[0].1).union(snapshot_ids(fs.drop_first()))
    }
}

/// All status entries across all feeds, in table order.
pub open spec fn concat_status(fs: Seq<(String, Feed)>) -> Seq<Entry>
    decreases fs.len(),
{
    if fs.len() == 0 {
        Seq::empty()
    } else {
        fs[0].1.status@ + concat_status(fs.drop_first())
    }
}

/// All notification entries across all feeds, in table order.
pub open spec fn concat_notifications(fs: Seq<(String, Feed)>) -> Seq<Entry>
    decreases fs.len(),
{
    if fs.len() == 0 {
        Seq::empty()
    } else {
        fs[0].1.notifications@ + concat_notifications(fs.drop_first())
    }
}

/// The entries whose identity the given set does not hold.
pub open spec fn fresh_entries(es: Seq<Entry>, known: Set<Seq<char>>) -> Seq<Entry> {
    es.filter(|e: Entry| !known.contains(e.guid@))
}

/// Keeps the elements whose flag is set, in order.
pub open spec fn mask<T>(s: Seq<T>, keep: Seq<bool>) -> Seq<T>
    recommends
        keep.len() == s.len(),
    decreases s.len(),
{
    if s.len() == 0 {
        Seq::empty()
    } else {
        let rest = mask(s.drop_last(), keep.drop_last());
        if keep.last() {
            rest.push(s.last())
        } else {
            rest
        }
    }
}

/// One delta message: the entries new since the previous round, split the
/// same way the snapshot is.
pub struct UpdateResponse {
    pub status: Vec<Entry>,
    pub notifications: Vec<Entry>,
}

fn clone_entries(v: &Vec<Entry>) -> (r: Vec<Entry>)
    ensures
        r@ == v@,
{
    let mut r: Vec<Entry> = Vec::new();
    let n = v.len();
    for i in 0..n
        invariant
            n == v@.len(),
            r@ =~= v@.subrange(0, i as int),
    {
        r.push(v[i].clone());
    }
    proof {
        assert(v@.subrange(0, n as int) =~= v@);
    }
    r
}

impl Clone for UpdateResponse {
    fn clone(&self) -> (r: Self)
        ensures
            r.status@ == self.status@,
            r.notifications@ == self.notifications@,
    {
        UpdateResponse {
            status: clone_entries(&self.status),
            notifications: clone_entries(&self.notifications),
        }
    }
}

/// Whether a guid list already holds an identity.
#[verifier::loop_isolation(false)]
fn contains_id(ids: &Vec<String>, g: &String) -> (r: bool)
    ensures
        r == id_set(ids@).contains(g@),
{
    let n = ids.len();
    for i in 0..n
        invariant
            n == ids@.len(),
            forall|j: int| 0 <= j < i ==> ids@[j]@ != g@,
    {
        if string_eq(&ids[i], g) {
            return true;
        }
    }
    false
}

/// Relies on std::sync::mpsc::Sender::send, which queues the message for the
/// receiver and reports failure exactly when the receiving end has been
/// dropped. Whether a given subscriber is still connected depends on that
/// subscriber alone, so nothing is promised of the result.
#[verifier::external_body]
fn send_update(tx: &Sender<UpdateResponse>, msg: UpdateResponse) -> (ok: bool) {
    match tx.send(msg) {
        Ok(()) => true,
        Err(_) => false,
    }
}

/// The diff engine's state: the identities of the previous snapshot, and the
/// live subscriber channels.
pub struct Updater {
    known_ids: Vec<String>,
    subscribers: Vec<Sender<UpdateResponse>>,
}

impl Updater {
    /// The identities remembered from the previous round.
    pub closed spec fn spec_known(self) -> Set<Seq<char>> {
        id_set(self.known_ids@)
    }

    /// The subscriber channels, in subscription order.
    pub closed spec fn spec_subscribers(self) -> Seq<Sender<UpdateResponse>> {
        self.subscribers@
    }

    /// A fresh engine: nothing seen, nobody subscribed.
    pub fn new() -> (r: Updater)
        ensures
            r.spec_known() =~= Set::<Seq<char>>::empty(),
            r.spec_subscribers() == Seq::<Sender<UpdateResponse>>::empty(),
    {
        let r = Updater { known_ids: Vec::new(), subscribers: Vec::new() };
        proof {
            assert forall|g: Seq<char>| !r.spec_known().contains(g) by {}
        }
        r
    }

    /// Registers a new subscriber channel; it will receive only future
    /// deltas, never a replay of already-seen state.
    pub fn add_updater(&mut self, tx: Sender<UpdateResponse>)
        ensures
            final(self).spec_subscribers() == old(self).spec_subscribers().push(tx),
            final(self).spec_known() == old(self).spec_known(),
    {
        self.subscribers.push(tx);
    }

    /// How many subscribers are currently registered.
    pub fn subscriber_count(&self) -> (r: usize)
        ensures
            r == self.spec_subscribers().len(),
    {
        self.subscribers.len()
    }

    /// Sends the delta to every subscriber once, keeping exactly those whose
    /// channel accepted it: a subscriber whose channel is broken is dropped
    /// and will receive no further delivery attempts.
    #[verifier::loop_isolation(false)]
    fn deliver(&mut self, delta: &UpdateResponse)
        ensures
            final(self).spec_known() == old(self).spec_known(),
            exists|keep: Seq<bool>|
                keep.len() == old(self).spec_subscribers().len() && final(self).spec_subscribers()
                    == mask(old(self).spec_subscribers(), keep),
    {
        let ghost subs0 = self.subscribers@;
        let mut kept: Vec<Sender<UpdateResponse>> = Vec::new();
        let ghost mut keepg: Seq<bool> = Seq::empty();
        proof {
            assert(subs0.subrange(0, 0) =~= Seq::<Sender<UpdateResponse>>::empty());
        }
        while self.subscribers.len() != 0
            invariant
                keepg.len() <= subs0.len(),
                self.subscribers@ == subs0.subrange(keepg.len() as int, subs0.len() as int),
                kept@ == mask(subs0.subrange(0, keepg.len() as int), keepg),
                self.known_ids == old(self).known_ids,
            decreases self.subscribers@.len(),
        {
            let ghost done = keepg.len() as int;
            let s = self.subscribers.remove(0);
            let ok = send_update(&s, delta.clone());
            proof {
                assert(s == subs0[done]);
                assert(self.subscribers@ =~= subs0.subrange(done + 1, subs0.len() as int));
            }
            if ok {
                kept.push(s);
            }
            proof {
                let keepg_pre = keepg;
                keepg = keepg.push(ok);
                assert(subs0.subrange(0, done + 1) =~= subs0.subrange(0, done).push(subs0[done]));
                assert(subs0.subrange(0, done + 1).drop_last() =~= subs0.subrange(0, done));
                assert(keepg.drop_last() =~= keepg_pre);
                assert(keepg.last() == ok);
                assert(subs0.subrange(0, done + 1).last() == subs0[done]);
                assert(kept@ == mask(subs0.subrange(0, done + 1), keepg));
            }
        }
        proof {
            assert(subs0.subrange(0, subs0.len() as int) =~= subs0);
            assert(keepg.len() == subs0.len());
        }
        self.subscribers = kept;
        proof {
            assert(keepg.len() == old(self).spec_subscribers().len() && self.subscribers@ == mask(
                old(self).spec_subscribers(),
                keepg,
            ));
        }
    }

    /// One round of the diff engine: computes the entries of the snapshot
    /// whose identities the previous round did not hold, replaces the
    /// identity memory with exactly the snapshot's identities, and, unless
    /// the delta is empty, sends it to every subscriber, dropping those
    /// whose channel is broken. An empty delta is suppressed: nothing is
    /// sent and the subscriber set stays as it was.
    pub fn run_update(&mut self, feeds: &Feeds) -> (delta: Option<UpdateResponse>)
        ensures
            delta matches Some(d) ==> d.status@ == fresh_entries(
                concat_status(feeds.feeds@),
                old(self).spec_known(),
            ) && d.notifications@ == fresh_entries(
                concat_notifications(feeds.feeds@),
                old(self).spec_known(),
            ),
            (delta is Some) == (fresh_entries(concat_status(feeds.feeds@), old(self).spec_known()).len()
                + fresh_entries(concat_notifications(feeds.feeds@), old(self).spec_known()).len()
                > 0),
            final(self).spec_known() =~= snapshot_ids(feeds.feeds@),
            delta is None ==> final(self).spec_subscribers() == old(self).spec_subscribers(),
            exists|keep: Seq<bool>|
                keep.len() == old(self).spec_subscribers().len() && final(self).spec_subscribers()
                    == mask(old(self).spec_subscribers(), keep),
    {
        let status = collect_fresh_status(&feeds.feeds, &self.known_ids);
        let notifications = collect_fresh_notifications(&feeds.feeds, &self.known_ids);
        let quiet = status.len() == 0 && notifications.len() == 0;
        self.known_ids = collect_guids(&feeds.feeds);
        if quiet {
            proof {
                let subs = old(self).spec_subscribers();
                lemma_mask_all_true(subs);
                let keep = Seq::new(subs.len(), |i: int| true);
                assert(keep.len() == subs.len() && self.spec_subscribers() == mask(subs, keep));
            }
            return None;
        }
        let delta = UpdateResponse { status, notifications };
        let ghost pre = *self;
        self.deliver(&delta);
        proof {
            let keep = choose|keep: Seq<bool>|
                keep.len() == pre.spec_subscribers().len() && self.spec_subscribers() == mask(
                    pre.spec_subscribers(),
                    keep,
                );
            assert(pre.spec_subscribers() == old(self).spec_subscribers());
            assert(keep.len() == old(self).spec_subscribers().len() && self.spec_subscribers()
                == mask(old(self).spec_subscribers(), keep));
        }
        Some(delta)
    }
}

/// Keeping everything is a mask.
proof fn lemma_mask_all_true<T>(s: Seq<T>)
    ensures
        mask(s, Seq::new(s.len(), |i: int| true)) == s,
    decreases s.len(),
{
    let keep = Seq::new(s.len(), |i: int| true);
    if s.len() == 0 {
        assert(mask(s, keep) =~= s);
    } else {
        lemma_mask_all_true(s.drop_last());
        assert(keep.drop_last() =~= Seq::new(s.drop_last().len(), |i: int| true));
        assert(mask(s, keep) =~= s);
    }
}

/// Appending one guid to the list adds exactly its identity to the set.
proof fn lemma_id_set_push(ids: Seq<String>, g: String)
    ensures
        id_set(ids.push(g)) =~= id_set(ids).insert(g@),
{
    assert forall|x: Seq<char>|
        id_set(ids.push(g)).contains(x) == id_set(ids).insert(g@).contains(x) by {
        if id_set(ids.push(g)).contains(x) {
            let i = choose|i: int| 0 <= i < ids.push(g).len() && ids.push(g)[i]@ == x;
            if i < ids.len() {
                assert(ids[i]@ == x);
            }
        }
        if id_set(ids).contains(x) {
            let i = choose|i: int| 0 <= i < ids.len() && ids[i]@ == x;
            assert(ids.push(g)[i]@ == x);
        }
        if x == g@ {
            assert(ids.push(g)[ids.len() as int]@ == x);
        }
    }
}

/// Appending an element to a sequence adds exactly it to the element set.
proof fn lemma_push_to_set<A>(s: Seq<A>, x: A)
    ensures
        s.push(x).to_set() =~= s.to_set().insert(x),
{
    assert forall|y: A| s.push(x).to_set().contains(y) == s.to_set().insert(x).contains(y) by {
        if s.push(x).contains(y) {
            let i = choose|i: int| 0 <= i < s.push(x).len() && s.push(x)[i] == y;
            if i < s.len() {
                assert(s[i] == y);
            }
        }
        if s.contains(y) {
            let i = choose|i: int| 0 <= i < s.len() && s[i] == y;
            assert(s.push(x)[i] == y);
        }
        if y == x {
            assert(s.push(x)[s.len() as int] == y);
        }
    }
}

/// Appends the guids of one entry list to the identity list.
#[verifier::loop_isolation(false)]
fn push_guids(out: &mut Vec<String>, es: &Vec<Entry>)
    ensures
        id_set(final(out)@) =~= id_set(old(out)@).union(guid_seq(es@).to_set()),
{
    let ghost out0 = old(out)@;
    let n = es.len();
    proof {
        assert(es@.subrange(0, 0) =~= Seq::<Entry>::empty());
        assert(guid_seq(es@.subrange(0, 0)) =~= Seq::<Seq<char>>::empty());
        assert(id_set(out@) =~= id_set(out0).union(guid_seq(es@.subrange(0, 0)).to_set()));
    }
    for j in 0..n
        invariant
            n == es@.len(),
            id_set(out@) =~= id_set(out0).union(guid_seq(es@.subrange(0, j as int)).to_set()),
    {
        let ghost pre = out@;
        out.push(es[j].guid.clone());
        proof {
            lemma_id_set_push(pre, out@.last());
            assert(out@ =~= pre.push(out@.last()));
            assert(es@.subrange(0, j + 1) =~= es@.subrange(0, j as int).push(es@[j as int]));
            assert(guid_seq(es@.subrange(0, j + 1)) =~= guid_seq(
                es@.subrange(0, j as int),
            ).push(es@[j as int].guid@));
            lemma_push_to_set(guid_seq(es@.subrange(0, j as int)), es@[j as int].guid@);
            assert(id_set(out@) =~= id_set(out0).union(
                guid_seq(es@.subrange(0, j + 1)).to_set(),
            ));
        }
    }
    proof {
        assert(es@.subrange(0, n as int) =~= es@);
    }
}

/// A feed appended to the snapshot adds exactly its identities.
proof fn lemma_snapshot_ids_push(fs: Seq<(String, Feed)>, p: (String, Feed))
    ensures
        snapshot_ids(fs.push(p)) =~= snapshot_ids(fs).union(feed_guids(p.1)),
    decreases fs.len(),
{
    reveal_with_fuel(snapshot_ids, 3);
    let t = fs.push(p);
    if fs.len() == 0 {
        assert(t[0] == p);
        assert(t.drop_first() =~= Seq::<(String, Feed)>::empty());
    } else {
        assert(t[0] == fs[0]);
        assert(t.drop_first() =~= fs.drop_first().push(p));
        lemma_snapshot_ids_push(fs.drop_first(), p);
        assert(snapshot_ids(fs.push(p)) =~= snapshot_ids(fs).union(feed_guids(p.1)));
    }
}

/// Collects the guids of every entry in the snapshot.
#[verifier::loop_isolation(false)]
fn collect_guids(fs: &Table<Feed>) -> (r: Vec<String>)
    ensures
        id_set(r@) =~= snapshot_ids(fs@),
{
    let mut r: Vec<String> = Vec::new();
    let n = fs.len();
    proof {
        assert(fs@.subrange(0, 0) =~= Seq::<(String, Feed)>::empty());
        assert(id_set(r@) =~= snapshot_ids(fs@.subrange(0, 0)));
    }
    for i in 0..n
        invariant
            n == fs@.len(),
            id_set(r@) =~= snapshot_ids(fs@.subrange(0, i as int)),
    {
        let f = fs.value_at(i);
        push_guids(&mut r, &f.status);
        push_guids(&mut r, &f.errors);
        push_guids(&mut r, &f.notifications);
        proof {
            assert(fs@.subrange(0, i + 1) =~= fs@.subrange(0, i as int).push(fs@[i as int]));
            lemma_snapshot_ids_push(fs@.subrange(0, i as int), fs@[i as int]);
            assert(id_set(r@) =~= snapshot_ids(fs@.subrange(0, i + 1)));
        }
    }
    proof {
        assert(fs@.subrange(0, n as int) =~= fs@);
    }
    r
}

/// Filtering past one appended entry keeps it exactly when it is fresh.
proof fn lemma_fresh_push(s: Seq<Entry>, e: Entry, k: Set<Seq<char>>)
    ensures
        fresh_entries(s.push(e), k) == fresh_entries(s, k) + if !k.contains(e.guid@) {
            seq![e]
        } else {
            Seq::<Entry>::empty()
        },
{
    broadcast use vstd::seq_lib::group_filter_ensures;

    reveal_with_fuel(Seq::filter, 3);
    assert(s.push(e) =~= s + seq![e]);
    assert(seq![e].drop_last() =~= Seq::<Entry>::empty());
    assert(fresh_entries(s.push(e), k) =~= fresh_entries(s, k) + if !k.contains(e.guid@) {
        seq![e]
    } else {
        Seq::<Entry>::empty()
    });
}

/// Collects the status entries of the snapshot whose identities are not
/// already known.
#[verifier::loop_isolation(false)]
fn collect_fresh_status(fs: &Table<Feed>, known: &Vec<String>) -> (r: Vec<Entry>)
    ensures
        r@ == fresh_entries(concat_status(fs@), id_set(known@)),
{
    broadcast use vstd::seq_lib::group_filter_ensures;

    let ghost k = id_set(known@);
    let mut r: Vec<Entry> = Vec::new();
    let n = fs.len();
    proof {
        assert(fs@.subrange(0, 0) =~= Seq::<(String, Feed)>::empty());
        assert(fresh_entries(concat_status(fs@.subrange(0, 0)), k) =~= Seq::<Entry>::empty())
            by {
            reveal_with_fuel(Seq::filter, 2);
        }
    }
    for i in 0..n
        invariant
            n == fs@.len(),
            r@ == fresh_entries(concat_status(fs@.subrange(0, i as int)), k),
            k == id_set(known@),
    {
        let f = fs.value_at(i);
        let m = f.status.len();
        proof {
            assert(f.status@.subrange(0, 0) =~= Seq::<Entry>::empty());
            assert(fresh_entries(f.status@.subrange(0, 0), k) =~= Seq::<Entry>::empty()) by {
                reveal_with_fuel(Seq::filter, 2);
            }
            assert(r@ =~= fresh_entries(concat_status(fs@.subrange(0, i as int)), k)
                + fresh_entries(f.status@.subrange(0, 0), k));
        }
        for j in 0..m
            invariant
                n == fs@.len(),
                i < n,
                m == f.status@.len(),
                *f == fs@[i as int].1,
                r@ == fresh_entries(concat_status(fs@.subrange(0, i as int)), k) + fresh_entries(
                    f.status@.subrange(0, j as int),
                    k,
                ),
                k == id_set(known@),
        {
            if !contains_id(known, &f.status[j].guid) {
                r.push(f.status[j].clone());
            }
            proof {
                lemma_fresh_push(f.status@.subrange(0, j as int), f.status@[j as int], k);
                assert(f.status@.subrange(0, j + 1) =~= f.status@.subrange(0, j as int).push(
                    f.status@[j as int],
                ));
                assert(r@ =~= fresh_entries(concat_status(fs@.subrange(0, i as int)), k)
                    + fresh_entries(f.status@.subrange(0, j + 1), k));
            }
        }
        proof {
            assert(f.status@.subrange(0, m as int) =~= f.status@);
            lemma_concat_status_push(fs@.subrange(0, i as int), fs@[i as int]);
            assert(fs@.subrange(0, i + 1) =~= fs@.subrange(0, i as int).push(fs@[i as int]));
            assert(r@ =~= fresh_entries(concat_status(fs@.subrange(0, i + 1)), k));
        }
    }
    proof {
        assert(fs@.subrange(0, n as int) =~= fs@);
    }
    r
}

/// Collects the notification entries of the snapshot whose identities are
/// not already known.
#[verifier::loop_isolation(false)]
fn collect_fresh_notifications(fs: &Table<Feed>, known: &Vec<String>) -> (r: Vec<Entry>)
    ensures
        r@ == fresh_entries(concat_notifications(fs@), id_set(known@)),
{
    broadcast use vstd::seq_lib::group_filter_ensures;

    let ghost k = id_set(known@);
    let mut r: Vec<Entry> = Vec::new();
    let n = fs.len();
    proof {
        assert(fs@.subrange(0, 0) =~= Seq::<(String, Feed)>::empty());
        assert(fresh_entries(concat_notifications(fs@.subrange(0, 0)), k) =~= Seq::<
            Entry,
        >::empty()) by {
            reveal_with_fuel(Seq::filter, 2);
        }
    }
    for i in 0..n
        invariant
            n == fs@.len(),
            r@ == fresh_entries(concat_notifications(fs@.subrange(0, i as int)), k),
            k == id_set(known@),
    {
        let f = fs.value_at(i);
        let m = f.notifications.len();
        proof {
            assert(f.notifications@.subrange(0, 0) =~= Seq::<Entry>::empty());
            assert(fresh_entries(f.notifications@.subrange(0, 0), k) =~= Seq::<Entry>::empty())
                by {
                reveal_with_fuel(Seq::filter, 2);
            }
            assert(r@ =~= fresh_entries(concat_notifications(fs@.subrange(0, i as int)), k)
                + fresh_entries(f.notifications@.subrange(0, 0), k));
        }
        for j in 0..m
            invariant
                n == fs@.len(),
                i < n,
                m == f.notifications@.len(),
                *f == fs@[i as int].1,
                r@ == fresh_entries(concat_notifications(fs@.subrange(0, i as int)), k)
                    + fresh_entries(f.notifications@.subrange(0, j as int), k),
                k == id_set(known@),
        {
            if !contains_id(known, &f.notifications[j].guid) {
                r.push(f.notifications[j].clone());
            }
            proof {
                lemma_fresh_push(
                    f.notifications@.subrange(0, j as int),
                    f.notifications@[j as int],
                    k,
                );
                assert(f.notifications@.subrange(0, j + 1) =~= f.notifications@.subrange(
                    0,
                    j as int,
                ).push(f.notifications@[j as int]));
                assert(r@ =~= fresh_entries(concat_notifications(fs@.subrange(0, i as int)), k)
                    + fresh_entries(f.notifications@.subrange(0, j + 1), k));
            }
        }
        proof {
            assert(f.notifications@.subrange(0, m as int) =~= f.notifications@);
            lemma_concat_notifications_push(fs@.subrange(0, i as int), fs@[i as int]);
            assert(fs@.subrange(0, i + 1) =~= fs@.subrange(0, i as int).push(fs@[i as int]));
            assert(r@ =~= fresh_entries(concat_notifications(fs@.subrange(0, i + 1)), k));
        }
    }
    proof {
        assert(fs@.subrange(0, n as int) =~= fs@);
    }
    r
}

/// A feed appended to the snapshot appends its status entries.
proof fn lemma_concat_status_push(fs: Seq<(String, Feed)>, p: (String, Feed))
    ensures
        concat_status(fs.push(p)) == concat_status(fs) + p.1.status@,
    decreases fs.len(),
{
    reveal_with_fuel(concat_status, 3);
    let t = fs.push(p);
    if fs.len() == 0 {
        assert(t[0] == p);
        assert(t.drop_first() =~= Seq::<(String, Feed)>::empty());
        assert(concat_status(t) =~= concat_status(fs) + p.1.status@);
    } else {
        assert(t[0] == fs[0]);
        assert(t.drop_first() =~= fs.drop_first().push(p));
        lemma_concat_status_push(fs.drop_first(), p);
        assert(concat_status(t) =~= concat_status(fs) + p.1.status@);
    }
}

/// A feed appended to the snapshot appends its notification entries.
proof fn lemma_concat_notifications_push(fs: Seq<(String, Feed)>, p: (String, Feed))
    ensures
        concat_notifications(fs.push(p)) == concat_notifications(fs) + p.1.notifications@,
    decreases fs.len(),
{
    reveal_with_fuel(concat_notifications, 3);
    let t = fs.push(p);
    if fs.len() == 0 {
        assert(t[0] == p);
        assert(t.drop_first() =~= Seq::<(String, Feed)>::empty());
        assert(concat_notifications(t) =~= concat_notifications(fs) + p.1.notifications@);
    } else {
        assert(t[0] == fs[0]);
        assert(t.drop_first() =~= fs.drop_first().push(p));
        lemma_concat_notifications_push(fs.drop_first(), p);
        assert(concat_notifications(t) =~= concat_notifications(fs) + p.1.notifications@);
    }
}

/// All error entries across all feeds, in table order.
pub open spec fn concat_errors(fs: Seq<(String, Feed)>) -> Seq<Entry>
    decreases fs.len(),
{
    if fs.len() == 0 {
        Seq::empty()
    } else {
        fs[0].1.errors@ + concat_errors(fs.drop_first())
    }
}

/// A feed appended to the snapshot appends its error entries.
proof fn lemma_concat_errors_push(fs: Seq<(String, Feed)>, p: (String, Feed))
    ensures
        concat_errors(fs.push(p)) == concat_errors(fs) + p.1.errors@,
    decreases fs.len(),
{
    reveal_with_fuel(concat_errors, 3);
    let t = fs.push(p);
    if fs.len() == 0 {
        assert(t[0] == p);
        assert(t.drop_first() =~= Seq::<(String, Feed)>::empty());
        assert(concat_errors(t) =~= concat_errors(fs) + p.1.errors@);
    } else {
        assert(t[0] == fs[0]);
        assert(t.drop_first() =~= fs.drop_first().push(p));
        lemma_concat_errors_push(fs.drop_first(), p);
        assert(concat_errors(t) =~= concat_errors(fs) + p.1.errors@);
    }
}

/// Merges a snapshot into one flat feed for query transports: every
/// status, notification and error entry of every feed, each of the three
/// lists stable-sorted by the ordering law.
#[verifier::loop_isolation(false)]
pub fn flatten_feeds(fs: &Table<Feed>) -> (r: Feed)
    ensures
        r.status@ == crate::entry::stable_sorted(concat_status(fs@)),
        crate::entry::sorted_newest_first(r.status@),
        r.status@.to_multiset() == concat_status(fs@).to_multiset(),
        r.notifications@ == crate::entry::stable_sorted(concat_notifications(fs@)),
        crate::entry::sorted_newest_first(r.notifications@),
        r.notifications@.to_multiset() == concat_notifications(fs@).to_multiset(),
        r.errors@ == crate::entry::stable_sorted(concat_errors(fs@)),
        crate::entry::sorted_newest_first(r.errors@),
        r.errors@.to_multiset() == concat_errors(fs@).to_multiset(),
{
    let mut status: Vec<Entry> = Vec::new();
    let mut notifications: Vec<Entry> = Vec::new();
    let mut errors: Vec<Entry> = Vec::new();
    let n = fs.len();
    proof {
        assert(fs@.subrange(0, 0) =~= Seq::<(String, Feed)>::empty());
        assert(status@ =~= concat_status(fs@.subrange(0, 0)));
        assert(notifications@ =~= concat_notifications(fs@.subrange(0, 0)));
        assert(errors@ =~= concat_errors(fs@.subrange(0, 0)));
    }
    for i in 0..n
        invariant
            n == fs@.len(),
            status@ == concat_status(fs@.subrange(0, i as int)),
            notifications@ == concat_notifications(fs@.subrange(0, i as int)),
            errors@ == concat_errors(fs@.subrange(0, i as int)),
    {
        let f = fs.value_at(i);
        let mut s2 = clone_entries(&f.status);
        let mut n2 = clone_entries(&f.notifications);
        let mut e2 = clone_entries(&f.errors);
        status.append(&mut s2);
        notifications.append(&mut n2);
        errors.append(&mut e2);
        proof {
            assert(fs@.subrange(0, i + 1) =~= fs@.subrange(0, i as int).push(fs@[i as int]));
            lemma_concat_status_push(fs@.subrange(0, i as int), fs@[i as int]);
            lemma_concat_notifications_push(fs@.subrange(0, i as int), fs@[i as int]);
            lemma_concat_errors_push(fs@.subrange(0, i as int), fs@[i as int]);
        }
    }
    proof {
        assert(fs@.subrange(0, n as int) =~= fs@);
    }
    crate::entry::sort_entries(&mut status);
    crate::entry::sort_entries(&mut notifications);
    crate::entry::sort_entries(&mut errors);
    Feed { status, notifications, errors }
}

/// Reappearance counts as new: with the last-snapshot-only memory, an entry
/// whose identity the previous snapshot did not hold is reported, however
/// often it was seen in earlier rounds.
pub proof fn lemma_reappearance(prev: Seq<(String, Feed)>, es: Seq<Entry>, i: int)
    requires
        0 <= i < es.len(),
        !snapshot_ids(prev).contains(es[i].guid@),
    ensures
        fresh_entries(es, snapshot_ids(prev)).contains(es[i]),
{
    broadcast use vstd::seq_lib::group_filter_ensures;

    es.lemma_filter_contains(|e: Entry| !snapshot_ids(prev).contains(e.guid@), i);
}

/// Nothing already known is reported: every entry of the delta carries an
/// identity the previous snapshot did not hold.
pub proof fn lemma_no_stale(known: Set<Seq<char>>, es: Seq<Entry>, j: int)
    requires
        0 <= j < fresh_entries(es, known).len(),
    ensures
        !known.contains(fresh_entries(es, known)[j].guid@),
{
    broadcast use vstd::seq_lib::group_filter_ensures;

    es.lemma_filter_pred(|e: Entry| !known.contains(e.guid@), j);
}

} // verus!
