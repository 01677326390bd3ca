//! The interface registry: the configured set of serving adapters. Serving
//! itself is transport work outside the core; the registry only holds each
//! interface's configuration (serialized, opaque to the core) by name.

use regex::RegexBuilder;

use vstd::prelude::*;

use crate::feed::Feed;
use crate::table::{lemma_tget_absent, lemma_tget_found, tget, Table};

verus! {

/// Whether the case-insensitive pattern compiles within the serving
/// limits; what `compile_and_match` returns depends on this.
pub uninterp spec fn regex_compiles(pattern: Seq<char>) -> bool;

/// Whether the compiled pattern matches the text; a function of the two
/// strings alone.
pub uninterp spec fn regex_accepts(pattern: Seq<char>, text: Seq<char>) -> bool;

/// Relies on regex::RegexBuilder::build (case-insensitive, with bounded
/// size and nesting, as the serving interfaces configure it) and on
/// regex::Regex::is_match: whether the pattern compiles, and whether it
/// matches the text, are functions of the two strings alone.
#[verifier::external_body]
fn compile_and_match(pattern: &str, text: &str) -> (r: Option<bool>)
    ensures
        (r is Some) == regex_compiles(pattern@),
        r matches Some(b) ==> b == regex_accepts(pattern@, text@),
{
    RegexBuilder::new(pattern)
        .size_limit(1024 * 32)
        .dfa_size_limit(1024 * 32)
        .nest_limit(10)
        .case_insensitive(true)
        .build()
        .ok()
        .map(|re| re.is_match(text))
}

/// Two feeds with the same content.
pub open spec fn feed_like(a: Feed, b: Feed) -> bool {
    &&& a.status@ == b.status@
    &&& a.notifications@ == b.notifications@
    &&& a.errors@ == b.errors@
}

/// The slice of the snapshot a filtered query returns: exactly the feeds
/// whose name the pattern matches, or nothing at all when the pattern does
/// not compile.
#[verifier::loop_isolation(false)]
pub fn filter_feeds(feeds: &Table<Feed>, pattern: &str) -> (r: Option<Table<Feed>>)
    requires
        feeds.wf(),
    ensures
        (r is Some) == regex_compiles(pattern@),
        r matches Some(out) ==> out.wf() && forall|name: Seq<char>|
            match #[trigger] tget(out@, name) {
                None => !(regex_accepts(pattern@, name) && tget(feeds@, name) is Some),
                Some(g) => regex_accepts(pattern@, name) && (tget(feeds@, name) matches Some(f)
                    && feed_like(g, f)),
            },
{
    let ghost fs = feeds@;
    if compile_and_match(pattern, "").is_none() {
        return None;
    }
    let mut out: Table<Feed> = Table::new();
    let n = feeds.len();
    for i in 0..n
        invariant
            n == fs.len(),
            out.wf(),
            regex_compiles(pattern@),
            forall|name: Seq<char>|
                #[trigger] tget(out@, name) is Some == (regex_accepts(pattern@, name) && exists|
                    j: int,
                |
                    0 <= j < i && (#[trigger] fs[j]).0@ == name),
            forall|name: Seq<char>|
                #[trigger] tget(out@, name) matches Some(g) ==> (tget(fs, name) matches Some(f)
                    && feed_like(g, f)),
    {
        let name = feeds.key_at(i).clone();
        let keep = compile_and_match(pattern, name.as_str()).unwrap();
        let ghost pre = out@;
        if keep {
            out.insert(name, feeds.value_at(i).clone());
        }
        proof {
            let ki = fs[i as int].0@;
            assert forall|j2: int| 0 <= j2 < i implies fs[j2].0@ != ki by {}
            lemma_tget_found(fs, ki, i as int);
            assert forall|name2: Seq<char>| #[trigger] tget(out@, name2) is Some == (
            regex_accepts(pattern@, name2) && exists|j: int|
                0 <= j < i + 1 && (#[trigger] fs[j]).0@ == name2) by {
                if name2 == ki {
                    assert(fs[i as int].0@ == name2);
                } else {
                    assert(forall|j: int|
                        0 <= j < i + 1 && (#[trigger] fs[j]).0@ == name2 ==> j < i);
                }
            }
        }
    }
    proof {
        assert forall|name: Seq<char>|
            match #[trigger] tget(out@, name) {
                None => !(regex_accepts(pattern@, name) && tget(fs, name) is Some),
                Some(g) => regex_accepts(pattern@, name) && (tget(fs, name) matches Some(f)
                    && feed_like(g, f)),
            } by {
            crate::table::lemma_tget_occurs(fs, name);
        }
    }
    Some(out)
}

/// No interface is registered under the configured name.
pub struct InterfaceNotFound;

impl InterfaceNotFound {
    pub fn message(&self) -> (r: &'static str)
        ensures
            r@ == "Interface not found"@,
    {
        "Interface not found"
    }
}

/// The configured serving adapters, by interface name.
pub struct Interfaces {
    configs: Table<String>,
}

impl Interfaces {
    /// The configuration held for each interface name.
    pub closed spec fn spec_configs(self) -> Seq<(String, String)> {
        self.configs@
    }

    pub fn new(configs: Table<String>) -> (r: Interfaces)
        ensures
            r.spec_configs() == configs@,
    {
        Interfaces { configs }
    }

    pub fn len(&self) -> (r: usize)
        ensures
            r == self.spec_configs().len(),
    {
        self.configs.len()
    }

    pub fn name_at(&self, i: usize) -> (r: &String)
        requires
            i < self.spec_configs().len(),
        ensures
            *r == self.spec_configs()[i as int].0,
    {
        self.configs.key_at(i)
    }

    pub fn config_at(&self, i: usize) -> (r: &String)
        requires
            i < self.spec_configs().len(),
        ensures
            *r == self.spec_configs()[i as int].1,
    {
        self.configs.value_at(i)
    }

    pub fn config_for(&self, name: &str) -> (r: Option<&String>)
        ensures
            match r {
                Some(v) => tget(self.spec_configs(), name@) == Some(*v),
                None => tget(self.spec_configs(), name@) is None,
            },
    {
        self.configs.get(name)
    }
}

} // verus!
