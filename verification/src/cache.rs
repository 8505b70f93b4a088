//! The compile-time description cache: memoizes describe outcomes per
//! (connection URL, exact query text) and enforces the single-flight
//! discipline, so that concurrent requests for one key perform one
//! underlying describe exchange and a resolved key never touches the
//! network again.
//!
//! The cache is a state machine. `begin` is the keyed lookup a call site
//! performs: it answers with a resolved description, with an order to wait
//! on another caller's in-flight exchange, or with an order to perform the
//! exchange (installing the in-flight marker). `complete_ok` and
//! `complete_err` are the two ways an exchange ends. The driver that
//! performs the actual network work feeds these transitions; every
//! scheduling of them obeys the laws proved at the bottom of this module.

use vstd::prelude::*;
use vstd::string::StringExecFns;
use crate::description::Description;
use crate::description::DescriptionModel;
use crate::description::string_eq;

verus! {

/// The cache key: the pair of connection URL and exact query text.
/// Equality is exact string equality; no normalization of whitespace,
/// comments or case, since the underlying statement text is what is
/// described.
pub struct QueryKey {
    pub url: String,
    pub query_text: String,
}

impl View for QueryKey {
    type V = (Seq<char>, Seq<char>);

    open spec fn view(&self) -> (Seq<char>, Seq<char>) {
        (self.url@, self.query_text@)
    }
}

/// One cache entry: an exchange in flight, counting the concurrent
/// requesters that wait on its outcome, or an immutable resolved
/// description. A failure is never an entry.
pub enum CacheEntry {
    InFlight(usize),
    Resolved(Description),
}

/// Mathematical model of a [`CacheEntry`].
#[verifier::ext_equal]
pub enum EntryModel {
    InFlight(nat),
    Resolved(DescriptionModel),
}

/// Model of one entry.
pub open spec fn entry_model(e: &CacheEntry) -> EntryModel {
    match e {
        CacheEntry::InFlight(w) => EntryModel::InFlight(*w as nat),
        CacheEntry::Resolved(d) => EntryModel::Resolved(d@),
    }
}

/// One more waiter, up to the machine's count limit.
pub open spec fn bump_waiters(n: nat) -> nat {
    if n < usize::MAX as nat {
        n + 1
    } else {
        n
    }
}

/// Some position of `s` holds the key `k`.
pub open spec fn seq_has_key(s: Seq<(QueryKey, CacheEntry)>, k: (Seq<char>, Seq<char>)) -> bool {
    exists|i: int| 0 <= i < s.len() && (#[trigger] s[i]).0@ == k
}

/// The position of `s` that holds the key `k`.
pub open spec fn seq_key_index(s: Seq<(QueryKey, CacheEntry)>, k: (Seq<char>, Seq<char>)) -> int {
    choose|i: int| 0 <= i < s.len() && (#[trigger] s[i]).0@ == k
}

/// No two positions of `s` hold the same key.
pub open spec fn keys_unique(s: Seq<(QueryKey, CacheEntry)>) -> bool {
    forall|i: int, j: int| 0 <= i < j < s.len() ==> (#[trigger] s[i]).0@ != (#[trigger] s[j]).0@
}

/// The key-to-entry map that a sequence of entries denotes.
pub open spec fn entries_model(s: Seq<(QueryKey, CacheEntry)>) -> Map<
    (Seq<char>, Seq<char>),
    EntryModel,
> {
    Map::new(|k: (Seq<char>, Seq<char>)| seq_has_key(s, k), |k| entry_model(&s[seq_key_index(s, k)].1))
}

proof fn lemma_lookup(s: Seq<(QueryKey, CacheEntry)>, i: int)
    requires
        keys_unique(s),
        0 <= i < s.len(),
    ensures
        entries_model(s).contains_key(s[i].0@),
        entries_model(s)[s[i].0@] == entry_model(&s[i].1),
{
    let k = s[i].0@;
    assert(seq_has_key(s, k));
    let j = seq_key_index(s, k);
    assert(0 <= j < s.len() && s[j].0@ == k);
    assert(j == i);
}

proof fn lemma_model_push(s: Seq<(QueryKey, CacheEntry)>, key: QueryKey, e: CacheEntry)
    requires
        keys_unique(s),
        !seq_has_key(s, key@),
    ensures
        keys_unique(s.push((key, e))),
        entries_model(s.push((key, e))) == entries_model(s).insert(key@, entry_model(&e)),
{
    let s2 = s.push((key, e));
    assert forall|i: int, j: int| 0 <= i < j < s2.len() implies (#[trigger] s2[i]).0@
        != (#[trigger] s2[j]).0@ by {
        if j == s.len() {
            assert(s2[i] == s[i]);
            assert(s2[j].0@ == key@);
        } else {
            assert(s2[i] == s[i] && s2[j] == s[j]);
        }
    }
    let m2 = entries_model(s2);
    let target = entries_model(s).insert(key@, entry_model(&e));
    assert forall|k: (Seq<char>, Seq<char>)| #[trigger] m2.contains_key(k) implies
        target.contains_key(k) && m2[k] == target[k] by {
        let i = seq_key_index(s2, k);
        assert(0 <= i < s2.len() && s2[i].0@ == k);
        lemma_lookup(s2, i);
        if i == s.len() {
            assert(k == key@);
            assert(m2[k] == entry_model(&e));
        } else {
            assert(s2[i] == s[i]);
            lemma_lookup(s, i);
            assert(k != key@);
        }
    }
    assert forall|k: (Seq<char>, Seq<char>)| #[trigger] target.contains_key(k) implies
        m2.contains_key(k) by {
        if k == key@ {
            assert(s2[s.len() as int].0@ == k);
            assert(seq_has_key(s2, k));
        } else {
            let i = seq_key_index(s, k);
            assert(0 <= i < s.len() && s[i].0@ == k);
            assert(s2[i].0@ == k);
        }
    }
    assert(m2 =~= target);
}

proof fn lemma_model_remove(s: Seq<(QueryKey, CacheEntry)>, i: int)
    requires
        keys_unique(s),
        0 <= i < s.len(),
    ensures
        keys_unique(s.remove(i)),
        entries_model(s.remove(i)) == entries_model(s).remove(s[i].0@),
{
    let s2 = s.remove(i);
    assert forall|a: int, b: int| 0 <= a < b < s2.len() implies (#[trigger] s2[a]).0@
        != (#[trigger] s2[b]).0@ by {
        let a0 = if a < i { a } else { a + 1 };
        let b0 = if b < i { b } else { b + 1 };
        assert(s2[a] == s[a0] && s2[b] == s[b0]);
    }
    let m2 = entries_model(s2);
    let target = entries_model(s).remove(s[i].0@);
    assert forall|k: (Seq<char>, Seq<char>)| #[trigger] m2.contains_key(k) implies
        target.contains_key(k) && m2[k] == target[k] by {
        let j = seq_key_index(s2, k);
        assert(0 <= j < s2.len() && s2[j].0@ == k);
        lemma_lookup(s2, j);
        let j0 = if j < i { j } else { j + 1 };
        assert(s2[j] == s[j0]);
        lemma_lookup(s, j0);
        assert(k != s[i].0@);
    }
    assert forall|k: (Seq<char>, Seq<char>)| #[trigger] target.contains_key(k) implies
        m2.contains_key(k) by {
        let j0 = seq_key_index(s, k);
        assert(0 <= j0 < s.len() && s[j0].0@ == k);
        assert(j0 != i);
        let j = if j0 < i { j0 } else { j0 - 1 };
        assert(s2[j] == s[j0]);
        assert(seq_has_key(s2, k));
    }
    assert(m2 =~= target);
}

/// The answer `begin` gives a call site.
pub enum BeginOutcome {
    /// A resolved entry exists: here is its description; no network
    /// operation occurs.
    Hit(Description),
    /// Another caller's exchange for this key is in flight: wait on it and
    /// take its outcome.
    AwaitFlight,
    /// No entry existed: the in-flight marker is now installed and this
    /// caller must perform the describe exchange, then report it through
    /// `complete_ok` or `complete_err`.
    StartFlight,
}

/// Mathematical model of a [`BeginOutcome`].
#[verifier::ext_equal]
pub enum BeginOutcomeModel {
    Hit(DescriptionModel),
    AwaitFlight,
    StartFlight,
}

/// Model of one outcome.
pub open spec fn begin_outcome_of(r: &BeginOutcome) -> BeginOutcomeModel {
    match r {
        BeginOutcome::Hit(d) => BeginOutcomeModel::Hit(d@),
        BeginOutcome::AwaitFlight => BeginOutcomeModel::AwaitFlight,
        BeginOutcome::StartFlight => BeginOutcomeModel::StartFlight,
    }
}

/// What `begin` answers on cache state `m` for key `k`.
pub open spec fn begin_outcome_model(
    m: Map<(Seq<char>, Seq<char>), EntryModel>,
    k: (Seq<char>, Seq<char>),
) -> BeginOutcomeModel {
    if m.contains_key(k) {
        match m[k] {
            EntryModel::Resolved(d) => BeginOutcomeModel::Hit(d),
            EntryModel::InFlight(_) => BeginOutcomeModel::AwaitFlight,
        }
    } else {
        BeginOutcomeModel::StartFlight
    }
}

/// The cache state after `begin` on key `k`: unchanged on a hit; one more
/// counted waiter on an in-flight entry; the in-flight marker, with no
/// waiter yet, installed on a miss.
pub open spec fn after_begin(
    m: Map<(Seq<char>, Seq<char>), EntryModel>,
    k: (Seq<char>, Seq<char>),
) -> Map<(Seq<char>, Seq<char>), EntryModel> {
    if m.contains_key(k) {
        match m[k] {
            EntryModel::Resolved(_) => m,
            EntryModel::InFlight(n) => m.insert(k, EntryModel::InFlight(bump_waiters(n))),
        }
    } else {
        m.insert(k, EntryModel::InFlight(0))
    }
}

/// The cache state after the exchange for `k` succeeded with `d`: the
/// in-flight marker is replaced by the resolved entry, kept for the rest of
/// the process's life.
pub open spec fn after_resolve(
    m: Map<(Seq<char>, Seq<char>), EntryModel>,
    k: (Seq<char>, Seq<char>),
    d: DescriptionModel,
) -> Map<(Seq<char>, Seq<char>), EntryModel> {
    m.insert(k, EntryModel::Resolved(d))
}

/// The cache state after the exchange for `k` failed: the in-flight marker
/// is removed and nothing is stored, so a later call starts fresh.
pub open spec fn after_fail(
    m: Map<(Seq<char>, Seq<char>), EntryModel>,
    k: (Seq<char>, Seq<char>),
) -> Map<(Seq<char>, Seq<char>), EntryModel> {
    m.remove(k)
}

/// The compile-time description cache for one dialect: at most one entry
/// per (URL, exact query text) key; a resolved entry is never replaced or
/// evicted.
pub struct DescribeCache {
    entries: Vec<(QueryKey, CacheEntry)>,
}

impl View for DescribeCache {
    type V = Map<(Seq<char>, Seq<char>), EntryModel>;

    closed spec fn view(&self) -> Map<(Seq<char>, Seq<char>), EntryModel> {
        entries_model(self.entries@)
    }
}

impl DescribeCache {
    /// At most one entry exists per key.
    pub closed spec fn wf(&self) -> bool {
        keys_unique(self.entries@)
    }

    /// An empty cache: no key has been seen.
    pub fn new() -> (c: DescribeCache)
        ensures
            c.wf(),
            c@ == Map::<(Seq<char>, Seq<char>), EntryModel>::empty(),
    {
        let c = DescribeCache { entries: Vec::new() };
        proof {
            assert(c@ =~= Map::<(Seq<char>, Seq<char>), EntryModel>::empty());
        }
        c
    }

    fn find_entry(&self, url: &String, query_text: &String) -> (r: Option<usize>)
        ensures
            match r {
                Some(i) => i < self.entries@.len() && self.entries@[i as int].0@ == (url@, query_text@),
                None => !seq_has_key(self.entries@, (url@, query_text@)),
            },
    {
        let mut i: usize = 0;
        while i < self.entries.len()
            invariant
                i <= self.entries@.len(),
                forall|j: int| 0 <= j < i ==> (#[trigger] self.entries@[j]).0@ != (url@, query_text@),
            decreases self.entries@.len() - i,
        {
            let pair = &self.entries[i];
            if string_eq(&pair.0.url, url) && string_eq(&pair.0.query_text, query_text) {
                proof {
                    assert(self.entries@[i as int].0@ == (url@, query_text@));
                }
                return Some(i);
            }
            i = i + 1;
        }
        None
    }

    /// The keyed lookup a call site performs. On a resolved entry it
    /// answers with the description and no state change — no network
    /// operation occurs. On an in-flight entry it counts the caller as one
    /// more waiter and orders it to wait on that exchange. On a miss it
    /// installs the in-flight marker and orders the caller to perform the
    /// one describe exchange for this key.
    pub fn begin(&mut self, url: &str, query_text: &str) -> (r: BeginOutcome)
        requires
            old(self).wf(),
        ensures
            final(self).wf(),
            begin_outcome_of(&r) == begin_outcome_model(old(self)@, (url@, query_text@)),
            final(self)@ == after_begin(old(self)@, (url@, query_text@)),
    {
        let url_owned: String = url.to_owned();
        let query_owned: String = query_text.to_owned();
        let found = self.find_entry(&url_owned, &query_owned);
        match found {
            Some(i) => {
                proof {
                    lemma_lookup(self.entries@, i as int);
                }
                let waiting: Option<usize> = match &self.entries[i].1 {
                    CacheEntry::Resolved(_) => None,
                    CacheEntry::InFlight(w) => Some(*w),
                };
                match waiting {
                    None => match &self.entries[i].1 {
                        CacheEntry::Resolved(d) => BeginOutcome::Hit(d.duplicate()),
                        CacheEntry::InFlight(_) => BeginOutcome::AwaitFlight,
                    },
                    Some(w) => {
                        let ghost s0 = self.entries@;
                        let ghost k = (url@, query_text@);
                        let bumped: usize = if w < usize::MAX {
                            w + 1
                        } else {
                            w
                        };
                        proof {
                            lemma_model_remove(s0, i as int);
                        }
                        let pair = self.entries.remove(i);
                        let entry = CacheEntry::InFlight(bumped);
                        proof {
                            assert(!seq_has_key(self.entries@, k));
                            lemma_model_push(self.entries@, pair.0, entry);
                        }
                        self.entries.push((pair.0, entry));
                        proof {
                            assert(self@ =~= after_begin(old(self)@, k));
                        }
                        BeginOutcome::AwaitFlight
                    },
                }
            },
            None => {
                let key = QueryKey { url: url_owned, query_text: query_owned };
                proof {
                    lemma_model_push(self.entries@, key, CacheEntry::InFlight(0));
                }
                self.entries.push((key, CacheEntry::InFlight(0)));
                BeginOutcome::StartFlight
            },
        }
    }

    /// The exchange for this key succeeded: the in-flight marker becomes a
    /// resolved entry holding a copy of `description`, which every present
    /// and future requester of the key observes.
    pub fn complete_ok(&mut self, url: &str, query_text: &str, description: &Description)
        requires
            old(self).wf(),
            old(self)@.contains_key((url@, query_text@)),
            old(self)@[(url@, query_text@)] is InFlight,
        ensures
            final(self).wf(),
            final(self)@ == after_resolve(old(self)@, (url@, query_text@), description@),
    {
        let url_owned: String = url.to_owned();
        let query_owned: String = query_text.to_owned();
        let found = self.find_entry(&url_owned, &query_owned);
        match found {
            Some(i) => {
                let ghost s0 = self.entries@;
                let ghost k = (url@, query_text@);
                proof {
                    lemma_model_remove(s0, i as int);
                }
                let pair = self.entries.remove(i);
                let entry = CacheEntry::Resolved(description.duplicate());
                proof {
                    assert(!seq_has_key(self.entries@, k));
                    lemma_model_push(self.entries@, pair.0, entry);
                }
                self.entries.push((pair.0, entry));
                proof {
                    assert(self@ =~= after_resolve(old(self)@, k, description@));
                }
            },
            None => {
                proof {
                    assert(false);
                }
            },
        }
    }

    /// The exchange for this key failed: the in-flight marker is removed
    /// and no entry is stored, so a later call with the same key starts
    /// fresh. Returns how many callers were waiting on this exchange: the
    /// one failure is the caller's to hand to exactly that many waiters.
    pub fn complete_err(&mut self, url: &str, query_text: &str) -> (w: usize)
        requires
            old(self).wf(),
            old(self)@.contains_key((url@, query_text@)),
            old(self)@[(url@, query_text@)] is InFlight,
        ensures
            final(self).wf(),
            final(self)@ == after_fail(old(self)@, (url@, query_text@)),
            w as nat == old(self)@[(url@, query_text@)]->InFlight_0,
    {
        let url_owned: String = url.to_owned();
        let query_owned: String = query_text.to_owned();
        let found = self.find_entry(&url_owned, &query_owned);
        match found {
            Some(i) => {
                proof {
                    lemma_lookup(self.entries@, i as int);
                    lemma_model_remove(self.entries@, i as int);
                }
                let pair = self.entries.remove(i);
                match pair.1 {
                    CacheEntry::InFlight(w) => w,
                    CacheEntry::Resolved(_) => {
                        proof {
                            assert(false);
                        }
                        0
                    },
                }
            },
            None => {
                proof {
                    assert(false);
                }
                0
            },
        }
    }

    /// Whether any entry — in flight or resolved — exists for this key.
    pub fn contains_entry(&self, url: &str, query_text: &str) -> (r: bool)
        requires
            self.wf(),
        ensures
            r == self@.contains_key((url@, query_text@)),
    {
        let url_owned: String = url.to_owned();
        let query_owned: String = query_text.to_owned();
        let found = self.find_entry(&url_owned, &query_owned);
        match found {
            Some(i) => {
                proof {
                    lemma_lookup(self.entries@, i as int);
                }
                true
            },
            None => false,
        }
    }

    /// The resolved description for this key, if the key has resolved.
    pub fn get_resolved(&self, url: &str, query_text: &str) -> (r: Option<Description>)
        requires
            self.wf(),
        ensures
            match r {
                Some(d) => self@.contains_key((url@, query_text@)) && self@[(url@, query_text@)]
                    == EntryModel::Resolved(d@),
                None => !self@.contains_key((url@, query_text@)) || self@[(url@, query_text@)]
                    is InFlight,
            },
    {
        let url_owned: String = url.to_owned();
        let query_owned: String = query_text.to_owned();
        let found = self.find_entry(&url_owned, &query_owned);
        match found {
            Some(i) => {
                proof {
                    lemma_lookup(self.entries@, i as int);
                }
                match &self.entries[i].1 {
                    CacheEntry::Resolved(d) => Some(d.duplicate()),
                    CacheEntry::InFlight(_) => None,
                }
            },
            None => None,
        }
    }
}

} // verus!

