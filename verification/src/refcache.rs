//! Caching for the two network answers a plugin check needs.
//!
//! * Comparing two commits is a pure function of two immutable commits. Its
//!   answer is valid forever, so it is kept without an expiry.
//! * Resolving a ref varies in time, because a branch tip moves. Reusing it can
//!   only delay an update, and it is bounded by a short time to live, bypassed
//!   on demand, and skipped when a mutation is about to happen.
//!
//! An entry is only ever a saved answer to a question already asked; nothing
//! here decides anything.

use crate::clock;
use crate::location::Location;
use crate::order;
use crate::text;
use crate::textmap::TextMap;
use vstd::prelude::*;
use vstd::string::*;

verus! {

pub const CACHE_FILE: &'static str = "ref-cache-v1.json";

/// Bounded so a runaway file cannot become a memory problem, and so the whole
/// thing stays cheap to parse on every run.
pub const MAX_ENTRIES: usize = 2_000;

pub const MAX_BYTES: u64 = 4_194_304;

/// Whether this run may read time-varying entries.
#[derive(Debug, Clone, Copy, PartialEq, Eq, Structural)]
pub enum Mode {
    /// Ordinary read-only inspection: both caches are live.
    Use,
    /// A refresh was demanded, or something is about to mutate. Immutable
    /// compare answers are still used, but every ref is resolved again.
    Fresh,
}

#[derive(Debug)]
pub struct Entry {
    pub value: String,
    pub unix_seconds: u64,
}

/// A saved answer and when it was saved.
pub struct Saved {
    pub value: Seq<char>,
    pub unix_seconds: u64,
}

impl View for Entry {
    type V = Saved;

    open spec fn view(&self) -> Saved {
        Saved { value: self.value@, unix_seconds: self.unix_seconds }
    }
}

impl Clone for Entry {
    fn clone(&self) -> (r: Self)
        ensures
            r == *self,
    {
        Entry { value: self.value.clone(), unix_seconds: self.unix_seconds }
    }
}

/// What is kept between runs.
#[derive(Debug)]
pub struct Disk {
    /// Ref to resolved commit: varies in time, expires.
    pub refs: TextMap<Entry>,
    /// Pair of commits to relation: immutable, never expires.
    pub compares: TextMap<Entry>,
}

/// The answers in a map of entries.
pub open spec fn answers(entries: Map<Seq<char>, Entry>) -> Map<Seq<char>, Saved> {
    entries.map_values(|entry: Entry| entry@)
}

/// A read-only snapshot plus the answers this run produced.
#[derive(Debug)]
pub struct RefCache {
    disk: Disk,
    fresh: Disk,
    mode: Mode,
    ttl_seconds: u64,
    enabled: bool,
}

/// Where the cache lies.
pub fn path(config_dir: &str) -> (r: Location)
    ensures
        r.is(config_dir@, seq![CACHE_FILE@]),
{
    let r = Location::at(config_dir).join(CACHE_FILE);
    assert(text::texts(r.components@) =~= seq![CACHE_FILE@]);
    r
}

/// A file of this size is read; a larger one is taken for corrupt.
pub fn readable_size(bytes: u64) -> (r: bool)
    ensures
        r == (bytes <= MAX_BYTES),
{
    bytes <= MAX_BYTES
}

/// What looking for the file came to.
#[derive(Debug)]
pub enum CacheFile {
    /// It is not there, or cannot be looked at.
    Missing,
    /// Whether it is a regular file, its length, and what it parsed to; an error
    /// where it could not be read or is not what was written.
    Found { regular: bool, bytes: u64, parsed: Result<Disk, String> },
}

/// What a file holds, where it can be used.
pub open spec fn usable(file: CacheFile) -> Option<Disk> {
    match file {
        CacheFile::Found { regular, bytes, parsed: Ok(disk) } => if regular && bytes <= MAX_BYTES {
            Some(disk)
        } else {
            None
        },
        _ => None,
    }
}

/// A ref answer may be reused: it was saved, not in the future, and not longer
/// ago than the time to live.
pub open spec fn live_ref(
    refs: Map<Seq<char>, Saved>,
    mode: Mode,
    ttl_seconds: u64,
    key: Seq<char>,
    now: u64,
) -> Option<Seq<char>> {
    if mode == Mode::Use && ttl_seconds > 0 && refs.contains_key(key) && refs[key].unix_seconds
        <= now && now - refs[key].unix_seconds <= ttl_seconds {
        Some(refs[key].value)
    } else {
        None
    }
}

pub open spec fn value_in(entries: Map<Seq<char>, Saved>, key: Seq<char>) -> Option<Seq<char>> {
    if entries.contains_key(key) {
        Some(entries[key].value)
    } else {
        None
    }
}

/// Of two saved answers the first goes before the second: it is older, or as
/// old and its key comes first.
pub open spec fn goes_first(
    entries: Map<Seq<char>, Saved>,
    first: Seq<char>,
    second: Seq<char>,
) -> bool {
    entries[first].unix_seconds < entries[second].unix_seconds || (entries[first].unix_seconds
        == entries[second].unix_seconds && text::precedes(first, second))
}

/// What is written back: this run's answers over the loaded ones, where it has any.
pub open spec fn written(
    saved_refs: Map<Seq<char>, Saved>,
    fresh_refs: Map<Seq<char>, Saved>,
    saved_compares: Map<Seq<char>, Saved>,
    fresh_compares: Map<Seq<char>, Saved>,
    r: Option<Disk>,
) -> bool {
    let nothing = fresh_refs == Map::<Seq<char>, Saved>::empty() && fresh_compares == Map::<
        Seq<char>,
        Saved,
    >::empty();
    match r {
        None => nothing,
        Some(disk) => {
            &&& !nothing
            &&& is_pruned(merged(saved_refs, fresh_refs), answers(disk.refs@))
            &&& is_pruned(merged(saved_compares, fresh_compares), answers(disk.compares@))
        },
    }
}

/// What a cache holds once a file was loaded.
pub open spec fn opened(
    file: CacheFile,
    refs: Map<Seq<char>, Saved>,
    compares: Map<Seq<char>, Saved>,
) -> bool {
    match usable(file) {
        Some(d) => refs == answers(d.refs@) && compares == answers(d.compares@),
        None => refs == Map::<Seq<char>, Saved>::empty() && compares == Map::<
            Seq<char>,
            Saved,
        >::empty(),
    }
}

/// `after` is `before` without the oldest entries beyond the bound.
pub open spec fn is_pruned(before: Map<Seq<char>, Saved>, after: Map<Seq<char>, Saved>) -> bool {
    if before.dom().len() <= MAX_ENTRIES {
        after == before
    } else {
        &&& after.dom().len() == MAX_ENTRIES
        &&& after.dom().subset_of(before.dom())
        &&& forall|key: Seq<char>| #[trigger] after.contains_key(key) ==> after[key] == before[key]
        &&& forall|gone: Seq<char>, kept: Seq<char>|
            #![trigger before.contains_key(gone), after.contains_key(kept)]
            before.contains_key(gone) && !after.contains_key(gone) && after.contains_key(kept)
                ==> goes_first(before, gone, kept)
    }
}

/// Drops the oldest entries once the map outgrows its bound.
pub fn prune(entries: &mut TextMap<Entry>)
    ensures
        is_pruned(answers(old(entries)@), answers(final(entries)@)),
{
    let n = entries.len();
    let ghost before = entries@;
    let ghost keys = entries.keys();
    let ghost values = entries.values();
    assert(answers(before).dom() =~= before.dom());
    if n <= MAX_ENTRIES {
        return;
    }
    let ghost leq = |i: int, j: int| values[i].unix_seconds <= values[j].unix_seconds;
    let whole: &TextMap<Entry> = &*entries;
    let le = |i: usize, j: usize| -> (b: bool)
        requires
            i < whole.keys().len(),
            j < whole.keys().len(),
        ensures
            b == (whole.values()[i as int].unix_seconds <= whole.values()[j as int].unix_seconds),
        { whole.value_at(i).unix_seconds <= whole.value_at(j).unix_seconds };
    let by_age = order::sort_positions(n, &le, Ghost(leq));
    let surplus: usize = n - MAX_ENTRIES;
    let mut gone: Vec<String> = Vec::new();
    let mut k: usize = 0;
    while k < surplus
        invariant
            k <= surplus,
            surplus <= by_age.len(),
            by_age.len() == whole.keys().len(),
            keys == whole.keys(),
            forall|i: int| 0 <= i < by_age.len() ==> #[trigger] by_age@[i] < keys.len(),
            gone.len() == k,
            forall|i: int| 0 <= i < k ==> (#[trigger] gone@[i])@ == keys[by_age@[i] as int],
        decreases surplus - k,
    {
        gone.push(whole.key_at(by_age[k]).clone());
        k = k + 1;
    }
    proof {
        order::lemma_order_distinct(by_age@, leq, n as nat);
        assert forall|a: int, b: int| 0 <= a < b < keys.len() implies #[trigger] keys[a]
            != #[trigger] keys[b] by {
            assert(text::precedes(keys[a], keys[b]));
            text::lemma_precedes_total(keys[a], keys[b]);
        }
    }
    let mut k: usize = 0;
    while k < gone.len()
        invariant
            k <= gone.len(),
            before.dom().finite(),
            before.dom().len() == n,
            keys.len() == n,
            gone.len() <= n,
            by_age.len() == n,
            by_age@.no_duplicates(),
            forall|i: int| 0 <= i < by_age.len() ==> #[trigger] by_age@[i] < n,
            forall|a: int, b: int|
                0 <= a < b < keys.len() ==> #[trigger] keys[a] != #[trigger] keys[b],
            forall|i: int|
                0 <= i < gone.len() ==> (#[trigger] gone@[i])@ == keys[by_age@[i] as int],
            forall|i: int| 0 <= i < keys.len() ==> before.contains_key(#[trigger] keys[i]),
            entries@.dom().finite(),
            entries@.dom().len() == n - k,
            entries@.submap_of(before),
            forall|i: int|
                0 <= i < n ==> (entries@.contains_key(keys[(#[trigger] by_age@[i]) as int])
                    <==> i >= k),
        decreases gone.len() - k,
    {
        let ghost earlier = entries@;
        assert(gone@[k as int]@ == keys[by_age@[k as int] as int]);
        assert(earlier.contains_key(keys[by_age@[k as int] as int]));
        entries.remove(gone[k].as_str());
        proof {
            assert forall|i: int| 0 <= i < n implies (entries@.contains_key(
                keys[(#[trigger] by_age@[i]) as int],
            ) <==> i >= k + 1) by {
                if i != k {
                    assert(by_age@[i] != by_age@[k as int]);
                    let a = by_age@[i] as int;
                    let b = by_age@[k as int] as int;
                    if a < b {
                        assert(keys[a] != keys[b]);
                    } else {
                        assert(keys[b] != keys[a]);
                    }
                }
            }
        }
        k = k + 1;
    }
    proof {
        let b = answers(before);
        let a = answers(entries@);
        assert(a.dom() =~= entries@.dom());
        assert forall|key: Seq<char>| #[trigger] a.contains_key(key) implies a[key] == b[key] by {
            assert(entries@.contains_key(key));
            assert(entries@[key] == before[key]);
        }
        assert forall|out: Seq<char>, kept: Seq<char>|
            #![trigger b.contains_key(out), a.contains_key(kept)]
            b.contains_key(out) && !a.contains_key(out) && a.contains_key(kept) implies goes_first(
            b,
            out,
            kept,
        ) by {
            assert(before.contains_key(out));
            assert(before.contains_key(kept)) by {
                assert(entries@.contains_key(kept));
            }
            assert(keys.contains(out) && keys.contains(kept));
            let x = keys.index_of(out);
            let y = keys.index_of(kept);
            assert(keys[x] == out && keys[y] == kept);
            assert(by_age@.contains(x as usize) && by_age@.contains(y as usize));
            let p = by_age@.index_of(x as usize);
            let q = by_age@.index_of(y as usize);
            assert(by_age@[p] == x && by_age@[q] == y);
            assert(p < k <= q);
            assert(order::belongs_before(leq, by_age@[p] as int, by_age@[q] as int));
            assert(before[keys[x]] == values[x]);
            assert(before[keys[y]] == values[y]);
            if values[x].unix_seconds == values[y].unix_seconds {
                assert(x < y);
                assert(text::precedes(keys[x], keys[y]));
            }
        }
    }
}

impl Disk {
    pub fn empty() -> (r: Disk)
        ensures
            r.refs@ == Map::<Seq<char>, Entry>::empty(),
            r.compares@ == Map::<Seq<char>, Entry>::empty(),
    {
        Disk { refs: TextMap::new(), compares: TextMap::new() }
    }
}

/// The newer answers laid over the older ones.
pub open spec fn merged(older: Map<Seq<char>, Saved>, newer: Map<Seq<char>, Saved>) -> Map<
    Seq<char>,
    Saved,
> {
    older.union_prefer_right(newer)
}

fn merge(older: &TextMap<Entry>, newer: &TextMap<Entry>) -> (r: TextMap<Entry>)
    ensures
        answers(r@) == merged(answers(older@), answers(newer@)),
{
    let mut out: TextMap<Entry> = TextMap::new();
    let n = older.len();
    let mut i: usize = 0;
    while i < n
        invariant
            i <= n,
            n == older.keys().len(),
            n == older.values().len(),
            forall|k: int|
                0 <= k < n ==> older@.contains_key(#[trigger] older.keys()[k])
                    && older@[older.keys()[k]] == older.values()[k],
            out@.submap_of(older@),
            forall|k: int| 0 <= k < i ==> out@.contains_key(#[trigger] older.keys()[k]),
        decreases n - i,
    {
        let key = older.key_at(i).clone();
        let value = older.value_at(i).clone();
        let ghost before = out@;
        out.insert(key, value);
        proof {
            assert(older@[key@] == value);
            assert forall|k: Seq<char>| #[trigger] out@.contains_key(k) implies older@.contains_key(
                k,
            ) && older@[k] == out@[k] by {
                if k != key@ {
                    assert(before.contains_key(k));
                }
            }
            assert(out@.submap_of(older@));
        }
        i = i + 1;
    }
    proof {
        assert forall|key: Seq<char>| older@.contains_key(key) implies #[trigger] out@.contains_key(
            key,
        ) by {
            assert(older.keys().contains(key));
            let k = older.keys().index_of(key);
            assert(older.keys()[k] == key);
        }
        assert(out@ =~= older@);
    }
    let m = newer.len();
    let mut i: usize = 0;
    while i < m
        invariant
            i <= m,
            m == newer.keys().len(),
            m == newer.values().len(),
            forall|k: int|
                0 <= k < m ==> newer@.contains_key(#[trigger] newer.keys()[k])
                    && newer@[newer.keys()[k]] == newer.values()[k],
            forall|key: Seq<char>| #[trigger]
                out@.contains_key(key) ==> older@.contains_key(key) || newer@.contains_key(key),
            forall|key: Seq<char>| #[trigger] older@.contains_key(key) ==> out@.contains_key(key),
            forall|key: Seq<char>| #[trigger]
                out@.contains_key(key) ==> (newer@.contains_key(key) && out@[key] == newer@[key])
                    || (older@.contains_key(key) && out@[key] == older@[key]),
            forall|k: int|
                0 <= k < i ==> out@.contains_key(#[trigger] newer.keys()[k])
                    && out@[newer.keys()[k]] == newer@[newer.keys()[k]],
        decreases m - i,
    {
        let key = newer.key_at(i).clone();
        let value = newer.value_at(i).clone();
        out.insert(key, value);
        i = i + 1;
    }
    proof {
        let a = answers(out@);
        let b = merged(answers(older@), answers(newer@));
        assert forall|key: Seq<char>| newer@.contains_key(key) implies #[trigger] out@.contains_key(
            key,
        ) && out@[key] == newer@[key] by {
            assert(newer.keys().contains(key));
            let k = newer.keys().index_of(key);
            assert(newer.keys()[k] == key);
        }
        assert(a.dom() =~= b.dom());
        assert(a =~= b);
    }
    out
}

impl RefCache {
    pub closed spec fn saved_refs(self) -> Map<Seq<char>, Saved> {
        answers(self.disk.refs@)
    }

    pub closed spec fn saved_compares(self) -> Map<Seq<char>, Saved> {
        answers(self.disk.compares@)
    }

    pub closed spec fn fresh_refs(self) -> Map<Seq<char>, Saved> {
        answers(self.fresh.refs@)
    }

    pub closed spec fn fresh_compares(self) -> Map<Seq<char>, Saved> {
        answers(self.fresh.compares@)
    }

    pub closed spec fn mode(self) -> Mode {
        self.mode
    }

    pub closed spec fn ttl(self) -> u64 {
        self.ttl_seconds
    }

    pub closed spec fn stores(self) -> bool {
        self.enabled
    }

    /// What stays the same while answers are stored.
    pub open spec fn same_snapshot(self, other: RefCache) -> bool {
        self.saved_refs() == other.saved_refs() && self.saved_compares() == other.saved_compares()
            && self.mode() == other.mode() && self.ttl() == other.ttl() && self.stores()
            == other.stores()
    }

    /// The cache for this run. A file that is missing, no regular one, too large
    /// or not parsable is simply an empty cache: nothing depends on it.
    pub fn load(file: CacheFile, mode: Mode, ttl_seconds: u64) -> (r: RefCache)
        ensures
            opened(file, r.saved_refs(), r.saved_compares()),
            r.fresh_refs() == Map::<Seq<char>, Saved>::empty(),
            r.fresh_compares() == Map::<Seq<char>, Saved>::empty(),
            r.mode() == mode,
            r.ttl() == ttl_seconds,
            r.stores(),
    {
        let disk = match file {
            CacheFile::Found { regular, bytes, parsed: Ok(disk) } => if regular && readable_size(
                bytes,
            ) {
                disk
            } else {
                Disk::empty()
            },
            _ => Disk::empty(),
        };
        assert(answers(Map::<Seq<char>, Entry>::empty()) =~= Map::<Seq<char>, Saved>::empty());
        RefCache { disk, fresh: Disk::empty(), mode, ttl_seconds, enabled: true }
    }

    /// A cache that never hits and never stores, for callers with nowhere to
    /// put one.
    pub fn disabled() -> (r: RefCache)
        ensures
            r.saved_refs() == Map::<Seq<char>, Saved>::empty(),
            r.saved_compares() == Map::<Seq<char>, Saved>::empty(),
            r.fresh_refs() == Map::<Seq<char>, Saved>::empty(),
            r.fresh_compares() == Map::<Seq<char>, Saved>::empty(),
            r.mode() == Mode::Fresh,
            r.ttl() == 0,
            !r.stores(),
    {
        assert(answers(Map::<Seq<char>, Entry>::empty()) =~= Map::<Seq<char>, Saved>::empty());
        RefCache {
            disk: Disk::empty(),
            fresh: Disk::empty(),
            mode: Mode::Fresh,
            ttl_seconds: 0,
            enabled: false,
        }
    }

    /// The resolved commit of a ref, if it was saved recently enough.
    pub fn remote_ref(&self, key: &str) -> (r: Option<String>)
        ensures
            exists|now: u64|
                text::opt_text(r) == #[trigger] live_ref(
                    self.saved_refs(),
                    self.mode(),
                    self.ttl(),
                    key@,
                    now,
                ),
    {
        let now = clock::now();
        self.remote_ref_at(key, now)
    }

    pub fn remote_ref_at(&self, key: &str, now: u64) -> (r: Option<String>)
        ensures
            text::opt_text(r) == live_ref(
                self.saved_refs(),
                self.mode(),
                self.ttl(),
                key@,
                now,
            ),
    {
        if self.mode == Mode::Fresh || self.ttl_seconds == 0 {
            return None;
        }
        match self.disk.refs.get(key) {
            None => None,
            // A future timestamp means the clock moved; it counts as expired
            // rather than being trusted for however long the skew lasts.
            Some(entry) => if entry.unix_seconds <= now && now - entry.unix_seconds
                <= self.ttl_seconds {
                Some(entry.value.clone())
            } else {
                None
            },
        }
    }

    pub fn store_remote_ref(&mut self, key: &str, sha: &str)
        ensures
            exists|now: u64| #[trigger]
                ref_stored(*old(self), *final(self), key@, sha@, now),
    {
        let now = clock::now();
        self.store_remote_ref_at(key, sha, now);
    }

    pub fn store_remote_ref_at(&mut self, key: &str, sha: &str, now: u64)
        ensures
            ref_stored(*old(self), *final(self), key@, sha@, now),
    {
        if self.ttl_seconds == 0 || !self.enabled {
            return;
        }
        let ghost before = self.fresh.refs@;
        let entry = Entry { value: sha.to_string(), unix_seconds: now };
        let ghost e = entry;
        self.fresh.refs.insert(key.to_string(), entry);
        assert(answers(before.insert(key@, e)) =~= answers(before).insert(key@, e@));
    }

    /// The relation between two commits. Never expires: the ancestry between
    /// two immutable commits cannot change later.
    pub fn compare(&self, key: &str) -> (r: Option<String>)
        ensures
            text::opt_text(r) == value_in(self.saved_compares(), key@),
    {
        match self.disk.compares.get(key) {
            Some(entry) => Some(entry.value.clone()),
            None => None,
        }
    }

    pub fn store_compare(&mut self, key: &str, relation: &str)
        ensures
            exists|now: u64| #[trigger]
                compare_stored(*old(self), *final(self), key@, relation@, now),
    {
        let now = clock::now();
        self.store_compare_at(key, relation, now);
    }

    pub fn store_compare_at(&mut self, key: &str, relation: &str, now: u64)
        ensures
            compare_stored(*old(self), *final(self), key@, relation@, now),
    {
        if !self.enabled {
            return;
        }
        let ghost before = self.fresh.compares@;
        let entry = Entry { value: relation.to_string(), unix_seconds: now };
        let ghost e = entry;
        self.fresh.compares.insert(key.to_string(), entry);
        assert(answers(before.insert(key@, e)) =~= answers(before).insert(key@, e@));
    }

    /// What is to be written: this run's answers over the loaded ones, within
    /// the bound; `None` where this run produced none.
    pub fn persist(&self) -> (r: Option<Disk>)
        ensures
            written(
                self.saved_refs(),
                self.fresh_refs(),
                self.saved_compares(),
                self.fresh_compares(),
                r,
            ),
    {
        if self.fresh.refs.len() == 0 && self.fresh.compares.len() == 0 {
            assert(answers(self.fresh.refs@) =~= Map::<Seq<char>, Saved>::empty());
            assert(answers(self.fresh.compares@) =~= Map::<Seq<char>, Saved>::empty());
            return None;
        }
        proof {
            if self.fresh.refs.keys().len() > 0 {
                let key = self.fresh.refs.keys()[0];
                assert(self.fresh.refs@.contains_key(key));
                assert(self.fresh_refs().contains_key(key));
            } else {
                let key = self.fresh.compares.keys()[0];
                assert(self.fresh.compares@.contains_key(key));
                assert(self.fresh_compares().contains_key(key));
            }
        }
        let mut refs = merge(&self.disk.refs, &self.fresh.refs);
        let mut compares = merge(&self.disk.compares, &self.fresh.compares);
        prune(&mut refs);
        prune(&mut compares);
        Some(Disk { refs, compares })
    }
}

/// A ref answer was stored: only where refs are cached at all.
pub open spec fn ref_stored(
    before: RefCache,
    after: RefCache,
    key: Seq<char>,
    sha: Seq<char>,
    now: u64,
) -> bool {
    &&& after.same_snapshot(before)
    &&& after.fresh_compares() == before.fresh_compares()
    &&& after.fresh_refs() == if before.ttl() > 0 && before.stores() {
        before.fresh_refs().insert(key, Saved { value: sha, unix_seconds: now })
    } else {
        before.fresh_refs()
    }
}

/// A comparison was stored.
pub open spec fn compare_stored(
    before: RefCache,
    after: RefCache,
    key: Seq<char>,
    relation: Seq<char>,
    now: u64,
) -> bool {
    &&& after.same_snapshot(before)
    &&& after.fresh_refs() == before.fresh_refs()
    &&& after.fresh_compares() == if before.stores() {
        before.fresh_compares().insert(key, Saved { value: relation, unix_seconds: now })
    } else {
        before.fresh_compares()
    }
}

/// What is read back is what was stored: a comparison stored in one run and
/// written out is found again by a later run, whatever the mode and the time
/// to live of that run, unless the bound was outgrown and everything kept is
/// newer.
pub proof fn law_stored_compare_is_found(
    before: RefCache,
    after: RefCache,
    key: Seq<char>,
    relation: Seq<char>,
    now: u64,
    written: Map<Seq<char>, Saved>,
)
    requires
        before.stores(),
        compare_stored(before, after, key, relation, now),
        is_pruned(merged(after.saved_compares(), after.fresh_compares()), written),
    ensures
        ({
            let all = merged(after.saved_compares(), after.fresh_compares());
            value_in(written, key) == Some(relation) || (written.dom().len() == MAX_ENTRIES
                && forall|kept: Seq<char>| #[trigger]
                written.contains_key(kept) ==> goes_first(all, key, kept))
        }),
{
    let all = merged(after.saved_compares(), after.fresh_compares());
    assert(all.contains_key(key));
    assert(all[key].value == relation);
}

/// The same for a ref, as long as it has not expired.
pub proof fn law_stored_ref_is_found(
    before: RefCache,
    after: RefCache,
    key: Seq<char>,
    sha: Seq<char>,
    saved_at: u64,
    written: Map<Seq<char>, Saved>,
    ttl_seconds: u64,
    now: u64,
)
    requires
        before.stores(),
        before.ttl() > 0,
        ref_stored(before, after, key, sha, saved_at),
        is_pruned(merged(after.saved_refs(), after.fresh_refs()), written),
        saved_at <= now,
        now - saved_at <= ttl_seconds,
        ttl_seconds > 0,
    ensures
        ({
            let all = merged(after.saved_refs(), after.fresh_refs());
            live_ref(written, Mode::Use, ttl_seconds, key, now) == Some(sha) || (
            written.dom().len() == MAX_ENTRIES && forall|kept: Seq<char>| #[trigger]
                written.contains_key(kept) ==> goes_first(all, key, kept))
        }),
{
    let all = merged(after.saved_refs(), after.fresh_refs());
    assert(all.contains_key(key));
    assert(all[key] == Saved { value: sha, unix_seconds: saved_at });
}

/// A ref answer expires, and is never used when a fresh one is demanded or
/// when the time to live is zero.
pub proof fn law_refs_expire(
    refs: Map<Seq<char>, Saved>,
    ttl_seconds: u64,
    key: Seq<char>,
    now: u64,
)
    ensures
        live_ref(refs, Mode::Fresh, ttl_seconds, key, now) is None,
        live_ref(refs, Mode::Use, 0, key, now) is None,
        refs.contains_key(key) && now > refs[key].unix_seconds + ttl_seconds ==> live_ref(
            refs,
            Mode::Use,
            ttl_seconds,
            key,
            now,
        ) is None,
        refs.contains_key(key) && now < refs[key].unix_seconds ==> live_ref(
            refs,
            Mode::Use,
            ttl_seconds,
            key,
            now,
        ) is None,
{
}

// ---------------------------------------------------------------------------
// Keys

pub open spec fn ref_key_text(
    owner: Seq<char>,
    repo: Seq<char>,
    reference: Option<Seq<char>>,
) -> Seq<char> {
    owner + "/"@ + repo + "@"@ + match reference {
        Some(name) => name,
        None => "HEAD"@,
    }
}

pub open spec fn compare_key_text(
    owner: Seq<char>,
    repo: Seq<char>,
    installed: Seq<char>,
    remote: Seq<char>,
) -> Seq<char> {
    owner + "/"@ + repo + ":"@ + installed + "..."@ + remote
}

/// The key of a ref lookup. Holds the ref so a repository tracked at two refs
/// does not collide.
pub fn ref_key(owner: &str, repo: &str, reference: Option<&str>) -> (r: String)
    ensures
        r@ == ref_key_text(owner@, repo@, text::opt_str(reference)),
{
    let name = match reference {
        Some(name) => name,
        None => "HEAD",
    };
    owner.to_string().concat("/").concat(repo).concat("@").concat(name)
}

/// The key of a comparison. Both ends are full commits, which is what makes
/// the answer permanent.
pub fn compare_key(owner: &str, repo: &str, installed: &str, remote: &str) -> (r: String)
    ensures
        r@ == compare_key_text(owner@, repo@, installed@, remote@),
{
    owner.to_string().concat("/").concat(repo).concat(":").concat(installed).concat("...").concat(
        remote,
    )
}

/// What stands before the first `c` and what stands behind it are determined
/// by the whole.
proof fn lemma_cut_unique(a: Seq<char>, b: Seq<char>, x: Seq<char>, y: Seq<char>, c: char)
    requires
        a + seq![c] + b == x + seq![c] + y,
        !a.contains(c),
        !x.contains(c),
    ensures
        a == x,
        b == y,
{
    let whole = a + seq![c] + b;
    let other = x + seq![c] + y;
    if a.len() < x.len() {
        assert(whole[a.len() as int] == c);
        assert(other[a.len() as int] == x[a.len() as int]);
    }
    if x.len() < a.len() {
        assert(other[x.len() as int] == c);
        assert(whole[x.len() as int] == a[x.len() as int]);
    }
    assert(a =~= x) by {
        assert forall|i: int| 0 <= i < a.len() implies a[i] == x[i] by {
            assert(whole[i] == a[i]);
            assert(other[i] == x[i]);
        }
    }
    assert(whole.len() == a.len() + 1 + b.len());
    assert(other.len() == x.len() + 1 + y.len());
    assert(b =~= y) by {
        assert forall|i: int| 0 <= i < b.len() implies b[i] == y[i] by {
            assert(whole[a.len() + 1 + i] == b[i]);
            assert(other[x.len() + 1 + i] == y[i]);
        }
    }
}

/// Keys of refs separate owners, repositories and refs.
pub proof fn law_ref_keys_separate(
    owner: Seq<char>,
    repo: Seq<char>,
    reference: Option<Seq<char>>,
    other_owner: Seq<char>,
    other_repo: Seq<char>,
    other_reference: Option<Seq<char>>,
)
    requires
        !owner.contains('/') && !other_owner.contains('/'),
        !repo.contains('@') && !other_repo.contains('@'),
        ref_key_text(owner, repo, reference) == ref_key_text(
            other_owner,
            other_repo,
            other_reference,
        ),
    ensures
        owner == other_owner,
        repo == other_repo,
        reference == other_reference || (reference is None && other_reference == Some("HEAD"@))
            || (other_reference is None && reference == Some("HEAD"@)),
{
    reveal_strlit("/");
    reveal_strlit("@");
    assert("/"@ =~= seq!['/']);
    assert("@"@ =~= seq!['@']);
    let name = match reference {
        Some(name) => name,
        None => "HEAD"@,
    };
    let other_name = match other_reference {
        Some(name) => name,
        None => "HEAD"@,
    };
    let rest = repo + seq!['@'] + name;
    let other_rest = other_repo + seq!['@'] + other_name;
    assert(ref_key_text(owner, repo, reference) =~= owner + seq!['/'] + rest);
    assert(ref_key_text(other_owner, other_repo, other_reference) =~= other_owner + seq!['/']
        + other_rest);
    lemma_cut_unique(owner, rest, other_owner, other_rest, '/');
    lemma_cut_unique(repo, name, other_repo, other_name, '@');
}

/// Keys of comparisons separate owners, repositories and ordered pairs of
/// commits.
pub proof fn law_compare_keys_separate(
    owner: Seq<char>,
    repo: Seq<char>,
    installed: Seq<char>,
    remote: Seq<char>,
    other_owner: Seq<char>,
    other_repo: Seq<char>,
    other_installed: Seq<char>,
    other_remote: Seq<char>,
)
    requires
        !owner.contains('/') && !other_owner.contains('/'),
        !repo.contains(':') && !other_repo.contains(':'),
        !installed.contains('.') && !other_installed.contains('.'),
        compare_key_text(owner, repo, installed, remote) == compare_key_text(
            other_owner,
            other_repo,
            other_installed,
            other_remote,
        ),
    ensures
        owner == other_owner,
        repo == other_repo,
        installed == other_installed,
        remote == other_remote,
{
    reveal_strlit("/");
    reveal_strlit(":");
    reveal_strlit("...");
    assert("/"@ =~= seq!['/']);
    assert(":"@ =~= seq![':']);
    assert("..."@ =~= seq!['.', '.', '.']);
    let tail = seq!['.', '.'] + remote;
    let other_tail = seq!['.', '.'] + other_remote;
    let pair = installed + seq!['.'] + tail;
    let other_pair = other_installed + seq!['.'] + other_tail;
    let rest = repo + seq![':'] + pair;
    let other_rest = other_repo + seq![':'] + other_pair;
    assert(compare_key_text(owner, repo, installed, remote) =~= owner + seq!['/'] + rest);
    assert(compare_key_text(other_owner, other_repo, other_installed, other_remote)
        =~= other_owner + seq!['/'] + other_rest);
    lemma_cut_unique(owner, rest, other_owner, other_rest, '/');
    lemma_cut_unique(repo, pair, other_repo, other_pair, ':');
    lemma_cut_unique(installed, tail, other_installed, other_tail, '.');
    assert(tail.skip(2) =~= remote);
    assert(other_tail.skip(2) =~= other_remote);
}

/// A ref is answered from the cache exactly where the cache may be used, the
/// answer was saved, and it is not older than its time to live; and the answer
/// is the one that was saved.
pub proof fn law_live_answers_are_used(
    refs: Map<Seq<char>, Saved>,
    mode: Mode,
    ttl_seconds: u64,
    key: Seq<char>,
    now: u64,
)
    ensures
        live_ref(refs, mode, ttl_seconds, key, now) is Some <==> mode == Mode::Use && ttl_seconds > 0
            && refs.contains_key(key) && refs[key].unix_seconds <= now && now
            <= refs[key].unix_seconds + ttl_seconds,
        live_ref(refs, mode, ttl_seconds, key, now) matches Some(sha) ==> sha == refs[key].value,
{
}

/// A comparison of two commits is answered whenever it was saved, however long
/// ago.
pub proof fn law_comparisons_never_expire(entries: Map<Seq<char>, Saved>, key: Seq<char>)
    ensures
        value_in(entries, key) is Some <==> entries.contains_key(key),
        value_in(entries, key) matches Some(value) ==> value == entries[key].value,
{
}

/// What a run learnt replaces what was known, and what it did not ask for stays.
pub proof fn law_newer_answers_win(
    older: Map<Seq<char>, Saved>,
    newer: Map<Seq<char>, Saved>,
    key: Seq<char>,
)
    ensures
        newer.contains_key(key) ==> merged(older, newer).contains_key(key) && merged(older, newer)[key]
            == newer[key],
        !newer.contains_key(key) && older.contains_key(key) ==> merged(older, newer).contains_key(key)
            && merged(older, newer)[key] == older[key],
        !newer.contains_key(key) && !older.contains_key(key) ==> !merged(older, newer).contains_key(
            key,
        ),
{
}

/// The cache stays within its bound by giving up its oldest answers: nothing
/// that is dropped is newer than anything that is kept, and what is kept stays
/// as it was.
pub proof fn law_oldest_answers_go(
    before: Map<Seq<char>, Saved>,
    after: Map<Seq<char>, Saved>,
    gone: Seq<char>,
    kept: Seq<char>,
)
    requires
        is_pruned(before, after),
    ensures
        after.dom().len() <= 2_000,
        before.contains_key(gone) && !after.contains_key(gone) && after.contains_key(kept)
            ==> before[gone].unix_seconds <= before[kept].unix_seconds && before.dom().len() > 2_000,
        after.contains_key(kept) ==> before.contains_key(kept) && after[kept] == before[kept],
        before.dom().len() <= 2_000 ==> after == before,
{
    if after.contains_key(kept) && before.dom().len() > MAX_ENTRIES {
        assert(after.dom().contains(kept));
        assert(before.dom().contains(kept));
    }
}

/// A cache file is used only as a regular file of a bounded size that parsed;
/// then all of it is.
pub proof fn law_only_sound_files_are_used(file: CacheFile)
    ensures
        usable(file) is Some <==> (file matches CacheFile::Found { regular, bytes, parsed }
            && regular && bytes <= 4_194_304 && parsed is Ok),
        file matches CacheFile::Found { regular: true, bytes, parsed: Ok(disk) } ==> bytes
            <= 4_194_304 ==> usable(file) == Some(disk),
{
}

/// What one run stored, the next one finds: an answer that is written back is in
/// the cache that is loaded from it, with its time, as long as the bound is kept.
pub proof fn law_stored_answers_are_found_again(
    saved_refs: Map<Seq<char>, Saved>,
    fresh_refs: Map<Seq<char>, Saved>,
    saved_compares: Map<Seq<char>, Saved>,
    fresh_compares: Map<Seq<char>, Saved>,
    disk: Disk,
    bytes: u64,
    refs: Map<Seq<char>, Saved>,
    compares: Map<Seq<char>, Saved>,
    key: Seq<char>,
)
    requires
        written(saved_refs, fresh_refs, saved_compares, fresh_compares, Some(disk)),
        bytes <= 4_194_304,
        opened((CacheFile::Found { regular: true, bytes, parsed: Ok(disk) }), refs, compares),
        merged(saved_refs, fresh_refs).dom().len() <= 2_000,
        merged(saved_compares, fresh_compares).dom().len() <= 2_000,
    ensures
        fresh_refs.contains_key(key) ==> refs.contains_key(key) && refs[key] == fresh_refs[key],
        !fresh_refs.contains_key(key) && saved_refs.contains_key(key) ==> refs.contains_key(key)
            && refs[key] == saved_refs[key],
        fresh_compares.contains_key(key) ==> compares.contains_key(key) && compares[key]
            == fresh_compares[key],
        !fresh_compares.contains_key(key) && saved_compares.contains_key(key)
            ==> compares.contains_key(key) && compares[key] == saved_compares[key],
{
}

/// Nothing is written where a run has no new answer, and something is where it
/// has one.
pub proof fn law_only_new_answers_are_written(
    saved_refs: Map<Seq<char>, Saved>,
    fresh_refs: Map<Seq<char>, Saved>,
    saved_compares: Map<Seq<char>, Saved>,
    fresh_compares: Map<Seq<char>, Saved>,
    r: Option<Disk>,
    key: Seq<char>,
)
    requires
        written(saved_refs, fresh_refs, saved_compares, fresh_compares, r),
    ensures
        fresh_refs.contains_key(key) || fresh_compares.contains_key(key) ==> r is Some,
        fresh_refs == Map::<Seq<char>, Saved>::empty() && fresh_compares == Map::<
            Seq<char>,
            Saved,
        >::empty() ==> r is None,
{
}

} // verus!
