//! The `status.json` model: per-product freshness + content hash, and the
//! change-detection logic that decides whether to re-write a product to R2.

use vstd::prelude::*;

use crate::duration::{whole_millis, Duration};
use crate::schedule::Schedule;
use crate::strmap::{distinct_pairs, pairs_map, StrMap};
use crate::text::{owned, str_eq, to_hex_lower, hex_lower};

verus! {

/// Freshness and content fingerprint of one product.
#[derive(Debug, Default, PartialEq)]
pub struct StatusEntry {
    /// epoch ms — every successful download
    pub last_checked: u64,
    /// epoch ms — only when the content hash changed
    pub last_updated: u64,
    /// epoch ms — every fetch attempt, success or failure
    pub last_attempt: u64,
    /// md5 hex of the current content
    pub hash: String,
    /// bytes
    pub size: u64,
}

/// A status entry as plain values.
pub struct EntryView {
    pub last_checked: u64,
    pub last_updated: u64,
    pub last_attempt: u64,
    pub hash: Seq<char>,
    pub size: u64,
}

impl View for StatusEntry {
    type V = EntryView;

    open spec fn view(&self) -> EntryView {
        EntryView {
            last_checked: self.last_checked,
            last_updated: self.last_updated,
            last_attempt: self.last_attempt,
            hash: self.hash@,
            size: self.size,
        }
    }
}

impl StatusEntry {
    /// A copy of the entry.
    pub fn duplicate(&self) -> (e: StatusEntry)
        ensures
            e@ == self@,
    {
        StatusEntry {
            last_checked: self.last_checked,
            last_updated: self.last_updated,
            last_attempt: self.last_attempt,
            hash: self.hash.clone(),
            size: self.size,
        }
    }
}

/// The views of a map's entries.
pub open spec fn entry_views(m: Map<Seq<char>, StatusEntry>) -> Map<Seq<char>, EntryView> {
    m.map_values(|e: StatusEntry| e@)
}

/// Status of every product, keyed by object key (the content of `status.json`).
pub struct Status {
    map: StrMap<StatusEntry>,
}

impl View for Status {
    type V = Map<Seq<char>, EntryView>;

    closed spec fn view(&self) -> Map<Seq<char>, EntryView> {
        entry_views(self.map@)
    }
}

impl Status {
    /// An empty status map.
    pub fn new() -> (s: Status)
        ensures
            s@ == Map::<Seq<char>, EntryView>::empty(),
    {
        let s = Status { map: StrMap::new() };
        proof {
            assert(s@ =~= Map::<Seq<char>, EntryView>::empty());
        }
        s
    }

    /// The entry for `key`, if any.
    pub fn get(&self, key: &str) -> (r: Option<&StatusEntry>)
        ensures
            match r {
                Some(e) => self@.contains_key(key@) && e@ == self@[key@],
                None => !self@.contains_key(key@),
            },
    {
        self.map.get(key)
    }

    /// Number of keys.
    pub fn len(&self) -> (n: usize)
        ensures
            n == self@.len(),
    {
        proof {
            assert(self@.dom() =~= self.map@.dom());
        }
        self.map.len()
    }

    /// True when no key is present.
    pub fn is_empty(&self) -> (b: bool)
        ensures
            b <==> self@.dom() =~= Set::<Seq<char>>::empty(),
    {
        let ks = self.map.keys();
        proof {
            assert(self@.dom() =~= self.map@.dom());
            if ks@.len() > 0 {
                assert(self.map@.contains_key(ks@[0]@));
                assert(self@.dom().contains(ks@[0]@));
            } else {
                assert(self@.dom() =~= Set::<Seq<char>>::empty());
            }
        }
        ks.len() == 0
    }

    /// Sets the entry for `key`, replacing any earlier one.
    pub fn insert(&mut self, key: String, entry: StatusEntry)
        ensures
            final(self)@ == old(self)@.insert(key@, entry@),
    {
        let ghost kv = key@;
        let ghost ev = entry@;
        self.map.insert(key, entry);
        proof {
            assert(self@ =~= old(self)@.insert(kv, ev));
        }
    }

    /// The keys, each once.
    pub fn keys(&self) -> (ks: Vec<String>)
        ensures
            ks@.len() == self@.len(),
            forall|k: Seq<char>|
                self@.contains_key(k) <==> exists|i: int| 0 <= i < ks@.len() && #[trigger] ks@[i]@ == k,
    {
        proof {
            assert(self@.dom() =~= self.map@.dom());
        }
        self.map.keys()
    }

    /// The (key, entry) pairs, each key once.
    pub fn into_entries(self) -> (v: Vec<(String, StatusEntry)>)
        ensures
            distinct_pairs(v@),
            entry_views(pairs_map(v@)) == self@,
    {
        self.map.into_pairs()
    }
}

/// The last attempt recorded for `key`, if any.
pub open spec fn last_attempt_of(m: Map<Seq<char>, EntryView>, key: Seq<char>) -> Option<u64> {
    if m.contains_key(key) {
        Some(m[key].last_attempt)
    } else {
        None
    }
}

/// The last successful download recorded for `key`, if any.
pub open spec fn last_checked_of(m: Map<Seq<char>, EntryView>, key: Seq<char>) -> Option<u64> {
    if m.contains_key(key) {
        Some(m[key].last_checked)
    } else {
        None
    }
}

/// A download of content with hash `new_hash` changes `key`: the key is new, or
/// its stored hash differs.
pub open spec fn content_changed(m: Map<Seq<char>, EntryView>, key: Seq<char>, new_hash: Seq<char>) -> bool {
    !m.contains_key(key) || m[key].hash != new_hash
}

/// The entry after a successful download at `now_ms`: checked and attempted now,
/// the new hash and size, and updated now only when the content changed.
pub open spec fn updated_entry(
    m: Map<Seq<char>, EntryView>,
    key: Seq<char>,
    new_hash: Seq<char>,
    size: u64,
    now_ms: u64,
) -> EntryView {
    EntryView {
        last_checked: now_ms,
        last_updated: if content_changed(m, key, new_hash) {
            now_ms
        } else {
            m[key].last_updated
        },
        last_attempt: now_ms,
        hash: new_hash,
        size,
    }
}

/// The entry after a bare attempt at `now_ms`: the prior entry (or an empty one)
/// with only `last_attempt` moved.
pub open spec fn attempted_entry(m: Map<Seq<char>, EntryView>, key: Seq<char>, now_ms: u64) -> EntryView {
    if m.contains_key(key) {
        EntryView { last_attempt: now_ms, ..m[key] }
    } else {
        EntryView { last_checked: 0, last_updated: 0, last_attempt: now_ms, hash: seq![], size: 0 }
    }
}

/// Record a successful fetch. Always bumps `last_checked`; bumps `last_updated`
/// and the stored hash only when the content changed (or is new). Returns
/// `true` when the caller should write the bytes to R2 (content changed/new).
pub fn apply_update(status: &mut Status, key: &str, new_hash: &str, size: u64, now_ms: u64) -> (changed: bool)
    ensures
        changed == content_changed(old(status)@, key@, new_hash@),
        final(status)@ == old(status)@.insert(
            key@,
            updated_entry(old(status)@, key@, new_hash@, size, now_ms),
        ),
{
    let (changed, last_updated) = match status.get(key) {
        Some(prior) => {
            let changed = !str_eq(prior.hash.as_str(), new_hash);
            (changed, if changed { now_ms } else { prior.last_updated })
        },
        None => (true, now_ms),
    };
    let entry = StatusEntry {
        last_checked: now_ms,
        last_updated,
        last_attempt: now_ms,
        hash: owned(new_hash),
        size,
    };
    status.insert(owned(key), entry);
    changed
}

/// Record a fetch attempt (success or failure) without touching success fields.
pub fn record_attempt(status: &mut Status, key: &str, now_ms: u64)
    ensures
        final(status)@ == old(status)@.insert(key@, attempted_entry(old(status)@, key@, now_ms)),
{
    let entry = match status.get(key) {
        Some(prior) => {
            let mut e = prior.duplicate();
            e.last_attempt = now_ms;
            e
        },
        None => StatusEntry {
            last_checked: 0,
            last_updated: 0,
            last_attempt: now_ms,
            hash: String::new(),
            size: 0,
        },
    };
    proof {
        assert(entry@ == attempted_entry(status@, key@, now_ms));
    }
    status.insert(owned(key), entry);
}

/// True when a product should be fetched: never attempted, or its interval elapsed.
/// This is exactly an `Every(interval)` schedule counted from the last attempt.
pub fn is_due(status: &Status, key: &str, interval: Duration, now_ms: u64) -> (b: bool)
    ensures
        b == Schedule::Every(interval).due(last_attempt_of(status@, key@), now_ms),
{
    match status.get(key) {
        None => true,
        Some(e) => now_ms.saturating_sub(e.last_attempt) >= interval.as_millis() as u64,
    }
}

/// MD5 digest of `data`: 16 bytes.
pub uninterp spec fn md5_digest(data: Seq<u8>) -> Seq<u8>;

/// Calls `md5::compute`, which returns the 16-byte MD5 digest of `data`; the
/// contract names the digest and states its length (the crate's `Digest` wraps a
/// `[u8; 16]`). Nothing is claimed of the bytes beyond being that digest.
#[verifier::external_body]
fn md5_compute(data: &[u8]) -> (d: Vec<u8>)
    ensures
        d@ == md5_digest(data@),
        d@.len() == 16,
{
    md5::compute(data).0.to_vec()
}

/// md5 hex digest, used for change detection and as a copyable fingerprint.
pub fn content_hash(bytes: &[u8]) -> (h: String)
    ensures
        h@ == hex_lower(md5_digest(bytes@)),
{
    let d = md5_compute(bytes);
    to_hex_lower(d.as_slice())
}

/// Downloading the same content twice: the second download is no change, so
/// nothing is re-written, and `last_updated` keeps the first download's time.
pub proof fn lemma_same_content_is_not_rewritten(
    m: Map<Seq<char>, EntryView>,
    key: Seq<char>,
    hash: Seq<char>,
    size1: u64,
    size2: u64,
    t1: u64,
    t2: u64,
)
    ensures
        ({
            let m1 = m.insert(key, updated_entry(m, key, hash, size1, t1));
            &&& !content_changed(m1, key, hash)
            &&& updated_entry(m1, key, hash, size2, t2).last_updated == m1[key].last_updated
            &&& updated_entry(m1, key, hash, size2, t2).last_checked == t2
        }),
{
}

/// A bare attempt moves only `last_attempt`: the success fields of the key and
/// every other key's entry stay as they were.
pub proof fn lemma_attempt_keeps_success_fields(m: Map<Seq<char>, EntryView>, key: Seq<char>, now_ms: u64)
    requires
        m.contains_key(key),
    ensures
        ({
            let e = attempted_entry(m, key, now_ms);
            &&& e.last_attempt == now_ms
            &&& e.last_checked == m[key].last_checked
            &&& e.last_updated == m[key].last_updated
            &&& e.hash == m[key].hash
            &&& e.size == m[key].size
        }),
{
}

/// Right after a successful download at `now_ms`, the product is not due again
/// under a non-zero interval: the interval counts from that download.
pub proof fn lemma_not_due_right_after_update(
    m: Map<Seq<char>, EntryView>,
    key: Seq<char>,
    hash: Seq<char>,
    size: u64,
    now_ms: u64,
    interval: Duration,
)
    requires
        (whole_millis(interval@) as u64) > 0,
    ensures
        !Schedule::Every(interval).due(
            last_attempt_of(m.insert(key, updated_entry(m, key, hash, size, now_ms)), key),
            now_ms,
        ),
{
}

/// Right after a failed attempt at `now_ms`, a product on a non-zero interval is
/// not due again: a failure waits for the product's next interval.
pub proof fn lemma_not_due_right_after_attempt(
    m: Map<Seq<char>, EntryView>,
    key: Seq<char>,
    now_ms: u64,
    interval: Duration,
)
    requires
        (whole_millis(interval@) as u64) > 0,
    ensures
        !Schedule::Every(interval).due(
            last_attempt_of(m.insert(key, attempted_entry(m, key, now_ms)), key),
            now_ms,
        ),
{
}

} // verus!
