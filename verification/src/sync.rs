//! One sync pass, as decisions: what each fetch outcome does to the status map
//! and the pass summary, and which keys a changed product is written under.

use vstd::prelude::*;

use crate::keys::{alias_key, object_key, alias_key_of, object_key_of};
use crate::products::Product;
use crate::status::{
    apply_update, content_changed, content_hash, md5_digest, record_attempt, attempted_entry,
    updated_entry, Status,
};
use crate::text::{decimal, hex_lower, push_decimal};

verus! {

/// Object key of the landing page.
pub const INDEX_KEY: &'static str = "index.html";

/// Content type of the landing page.
pub const INDEX_CT: &'static str = "text/html; charset=utf-8";

/// Counts of one sync pass.
#[derive(Default, Debug, PartialEq, Eq, Structural, Clone, Copy)]
pub struct SyncSummary {
    /// successful downloads
    pub checked: u32,
    /// downloads whose content was new or changed
    pub changed: u32,
    /// failed downloads
    pub failed: u32,
}

impl SyncSummary {
    /// A pass that has processed nothing yet.
    pub fn new() -> (s: SyncSummary)
        ensures
            s == (SyncSummary { checked: 0, changed: 0, failed: 0 }),
    {
        SyncSummary { checked: 0, changed: 0, failed: 0 }
    }

    /// The error text of a pass with failures: none when nothing failed.
    pub open spec fn failure_text(self) -> Option<Seq<char>> {
        if self.failed > 0 {
            Some(
                decimal(self.failed as nat) + " fetch(es) failed (checked="@ + decimal(
                    self.checked as nat,
                ) + ", changed="@ + decimal(self.changed as nat) + ")"@,
            )
        } else {
            None
        }
    }

    /// The error a manual sync ends with when a fetch failed.
    pub fn failure_message(&self) -> (m: Option<String>)
        ensures
            match m {
                Some(s) => self.failure_text() == Some(s@),
                None => self.failure_text() is None,
            },
    {
        if self.failed > 0 {
            let mut s = String::new();
            push_decimal(&mut s, self.failed as u128);
            s.append(" fetch(es) failed (checked=");
            push_decimal(&mut s, self.checked as u128);
            s.append(", changed=");
            push_decimal(&mut s, self.changed as u128);
            s.append(")");
            proof {
                assert(s@ =~= self.failure_text()->0);
            }
            Some(s)
        } else {
            None
        }
    }
}

/// Records a successful download of `bytes` for `key` at `now_ms`: counts it as
/// checked, updates the status entry with the content's md5, and counts it as
/// changed when the content is new or differs. Returns whether the bytes must be
/// written out.
pub fn record_fetched(
    status: &mut Status,
    summary: &mut SyncSummary,
    key: &str,
    bytes: &[u8],
    now_ms: u64,
) -> (changed: bool)
    requires
        old(summary).checked < u32::MAX,
        old(summary).changed < u32::MAX,
    ensures
        changed == content_changed(old(status)@, key@, hex_lower(md5_digest(bytes@))),
        final(status)@ == old(status)@.insert(
            key@,
            updated_entry(old(status)@, key@, hex_lower(md5_digest(bytes@)), bytes@.len() as u64, now_ms),
        ),
        final(summary).checked == old(summary).checked + 1,
        final(summary).changed == old(summary).changed + if changed { 1int } else { 0int },
        final(summary).failed == old(summary).failed,
{
    summary.checked = summary.checked + 1;
    let hash = content_hash(bytes);
    let changed = apply_update(status, key, hash.as_str(), bytes.len() as u64, now_ms);
    if changed {
        summary.changed = summary.changed + 1;
    }
    changed
}

/// Records a failed download for `key` at `now_ms`: counts it as failed and moves
/// only the entry's last attempt.
pub fn record_failed(status: &mut Status, summary: &mut SyncSummary, key: &str, now_ms: u64)
    requires
        old(summary).failed < u32::MAX,
    ensures
        final(status)@ == old(status)@.insert(key@, attempted_entry(old(status)@, key@, now_ms)),
        final(summary).failed == old(summary).failed + 1,
        final(summary).checked == old(summary).checked,
        final(summary).changed == old(summary).changed,
{
    summary.failed = summary.failed + 1;
    record_attempt(status, key, now_ms);
}

/// The keys a changed product is written under: its own key, then its alias key.
pub open spec fn targets_of(p: Product) -> Seq<Seq<char>> {
    match alias_key_of(p) {
        Some(a) => seq![object_key_of(p), a],
        None => seq![object_key_of(p)],
    }
}

/// The keys a changed product is written under (mirror and bucket alike).
pub fn persist_targets(p: &Product) -> (keys: Vec<String>)
    ensures
        keys@.map_values(|k: String| k@) == targets_of(*p),
{
    let mut keys: Vec<String> = Vec::new();
    keys.push(object_key(p));
    if let Some(a) = alias_key(p) {
        keys.push(a);
    }
    proof {
        assert(keys@.map_values(|k: String| k@) =~= targets_of(*p));
    }
    keys
}

/// A downloaded product awaiting its status update: its key, content hash and size.
pub struct Fetched {
    pub key: String,
    pub hash: String,
    pub size: u64,
}

/// The status map after recording the first `n` downloads of a batch, in order.
pub open spec fn batch_map(
    m: Map<Seq<char>, crate::status::EntryView>,
    batch: Seq<Fetched>,
    n: int,
    now_ms: u64,
) -> Map<Seq<char>, crate::status::EntryView>
    decreases n,
{
    if n <= 0 {
        m
    } else {
        let prev = batch_map(m, batch, n - 1, now_ms);
        let f = batch[n - 1];
        prev.insert(f.key@, updated_entry(prev, f.key@, f.hash@, f.size, now_ms))
    }
}

/// Records a batch of downloads at `now_ms` in order; the result says, for each,
/// whether its content changed against the map as the earlier ones left it.
pub fn apply_batch(status: &mut Status, batch: &[Fetched], now_ms: u64) -> (changed: Vec<bool>)
    ensures
        final(status)@ == batch_map(old(status)@, batch@, batch@.len() as int, now_ms),
        changed@.len() == batch@.len(),
        forall|i: int|
            0 <= i < batch@.len() ==> #[trigger] changed@[i] == content_changed(
                batch_map(old(status)@, batch@, i, now_ms),
                batch@[i].key@,
                batch@[i].hash@,
            ),
{
    let mut changed: Vec<bool> = Vec::new();
    let n = batch.len();
    for i in 0..n
        invariant
            n == batch@.len(),
            status@ == batch_map(old(status)@, batch@, i as int, now_ms),
            changed@.len() == i,
            forall|j: int|
                0 <= j < i ==> #[trigger] changed@[j] == content_changed(
                    batch_map(old(status)@, batch@, j, now_ms),
                    batch@[j].key@,
                    batch@[j].hash@,
                ),
    {
        let f = &batch[i];
        let c = apply_update(status, f.key.as_str(), f.hash.as_str(), f.size, now_ms);
        changed.push(c);
    }
    changed
}

/// A later failure cannot undo an earlier product's progress: recording a failed
/// download for one key leaves every other key's entry as it was.
pub proof fn lemma_failure_keeps_other_entries(
    m: Map<Seq<char>, crate::status::EntryView>,
    failed: Seq<char>,
    other: Seq<char>,
    now_ms: u64,
)
    requires
        failed != other,
        m.contains_key(other),
    ensures
        m.insert(failed, attempted_entry(m, failed, now_ms)).contains_key(other),
        m.insert(failed, attempted_entry(m, failed, now_ms))[other] == m[other],
{
}

} // verus!
