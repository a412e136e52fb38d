//! Per-product due selection for the daemon's run loop.

use vstd::prelude::*;

use crate::keys::{object_key, object_key_of};
use crate::products::Product;
use crate::schedule::{lemma_remaining_zero_iff_due, Schedule, DAY_MS};
use crate::status::{attempted_entry, last_attempt_of, last_checked_of, Status, EntryView};

verus! {

/// Product `p` is due at `now_ms` against status map `m`: it is active, and its
/// schedule is due counted from its recorded last attempt or last success.
pub open spec fn product_due(p: Product, m: Map<Seq<char>, EntryView>, now_ms: u64) -> bool {
    let key = object_key_of(p);
    p.active && p.schedule.due(
        p.schedule.reference(last_attempt_of(m, key), last_checked_of(m, key)),
        now_ms,
    )
}

/// Milliseconds until product `p` is due at `now_ms` against status map `m`.
pub open spec fn product_remaining(p: Product, m: Map<Seq<char>, EntryView>, now_ms: u64) -> int {
    let key = object_key_of(p);
    p.schedule.remaining(
        p.schedule.reference(last_attempt_of(m, key), last_checked_of(m, key)),
        now_ms,
    )
}

/// Every active product's due check stays within `u64` at `now_ms`.
pub open spec fn all_fit(all: Seq<Product>, now_ms: u64) -> bool {
    forall|i: int| 0 <= i < all.len() && (#[trigger] all[i]).active ==> all[i].schedule.fits_at(now_ms)
}

/// Every active product's wait stays within `u64` at `now_ms` against status map `m`.
pub open spec fn all_remaining_fit(all: Seq<Product>, m: Map<Seq<char>, EntryView>, now_ms: u64) -> bool {
    forall|i: int|
        0 <= i < all.len() && (#[trigger] all[i]).active ==> all[i].schedule.remaining_fits(
            all[i].schedule.reference(
                last_attempt_of(m, object_key_of(all[i])),
                last_checked_of(m, object_key_of(all[i])),
            ),
            now_ms,
        )
}

/// True when every active product's due check stays within `u64` at `now_ms`.
pub fn due_checks_fit(all: &[Product], now_ms: u64) -> (b: bool)
    ensures
        b == all_fit(all@, now_ms),
{
    let n = all.len();
    for i in 0..n
        invariant
            n == all@.len(),
            forall|k: int| 0 <= k < i && (#[trigger] all@[k]).active ==> all@[k].schedule.fits_at(now_ms),
    {
        let p = &all[i];
        if p.active && !p.schedule.fits(now_ms) {
            return false;
        }
    }
    true
}

/// True when every active product's wait stays within `u64` at `now_ms`
/// against `status`.
pub fn waits_fit(all: &[Product], status: &Status, now_ms: u64) -> (b: bool)
    ensures
        b == all_remaining_fit(all@, status@, now_ms),
{
    let n = all.len();
    for i in 0..n
        invariant
            n == all@.len(),
            forall|k: int|
                0 <= k < i && (#[trigger] all@[k]).active ==> all@[k].schedule.remaining_fits(
                    all@[k].schedule.reference(
                        last_attempt_of(status@, object_key_of(all@[k])),
                        last_checked_of(status@, object_key_of(all@[k])),
                    ),
                    now_ms,
                ),
    {
        let p = &all[i];
        if p.active {
            let key = object_key(p);
            let e = status.get(key.as_str());
            let la = match e {
                Some(e) => Some(e.last_attempt),
                None => None,
            };
            let lc = match e {
                Some(e) => Some(e.last_checked),
                None => None,
            };
            let last = match p.schedule {
                Schedule::Every(_) => la,
                Schedule::WeeklyAt { .. } => lc,
            };
            if !p.schedule.remaining_fits_at(last, now_ms) {
                return false;
            }
        }
    }
    true
}

/// Indices of active products that are due to be fetched at `now_ms`.
pub fn due_indices(all: &[Product], status: &Status, now_ms: u64) -> (r: Vec<usize>)
    requires
        all_fit(all@, now_ms),
    ensures
        forall|a: int, b: int| 0 <= a < b < r@.len() ==> r@[a] < r@[b],
        forall|i: int|
            0 <= i < all@.len() ==> (r@.contains(i as usize) <==> product_due(
                #[trigger] all@[i],
                status@,
                now_ms,
            )),
        forall|j: int| 0 <= j < r@.len() ==> r@[j] < all@.len(),
{
    let mut r: Vec<usize> = Vec::new();
    let n = all.len();
    for i in 0..n
        invariant
            n == all@.len(),
            all_fit(all@, now_ms),
            forall|a: int, b: int| 0 <= a < b < r@.len() ==> r@[a] < r@[b],
            forall|j: int| 0 <= j < r@.len() ==> r@[j] < i,
            forall|k: int|
                0 <= k < i ==> (r@.contains(k as usize) <==> product_due(
                    #[trigger] all@[k],
                    status@,
                    now_ms,
                )),
    {
        let p = &all[i];
        if p.active {
            assert(all@[i as int].schedule.fits_at(now_ms));
            let key = object_key(p);
            let e = status.get(key.as_str());
            let la = match e {
                Some(e) => Some(e.last_attempt),
                None => None,
            };
            let lc = match e {
                Some(e) => Some(e.last_checked),
                None => None,
            };
            if p.schedule.is_due_given(la, lc, now_ms) {
                let ghost before = r@;
                r.push(i);
                proof {
                    assert forall|k: int| 0 <= k < i implies (#[trigger] r@.contains(k as usize) <==> before.contains(k as usize)) by {
                        if r@.contains(k as usize) {
                            let j = choose|j: int| 0 <= j < r@.len() && r@[j] == k as usize;
                            if j < before.len() {
                                assert(before[j] == k as usize);
                            }
                        }
                        if before.contains(k as usize) {
                            let j = choose|j: int| 0 <= j < before.len() && before[j] == k as usize;
                            assert(r@[j] == k as usize);
                        }
                    }
                    assert(r@[before.len() as int] == i);
                }
            } else {
                proof {
                    assert(!r@.contains(i));
                }
            }
        } else {
            proof {
                assert(!r@.contains(i));
            }
        }
    }
    r
}

/// Milliseconds until the next product becomes due, clamped to `cap_ms`.
/// Returns 0 when something is already due.
pub fn sleep_until_due_ms(all: &[Product], status: &Status, now_ms: u64, cap_ms: u64) -> (r: u64)
    requires
        all_remaining_fit(all@, status@, now_ms),
    ensures
        r <= cap_ms,
        forall|i: int|
            0 <= i < all@.len() && (#[trigger] all@[i]).active ==> r <= product_remaining(
                all@[i],
                status@,
                now_ms,
            ),
        r == cap_ms || exists|i: int|
            0 <= i < all@.len() && (#[trigger] all@[i]).active && r == product_remaining(
                all@[i],
                status@,
                now_ms,
            ),
{
    let mut soonest = cap_ms;
    let n = all.len();
    for i in 0..n
        invariant
            n == all@.len(),
            all_remaining_fit(all@, status@, now_ms),
            soonest <= cap_ms,
            forall|k: int|
                0 <= k < i && (#[trigger] all@[k]).active ==> soonest <= product_remaining(
                    all@[k],
                    status@,
                    now_ms,
                ),
            soonest == cap_ms || exists|k: int|
                0 <= k < i && (#[trigger] all@[k]).active && soonest == product_remaining(
                    all@[k],
                    status@,
                    now_ms,
                ),
    {
        let p = &all[i];
        if p.active {
            assert(all@[i as int].schedule.fits_at(now_ms));
            let key = object_key(p);
            let e = status.get(key.as_str());
            let la = match e {
                Some(e) => Some(e.last_attempt),
                None => None,
            };
            let lc = match e {
                Some(e) => Some(e.last_checked),
                None => None,
            };
            let rem = p.schedule.remaining_ms_given(la, lc, now_ms);
            if rem < soonest {
                soonest = rem;
            }
        }
    }
    soonest
}

/// The shortest sleep between two wakes of the daemon, in milliseconds.
pub const MIN_SLEEP_MS: u64 = 1000;

/// How long the daemon sleeps before its next wake: the time until the next
/// product is due, but at least a second, so that a product still due does not
/// spin the loop.
pub fn daemon_sleep_ms(sleep_ms: u64) -> (r: u64)
    ensures
        r == (if sleep_ms >= MIN_SLEEP_MS { sleep_ms } else { MIN_SLEEP_MS }),
{
    if sleep_ms >= MIN_SLEEP_MS {
        sleep_ms
    } else {
        MIN_SLEEP_MS
    }
}

/// Current epoch milliseconds, read from the system clock (0 if the clock is
/// before the epoch). Nothing is stated of the value: it is the time.
#[verifier::external_body]
pub fn now_ms() -> u64 {
    std::time::SystemTime::now().duration_since(std::time::UNIX_EPOCH).map(
        |d| d.as_millis() as u64,
    ).unwrap_or(0)
}

/// The daemon sleeps for zero milliseconds exactly when the cap is zero or some
/// active product is due (weekly times of day inside the day).
pub proof fn lemma_sleep_zero_iff_something_due(
    all: Seq<Product>,
    m: Map<Seq<char>, EntryView>,
    now_ms: u64,
    cap_ms: u64,
    r: u64,
)
    requires
        forall|i: int| 0 <= i < all.len() ==> (#[trigger] all[i]).schedule.tod_ms() < DAY_MS,
        r <= cap_ms,
        forall|i: int|
            0 <= i < all.len() && (#[trigger] all[i]).active ==> r <= product_remaining(all[i], m, now_ms),
        r == cap_ms || exists|i: int|
            0 <= i < all.len() && (#[trigger] all[i]).active && r == product_remaining(all[i], m, now_ms),
    ensures
        (r == 0) <==> (cap_ms == 0 || exists|i: int|
            0 <= i < all.len() && product_due(#[trigger] all[i], m, now_ms)),
{
    if r == 0 && cap_ms != 0 {
        let i = choose|i: int|
            0 <= i < all.len() && (#[trigger] all[i]).active && r == product_remaining(all[i], m, now_ms);
        let p = all[i];
        let key = object_key_of(p);
        lemma_remaining_zero_iff_due(
            p.schedule,
            p.schedule.reference(last_attempt_of(m, key), last_checked_of(m, key)),
            now_ms,
        );
        assert(product_due(all[i], m, now_ms));
    }
    if exists|i: int| 0 <= i < all.len() && product_due(#[trigger] all[i], m, now_ms) {
        let i = choose|i: int| 0 <= i < all.len() && product_due(#[trigger] all[i], m, now_ms);
        let p = all[i];
        let key = object_key_of(p);
        lemma_remaining_zero_iff_due(
            p.schedule,
            p.schedule.reference(last_attempt_of(m, key), last_checked_of(m, key)),
            now_ms,
        );
        assert(r <= product_remaining(all[i], m, now_ms));
    }
}

/// A failed fetch of a weekly product that has downloaded before does not put it
/// off: its due-ness counts from the last success, which a bare attempt leaves alone.
pub proof fn lemma_failed_attempt_keeps_weekly_due(
    p: Product,
    m: Map<Seq<char>, EntryView>,
    at_ms: u64,
    now_ms: u64,
)
    requires
        p.schedule is WeeklyAt,
        m.contains_key(object_key_of(p)),
    ensures
        product_due(
            p,
            m.insert(object_key_of(p), attempted_entry(m, object_key_of(p), at_ms)),
            now_ms,
        ) == product_due(p, m, now_ms),
{
}

} // verus!
