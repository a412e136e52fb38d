//! Command-line choices of the daemon, and which products a manual sync covers.

use vstd::prelude::*;

use crate::products::Product;
use crate::scheduler::{all_fit, due_indices, product_due};
use crate::status::Status;
use crate::text::{join, owned, push_joined, str_eq};

verus! {

/// The parsed command line.
pub struct Cli {
    pub command: Option<Command>,
}

/// What the binary does.
pub enum Command {
    /// Run the scheduler loop forever (default).
    Daemon,
    /// Run one sync pass and exit.
    Sync {
        /// Force all active products regardless of due-ness.
        all: bool,
        /// Force a specific product by registry name (repeatable).
        product: Vec<String>,
    },
}

/// `v` lists, in increasing order, exactly the indices below `n` that satisfy `pred`.
pub open spec fn lists_exactly(v: Seq<usize>, n: nat, pred: spec_fn(int) -> bool) -> bool {
    &&& forall|a: int, b: int| 0 <= a < b < v.len() ==> v[a] < v[b]
    &&& forall|j: int| 0 <= j < v.len() ==> v[j] < n
    &&& forall|i: int| 0 <= i < n ==> (v.contains(i as usize) <==> #[trigger] pred(i))
}

/// Some active product carries `name`.
pub open spec fn is_known(items: Seq<Product>, name: Seq<char>) -> bool {
    exists|i: int| 0 <= i < items.len() && items[i].active && #[trigger] items[i].name@ == name
}

/// The requested names that no active product carries, in request order.
pub open spec fn unknown_names(items: Seq<Product>, names: Seq<Seq<char>>) -> Seq<Seq<char>>
    decreases names.len(),
{
    if names.len() == 0 {
        seq![]
    } else if is_known(items, names.last()) {
        unknown_names(items, names.drop_last())
    } else {
        unknown_names(items, names.drop_last()).push(names.last())
    }
}

/// The error of a manual sync that names unknown products.
pub open spec fn unknown_text(unknown: Seq<Seq<char>>) -> Seq<char> {
    "unknown product name(s): "@ + join(unknown, ", "@)
}

/// The products a manual sync processes, as indices into the registry: the
/// active products that were named (an error listing the names no active product
/// carries, if any), else every active product when `all` is set, else the
/// products due at `now_ms`.
pub open spec fn selection_ok(
    items: Seq<Product>,
    names: Seq<Seq<char>>,
    all: bool,
    status: Map<Seq<char>, crate::status::EntryView>,
    now_ms: u64,
    v: Seq<usize>,
) -> bool {
    if names.len() > 0 {
        lists_exactly(v, items.len(), |i: int| items[i].active && names.contains(items[i].name@))
    } else if all {
        lists_exactly(v, items.len(), |i: int| items[i].active)
    } else {
        lists_exactly(v, items.len(), |i: int| product_due(items[i], status, now_ms))
    }
}

fn is_known_exec(items: &[Product], name: &str) -> (r: bool)
    ensures
        r == is_known(items@, name@),
{
    let n = items.len();
    for i in 0..n
        invariant
            n == items@.len(),
            forall|j: int| 0 <= j < i ==> !(items@[j].active && #[trigger] items@[j].name@ == name@),
    {
        if items[i].active && str_eq(items[i].name, name) {
            proof {
                assert(items@[i as int].name@ == name@);
            }
            return true;
        }
    }
    false
}

fn is_named(names: &[String], name: &str) -> (r: bool)
    ensures
        r == names@.map_values(|s: String| s@).contains(name@),
{
    let ghost nv = names@.map_values(|s: String| s@);
    let n = names.len();
    for i in 0..n
        invariant
            n == names@.len(),
            nv == names@.map_values(|s: String| s@),
            forall|j: int| 0 <= j < i ==> nv[j] != name@,
    {
        if str_eq(names[i].as_str(), name) {
            proof {
                assert(nv[i as int] == name@);
            }
            return true;
        }
    }
    false
}

/// The products a manual sync processes, as indices into the registry, or the
/// error naming the requested products that are unknown.
pub fn select_for_sync(
    items: &[Product],
    names: &[String],
    all: bool,
    status: &Status,
    now_ms: u64,
) -> (r: Result<Vec<usize>, String>)
    requires
        names@.len() == 0 && !all ==> all_fit(items@, now_ms),
    ensures
        ({
            let nv = names@.map_values(|s: String| s@);
            let unknown = unknown_names(items@, nv);
            match r {
                Ok(v) => (names@.len() == 0 || unknown.len() == 0) && selection_ok(
                    items@,
                    nv,
                    all,
                    status@,
                    now_ms,
                    v@,
                ),
                Err(e) => names@.len() > 0 && unknown.len() > 0 && e@ == unknown_text(unknown),
            }
        }),
{
    let ghost nv = names@.map_values(|s: String| s@);
    if names.len() > 0 {
        // the names that match no active product
        let mut unknown: Vec<String> = Vec::new();
        let m = names.len();
        for k in 0..m
            invariant
                m == names@.len(),
                nv == names@.map_values(|s: String| s@),
                unknown@.map_values(|s: String| s@) == unknown_names(items@, nv.take(k as int)),
        {
            proof {
                assert(nv.take(k + 1).drop_last() =~= nv.take(k as int));
                assert(nv.take(k + 1).last() == names@[k as int]@);
            }
            if !is_known_exec(items, names[k].as_str()) {
                let ghost before = unknown@;
                unknown.push(names[k].clone());
                proof {
                    assert(unknown@.map_values(|s: String| s@) =~= before.map_values(|s: String| s@).push(
                        names@[k as int]@,
                    ));
                }
            }
        }
        proof {
            assert(nv.take(m as int) =~= nv);
        }
        if unknown.len() > 0 {
            let mut e = owned("unknown product name(s): ");
            push_joined(&mut e, unknown.as_slice(), ", ");
            return Err(e);
        }
        let ghost pred = |i: int| items@[i].active && nv.contains(items@[i].name@);
        let mut v: Vec<usize> = Vec::new();
        let n = items.len();
        for i in 0..n
            invariant
                n == items@.len(),
                nv == names@.map_values(|s: String| s@),
                pred == (|i: int| items@[i].active && nv.contains(items@[i].name@)),
                forall|a: int, b: int| 0 <= a < b < v@.len() ==> v@[a] < v@[b],
                forall|j: int| 0 <= j < v@.len() ==> v@[j] < i,
                forall|k: int| 0 <= k < i ==> (v@.contains(k as usize) <==> #[trigger] pred(k)),
        {
            if items[i].active && is_named(names, items[i].name) {
                let ghost before = v@;
                v.push(i);
                proof {
                    assert forall|k: int| 0 <= k < i implies (#[trigger] v@.contains(k as usize) <==> before.contains(k as usize)) by {
                        if v@.contains(k as usize) {
                            let j = choose|j: int| 0 <= j < v@.len() && v@[j] == k as usize;
                            if j < before.len() {
                                assert(before[j] == k as usize);
                            }
                        }
                        if before.contains(k as usize) {
                            let j = choose|j: int| 0 <= j < before.len() && before[j] == k as usize;
                            assert(v@[j] == k as usize);
                        }
                    }
                    assert(v@[before.len() as int] == i);
                }
            } else {
                proof {
                    assert(!v@.contains(i));
                }
            }
        }
        Ok(v)
    } else if all {
        let ghost pred = |i: int| items@[i].active;
        let mut v: Vec<usize> = Vec::new();
        let n = items.len();
        for i in 0..n
            invariant
                n == items@.len(),
                pred == (|i: int| items@[i].active),
                forall|a: int, b: int| 0 <= a < b < v@.len() ==> v@[a] < v@[b],
                forall|j: int| 0 <= j < v@.len() ==> v@[j] < i,
                forall|k: int| 0 <= k < i ==> (v@.contains(k as usize) <==> #[trigger] pred(k)),
        {
            if items[i].active {
                let ghost before = v@;
                v.push(i);
                proof {
                    assert forall|k: int| 0 <= k < i implies (#[trigger] v@.contains(k as usize) <==> before.contains(k as usize)) by {
                        if v@.contains(k as usize) {
                            let j = choose|j: int| 0 <= j < v@.len() && v@[j] == k as usize;
                            if j < before.len() {
                                assert(before[j] == k as usize);
                            }
                        }
                        if before.contains(k as usize) {
                            let j = choose|j: int| 0 <= j < before.len() && before[j] == k as usize;
                            assert(v@[j] == k as usize);
                        }
                    }
                    assert(v@[before.len() as int] == i);
                }
            } else {
                proof {
                    assert(!v@.contains(i));
                }
            }
        }
        Ok(v)
    } else {
        let v = due_indices(items, status, now_ms);
        proof {
            let pred = |i: int| product_due(items@[i], status@, now_ms);
            assert forall|i: int| 0 <= i < items@.len() implies (v@.contains(i as usize) <==> #[trigger] pred(i)) by {
                assert(product_due(items@[i], status@, now_ms) == pred(i));
            }
        }
        Ok(v)
    }
}

} // verus!
