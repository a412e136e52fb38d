//! The descriptor the producer enqueues for each product fetch, and the
//! decisions of the one-shot ingest: which products go out, and how failures
//! are summed up.

use vstd::prelude::*;

use crate::keys::{alias_key, object_key, alias_key_of, object_key_of};
use crate::products::Product;
use crate::text::{decimal, join, owned, push_decimal, push_joined};

verus! {

/// The descriptor of one product fetch.
#[derive(Debug, PartialEq)]
pub struct IngestMessage {
    pub key: String,
    pub url: String,
    pub content_type: String,
    pub alias_key: Option<String>,
    /// epoch milliseconds, set by the producer
    pub enqueued_at: u64,
}

/// An ingest message as plain values.
pub struct MessageView {
    pub key: Seq<char>,
    pub url: Seq<char>,
    pub content_type: Seq<char>,
    pub alias_key: Option<Seq<char>>,
    pub enqueued_at: u64,
}

impl View for IngestMessage {
    type V = MessageView;

    open spec fn view(&self) -> MessageView {
        MessageView {
            key: self.key@,
            url: self.url@,
            content_type: self.content_type@,
            alias_key: match self.alias_key {
                Some(a) => Some(a@),
                None => None,
            },
            enqueued_at: self.enqueued_at,
        }
    }
}

/// The message for product `p` enqueued at `now_ms`.
pub open spec fn message_of(p: Product, now_ms: u64) -> MessageView {
    MessageView {
        key: object_key_of(p),
        url: p.url@,
        content_type: p.content_type@,
        alias_key: alias_key_of(p),
        enqueued_at: now_ms,
    }
}

/// The message for product `p` enqueued at `now_ms`.
pub fn ingest_message(p: &Product, now_ms: u64) -> (m: IngestMessage)
    ensures
        m@ == message_of(*p, now_ms),
        m.url@ == p.url@,
        m.content_type@ == p.content_type@,
        m.key@ == object_key_of(*p),
        m.enqueued_at == now_ms,
{
    IngestMessage {
        key: object_key(p),
        url: p.url.clone(),
        content_type: owned(p.content_type),
        alias_key: alias_key(p),
        enqueued_at: now_ms,
    }
}

/// The messages of the active products, in registry order.
pub open spec fn active_messages(items: Seq<Product>, now_ms: u64) -> Seq<MessageView>
    decreases items.len(),
{
    if items.len() == 0 {
        seq![]
    } else if items.last().active {
        active_messages(items.drop_last(), now_ms).push(message_of(items.last(), now_ms))
    } else {
        active_messages(items.drop_last(), now_ms)
    }
}

/// The producer sends every active product upstream: message `i` of the active
/// messages is for the `i`-th active product, and carries that product's own
/// upstream URL, content type and object key, enqueued at `now_ms`.
pub proof fn lemma_messages_point_upstream(items: Seq<Product>, now_ms: u64)
    ensures
        active_messages(items, now_ms).len() == items.filter(|p: Product| p.active).len(),
        forall|i: int|
            0 <= i < active_messages(items, now_ms).len() ==> {
                let m = #[trigger] active_messages(items, now_ms)[i];
                let p = items.filter(|p: Product| p.active)[i];
                &&& p.active
                &&& m.url == p.url@
                &&& m.content_type == p.content_type@
                &&& m.key == object_key_of(p)
                &&& m.enqueued_at == now_ms
            },
    decreases items.len(),
{
    reveal(Seq::filter);
    let act = |p: Product| p.active;
    if items.len() > 0 {
        let d = items.drop_last();
        lemma_messages_point_upstream(d, now_ms);
        let f = d.filter(act);
        if items.last().active {
            assert(items.filter(act) == f.push(items.last()));
        } else {
            assert(items.filter(act) == f);
        }
    }
}

/// One message per active product, in registry order, all enqueued at `now_ms`.
pub fn producer_messages(items: &[Product], now_ms: u64) -> (msgs: Vec<IngestMessage>)
    ensures
        msgs@.map_values(|m: IngestMessage| m@) == active_messages(items@, now_ms),
{
    let mut msgs: Vec<IngestMessage> = Vec::new();
    let n = items.len();
    for i in 0..n
        invariant
            n == items@.len(),
            msgs@.map_values(|m: IngestMessage| m@) == active_messages(items@.take(i as int), now_ms),
    {
        proof {
            assert(items@.take(i + 1).drop_last() =~= items@.take(i as int));
        }
        if items[i].active {
            let ghost before = msgs@;
            msgs.push(ingest_message(&items[i], now_ms));
            proof {
                assert(msgs@.map_values(|m: IngestMessage| m@) =~= before.map_values(
                    |m: IngestMessage| m@,
                ).push(message_of(items@[i as int], now_ms)));
            }
        }
    }
    proof {
        assert(items@.take(n as int) =~= items@);
    }
    msgs
}

/// A failed product in the ingest summary: `name (error)`.
pub open spec fn failure_entry_text(name: Seq<char>, error: Seq<char>) -> Seq<char> {
    name + " ("@ + error + ")"@
}

/// A failed product in the ingest summary: `name (error)`.
pub fn failure_entry(name: &str, error: &str) -> (s: String)
    ensures
        s@ == failure_entry_text(name@, error@),
{
    let mut s = owned(name);
    s.append(" (");
    s.append(error);
    s.append(")");
    proof {
        assert(s@ =~= failure_entry_text(name@, error@));
    }
    s
}

/// The ingest's error when products failed: `N product(s) failed: a; b`; none
/// when nothing failed.
pub open spec fn failure_summary_text(entries: Seq<Seq<char>>) -> Option<Seq<char>> {
    if entries.len() == 0 {
        None
    } else {
        Some(decimal(entries.len()) + " product(s) failed: "@ + join(entries, "; "@))
    }
}

/// The ingest's error when products failed.
pub fn failure_summary(failures: &[String]) -> (r: Option<String>)
    ensures
        match r {
            Some(s) => failure_summary_text(failures@.map_values(|f: String| f@)) == Some(s@),
            None => failure_summary_text(failures@.map_values(|f: String| f@)) is None,
        },
{
    let n = failures.len();
    if n == 0 {
        return None;
    }
    let mut s = String::new();
    push_decimal(&mut s, n as u128);
    s.append(" product(s) failed: ");
    push_joined(&mut s, failures, "; ");
    proof {
        assert(s@ =~= failure_summary_text(failures@.map_values(|f: String| f@))->0);
    }
    Some(s)
}

} // verus!
