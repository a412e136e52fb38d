//! Mapping from a `Product` to its R2 object key and public URL.

use vstd::prelude::*;

use crate::products::Product;
use crate::text::owned;

verus! {

/// Public serving domain (R2 public bucket custom domain).
pub const DOMAIN: &'static str = "simplespacedata.org";

/// The key of a file under `/<category>/<source>/<segment>/latest/<filename>`.
pub open spec fn key_path(
    category: Seq<char>,
    source: Seq<char>,
    segment: Seq<char>,
    filename: Seq<char>,
) -> Seq<char> {
    category + "/"@ + source + "/"@ + segment + "/latest/"@ + filename
}

/// The object key of a product's latest file.
pub open spec fn object_key_of(p: Product) -> Seq<char> {
    key_path(p.category@, p.source@, p.name@, p.filename@)
}

/// The object key of a product's alias, when it declares one.
pub open spec fn alias_key_of(p: Product) -> Option<Seq<char>> {
    match p.alias_name {
        Some(alias) => Some(key_path(p.category@, p.source@, alias@, p.filename@)),
        None => None,
    }
}

/// The public URL of a key on a domain.
pub open spec fn url_of(domain: Seq<char>, key: Seq<char>) -> Seq<char> {
    "https://"@ + domain + "/"@ + key
}

/// Builds `category/source/segment/latest/filename`.
fn build_key(category: &str, source: &str, segment: &str, filename: &str) -> (k: String)
    ensures
        k@ == key_path(category@, source@, segment@, filename@),
{
    let mut k = owned(category);
    k.append("/");
    k.append(source);
    k.append("/");
    k.append(segment);
    k.append("/latest/");
    k.append(filename);
    proof {
        assert(k@ =~= key_path(category@, source@, segment@, filename@));
    }
    k
}

/// R2 object key (== public URL path) for a product's latest file.
pub fn object_key(p: &Product) -> (k: String)
    ensures
        k@ == object_key_of(*p),
{
    build_key(p.category, p.source, p.name, p.filename.as_str())
}

/// R2 object key for the product's stable alias, if it declares one.
pub fn alias_key(p: &Product) -> (k: Option<String>)
    ensures
        match k {
            Some(s) => alias_key_of(*p) == Some(s@),
            None => alias_key_of(*p) is None,
        },
{
    match p.alias_name {
        Some(alias) => Some(build_key(p.category, p.source, alias, p.filename.as_str())),
        None => None,
    }
}

/// Full public URL for `key` on `domain`.
pub fn url_on(domain: &str, key: &str) -> (u: String)
    ensures
        u@ == url_of(domain@, key@),
{
    let mut u = owned("https://");
    u.append(domain);
    u.append("/");
    u.append(key);
    proof {
        assert(u@ =~= url_of(domain@, key@));
    }
    u
}

/// Full public URL for an R2 key.
pub fn public_url(key: &str) -> (u: String)
    ensures
        u@ == url_of(DOMAIN@, key@),
{
    url_on(DOMAIN, key)
}

/// A product and its alias share category, source and filename: the two keys
/// differ in the path segment alone, so an alias distinct from the name never
/// lands on the product's own key.
pub proof fn lemma_alias_key_differs_only_in_segment(p: Product)
    requires
        p.alias_name is Some,
    ensures
        alias_key_of(p) == Some(key_path(p.category@, p.source@, p.alias_name->0@, p.filename@)),
        p.alias_name->0@ != p.name@ ==> alias_key_of(p)->0 != object_key_of(p),
{
    let a = p.alias_name->0@;
    if a != p.name@ {
        let prefix = p.category@ + "/"@ + p.source@ + "/"@;
        let suffix = "/latest/"@ + p.filename@;
        let ka = key_path(p.category@, p.source@, a, p.filename@);
        let ko = object_key_of(p);
        assert(ka =~= prefix + a + suffix);
        assert(ko =~= prefix + p.name@ + suffix);
        if ka == ko {
            assert((prefix + a + suffix).len() == (prefix + p.name@ + suffix).len());
            assert(a.len() == p.name@.len());
            assert forall|i: int| 0 <= i < a.len() implies a[i] == p.name@[i] by {
                assert(ka[prefix.len() + i] == a[i]);
                assert(ko[prefix.len() + i] == p.name@[i]);
            }
            assert(a =~= p.name@);
        }
    }
}

} // verus!
