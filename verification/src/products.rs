//! Product registry: the single source of truth for everything the mirror fetches.

use vstd::prelude::*;

use crate::duration::Duration;
use crate::schedule::{Schedule, Weekday};
use crate::text::{owned, str_eq};

verus! {

/// One mirrored file.
pub struct Product {
    /// e.g. "eop", "space_weather", "catalog"
    pub category: &'static str,
    /// e.g. "iers", "celestrak"
    pub source: &'static str,
    /// public path segment
    pub name: &'static str,
    /// upstream HTTPS source
    pub url: String,
    /// stable served filename
    pub filename: String,
    pub content_type: &'static str,
    /// false → not fetched; existing object stays frozen
    pub active: bool,
    /// also written under this stable path segment
    pub alias_name: Option<&'static str>,
    /// human-readable docs page (display only)
    pub info_url: Option<&'static str>,
    /// named publish schedule (display only)
    pub cadence_label: Option<&'static str>,
    pub schedule: Schedule,
}

/// A schedule as plain values: the interval in nanoseconds, or the weekday and
/// the time of day in nanoseconds.
pub enum ScheduleView {
    Every(nat),
    WeeklyAt(Weekday, nat),
}

impl View for Schedule {
    type V = ScheduleView;

    open spec fn view(&self) -> ScheduleView {
        match *self {
            Schedule::Every(d) => ScheduleView::Every(d@),
            Schedule::WeeklyAt { weekday, time } => ScheduleView::WeeklyAt(weekday, time@),
        }
    }
}

/// A product as plain values.
pub struct ProductView {
    pub category: Seq<char>,
    pub source: Seq<char>,
    pub name: Seq<char>,
    pub url: Seq<char>,
    pub filename: Seq<char>,
    pub content_type: Seq<char>,
    pub active: bool,
    pub alias_name: Option<Seq<char>>,
    pub info_url: Option<Seq<char>>,
    pub cadence_label: Option<Seq<char>>,
    pub schedule: ScheduleView,
}

/// The characters of an optional string.
pub open spec fn opt_view(o: Option<&str>) -> Option<Seq<char>> {
    match o {
        Some(s) => Some(s@),
        None => None,
    }
}

impl View for Product {
    type V = ProductView;

    open spec fn view(&self) -> ProductView {
        ProductView {
            category: self.category@,
            source: self.source@,
            name: self.name@,
            url: self.url@,
            filename: self.filename@,
            content_type: self.content_type@,
            active: self.active,
            alias_name: opt_view(self.alias_name),
            info_url: opt_view(self.info_url),
            cadence_label: opt_view(self.cadence_label),
            schedule: self.schedule@,
        }
    }
}


/// Number of CelesTrak GP groups mirrored.
pub const CELESTRAK_GROUP_COUNT: usize = 10;

/// Number of fixed EOP / space-weather entries ahead of the CelesTrak groups.
pub const FIXED_PRODUCT_COUNT: usize = 5;

/// Slug of the `i`-th CelesTrak GP group mirrored as JSON (latest-only).
pub open spec fn group_slug(i: int) -> Seq<char> {
    if i == 0 {
        "active"@
    } else
    if i == 1 {
        "stations"@
    } else
    if i == 2 {
        "visual"@
    } else
    if i == 3 {
        "last-30-days"@
    } else
    if i == 4 {
        "starlink"@
    } else
    if i == 5 {
        "gnss"@
    } else
    if i == 6 {
        "gps-ops"@
    } else
    if i == 7 {
        "geo"@
    } else
    if i == 8 {
        "weather"@
    } else {
        "science"@
    }
}

/// Slug of the `i`-th CelesTrak GP group mirrored as JSON (latest-only).
pub fn celestrak_group(i: usize) -> (slug: &'static str)
    requires
        i < CELESTRAK_GROUP_COUNT,
    ensures
        slug@ == group_slug(i as int),
{
    if i == 0 {
        "active"
    } else
    if i == 1 {
        "stations"
    } else
    if i == 2 {
        "visual"
    } else
    if i == 3 {
        "last-30-days"
    } else
    if i == 4 {
        "starlink"
    } else
    if i == 5 {
        "gnss"
    } else
    if i == 6 {
        "gps-ops"
    } else
    if i == 7 {
        "geo"
    } else
    if i == 8 {
        "weather"
    } else {
        "science"
    }
}

/// Upstream GP-data URL of a CelesTrak group.
pub open spec fn group_url(slug: Seq<char>) -> Seq<char> {
    "https://celestrak.org/NORAD/elements/gp.php?GROUP="@ + slug + "&FORMAT=json"@
}

/// The registry entry of a CelesTrak group.
pub open spec fn group_product(slug: Seq<char>) -> ProductView {
    ProductView {
        category: "catalog"@,
        source: "celestrak"@,
        name: slug,
        url: group_url(slug),
        filename: slug + ".json"@,
        content_type: "application/json"@,
        active: true,
        alias_name: None,
        info_url: Some("https://celestrak.org/NORAD/documentation/gp-data-formats.php"@),
        cadence_label: None,
        schedule: ScheduleView::Every(2 * 3600 * 1_000_000_000),
    }
}

/// The fixed EOP and space-weather entries, in registry order.
pub open spec fn fixed_products() -> Seq<ProductView> {
    seq![
        ProductView {
            category: "eop"@,
            source: "iers"@,
            name: "finals_all"@,
            url: "https://datacenter.iers.org/data/latestVersion/finals.all.iau2000.txt"@,
            filename: "finals.all.iau2000.txt"@,
            content_type: "text/plain"@,
            active: true,
            alias_name: None,
            info_url: Some("https://www.iers.org/IERS/EN/DataProducts/EarthOrientationData/eop.html"@),
            cadence_label: None,
            schedule: ScheduleView::Every(24 * 3600 * 1_000_000_000),
        },
        ProductView {
            category: "eop"@,
            source: "iers"@,
            name: "c04_20u24"@,
            url: "https://datacenter.iers.org/data/latestVersion/EOP_20u24_C04_one_file_1962-now.txt"@,
            filename: "EOP_C04_one_file_1962-now.txt"@,
            content_type: "text/plain"@,
            active: true,
            alias_name: Some("c04"@),
            info_url: Some("https://www.iers.org/IERS/EN/DataProducts/EarthOrientationData/eop.html"@),
            cadence_label: None,
            schedule: ScheduleView::Every(7 * 24 * 3600 * 1_000_000_000),
        },
        ProductView {
            category: "eop"@,
            source: "usno"@,
            name: "finals2000a_all"@,
            url: "https://maia.usno.navy.mil/ser7/finals2000A.all"@,
            filename: "finals2000A.all"@,
            content_type: "text/plain"@,
            active: true,
            alias_name: None,
            info_url: Some("https://maia.usno.navy.mil/ser7/readme"@),
            cadence_label: None,
            schedule: ScheduleView::Every(7 * 24 * 3600 * 1_000_000_000),
        },
        ProductView {
            category: "eop"@,
            source: "usno"@,
            name: "finals2000a_daily"@,
            url: "https://maia.usno.navy.mil/ser7/finals2000A.daily"@,
            filename: "finals2000A.daily"@,
            content_type: "text/plain"@,
            active: true,
            alias_name: None,
            info_url: Some("https://maia.usno.navy.mil/ser7/readme"@),
            cadence_label: None,
            schedule: ScheduleView::Every(24 * 3600 * 1_000_000_000),
        },
        ProductView {
            category: "space_weather"@,
            source: "celestrak"@,
            name: "sw_all"@,
            url: "https://celestrak.org/SpaceData/sw19571001.txt"@,
            filename: "sw19571001.txt"@,
            content_type: "text/plain"@,
            active: true,
            alias_name: None,
            info_url: Some("https://celestrak.org/SpaceData/"@),
            cadence_label: None,
            schedule: ScheduleView::Every(6 * 3600 * 1_000_000_000),
        }
    ]
}

/// The full registry: the fixed entries, then one entry per CelesTrak group.
pub open spec fn registry() -> Seq<ProductView> {
    fixed_products() + Seq::new(
        CELESTRAK_GROUP_COUNT as nat,
        |i: int| group_product(group_slug(i)),
    )
}

/// The views of a list of products.
pub open spec fn views(items: Seq<Product>) -> Seq<ProductView> {
    items.map_values(|p: Product| p@)
}

/// Build the full registry: fixed EOP/SW entries + generated CelesTrak groups.
pub fn products() -> (items: Vec<Product>)
    ensures
        views(items@) == registry(),
{
    let mut items: Vec<Product> = Vec::new();
    items.push(Product {
        category: "eop",
        source: "iers",
        name: "finals_all",
        url: owned("https://datacenter.iers.org/data/latestVersion/finals.all.iau2000.txt"),
        filename: owned("finals.all.iau2000.txt"),
        content_type: "text/plain",
        active: true,
        alias_name: None,
        info_url: Some("https://www.iers.org/IERS/EN/DataProducts/EarthOrientationData/eop.html"),
        cadence_label: None,
        schedule: Schedule::Every(Duration::from_secs(24 * 3600)),
    });
    items.push(Product {
        category: "eop",
        source: "iers",
        name: "c04_20u24",
        url: owned("https://datacenter.iers.org/data/latestVersion/EOP_20u24_C04_one_file_1962-now.txt"),
        filename: owned("EOP_C04_one_file_1962-now.txt"),
        content_type: "text/plain",
        active: true,
        alias_name: Some("c04"),
        info_url: Some("https://www.iers.org/IERS/EN/DataProducts/EarthOrientationData/eop.html"),
        cadence_label: None,
        schedule: Schedule::Every(Duration::from_secs(7 * 24 * 3600)),
    });
    items.push(Product {
        category: "eop",
        source: "usno",
        name: "finals2000a_all",
        url: owned("https://maia.usno.navy.mil/ser7/finals2000A.all"),
        filename: owned("finals2000A.all"),
        content_type: "text/plain",
        active: true,
        alias_name: None,
        info_url: Some("https://maia.usno.navy.mil/ser7/readme"),
        cadence_label: None,
        schedule: Schedule::Every(Duration::from_secs(7 * 24 * 3600)),
    });
    items.push(Product {
        category: "eop",
        source: "usno",
        name: "finals2000a_daily",
        url: owned("https://maia.usno.navy.mil/ser7/finals2000A.daily"),
        filename: owned("finals2000A.daily"),
        content_type: "text/plain",
        active: true,
        alias_name: None,
        info_url: Some("https://maia.usno.navy.mil/ser7/readme"),
        cadence_label: None,
        schedule: Schedule::Every(Duration::from_secs(24 * 3600)),
    });
    items.push(Product {
        category: "space_weather",
        source: "celestrak",
        name: "sw_all",
        url: owned("https://celestrak.org/SpaceData/sw19571001.txt"),
        filename: owned("sw19571001.txt"),
        content_type: "text/plain",
        active: true,
        alias_name: None,
        info_url: Some("https://celestrak.org/SpaceData/"),
        cadence_label: None,
        schedule: Schedule::Every(Duration::from_secs(6 * 3600)),
    });
    proof {
        assert(views(items@) =~= registry().take(FIXED_PRODUCT_COUNT as int));
    }
    for i in 0..CELESTRAK_GROUP_COUNT
        invariant
            views(items@) =~= registry().take(FIXED_PRODUCT_COUNT + i),
    {
        let slug = celestrak_group(i);
        let mut url = owned("https://celestrak.org/NORAD/elements/gp.php?GROUP=");
        url.append(slug);
        url.append("&FORMAT=json");
        let mut filename = owned(slug);
        filename.append(".json");
        let p = Product {
            category: "catalog",
            source: "celestrak",
            name: slug,
            url,
            filename,
            content_type: "application/json",
            active: true,
            alias_name: None,
            info_url: Some("https://celestrak.org/NORAD/documentation/gp-data-formats.php"),
            cadence_label: None,
            schedule: Schedule::Every(Duration::from_secs(2 * 3600)),
        };
        proof {
            assert(p@.url =~= group_url(slug@));
            assert(p@ == group_product(group_slug(i as int)));
        }
        let ghost before = items@;
        items.push(p);
        proof {
            assert(registry()[FIXED_PRODUCT_COUNT + i] == group_product(group_slug(i as int)));
            assert(views(items@) =~= views(before).push(p@));
            assert(views(items@) =~= registry().take(FIXED_PRODUCT_COUNT + i + 1));
        }
    }
    proof {
        assert(registry().take(FIXED_PRODUCT_COUNT + CELESTRAK_GROUP_COUNT) =~= registry());
    }
    items
}


/// The (category, source, alias) slot an active aliased product claims; none for
/// inactive or unaliased products.
pub open spec fn alias_slot(p: ProductView) -> Option<(Seq<char>, Seq<char>, Seq<char>)> {
    if p.active && p.alias_name is Some {
        Some((p.category, p.source, p.alias_name->0))
    } else {
        None
    }
}

/// Product `j` claims an alias slot that an earlier product already claims.
pub open spec fn duplicate_at(ps: Seq<ProductView>, j: int) -> bool {
    &&& 0 <= j < ps.len()
    &&& alias_slot(ps[j]) is Some
    &&& exists|i: int| 0 <= i < j && #[trigger] alias_slot(ps[i]) == alias_slot(ps[j])
}

/// The registry breaks the alias rule exactly when two products, both active and
/// both aliased, name the same category, the same source and the same alias:
/// aliases under another source or another category are other slots.
pub proof fn lemma_duplicate_is_same_slot(ps: Seq<ProductView>)
    ensures
        (exists|j: int| 0 <= j < ps.len() && #[trigger] duplicate_at(ps, j)) <==> exists|i: int, j: int|
            0 <= i < j < ps.len() && {
                let a = #[trigger] ps[i];
                let b = #[trigger] ps[j];
                &&& a.active && b.active
                &&& a.alias_name is Some && b.alias_name is Some
                &&& a.category == b.category
                &&& a.source == b.source
                &&& a.alias_name == b.alias_name
            },
{
    if exists|j: int| 0 <= j < ps.len() && #[trigger] duplicate_at(ps, j) {
        let j = choose|j: int| 0 <= j < ps.len() && #[trigger] duplicate_at(ps, j);
        let i = choose|i: int| 0 <= i < j && #[trigger] alias_slot(ps[i]) == alias_slot(ps[j]);
        assert(ps[i].alias_name == Some(ps[i].alias_name->0));
        assert(ps[j].alias_name == Some(ps[j].alias_name->0));
    }
    if exists|i: int, j: int|
        0 <= i < j < ps.len() && {
            let a = #[trigger] ps[i];
            let b = #[trigger] ps[j];
            &&& a.active && b.active
            &&& a.alias_name is Some && b.alias_name is Some
            &&& a.category == b.category
            &&& a.source == b.source
            &&& a.alias_name == b.alias_name
        } {
        let (i, j) = choose|i: int, j: int|
            0 <= i < j < ps.len() && {
                let a = #[trigger] ps[i];
                let b = #[trigger] ps[j];
                &&& a.active && b.active
                &&& a.alias_name is Some && b.alias_name is Some
                &&& a.category == b.category
                &&& a.source == b.source
                &&& a.alias_name == b.alias_name
            };
        assert(alias_slot(ps[i]) == alias_slot(ps[j]));
        assert(duplicate_at(ps, j));
    }
}

/// The error text for a duplicated alias slot.
pub open spec fn duplicate_message(p: ProductView) -> Seq<char> {
    "duplicate active alias: "@ + p.category + "/"@ + p.source + "/"@ + p.alias_name->0
}

/// The characters of a slot of three strings.
pub open spec fn slot_view(t: (&str, &str, &str)) -> (Seq<char>, Seq<char>, Seq<char>) {
    (t.0@, t.1@, t.2@)
}

/// The alias slots claimed by the first `n` products, in order.
pub open spec fn claimed_slots(ps: Seq<ProductView>, n: int) -> Seq<(Seq<char>, Seq<char>, Seq<char>)>
    decreases n,
{
    if n <= 0 {
        seq![]
    } else {
        let prev = claimed_slots(ps, n - 1);
        match alias_slot(ps[n - 1]) {
            Some(x) => prev.push(x),
            None => prev,
        }
    }
}

proof fn lemma_claimed_slots(ps: Seq<ProductView>, n: int, x: (Seq<char>, Seq<char>, Seq<char>))
    requires
        0 <= n <= ps.len(),
    ensures
        claimed_slots(ps, n).contains(x) <==> exists|i: int|
            0 <= i < n && #[trigger] alias_slot(ps[i]) == Some(x),
    decreases n,
{
    if n > 0 {
        lemma_claimed_slots(ps, n - 1, x);
        let prev = claimed_slots(ps, n - 1);
        if claimed_slots(ps, n).contains(x) {
            let k = choose|k: int| 0 <= k < claimed_slots(ps, n).len() && claimed_slots(ps, n)[k] == x;
            if k < prev.len() {
                assert(prev[k] == x);
            } else {
                assert(alias_slot(ps[n - 1]) == Some(x));
            }
        }
        if exists|i: int| 0 <= i < n && #[trigger] alias_slot(ps[i]) == Some(x) {
            let i = choose|i: int| 0 <= i < n && #[trigger] alias_slot(ps[i]) == Some(x);
            if i < n - 1 {
                let k = choose|k: int| 0 <= k < prev.len() && prev[k] == x;
                assert(claimed_slots(ps, n)[k] == x);
            } else {
                assert(claimed_slots(ps, n)[prev.len() as int] == x);
            }
        }
    }
}

fn contains_slot(
    seen: &Vec<(&'static str, &'static str, &'static str)>,
    category: &str,
    source: &str,
    alias: &str,
) -> (r: bool)
    ensures
        r == seen@.map_values(|t: (&str, &str, &str)| slot_view(t)).contains(
            (category@, source@, alias@),
        ),
{
    let ghost sv = seen@.map_values(|t: (&str, &str, &str)| slot_view(t));
    let n = seen.len();
    for k in 0..n
        invariant
            n == seen@.len(),
            sv == seen@.map_values(|t: (&str, &str, &str)| slot_view(t)),
            forall|m: int| 0 <= m < k ==> sv[m] != (category@, source@, alias@),
    {
        let (c, s, a) = seen[k];
        if str_eq(c, category) && str_eq(s, source) && str_eq(a, alias) {
            proof {
                assert(sv[k as int] == (category@, source@, alias@));
            }
            return true;
        }
    }
    false
}

/// Enforce: at most one active product per (category, source, alias_name).
pub fn validate_registry(items: &[Product]) -> (r: Result<(), String>)
    ensures
        r is Ok <==> forall|j: int| 0 <= j < items@.len() ==> !duplicate_at(views(items@), j),
        r matches Err(m) ==> exists|j: int|
            {
                &&& duplicate_at(views(items@), j)
                &&& forall|k: int| 0 <= k < j ==> !duplicate_at(views(items@), k)
                &&& m@ == duplicate_message(views(items@)[j])
            },
{
    let ghost vs = views(items@);
    let mut seen: Vec<(&'static str, &'static str, &'static str)> = Vec::new();
    let n = items.len();
    for j in 0..n
        invariant
            n == items@.len(),
            vs == views(items@),
            forall|k: int| 0 <= k < j ==> !duplicate_at(vs, k),
            seen@.map_values(|t: (&str, &str, &str)| slot_view(t)) == claimed_slots(vs, j as int),
    {
        let p = &items[j];
        proof {
            assert(vs[j as int] == p@);
        }
        if p.active {
            if let Some(alias) = p.alias_name {
                let found = contains_slot(&seen, p.category, p.source, alias);
                proof {
                    lemma_claimed_slots(vs, j as int, (p.category@, p.source@, alias@));
                    assert(alias_slot(vs[j as int]) == Some((p.category@, p.source@, alias@)));
                    assert(found == duplicate_at(vs, j as int));
                }
                if found {
                    let mut msg = owned("duplicate active alias: ");
                    msg.append(p.category);
                    msg.append("/");
                    msg.append(p.source);
                    msg.append("/");
                    msg.append(alias);
                    proof {
                        assert(msg@ =~= duplicate_message(vs[j as int]));
                    }
                    return Err(msg);
                }
                let ghost before = seen@;
                seen.push((p.category, p.source, alias));
                proof {
                    assert(seen@.map_values(|t: (&str, &str, &str)| slot_view(t)) =~= before.map_values(
                        |t: (&str, &str, &str)| slot_view(t),
                    ).push((p.category@, p.source@, alias@)));
                }
            }
        }
    }
    Ok(())
}

/// The registry holds fifteen products, all active, and claims each alias slot
/// at most once, so it passes `validate_registry`.
pub proof fn lemma_registry_valid()
    ensures
        registry().len() == 15,
        forall|j: int| 0 <= j < registry().len() ==> (#[trigger] registry()[j]).active,
        forall|j: int| 0 <= j < registry().len() ==> !duplicate_at(registry(), j),
{
    let r = registry();
    assert forall|j: int| 0 <= j < r.len() implies (#[trigger] r[j]).active && (alias_slot(r[j]) is Some
        ==> j == 1) by {
        if j >= FIXED_PRODUCT_COUNT {
            assert(r[j] == group_product(group_slug(j - FIXED_PRODUCT_COUNT)));
        }
    }
}

} // verus!
