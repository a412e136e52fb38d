//! Static landing page generated from the product registry.

use vstd::prelude::*;

use crate::duration::{whole_millis, Duration, NANOS_PER_SEC};
use crate::keys::{alias_key, object_key, object_key_of, alias_key_of, url_of, url_on};
use crate::products::Product;
use crate::schedule::{Schedule, Weekday};
use crate::text::{decimal, decimal2, decimal_string, owned, push_decimal, push_decimal2, str_eq};

verus! {

/// Everything of the page before the product sections: head, styles and header.
pub const PAGE_HEAD: &'static str = r#"<!DOCTYPE html>
<html lang="en">
<head>
<meta charset="utf-8">
<meta name="viewport" content="width=device-width, initial-scale=1">
<title>Simple Space Data Mirror</title>
<style>
:root{color-scheme:light dark}
*{box-sizing:border-box}
body{font-family:system-ui,-apple-system,sans-serif;max-width:96rem;margin:0 auto;
padding:2.5rem 1.25rem 4rem;line-height:1.55}
header{text-align:center;margin-bottom:2rem}
h1{margin:.2rem 0;font-size:1.7rem}
header p{max-width:42rem;margin:.6rem auto;color:#555}
@media(prefers-color-scheme:dark){header p{color:#aaa}}
code{background:rgba(127,127,127,.18);padding:.1rem .35rem;border-radius:4px;font-size:.9em}
details{margin:1rem 0;border:1px solid rgba(127,127,127,.25);border-radius:8px;padding:.5rem 1rem}
summary{font-size:1.15rem;font-weight:600;cursor:pointer;padding:.3rem 0}
h2.prov{font-size:.95rem;font-weight:600;color:#666;margin:1rem 0 .3rem}
@media(prefers-color-scheme:dark){h2.prov{color:#aaa}}
table{border-collapse:collapse;width:100%;font-size:.88rem}
th,td{padding:.5rem .6rem;text-align:left;border-bottom:1px solid rgba(127,127,127,.25);
vertical-align:top}
th{font-weight:600;white-space:nowrap}
tr.discontinued td{opacity:.55}
a{color:#2563eb;text-decoration:none}
a:hover{text-decoration:underline}
.tw{overflow-x:auto}
td.dl a{white-space:nowrap}
.hash{font-family:ui-monospace,monospace;font-size:.82rem}
.copy{margin-left:.4rem;cursor:pointer;border:1px solid rgba(127,127,127,.4);
background:transparent;border-radius:4px;padding:.05rem .4rem;font-size:.75rem;color:inherit}
.copy:hover{background:rgba(127,127,127,.15)}
.rel{white-space:nowrap}
.links a{font-size:.78rem;margin-left:.35rem}
.freq{white-space:nowrap}
td.dotcell{width:1rem;padding-right:0}
.dot{display:inline-block;width:.6rem;height:.6rem;border-radius:50%;background:#bbb;vertical-align:middle}
.lvl0{color:#16a34a} .lvl1{color:#d97706} .lvl2{color:#dc2626}
.dot.lvl0{background:#22c55e} .dot.lvl1{background:#f59e0b} .dot.lvl2{background:#ef4444}
@media(prefers-color-scheme:dark){
.lvl0{color:#4ade80} .lvl1{color:#fbbf24} .lvl2{color:#f87171}}
footer{text-align:center;margin-top:2rem;color:#888;font-size:.8rem}
footer a{color:inherit;text-decoration:underline}
</style>
</head>
<body>
<header>
<h1>Simple Space Data Mirror</h1>
<p>A public mirror of major public space data sources commonly used in astrodynamics
computations. Developed and maintained for use with
<a href="https://github.com/duncaneddy/brahe">brahe</a> to provide redundancy in parameter
sources. Each file refreshes on its own schedule
(from every few hours to weekly) and are served at stable URLs of the form
<code>/&lt;category&gt;/&lt;source&gt;/&lt;name&gt;/latest/&lt;filename&gt;</code>.</p>
</header>
"#;

/// Everything of the page after the product sections: footer and the script that
/// fills freshness, size and hash cells from `/status.json`.
pub const PAGE_TAIL: &'static str = r#"<footer>Source on <a href="https://github.com/duncaneddy/ssdm">GitHub</a> — found a bug or have a suggestion?
<a href="https://github.com/duncaneddy/ssdm/issues/new">Open an issue</a>.</footer>
<script>
function rel(ms){
  if(!ms) return "—";
  var s=Math.max(0,(Date.now()-ms)/1000);
  if(s<90) return Math.round(s)+"s ago";
  if(s<5400) return Math.round(s/60)+"m ago";
  if(s<172800) return Math.round(s/3600)+"h ago";
  return Math.round(s/86400)+"d ago";
}
function abs(ms){ return ms ? new Date(ms).toISOString() : ""; }
function fmtSize(b){
  if(!b) return "—";
  if(b<1024) return b+" B";
  var u=["KB","MB","GB","TB"], i=-1;
  do { b/=1024; i++; } while(b>=1024 && i<u.length-1);
  return b.toFixed(1)+" "+u[i];
}
fetch("/status.json").then(function(r){return r.ok?r.json():{};}).then(function(st){
  var now=Date.now();
  document.querySelectorAll("tr[data-key]").forEach(function(tr){
    var e=st[tr.getAttribute("data-key")]; if(!e) return;
    var up=tr.querySelector(".updated"), ck=tr.querySelector(".checked"),
        hs=tr.querySelector(".hashval"), bt=tr.querySelector(".hash .copy"),
        sz=tr.querySelector(".sizeval"), dot=tr.querySelector(".dot");
    var iv=parseFloat(tr.getAttribute("data-interval-ms"))||0;
    // staleness level vs the product cadence: 0 green (<=1x), 1 amber (<=3x),
    // 2 red (beyond), -1 unknown. Returns -1 when the timestamp or cadence is absent.
    function lvl(ms){ if(!ms||!iv) return -1; var r=(now-ms)/iv; return r<=1?0:(r<=3?1:2); }
    function paint(el,l){ if(l>=0) el.classList.add("lvl"+l); }

    up.textContent=rel(e.last_updated); up.title=abs(e.last_updated);
    // "Last checked" shows the most recent attempt (advances every cycle, success
    // or failure); its color tracks the last SUCCESSFUL check, so a source that is
    // attempted but failing reads e.g. "5m ago" in amber/red.
    var attempt=e.last_attempt||e.last_checked;
    ck.textContent=rel(attempt);
    ck.title=(e.last_checked && e.last_checked!==attempt)
      ? "attempted "+abs(attempt)+"; last success "+abs(e.last_checked)
      : abs(attempt);
    if(sz){ sz.textContent=fmtSize(e.size); if(e.size) sz.title=e.size+" bytes"; }

    var c=lvl(e.last_checked), u=lvl(e.last_updated);
    paint(ck,c); paint(up,u);
    paint(dot,Math.max(c,u));  // dot = worse of connectivity and data freshness

    if(e.hash){ hs.textContent=e.hash.slice(0,12)+"…"; bt.dataset.copy=e.hash; bt.hidden=false; }
  });
}).catch(function(){});
document.addEventListener("click",function(ev){
  var b=ev.target.closest(".copy"); if(!b||!b.dataset.copy) return;
  navigator.clipboard.writeText(b.dataset.copy).then(function(){
    var t=b.textContent; b.textContent="copied"; setTimeout(function(){b.textContent=t;},1200);
  });
});
</script>
</body>
</html>
"#;

/// Column headings of every provider table.
pub const TABLE_HEAD: &'static str = "<div class=\"tw\"><table>\n<thead><tr><th class=\"dh\"></th><th>Product</th><th>Frequency</th><th>Mirror URL</th><th>Size</th><th>Last updated</th><th>Last checked</th><th>Hash (md5)</th></tr></thead>\n<tbody>\n";

/// The cells of a row after the mirror URL's copy target.
pub const ROW_END: &'static str = "\">copy</button></td><td class=\"size\"><span class=\"sizeval\">\u{2014}</span></td><td class=\"rel updated\">\u{2014}</td><td class=\"rel checked\">\u{2014}</td><td class=\"hash\"><span class=\"hashval\">\u{2014}</span><button class=\"copy\" hidden>copy</button></td></tr>\n";

// ---------------------------------------------------------------------------
// Attribute escaping

/// The escaped form of one character inside a double-quoted HTML attribute.
pub open spec fn esc_char(c: char) -> Seq<char> {
    if c == '&' {
        "&amp;"@
    } else if c == '"' {
        "&quot;"@
    } else if c == '<' {
        "&lt;"@
    } else {
        seq![c]
    }
}

/// Minimal escaping for values placed inside a double-quoted HTML attribute:
/// `&`, `"` and `<` become entities, every other character stays.
pub open spec fn esc(s: Seq<char>) -> Seq<char>
    decreases s.len(),
{
    if s.len() == 0 {
        seq![]
    } else {
        esc(s.drop_last()) + esc_char(s.last())
    }
}

proof fn lemma_esc_plain_run(s: Seq<char>, a: int, b: int)
    requires
        0 <= a <= b <= s.len(),
        forall|j: int| a <= j < b ==> s[j] != '&' && s[j] != '"' && s[j] != '<',
    ensures
        esc(s.take(b)) == esc(s.take(a)) + s.subrange(a, b),
    decreases b - a,
{
    if a < b {
        lemma_esc_plain_run(s, a, b - 1);
        assert(s.take(b).drop_last() =~= s.take(b - 1));
        assert(s.subrange(a, b - 1).push(s[b - 1]) =~= s.subrange(a, b));
    } else {
        assert(s.subrange(a, b) =~= Seq::<char>::empty());
    }
}

/// Minimal escaping for values placed inside a double-quoted HTML attribute.
pub fn esc_attr(s: &str) -> (r: String)
    ensures
        r@ == esc(s@),
{
    proof {
        reveal_strlit("&amp;");
        reveal_strlit("&quot;");
        reveal_strlit("&lt;");
    }
    let n = s.unicode_len();
    let mut out = String::new();
    let mut run: usize = 0;
    let mut i: usize = 0;
    proof {
        assert(s@.take(0) =~= Seq::<char>::empty());
    }
    while i < n
        invariant
            n == s@.len(),
            run <= i <= n,
            out@ == esc(s@.take(run as int)),
            forall|j: int| run <= j < i ==> s@[j] != '&' && s@[j] != '"' && s@[j] != '<',
        decreases n - i,
    {
        let c = s.get_char(i);
        if c == '&' || c == '"' || c == '<' {
            out.append(s.substring_char(run, i));
            proof {
                lemma_esc_plain_run(s@, run as int, i as int);
            }
            if c == '&' {
                out.append("&amp;");
            } else if c == '"' {
                out.append("&quot;");
            } else {
                out.append("&lt;");
            }
            proof {
                assert(s@.take(i + 1).drop_last() =~= s@.take(i as int));
                assert(out@ =~= esc(s@.take(i + 1)));
            }
            run = i + 1;
        }
        i = i + 1;
    }
    out.append(s.substring_char(run, n));
    proof {
        lemma_esc_plain_run(s@, run as int, n as int);
        assert(s@.take(n as int) =~= s@);
    }
    out
}

/// Reads the entities that `esc` writes back as characters, in one pass from the
/// left: `&amp;` gives `&`, `&quot;` gives `"`, `&lt;` gives `<`, and every other
/// character stays.
pub open spec fn unesc(t: Seq<char>) -> Seq<char>
    decreases t.len(),
{
    if t.len() == 0 {
        seq![]
    } else if t.len() >= 5 && t.take(5) == seq!['&', 'a', 'm', 'p', ';'] {
        seq!['&'] + unesc(t.skip(5))
    } else if t.len() >= 6 && t.take(6) == seq!['&', 'q', 'u', 'o', 't', ';'] {
        seq!['"'] + unesc(t.skip(6))
    } else if t.len() >= 4 && t.take(4) == seq!['&', 'l', 't', ';'] {
        seq!['<'] + unesc(t.skip(4))
    } else {
        seq![t[0]] + unesc(t.skip(1))
    }
}

proof fn lemma_esc_char_literals()
    ensures
        esc_char('&') == seq!['&', 'a', 'm', 'p', ';'],
        esc_char('"') == seq!['&', 'q', 'u', 'o', 't', ';'],
        esc_char('<') == seq!['&', 'l', 't', ';'],
{
    reveal_strlit("&amp;");
    reveal_strlit("&quot;");
    reveal_strlit("&lt;");
    assert("&amp;"@ =~= seq!['&', 'a', 'm', 'p', ';']);
    assert("&quot;"@ =~= seq!['&', 'q', 'u', 'o', 't', ';']);
    assert("&lt;"@ =~= seq!['&', 'l', 't', ';']);
}

/// Escaping a text is escaping its first character, then the rest.
proof fn lemma_esc_first(s: Seq<char>)
    requires
        s.len() > 0,
    ensures
        esc(s) == esc_char(s[0]) + esc(s.skip(1)),
    decreases s.len(),
{
    if s.len() == 1 {
        assert(s.drop_last() =~= Seq::<char>::empty());
        assert(s.skip(1) =~= Seq::<char>::empty());
        assert(esc_char(s[0]) + Seq::<char>::empty() =~= esc_char(s[0]));
    } else {
        let d = s.drop_last();
        lemma_esc_first(d);
        assert(d.skip(1) =~= s.skip(1).drop_last());
        assert(s.skip(1).last() == s.last());
        assert(esc(s.skip(1)) == esc(s.skip(1).drop_last()) + esc_char(s.last()));
        assert(esc_char(s[0]) + esc(d.skip(1)) + esc_char(s.last()) =~= esc_char(s[0]) + (esc(
            d.skip(1),
        ) + esc_char(s.last())));
    }
}

proof fn lemma_unesc_esc(s: Seq<char>)
    ensures
        unesc(esc(s)) == s,
    decreases s.len(),
{
    if s.len() > 0 {
        let c = s[0];
        let rest = esc(s.skip(1));
        let e = esc_char(c);
        let t = e + rest;
        lemma_esc_first(s);
        lemma_esc_char_literals();
        lemma_unesc_esc(s.skip(1));
        assert(t.skip(e.len() as int) =~= rest);
        assert(t.take(e.len() as int) =~= e);
        if c == '&' {
            assert(t.take(5) =~= seq!['&', 'a', 'm', 'p', ';']);
        } else if c == '"' {
            assert(t.take(5)[1] == 'q');
            assert(t.take(6) =~= seq!['&', 'q', 'u', 'o', 't', ';']);
        } else if c == '<' {
            if t.len() >= 5 {
                assert(t.take(5)[1] == 'l');
            }
            if t.len() >= 6 {
                assert(t.take(6)[1] == 'l');
            }
            assert(t.take(4) =~= seq!['&', 'l', 't', ';']);
        } else {
            assert(t[0] == c);
            if t.len() >= 5 {
                assert(t.take(5)[0] == c);
            }
            if t.len() >= 6 {
                assert(t.take(6)[0] == c);
            }
            if t.len() >= 4 {
                assert(t.take(4)[0] == c);
            }
        }
        assert(s =~= seq![c] + s.skip(1));
    }
}

proof fn lemma_esc_keeps_out(s: Seq<char>)
    ensures
        forall|i: int| 0 <= i < esc(s).len() ==> #[trigger] esc(s)[i] != '"' && esc(s)[i] != '<',
    decreases s.len(),
{
    if s.len() > 0 {
        lemma_esc_keeps_out(s.drop_last());
        lemma_esc_char_literals();
        let a = esc(s.drop_last());
        let b = esc_char(s.last());
        assert forall|i: int| 0 <= i < esc(s).len() implies #[trigger] esc(s)[i] != '"' && esc(
            s,
        )[i] != '<' by {
            if i >= a.len() {
                assert(esc(s)[i] == b[i - a.len()]);
            } else {
                assert(esc(s)[i] == a[i]);
            }
        }
    }
}

/// What `esc_attr` writes can stand inside a double-quoted attribute and be read
/// back: it holds no `"` and no `<`, reading its entities back gives the input,
/// and a text with no `&`, `"` or `<` comes out unchanged.
pub proof fn lemma_esc_round_trip(s: Seq<char>)
    ensures
        !esc(s).contains('"'),
        !esc(s).contains('<'),
        unesc(esc(s)) == s,
        (forall|j: int| 0 <= j < s.len() ==> s[j] != '&' && s[j] != '"' && s[j] != '<') ==> esc(s)
            == s,
{
    lemma_esc_keeps_out(s);
    lemma_unesc_esc(s);
    if forall|j: int| 0 <= j < s.len() ==> s[j] != '&' && s[j] != '"' && s[j] != '<' {
        lemma_esc_plain_run(s, 0, s.len() as int);
        assert(s.take(0) =~= Seq::<char>::empty());
        assert(s.subrange(0, s.len() as int) =~= s);
        assert(Seq::<char>::empty() + s =~= s);
    }
}

// ---------------------------------------------------------------------------
// Labels

/// Display name of a category.
pub open spec fn category_label_of(cat: Seq<char>) -> Seq<char> {
    if cat == "eop"@ {
        "Earth Orientation Parameters"@
    } else if cat == "space_weather"@ {
        "Space Weather"@
    } else if cat == "catalog"@ {
        "Ephemeris"@
    } else {
        cat
    }
}

/// Display name of a category.
pub fn category_label<'a>(cat: &'a str) -> (r: &'a str)
    ensures
        r@ == category_label_of(cat@),
{
    if str_eq(cat, "eop") {
        "Earth Orientation Parameters"
    } else if str_eq(cat, "space_weather") {
        "Space Weather"
    } else if str_eq(cat, "catalog") {
        "Ephemeris"
    } else {
        cat
    }
}

/// Display name of a provider.
pub open spec fn provider_label_of(src: Seq<char>) -> Seq<char> {
    if src == "iers"@ {
        "IERS"@
    } else if src == "usno"@ {
        "USNO"@
    } else if src == "obspm"@ {
        "Paris Observatory"@
    } else if src == "celestrak"@ {
        "CelesTrak"@
    } else {
        src
    }
}

/// Display name of a provider.
pub fn provider_label<'a>(src: &'a str) -> (r: &'a str)
    ensures
        r@ == provider_label_of(src@),
{
    if str_eq(src, "iers") {
        "IERS"
    } else if str_eq(src, "usno") {
        "USNO"
    } else if str_eq(src, "obspm") {
        "Paris Observatory"
    } else if str_eq(src, "celestrak") {
        "CelesTrak"
    } else {
        src
    }
}

/// Plural English name of a weekday.
pub open spec fn weekday_plural_of(w: Weekday) -> Seq<char> {
    match w {
        Weekday::Mon => "Mondays"@,
        Weekday::Tue => "Tuesdays"@,
        Weekday::Wed => "Wednesdays"@,
        Weekday::Thu => "Thursdays"@,
        Weekday::Fri => "Fridays"@,
        Weekday::Sat => "Saturdays"@,
        Weekday::Sun => "Sundays"@,
    }
}

/// Plural English name of a weekday.
pub fn weekday_plural(w: Weekday) -> (r: &'static str)
    ensures
        r@ == weekday_plural_of(w),
{
    match w {
        Weekday::Mon => "Mondays",
        Weekday::Tue => "Tuesdays",
        Weekday::Wed => "Wednesdays",
        Weekday::Thu => "Thursdays",
        Weekday::Fri => "Fridays",
        Weekday::Sat => "Saturdays",
        Weekday::Sun => "Sundays",
    }
}

// ---------------------------------------------------------------------------
// Frequencies

/// Short human label for a polling interval: `daily`, `weekly`, or a count of
/// days, else of hours, else of minutes (whole seconds of the interval, counted
/// down to the largest unit that divides them).
pub open spec fn interval_label(d: Duration) -> Seq<char> {
    let secs = d@ / (NANOS_PER_SEC as nat);
    if secs % 86_400 == 0 {
        let days = secs / 86_400;
        if days == 1 {
            "daily"@
        } else if days == 7 {
            "weekly"@
        } else {
            decimal(days) + "d"@
        }
    } else if secs % 3_600 == 0 {
        decimal(secs / 3_600) + "h"@
    } else {
        decimal(secs / 60) + "m"@
    }
}

/// Short human label for a polling interval, e.g. `daily`, `weekly`, `6h`, `90m`.
pub fn humanize_interval(d: Duration) -> (r: String)
    ensures
        r@ == interval_label(d),
{
    let secs = d.as_secs();
    if secs % 86_400 == 0 {
        let days = secs / 86_400;
        if days == 1 {
            owned("daily")
        } else if days == 7 {
            owned("weekly")
        } else {
            let mut r = decimal_string(days as u128);
            r.append("d");
            r
        }
    } else if secs % 3_600 == 0 {
        let mut r = decimal_string((secs / 3_600) as u128);
        r.append("h");
        r
    } else {
        let mut r = decimal_string((secs / 60) as u128);
        r.append("m");
        r
    }
}

/// `HH:MM` of a time of day (hours are not wrapped at 24).
pub open spec fn time_of_day_label(d: Duration) -> Seq<char> {
    let total_min = d@ / (NANOS_PER_SEC as nat) / 60;
    decimal2(total_min / 60) + ":"@ + decimal2(total_min % 60)
}

/// `HH:MM` of a time of day, each part zero-padded to two digits.
pub fn fmt_time_of_day(d: Duration) -> (r: String)
    ensures
        r@ == time_of_day_label(d),
{
    let total_min = d.as_secs() / 60;
    let mut r = String::new();
    push_decimal2(&mut r, total_min / 60);
    r.append(":");
    push_decimal2(&mut r, total_min % 60);
    proof {
        assert(r@ =~= time_of_day_label(d));
    }
    r
}

/// Human label of a schedule: the interval label, or `<Weekday>s from HH:MM UTC`.
pub open spec fn schedule_label(s: Schedule) -> Seq<char> {
    match s {
        Schedule::Every(d) => interval_label(d),
        Schedule::WeeklyAt { weekday, time } => weekday_plural_of(weekday) + " from "@
            + time_of_day_label(time) + " UTC"@,
    }
}

/// Human label of a schedule.
pub fn humanize_schedule(s: &Schedule) -> (r: String)
    ensures
        r@ == schedule_label(*s),
{
    match s {
        Schedule::Every(d) => humanize_interval(*d),
        Schedule::WeeklyAt { weekday, time } => {
            let mut r = owned(weekday_plural(*weekday));
            r.append(" from ");
            r.append(fmt_time_of_day(*time).as_str());
            r.append(" UTC");
            r
        },
    }
}

// ---------------------------------------------------------------------------
// Rows

/// The upstream-source link and, when the product has one, the info link.
pub open spec fn links_of(p: Product) -> Seq<char> {
    " <a class=\"src\" href=\""@ + esc(p.url@) + "\" title=\"Upstream source\">source</a>"@ + (
    match p.info_url {
        Some(info) => " <a class=\"info\" href=\""@ + esc(info@)
            + "\" title=\"Product information\">\u{24D8}</a>"@,
        None => seq![],
    })
}

/// The frequency text of a product: its cadence label, else its schedule's label.
pub open spec fn frequency_of(p: Product) -> Seq<char> {
    match p.cadence_label {
        Some(l) => l@,
        None => schedule_label(p.schedule),
    }
}

fn push_links(out: &mut String, p: &Product)
    ensures
        final(out)@ == old(out)@ + links_of(*p),
{
    out.append(" <a class=\"src\" href=\"");
    out.append(esc_attr(p.url.as_str()).as_str());
    out.append("\" title=\"Upstream source\">source</a>");
    if let Some(info) = p.info_url {
        out.append(" <a class=\"info\" href=\"");
        out.append(esc_attr(info).as_str());
        out.append("\" title=\"Product information\">\u{24D8}</a>");
    }
    proof {
        assert(final(out)@ =~= old(out)@ + links_of(*p));
    }
}

fn push_frequency(out: &mut String, p: &Product)
    ensures
        final(out)@ == old(out)@ + frequency_of(*p),
{
    match p.cadence_label {
        Some(l) => out.append(l),
        None => out.append(humanize_schedule(&p.schedule).as_str()),
    }
}

/// The opening tag of a row: status key, nominal period, discontinued marker.
pub open spec fn row_open(p: Product, key: Seq<char>) -> Seq<char> {
    "<tr data-key=\""@ + key + "\" data-interval-ms=\""@ + decimal(whole_millis(p.schedule.period())) + "\""@ + (
    if p.active {
        seq![]
    } else {
        " class=\"discontinued\""@
    }) + ">"@
}

fn push_row_open(out: &mut String, p: &Product, key: &str)
    ensures
        final(out)@ == old(out)@ + row_open(*p, key@),
{
    out.append("<tr data-key=\"");
    out.append(key);
    out.append("\" data-interval-ms=\"");
    push_decimal(out, p.schedule.nominal_period().as_millis());
    out.append("\"");
    if !p.active {
        out.append(" class=\"discontinued\"");
    }
    out.append(">");
    proof {
        assert(final(out)@ =~= old(out)@ + row_open(*p, key@));
    }
}

/// The cells of a row before the links: status dot, then the label.
pub open spec fn row_head(p: Product, key: Seq<char>, label: Seq<char>) -> Seq<char> {
    row_open(p, key) + "<td class=\"dotcell\"><span class=\"dot\"></span></td><td>"@ + label
        + "<span class=\"links\">"@
}

/// The cells of a row from the mirror URL on.
pub open spec fn row_url_cells(url: Seq<char>) -> Seq<char> {
    "</td><td class=\"dl\"><a href=\""@ + url + "\">"@ + url
        + "</a><button class=\"copy\" data-copy=\""@ + esc(url) + ROW_END@
}

/// One table row: the status key for the freshness lookup, the nominal period in
/// ms, a discontinued marker for inactive products, the status dot, the label with
/// its links, the frequency, the mirror URL with a copy button, and the cells the
/// page's script fills from `/status.json`.
pub open spec fn row(p: Product, key: Seq<char>, label: Seq<char>, url: Seq<char>) -> Seq<char> {
    row_head(p, key, label) + links_of(p) + "</span></td><td class=\"freq\">"@ + frequency_of(p)
        + row_url_cells(url)
}

fn push_url_cells(out: &mut String, url: &str)
    ensures
        final(out)@ == old(out)@ + row_url_cells(url@),
{
    out.append("</td><td class=\"dl\"><a href=\"");
    out.append(url);
    out.append("\">");
    out.append(url);
    out.append("</a><button class=\"copy\" data-copy=\"");
    out.append(esc_attr(url).as_str());
    out.append(ROW_END);
    proof {
        assert(final(out)@ =~= old(out)@ + row_url_cells(url@));
    }
}

fn push_row_head(out: &mut String, p: &Product, key: &str, label: &str)
    ensures
        final(out)@ == old(out)@ + row_head(*p, key@, label@),
{
    push_row_open(out, p, key);
    out.append("<td class=\"dotcell\"><span class=\"dot\"></span></td><td>");
    out.append(label);
    out.append("<span class=\"links\">");
    proof {
        assert(final(out)@ =~= old(out)@ + row_head(*p, key@, label@));
    }
}

/// Appends one table row for product `p`.
pub fn push_row(out: &mut String, p: &Product, key: &str, label: &str, url: &str)
    ensures
        final(out)@ == old(out)@ + row(*p, key@, label@, url@),
{
    push_row_head(out, p, key, label);
    push_links(out, p);
    out.append("</span></td><td class=\"freq\">");
    push_frequency(out, p);
    push_url_cells(out, url);
    proof {
        assert(final(out)@ =~= old(out)@ + row(*p, key@, label@, url@));
    }
}

/// The label of a product's own row: `category/source/name`.
pub open spec fn primary_label(p: Product) -> Seq<char> {
    p.category@ + "/"@ + p.source@ + "/"@ + p.name@
}

/// The label of a product's alias row: `category/source/alias (alias)`.
pub open spec fn alias_label(p: Product) -> Seq<char> {
    p.category@ + "/"@ + p.source@ + "/"@ + p.alias_name->0@ + " (alias)"@
}

/// The rows of one product: its own row, and an alias row that is served at the
/// alias URL but carries the product's own status key.
pub open spec fn product_rows(domain: Seq<char>, p: Product) -> Seq<char> {
    let key = object_key_of(p);
    row(p, key, primary_label(p), url_of(domain, key)) + match alias_key_of(p) {
        Some(akey) => row(p, key, alias_label(p), url_of(domain, akey)),
        None => seq![],
    }
}

fn push_product_rows(out: &mut String, domain: &str, p: &Product)
    ensures
        final(out)@ == old(out)@ + product_rows(domain@, *p),
{
    let key = object_key(p);
    let mut label = owned(p.category);
    label.append("/");
    label.append(p.source);
    label.append("/");
    label.append(p.name);
    proof {
        assert(label@ =~= primary_label(*p));
    }
    push_row(out, p, key.as_str(), label.as_str(), url_on(domain, key.as_str()).as_str());
    let ghost mid = out@;
    if let Some(akey) = alias_key(p) {
        let alias = match p.alias_name {
            Some(a) => a,
            None => "",
        };
        let mut alias_lbl = owned(p.category);
        alias_lbl.append("/");
        alias_lbl.append(p.source);
        alias_lbl.append("/");
        alias_lbl.append(alias);
        alias_lbl.append(" (alias)");
        proof {
            assert(alias_lbl@ =~= alias_label(*p));
        }
        push_row(out, p, key.as_str(), alias_lbl.as_str(), url_on(domain, akey.as_str()).as_str());
    }
    proof {
        assert(final(out)@ =~= old(out)@ + product_rows(domain@, *p));
    }
}

// ---------------------------------------------------------------------------
// Sections

/// The values of a sequence in the order each is first seen, each once.
pub open spec fn first_seen(s: Seq<Seq<char>>) -> Seq<Seq<char>>
    decreases s.len(),
{
    if s.len() == 0 {
        seq![]
    } else {
        let f = first_seen(s.drop_last());
        if f.contains(s.last()) {
            f
        } else {
            f.push(s.last())
        }
    }
}

/// The categories of the products, in registry order.
pub open spec fn category_list(items: Seq<Product>) -> Seq<Seq<char>>
    decreases items.len(),
{
    if items.len() == 0 {
        seq![]
    } else {
        category_list(items.drop_last()).push(items.last().category@)
    }
}

/// The sources of the products of category `cat`, in registry order.
pub open spec fn source_list(items: Seq<Product>, cat: Seq<char>) -> Seq<Seq<char>>
    decreases items.len(),
{
    if items.len() == 0 {
        seq![]
    } else if items.last().category@ == cat {
        source_list(items.drop_last(), cat).push(items.last().source@)
    } else {
        source_list(items.drop_last(), cat)
    }
}

/// The rows of every product of category `cat` and source `prov`, in registry order.
pub open spec fn rows_of(domain: Seq<char>, items: Seq<Product>, cat: Seq<char>, prov: Seq<char>) -> Seq<
    char,
>
    decreases items.len(),
{
    if items.len() == 0 {
        seq![]
    } else {
        rows_of(domain, items.drop_last(), cat, prov) + if items.last().category@ == cat
            && items.last().source@ == prov {
            product_rows(domain, items.last())
        } else {
            seq![]
        }
    }
}

/// The sequences joined end to end.
pub open spec fn concat_all(s: Seq<Seq<char>>) -> Seq<char>
    decreases s.len(),
{
    if s.len() == 0 {
        seq![]
    } else {
        concat_all(s.drop_last()) + s.last()
    }
}

/// One provider's heading and table.
pub open spec fn provider_block(domain: Seq<char>, items: Seq<Product>, cat: Seq<char>, prov: Seq<char>) -> Seq<
    char,
> {
    "<h2 class=\"prov\">"@ + provider_label_of(prov) + "</h2>\n"@ + TABLE_HEAD@ + rows_of(
        domain,
        items,
        cat,
        prov,
    ) + "</tbody>\n</table></div>\n"@
}

/// One category's collapsible section: its providers in first-seen order.
pub open spec fn category_block(domain: Seq<char>, items: Seq<Product>, cat: Seq<char>) -> Seq<char> {
    "<details open><summary>"@ + category_label_of(cat) + "</summary>\n"@ + concat_all(
        first_seen(source_list(items, cat)).map_values(
            |prov: Seq<char>| provider_block(domain, items, cat, prov),
        ),
    ) + "</details>\n"@
}

/// All sections: one per category, in first-seen order.
pub open spec fn sections(domain: Seq<char>, items: Seq<Product>) -> Seq<char> {
    concat_all(
        first_seen(category_list(items)).map_values(
            |cat: Seq<char>| category_block(domain, items, cat),
        ),
    )
}

/// The landing page.
pub open spec fn page(domain: Seq<char>, items: Seq<Product>) -> Seq<char> {
    PAGE_HEAD@ + sections(domain, items) + PAGE_TAIL@
}

fn contains_str(v: &Vec<&'static str>, s: &str) -> (r: bool)
    ensures
        r == v@.map_values(|x: &str| x@).contains(s@),
{
    let ghost vv = v@.map_values(|x: &str| x@);
    let n = v.len();
    for i in 0..n
        invariant
            n == v@.len(),
            vv == v@.map_values(|x: &str| x@),
            forall|j: int| 0 <= j < i ==> vv[j] != s@,
    {
        if str_eq(v[i], s) {
            proof {
                assert(vv[i as int] == s@);
            }
            return true;
        }
    }
    false
}

fn categories_seen(items: &[Product]) -> (cats: Vec<&'static str>)
    ensures
        cats@.map_values(|x: &str| x@) == first_seen(category_list(items@)),
{
    let mut cats: Vec<&'static str> = Vec::new();
    let n = items.len();
    for i in 0..n
        invariant
            n == items@.len(),
            cats@.map_values(|x: &str| x@) == first_seen(category_list(items@.take(i as int))),
    {
        proof {
            assert(items@.take(i + 1).drop_last() =~= items@.take(i as int));
            assert(category_list(items@.take(i + 1)) =~= category_list(items@.take(i as int)).push(
                items@[i as int].category@,
            ));
        }
        let c = items[i].category;
        proof {
            let cl = category_list(items@.take(i as int));
            assert(cl.push(c@).drop_last() =~= cl);
        }
        if !contains_str(&cats, c) {
            let ghost before = cats@;
            cats.push(c);
            proof {
                assert(cats@.map_values(|x: &str| x@) =~= before.map_values(|x: &str| x@).push(c@));
            }
        }
    }
    proof {
        assert(items@.take(n as int) =~= items@);
    }
    cats
}

fn sources_seen(items: &[Product], cat: &str) -> (provs: Vec<&'static str>)
    ensures
        provs@.map_values(|x: &str| x@) == first_seen(source_list(items@, cat@)),
{
    let mut provs: Vec<&'static str> = Vec::new();
    let n = items.len();
    for i in 0..n
        invariant
            n == items@.len(),
            provs@.map_values(|x: &str| x@) == first_seen(source_list(items@.take(i as int), cat@)),
    {
        proof {
            assert(items@.take(i + 1).drop_last() =~= items@.take(i as int));
        }
        if str_eq(items[i].category, cat) {
            let s = items[i].source;
            proof {
                let sl = source_list(items@.take(i as int), cat@);
                assert(source_list(items@.take(i + 1), cat@) =~= sl.push(s@));
                assert(sl.push(s@).drop_last() =~= sl);
            }
            if !contains_str(&provs, s) {
                let ghost before = provs@;
                provs.push(s);
                proof {
                    assert(provs@.map_values(|x: &str| x@) =~= before.map_values(|x: &str| x@).push(s@));
                }
            }
        } else {
            proof {
                assert(source_list(items@.take(i + 1), cat@) =~= source_list(items@.take(i as int), cat@));
            }
        }
    }
    proof {
        assert(items@.take(n as int) =~= items@);
    }
    provs
}

fn push_provider_block(out: &mut String, domain: &str, items: &[Product], cat: &str, prov: &str)
    ensures
        final(out)@ == old(out)@ + provider_block(domain@, items@, cat@, prov@),
{
    out.append("<h2 class=\"prov\">");
    out.append(provider_label(prov));
    out.append("</h2>\n");
    out.append(TABLE_HEAD);
    let ghost start = out@;
    let n = items.len();
    for i in 0..n
        invariant
            n == items@.len(),
            out@ == start + rows_of(domain@, items@.take(i as int), cat@, prov@),
    {
        proof {
            assert(items@.take(i + 1).drop_last() =~= items@.take(i as int));
            assert(items@.take(i + 1).last() == items@[i as int]);
        }
        let p = &items[i];
        if str_eq(p.category, cat) && str_eq(p.source, prov) {
            push_product_rows(out, domain, p);
        }
        proof {
            assert(out@ =~= start + rows_of(domain@, items@.take(i + 1), cat@, prov@));
        }
    }
    proof {
        assert(items@.take(n as int) =~= items@);
    }
    out.append("</tbody>\n</table></div>\n");
    proof {
        assert(final(out)@ =~= old(out)@ + provider_block(domain@, items@, cat@, prov@));
    }
}

fn push_category_block(out: &mut String, domain: &str, items: &[Product], cat: &str)
    ensures
        final(out)@ == old(out)@ + category_block(domain@, items@, cat@),
{
    out.append("<details open><summary>");
    out.append(category_label(cat));
    out.append("</summary>\n");
    let provs = sources_seen(items, cat);
    let ghost pv = provs@.map_values(|x: &str| x@);
    let ghost blocks = pv.map_values(|prov: Seq<char>| provider_block(domain@, items@, cat@, prov));
    let ghost start = out@;
    let n = provs.len();
    for k in 0..n
        invariant
            n == provs@.len(),
            pv == provs@.map_values(|x: &str| x@),
            blocks == pv.map_values(|prov: Seq<char>| provider_block(domain@, items@, cat@, prov)),
            out@ == start + concat_all(blocks.take(k as int)),
    {
        proof {
            assert(blocks.take(k + 1).drop_last() =~= blocks.take(k as int));
        }
        push_provider_block(out, domain, items, cat, provs[k]);
        proof {
            assert(out@ =~= start + concat_all(blocks.take(k + 1)));
        }
    }
    proof {
        assert(blocks.take(n as int) =~= blocks);
    }
    out.append("</details>\n");
    proof {
        assert(final(out)@ =~= old(out)@ + category_block(domain@, items@, cat@));
    }
}

/// Group products by category (→ collapsible section) then provider (→ table),
/// preserving first-seen order.
pub fn render_sections(domain: &str, items: &[Product]) -> (r: String)
    ensures
        r@ == sections(domain@, items@),
{
    let cats = categories_seen(items);
    let ghost cv = cats@.map_values(|x: &str| x@);
    let ghost blocks = cv.map_values(|cat: Seq<char>| category_block(domain@, items@, cat));
    let mut out = String::new();
    let n = cats.len();
    for k in 0..n
        invariant
            n == cats@.len(),
            cv == cats@.map_values(|x: &str| x@),
            blocks == cv.map_values(|cat: Seq<char>| category_block(domain@, items@, cat)),
            out@ == concat_all(blocks.take(k as int)),
    {
        proof {
            assert(blocks.take(k + 1).drop_last() =~= blocks.take(k as int));
        }
        push_category_block(&mut out, domain, items, cats[k]);
        proof {
            assert(out@ =~= concat_all(blocks.take(k + 1)));
        }
    }
    proof {
        assert(blocks.take(n as int) =~= blocks);
    }
    out
}

/// Render the full `index.html`: a centered, self-contained page listing every
/// product. Freshness/hash cells are filled client-side from `/status.json`.
pub fn render_index_html(domain: &str, items: &[Product]) -> (html: String)
    ensures
        html@ == page(domain@, items@),
{
    let mut html = owned(PAGE_HEAD);
    html.append(render_sections(domain, items).as_str());
    html.append(PAGE_TAIL);
    html
}

// ---------------------------------------------------------------------------
// Every product is listed

/// `small` occurs in `big` as a contiguous run.
pub open spec fn is_infix(small: Seq<char>, big: Seq<char>) -> bool {
    exists|i: int|
        0 <= i && i + small.len() <= big.len() && #[trigger] big.subrange(i, i + small.len()) == small
}

proof fn lemma_infix_extend(small: Seq<char>, big: Seq<char>, pre: Seq<char>, post: Seq<char>)
    requires
        is_infix(small, big),
    ensures
        is_infix(small, pre + big + post),
{
    let i = choose|i: int|
        0 <= i && i + small.len() <= big.len() && #[trigger] big.subrange(i, i + small.len()) == small;
    let j = i + pre.len();
    assert((pre + big + post).subrange(j, j + small.len()) =~= big.subrange(i, i + small.len()));
}

proof fn lemma_infix_self(s: Seq<char>)
    ensures
        is_infix(s, s),
{
    let z: int = 0;
    assert(s.subrange(z, z + s.len()) =~= s);
}

proof fn lemma_infix_trans(a: Seq<char>, b: Seq<char>, c: Seq<char>)
    requires
        is_infix(a, b),
        is_infix(b, c),
    ensures
        is_infix(a, c),
{
    let i = choose|i: int| 0 <= i && i + a.len() <= b.len() && #[trigger] b.subrange(i, i + a.len()) == a;
    let j = choose|j: int| 0 <= j && j + b.len() <= c.len() && #[trigger] c.subrange(j, j + b.len()) == b;
    assert(c.subrange(j + i, j + i + a.len()) =~= b.subrange(i, i + a.len()));
}

proof fn lemma_concat_all_infix(s: Seq<Seq<char>>, k: int)
    requires
        0 <= k < s.len(),
    ensures
        is_infix(s[k], concat_all(s)),
    decreases s.len(),
{
    let p = s.drop_last();
    if k == s.len() - 1 {
        lemma_infix_self(s[k]);
        lemma_infix_extend(s[k], s[k], concat_all(p), seq![]);
        assert(concat_all(p) + s[k] + seq![] =~= concat_all(s));
    } else {
        lemma_concat_all_infix(p, k);
        assert(p[k] == s[k]);
        lemma_infix_extend(s[k], concat_all(p), seq![], s.last());
        assert(seq![] + concat_all(p) + s.last() =~= concat_all(s));
    }
}

proof fn lemma_first_seen_contains(s: Seq<Seq<char>>, x: Seq<char>)
    requires
        s.contains(x),
    ensures
        first_seen(s).contains(x),
    decreases s.len(),
{
    let p = s.drop_last();
    let f = first_seen(p);
    if s.last() == x {
        if !f.contains(x) {
            assert(f.push(x)[f.len() as int] == x);
        }
    } else {
        let k = choose|k: int| 0 <= k < s.len() && s[k] == x;
        assert(p[k] == x);
        lemma_first_seen_contains(p, x);
        let m = choose|m: int| 0 <= m < f.len() && f[m] == x;
        if !f.contains(s.last()) {
            assert(f.push(s.last())[m] == x);
        }
    }
}

proof fn lemma_category_list_contains(items: Seq<Product>, i: int)
    requires
        0 <= i < items.len(),
    ensures
        category_list(items).contains(items[i].category@),
    decreases items.len(),
{
    let p = items.drop_last();
    if i == items.len() - 1 {
        assert(category_list(items)[category_list(p).len() as int] == items[i].category@);
    } else {
        lemma_category_list_contains(p, i);
        assert(p[i] == items[i]);
        let k = choose|k: int| 0 <= k < category_list(p).len() && category_list(p)[k] == items[i].category@;
        assert(category_list(items)[k] == items[i].category@);
    }
}

proof fn lemma_source_list_contains(items: Seq<Product>, cat: Seq<char>, i: int)
    requires
        0 <= i < items.len(),
        items[i].category@ == cat,
    ensures
        source_list(items, cat).contains(items[i].source@),
    decreases items.len(),
{
    let p = items.drop_last();
    if i == items.len() - 1 {
        assert(source_list(items, cat)[source_list(p, cat).len() as int] == items[i].source@);
    } else {
        lemma_source_list_contains(p, cat, i);
        assert(p[i] == items[i]);
        let k = choose|k: int|
            0 <= k < source_list(p, cat).len() && source_list(p, cat)[k] == items[i].source@;
        assert(source_list(items, cat)[k] == items[i].source@);
    }
}

proof fn lemma_rows_of_infix(domain: Seq<char>, items: Seq<Product>, i: int)
    requires
        0 <= i < items.len(),
    ensures
        is_infix(
            product_rows(domain, items[i]),
            rows_of(domain, items, items[i].category@, items[i].source@),
        ),
    decreases items.len(),
{
    let p = items.drop_last();
    let cat = items[i].category@;
    let prov = items[i].source@;
    let x = product_rows(domain, items[i]);
    if i == items.len() - 1 {
        lemma_infix_self(x);
        lemma_infix_extend(x, x, rows_of(domain, p, cat, prov), seq![]);
        assert(rows_of(domain, p, cat, prov) + x + seq![] =~= rows_of(domain, items, cat, prov));
    } else {
        assert(p[i] == items[i]);
        lemma_rows_of_infix(domain, p, i);
        let tail = if items.last().category@ == cat && items.last().source@ == prov {
            product_rows(domain, items.last())
        } else {
            seq![]
        };
        lemma_infix_extend(x, rows_of(domain, p, cat, prov), seq![], tail);
        assert(seq![] + rows_of(domain, p, cat, prov) + tail =~= rows_of(domain, items, cat, prov));
    }
}

/// The landing page lists every product: its row (keyed by its object key and
/// linking its public URL on `domain`) and, when it has an alias, the alias row
/// (linking the alias URL but keyed by the same object key) appear in the page.
pub proof fn lemma_page_lists_every_product(domain: Seq<char>, items: Seq<Product>, i: int)
    requires
        0 <= i < items.len(),
    ensures
        is_infix(product_rows(domain, items[i]), page(domain, items)),
{
    let p = items[i];
    let cat = p.category@;
    let prov = p.source@;
    let x = product_rows(domain, p);
    // the rows sit in the provider's table
    lemma_rows_of_infix(domain, items, i);
    let pb = provider_block(domain, items, cat, prov);
    lemma_infix_extend(
        x,
        rows_of(domain, items, cat, prov),
        "<h2 class=\"prov\">"@ + provider_label_of(prov) + "</h2>\n"@ + TABLE_HEAD@,
        "</tbody>\n</table></div>\n"@,
    );
    assert(("<h2 class=\"prov\">"@ + provider_label_of(prov) + "</h2>\n"@ + TABLE_HEAD@) + rows_of(
        domain,
        items,
        cat,
        prov,
    ) + "</tbody>\n</table></div>\n"@ =~= pb);
    // the provider's table sits in the category's section
    let provs = first_seen(source_list(items, cat));
    lemma_source_list_contains(items, cat, i);
    lemma_first_seen_contains(source_list(items, cat), prov);
    let k = choose|k: int| 0 <= k < provs.len() && provs[k] == prov;
    let pblocks = provs.map_values(|q: Seq<char>| provider_block(domain, items, cat, q));
    assert(pblocks[k] == pb);
    lemma_concat_all_infix(pblocks, k);
    lemma_infix_trans(x, pb, concat_all(pblocks));
    let cb = category_block(domain, items, cat);
    lemma_infix_extend(
        x,
        concat_all(pblocks),
        "<details open><summary>"@ + category_label_of(cat) + "</summary>\n"@,
        "</details>\n"@,
    );
    assert(("<details open><summary>"@ + category_label_of(cat) + "</summary>\n"@) + concat_all(pblocks)
        + "</details>\n"@ =~= cb);
    // the section sits in the page
    let cats = first_seen(category_list(items));
    lemma_category_list_contains(items, i);
    lemma_first_seen_contains(category_list(items), cat);
    let m = choose|m: int| 0 <= m < cats.len() && cats[m] == cat;
    let cblocks = cats.map_values(|c: Seq<char>| category_block(domain, items, c));
    assert(cblocks[m] == cb);
    lemma_concat_all_infix(cblocks, m);
    lemma_infix_trans(x, cb, sections(domain, items));
    lemma_infix_extend(x, sections(domain, items), PAGE_HEAD@, PAGE_TAIL@);
}


/// Every page carries its fixed texts, whatever the products: it starts with
/// the head (title, styles, header text and table headings), ends with the
/// tail (footer and script), and holds each of them as a contiguous run.
pub proof fn lemma_page_has_fixed_texts(domain: Seq<char>, items: Seq<Product>)
    ensures
        page(domain, items).take(PAGE_HEAD@.len() as int) == PAGE_HEAD@,
        page(domain, items).skip(page(domain, items).len() - PAGE_TAIL@.len()) == PAGE_TAIL@,
        is_infix(PAGE_HEAD@, page(domain, items)),
        is_infix(PAGE_TAIL@, page(domain, items)),
{
    let h = PAGE_HEAD@;
    let t = PAGE_TAIL@;
    let body = sections(domain, items);
    let p = page(domain, items);
    assert(p == h + body + t);
    assert(p.take(h.len() as int) =~= h);
    assert(p.skip(p.len() - t.len()) =~= t);
    let z: int = 0;
    assert(p.subrange(z, z + h.len()) =~= h);
    let j: int = p.len() - t.len();
    assert(p.subrange(j, j + t.len()) =~= t);
}

/// A provider's table under a category holds exactly the rows of the products of
/// that category from that provider, in registry order: no product of another
/// category or another provider appears in it.
pub proof fn lemma_table_rows_are_its_products(
    domain: Seq<char>,
    items: Seq<Product>,
    cat: Seq<char>,
    prov: Seq<char>,
)
    ensures
        rows_of(domain, items, cat, prov) == concat_all(
            items.filter(|p: Product| p.category@ == cat && p.source@ == prov).map_values(
                |p: Product| product_rows(domain, p),
            ),
        ),
    decreases items.len(),
{
    reveal(Seq::filter);
    let pr = |p: Product| product_rows(domain, p);
    let keep = |p: Product| p.category@ == cat && p.source@ == prov;
    if items.len() == 0 {
        assert(items.filter(keep).map_values(pr) =~= Seq::<Seq<char>>::empty());
    } else {
        let d = items.drop_last();
        let x = items.last();
        lemma_table_rows_are_its_products(domain, d, cat, prov);
        let f = d.filter(keep);
        if x.category@ == cat && x.source@ == prov {
            assert(items.filter(keep) == f.push(x));
            assert(f.push(x).map_values(pr) =~= f.map_values(pr).push(product_rows(domain, x)));
            assert(f.map_values(pr).push(product_rows(domain, x)).drop_last() =~= f.map_values(pr));
        } else {
            assert(items.filter(keep) == f);
            assert(rows_of(domain, d, cat, prov) + seq![] =~= rows_of(domain, d, cat, prov));
        }
    }
}

} // verus!
