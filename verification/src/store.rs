//! Store search: image URLs, the store-search request and its results,
//! the local app list fallback (prefix matches first, then substrings) and
//! the popular list.

use vstd::prelude::*;

use crate::order::{in_num_order, sort_by_number};
use crate::text::{
    decimal, lowercase, str_chars, string_chars, string_from_chars, to_lowercase, trim,
    trim_chars, u64_decimal,
};

verus! {

#[derive(Debug, Clone)]
pub struct SearchResult {
    pub app_id: u32,
    pub name: String,
    pub image: Option<String>,
    pub source: String,
}

/// What a [`SearchResult`] holds.
pub struct ResultView {
    pub app_id: u32,
    pub name: Seq<char>,
    pub image: Option<Seq<char>>,
    pub source: Seq<char>,
}

impl View for SearchResult {
    type V = ResultView;

    open spec fn view(&self) -> ResultView {
        ResultView {
            app_id: self.app_id,
            name: self.name@,
            image: match self.image {
                Some(i) => Some(i@),
                None => None,
            },
            source: self.source@,
        }
    }
}

pub open spec fn results_view(v: Seq<SearchResult>) -> Seq<ResultView> {
    v.map_values(|r: SearchResult| r@)
}

pub const ASSETS: &'static str = "https://shared.cloudflare.steamstatic.com/store_item_assets/steam/apps/";

pub open spec fn header_url_text(app_id: u32) -> Seq<char> {
    ASSETS@ + decimal(app_id as nat) + "/header.jpg"@
}

pub open spec fn capsule_url_text(app_id: u32) -> Seq<char> {
    ASSETS@ + decimal(app_id as nat) + "/capsule_184x69.jpg"@
}

fn concat3(a: &str, b: &Vec<char>, c: &str) -> (r: String)
    ensures
        r@ == a@ + b@ + c@,
{
    let mut out = str_chars(a);
    let ghost s0 = out@;
    let mut i: usize = 0;
    while i < b.len()
        invariant
            i <= b@.len(),
            out@ == s0 + b@.subrange(0, i as int),
        decreases b@.len() - i,
    {
        out.push(b[i]);
        i = i + 1;
        assert(out@ =~= s0 + b@.subrange(0, i as int));
    }
    let t = str_chars(c);
    let ghost s1 = out@;
    let mut j: usize = 0;
    while j < t.len()
        invariant
            j <= t@.len(),
            out@ == s1 + t@.subrange(0, j as int),
        decreases t@.len() - j,
    {
        out.push(t[j]);
        j = j + 1;
        assert(out@ =~= s1 + t@.subrange(0, j as int));
    }
    assert(b@.subrange(0, b@.len() as int) =~= b@);
    assert(t@.subrange(0, t@.len() as int) =~= t@);
    assert(out@ =~= a@ + b@ + c@);
    string_from_chars(out.as_slice())
}

pub fn header_image_url(app_id: u32) -> (r: String)
    ensures
        r@ == header_url_text(app_id),
{
    concat3(ASSETS, &u64_decimal(app_id as u64), "/header.jpg")
}

pub fn capsule_image_url(app_id: u32) -> (r: String)
    ensures
        r@ == capsule_url_text(app_id),
{
    concat3(ASSETS, &u64_decimal(app_id as u64), "/capsule_184x69.jpg")
}

fn text_of(s: &str) -> (r: String)
    ensures
        r@ == s@,
{
    string_from_chars(str_chars(s).as_slice())
}

// ------------------------------------------------------------------
// Store search API
// ------------------------------------------------------------------

/// `application/x-www-form-urlencoded` encoding of some bytes, as
/// `url::form_urlencoded::byte_serialize` writes it.
pub uninterp spec fn form_urlencoded(bytes: Seq<u8>) -> Seq<char>;

/// Calls `url::form_urlencoded::byte_serialize` on the UTF-8 bytes of a
/// text; the result is named by [`form_urlencoded`].
#[verifier::external_body]
fn urlencoding(s: &str) -> (r: String)
    ensures
        r@ == form_urlencoded(vstd::utf8::encode_utf8(s@)),
{
    url::form_urlencoded::byte_serialize(s.as_bytes()).collect()
}

pub open spec fn store_search_text(term: Seq<char>, cc: Seq<char>, l: Seq<char>) -> Seq<char> {
    "https://store.steampowered.com/api/storesearch/?term="@ + form_urlencoded(
        vstd::utf8::encode_utf8(term),
    ) + "&cc="@ + cc + "&l="@ + l
}

/// The store-search request for a term, country and language.
pub fn store_search_url(term: &str, cc: &str, l: &str) -> (r: String)
    ensures
        r@ == store_search_text(term@, cc@, l@),
{
    let enc = urlencoding(term);
    let a = concat3(
        "https://store.steampowered.com/api/storesearch/?term=",
        &string_chars(&enc),
        "&cc=",
    );
    let b = concat3(a.as_str(), &str_chars(cc), "&l=");
    let c = concat3(b.as_str(), &str_chars(l), "");
    proof {
        reveal_strlit("");
        assert(""@ =~= Seq::<char>::empty());
        assert(c@ =~= store_search_text(term@, cc@, l@));
    }
    c
}

/// The fields of a store-search item that the results use.
#[derive(Debug, Clone)]
pub struct StoreItem {
    pub id: Option<u64>,
    pub name: Option<String>,
    pub item_type: Option<String>,
    pub tiny_image: Option<String>,
}

/// The result an item gives: items without an id or name, or that are
/// not apps, give none; the image is the tiny image, else the header.
pub open spec fn store_result(item: StoreItem) -> Option<ResultView> {
    let app_id = (match item.id {
        Some(i) => i,
        None => 0,
    }) as u32;
    let name = match item.name {
        Some(n) => n@,
        None => seq![],
    };
    let ty = match item.item_type {
        Some(t) => t@,
        None => "app"@,
    };
    if app_id == 0 || name.len() == 0 || ty != "app"@ {
        None
    } else {
        Some(
            ResultView {
                app_id,
                name,
                image: Some(
                    match item.tiny_image {
                        Some(t) => t@,
                        None => header_url_text(app_id),
                    },
                ),
                source: "store"@,
            },
        )
    }
}

pub open spec fn store_results_of(items: Seq<StoreItem>) -> Seq<ResultView>
    decreases items.len(),
{
    if items.len() == 0 {
        seq![]
    } else {
        let rest = store_results_of(items.drop_last());
        match store_result(items.last()) {
            Some(r) => rest.push(r),
            None => rest,
        }
    }
}

/// The results of a store search: from its first 50 items.
pub fn store_results(items: &Vec<StoreItem>) -> (r: Vec<SearchResult>)
    ensures
        results_view(r@) == store_results_of(
            items@.subrange(0, if items@.len() < 50 {
                items@.len() as int
            } else {
                50
            }),
        ),
{
    let n = if items.len() < 50 {
        items.len()
    } else {
        50
    };
    let mut out: Vec<SearchResult> = Vec::new();
    let mut i: usize = 0;
    assert(results_view(out@) =~= seq![]);
    assert(items@.subrange(0, 0) =~= seq![]);
    while i < n
        invariant
            i <= n <= items@.len(),
            results_view(out@) == store_results_of(items@.subrange(0, i as int)),
        decreases n - i,
    {
        assert(items@.subrange(0, i + 1).drop_last() =~= items@.subrange(0, i as int));
        let item = &items[i];
        let app_id: u32 = match item.id {
            Some(v) => v as u32,
            None => 0,
        };
        let name: Vec<char> = match &item.name {
            Some(nm) => string_chars(nm),
            None => Vec::new(),
        };
        let is_app = match &item.item_type {
            Some(t) => crate::text::string_eq_str(t, "app"),
            None => true,
        };
        proof {
            reveal_strlit("app");
        }
        if app_id != 0 && name.len() > 0 && is_app {
            let image = match &item.tiny_image {
                Some(t) => t.clone(),
                None => header_image_url(app_id),
            };
            let r = SearchResult {
                app_id,
                name: string_from_chars(name.as_slice()),
                image: Some(image),
                source: text_of("store"),
            };
            let ghost before = out@;
            out.push(r);
            assert(results_view(out@) =~= results_view(before).push(r@));
        }
        i = i + 1;
    }
    out
}

// ------------------------------------------------------------------
// App list
// ------------------------------------------------------------------

/// The `(appid, name)` entries of the Web API app list that have an id
/// and a name.
pub open spec fn applist_of(apps: Seq<(Option<u64>, Option<String>)>) -> Seq<(u32, Seq<char>)>
    decreases apps.len(),
{
    if apps.len() == 0 {
        seq![]
    } else {
        let rest = applist_of(apps.drop_last());
        let (id, name) = apps.last();
        let appid = (match id {
            Some(i) => i,
            None => 0,
        }) as u32;
        let nm = match name {
            Some(n) => n@,
            None => seq![],
        };
        if appid > 0 && nm.len() > 0 {
            rest.push((appid, nm))
        } else {
            rest
        }
    }
}

pub open spec fn entries_view(v: Seq<(u32, String)>) -> Seq<(u32, Seq<char>)> {
    v.map_values(|e: (u32, String)| (e.0, e.1@))
}

pub fn applist_entries(apps: &Vec<(Option<u64>, Option<String>)>) -> (r: Vec<(u32, String)>)
    ensures
        entries_view(r@) == applist_of(apps@),
{
    let mut out: Vec<(u32, String)> = Vec::new();
    let mut i: usize = 0;
    assert(entries_view(out@) =~= seq![]);
    assert(apps@.subrange(0, 0) =~= seq![]);
    while i < apps.len()
        invariant
            i <= apps@.len(),
            entries_view(out@) == applist_of(apps@.subrange(0, i as int)),
        decreases apps@.len() - i,
    {
        assert(apps@.subrange(0, i + 1).drop_last() =~= apps@.subrange(0, i as int));
        let appid: u32 = match apps[i].0 {
            Some(v) => v as u32,
            None => 0,
        };
        let nm: Vec<char> = match &apps[i].1 {
            Some(n) => string_chars(n),
            None => Vec::new(),
        };
        if appid > 0 && nm.len() > 0 {
            let ghost before = out@;
            let s = string_from_chars(nm.as_slice());
            out.push((appid, s));
            assert(entries_view(out@) =~= entries_view(before).push((appid, nm@)));
        }
        i = i + 1;
    }
    assert(apps@.subrange(0, apps@.len() as int) =~= apps@);
    out
}

/// The name the app list gives an app id: the first entry's.
pub fn applist_name(list: &Vec<(u32, String)>, app_id: u32) -> (r: Option<String>)
    ensures
        match r {
            Some(n) => exists|i: int|
                0 <= i < list@.len() && list@[i].0 == app_id && list@[i].1@ == n@ && forall|j: int|
                    0 <= j < i ==> list@[j].0 != app_id,
            None => forall|j: int| 0 <= j < list@.len() ==> list@[j].0 != app_id,
        },
{
    let mut i: usize = 0;
    while i < list.len()
        invariant
            i <= list@.len(),
            forall|j: int| 0 <= j < i ==> list@[j].0 != app_id,
        decreases list@.len() - i,
    {
        if list[i].0 == app_id {
            let n = list[i].1.clone();
            assert(list@[i as int].1@ == n@);
            return Some(n);
        }
        i = i + 1;
    }
    None
}

/// The app list on disk is used while younger than seven days.
pub fn applist_fresh(age_secs: Option<u64>) -> (r: bool)
    ensures
        r == (age_secs matches Some(a) && a < 7 * 24 * 3600),
{
    match age_secs {
        Some(a) => a < 7 * 24 * 3600,
        None => false,
    }
}

pub open spec fn is_prefix(p: Seq<char>, s: Seq<char>) -> bool {
    p.len() <= s.len() && s.subrange(0, p.len() as int) == p
}

pub open spec fn has_substring(s: Seq<char>, p: Seq<char>) -> bool {
    exists|i: int| 0 <= i <= s.len() - p.len() && #[trigger] s.subrange(i, i + p.len()) == p
}

fn starts_with(s: &Vec<char>, p: &Vec<char>) -> (r: bool)
    ensures
        r == is_prefix(p@, s@),
{
    if p.len() > s.len() {
        return false;
    }
    let mut i: usize = 0;
    while i < p.len()
        invariant
            i <= p@.len(),
            p@.len() <= s@.len(),
            forall|k: int| 0 <= k < i ==> s@[k] == p@[k],
        decreases p@.len() - i,
    {
        if s[i] != p[i] {
            assert(s@.subrange(0, p@.len() as int)[i as int] != p@[i as int]);
            return false;
        }
        i = i + 1;
    }
    assert(s@.subrange(0, p@.len() as int) =~= p@);
    true
}

fn matches_at(s: &Vec<char>, p: &Vec<char>, at: usize) -> (r: bool)
    requires
        at + p@.len() <= s@.len(),
    ensures
        r == (s@.subrange(at as int, at + p@.len()) == p@),
{
    let mut i: usize = 0;
    while i < p.len()
        invariant
            i <= p@.len(),
            at + p@.len() <= s@.len(),
            forall|k: int| 0 <= k < i ==> s@[at + k] == p@[k],
        decreases p@.len() - i,
    {
        assert(at + i < s.len());
        if s[at + i] != p[i] {
            assert(s@.subrange(at as int, at + p@.len())[i as int] != p@[i as int]);
            return false;
        }
        i = i + 1;
    }
    assert(s@.subrange(at as int, at + p@.len()) =~= p@);
    true
}

pub(crate) fn contains_text(s: &Vec<char>, p: &Vec<char>) -> (r: bool)
    ensures
        r == has_substring(s@, p@),
{
    if p.len() > s.len() {
        return false;
    }
    let last = s.len() - p.len();
    let mut i: usize = 0;
    while i < last
        invariant
            last + p@.len() == s@.len(),
            i <= last,
            forall|k: int| 0 <= k < i ==> #[trigger] s@.subrange(k, k + p@.len()) != p@,
        decreases last - i,
    {
        if matches_at(s, p, i) {
            return true;
        }
        i = i + 1;
    }
    matches_at(s, p, last)
}

/// Whether an app name is a match in a phase: a prefix match in phase
/// zero, a substring match after.
pub open spec fn hit(phase: int, hay: Seq<char>, needle: Seq<char>) -> bool {
    if phase == 0 {
        is_prefix(needle, hay)
    } else {
        has_substring(hay, needle)
    }
}

/// One entry considered: added when the list has room, it is a hit and
/// its id is not there yet.
pub open spec fn consider(
    acc: Seq<(u32, Seq<char>)>,
    e: (u32, Seq<char>),
    phase: int,
    needle: Seq<char>,
) -> Seq<(u32, Seq<char>)> {
    if acc.len() < 50 && hit(phase, lowercase(e.1), needle) && !(exists|k: int|
        0 <= k < acc.len() && acc[k].0 == e.0) {
        acc.push(e)
    } else {
        acc
    }
}

pub open spec fn phase_scan(
    list: Seq<(u32, Seq<char>)>,
    needle: Seq<char>,
    phase: int,
    start: Seq<(u32, Seq<char>)>,
) -> Seq<(u32, Seq<char>)>
    decreases list.len(),
{
    if list.len() == 0 {
        start
    } else {
        consider(phase_scan(list.drop_last(), needle, phase, start), list.last(), phase, needle)
    }
}

/// The app-list matches for a search term: at most 50, prefix matches of
/// the lower-cased term first, then substring matches, each app once.
pub open spec fn applist_matches(list: Seq<(u32, Seq<char>)>, term: Seq<char>) -> Seq<
    (u32, Seq<char>),
> {
    let needle = lowercase(trim(term));
    phase_scan(list, needle, 1, phase_scan(list, needle, 0, seq![]))
}

pub open spec fn applist_result(e: (u32, Seq<char>)) -> ResultView {
    ResultView {
        app_id: e.0,
        name: e.1,
        image: Some(header_url_text(e.0)),
        source: "applist"@,
    }
}

fn scan_phase(
    list: &Vec<(u32, String)>,
    needle: &Vec<char>,
    phase: usize,
    acc: &mut Vec<(u32, String)>,
)
    requires
        phase <= 1,
    ensures
        entries_view(final(acc)@) == phase_scan(
            entries_view(list@),
            needle@,
            phase as int,
            entries_view(old(acc)@),
        ),
{
    let ghost lv = entries_view(list@);
    let ghost start = entries_view(acc@);
    let mut i: usize = 0;
    assert(lv.subrange(0, 0) =~= seq![]);
    while i < list.len()
        invariant
            i <= list@.len(),
            phase <= 1,
            lv == entries_view(list@),
            start == entries_view(old(acc)@),
            entries_view(acc@) == phase_scan(lv.subrange(0, i as int), needle@, phase as int, start),
        decreases list@.len() - i,
    {
        assert(lv.subrange(0, i + 1).drop_last() =~= lv.subrange(0, i as int));
        assert(lv[i as int] == (list@[i as int].0, list@[i as int].1@));
        let ghost cur = entries_view(acc@);
        if acc.len() < 50 {
            let hay = str_chars(to_lowercase(list[i].1.as_str()).as_str());
            let is_hit = if phase == 0 {
                starts_with(&hay, needle)
            } else {
                contains_text(&hay, needle)
            };
            if is_hit {
                let id = list[i].0;
                let mut dup = false;
                let mut k: usize = 0;
                while k < acc.len()
                    invariant
                        k <= acc@.len(),
                        cur == entries_view(acc@),
                        dup == (exists|j: int| 0 <= j < k && cur[j].0 == id),
                    decreases acc@.len() - k,
                {
                    if acc[k].0 == id {
                        dup = true;
                    }
                    k = k + 1;
                    proof {
                        if dup && acc@[k - 1].0 == id {
                            assert(cur[k - 1].0 == id);
                        }
                    }
                }
                if !dup {
                    let name = list[i].1.clone();
                    acc.push((id, name));
                    assert(entries_view(acc@) =~= cur.push(lv[i as int]));
                }
            }
        }
        i = i + 1;
    }
    assert(lv.subrange(0, list@.len() as int) =~= lv);
}

/// The app-list fallback of a search: the matches as results with header
/// images; none for a blank term.
pub fn applist_search(list: &Vec<(u32, String)>, term: &str) -> (r: Vec<SearchResult>)
    ensures
        trim(term@).len() == 0 ==> r@.len() == 0,
        trim(term@).len() > 0 ==> results_view(r@) == applist_matches(
            entries_view(list@),
            term@,
        ).map_values(|e: (u32, Seq<char>)| applist_result(e)),
{
    let t = trim_chars(str_chars(term).as_slice());
    if t.len() == 0 {
        return Vec::new();
    }
    let lower = to_lowercase(string_from_chars(t.as_slice()).as_str());
    let needle = str_chars(lower.as_str());
    let mut matches: Vec<(u32, String)> = Vec::new();
    assert(entries_view(matches@) =~= seq![]);
    scan_phase(list, &needle, 0, &mut matches);
    scan_phase(list, &needle, 1, &mut matches);
    let ghost mv = entries_view(matches@);
    let mut out: Vec<SearchResult> = Vec::new();
    let mut i: usize = 0;
    while i < matches.len()
        invariant
            i <= matches@.len(),
            mv == entries_view(matches@),
            results_view(out@) == mv.subrange(0, i as int).map_values(
                |e: (u32, Seq<char>)| applist_result(e),
            ),
        decreases matches@.len() - i,
    {
        let id = matches[i].0;
        let r = SearchResult {
            app_id: id,
            name: matches[i].1.clone(),
            image: Some(header_image_url(id)),
            source: text_of("applist"),
        };
        let ghost before = out@;
        assert(mv[i as int] == (matches@[i as int].0, matches@[i as int].1@));
        assert(r@ == applist_result(mv[i as int]));
        out.push(r);
        assert(results_view(out@) =~= results_view(before).push(r@));
        assert(mv.subrange(0, i + 1).map_values(|e: (u32, Seq<char>)| applist_result(e))
            =~= mv.subrange(0, i as int).map_values(|e: (u32, Seq<char>)| applist_result(e)).push(
            applist_result(mv[i as int]),
        ));
        i = i + 1;
    }
    assert(mv.subrange(0, mv.len() as int) =~= mv);
    out
}

// ------------------------------------------------------------------
// Popular games
// ------------------------------------------------------------------

pub open spec fn ids_of(v: Seq<(u32, String)>) -> Seq<u64> {
    v.map_values(|e: (u32, String)| e.0 as u64)
}

pub open spec fn popular_result(e: (u32, String)) -> ResultView {
    ResultView {
        app_id: e.0,
        name: e.1@,
        image: Some(header_url_text(e.0)),
        source: "popular"@,
    }
}

/// The popular list: the entries ordered by app id (equal ids in their
/// order), the first 60, as results with header images.
pub fn popular_results(entries: &Vec<(u32, String)>) -> (r: Vec<SearchResult>)
    ensures
        exists|order: Seq<usize>|
            #![trigger in_num_order(ids_of(entries@), order)]
            order.len() == entries@.len() && in_num_order(ids_of(entries@), order) && r@.len() == (
            if entries@.len() < 60 {
                entries@.len() as int
            } else {
                60
            }) && forall|k: int|
                0 <= k < r@.len() ==> #[trigger] r@[k]@ == popular_result(entries@[order[k] as int]),
{
    let mut keys: Vec<u64> = Vec::new();
    let mut i: usize = 0;
    while i < entries.len()
        invariant
            i <= entries@.len(),
            keys@ == ids_of(entries@).subrange(0, i as int),
        decreases entries@.len() - i,
    {
        keys.push(entries[i].0 as u64);
        i = i + 1;
        assert(keys@ =~= ids_of(entries@).subrange(0, i as int));
    }
    assert(keys@ =~= ids_of(entries@));
    let order = sort_by_number(&keys);
    let n = if order.len() < 60 {
        order.len()
    } else {
        60
    };
    let mut out: Vec<SearchResult> = Vec::new();
    let mut k: usize = 0;
    while k < n
        invariant
            k <= n <= order@.len(),
            order@.len() == entries@.len(),
            in_num_order(ids_of(entries@), order@),
            out@.len() == k,
            forall|j: int|
                0 <= j < k ==> #[trigger] out@[j]@ == popular_result(entries@[order@[j] as int]),
        decreases n - k,
    {
        let e = &entries[order[k]];
        let r = SearchResult {
            app_id: e.0,
            name: e.1.clone(),
            image: Some(header_image_url(e.0)),
            source: text_of("popular"),
        };
        out.push(r);
        k = k + 1;
    }
    out
}

// ------------------------------------------------------------------
// The app list on disk
// ------------------------------------------------------------------

/// The app list `serde_json::from_str::<Vec<(u32, String)>>` reads from a
/// cache text; `None` when it refuses the text.
pub uninterp spec fn applist_json(text: Seq<char>) -> Option<Seq<(u32, Seq<char>)>>;

/// The text `serde_json::to_string` writes for an app list.
pub uninterp spec fn applist_json_text(list: Seq<(u32, Seq<char>)>) -> Seq<char>;

/// Calls `serde_json::from_str::<Vec<(u32, String)>>`; the result is named
/// by [`applist_json`].
#[verifier::external_body]
fn applist_from_json(text: &str) -> (r: Option<Vec<(u32, String)>>)
    ensures
        match r {
            Some(v) => applist_json(text@) == Some(entries_view(v@)),
            None => applist_json(text@) is None,
        },
{
    serde_json::from_str::<Vec<(u32, String)>>(text).ok()
}

/// Calls `serde_json::to_string` on an app list; the text is named by
/// [`applist_json_text`]. serde_json documents failure only for a failing
/// `Serialize` impl or a map with non-string keys, neither of which a list
/// of `(u32, String)` has.
#[verifier::external_body]
fn applist_to_json(list: &Vec<(u32, String)>) -> (r: String)
    ensures
        r@ == applist_json_text(entries_view(list@)),
{
    serde_json::to_string(list).unwrap_or_default()
}

/// The app list a cache file holds; `None` when its text is not such a
/// list.
pub fn parse_applist_cache(text: &str) -> (r: Option<Vec<(u32, String)>>)
    ensures
        match applist_json(text@) {
            Some(l) => r matches Some(v) && entries_view(v@) == l,
            None => r is None,
        },
{
    applist_from_json(text)
}

/// The text written to the app-list cache file.
pub fn applist_cache_text(list: &Vec<(u32, String)>) -> (r: String)
    ensures
        r@ == applist_json_text(entries_view(list@)),
{
    applist_to_json(list)
}

/// The app list after a fetch: the fetched list, to be saved, when it is
/// not empty; else the list in the cache text, not saved again; else none.
pub fn applist_after_fetch(fetched: Vec<(u32, String)>, cache_text: Option<&str>) -> (r: Option<
    (Vec<(u32, String)>, bool),
>)
    ensures
        fetched@.len() > 0 ==> (r matches Some((v, save)) && v@ == fetched@ && save),
        fetched@.len() == 0 ==> match cache_text {
            Some(t) => match applist_json(t@) {
                Some(l) => r matches Some((v, save)) && entries_view(v@) == l && !save,
                None => r is None,
            },
            None => r is None,
        },
{
    if fetched.len() > 0 {
        return Some((fetched, true));
    }
    match cache_text {
        Some(t) => match applist_from_json(t) {
            Some(v) => Some((v, false)),
            None => None,
        },
        None => None,
    }
}

} // verus!
