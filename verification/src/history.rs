//! Depot manifest history: the manifests attached to each branch (from
//! PICS app info), the manifest rows scraped from SteamDB's depot history
//! page, and their merge.

use vstd::prelude::*;

use crate::kv::{child_named, value_number, KeyValue, KvModel};
use crate::pattern::{
    compile_regex, opt_text, opt_texts, pattern_capture, pattern_captures, regex_compiles,
    regex_group, regex_groups, CompiledPattern,
};
use crate::pics::{branch_entries, branch_entry};
use crate::text::{
    decimal, parse_i64, parse_signed, parse_u64, parse_unsigned, str_chars, string_chars,
    string_from_chars, u64_decimal,
};

verus! {

#[derive(Debug, Clone)]
pub struct ManifestVersion {
    pub manifest_id: u64,
    /// ISO date string when known.
    pub date: Option<String>,
    /// "steamdb" | "pics"
    pub source: String,
    /// Branch this manifest currently belongs to, if any.
    pub branch: Option<String>,
    pub build_id: Option<u64>,
    pub description: Option<String>,
}

/// What a [`ManifestVersion`] holds.
pub struct VersionView {
    pub manifest_id: u64,
    pub date: Option<Seq<char>>,
    pub source: Seq<char>,
    pub branch: Option<Seq<char>>,
    pub build_id: Option<u64>,
    pub description: Option<Seq<char>>,
}

impl View for ManifestVersion {
    type V = VersionView;

    open spec fn view(&self) -> VersionView {
        VersionView {
            manifest_id: self.manifest_id,
            date: opt_text(self.date),
            source: self.source@,
            branch: opt_text(self.branch),
            build_id: self.build_id,
            description: opt_text(self.description),
        }
    }
}

pub open spec fn versions_view(v: Seq<ManifestVersion>) -> Seq<VersionView> {
    v.map_values(|m: ManifestVersion| m@)
}

fn copy_opt_text(o: &Option<String>) -> (r: Option<String>)
    ensures
        opt_text(r) == opt_text(*o),
{
    match o {
        Some(s) => Some(s.clone()),
        None => None,
    }
}

fn text_of(s: &str) -> (r: String)
    ensures
        r@ == s@,
{
    string_from_chars(str_chars(s).as_slice())
}

// ------------------------------------------------------------------
// Branch manifests from PICS
// ------------------------------------------------------------------

/// The number a child holds, when the child exists and reads as a `u64`.
pub open spec fn child_u64(node: KvModel, key: Seq<char>) -> Option<u64> {
    match child_named(node, key) {
        Some(v) => match value_number(v, u64::MAX as int) {
            Some(n) => Some(n as u64),
            None => None,
        },
        None => None,
    }
}

pub open spec fn child_text(node: KvModel, key: Seq<char>) -> Option<Seq<char>> {
    match child_named(node, key) {
        Some(v) => v.value,
        None => None,
    }
}

/// The entry for one `manifests` child: its `gid` (none when absent, not
/// a number or zero), with the build id and description of the branch of
/// the same name.
pub open spec fn pics_version(b: KvModel, branches: Option<KvModel>) -> Option<VersionView> {
    let gid = match child_u64(b, "gid"@) {
        Some(g) => g,
        None => 0,
    };
    if gid == 0 {
        None
    } else {
        let branch_node = match branches {
            Some(bs) => child_named(bs, b.name),
            None => None,
        };
        Some(
            VersionView {
                manifest_id: gid,
                date: None,
                source: "pics"@,
                branch: Some(b.name),
                build_id: match branch_node {
                    Some(n) => child_u64(n, "buildid"@),
                    None => None,
                },
                description: match branch_node {
                    Some(n) => child_text(n, "description"@),
                    None => None,
                },
            },
        )
    }
}

pub open spec fn pics_versions(children: Seq<KvModel>, branches: Option<KvModel>) -> Seq<VersionView>
    decreases children.len(),
{
    if children.len() == 0 {
        seq![]
    } else {
        let rest = pics_versions(children.drop_last(), branches);
        match pics_version(children.last(), branches) {
            Some(v) => rest.push(v),
            None => rest,
        }
    }
}

/// The manifests attached to each branch for a depot:
/// `depots/<depot>/manifests/<branch>/gid`.
pub open spec fn branch_manifest_versions(root: KvModel, depot_id: u32) -> Seq<VersionView> {
    match child_named(root, "depots"@) {
        Some(depots) => match child_named(depots, decimal(depot_id as nat)) {
            Some(depot) => match child_named(depot, "manifests"@) {
                Some(ms) => pics_versions(ms.children, child_named(depots, "branches"@)),
                None => seq![],
            },
            None => seq![],
        },
        None => seq![],
    }
}

fn child_number(node: &KeyValue, key: &str) -> (r: Option<u64>)
    ensures
        r == child_u64(node@, key@),
{
    match node.get(key) {
        Some(v) => v.as_u64(),
        None => None,
    }
}

fn child_string(node: &KeyValue, key: &str) -> (r: Option<String>)
    ensures
        opt_text(r) == child_text(node@, key@),
{
    match node.get(key) {
        Some(v) => match v.value_str() {
            Some(t) => Some(text_of(t)),
            None => None,
        },
        None => None,
    }
}

/// Manifests currently attached to each branch (from PICS app info).
pub fn branch_manifests(app_kv: &KeyValue, depot_id: u32) -> (r: Vec<ManifestVersion>)
    ensures
        versions_view(r@) == branch_manifest_versions(app_kv@, depot_id),
{
    let mut out: Vec<ManifestVersion> = Vec::new();
    let depots = match app_kv.get("depots") {
        Some(d) => d,
        None => {
            assert(versions_view(out@) =~= seq![]);
            return out;
        },
    };
    let key = string_from_chars(u64_decimal(depot_id as u64).as_slice());
    let depot = match depots.get(key.as_str()) {
        Some(d) => d,
        None => {
            assert(versions_view(out@) =~= seq![]);
            return out;
        },
    };
    let manifests = match depot.get("manifests") {
        Some(m) => m,
        None => {
            assert(versions_view(out@) =~= seq![]);
            return out;
        },
    };
    let branches = depots.get("branches");
    let ghost bview = child_named(depots@, "branches"@);
    assert(match branches {
        Some(b) => bview == Some(b@),
        None => bview is None,
    });
    let mut i: usize = 0;
    assert(manifests@.children.subrange(0, 0) =~= seq![]);
    assert(versions_view(out@) =~= seq![]);
    while i < manifests.children.len()
        invariant
            i <= manifests.children@.len(),
            manifests@.children.len() == manifests.children@.len(),
            forall|k: int|
                0 <= k < manifests.children@.len() ==> #[trigger] manifests@.children[k]
                    == manifests.children@[k]@,
            match branches {
                Some(b) => bview == Some(b@),
                None => bview is None,
            },
            versions_view(out@) == pics_versions(
                manifests@.children.subrange(0, i as int),
                bview,
            ),
        decreases manifests.children@.len() - i,
    {
        let b = &manifests.children[i];
        assert(manifests@.children[i as int] == b@);
        assert(manifests@.children.subrange(0, i + 1).drop_last() =~= manifests@.children.subrange(
            0,
            i as int,
        ));
        let gid = match child_number(b, "gid") {
            Some(g) => g,
            None => 0,
        };
        if gid != 0 {
            let node = match branches {
                Some(bs) => bs.get(b.name.as_str()),
                None => None,
            };
            let (build_id, description) = match node {
                Some(n) => (child_number(n, "buildid"), child_string(n, "description")),
                None => (None, None),
            };
            let v = ManifestVersion {
                manifest_id: gid,
                date: None,
                source: text_of("pics"),
                branch: Some(b.name.clone()),
                build_id,
                description,
            };
            let ghost before = out@;
            out.push(v);
            assert(versions_view(out@) =~= versions_view(before).push(v@));
        }
        i = i + 1;
    }
    assert(manifests@.children.subrange(0, manifests@.children.len() as int)
        =~= manifests@.children);
    out
}

/// Branch list of an app: name, build id (zero when absent) and
/// description, in the order listed.
pub fn branch_list(app_kv: &KeyValue) -> (r: Vec<(String, u64, Option<String>)>)
    ensures
        r@.len() == branch_entries(app_kv@).len(),
        forall|i: int|
            0 <= i < r@.len() ==> {
                let e = #[trigger] branch_entries(app_kv@)[i];
                &&& r@[i].0@ == e.0
                &&& r@[i].1 == e.1
                &&& match e.2 {
                    Some(d) => r@[i].2 matches Some(s) && s@ == d,
                    None => r@[i].2 is None,
                }
            },
{
    let mut out: Vec<(String, u64, Option<String>)> = Vec::new();
    let depots = match app_kv.get("depots") {
        Some(d) => d,
        None => {
            return out;
        },
    };
    let branches = match depots.get("branches") {
        Some(b) => b,
        None => {
            return out;
        },
    };
    let ghost es = branch_entries(app_kv@);
    let mut i: usize = 0;
    while i < branches.children.len()
        invariant
            i <= branches.children@.len(),
            branches@.children.len() == branches.children@.len(),
            es == branches@.children.map_values(|b: KvModel| branch_entry(b)),
            forall|k: int|
                0 <= k < branches.children@.len() ==> #[trigger] branches@.children[k]
                    == branches.children@[k]@,
            out@.len() == i,
            forall|k: int|
                0 <= k < i ==> {
                    let e = #[trigger] es[k];
                    &&& out@[k].0@ == e.0
                    &&& out@[k].1 == e.1
                    &&& match e.2 {
                        Some(d) => out@[k].2 matches Some(s) && s@ == d,
                        None => out@[k].2 is None,
                    }
                },
        decreases branches.children@.len() - i,
    {
        let b = &branches.children[i];
        assert(branches@.children[i as int] == b@);
        let build = match b.get("buildid") {
            Some(v) => match v.as_u64() {
                Some(n) => n,
                None => 0,
            },
            None => 0,
        };
        let desc = child_string(b, "description");
        out.push((b.name.clone(), build, desc));
        i = i + 1;
    }
    out
}

// ------------------------------------------------------------------
// Merging
// ------------------------------------------------------------------

/// Index of the first entry with manifest id `id`.
pub open spec fn index_of_id(v: Seq<VersionView>, id: u64) -> Option<int>
    decreases v.len(),
{
    if v.len() == 0 {
        None
    } else {
        match index_of_id(v.drop_last(), id) {
            Some(i) => Some(i),
            None => if v.last().manifest_id == id {
                Some(v.len() - 1)
            } else {
                None
            },
        }
    }
}

pub open spec fn or_else<T>(a: Option<T>, b: Option<T>) -> Option<T> {
    match a {
        Some(x) => Some(x),
        None => b,
    }
}

/// An entry updated with what a branch manifest knows: its branch, build
/// id and description win when present.
pub open spec fn combined(existing: VersionView, p: VersionView) -> VersionView {
    VersionView {
        manifest_id: existing.manifest_id,
        date: existing.date,
        source: existing.source,
        branch: or_else(p.branch, existing.branch),
        build_id: or_else(p.build_id, existing.build_id),
        description: or_else(p.description, existing.description),
    }
}

/// SteamDB history with the branch manifests merged in, one after the
/// other: an entry with the same id is updated, else the manifest is
/// appended.
pub open spec fn merged(steamdb: Seq<VersionView>, pics: Seq<VersionView>) -> Seq<VersionView>
    decreases pics.len(),
{
    if pics.len() == 0 {
        steamdb
    } else {
        let m = merged(steamdb, pics.drop_last());
        let p = pics.last();
        match index_of_id(m, p.manifest_id) {
            Some(i) => m.update(i, combined(m[i], p)),
            None => m.push(p),
        }
    }
}

proof fn lemma_index_of_id(v: Seq<VersionView>, id: u64)
    ensures
        index_of_id(v, id) matches Some(i) ==> 0 <= i < v.len() && v[i].manifest_id == id
            && forall|j: int| 0 <= j < i ==> (#[trigger] v[j]).manifest_id != id,
        index_of_id(v, id) is None ==> forall|j: int|
            0 <= j < v.len() ==> (#[trigger] v[j]).manifest_id != id,
    decreases v.len(),
{
    if v.len() > 0 {
        lemma_index_of_id(v.drop_last(), id);
        assert forall|j: int| 0 <= j < v.len() - 1 implies v[j] == v.drop_last()[j] by {}
    }
}

fn position_of_id(v: &Vec<ManifestVersion>, id: u64) -> (r: Option<usize>)
    ensures
        match r {
            Some(i) => index_of_id(versions_view(v@), id) == Some(i as int) && i < v@.len(),
            None => index_of_id(versions_view(v@), id) is None,
        },
{
    let ghost vs = versions_view(v@);
    proof {
        lemma_index_of_id(vs, id);
    }
    let mut i: usize = 0;
    while i < v.len()
        invariant
            i <= v@.len(),
            vs == versions_view(v@),
            forall|j: int| 0 <= j < i ==> (#[trigger] vs[j]).manifest_id != id,
        decreases v@.len() - i,
    {
        if v[i].manifest_id == id {
            proof {
                lemma_index_of_id(vs, id);
                assert(vs[i as int].manifest_id == id);
                match index_of_id(vs, id) {
                    Some(k) => {
                        if k < i {
                            assert(vs[k].manifest_id != id);
                        } else if k > i {
                            assert(vs[i as int].manifest_id != id);
                        }
                    },
                    None => {
                        assert(vs[i as int].manifest_id != id);
                    },
                }
            }
            return Some(i);
        }
        i = i + 1;
    }
    proof {
        lemma_index_of_id(vs, id);
        if let Some(k) = index_of_id(vs, id) {
            assert(vs[k].manifest_id != id);
        }
    }
    None
}

/// Merges SteamDB history with current branch manifests (dedup by gid).
pub fn merged_history(steamdb: Vec<ManifestVersion>, pics: Vec<ManifestVersion>) -> (r: Vec<
    ManifestVersion,
>)
    ensures
        versions_view(r@) == merged(versions_view(steamdb@), versions_view(pics@)),
{
    let ghost ps = versions_view(pics@);
    let ghost s0 = versions_view(steamdb@);
    let mut out = steamdb;
    let mut rev: Vec<ManifestVersion> = Vec::new();
    let mut rest = pics;
    while rest.len() > 0
        invariant
            versions_view(rest@) + versions_view(rev@).reverse() == ps,
        decreases rest@.len(),
    {
        let ghost before_rest = rest@;
        let ghost before_rev = rev@;
        match rest.pop() {
            Some(p) => {
                rev.push(p);
                proof {
                    assert(versions_view(before_rest) =~= versions_view(rest@).push(p@));
                    assert(versions_view(rev@).reverse() =~= seq![p@] + versions_view(
                        before_rev,
                    ).reverse());
                }
            },
            None => {},
        }
    }
    assert(versions_view(rev@).reverse() =~= ps);
    let ghost n = ps.len();
    let mut done: usize = 0;
    assert(ps.subrange(0, 0) =~= seq![]);
    while rev.len() > 0
        invariant
            versions_view(rev@).reverse() == ps.subrange(ps.len() - rev@.len(), ps.len() as int),
            rev@.len() <= ps.len(),
            versions_view(out@) == merged(s0, ps.subrange(0, ps.len() - rev@.len())),
        decreases rev@.len(),
    {
        let ghost k = ps.len() - rev@.len();
        let ghost before_rev = rev@;
        match rev.pop() {
            Some(p) => {
                proof {
                    assert(versions_view(before_rev).reverse() =~= seq![p@] + versions_view(
                        rev@,
                    ).reverse());
                    assert(ps[k] == p@) by {
                        assert(ps.subrange(k, ps.len() as int)[0] == ps[k]);
                    }
                    assert(ps.subrange(0, k + 1).drop_last() =~= ps.subrange(0, k));
                    let tail = ps.subrange(k, ps.len() as int);
                    assert((seq![p@] + versions_view(rev@).reverse()).drop_first()
                        =~= versions_view(rev@).reverse());
                    assert(tail.drop_first() =~= ps.subrange(k + 1, ps.len() as int));
                    assert(versions_view(rev@).reverse() =~= ps.subrange(k + 1, ps.len() as int));
                }
                let ghost m = versions_view(out@);
                match position_of_id(&out, p.manifest_id) {
                    Some(i) => {
                        let existing = &out[i];
                        let branch = match &p.branch {
                            Some(b) => Some(b.clone()),
                            None => copy_opt_text(&existing.branch),
                        };
                        let build_id = match p.build_id {
                            Some(b) => Some(b),
                            None => existing.build_id,
                        };
                        let description = match &p.description {
                            Some(d) => Some(d.clone()),
                            None => copy_opt_text(&existing.description),
                        };
                        let updated = ManifestVersion {
                            manifest_id: existing.manifest_id,
                            date: copy_opt_text(&existing.date),
                            source: existing.source.clone(),
                            branch,
                            build_id,
                            description,
                        };
                        out.set(i, updated);
                        proof {
                            assert(versions_view(out@) =~= m.update(
                                i as int,
                                combined(m[i as int], p@),
                            ));
                        }
                    },
                    None => {
                        out.push(p);
                        proof {
                            assert(versions_view(out@) =~= m.push(p@));
                        }
                    },
                }
            },
            None => {},
        }
    }
    assert(ps.subrange(0, ps.len() as int) =~= ps);
    out
}

/// The manifest ids a list holds.
pub open spec fn ids_of(v: Seq<VersionView>) -> Set<u64> {
    Set::new(|id: u64| exists|i: int| 0 <= i < v.len() && v[i].manifest_id == id)
}

/// No manifest id occurs twice.
pub open spec fn ids_unique(v: Seq<VersionView>) -> bool {
    forall|i: int, j: int|
        0 <= i < j < v.len() ==> (#[trigger] v[i]).manifest_id != (#[trigger] v[j]).manifest_id
}

/// Merging keeps every manifest of both lists, each id once when the
/// SteamDB list had each once.
pub proof fn lemma_merged_ids(steamdb: Seq<VersionView>, pics: Seq<VersionView>)
    ensures
        ids_of(merged(steamdb, pics)) == ids_of(steamdb).union(ids_of(pics)),
        ids_unique(steamdb) ==> ids_unique(merged(steamdb, pics)),
    decreases pics.len(),
{
    if pics.len() > 0 {
        let pre = pics.drop_last();
        lemma_merged_ids(steamdb, pre);
        let m = merged(steamdb, pre);
        let p = pics.last();
        lemma_index_of_id(m, p.manifest_id);
        let r = merged(steamdb, pics);
        assert(ids_of(pics) =~= ids_of(pre).insert(p.manifest_id)) by {
            assert forall|id: u64| ids_of(pics).contains(id) implies ids_of(pre).insert(
                p.manifest_id,
            ).contains(id) by {
                let i = choose|i: int| 0 <= i < pics.len() && pics[i].manifest_id == id;
                if i < pics.len() - 1 {
                    assert(pre[i].manifest_id == id);
                }
            }
            assert forall|id: u64| ids_of(pre).insert(p.manifest_id).contains(id) implies ids_of(
                pics,
            ).contains(id) by {
                if id == p.manifest_id {
                    assert(pics[pics.len() - 1].manifest_id == id);
                } else {
                    let i = choose|i: int| 0 <= i < pre.len() && pre[i].manifest_id == id;
                    assert(pics[i].manifest_id == id);
                }
            }
        }
        match index_of_id(m, p.manifest_id) {
            Some(k) => {
                assert(ids_of(r) =~= ids_of(m)) by {
                    assert forall|id: u64| ids_of(r).contains(id) implies ids_of(m).contains(id) by {
                        let i = choose|i: int| 0 <= i < r.len() && r[i].manifest_id == id;
                        assert(m[i].manifest_id == id);
                    }
                    assert forall|id: u64| ids_of(m).contains(id) implies ids_of(r).contains(id) by {
                        let i = choose|i: int| 0 <= i < m.len() && m[i].manifest_id == id;
                        assert(r[i].manifest_id == id);
                    }
                }
                if ids_unique(steamdb) {
                    assert forall|i: int, j: int| 0 <= i < j < r.len() implies (#[trigger] r[i]).manifest_id
                        != (#[trigger] r[j]).manifest_id by {
                        assert(r[i].manifest_id == m[i].manifest_id);
                        assert(r[j].manifest_id == m[j].manifest_id);
                    }
                }
            },
            None => {
                assert(ids_of(r) =~= ids_of(m).insert(p.manifest_id)) by {
                    assert forall|id: u64| ids_of(r).contains(id) implies ids_of(m).insert(
                        p.manifest_id,
                    ).contains(id) by {
                        let i = choose|i: int| 0 <= i < r.len() && r[i].manifest_id == id;
                        if i < m.len() {
                            assert(m[i].manifest_id == id);
                        }
                    }
                    assert forall|id: u64| ids_of(m).insert(p.manifest_id).contains(id) implies ids_of(
                        r,
                    ).contains(id) by {
                        if id == p.manifest_id {
                            assert(r[m.len() as int].manifest_id == id);
                        } else {
                            let i = choose|i: int| 0 <= i < m.len() && m[i].manifest_id == id;
                            assert(r[i].manifest_id == id);
                        }
                    }
                }
                if ids_unique(steamdb) {
                    assert forall|i: int, j: int| 0 <= i < j < r.len() implies (#[trigger] r[i]).manifest_id
                        != (#[trigger] r[j]).manifest_id by {
                        if j == m.len() {
                            assert(r[i] == m[i]);
                        } else {
                            assert(r[i] == m[i] && r[j] == m[j]);
                        }
                    }
                }
            },
        }
    }
}

// ------------------------------------------------------------------
// SteamDB depot history page
// ------------------------------------------------------------------

/// A table row; group 1 is the row's inner HTML.
pub const ROW_PATTERN: &'static str = "(?s)<tr[^>]*>(.*?)</tr>";

/// A cell holding only a 15 to 20 digit number: the manifest id.
pub const GID_PATTERN: &'static str = "<td[^>]*>\\s*(\\d{15,20})\\s*</td>";

/// The Unix time SteamDB puts on a row.
pub const TIME_PATTERN: &'static str = "data-time=\"(\\d+)\"";

/// An ISO date written in a row.
pub const DATE_PATTERN: &'static str = "(\\d{4}-\\d{2}-\\d{2})";

/// The calendar date (`YYYY-MM-DD`) of a Unix time in UTC, as
/// `time::OffsetDateTime::from_unix_timestamp(..).date().to_string()`
/// writes it; empty when the time is out of range.
pub uninterp spec fn unix_date(ts: i64) -> Seq<char>;

/// Calls `time::OffsetDateTime::from_unix_timestamp` and writes the date;
/// the result is named by [`unix_date`].
#[verifier::external_body]
fn date_of_unix(ts: i64) -> (r: String)
    ensures
        r@ == unix_date(ts),
{
    time::OffsetDateTime::from_unix_timestamp(ts).map(|t| t.date().to_string()).unwrap_or_default()
}

/// The date of a row: from its Unix time when it has one that reads as an
/// `i64`, else the first ISO date written in it.
pub open spec fn row_date(row: Seq<char>) -> Option<Seq<char>> {
    let from_time = match regex_group(TIME_PATTERN@, row) {
        Some(t) => match parse_signed(t) {
            Some(ts) => Some(unix_date(ts as i64)),
            None => None,
        },
        None => None,
    };
    match from_time {
        Some(d) => Some(d),
        None => regex_group(DATE_PATTERN@, row),
    }
}

/// The manifest a row names, when it has a manifest-id cell that reads as
/// a `u64`.
pub open spec fn row_version(row: Option<Seq<char>>) -> Option<VersionView> {
    match row {
        Some(r) => match regex_group(GID_PATTERN@, r) {
            Some(g) => match parse_unsigned(g, u64::MAX as int) {
                Some(id) => Some(
                    VersionView {
                        manifest_id: id as u64,
                        date: row_date(r),
                        source: "steamdb"@,
                        branch: None,
                        build_id: None,
                        description: None,
                    },
                ),
                None => None,
            },
            None => None,
        },
        None => None,
    }
}

/// The manifests the rows name, in page order (repeats included).
pub open spec fn row_versions(rows: Seq<Option<Seq<char>>>) -> Seq<VersionView>
    decreases rows.len(),
{
    if rows.len() == 0 {
        seq![]
    } else {
        let rest = row_versions(rows.drop_last());
        match row_version(rows.last()) {
            Some(v) => rest.push(v),
            None => rest,
        }
    }
}

/// The manifests of a SteamDB depot history page, in page order.
pub open spec fn steamdb_candidates(html: Seq<char>) -> Seq<VersionView> {
    row_versions(regex_groups(ROW_PATTERN@, html))
}

/// Manifest ids strictly decrease along the list.
pub open spec fn newest_first(v: Seq<VersionView>) -> bool {
    forall|i: int, j: int|
        0 <= i < j < v.len() ==> (#[trigger] v[i]).manifest_id > (#[trigger] v[j]).manifest_id
}

/// `out` lists each manifest of `cands` once, as first named, newest
/// (highest id) first.
pub open spec fn history_of(cands: Seq<VersionView>, out: Seq<VersionView>) -> bool {
    &&& newest_first(out)
    &&& ids_of(out) == ids_of(cands)
    &&& forall|k: int|
        0 <= k < out.len() ==> (index_of_id(cands, (#[trigger] out[k]).manifest_id) matches Some(
            i,
        ) && cands[i] == out[k])
}

fn parse_row(
    row: &Option<String>,
    gid_re: &CompiledPattern,
    time_re: &CompiledPattern,
    date_re: &CompiledPattern,
) -> (r: Option<ManifestVersion>)
    requires
        gid_re.source() == GID_PATTERN@,
        time_re.source() == TIME_PATTERN@,
        date_re.source() == DATE_PATTERN@,
    ensures
        match row_version(opt_text(*row)) {
            Some(v) => r matches Some(m) && m@ == v,
            None => r is None,
        },
{
    let row = match row {
        Some(r) => r,
        None => {
            return None;
        },
    };
    let gid_text = match pattern_capture(gid_re, row.as_str()) {
        Some(g) => g,
        None => {
            return None;
        },
    };
    let gid = match parse_u64(string_chars(&gid_text).as_slice()) {
        Some(g) => g,
        None => {
            return None;
        },
    };
    let from_time = match pattern_capture(time_re, row.as_str()) {
        Some(t) => match parse_i64(string_chars(&t).as_slice()) {
            Some(ts) => Some(date_of_unix(ts)),
            None => None,
        },
        None => None,
    };
    let date = match from_time {
        Some(d) => Some(d),
        None => pattern_capture(date_re, row.as_str()),
    };
    Some(
        ManifestVersion {
            manifest_id: gid,
            date,
            source: text_of("steamdb"),
            branch: None,
            build_id: None,
            description: None,
        },
    )
}

proof fn lemma_index_of_id_push(v: Seq<VersionView>, c: VersionView, id: u64)
    ensures
        index_of_id(v.push(c), id) == (match index_of_id(v, id) {
            Some(i) => Some(i),
            None => if c.manifest_id == id {
                Some(v.len() as int)
            } else {
                None
            },
        }),
{
    assert(v.push(c).drop_last() =~= v);
}

/// The four patterns of the SteamDB page all compile.
pub open spec fn steamdb_patterns_compile() -> bool {
    &&& regex_compiles(ROW_PATTERN@)
    &&& regex_compiles(GID_PATTERN@)
    &&& regex_compiles(TIME_PATTERN@)
    &&& regex_compiles(DATE_PATTERN@)
}

/// Parses manifest ids and dates out of the SteamDB depot history HTML:
/// each manifest once (with the date of its first row), newest first.
/// Nothing is found when one of the page's patterns does not compile.
pub fn parse_steamdb_history(html: &str) -> (r: Vec<ManifestVersion>)
    ensures
        steamdb_patterns_compile() ==> history_of(steamdb_candidates(html@), versions_view(r@)),
        !steamdb_patterns_compile() ==> r@.len() == 0,
{
    let row_re = match compile_regex(text_of(ROW_PATTERN)) {
        Some(p) => p,
        None => {
            return Vec::new();
        },
    };
    let gid_re = match compile_regex(text_of(GID_PATTERN)) {
        Some(p) => p,
        None => {
            return Vec::new();
        },
    };
    let time_re = match compile_regex(text_of(TIME_PATTERN)) {
        Some(p) => p,
        None => {
            return Vec::new();
        },
    };
    let date_re = match compile_regex(text_of(DATE_PATTERN)) {
        Some(p) => p,
        None => {
            return Vec::new();
        },
    };
    let rows = pattern_captures(&row_re, html);
    let ghost rv = opt_texts(rows@);
    let mut out: Vec<ManifestVersion> = Vec::new();
    let mut i: usize = 0;
    assert(rv.subrange(0, 0) =~= seq![]);
    assert(ids_of(versions_view(out@)) =~= ids_of(seq![]));
    while i < rows.len()
        invariant
            i <= rows@.len(),
            rv == opt_texts(rows@),
            gid_re.source() == GID_PATTERN@,
            time_re.source() == TIME_PATTERN@,
            date_re.source() == DATE_PATTERN@,
            history_of(row_versions(rv.subrange(0, i as int)), versions_view(out@)),
        decreases rows@.len() - i,
    {
        let ghost cands = row_versions(rv.subrange(0, i as int));
        let ghost ov = versions_view(out@);
        assert(rv.subrange(0, i + 1).drop_last() =~= rv.subrange(0, i as int));
        assert(rv.subrange(0, i + 1).last() == opt_text(rows@[i as int]));
        match parse_row(&rows[i], &gid_re, &time_re, &date_re) {
            None => {},
            Some(v) => {
                let ghost cands2 = cands.push(v@);
                assert(ids_of(cands2) =~= ids_of(cands).insert(v.manifest_id)) by {
                    assert forall|id: u64| ids_of(cands2).contains(id) implies ids_of(cands).insert(
                        v.manifest_id,
                    ).contains(id) by {
                        let k = choose|k: int| 0 <= k < cands2.len() && cands2[k].manifest_id == id;
                        if k < cands.len() {
                            assert(cands[k].manifest_id == id);
                        }
                    }
                    assert forall|id: u64| ids_of(cands).insert(v.manifest_id).contains(id) implies ids_of(
                        cands2,
                    ).contains(id) by {
                        if id == v.manifest_id {
                            assert(cands2[cands.len() as int].manifest_id == id);
                        } else {
                            let k = choose|k: int| 0 <= k < cands.len() && cands[k].manifest_id == id;
                            assert(cands2[k].manifest_id == id);
                        }
                    }
                }
                match position_of_id(&out, v.manifest_id) {
                    Some(_) => {
                        proof {
                            lemma_index_of_id(ov, v.manifest_id);
                            assert(ids_of(ov).contains(v.manifest_id));
                            assert(ids_of(cands2) =~= ids_of(cands));
                            assert forall|k: int| 0 <= k < ov.len() implies (index_of_id(
                                cands2,
                                (#[trigger] ov[k]).manifest_id,
                            ) matches Some(j) && cands2[j] == ov[k]) by {
                                lemma_index_of_id_push(cands, v@, ov[k].manifest_id);
                                let j = index_of_id(cands, ov[k].manifest_id)->0;
                                lemma_index_of_id(cands, ov[k].manifest_id);
                                assert(cands2[j] == cands[j]);
                            }
                        }
                    },
                    None => {
                        proof {
                            lemma_index_of_id(ov, v.manifest_id);
                            assert(!ids_of(ov).contains(v.manifest_id));
                        }
                        let mut p: usize = 0;
                        while p < out.len() && out[p].manifest_id > v.manifest_id
                            invariant
                                p <= out@.len(),
                                ov == versions_view(out@),
                                forall|k: int| 0 <= k < p ==> (#[trigger] ov[k]).manifest_id
                                    > v.manifest_id,
                            decreases out@.len() - p,
                        {
                            p = p + 1;
                        }
                        let ghost vv = v@;
                        out.insert(p, v);
                        proof {
                            let nv = versions_view(out@);
                            assert(nv =~= ov.insert(p as int, vv));
                            assert(p < ov.len() ==> ov[p as int].manifest_id < vv.manifest_id) by {
                                if p < ov.len() {
                                    assert(ov[p as int].manifest_id != vv.manifest_id);
                                }
                            }
                            assert forall|a: int, b: int| 0 <= a < b < nv.len() implies (#[trigger] nv[a]).manifest_id
                                > (#[trigger] nv[b]).manifest_id by {
                                if b < p {
                                    assert(nv[a] == ov[a] && nv[b] == ov[b]);
                                } else if b == p {
                                    assert(nv[a] == ov[a]);
                                } else if a < p {
                                    assert(nv[a] == ov[a] && nv[b] == ov[b - 1]);
                                    assert(ov[b - 1].manifest_id <= ov[p as int].manifest_id);
                                } else if a == p {
                                    assert(nv[b] == ov[b - 1]);
                                    assert(ov[b - 1].manifest_id <= ov[p as int].manifest_id);
                                } else {
                                    assert(nv[a] == ov[a - 1] && nv[b] == ov[b - 1]);
                                }
                            }
                            assert(ids_of(nv) =~= ids_of(ov).insert(vv.manifest_id)) by {
                                assert forall|id: u64| ids_of(nv).contains(id) implies ids_of(ov).insert(
                                    vv.manifest_id,
                                ).contains(id) by {
                                    let k = choose|k: int| 0 <= k < nv.len() && nv[k].manifest_id == id;
                                    if k < p {
                                        assert(ov[k].manifest_id == id);
                                    } else if k > p {
                                        assert(ov[k - 1].manifest_id == id);
                                    }
                                }
                                assert forall|id: u64| ids_of(ov).insert(vv.manifest_id).contains(id) implies ids_of(
                                    nv,
                                ).contains(id) by {
                                    if id == vv.manifest_id {
                                        assert(nv[p as int].manifest_id == id);
                                    } else {
                                        let k = choose|k: int| 0 <= k < ov.len() && ov[k].manifest_id == id;
                                        if k < p {
                                            assert(nv[k].manifest_id == id);
                                        } else {
                                            assert(nv[k + 1].manifest_id == id);
                                        }
                                    }
                                }
                            }
                            assert forall|k: int| 0 <= k < nv.len() implies (index_of_id(
                                cands2,
                                (#[trigger] nv[k]).manifest_id,
                            ) matches Some(j) && cands2[j] == nv[k]) by {
                                lemma_index_of_id_push(cands, vv, nv[k].manifest_id);
                                if k == p {
                                    lemma_index_of_id(cands, vv.manifest_id);
                                    if let Some(j) = index_of_id(cands, vv.manifest_id) {
                                        assert(ids_of(cands).contains(vv.manifest_id));
                                    }
                                } else {
                                    let o = if k < p {
                                        k
                                    } else {
                                        k - 1
                                    };
                                    assert(nv[k] == ov[o]);
                                    lemma_index_of_id(cands, ov[o].manifest_id);
                                    let j = index_of_id(cands, ov[o].manifest_id)->0;
                                    assert(cands2[j] == cands[j]);
                                }
                            }
                        }
                    },
                }
            },
        }
        i = i + 1;
    }
    assert(rv.subrange(0, rows@.len() as int) =~= rv);
    out
}

} // verus!
