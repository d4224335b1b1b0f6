//! What the user interface is shown and sends: app details built from
//! product info, and download arguments.

use vstd::prelude::*;

use crate::engine::{all_ascii_digits, depot_id_from_name, depot_id_of, DownloadRequest};
use crate::history::{branch_list, child_u64};
use crate::kv::{child_named, path_spec, split_chars, split_on, value_bool, value_number, KeyValue, KvModel};
use crate::order::{in_num_order, sort_by_number};
use crate::pics::{branch_entries, section_value, AppInfo};
use crate::store::{header_image_url, header_url_text};
use crate::text::{decimal, str_chars, string_from_chars, trim, trim_chars, u64_decimal};

verus! {

#[derive(Debug, Clone)]
pub struct BranchInfo {
    pub name: String,
    pub build_id: u64,
    pub description: Option<String>,
}

#[derive(Debug, Clone)]
pub struct DepotManifestRef {
    pub branch: String,
    pub manifest_id: u64,
    pub size: u64,
}

#[derive(Debug, Clone)]
pub struct DepotInfo {
    pub depot_id: u32,
    pub owner_app: u32,
    pub os_list: String,
    pub os_arch: String,
    pub language: String,
    pub shared_install: bool,
    pub low_violence: bool,
    pub manifests: Vec<DepotManifestRef>,
    /// null = unknown (not checked), true/false = access for current session
    pub accessible: Option<bool>,
}

#[derive(Debug, Clone)]
pub struct AppDetail {
    pub app_id: u32,
    pub name: String,
    pub free_to_download: bool,
    pub os_list: Vec<String>,
    pub branches: Vec<BranchInfo>,
    pub depots: Vec<DepotInfo>,
    pub header_image: String,
    /// true when the server withheld the depots section because the current
    /// session holds no license for this app.
    pub depots_restricted: bool,
}

/// What a [`DepotManifestRef`] holds.
pub struct ManifestRefView {
    pub branch: Seq<char>,
    pub manifest_id: u64,
    pub size: u64,
}

/// What a [`DepotInfo`] holds.
pub struct DepotInfoView {
    pub depot_id: u32,
    pub owner_app: u32,
    pub os_list: Seq<char>,
    pub os_arch: Seq<char>,
    pub language: Seq<char>,
    pub shared_install: bool,
    pub low_violence: bool,
    pub manifests: Seq<ManifestRefView>,
    pub accessible: Option<bool>,
}

impl View for DepotManifestRef {
    type V = ManifestRefView;

    open spec fn view(&self) -> ManifestRefView {
        ManifestRefView { branch: self.branch@, manifest_id: self.manifest_id, size: self.size }
    }
}

impl View for DepotInfo {
    type V = DepotInfoView;

    open spec fn view(&self) -> DepotInfoView {
        DepotInfoView {
            depot_id: self.depot_id,
            owner_app: self.owner_app,
            os_list: self.os_list@,
            os_arch: self.os_arch@,
            language: self.language@,
            shared_install: self.shared_install,
            low_violence: self.low_violence,
            manifests: self.manifests@.map_values(|m: DepotManifestRef| m@),
            accessible: self.accessible,
        }
    }
}

// ------------------------------------------------------------------
// OS list
// ------------------------------------------------------------------

/// The trimmed, non-empty entries of a comma-separated list, in order.
pub open spec fn list_entries(parts: Seq<Seq<char>>) -> Seq<Seq<char>>
    decreases parts.len(),
{
    if parts.len() == 0 {
        seq![]
    } else {
        let rest = list_entries(parts.drop_last());
        if trim(parts.last()).len() > 0 {
            rest.push(trim(parts.last()))
        } else {
            rest
        }
    }
}

/// `common/oslist` of an app, split on commas.
pub open spec fn os_entries(kv: KvModel) -> Seq<Seq<char>> {
    let text = match path_spec(kv, "common/oslist"@) {
        Some(n) => match n.value {
            Some(v) => v,
            None => seq![],
        },
        None => seq![],
    };
    list_entries(split_on(text, ','))
}

pub open spec fn texts(v: Seq<String>) -> Seq<Seq<char>> {
    v.map_values(|s: String| s@)
}

fn os_list_of(kv: &KeyValue) -> (r: Vec<String>)
    ensures
        texts(r@) == os_entries(kv@),
{
    let text: Vec<char> = match kv.path("common/oslist") {
        Some(n) => match n.value_str() {
            Some(v) => str_chars(v),
            None => Vec::new(),
        },
        None => Vec::new(),
    };
    let parts = split_chars(text.as_slice(), ',');
    let ghost ps = split_on(text@, ',');
    let mut out: Vec<String> = Vec::new();
    let mut i: usize = 0;
    assert(ps.subrange(0, 0) =~= seq![]);
    assert(texts(out@) =~= seq![]);
    while i < parts.len()
        invariant
            i <= parts@.len(),
            parts@.len() == ps.len(),
            forall|j: int| 0 <= j < parts@.len() ==> #[trigger] parts@[j]@ == ps[j],
            texts(out@) == list_entries(ps.subrange(0, i as int)),
        decreases parts@.len() - i,
    {
        assert(ps.subrange(0, i + 1).drop_last() =~= ps.subrange(0, i as int));
        assert(parts@[i as int]@ == ps[i as int]);
        let t = trim_chars(parts[i].as_slice());
        if t.len() > 0 {
            let ghost before = out@;
            out.push(string_from_chars(t.as_slice()));
            assert(texts(out@) =~= texts(before).push(t@));
        }
        i = i + 1;
    }
    assert(ps.subrange(0, ps.len() as int) =~= ps);
    out
}

// ------------------------------------------------------------------
// Depots
// ------------------------------------------------------------------

pub open spec fn child_value(node: KvModel, key: Seq<char>) -> Seq<char> {
    match child_named(node, key) {
        Some(v) => match v.value {
            Some(t) => t,
            None => seq![],
        },
        None => seq![],
    }
}

pub open spec fn child_flag(node: Option<KvModel>, key: Seq<char>) -> bool {
    match node {
        Some(n) => match child_named(n, key) {
            Some(v) => value_bool(v),
            None => false,
        },
        None => false,
    }
}

/// A `manifests` child: its branch, gid (none when absent, not a number
/// or zero) and size (zero when absent).
pub open spec fn manifest_ref(b: KvModel) -> Option<ManifestRefView> {
    match child_u64(b, "gid"@) {
        Some(g) => if g == 0 {
            None
        } else {
            Some(
                ManifestRefView {
                    branch: b.name,
                    manifest_id: g,
                    size: match child_u64(b, "size"@) {
                        Some(s) => s,
                        None => 0,
                    },
                },
            )
        },
        None => None,
    }
}

pub open spec fn manifest_refs(children: Seq<KvModel>) -> Seq<ManifestRefView>
    decreases children.len(),
{
    if children.len() == 0 {
        seq![]
    } else {
        let rest = manifest_refs(children.drop_last());
        match manifest_ref(children.last()) {
            Some(m) => rest.push(m),
            None => rest,
        }
    }
}

/// The depot a `depots` child describes, when its name is a depot id.
pub open spec fn depot_info_of(child: KvModel, app_id: u32) -> Option<DepotInfoView> {
    match depot_id_of(child.name) {
        None => None,
        Some(id) => {
            let config = child_named(child, "config"@);
            let from_config = |key: Seq<char>|
                match config {
                    Some(c) => child_value(c, key),
                    None => seq![],
                };
            Some(
                DepotInfoView {
                    depot_id: id,
                    owner_app: match child_named(child, "depotfromapp"@) {
                        Some(v) => match value_number(v, u32::MAX as int) {
                            Some(n) => n as u32,
                            None => app_id,
                        },
                        None => app_id,
                    },
                    os_list: from_config("oslist"@),
                    os_arch: from_config("osarch"@),
                    language: from_config("language"@),
                    shared_install: child_flag(Some(child), "sharedinstall"@) || child_flag(
                        config,
                        "sharedinstall"@,
                    ),
                    low_violence: child_flag(config, "lowviolence"@),
                    manifests: match child_named(child, "manifests"@) {
                        Some(m) => manifest_refs(m.children),
                        None => seq![],
                    },
                    accessible: None,
                },
            )
        },
    }
}

/// A node's child `key` is present and reads as true: `1`, `true` or
/// `True`.
pub open spec fn says_true(node: KvModel, key: Seq<char>) -> bool {
    match child_named(node, key) {
        Some(f) => match f.value {
            Some(v) => v == seq!['1'] || v == seq!['t', 'r', 'u', 'e'] || v == seq!['T', 'r', 'u', 'e'],
            None => false,
        },
        None => false,
    }
}

/// A depot is a shared install exactly when its own node, or its config,
/// says `sharedinstall` is true; the depot node's flag counts whatever its
/// config holds.
pub proof fn lemma_shared_install(child: KvModel, app_id: u32)
    requires
        depot_id_of(child.name) is Some,
    ensures
        depot_info_of(child, app_id) matches Some(d) && d.shared_install == (says_true(
            child,
            "sharedinstall"@,
        ) || (child_named(child, "config"@) matches Some(c) && says_true(c, "sharedinstall"@))),
{
}

/// The depots an app's `depots` section describes, in section order.
pub open spec fn depot_infos(children: Seq<KvModel>, app_id: u32) -> Seq<DepotInfoView>
    decreases children.len(),
{
    if children.len() == 0 {
        seq![]
    } else {
        let rest = depot_infos(children.drop_last(), app_id);
        match depot_info_of(children.last(), app_id) {
            Some(d) => rest.push(d),
            None => rest,
        }
    }
}

fn text_or_empty(node: &KeyValue, key: &str) -> (r: String)
    ensures
        r@ == child_value(node@, key@),
{
    match node.get(key) {
        Some(v) => match v.value_str() {
            Some(t) => string_from_chars(str_chars(t).as_slice()),
            None => String::new(),
        },
        None => String::new(),
    }
}

fn flag_of(node: Option<&KeyValue>, key: &str) -> (r: bool)
    ensures
        r == child_flag(
            match node {
                Some(n) => Some(n@),
                None => None,
            },
            key@,
        ),
{
    match node {
        Some(n) => match n.get(key) {
            Some(v) => v.as_bool(),
            None => false,
        },
        None => false,
    }
}

fn manifest_refs_of(m: &KeyValue) -> (r: Vec<DepotManifestRef>)
    ensures
        r@.map_values(|x: DepotManifestRef| x@) == manifest_refs(m@.children),
{
    let ghost ch = m@.children;
    let mut out: Vec<DepotManifestRef> = Vec::new();
    let mut i: usize = 0;
    assert(ch.subrange(0, 0) =~= seq![]);
    assert(out@.map_values(|x: DepotManifestRef| x@) =~= seq![]);
    while i < m.children.len()
        invariant
            i <= m.children@.len(),
            ch == m@.children,
            ch.len() == m.children@.len(),
            forall|k: int| 0 <= k < m.children@.len() ==> #[trigger] ch[k] == m.children@[k]@,
            out@.map_values(|x: DepotManifestRef| x@) == manifest_refs(ch.subrange(0, i as int)),
        decreases m.children@.len() - i,
    {
        assert(ch.subrange(0, i + 1).drop_last() =~= ch.subrange(0, i as int));
        let b = &m.children[i];
        assert(ch[i as int] == b@);
        let gid = match b.get("gid") {
            Some(g) => g.as_u64(),
            None => None,
        };
        match gid {
            Some(g) => if g != 0 {
                let size = match b.get("size") {
                    Some(v) => match v.as_u64() {
                        Some(s) => s,
                        None => 0,
                    },
                    None => 0,
                };
                let ghost before = out@;
                let r = DepotManifestRef { branch: b.name.clone(), manifest_id: g, size };
                out.push(r);
                assert(out@.map_values(|x: DepotManifestRef| x@) =~= before.map_values(
                    |x: DepotManifestRef| x@,
                ).push(r@));
            },
            None => {},
        }
        i = i + 1;
    }
    assert(ch.subrange(0, ch.len() as int) =~= ch);
    out
}

fn depot_info_from(child: &KeyValue, app_id: u32) -> (r: Option<DepotInfo>)
    ensures
        match depot_info_of(child@, app_id) {
            Some(d) => r matches Some(x) && x@ == d,
            None => r is None,
        },
{
    let id = match depot_id_from_name(&child.name) {
        Some(id) => id,
        None => {
            return None;
        },
    };
    let config = child.get("config");
    let (os_list, os_arch, language) = match config {
        Some(c) => (text_or_empty(c, "oslist"), text_or_empty(c, "osarch"), text_or_empty(c, "language")),
        None => (String::new(), String::new(), String::new()),
    };
    let owner_app = match child.get("depotfromapp") {
        Some(v) => match v.as_u32() {
            Some(n) => n,
            None => app_id,
        },
        None => app_id,
    };
    let manifests = match child.get("manifests") {
        Some(m) => manifest_refs_of(m),
        None => {
            let v: Vec<DepotManifestRef> = Vec::new();
            assert(v@.map_values(|x: DepotManifestRef| x@) =~= seq![]);
            v
        },
    };
    let shared = flag_of(Some(child), "sharedinstall") || flag_of(config, "sharedinstall");
    let low = flag_of(config, "lowviolence");
    Some(
        DepotInfo {
            depot_id: id,
            owner_app,
            os_list,
            os_arch,
            language,
            shared_install: shared,
            low_violence: low,
            manifests,
            accessible: None,
        },
    )
}

pub open spec fn depot_views(v: Seq<DepotInfo>) -> Seq<DepotInfoView> {
    v.map_values(|d: DepotInfo| d@)
}

pub open spec fn depot_keys(v: Seq<DepotInfoView>) -> Seq<u64> {
    v.map_values(|d: DepotInfoView| d.depot_id as u64)
}

/// `out` holds the depots of `ds` ordered by depot id, equal ids in their
/// original order.
pub open spec fn sorted_by_depot_id(ds: Seq<DepotInfoView>, out: Seq<DepotInfoView>) -> bool {
    exists|order: Seq<usize>|
        #![trigger in_num_order(depot_keys(ds), order)]
        order.len() == ds.len() && in_num_order(depot_keys(ds), order) && out.len() == ds.len() && (
        forall|k: int| 0 <= k < out.len() ==> out[k] == ds[order[k] as int])
}

/// The depots of an app's `depots` section, ordered by depot id.
pub fn depots_of(kv: &KeyValue, app_id: u32) -> (r: Vec<DepotInfo>)
    ensures
        sorted_by_depot_id(
            match child_named(kv@, "depots"@) {
                Some(d) => depot_infos(d.children, app_id),
                None => seq![],
            },
            depot_views(r@),
        ),
{
    let mut found: Vec<DepotInfo> = Vec::new();
    let ghost ds: Seq<DepotInfoView> = seq![];
    match kv.get("depots") {
        Some(depots) => {
            let ghost ch = depots@.children;
            let mut i: usize = 0;
            assert(ch.subrange(0, 0) =~= seq![]);
            assert(depot_views(found@) =~= seq![]);
            while i < depots.children.len()
                invariant
                    i <= depots.children@.len(),
                    ch == depots@.children,
                    ch.len() == depots.children@.len(),
                    forall|k: int| 0 <= k < depots.children@.len() ==> #[trigger] ch[k] == depots.children@[k]@,
                    depot_views(found@) == depot_infos(ch.subrange(0, i as int), app_id),
                decreases depots.children@.len() - i,
            {
                assert(ch.subrange(0, i + 1).drop_last() =~= ch.subrange(0, i as int));
                assert(ch[i as int] == depots.children@[i as int]@);
                match depot_info_from(&depots.children[i], app_id) {
                    Some(d) => {
                        let ghost before = found@;
                        let ghost dv = d@;
                        found.push(d);
                        assert(depot_views(found@) =~= depot_views(before).push(dv));
                    },
                    None => {},
                }
                i = i + 1;
            }
            assert(ch.subrange(0, ch.len() as int) =~= ch);
        },
        None => {
            assert(depot_views(found@) =~= seq![]);
        },
    }
    let ghost dv = depot_views(found@);
    let mut keys: Vec<u64> = Vec::new();
    let mut i: usize = 0;
    while i < found.len()
        invariant
            i <= found@.len(),
            dv == depot_views(found@),
            keys@ == depot_keys(dv).subrange(0, i as int),
        decreases found@.len() - i,
    {
        keys.push(found[i].depot_id as u64);
        i = i + 1;
        assert(keys@ =~= depot_keys(dv).subrange(0, i as int));
    }
    assert(keys@ =~= depot_keys(dv));
    let order = sort_by_number(&keys);
    let n = found.len();
    let mut slots: Vec<Option<DepotInfo>> = Vec::new();
    let ghost orig = found@;
    while found.len() > 0
        invariant
            orig.len() == n,
            found@.len() + slots@.len() == n,
            found@ == orig.take(found@.len() as int),
            forall|j: int| 0 <= j < slots@.len() ==> #[trigger] slots@[j] == Some(orig[n - 1 - j]),
        decreases found@.len(),
    {
        match found.pop() {
            Some(d) => {
                slots.push(Some(d));
            },
            None => {},
        }
        assert(found@ =~= orig.take(found@.len() as int));
    }
    let mut out: Vec<DepotInfo> = Vec::new();
    let mut k: usize = 0;
    while k < n
        invariant
            orig.len() == n,
            slots@.len() == n,
            order@.len() == n,
            k <= n,
            out@.len() == k,
            in_num_order(keys@, order@),
            keys@ == depot_keys(depot_views(orig)),
            forall|m: int| 0 <= m < order@.len() ==> 0 <= #[trigger] order@[m] < n,
            forall|m: int| 0 <= m < k ==> #[trigger] out@[m] == orig[order@[m] as int],
            forall|m: int|
                k <= m < n ==> slots@[n - 1 - (#[trigger] order@[m])] == Some(orig[order@[m] as int]),
        decreases n - k,
    {
        let idx = n - 1 - order[k];
        let ghost before = slots@;
        let taken = slots[idx].take();
        proof {
            assert forall|m: int| k + 1 <= m < n implies slots@[n - 1 - (#[trigger] order@[m])] == Some(
                orig[order@[m] as int],
            ) by {
                crate::order::lemma_in_num_order_distinct(keys@, order@, k as int, m);
                assert(before[n - 1 - order@[m]] == Some(orig[order@[m] as int]));
            }
        }
        if let Some(d) = taken {
            out.push(d);
        } else {
            proof {
                assert(false);
            }
        }
        k = k + 1;
    }
    proof {
        assert(orig.map_values(|d: DepotInfo| d@) =~= dv);
        assert forall|m: int| 0 <= m < n implies depot_views(out@)[m] == dv[order@[m] as int] by {
            assert(out@[m] == orig[order@[m] as int]);
        }
    }
    out
}

// ------------------------------------------------------------------
// App detail
// ------------------------------------------------------------------

/// `App <id>`, the name of an app whose info has none.
pub open spec fn fallback_name(app_id: u32) -> Seq<char> {
    "App "@ + decimal(app_id as nat)
}

fn app_fallback_name(app_id: u32) -> (r: String)
    ensures
        r@ == fallback_name(app_id),
{
    let mut cs = str_chars("App ");
    let d = u64_decimal(app_id as u64);
    let ghost a = cs@;
    let mut i: usize = 0;
    while i < d.len()
        invariant
            i <= d@.len(),
            cs@ == a + d@.subrange(0, i as int),
        decreases d@.len() - i,
    {
        cs.push(d[i]);
        i = i + 1;
        assert(cs@ =~= a + d@.subrange(0, i as int));
    }
    assert(d@.subrange(0, d@.len() as int) =~= d@);
    string_from_chars(cs.as_slice())
}

/// The details shown for an app: name, OS list, branches, depots ordered
/// by id, and whether the depots were withheld (none listed while the
/// session lacks a token or only sees public info).
pub fn app_detail(app_id: u32, info: &AppInfo) -> (r: AppDetail)
    ensures
        r.app_id == app_id,
        r.name@ == match section_value(info.kv@, "common"@, "name"@) {
            Some(n) => n,
            None => fallback_name(app_id),
        },
        r.free_to_download == match child_named(info.kv@, "common"@) {
            Some(c) => match child_named(c, "FreeToDownload"@) {
                Some(v) => value_bool(v),
                None => false,
            },
            None => false,
        },
        texts(r.os_list@) == os_entries(info.kv@),
        r.branches@.len() == branch_entries(info.kv@).len(),
        forall|i: int|
            0 <= i < r.branches@.len() ==> {
                let e = #[trigger] branch_entries(info.kv@)[i];
                &&& r.branches@[i].name@ == e.0
                &&& r.branches@[i].build_id == e.1
                &&& match e.2 {
                    Some(d) => r.branches@[i].description matches Some(s) && s@ == d,
                    None => r.branches@[i].description is None,
                }
            },
        sorted_by_depot_id(
            match child_named(info.kv@, "depots"@) {
                Some(d) => depot_infos(d.children, app_id),
                None => seq![],
            },
            depot_views(r.depots@),
        ),
        r.header_image@ == header_url_text(app_id),
        r.depots_restricted == (r.depots@.len() == 0 && (info.missing_token || info.only_public)),
{
    let os_list = os_list_of(&info.kv);
    let list = branch_list(&info.kv);
    let mut branches: Vec<BranchInfo> = Vec::new();
    let mut rest = list;
    let mut rev: Vec<BranchInfo> = Vec::new();
    let ghost es = branch_entries(info.kv@);
    let ghost n = rest@.len();
    while rest.len() > 0
        invariant
            n == es.len(),
            rest@.len() + rev@.len() == n,
            forall|i: int|
                0 <= i < rest@.len() ==> {
                    let e = #[trigger] es[i];
                    &&& rest@[i].0@ == e.0
                    &&& rest@[i].1 == e.1
                    &&& match e.2 {
                        Some(d) => rest@[i].2 matches Some(s) && s@ == d,
                        None => rest@[i].2 is None,
                    }
                },
            forall|j: int|
                0 <= j < rev@.len() ==> {
                    let e = #[trigger] es[n - 1 - j];
                    &&& rev@[j].name@ == e.0
                    &&& rev@[j].build_id == e.1
                    &&& match e.2 {
                        Some(d) => rev@[j].description matches Some(s) && s@ == d,
                        None => rev@[j].description is None,
                    }
                },
        decreases rest@.len(),
    {
        let ghost before = rest@;
        match rest.pop() {
            Some((name, build_id, description)) => {
                assert(es[n - 1 - rev@.len()] == es[before.len() - 1]);
                rev.push(BranchInfo { name, build_id, description });
            },
            None => {},
        }
    }
    while rev.len() > 0
        invariant
            n == es.len(),
            branches@.len() + rev@.len() == n,
            forall|i: int|
                0 <= i < branches@.len() ==> {
                    let e = #[trigger] es[i];
                    &&& branches@[i].name@ == e.0
                    &&& branches@[i].build_id == e.1
                    &&& match e.2 {
                        Some(d) => branches@[i].description matches Some(s) && s@ == d,
                        None => branches@[i].description is None,
                    }
                },
            forall|j: int|
                0 <= j < rev@.len() ==> {
                    let e = #[trigger] es[n - 1 - j];
                    &&& rev@[j].name@ == e.0
                    &&& rev@[j].build_id == e.1
                    &&& match e.2 {
                        Some(d) => rev@[j].description matches Some(s) && s@ == d,
                        None => rev@[j].description is None,
                    }
                },
        decreases rev@.len(),
    {
        let ghost k = branches@.len();
        match rev.pop() {
            Some(b) => {
                assert(es[n - 1 - rev@.len()] == es[k as int]);
                branches.push(b);
            },
            None => {},
        }
    }
    let depots = depots_of(&info.kv, app_id);
    let restricted = depots.len() == 0 && (info.missing_token || info.only_public);
    let name = match info.name() {
        Some(n) => n,
        None => app_fallback_name(app_id),
    };
    AppDetail {
        app_id,
        name,
        free_to_download: info.free_to_download(),
        os_list,
        branches,
        depots,
        header_image: header_image_url(app_id),
        depots_restricted: restricted,
    }
}

// ------------------------------------------------------------------
// Downloads
// ------------------------------------------------------------------

#[derive(Debug, Clone)]
pub struct StartDownloadArgs {
    pub app_id: u32,
    pub depot_ids: Vec<u32>,
    pub branch: String,
    pub manifest_id: Option<u64>,
    pub install_dir: String,
    pub os: String,
    pub arch: String,
    pub language: String,
    pub all_languages: bool,
    pub file_filters: Vec<String>,
    pub verify_only: bool,
    pub max_connections: usize,
}

pub fn default_branch() -> (r: String)
    ensures
        r@ == "public"@,
{
    string_from_chars(str_chars("public").as_slice())
}

pub fn default_max_conn() -> (r: usize)
    ensures
        r == 16,
{
    16
}

/// The connection count of a download: between 1 and 64.
pub fn clamp_connections(n: usize) -> (r: usize)
    ensures
        r == (if n < 1 {
            1
        } else if n > 64 {
            64
        } else {
            n
        }),
{
    if n < 1 {
        1
    } else if n > 64 {
        64
    } else {
        n
    }
}

/// The error shown when no install directory was chosen.
pub open spec fn missing_dir_text() -> Seq<char> {
    "请选择安装目录"@
}

/// The download request for the given arguments; an error message when
/// no install directory was given.
pub fn download_request(args: StartDownloadArgs) -> (r: Result<DownloadRequest, String>)
    ensures
        args.install_dir@.len() == 0 ==> (r matches Err(m) && m@ == missing_dir_text()),
        args.install_dir@.len() > 0 ==> (r matches Ok(q) && q.app_id == args.app_id
            && q.depot_ids@ == args.depot_ids@ && q.branch@ == args.branch@ && q.manifest_id
            == args.manifest_id && q.install_dir@ == args.install_dir@ && q.os@ == args.os@
            && q.arch@ == args.arch@ && q.language@ == args.language@ && q.all_languages
            == args.all_languages && q.file_filters@ == args.file_filters@ && q.verify_only
            == args.verify_only && q.max_connections == (if args.max_connections < 1 {
            1
        } else if args.max_connections > 64 {
            64
        } else {
            args.max_connections
        })),
{
    if crate::text::text_is_empty(args.install_dir.as_str()) {
        return Err(string_from_chars(str_chars("请选择安装目录").as_slice()));
    }
    let max_connections = clamp_connections(args.max_connections);
    Ok(
        DownloadRequest {
            app_id: args.app_id,
            depot_ids: args.depot_ids,
            branch: args.branch,
            manifest_id: args.manifest_id,
            install_dir: args.install_dir,
            os: args.os,
            arch: args.arch,
            language: args.language,
            all_languages: args.all_languages,
            file_filters: args.file_filters,
            verify_only: args.verify_only,
            max_connections,
        },
    )
}

} // verus!
