//! Download planning: task states, depot selection and filtering, the file
//! plan of a depot (filters, order, safe paths, unchanged files), chunk
//! validation and the chunk work list with its progress accounting.

use vstd::prelude::*;

use crate::crypto::{adler32, adler32_spec, hex_encode, hex_text};
use crate::kv::{child_named, path_spec, split_chars, split_on, value_bool, KeyValue, KvModel};
use crate::machineid::{random_bytes, sha1, sha1_digest};
use crate::manifest::{ChunkData, ChunkView, DepotManifest, FileData, FileView, ManifestView, name_keys};
use crate::order::{
    in_key_order, in_num_order, key_before, key_views, sort_by_number, sort_positions,
};
use crate::pattern::{compile_regex, pattern_is_match, regex_compiles, regex_is_match, CompiledPattern};
use crate::pics::{grants_access, package_grants_access, strictly_increasing, PackageInfo};
use crate::text::{
    bytes_eq, chars_eq, lowercase, str_chars, string_chars, string_from_chars, to_lowercase, trim,
    trim_chars, u64_decimal, decimal,
};

verus! {

pub const DEFAULT_BRANCH: &'static str = "public";

pub const CONFIG_DIR: &'static str = ".depotmanager";

/// Package id granted to all anonymous sessions.
pub const ANONYMOUS_PACKAGE: u32 = 17906;

// ------------------------------------------------------------------
// Tasks
// ------------------------------------------------------------------

#[derive(Debug, Clone)]
pub struct DownloadRequest {
    pub app_id: u32,
    /// Explicit depot selection; empty = auto (filtered by os/arch/language).
    pub depot_ids: Vec<u32>,
    pub branch: String,
    /// Optional explicit manifest gid (applies to every selected depot).
    pub manifest_id: Option<u64>,
    pub install_dir: String,
    pub os: String,
    pub arch: String,
    pub language: String,
    pub all_languages: bool,
    /// Regexes over normalized file paths; empty = all files.
    pub file_filters: Vec<String>,
    pub verify_only: bool,
    pub max_connections: usize,
}

#[derive(Debug, Clone, Copy, PartialEq, Eq, Structural)]
pub enum TaskState {
    Queued,
    Preparing,
    Downloading,
    Paused,
    Verifying,
    Completed,
    Failed,
    Canceled,
}

impl TaskState {
    pub open spec fn active(self) -> bool {
        self is Queued || self is Preparing || self is Downloading || self is Verifying
    }

    pub fn is_active(&self) -> (r: bool)
        ensures
            r == self.active(),
    {
        match self {
            TaskState::Queued | TaskState::Preparing | TaskState::Downloading
            | TaskState::Verifying => true,
            _ => false,
        }
    }

    pub open spec fn label_text(self) -> Seq<char> {
        match self {
            TaskState::Queued => "排队中"@,
            TaskState::Preparing => "准备中"@,
            TaskState::Downloading => "下载中"@,
            TaskState::Paused => "已暂停"@,
            TaskState::Verifying => "校验中"@,
            TaskState::Completed => "已完成"@,
            TaskState::Failed => "失败"@,
            TaskState::Canceled => "已取消"@,
        }
    }

    pub fn label(&self) -> (r: &'static str)
        ensures
            r@ == self.label_text(),
    {
        match self {
            TaskState::Queued => "排队中",
            TaskState::Preparing => "准备中",
            TaskState::Downloading => "下载中",
            TaskState::Paused => "已暂停",
            TaskState::Verifying => "校验中",
            TaskState::Completed => "已完成",
            TaskState::Failed => "失败",
            TaskState::Canceled => "已取消",
        }
    }

    /// The state after a resume: a paused task downloads again, others
    /// keep their state.
    pub fn resumed(self) -> (r: TaskState)
        ensures
            r == (if self is Paused {
                TaskState::Downloading
            } else {
                self
            }),
    {
        match self {
            TaskState::Paused => TaskState::Downloading,
            other => other,
        }
    }

    /// The state a finished worker leaves: canceled wins over the outcome.
    pub fn finished(canceled: bool, succeeded: bool) -> (r: TaskState)
        ensures
            r == (if canceled {
                TaskState::Canceled
            } else if succeeded {
                TaskState::Completed
            } else {
                TaskState::Failed
            }),
    {
        if canceled {
            TaskState::Canceled
        } else if succeeded {
            TaskState::Completed
        } else {
            TaskState::Failed
        }
    }
}

/// A finished or paused task may be removed from the list; an active one
/// may not.
pub fn removable(state: TaskState) -> (r: bool)
    ensures
        r == !state.active(),
{
    !state.is_active()
}

/// A fresh task id: 8 random bytes in lower-case hex.
pub fn new_task_id() -> (r: String)
    ensures
        exists|b: Seq<u8>| b.len() == 8 && r@ == hex_text(b, false),
{
    let b = random_bytes(8);
    hex_encode(b.as_slice())
}

// ------------------------------------------------------------------
// Depot selection
// ------------------------------------------------------------------

pub open spec fn child_text(node: KvModel, key: Seq<char>) -> Option<Seq<char>> {
    match child_named(node, key) {
        Some(v) => v.value,
        None => None,
    }
}

pub open spec fn child_flag(node: KvModel, key: Seq<char>) -> bool {
    match child_named(node, key) {
        Some(v) => value_bool(v),
        None => false,
    }
}

/// Some entry of a comma-separated list, trimmed, equals `item`.
pub open spec fn list_has(list: Seq<char>, item: Seq<char>) -> bool {
    exists|i: int| 0 <= i < split_on(list, ',').len() && trim(#[trigger] split_on(list, ',')[i]) == item
}

/// Whether a depot's `config` passes the OS, architecture and language
/// filters. Low-violence and shared-install depots are left out of
/// automatic selection.
pub open spec fn depot_passes(
    config: Option<KvModel>,
    os: Seq<char>,
    arch: Seq<char>,
    language: Seq<char>,
    all_languages: bool,
    auto_selection: bool,
) -> bool {
    match config {
        None => true,
        Some(c) => {
            &&& match child_text(c, "oslist"@) {
                Some(ol) => ol.len() > 0 && os.len() > 0 ==> list_has(ol, os),
                None => true,
            }
            &&& match child_text(c, "osarch"@) {
                Some(a) => a.len() > 0 && arch.len() > 0 ==> a == arch,
                None => true,
            }
            &&& (auto_selection ==> !child_flag(c, "lowviolence"@) && !child_flag(c, "sharedinstall"@))
            &&& (!all_languages ==> match child_text(c, "language"@) {
                Some(l) => l.len() > 0 ==> l == language,
                None => true,
            })
        },
    }
}

fn node_text<'a>(node: &'a KeyValue, key: &str) -> (r: Option<&'a str>)
    ensures
        match child_text(node@, key@) {
            Some(t) => r matches Some(s) && s@ == t,
            None => r is None,
        },
{
    match node.get(key) {
        Some(v) => v.value_str(),
        None => None,
    }
}

fn node_flag(node: &KeyValue, key: &str) -> (r: bool)
    ensures
        r == child_flag(node@, key@),
{
    match node.get(key) {
        Some(v) => v.as_bool(),
        None => false,
    }
}

fn list_contains(list: &str, item: &str) -> (r: bool)
    ensures
        r == list_has(list@, item@),
{
    let parts = split_chars(str_chars(list).as_slice(), ',');
    let want = str_chars(item);
    let ghost ps = split_on(list@, ',');
    let mut i: usize = 0;
    while i < parts.len()
        invariant
            i <= parts@.len(),
            ps == split_on(list@, ','),
            parts@.len() == ps.len(),
            want@ == item@,
            forall|j: int| 0 <= j < parts@.len() ==> #[trigger] parts@[j]@ == ps[j],
            forall|j: int| 0 <= j < i ==> trim(#[trigger] ps[j]) != item@,
        decreases parts@.len() - i,
    {
        let t = trim_chars(parts[i].as_slice());
        assert(parts@[i as int]@ == ps[i as int]);
        if chars_eq(t.as_slice(), want.as_slice()) {
            assert(trim(ps[i as int]) == item@);
            assert(trim(split_on(list@, ',')[i as int]) == item@);
            return true;
        }
        i = i + 1;
    }
    false
}

fn text_empty(s: &str) -> (r: bool)
    ensures
        r == (s@.len() == 0),
{
    crate::text::text_is_empty(s)
}

/// Applies the OS, architecture and language filters to a depot config.
pub fn depot_matches_filters(
    config: Option<&KeyValue>,
    os: &str,
    arch: &str,
    language: &str,
    all_languages: bool,
    is_auto_selection: bool,
) -> (r: bool)
    ensures
        r == depot_passes(
            match config {
                Some(c) => Some(c@),
                None => None,
            },
            os@,
            arch@,
            language@,
            all_languages,
            is_auto_selection,
        ),
{
    let config = match config {
        None => {
            return true;
        },
        Some(c) => c,
    };
    match node_text(config, "oslist") {
        Some(ol) => {
            if !text_empty(ol) && !text_empty(os) && !list_contains(ol, os) {
                return false;
            }
        },
        None => {},
    }
    match node_text(config, "osarch") {
        Some(a) => {
            if !text_empty(a) && !text_empty(arch) && !chars_eq(
                str_chars(a).as_slice(),
                str_chars(arch).as_slice(),
            ) {
                return false;
            }
        },
        None => {},
    }
    if is_auto_selection {
        if node_flag(config, "lowviolence") {
            return false;
        }
        if node_flag(config, "sharedinstall") {
            return false;
        }
    }
    if !all_languages {
        match node_text(config, "language") {
            Some(l) => {
                if !text_empty(l) && !chars_eq(
                    str_chars(l).as_slice(),
                    str_chars(language).as_slice(),
                ) {
                    return false;
                }
            },
            None => {},
        }
    }
    true
}

pub open spec fn all_ascii_digits(s: Seq<char>) -> bool {
    forall|i: int| 0 <= i < s.len() ==> '0' <= #[trigger] s[i] <= '9'
}

/// The depot id a `depots` child stands for: its name when that is all
/// ASCII digits and reads as a `u32`.
pub open spec fn depot_id_of(name: Seq<char>) -> Option<u32> {
    if all_ascii_digits(name) {
        match crate::text::parse_unsigned(name, u32::MAX as int) {
            Some(v) => Some(v as u32),
            None => None,
        }
    } else {
        None
    }
}

pub(crate) fn depot_id_from_name(name: &String) -> (r: Option<u32>)
    ensures
        r == depot_id_of(name@),
{
    let cs = string_chars(name);
    let mut i: usize = 0;
    while i < cs.len()
        invariant
            i <= cs@.len(),
            cs@ == name@,
            forall|k: int| 0 <= k < i ==> '0' <= #[trigger] cs@[k] <= '9',
        decreases cs@.len() - i,
    {
        if !('0' <= cs[i] && cs[i] <= '9') {
            return None;
        }
        i = i + 1;
    }
    crate::text::parse_u32(cs.as_slice())
}

/// The ids among `children` that name depots.
pub open spec fn depot_ids_in(children: Seq<KvModel>) -> Set<u32> {
    Set::new(|id: u32| exists|i: int| 0 <= i < children.len() && depot_id_of(children[i].name) == Some(id))
}

/// The depots to consider, in increasing order, each once: the requested
/// ones, or every depot the app lists when none was requested.
pub fn candidate_depots(depots: &KeyValue, requested: &Vec<u32>) -> (r: Vec<u32>)
    ensures
        strictly_increasing(r@),
        requested@.len() > 0 ==> r@.to_set() == requested@.to_set(),
        requested@.len() == 0 ==> r@.to_set() == depot_ids_in(depots@.children),
{
    let mut ids: Vec<u32> = Vec::new();
    let mut flags: Vec<bool> = Vec::new();
    if requested.len() > 0 {
        let mut i: usize = 0;
        while i < requested.len()
            invariant
                i <= requested@.len(),
                ids@ == requested@.subrange(0, i as int),
                flags@.len() == i,
                forall|k: int| 0 <= k < i ==> !(#[trigger] flags@[k]),
            decreases requested@.len() - i,
        {
            ids.push(requested[i]);
            flags.push(false);
            i = i + 1;
            assert(ids@ =~= requested@.subrange(0, i as int));
        }
        assert(ids@ =~= requested@);
        let r = crate::pics::missing_package_ids(ids.as_slice(), flags.as_slice());
        proof {
            lemma_uncached_all(ids@, flags@, ids@.len() as int);
        }
        return r;
    }
    let ghost ch = depots@.children;
    let mut i: usize = 0;
    while i < depots.children.len()
        invariant
            i <= depots.children@.len(),
            ch == depots@.children,
            ch.len() == depots.children@.len(),
            forall|k: int| 0 <= k < depots.children@.len() ==> #[trigger] ch[k] == depots.children@[k]@,
            ids@.len() == flags@.len(),
            forall|k: int| 0 <= k < ids@.len() ==> !(#[trigger] flags@[k]),
            ids@.to_set() == Set::new(|id: u32| exists|k: int| 0 <= k < i && depot_id_of(ch[k].name) == Some(id)),
        decreases depots.children@.len() - i,
    {
        let ghost before = ids@;
        assert(ch[i as int] == depots.children@[i as int]@);
        match depot_id_from_name(&depots.children[i].name) {
            Some(id) => {
                ids.push(id);
                flags.push(false);
                assert(ids@.to_set() =~= Set::new(|x: u32| exists|k: int| 0 <= k < i + 1 && depot_id_of(ch[k].name) == Some(x))) by {
                    assert forall|x: u32| ids@.to_set().contains(x) implies (exists|k: int| 0 <= k < i + 1 && depot_id_of(ch[k].name) == Some(x)) by {
                        if x != id {
                            assert(before.contains(x)) by {
                                let j = choose|j: int| 0 <= j < ids@.len() && ids@[j] == x;
                                assert(before[j] == x);
                            }
                            assert(before.to_set().contains(x));
                        }
                    }
                    assert forall|x: u32| (exists|k: int| 0 <= k < i + 1 && depot_id_of(ch[k].name) == Some(x)) implies ids@.to_set().contains(x) by {
                        let k = choose|k: int| 0 <= k < i + 1 && depot_id_of(ch[k].name) == Some(x);
                        if k < i {
                            assert(before.to_set().contains(x));
                            let j = choose|j: int| 0 <= j < before.len() && before[j] == x;
                            assert(ids@[j] == x);
                        } else {
                            assert(ids@[before.len() as int] == x);
                        }
                    }
                }
            },
            None => {
                assert(ids@.to_set() =~= Set::new(|x: u32| exists|k: int| 0 <= k < i + 1 && depot_id_of(ch[k].name) == Some(x))) by {
                    assert forall|x: u32| (exists|k: int| 0 <= k < i + 1 && depot_id_of(ch[k].name) == Some(x)) implies ids@.to_set().contains(x) by {
                        let k = choose|k: int| 0 <= k < i + 1 && depot_id_of(ch[k].name) == Some(x);
                        assert(k < i);
                    }
                }
            },
        }
        i = i + 1;
    }
    let r = crate::pics::missing_package_ids(ids.as_slice(), flags.as_slice());
    proof {
        lemma_uncached_all(ids@, flags@, ids@.len() as int);
        assert(ids@.subrange(0, ids@.len() as int) =~= ids@);
        assert(ids@.to_set() =~= depot_ids_in(ch));
    }
    r
}

proof fn lemma_uncached_all(ids: Seq<u32>, flags: Seq<bool>, n: int)
    requires
        0 <= n <= ids.len(),
        ids.len() == flags.len(),
        forall|k: int| 0 <= k < flags.len() ==> !(#[trigger] flags[k]),
    ensures
        crate::pics::uncached_ids(ids, flags, n) == ids.subrange(0, n).to_set(),
    decreases n,
{
    if n > 0 {
        lemma_uncached_all(ids, flags, n - 1);
        assert(ids.subrange(0, n).to_set() =~= ids.subrange(0, n - 1).to_set().insert(ids[n - 1])) by {
            assert forall|x: u32| ids.subrange(0, n).to_set().contains(x) implies ids.subrange(0, n - 1).to_set().insert(ids[n - 1]).contains(x) by {
                let t = ids.subrange(0, n);
                assert(t.contains(x));
                let j = choose|j: int| 0 <= j < t.len() && t[j] == x;
                if j < n - 1 {
                    assert(ids.subrange(0, n - 1)[j] == x);
                }
            }
            assert forall|x: u32| ids.subrange(0, n - 1).to_set().insert(ids[n - 1]).contains(x) implies ids.subrange(0, n).to_set().contains(x) by {
                if x == ids[n - 1] {
                    assert(ids.subrange(0, n)[n - 1] == x);
                } else {
                    let t = ids.subrange(0, n - 1);
                    assert(t.contains(x));
                    let j = choose|j: int| 0 <= j < t.len() && t[j] == x;
                    assert(ids.subrange(0, n)[j] == x);
                }
            }
        }
    } else {
        assert(ids.subrange(0, 0).to_set() =~= Set::<u32>::empty());
    }
    if n == ids.len() {
        assert(ids.subrange(0, n) =~= ids);
    }
}

/// The app a depot's content belongs to: `depotfromapp` when it reads as a
/// `u32`, else the app itself.
pub fn depot_owner(depot: &KeyValue, app_id: u32) -> (r: u32)
    ensures
        r == match child_named(depot@, "depotfromapp"@) {
            Some(v) => match crate::kv::value_number(v, u32::MAX as int) {
                Some(n) => n as u32,
                None => app_id,
            },
            None => app_id,
        },
{
    match depot.get("depotfromapp") {
        Some(v) => match v.as_u32() {
            Some(n) => n,
            None => app_id,
        },
        None => app_id,
    }
}

/// `manifests/<branch>/gid`.
pub open spec fn gid_path(branch: Seq<char>) -> Seq<char> {
    "manifests/"@ + branch + "/gid"@
}

/// The manifest id a depot node lists for a branch.
pub fn branch_manifest_gid(depot: &KeyValue, branch: &str) -> (r: Option<u64>)
    ensures
        r == match path_spec(depot@, gid_path(branch@)) {
            Some(g) => match crate::kv::value_number(g, u64::MAX as int) {
                Some(n) => Some(n as u64),
                None => None,
            },
            None => None,
        },
{
    let mut p = str_chars("manifests/");
    let b = str_chars(branch);
    let t = str_chars("/gid");
    let ghost start = p@;
    let mut i: usize = 0;
    while i < b.len()
        invariant
            i <= b@.len(),
            p@ == start + b@.subrange(0, i as int),
        decreases b@.len() - i,
    {
        p.push(b[i]);
        i = i + 1;
        assert(p@ =~= start + b@.subrange(0, i as int));
    }
    let ghost mid = p@;
    let mut j: usize = 0;
    while j < t.len()
        invariant
            j <= t@.len(),
            p@ == mid + t@.subrange(0, j as int),
        decreases t@.len() - j,
    {
        p.push(t[j]);
        j = j + 1;
        assert(p@ =~= mid + t@.subrange(0, j as int));
    }
    assert(b@.subrange(0, b@.len() as int) =~= b@);
    assert(t@.subrange(0, t@.len() as int) =~= t@);
    assert(p@ =~= gid_path(branch@));
    let path = string_from_chars(p.as_slice());
    match depot.path(path.as_str()) {
        Some(g) => g.as_u64(),
        None => None,
    }
}

/// The manifest to download for a depot: the requested one, else the
/// branch's; none when that is missing or zero.
pub fn plan_manifest(requested: Option<u64>, listed: Option<u64>) -> (r: Option<u64>)
    ensures
        r == match (if requested is Some {
            requested
        } else {
            listed
        }) {
            Some(g) => if g != 0 {
                Some(g)
            } else {
                None
            },
            None => None,
        },
{
    let g = match requested {
        Some(g) => Some(g),
        None => listed,
    };
    match g {
        Some(g) => if g != 0 {
            Some(g)
        } else {
            None
        },
        None => None,
    }
}

/// What resolving one candidate depot leads to.
#[derive(Debug, Clone, Copy, PartialEq, Eq)]
pub enum DepotStep {
    /// The app info does not list the depot: skipped.
    NotInAppInfo,
    /// The OS, architecture or language filters leave it out.
    Filtered,
    /// The depot belongs to another app, whose info is needed to read the
    /// branch's manifest.
    NeedOwnerInfo { owner_app: u32 },
    /// The owner app's info could not be had: skipped.
    OwnerUnknown { owner_app: u32 },
    /// The branch names no manifest: skipped.
    NoManifest,
    /// The manifest is known; the depot is planned if the session may
    /// access it.
    CheckAccess { owner_app: u32, gid: u64 },
}

/// The app that owns a depot node: its `depotfromapp`, else the app itself.
pub open spec fn owner_of(d: KvModel, app_id: u32) -> u32 {
    match child_named(d, "depotfromapp"@) {
        Some(v) => match crate::kv::value_number(v, u32::MAX as int) {
            Some(n) => n as u32,
            None => app_id,
        },
        None => app_id,
    }
}

/// The manifest gid a depot node lists for a branch.
pub open spec fn branch_gid(d: KvModel, branch: Seq<char>) -> Option<u64> {
    match path_spec(d, gid_path(branch)) {
        Some(g) => match crate::kv::value_number(g, u64::MAX as int) {
            Some(n) => Some(n as u64),
            None => None,
        },
        None => None,
    }
}

/// The requested manifest, else the listed one; none when zero.
pub open spec fn chosen_gid(requested: Option<u64>, listed: Option<u64>) -> Option<u64> {
    match (if requested is Some { requested } else { listed }) {
        Some(g) => if g != 0 { Some(g) } else { None },
        None => None,
    }
}

pub open spec fn gid_step(owner_app: u32, gid: Option<u64>) -> DepotStep {
    match gid {
        Some(g) => DepotStep::CheckAccess { owner_app, gid: g },
        None => DepotStep::NoManifest,
    }
}

/// The first step for a candidate depot, from the app's `depots` node: it
/// must be listed and pass the filters; its manifest is the requested one,
/// else the branch's as the app lists it, unless another app owns it.
pub open spec fn first_depot_step(depots: KvModel, depot_id: u32, req: DownloadRequest) -> DepotStep {
    match child_named(depots, decimal(depot_id as nat)) {
        None => DepotStep::NotInAppInfo,
        Some(d) => if !depot_passes(
            child_named(d, "config"@),
            req.os@,
            req.arch@,
            req.language@,
            req.all_languages,
            req.depot_ids@.len() == 0,
        ) {
            DepotStep::Filtered
        } else {
            let owner = owner_of(d, req.app_id);
            if req.manifest_id is Some {
                gid_step(owner, chosen_gid(req.manifest_id, None))
            } else if owner == req.app_id {
                gid_step(owner, chosen_gid(None, branch_gid(d, req.branch@)))
            } else {
                DepotStep::NeedOwnerInfo { owner_app: owner }
            }
        },
    }
}

/// The step once the owner app's info is in (`None`: it could not be had):
/// the branch's manifest as the owner app lists the depot, else as the app
/// itself does.
pub open spec fn owner_depot_step(
    depots: KvModel,
    depot_id: u32,
    branch: Seq<char>,
    owner_app: u32,
    owner_kv: Option<KvModel>,
) -> DepotStep {
    match (child_named(depots, decimal(depot_id as nat)), owner_kv) {
        (None, _) => DepotStep::NotInAppInfo,
        (Some(_), None) => DepotStep::OwnerUnknown { owner_app },
        (Some(d), Some(o)) => {
            let node = match child_named(o, "depots"@) {
                Some(od) => match child_named(od, decimal(depot_id as nat)) {
                    Some(n) => n,
                    None => d,
                },
                None => d,
            };
            gid_step(owner_app, chosen_gid(None, branch_gid(node, branch)))
        },
    }
}

/// The app a depot node names in `depotfromapp`, when that reads as a u32.
pub open spec fn named_owner(depots: KvModel, depot_id: u32) -> Option<u32> {
    match child_named(depots, decimal(depot_id as nat)) {
        Some(d) => match child_named(d, "depotfromapp"@) {
            Some(v) => match crate::kv::value_number(v, u32::MAX as int) {
                Some(n) => Some(n as u32),
                None => None,
            },
            None => None,
        },
        None => None,
    }
}

/// A depot that reaches the access check, or needs its owner's info, is
/// owned by the app its node names in `depotfromapp`, else by the requested
/// app, whether or not a manifest id was requested; a requested manifest id
/// is the one planned.
pub proof fn lemma_depot_owner(depots: KvModel, depot_id: u32, req: DownloadRequest)
    ensures
        match first_depot_step(depots, depot_id, req) {
            DepotStep::CheckAccess { owner_app, gid } => owner_app == (match named_owner(
                depots,
                depot_id,
            ) {
                Some(o) => o,
                None => req.app_id,
            }) && (req.manifest_id matches Some(m) ==> gid == m),
            DepotStep::NeedOwnerInfo { owner_app } => owner_app == (match named_owner(
                depots,
                depot_id,
            ) {
                Some(o) => o,
                None => req.app_id,
            }) && owner_app != req.app_id,
            _ => true,
        },
{
}

/// Once the owner app's info is in, the depot keeps that owner.
pub proof fn lemma_owner_step_keeps_owner(
    depots: KvModel,
    depot_id: u32,
    branch: Seq<char>,
    owner_app: u32,
    owner_kv: Option<KvModel>,
)
    ensures
        match owner_depot_step(depots, depot_id, branch, owner_app, owner_kv) {
            DepotStep::CheckAccess { owner_app: o, .. } => o == owner_app,
            DepotStep::OwnerUnknown { owner_app: o } => o == owner_app,
            _ => true,
        },
{
}

fn depot_key_text(depot_id: u32) -> (r: String)
    ensures
        r@ == decimal(depot_id as nat),
{
    string_from_chars(u64_decimal(depot_id as u64).as_slice())
}

/// Resolves a candidate depot as far as the app's own info allows.
pub fn first_depot_step_of(depots: &KeyValue, depot_id: u32, req: &DownloadRequest) -> (r: DepotStep)
    ensures
        r == first_depot_step(depots@, depot_id, *req),
{
    let key = depot_key_text(depot_id);
    let d = match depots.get(key.as_str()) {
        Some(d) => d,
        None => {
            return DepotStep::NotInAppInfo;
        },
    };
    if !depot_matches_filters(
        d.get("config"),
        req.os.as_str(),
        req.arch.as_str(),
        req.language.as_str(),
        req.all_languages,
        req.depot_ids.len() == 0,
    ) {
        return DepotStep::Filtered;
    }
    let owner = depot_owner(d, req.app_id);
    if req.manifest_id.is_some() {
        match plan_manifest(req.manifest_id, None) {
            Some(g) => DepotStep::CheckAccess { owner_app: owner, gid: g },
            None => DepotStep::NoManifest,
        }
    } else if owner == req.app_id {
        match plan_manifest(None, branch_manifest_gid(d, req.branch.as_str())) {
            Some(g) => DepotStep::CheckAccess { owner_app: owner, gid: g },
            None => DepotStep::NoManifest,
        }
    } else {
        DepotStep::NeedOwnerInfo { owner_app: owner }
    }
}

/// Resolves a depot owned by another app once that app's info is in
/// (`None` when it could not be had).
pub fn owner_depot_step_of(
    depots: &KeyValue,
    depot_id: u32,
    branch: &str,
    owner_app: u32,
    owner_kv: Option<&KeyValue>,
) -> (r: DepotStep)
    ensures
        r == owner_depot_step(
            depots@,
            depot_id,
            branch@,
            owner_app,
            match owner_kv {
                Some(o) => Some(o@),
                None => None,
            },
        ),
{
    let key = depot_key_text(depot_id);
    let d = match depots.get(key.as_str()) {
        Some(d) => d,
        None => {
            return DepotStep::NotInAppInfo;
        },
    };
    let o = match owner_kv {
        Some(o) => o,
        None => {
            return DepotStep::OwnerUnknown { owner_app };
        },
    };
    let node = match o.get("depots") {
        Some(od) => match od.get(key.as_str()) {
            Some(n) => n,
            None => d,
        },
        None => d,
    };
    match plan_manifest(None, branch_manifest_gid(node, branch)) {
        Some(g) => DepotStep::CheckAccess { owner_app, gid: g },
        None => DepotStep::NoManifest,
    }
}

/// A depot chosen for download: the manifest to fetch and the app that
/// owns the depot.
#[derive(Debug, Clone)]
pub struct DepotPlan {
    pub depot_id: u32,
    pub owner_app: u32,
    pub manifest_gid: u64,
    pub branch: String,
}

/// Records the outcome of resolving one depot: a plan is added, after the
/// ones before it, exactly when its manifest was found and the session may
/// access it.
pub fn record_depot_plan(plans: &mut Vec<DepotPlan>, depot_id: u32, step: DepotStep, granted: bool, branch: &str)
    ensures
        match step {
            DepotStep::CheckAccess { owner_app, gid } => if granted {
                &&& final(plans)@.len() == old(plans)@.len() + 1
                &&& final(plans)@.subrange(0, old(plans)@.len() as int) == old(plans)@
                &&& final(plans)@.last().depot_id == depot_id
                &&& final(plans)@.last().owner_app == owner_app
                &&& final(plans)@.last().manifest_gid == gid
                &&& final(plans)@.last().branch@ == branch@
            } else {
                final(plans)@ == old(plans)@
            },
            _ => final(plans)@ == old(plans)@,
        },
{
    match step {
        DepotStep::CheckAccess { owner_app, gid } => {
            if granted {
                let ghost before = plans@;
                plans.push(
                    DepotPlan {
                        depot_id,
                        owner_app,
                        manifest_gid: gid,
                        branch: string_from_chars(str_chars(branch).as_slice()),
                    },
                );
                assert(plans@.subrange(0, before.len() as int) =~= before);
            }
        },
        _ => {},
    }
}

/// A package grants access to a depot when it lists the app or the depot.
pub fn grants_app_or_depot(pkg: &PackageInfo, app_id: u32, depot_id: u32) -> (r: bool)
    ensures
        r == (grants_access(pkg.kv@, app_id) || grants_access(pkg.kv@, depot_id)),
{
    package_grants_access(pkg, app_id) || package_grants_access(pkg, depot_id)
}

// ------------------------------------------------------------------
// Paths
// ------------------------------------------------------------------

/// Backslashes turned into forward slashes.
pub open spec fn slashes(name: Seq<char>) -> Seq<char> {
    name.map_values(|c: char| if c == '\\' {
        '/'
    } else {
        c
    })
}

fn slash_chars(name: &str) -> (r: Vec<char>)
    ensures
        r@ == slashes(name@),
{
    let cs = str_chars(name);
    let mut out: Vec<char> = Vec::new();
    let mut i: usize = 0;
    while i < cs.len()
        invariant
            i <= cs@.len(),
            cs@ == name@,
            out@ == slashes(cs@.subrange(0, i as int)),
        decreases cs@.len() - i,
    {
        out.push(if cs[i] == '\\' {
            '/'
        } else {
            cs[i]
        });
        i = i + 1;
        assert(out@ =~= slashes(cs@.subrange(0, i as int)));
    }
    assert(cs@.subrange(0, cs@.len() as int) =~= cs@);
    out
}

/// Normalizes a manifest filename into a relative path with forward
/// slashes.
pub fn normalize_rel(name: &str) -> (r: String)
    ensures
        r@ == slashes(name@),
{
    string_from_chars(slash_chars(name).as_slice())
}

/// Why a manifest path cannot be used.
#[derive(Debug, Clone, Copy, PartialEq, Eq)]
pub enum PathError {
    /// A `..` component, or one holding `:`.
    Illegal,
}

/// The components of a relative path: empty and `.` components are
/// dropped; a `..` component or one holding `:` makes the path illegal.
pub open spec fn path_parts(parts: Seq<Seq<char>>) -> Option<Seq<Seq<char>>>
    decreases parts.len(),
{
    if parts.len() == 0 {
        Some(seq![])
    } else {
        match path_parts(parts.drop_last()) {
            None => None,
            Some(pre) => {
                let p = parts.last();
                if p.len() == 0 || p == seq!['.'] {
                    Some(pre)
                } else if p == seq!['.', '.'] || p.contains(':') {
                    None
                } else {
                    Some(pre.push(p))
                }
            },
        }
    }
}

/// The components under the install directory that a manifest path names,
/// rejecting traversal.
pub fn safe_components(rel: &str) -> (r: Result<Vec<String>, PathError>)
    ensures
        match path_parts(split_on(slashes(rel@), '/')) {
            Some(ps) => r matches Ok(v) && v@.len() == ps.len() && forall|i: int|
                0 <= i < ps.len() ==> (#[trigger] v@[i])@ == ps[i],
            None => r == Err::<Vec<String>, PathError>(PathError::Illegal),
        },
{
    let normalized = slash_chars(rel);
    let parts = split_chars(normalized.as_slice(), '/');
    let ghost ps = split_on(slashes(rel@), '/');
    let mut out: Vec<String> = Vec::new();
    let mut i: usize = 0;
    assert(ps.subrange(0, 0) =~= seq![]);
    while i < parts.len()
        invariant
            i <= parts@.len(),
            parts@.len() == ps.len(),
            ps == split_on(slashes(rel@), '/'),
            forall|j: int| 0 <= j < parts@.len() ==> #[trigger] parts@[j]@ == ps[j],
            path_parts(ps.subrange(0, i as int)) matches Some(pre) && out@.len() == pre.len()
                && forall|k: int| 0 <= k < pre.len() ==> (#[trigger] out@[k])@ == pre[k],
        decreases parts@.len() - i,
    {
        let part = &parts[i];
        assert(parts@[i as int]@ == ps[i as int]);
        assert(ps.subrange(0, i + 1).drop_last() =~= ps.subrange(0, i as int));
        let n = part.len();
        if n == 0 || (n == 1 && part[0] == '.') {
            proof {
                if n == 1 {
                    assert(part@ =~= seq!['.']);
                }
            }
        } else {
            let dots = n == 2 && part[0] == '.' && part[1] == '.';
            let mut colon = false;
            let mut k: usize = 0;
            while k < n
                invariant
                    k <= n,
                    n == part@.len(),
                    colon == part@.subrange(0, k as int).contains(':'),
                decreases n - k,
            {
                proof {
                    let s0 = part@.subrange(0, k as int);
                    let s1 = part@.subrange(0, k + 1);
                    assert(s1 =~= s0.push(part@[k as int]));
                    if part@[k as int] == ':' {
                        assert(s1[k as int] == ':');
                    } else {
                        if s1.contains(':') {
                            let j = choose|j: int| 0 <= j < s1.len() && s1[j] == ':';
                            assert(s0[j] == ':');
                        }
                        if s0.contains(':') {
                            let j = choose|j: int| 0 <= j < s0.len() && s0[j] == ':';
                            assert(s1[j] == ':');
                        }
                    }
                }
                if part[k] == ':' {
                    colon = true;
                }
                k = k + 1;
            }
            assert(part@.subrange(0, n as int) =~= part@);
            proof {
                if dots {
                    assert(part@ =~= seq!['.', '.']);
                }
                if part@ == seq!['.', '.'] {
                    assert(part@[0] == '.' && part@[1] == '.');
                }
                if part@ == seq!['.'] {
                    assert(part@.len() == 1);
                }
            }
            if dots || colon {
                proof {
                    lemma_path_parts_illegal(ps, i as int + 1);
                    assert(ps.subrange(0, ps.len() as int) =~= ps);
                }
                return Err(PathError::Illegal);
            }
            out.push(string_from_chars(part.as_slice()));
        }
        i = i + 1;
    }
    assert(ps.subrange(0, ps.len() as int) =~= ps);
    Ok(out)
}

proof fn lemma_path_parts_illegal(ps: Seq<Seq<char>>, j: int)
    requires
        0 < j <= ps.len(),
        path_parts(ps.subrange(0, j)) is None,
    ensures
        path_parts(ps.subrange(0, ps.len() as int)) is None,
    decreases ps.len() - j,
{
    if j < ps.len() {
        assert(ps.subrange(0, j + 1).drop_last() =~= ps.subrange(0, j));
        lemma_path_parts_illegal(ps, j + 1);
    }
}

// ------------------------------------------------------------------
// File filters
// ------------------------------------------------------------------

/// The case-insensitive form of a filter: `(?i)` before it.
pub open spec fn case_insensitive(f: Seq<char>) -> Seq<char> {
    "(?i)"@ + f
}

/// The patterns of the filters that compile, in order, made
/// case-insensitive.
pub open spec fn compiled_sources(filters: Seq<Seq<char>>) -> Seq<Seq<char>>
    decreases filters.len(),
{
    if filters.len() == 0 {
        seq![]
    } else {
        let rest = compiled_sources(filters.drop_last());
        if regex_compiles(case_insensitive(filters.last())) {
            rest.push(case_insensitive(filters.last()))
        } else {
            rest
        }
    }
}

pub open spec fn sources_of(fs: Seq<CompiledPattern>) -> Seq<Seq<char>> {
    fs.map_values(|f: CompiledPattern| f.source())
}

pub open spec fn texts_of(v: Seq<String>) -> Seq<Seq<char>> {
    v.map_values(|s: String| s@)
}

/// Compiles the file filters case-insensitively; filters that do not
/// compile are dropped.
pub fn compile_filters(filters: &Vec<String>) -> (r: Vec<CompiledPattern>)
    ensures
        sources_of(r@) == compiled_sources(texts_of(filters@)),
{
    let ghost fv = texts_of(filters@);
    let mut out: Vec<CompiledPattern> = Vec::new();
    let mut i: usize = 0;
    assert(fv.subrange(0, 0) =~= seq![]);
    assert(sources_of(out@) =~= seq![]);
    while i < filters.len()
        invariant
            i <= filters@.len(),
            fv == texts_of(filters@),
            sources_of(out@) == compiled_sources(fv.subrange(0, i as int)),
        decreases filters@.len() - i,
    {
        assert(fv.subrange(0, i + 1).drop_last() =~= fv.subrange(0, i as int));
        assert(fv[i as int] == filters@[i as int]@);
        let mut pattern = str_chars("(?i)");
        let f = string_chars(&filters[i]);
        let ghost start = pattern@;
        let mut k: usize = 0;
        while k < f.len()
            invariant
                k <= f@.len(),
                pattern@ == start + f@.subrange(0, k as int),
            decreases f@.len() - k,
        {
            pattern.push(f[k]);
            k = k + 1;
            assert(pattern@ =~= start + f@.subrange(0, k as int));
        }
        assert(f@.subrange(0, f@.len() as int) =~= f@);
        let ghost before = out@;
        match compile_regex(string_from_chars(pattern.as_slice())) {
            Some(c) => {
                out.push(c);
                assert(sources_of(out@) =~= sources_of(before).push(c.source()));
            },
            None => {},
        }
        i = i + 1;
    }
    assert(fv.subrange(0, filters@.len() as int) =~= fv);
    out
}

/// A file name passes the filters when there are none or some filter
/// matches its normalized path.
pub open spec fn passes_filters(sources: Seq<Seq<char>>, name: Seq<char>) -> bool {
    sources.len() == 0 || exists|i: int|
        0 <= i < sources.len() && regex_is_match(#[trigger] sources[i], slashes(name))
}

pub fn filters_match(filters: &Vec<CompiledPattern>, name: &str) -> (r: bool)
    ensures
        r == passes_filters(sources_of(filters@), name@),
{
    if filters.len() == 0 {
        return true;
    }
    let normalized = string_from_chars(slash_chars(name).as_slice());
    let ghost srcs = sources_of(filters@);
    let mut i: usize = 0;
    while i < filters.len()
        invariant
            i <= filters@.len(),
            srcs == sources_of(filters@),
            normalized@ == slashes(name@),
            forall|k: int| 0 <= k < i ==> !regex_is_match(#[trigger] srcs[k], slashes(name@)),
        decreases filters@.len() - i,
    {
        assert(srcs[i as int] == filters@[i as int].source());
        if pattern_is_match(&filters[i], normalized.as_str()) {
            return true;
        }
        i = i + 1;
    }
    false
}

// ------------------------------------------------------------------
// The file plan of a depot
// ------------------------------------------------------------------

pub open spec fn is_dir(f: FileView) -> bool {
    f.flags & crate::manifest::file_flags::DIRECTORY != 0
}

/// The positions of the files to fetch: not directories, passing the
/// filters, in manifest order.
pub open spec fn wanted_files(fs: Seq<FileView>, sources: Seq<Seq<char>>, n: int) -> Seq<int>
    decreases n,
{
    if n <= 0 {
        seq![]
    } else {
        let rest = wanted_files(fs, sources, n - 1);
        if !is_dir(fs[n - 1]) && passes_filters(sources, fs[n - 1].name) {
            rest.push(n - 1)
        } else {
            rest
        }
    }
}

/// The positions of the directories that pass the filters, in manifest
/// order.
pub open spec fn wanted_dirs(fs: Seq<FileView>, sources: Seq<Seq<char>>, n: int) -> Seq<int>
    decreases n,
{
    if n <= 0 {
        seq![]
    } else {
        let rest = wanted_dirs(fs, sources, n - 1);
        if is_dir(fs[n - 1]) && passes_filters(sources, fs[n - 1].name) {
            rest.push(n - 1)
        } else {
            rest
        }
    }
}

/// Which files of a depot to fetch, and which directories to create.
pub struct FilePlan {
    /// Positions of the files, ordered by lower-cased name (equal names in
    /// manifest order).
    pub files: Vec<usize>,
    /// Positions of the directories, in manifest order.
    pub dirs: Vec<usize>,
}

proof fn lemma_wanted_bounds(fs: Seq<FileView>, sources: Seq<Seq<char>>, n: int)
    requires
        0 <= n <= fs.len(),
    ensures
        forall|k: int| 0 <= k < wanted_files(fs, sources, n).len() ==> 0 <= #[trigger] wanted_files(fs, sources, n)[k] < n,
        forall|a: int, b: int| 0 <= a < b < wanted_files(fs, sources, n).len() ==> #[trigger] wanted_files(fs, sources, n)[a] < #[trigger] wanted_files(fs, sources, n)[b],
    decreases n,
{
    if n > 0 {
        lemma_wanted_bounds(fs, sources, n - 1);
        let r = wanted_files(fs, sources, n - 1);
        let w = wanted_files(fs, sources, n);
        if w.len() != r.len() {
            assert(w =~= r.push(n - 1));
            assert forall|k: int| 0 <= k < w.len() implies 0 <= #[trigger] w[k] < n by {
                if k < r.len() {
                    assert(w[k] == r[k]);
                }
            }
            assert forall|a: int, b: int| 0 <= a < b < w.len() implies #[trigger] w[a] < #[trigger] w[b] by {
                assert(w[a] == r[a]);
                if b < r.len() {
                    assert(w[b] == r[b]);
                }
            }
        }
    }
}

/// Plans the files of a depot: the files passing the filters ordered by
/// lower-cased name, and the directories passing them.
pub fn plan_files(manifest: &DepotManifest, filters: &Vec<CompiledPattern>) -> (r: FilePlan)
    ensures
        ({
            let fs = manifest@.files;
            let w = wanted_files(fs, sources_of(filters@), fs.len() as int);
            &&& r.files@.len() == w.len()
            &&& forall|k: int| 0 <= k < r.files@.len() ==> w.contains(#[trigger] r.files@[k] as int)
            &&& forall|k: int, l: int|
                0 <= k < l < r.files@.len() ==> key_before(
                    name_keys(fs),
                    #[trigger] r.files@[k] as int,
                    #[trigger] r.files@[l] as int,
                )
            &&& r.dirs@.len() == wanted_dirs(fs, sources_of(filters@), fs.len() as int).len()
            &&& forall|k: int|
                0 <= k < r.dirs@.len() ==> r.dirs@[k] as int == #[trigger] wanted_dirs(
                    fs,
                    sources_of(filters@),
                    fs.len() as int,
                )[k]
        }),
{
    let ghost fs = manifest@.files;
    let ghost srcs = sources_of(filters@);
    let n = manifest.files.len();
    let mut sel: Vec<usize> = Vec::new();
    let mut keys: Vec<Vec<char>> = Vec::new();
    let mut dirs: Vec<usize> = Vec::new();
    let mut i: usize = 0;
    while i < n
        invariant
            i <= n,
            n == manifest.files@.len(),
            fs == manifest@.files,
            srcs == sources_of(filters@),
            sel@.len() == wanted_files(fs, srcs, i as int).len(),
            forall|k: int| 0 <= k < sel@.len() ==> #[trigger] sel@[k] as int == wanted_files(fs, srcs, i as int)[k],
            keys@.len() == sel@.len(),
            forall|k: int| 0 <= k < keys@.len() ==> (#[trigger] keys@[k])@ == name_keys(fs)[sel@[k] as int],
            dirs@.len() == wanted_dirs(fs, srcs, i as int).len(),
            forall|k: int| 0 <= k < dirs@.len() ==> #[trigger] dirs@[k] as int == wanted_dirs(fs, srcs, i as int)[k],
        decreases n - i,
    {
        let f = &manifest.files[i];
        assert(fs[i as int] == f@);
        let dir = f.is_directory();
        let pass = filters_match(filters, f.name.as_str());
        if !dir && pass {
            sel.push(i);
            let lower = to_lowercase(f.name.as_str());
            keys.push(str_chars(lower.as_str()));
        } else if dir && pass {
            dirs.push(i);
        }
        i = i + 1;
    }
    proof {
        lemma_wanted_bounds(fs, srcs, n as int);
    }
    let order = sort_positions(&keys, 0, sel.len());
    let ghost w = wanted_files(fs, srcs, n as int);
    let mut files: Vec<usize> = Vec::new();
    let mut k: usize = 0;
    while k < order.len()
        invariant
            k <= order@.len(),
            order@.len() == sel@.len(),
            sel@.len() == w.len(),
            forall|j: int| 0 <= j < order@.len() ==> #[trigger] order@[j] < sel@.len(),
            files@.len() == k,
            forall|j: int| 0 <= j < k ==> #[trigger] files@[j] == sel@[order@[j] as int],
        decreases order@.len() - k,
    {
        files.push(sel[order[k]]);
        k = k + 1;
    }
    proof {
        let ks = key_views(keys@);
        let all = name_keys(fs);
        assert forall|j: int| 0 <= j < ks.len() implies ks[j] == all[sel@[j] as int] by {
            assert(ks[j] == keys@[j]@);
        }
        assert forall|a: int, b: int| 0 <= a < b < files@.len() implies key_before(
            all,
            #[trigger] files@[a] as int,
            #[trigger] files@[b] as int,
        ) by {
            let oa = order@[a] as int;
            let ob = order@[b] as int;
            assert(key_before(ks, oa, ob));
            assert(ks[oa] == all[sel@[oa] as int]);
            assert(ks[ob] == all[sel@[ob] as int]);
            if ks[oa] == ks[ob] {
                assert(sel@[oa] == w[oa] && sel@[ob] == w[ob]);
            }
        }
        assert forall|j: int| 0 <= j < files@.len() implies w.contains(#[trigger] files@[j] as int) by {
            let o = order@[j] as int;
            assert(w[o] == sel@[o] as int);
        }
    }
    FilePlan { files, dirs }
}

/// The sum of the sizes of the planned files, capped at `u64::MAX`.
pub open spec fn planned_size(fs: Seq<FileView>, files: Seq<usize>) -> int
    decreases files.len(),
{
    if files.len() == 0 {
        0
    } else {
        planned_size(fs, files.drop_last()) + fs[files.last() as int].size
    }
}

pub fn total_size(manifest: &DepotManifest, files: &Vec<usize>) -> (r: u64)
    requires
        forall|k: int| 0 <= k < files@.len() ==> (#[trigger] files@[k]) < manifest.files@.len(),
    ensures
        r == (if planned_size(manifest@.files, files@) > u64::MAX {
            u64::MAX as int
        } else {
            planned_size(manifest@.files, files@)
        }),
{
    let mut total: u64 = 0;
    let mut capped = false;
    let mut i: usize = 0;
    while i < files.len()
        invariant
            i <= files@.len(),
            forall|k: int| 0 <= k < files@.len() ==> (#[trigger] files@[k]) < manifest.files@.len(),
            capped ==> total == u64::MAX && planned_size(manifest@.files, files@.subrange(0, i as int)) > u64::MAX,
            !capped ==> total == planned_size(manifest@.files, files@.subrange(0, i as int)),
            planned_size(manifest@.files, files@.subrange(0, i as int)) >= 0,
        decreases files@.len() - i,
    {
        assert(files@.subrange(0, i + 1).drop_last() =~= files@.subrange(0, i as int));
        let size = manifest.files[files[i]].size;
        assert(manifest@.files[files@[i as int] as int].size == size);
        if !capped {
            if total > u64::MAX - size {
                total = u64::MAX;
                capped = true;
            } else {
                total = total + size;
            }
        }
        i = i + 1;
    }
    assert(files@.subrange(0, files@.len() as int) =~= files@);
    total
}

/// Index of the first file of `fs` named `name`.
pub open spec fn first_named(fs: Seq<FileView>, name: Seq<char>, i: int) -> Option<int>
    decreases fs.len() - i,
{
    if i < 0 || i >= fs.len() {
        None
    } else if fs[i].name == name {
        Some(i)
    } else {
        first_named(fs, name, i + 1)
    }
}

/// A file is unchanged since a previous manifest when the first file of
/// that name there has the same content hash and size.
pub open spec fn unchanged_since(old: Seq<FileView>, f: FileView) -> bool {
    match first_named(old, f.name, 0) {
        Some(i) => old[i].hash == f.hash && old[i].size == f.size,
        None => false,
    }
}

proof fn lemma_first_named_at(fs: Seq<FileView>, k: int, i: int)
    requires
        0 <= k <= i < fs.len(),
        forall|j: int| k <= j < i ==> (#[trigger] fs[j]).name != fs[i].name,
    ensures
        first_named(fs, fs[i].name, k) == Some(i),
    decreases i - k,
{
    if k < i {
        lemma_first_named_at(fs, k + 1, i);
    }
}

/// Downloading a version again skips its files: against its own manifest
/// (whose file names are distinct) every file counts as unchanged.
pub proof fn lemma_same_version_unchanged(fs: Seq<FileView>, i: int)
    requires
        0 <= i < fs.len(),
        forall|a: int, b: int| 0 <= a < b < fs.len() ==> (#[trigger] fs[a]).name != (#[trigger] fs[b]).name,
    ensures
        unchanged_since(fs, fs[i]),
{
    assert forall|j: int| 0 <= j < i implies (#[trigger] fs[j]).name != fs[i].name by {
        assert(fs[j].name != fs[i].name);
    }
    lemma_first_named_at(fs, 0, i);
}

pub fn unchanged_in(old: &DepotManifest, file: &FileData) -> (r: bool)
    ensures
        r == unchanged_since(old@.files, file@),
{
    let ghost fs = old@.files;
    let mut i: usize = 0;
    while i < old.files.len()
        invariant
            i <= old.files@.len(),
            fs == old@.files,
            first_named(fs, file.name@, 0) == first_named(fs, file.name@, i as int),
        decreases old.files@.len() - i,
    {
        let o = &old.files[i];
        assert(fs[i as int] == o@);
        if crate::text::string_eq(&o.name, &file.name) {
            return crate::text::bytes_eq(o.hash.as_slice(), file.hash.as_slice()) && o.size
                == file.size;
        }
        i = i + 1;
    }
    false
}

/// A planned file is checked on disk (and its damaged chunks fetched)
/// unless, outside verify-only mode, the previous manifest lists it with the
/// same content and it is already in place.
pub fn file_needs_work(verify_only: bool, old: Option<&DepotManifest>, file: &FileData, exists: bool) -> (r: bool)
    ensures
        r == !(!verify_only && (old matches Some(o) && unchanged_since(o@.files, file@)) && exists),
{
    if verify_only || !exists {
        return true;
    }
    match old {
        Some(o) => !unchanged_in(o, file),
        None => true,
    }
}

/// How a depot's checked files end.
#[derive(Debug, Clone, Copy, PartialEq, Eq)]
pub enum DepotOutcome {
    /// Verify-only mode: the number of files found damaged.
    Verified { bad: usize },
    /// Every file is already in place.
    UpToDate,
    /// Some chunks must be fetched.
    Download,
}

/// How many of the files still need chunks.
pub open spec fn count_nonempty(needed: Seq<usize>) -> nat
    decreases needed.len(),
{
    if needed.len() == 0 {
        0
    } else {
        count_nonempty(needed.drop_last()) + if needed.last() > 0 { 1nat } else { 0nat }
    }
}

proof fn lemma_count_nonempty_bound(needed: Seq<usize>)
    ensures
        count_nonempty(needed) <= needed.len(),
    decreases needed.len(),
{
    if needed.len() > 0 {
        lemma_count_nonempty_bound(needed.drop_last());
    }
}

/// What follows the check of a depot's files, given how many chunks each
/// checked file still needs: in verify-only mode a report of the damaged
/// files, else nothing to do when none needs any, else the download.
pub fn depot_outcome(verify_only: bool, needed: &Vec<usize>) -> (r: DepotOutcome)
    ensures
        verify_only ==> r == (DepotOutcome::Verified { bad: count_nonempty(needed@) as usize }),
        !verify_only && count_nonempty(needed@) == 0 ==> r == DepotOutcome::UpToDate,
        !verify_only && count_nonempty(needed@) > 0 ==> r == DepotOutcome::Download,
{
    let mut bad: usize = 0;
    let mut i: usize = 0;
    while i < needed.len()
        invariant
            i <= needed@.len(),
            bad == count_nonempty(needed@.subrange(0, i as int)),
        decreases needed@.len() - i,
    {
        proof {
            assert(needed@.subrange(0, i + 1).drop_last() =~= needed@.subrange(0, i as int));
            lemma_count_nonempty_bound(needed@.subrange(0, i as int));
        }
        if needed[i] > 0 {
            bad = bad + 1;
        }
        i = i + 1;
    }
    assert(needed@.subrange(0, needed@.len() as int) =~= needed@);
    if verify_only {
        DepotOutcome::Verified { bad }
    } else if bad == 0 {
        DepotOutcome::UpToDate
    } else {
        DepotOutcome::Download
    }
}

// ------------------------------------------------------------------
// Chunk validation and work
// ------------------------------------------------------------------

pub open spec fn offsets_of(chunks: Seq<ChunkData>) -> Seq<u64> {
    chunks.map_values(|c: ChunkData| c.offset)
}

/// The order in which a file's chunks are checked on disk: by offset,
/// equal offsets in manifest order.
pub fn validation_order(chunks: &Vec<ChunkData>) -> (r: Vec<usize>)
    ensures
        r@.len() == chunks@.len(),
        in_num_order(offsets_of(chunks@), r@),
{
    let mut offsets: Vec<u64> = Vec::new();
    let mut i: usize = 0;
    while i < chunks.len()
        invariant
            i <= chunks@.len(),
            offsets@ == offsets_of(chunks@).subrange(0, i as int),
        decreases chunks@.len() - i,
    {
        offsets.push(chunks[i].offset);
        i = i + 1;
        assert(offsets@ =~= offsets_of(chunks@).subrange(0, i as int));
    }
    assert(offsets@ =~= offsets_of(chunks@));
    sort_by_number(&offsets)
}

/// A chunk whose on-disk bytes do not have its Adler-32 must be fetched.
pub fn chunk_needed(chunk: &ChunkData, on_disk: &[u8]) -> (r: bool)
    ensures
        r == (adler32_spec(on_disk@) != chunk.checksum),
{
    adler32(on_disk) != chunk.checksum
}

/// Every chunk of a non-empty file must be fetched when the file on disk
/// is missing or has another length.
pub fn must_fetch_all(size: u64, on_disk_len: Option<u64>) -> (r: bool)
    ensures
        r == (size > 0 && on_disk_len != Some(size)),
{
    size > 0 && match on_disk_len {
        Some(l) => l != size,
        None => true,
    }
}

pub open spec fn needed_total(chunks: Seq<ChunkData>) -> int
    decreases chunks.len(),
{
    if chunks.len() == 0 {
        0
    } else {
        needed_total(chunks.drop_last()) + chunks.last().uncompressed_len
    }
}

/// The bytes of a file already in place: its size less the chunks still
/// needed (zero when those exceed the size).
pub fn existing_bytes(size: u64, needed: &Vec<ChunkData>) -> (r: u64)
    ensures
        r == (if needed_total(needed@) > size {
            0
        } else {
            size - needed_total(needed@)
        }),
{
    let mut sum: u64 = 0;
    let mut i: usize = 0;
    while i < needed.len()
        invariant
            i <= needed@.len(),
            sum == needed_total(needed@.subrange(0, i as int)),
            sum <= size,
        decreases needed@.len() - i,
    {
        assert(needed@.subrange(0, i + 1).drop_last() =~= needed@.subrange(0, i as int));
        let add = needed[i].uncompressed_len as u64;
        if add > size - sum {
            proof {
                lemma_needed_total_grows(needed@, i as int + 1);
            }
            return 0;
        }
        sum = sum + add;
        i = i + 1;
    }
    assert(needed@.subrange(0, needed@.len() as int) =~= needed@);
    size - sum
}

proof fn lemma_needed_total_grows(chunks: Seq<ChunkData>, j: int)
    requires
        0 <= j <= chunks.len(),
    ensures
        needed_total(chunks.subrange(0, j)) <= needed_total(chunks),
    decreases chunks.len() - j,
{
    if j < chunks.len() {
        lemma_needed_total_grows(chunks, j + 1);
        assert(chunks.subrange(0, j + 1).drop_last() =~= chunks.subrange(0, j));
    } else {
        assert(chunks.subrange(0, j) =~= chunks);
    }
}

/// The chunk jobs of the needed chunks, file by file: `(file, chunk)`
/// for every chunk of every file, in order.
pub open spec fn jobs_of(counts: Seq<usize>) -> Seq<(usize, usize)>
    decreases counts.len(),
{
    if counts.len() == 0 {
        seq![]
    } else {
        jobs_of(counts.drop_last()) + Seq::new(
            counts.last() as nat,
            |k: int| ((counts.len() - 1) as usize, k as usize),
        )
    }
}

pub fn chunk_jobs(counts: &Vec<usize>) -> (r: Vec<(usize, usize)>)
    ensures
        r@ == jobs_of(counts@),
{
    let mut out: Vec<(usize, usize)> = Vec::new();
    let mut i: usize = 0;
    while i < counts.len()
        invariant
            i <= counts@.len(),
            out@ == jobs_of(counts@.subrange(0, i as int)),
        decreases counts@.len() - i,
    {
        assert(counts@.subrange(0, i + 1).drop_last() =~= counts@.subrange(0, i as int));
        let ghost base = out@;
        let mut k: usize = 0;
        while k < counts[i]
            invariant
                i < counts@.len(),
                k <= counts@[i as int],
                out@ == base + Seq::new(k as nat, |j: int| (i, j as usize)),
            decreases counts@[i as int] - k,
        {
            out.push((i, k));
            k = k + 1;
            assert(out@ =~= base + Seq::new(k as nat, |j: int| (i, j as usize)));
        }
        i = i + 1;
        assert(out@ =~= jobs_of(counts@.subrange(0, i as int)));
    }
    assert(counts@.subrange(0, counts@.len() as int) =~= counts@);
    out
}

/// Outstanding chunks per file while a depot downloads.
pub struct ChunkCounters {
    pub remaining: Vec<usize>,
}

impl ChunkCounters {
    pub fn new(counts: &Vec<usize>) -> (r: ChunkCounters)
        ensures
            r.remaining@ == counts@,
    {
        let mut remaining: Vec<usize> = Vec::new();
        let mut i: usize = 0;
        while i < counts.len()
            invariant
                i <= counts@.len(),
                remaining@ == counts@.subrange(0, i as int),
            decreases counts@.len() - i,
        {
            remaining.push(counts[i]);
            i = i + 1;
            assert(remaining@ =~= counts@.subrange(0, i as int));
        }
        assert(remaining@ =~= counts@);
        ChunkCounters { remaining }
    }

    /// Counts one more written chunk of a file; true when that was the
    /// file's last outstanding chunk.
    pub fn chunk_done(&mut self, file: usize) -> (last: bool)
        requires
            file < old(self).remaining@.len(),
        ensures
            last == (old(self).remaining@[file as int] == 1),
            final(self).remaining@ == old(self).remaining@.update(
                file as int,
                if old(self).remaining@[file as int] == 0 {
                    usize::MAX
                } else {
                    (old(self).remaining@[file as int] - 1) as usize
                },
            ),
    {
        let before = self.remaining[file];
        let after = if before == 0 {
            usize::MAX
        } else {
            before - 1
        };
        self.remaining.set(file, after);
        before == 1
    }
}

// ------------------------------------------------------------------
// Cached manifests
// ------------------------------------------------------------------

/// `<depot>_<manifest>.manifest`.
pub open spec fn cache_name_text(depot_id: u32, gid: u64) -> Seq<char> {
    decimal(depot_id as nat) + seq!['_'] + decimal(gid as nat) + ".manifest"@
}

pub fn manifest_cache_name(depot_id: u32, gid: u64) -> (r: String)
    ensures
        r@ == cache_name_text(depot_id, gid),
{
    let mut out = u64_decimal(depot_id as u64);
    out.push('_');
    let g = u64_decimal(gid);
    let t = str_chars(".manifest");
    let ghost a = out@;
    let mut i: usize = 0;
    while i < g.len()
        invariant
            i <= g@.len(),
            out@ == a + g@.subrange(0, i as int),
        decreases g@.len() - i,
    {
        out.push(g[i]);
        i = i + 1;
        assert(out@ =~= a + g@.subrange(0, i as int));
    }
    let ghost b = out@;
    let mut j: usize = 0;
    while j < t.len()
        invariant
            j <= t@.len(),
            out@ == b + t@.subrange(0, j as int),
        decreases t@.len() - j,
    {
        out.push(t[j]);
        j = j + 1;
        assert(out@ =~= b + t@.subrange(0, j as int));
    }
    assert(g@.subrange(0, g@.len() as int) =~= g@);
    assert(t@.subrange(0, t@.len() as int) =~= t@);
    assert(out@ =~= cache_name_text(depot_id, gid));
    string_from_chars(out.as_slice())
}

/// A cached manifest of a depot: `<depot>_...manifest`.
pub open spec fn is_cache_of(name: Seq<char>, depot_id: u32) -> bool {
    let prefix = decimal(depot_id as nat) + seq!['_'];
    let suffix = ".manifest"@;
    name.len() >= prefix.len() && name.subrange(0, prefix.len() as int) == prefix && name.len()
        >= suffix.len() && name.subrange(name.len() - suffix.len(), name.len() as int) == suffix
}

pub fn is_cached_manifest_of(name: &str, depot_id: u32) -> (r: bool)
    ensures
        r == is_cache_of(name@, depot_id),
{
    let n = str_chars(name);
    let mut prefix = u64_decimal(depot_id as u64);
    prefix.push('_');
    let suffix = str_chars(".manifest");
    assert(prefix@ =~= decimal(depot_id as nat) + seq!['_']);
    if n.len() < prefix.len() || n.len() < suffix.len() {
        return false;
    }
    let mut i: usize = 0;
    while i < prefix.len()
        invariant
            i <= prefix@.len(),
            prefix@.len() <= n@.len(),
            n@ == name@,
            prefix@ == decimal(depot_id as nat) + seq!['_'],
            forall|k: int| 0 <= k < i ==> n@[k] == prefix@[k],
        decreases prefix@.len() - i,
    {
        if n[i] != prefix[i] {
            assert(n@.subrange(0, prefix@.len() as int)[i as int] != prefix@[i as int]);
            return false;
        }
        i = i + 1;
    }
    assert(n@.subrange(0, prefix@.len() as int) =~= prefix@);
    let off = n.len() - suffix.len();
    let mut j: usize = 0;
    while j < suffix.len()
        invariant
            j <= suffix@.len(),
            off + suffix.len() == n.len(),
            n@ == name@,
            suffix@ == ".manifest"@,
            prefix@ == decimal(depot_id as nat) + seq!['_'],
            n@.subrange(0, prefix@.len() as int) == prefix@,
            prefix@.len() <= n@.len(),
            forall|k: int| 0 <= k < j ==> n@[off + k] == suffix@[k],
        decreases suffix@.len() - j,
    {
        assert(off + j < n@.len());
        if n[off + j] != suffix[j] {
            assert(n@.subrange(off as int, n@.len() as int)[j as int] != suffix@[j as int]);
            return false;
        }
        j = j + 1;
    }
    assert(n@.subrange(off as int, n@.len() as int) =~= suffix@);
    true
}

/// The sidecar written beside a cached manifest: the SHA-1 of its bytes.
pub fn manifest_sidecar(data: &[u8]) -> (r: Vec<u8>)
    ensures
        r@ == sha1_digest(data@),
{
    sha1(data)
}

/// A cached manifest is trusted as a diff base unless a sidecar exists that
/// does not hold the SHA-1 of its bytes.
pub fn cached_manifest_intact(data: &[u8], sidecar: Option<&[u8]>) -> (r: bool)
    ensures
        r == match sidecar {
            Some(s) => sha1_digest(data@) == s@,
            None => true,
        },
{
    match sidecar {
        Some(s) => {
            let d = sha1(data);
            bytes_eq(d.as_slice(), s)
        },
        None => true,
    }
}

} // verus!
