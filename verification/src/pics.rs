//! PICS (product info): the app and package info records, what the client
//! reads from their KeyValue trees, and how product-info replies become
//! records.

use vstd::prelude::*;

use crate::kv::{
    binary_kv_spec, child_named, kv_model, node_model, parse_binary_kv, parse_text_vdf,
    value_bool, value_number, vdf_spec, BinaryKv, KeyValue, KvError, KvModel, FloatSeq,
    floats_view, lossy_text,
};
use crate::msgs::copy_range;
use crate::text::{chars_eq, decimal, str_chars, string_chars, u64_decimal};

verus! {

/// Parsed product info for one app.
pub struct AppInfo {
    pub app_id: u32,
    pub change_number: u32,
    pub missing_token: bool,
    /// Root KeyValue whose children are the top-level sections
    /// ("common", "depots", "config", "extended", ...).
    pub kv: KeyValue,
    pub only_public: bool,
}

pub struct PackageInfo {
    pub package_id: u32,
    pub change_number: u32,
    pub missing_token: bool,
    pub kv: KeyValue,
}

/// The value of the child `key` of the section `section`.
pub open spec fn section_value(root: KvModel, section: Seq<char>, key: Seq<char>) -> Option<
    Seq<char>,
> {
    match child_named(root, section) {
        Some(s) => match child_named(s, key) {
            Some(v) => v.value,
            None => None,
        },
        None => None,
    }
}

/// One branch of the `depots/branches` section: name, build id (zero when
/// absent or not a number) and description.
pub open spec fn branch_entry(b: KvModel) -> (Seq<char>, int, Option<Seq<char>>) {
    (
        b.name,
        match child_named(b, "buildid"@) {
            Some(v) => match value_number(v, u64::MAX as int) {
                Some(n) => n,
                None => 0,
            },
            None => 0,
        },
        match child_named(b, "description"@) {
            Some(d) => d.value,
            None => None,
        },
    )
}

/// The branches listed under `depots/branches`, in order.
pub open spec fn branch_entries(root: KvModel) -> Seq<(Seq<char>, int, Option<Seq<char>>)> {
    match child_named(root, "depots"@) {
        Some(d) => match child_named(d, "branches"@) {
            Some(bs) => bs.children.map_values(|b: KvModel| branch_entry(b)),
            None => seq![],
        },
        None => seq![],
    }
}

fn optional_text(s: Option<&str>) -> (r: Option<String>)
    ensures
        match s {
            Some(t) => r matches Some(v) && v@ == t@,
            None => r is None,
        },
{
    match s {
        Some(t) => Some(crate::text::string_from_chars(str_chars(t).as_slice())),
        None => None,
    }
}

impl AppInfo {
    pub fn section(&self, name: &str) -> (r: Option<&KeyValue>)
        ensures
            r matches Some(c) ==> child_named(self.kv@, name@) == Some(c@),
            r is None ==> child_named(self.kv@, name@) is None,
    {
        self.kv.get(name)
    }

    /// `common/name`.
    pub fn name(&self) -> (r: Option<String>)
        ensures
            match section_value(self.kv@, "common"@, "name"@) {
                Some(v) => r matches Some(s) && s@ == v,
                None => r is None,
            },
    {
        match self.section("common") {
            Some(c) => match c.get("name") {
                Some(n) => optional_text(n.value_str()),
                None => None,
            },
            None => None,
        }
    }

    /// `common/FreeToDownload` read as a flag; false when absent.
    pub fn free_to_download(&self) -> (r: bool)
        ensures
            r == match child_named(self.kv@, "common"@) {
                Some(c) => match child_named(c, "FreeToDownload"@) {
                    Some(v) => value_bool(v),
                    None => false,
                },
                None => false,
            },
    {
        match self.section("common") {
            Some(c) => match c.get("FreeToDownload") {
                Some(v) => v.as_bool(),
                None => false,
            },
            None => false,
        }
    }

    /// `common/oslist`.
    pub fn os_list(&self) -> (r: Option<String>)
        ensures
            match section_value(self.kv@, "common"@, "oslist"@) {
                Some(v) => r matches Some(s) && s@ == v,
                None => r is None,
            },
    {
        match self.section("common") {
            Some(c) => match c.get("oslist") {
                Some(n) => optional_text(n.value_str()),
                None => None,
            },
            None => None,
        }
    }

    /// Branch list: name, build id and description, in the order listed.
    pub fn branches(&self) -> (r: Vec<(String, u64, Option<String>)>)
        ensures
            r@.len() == branch_entries(self.kv@).len(),
            forall|i: int|
                0 <= i < r@.len() ==> {
                    let e = #[trigger] branch_entries(self.kv@)[i];
                    &&& r@[i].0@ == e.0
                    &&& r@[i].1 == e.1
                    &&& match e.2 {
                        Some(d) => r@[i].2 matches Some(s) && s@ == d,
                        None => r@[i].2 is None,
                    }
                },
    {
        let mut out: Vec<(String, u64, Option<String>)> = Vec::new();
        let depots = match self.section("depots") {
            Some(d) => d,
            None => {
                return out;
            },
        };
        let branches = match depots.get("branches") {
            Some(b) => b,
            None => {
                return out;
            },
        };
        let ghost es = branch_entries(self.kv@);
        let mut i: usize = 0;
        while i < branches.children.len()
            invariant
                i <= branches.children@.len(),
                branches@.children.len() == branches.children@.len(),
                es == branches@.children.map_values(|b: KvModel| branch_entry(b)),
                forall|k: int| 0 <= k < branches.children@.len() ==> #[trigger] branches@.children[k] == branches.children@[k]@,
                out@.len() == i,
                forall|k: int|
                    0 <= k < i ==> {
                        let e = #[trigger] es[k];
                        &&& out@[k].0@ == e.0
                        &&& out@[k].1 == e.1
                        &&& match e.2 {
                            Some(d) => out@[k].2 matches Some(s) && s@ == d,
                            None => out@[k].2 is None,
                        }
                    },
            decreases branches.children@.len() - i,
        {
            let b = &branches.children[i];
            assert(branches@.children[i as int] == b@);
            let build = match b.get("buildid") {
                Some(v) => match v.as_u64() {
                    Some(n) => n,
                    None => 0,
                },
                None => 0,
            };
            let desc = match b.get("description") {
                Some(d) => optional_text(d.value_str()),
                None => None,
            };
            out.push((b.name.clone(), build, desc));
            i = i + 1;
        }
        out
    }
}

/// The list `list` names `needle` as the value or the name of a child.
pub open spec fn lists_id(list: KvModel, needle: Seq<char>) -> bool {
    exists|i: int|
        0 <= i < list.children.len() && (#[trigger] list.children[i].value == Some(needle)
            || list.children[i].name == needle)
}

/// A package grants access to an app or depot id listed in its `appids`
/// or `depotids` section.
pub open spec fn grants_access(pkg: KvModel, id: u32) -> bool {
    let needle = decimal(id as nat);
    (match child_named(pkg, "appids"@) {
        Some(l) => lists_id(l, needle),
        None => false,
    }) || (match child_named(pkg, "depotids"@) {
        Some(l) => lists_id(l, needle),
        None => false,
    })
}

fn list_has(list: &KeyValue, needle: &Vec<char>) -> (r: bool)
    ensures
        r == lists_id(list@, needle@),
{
    let mut i: usize = 0;
    while i < list.children.len()
        invariant
            i <= list.children@.len(),
            list@.children.len() == list.children@.len(),
            forall|k: int| 0 <= k < list.children@.len() ==> #[trigger] list@.children[k] == list.children@[k]@,
            forall|k: int|
                0 <= k < i ==> !(list@.children[k].value == Some(needle@) || list@.children[k].name
                    == needle@),
        decreases list.children@.len() - i,
    {
        let c = &list.children[i];
        assert(list@.children[i as int] == c@);
        let by_value = match c.value_str() {
            Some(v) => chars_eq(str_chars(v).as_slice(), needle.as_slice()),
            None => false,
        };
        let by_name = chars_eq(string_chars(&c.name).as_slice(), needle.as_slice());
        if by_value || by_name {
            return true;
        }
        i = i + 1;
    }
    false
}

/// Checks whether a package grants access to the given app or depot.
pub fn package_grants_access(pkg: &PackageInfo, app_or_depot_id: u32) -> (r: bool)
    ensures
        r == grants_access(pkg.kv@, app_or_depot_id),
{
    let needle = u64_decimal(app_or_depot_id as u64);
    let in_apps = match pkg.kv.get("appids") {
        Some(l) => list_has(l, &needle),
        None => false,
    };
    if in_apps {
        return true;
    }
    match pkg.kv.get("depotids") {
        Some(l) => list_has(l, &needle),
        None => false,
    }
}

/// The message of the error for an app whose info cannot be had.
pub open spec fn missing_app_text(app_id: u32) -> Seq<char> {
    "无法获取 App "@ + decimal(app_id as nat) + " 的信息（不存在或当前账号无权访问）"@
}

/// The error message for an app that is unknown or not visible to the
/// account.
pub fn missing_app_err(app_id: u32) -> (r: String)
    ensures
        r@ == missing_app_text(app_id),
{
    let mut cs = str_chars("无法获取 App ");
    let digits = u64_decimal(app_id as u64);
    let tail = str_chars(" 的信息（不存在或当前账号无权访问）");
    let ghost a = cs@;
    let mut i: usize = 0;
    while i < digits.len()
        invariant
            i <= digits@.len(),
            cs@ == a + digits@.subrange(0, i as int),
        decreases digits@.len() - i,
    {
        cs.push(digits[i]);
        i = i + 1;
        assert(cs@ =~= a + digits@.subrange(0, i as int));
    }
    let ghost b = cs@;
    let mut j: usize = 0;
    while j < tail.len()
        invariant
            j <= tail@.len(),
            cs@ == b + tail@.subrange(0, j as int),
        decreases tail@.len() - j,
    {
        cs.push(tail[j]);
        j = j + 1;
        assert(cs@ =~= b + tail@.subrange(0, j as int));
    }
    assert(digits@.subrange(0, digits@.len() as int) =~= digits@);
    assert(tail@.subrange(0, tail@.len() as int) =~= tail@);
    assert(cs@ =~= missing_app_text(app_id));
    crate::text::string_from_chars(cs.as_slice())
}

// ------------------------------------------------------------------
// Product-info replies
// ------------------------------------------------------------------

/// An app entry of a `CMsgClientPICSProductInfoResponse`.
#[derive(Debug, Clone, PartialEq, Eq)]
pub struct AppReply {
    pub appid: Option<u32>,
    pub change_number: Option<u32>,
    pub missing_token: Option<bool>,
    pub buffer: Option<Vec<u8>>,
    pub only_public: Option<bool>,
}

/// A package entry of a `CMsgClientPICSProductInfoResponse`.
#[derive(Debug, Clone, PartialEq, Eq)]
pub struct PackageReply {
    pub packageid: Option<u32>,
    pub change_number: Option<u32>,
    pub missing_token: Option<bool>,
    pub buffer: Option<Vec<u8>>,
}

pub open spec fn bytes_view(o: Option<Vec<u8>>) -> Option<Seq<u8>> {
    match o {
        Some(b) => Some(b@),
        None => None,
    }
}

/// A tree whose root has exactly one child (named after the app or
/// package) stands for that child.
pub open spec fn unwrap_single(m: KvModel) -> KvModel {
    if m.children.len() == 1 {
        m.children[0]
    } else {
        m
    }
}

/// Replaces a tree whose root has exactly one child by that child.
pub fn unwrap_single_child(kv: KeyValue) -> (r: KeyValue)
    ensures
        r@ == unwrap_single(kv@),
{
    let mut kv = kv;
    if kv.children.len() == 1 {
        let ghost m = kv@;
        assert(m.children[0] == kv.children@[0]@);
        match kv.children.pop() {
            Some(c) => c,
            None => kv,
        }
    } else {
        kv
    }
}

/// The KeyValue tree of an app buffer: text VDF with its trailing NUL
/// dropped; an empty tree when there is no buffer of more than one byte.
pub open spec fn app_kv_spec(buf: Option<Seq<u8>>) -> Result<KvModel, KvError> {
    match buf {
        Some(b) => if b.len() > 1 {
            match vdf_spec(lossy_text(b.drop_last())) {
                Ok(m) => Ok(unwrap_single(m)),
                Err(e) => Err(e),
            }
        } else {
            Ok(node_model(seq![]))
        },
        None => Ok(node_model(seq![])),
    }
}

pub fn app_kv_from_buffer(buf: &Option<Vec<u8>>) -> (r: Result<KeyValue, KvError>)
    ensures
        match app_kv_spec(bytes_view(*buf)) {
            Ok(m) => r matches Ok(kv) && kv@ == m,
            Err(e) => r == Err::<KeyValue, KvError>(e),
        },
{
    match buf {
        Some(b) => if b.len() > 1 {
            let text = copy_range(b.as_slice(), 0, b.len() - 1);
            assert(text@ =~= b@.drop_last());
            match parse_text_vdf(text.as_slice()) {
                Ok(kv) => Ok(unwrap_single_child(kv)),
                Err(e) => Err(e),
            }
        } else {
            proof {
                lemma_empty_text();
            }
            Ok(KeyValue::new(""))
        },
        None => {
            proof {
                lemma_empty_text();
            }
            Ok(KeyValue::new(""))
        },
    }
}

proof fn lemma_empty_text()
    ensures
        ""@ == Seq::<char>::empty(),
{
    reveal_strlit("");
    assert(""@ =~= Seq::<char>::empty());
}

/// What an app's product info holds.
pub struct AppInfoView {
    pub app_id: u32,
    pub change_number: u32,
    pub missing_token: bool,
    pub kv: KvModel,
    pub only_public: bool,
}

pub open spec fn app_info_view(a: AppInfo) -> AppInfoView {
    AppInfoView {
        app_id: a.app_id,
        change_number: a.change_number,
        missing_token: a.missing_token,
        kv: a.kv@,
        only_public: a.only_public,
    }
}

/// The info for `app_id` in a run of app replies: the last entry for the
/// app wins; a buffer that does not parse ends the run with its error.
pub open spec fn app_info_from(app_id: u32, replies: Seq<AppReply>) -> Result<
    Option<AppInfoView>,
    KvError,
>
    decreases replies.len(),
{
    if replies.len() == 0 {
        Ok(None)
    } else {
        match app_info_from(app_id, replies.drop_last()) {
            Err(e) => Err(e),
            Ok(prev) => {
                let a = replies.last();
                if a.appid != Some(app_id) {
                    Ok(prev)
                } else {
                    match app_kv_spec(bytes_view(a.buffer)) {
                        Err(e) => Err(e),
                        Ok(m) => Ok(
                            Some(
                                AppInfoView {
                                    app_id,
                                    change_number: a.change_number.unwrap_or(0),
                                    missing_token: a.missing_token.unwrap_or(false),
                                    kv: m,
                                    only_public: a.only_public.unwrap_or(false),
                                },
                            ),
                        ),
                    }
                }
            },
        }
    }
}

/// The app info carried by the app entries of a product-info reply.
pub fn app_info_from_replies(app_id: u32, replies: &Vec<AppReply>) -> (r: Result<
    Option<AppInfo>,
    KvError,
>)
    ensures
        match app_info_from(app_id, replies@) {
            Ok(Some(v)) => r matches Ok(Some(a)) && app_info_view(a) == v,
            Ok(None) => r matches Ok(None),
            Err(e) => r == Err::<Option<AppInfo>, KvError>(e),
        },
{
    let mut result: Option<AppInfo> = None;
    let mut i: usize = 0;
    while i < replies.len()
        invariant
            i <= replies@.len(),
            match app_info_from(app_id, replies@.subrange(0, i as int)) {
                Ok(Some(v)) => result matches Some(a) && app_info_view(a) == v,
                Ok(None) => result is None,
                Err(_) => false,
            },
        decreases replies@.len() - i,
    {
        assert(replies@.subrange(0, i + 1).drop_last() =~= replies@.subrange(0, i as int));
        let a = &replies[i];
        if a.appid == Some(app_id) {
            match app_kv_from_buffer(&a.buffer) {
                Err(e) => {
                    proof {
                        lemma_app_info_error(app_id, replies@, i as int + 1, e);
                        assert(replies@.subrange(0, replies@.len() as int) =~= replies@);
                    }
                    return Err(e);
                },
                Ok(kv) => {
                    result = Some(
                        AppInfo {
                            app_id,
                            change_number: a.change_number.unwrap_or(0),
                            missing_token: a.missing_token.unwrap_or(false),
                            kv,
                            only_public: a.only_public.unwrap_or(false),
                        },
                    );
                },
            }
        }
        i = i + 1;
    }
    assert(replies@.subrange(0, replies@.len() as int) =~= replies@);
    Ok(result)
}

proof fn lemma_app_info_error(app_id: u32, replies: Seq<AppReply>, j: int, e: KvError)
    requires
        0 < j <= replies.len(),
        app_info_from(app_id, replies.subrange(0, j)) == Err::<Option<AppInfoView>, KvError>(e),
    ensures
        app_info_from(app_id, replies.subrange(0, replies.len() as int)) == Err::<
            Option<AppInfoView>,
            KvError,
        >(e),
    decreases replies.len() - j,
{
    if j < replies.len() {
        assert(replies.subrange(0, j + 1).drop_last() =~= replies.subrange(0, j));
        lemma_app_info_error(app_id, replies, j + 1, e);
    }
}

/// The binary KeyValue payload of a package buffer: a `u32` version, then
/// binary KV; a payload that does not parse reads as an empty tree. `None`
/// when there is no buffer of more than four bytes.
pub open spec fn package_payload_spec(buf: Option<Seq<u8>>) -> Option<(KvModel, FloatSeq)> {
    match buf {
        Some(b) => if b.len() > 4 {
            match binary_kv_spec(b.subrange(4, b.len() as int)) {
                Ok(p) => Some(p),
                Err(_) => Some((node_model(seq![]), seq![])),
            }
        } else {
            None
        },
        None => None,
    }
}

pub fn package_kv_payload(buf: &Option<Vec<u8>>) -> (r: Option<BinaryKv>)
    ensures
        match package_payload_spec(bytes_view(*buf)) {
            Some((m, fl)) => r matches Some(b) && b.root@ == m && floats_view(b.floats@) == fl,
            None => r is None,
        },
{
    match buf {
        Some(b) => if b.len() > 4 {
            let body = copy_range(b.as_slice(), 4, b.len());
            match parse_binary_kv(body.as_slice()) {
                Ok(p) => Some(p),
                Err(_) => {
                    let empty = BinaryKv { root: KeyValue::default(), floats: Vec::new() };
                    assert(floats_view(empty.floats@) =~= seq![]);
                    Some(empty)
                },
            }
        } else {
            None
        },
        None => None,
    }
}

/// The KeyValue root of a package record: an empty tree without a payload,
/// else the payload with a lone top-level node unwrapped.
pub fn package_kv_root(payload: Option<KeyValue>) -> (r: KeyValue)
    ensures
        r@ == match payload {
            Some(kv) => unwrap_single(kv@),
            None => node_model(seq![]),
        },
{
    match payload {
        Some(kv) => unwrap_single_child(kv),
        None => {
            proof {
                lemma_empty_text();
            }
            KeyValue::new("")
        },
    }
}

impl PackageInfo {
    /// The record for a package entry of a reply, with its KeyValue root.
    pub fn from_reply(reply: &PackageReply, kv: KeyValue) -> (r: PackageInfo)
        ensures
            r.package_id == reply.packageid.unwrap_or(0),
            r.change_number == reply.change_number.unwrap_or(0),
            r.missing_token == reply.missing_token.unwrap_or(false),
            r.kv@ == kv@,
    {
        PackageInfo {
            package_id: reply.packageid.unwrap_or(0),
            change_number: reply.change_number.unwrap_or(0),
            missing_token: reply.missing_token.unwrap_or(false),
            kv,
        }
    }
}

// ------------------------------------------------------------------
// Requests
// ------------------------------------------------------------------

/// The access token sent with a request: none for a zero token.
pub fn access_token(token: u64) -> (r: Option<u64>)
    ensures
        r == (if token == 0 {
            None
        } else {
            Some(token)
        }),
{
    if token == 0 {
        None
    } else {
        Some(token)
    }
}

/// `v` is strictly increasing.
pub open spec fn strictly_increasing(v: Seq<u32>) -> bool {
    forall|i: int, j: int| 0 <= i < j < v.len() ==> v[i] < v[j]
}

proof fn lemma_insert_set(s: Seq<u32>, p: int, x: u32)
    requires
        0 <= p <= s.len(),
    ensures
        s.insert(p, x).to_set() == s.to_set().insert(x),
{
    let t = s.insert(p, x);
    assert forall|y: u32| t.to_set().contains(y) implies s.to_set().insert(x).contains(y) by {
        assert(t.contains(y));
        let k = choose|k: int| 0 <= k < t.len() && t[k] == y;
        if k < p {
            assert(s[k] == y);
            assert(s.contains(y));
        } else if k > p {
            assert(s[k - 1] == y);
            assert(s.contains(y));
        }
    }
    assert forall|y: u32| s.to_set().insert(x).contains(y) implies t.to_set().contains(y) by {
        if y == x {
            assert(t[p] == x);
            assert(t.contains(y));
        } else {
            assert(s.contains(y));
            let k = choose|k: int| 0 <= k < s.len() && s[k] == y;
            if k < p {
                assert(t[k] == y);
            } else {
                assert(t[k + 1] == y);
            }
            assert(t.contains(y));
        }
    }
    assert(t.to_set() =~= s.to_set().insert(x));
}

fn insert_sorted(v: Vec<u32>, x: u32) -> (r: Vec<u32>)
    requires
        strictly_increasing(v@),
    ensures
        strictly_increasing(r@),
        r@.to_set() == v@.to_set().insert(x),
{
    let ghost orig = v@;
    let mut v = v;
    let mut p: usize = 0;
    while p < v.len() && v[p] < x
        invariant
            p <= v@.len(),
            v@ == orig,
            forall|k: int| 0 <= k < p ==> v@[k] < x,
        decreases v@.len() - p,
    {
        p = p + 1;
    }
    if p < v.len() && v[p] == x {
        assert(v@[p as int] == x);
        assert(v@.to_set() =~= orig.to_set().insert(x));
        return v;
    }
    let ghost before = v@;
    v.insert(p, x);
    proof {
        lemma_insert_set(before, p as int, x);
    }
    assert(v@.to_set() =~= orig.to_set().insert(x));
    v
}

/// The ids among the first `n` of `requested` whose entry in `cached` is
/// false.
pub open spec fn uncached_ids(requested: Seq<u32>, cached: Seq<bool>, n: int) -> Set<u32>
    decreases n,
{
    if n <= 0 {
        Set::empty()
    } else if !cached[n - 1] {
        uncached_ids(requested, cached, n - 1).insert(requested[n - 1])
    } else {
        uncached_ids(requested, cached, n - 1)
    }
}

/// The ids of `requested` whose entry in `cached` is false, in increasing
/// order, each once.
pub fn missing_package_ids(requested: &[u32], cached: &[bool]) -> (r: Vec<u32>)
    requires
        requested@.len() == cached@.len(),
    ensures
        strictly_increasing(r@),
        r@.to_set() == uncached_ids(requested@, cached@, requested@.len() as int),
{
    let mut out: Vec<u32> = Vec::new();
    let mut i: usize = 0;
    assert(out@.to_set() =~= Set::<u32>::empty());
    while i < requested.len()
        invariant
            i <= requested@.len(),
            requested@.len() == cached@.len(),
            strictly_increasing(out@),
            out@.to_set() == uncached_ids(requested@, cached@, i as int),
        decreases requested@.len() - i,
    {
        if !cached[i] {
            out = insert_sorted(out, requested[i]);
        }
        i = i + 1;
    }
    out
}

/// Where claiming a FreeOnDemand license stands.
#[derive(Debug, Clone, Copy, PartialEq, Eq)]
pub enum LicenseStep {
    /// Nothing to claim, or the claim granted nothing: keep what is known.
    Keep,
    /// Ask the CM for a free license for the app.
    Claim,
    /// The claim granted the app or a package: the app's info is fetched
    /// again with a fresh token (for an access check: access is granted).
    Granted,
}

/// The free-license rule. Before any claim (`grant` is `None`), a license
/// is claimed exactly when the session is `eligible`: app info lacks its
/// token and the session is logged in, or, for an access check, the app is
/// free to download. After a claim, it counts as granted exactly when the
/// reply grants the app itself or any package.
pub fn free_license_step(eligible: bool, grant: Option<&(Vec<u32>, Vec<u32>)>, app_id: u32) -> (r: LicenseStep)
    ensures
        match grant {
            None => r == (if eligible { LicenseStep::Claim } else { LicenseStep::Keep }),
            Some(g) => r == (if g.0@.contains(app_id) || g.1@.len() > 0 {
                LicenseStep::Granted
            } else {
                LicenseStep::Keep
            }),
        },
{
    match grant {
        None => if eligible {
            LicenseStep::Claim
        } else {
            LicenseStep::Keep
        },
        Some(g) => if license_granted(g.0.as_slice(), g.1.as_slice(), app_id) {
            LicenseStep::Granted
        } else {
            LicenseStep::Keep
        },
    }
}

/// Whether a free-license reply granted the app itself or any package.
pub fn license_granted(granted_apps: &[u32], granted_packages: &[u32], app_id: u32) -> (r: bool)
    ensures
        r == (granted_apps@.contains(app_id) || granted_packages@.len() > 0),
{
    if granted_packages.len() > 0 {
        return true;
    }
    let mut i: usize = 0;
    while i < granted_apps.len()
        invariant
            i <= granted_apps@.len(),
            forall|k: int| 0 <= k < i ==> granted_apps@[k] != app_id,
        decreases granted_apps@.len() - i,
    {
        if granted_apps[i] == app_id {
            assert(granted_apps@[i as int] == app_id);
            return true;
        }
        i = i + 1;
    }
    false
}

/// A batch of product-info replies is complete when some reply is not
/// marked as pending.
pub fn batch_complete(pending: &[bool]) -> (r: bool)
    ensures
        r == exists|i: int| 0 <= i < pending@.len() && !pending@[i],
{
    let mut i: usize = 0;
    while i < pending.len()
        invariant
            i <= pending@.len(),
            forall|k: int| 0 <= k < i ==> pending@[k],
        decreases pending@.len() - i,
    {
        if !pending[i] {
            return true;
        }
        i = i + 1;
    }
    false
}

/// The `(id, token)` pairs of an access-token reply whose id and token
/// are both present, in order.
pub open spec fn present_pairs(entries: Seq<(Option<u32>, Option<u64>)>) -> Seq<(u32, u64)>
    decreases entries.len(),
{
    if entries.len() == 0 {
        seq![]
    } else {
        let rest = present_pairs(entries.drop_last());
        match entries.last() {
            (Some(id), Some(tok)) => rest.push((id, tok)),
            _ => rest,
        }
    }
}

pub fn granted_tokens(entries: &Vec<(Option<u32>, Option<u64>)>) -> (r: Vec<(u32, u64)>)
    ensures
        r@ == present_pairs(entries@),
{
    let mut out: Vec<(u32, u64)> = Vec::new();
    let mut i: usize = 0;
    while i < entries.len()
        invariant
            i <= entries@.len(),
            out@ == present_pairs(entries@.subrange(0, i as int)),
        decreases entries@.len() - i,
    {
        assert(entries@.subrange(0, i + 1).drop_last() =~= entries@.subrange(0, i as int));
        match entries[i] {
            (Some(id), Some(tok)) => {
                out.push((id, tok));
            },
            _ => {},
        }
        i = i + 1;
    }
    assert(entries@.subrange(0, entries@.len() as int) =~= entries@);
    out
}

// ------------------------------------------------------------------
// The package cache
// ------------------------------------------------------------------

proof fn lemma_push_contains(s: Seq<u32>, a: u32)
    ensures
        forall|x: u32| #[trigger] s.push(a).contains(x) <==> (s.contains(x) || x == a),
{
    assert forall|x: u32| #[trigger] s.push(a).contains(x) <==> (s.contains(x) || x == a) by {
        if s.contains(x) {
            let k = choose|k: int| 0 <= k < s.len() && s[k] == x;
            assert(s.push(a)[k] == x);
        }
        if x == a {
            assert(s.push(a)[s.len() as int] == a);
        }
        if s.push(a).contains(x) {
            let k = choose|k: int| 0 <= k < s.push(a).len() && s.push(a)[k] == x;
            if k < s.len() {
                assert(s[k] == x);
            }
        }
    }
}

fn contains_u32(v: &Vec<u32>, x: u32) -> (r: bool)
    ensures
        r == v@.contains(x),
{
    let mut j: usize = 0;
    while j < v.len()
        invariant
            j <= v@.len(),
            forall|k: int| 0 <= k < j ==> v@[k] != x,
        decreases v@.len() - j,
    {
        if v[j] == x {
            assert(v@[j as int] == x);
            return true;
        }
        j = j + 1;
    }
    false
}

pub open spec fn distinct_ids(v: Seq<u32>) -> bool {
    forall|k: int, l: int| 0 <= k < l < v.len() ==> v[k] != v[l]
}

/// Appends the ids of `src` not yet in `ids`, each once.
fn add_new_ids(ids: &mut Vec<u32>, src: &Vec<u32>)
    requires
        distinct_ids(old(ids)@),
    ensures
        distinct_ids(final(ids)@),
        forall|x: u32| #[trigger] final(ids)@.contains(x) <==> (old(ids)@.contains(x) || src@.contains(x)),
{
    let ghost before = ids@;
    let mut i: usize = 0;
    while i < src.len()
        invariant
            i <= src@.len(),
            distinct_ids(ids@),
            forall|x: u32| #[trigger] ids@.contains(x) <==> (before.contains(x) || src@.subrange(0, i as int).contains(x)),
        decreases src@.len() - i,
    {
        let id = src[i];
        let seen = contains_u32(ids, id);
        let ghost old_ids = ids@;
        if !seen {
            ids.push(id);
            proof {
                assert forall|k: int, l: int| 0 <= k < l < ids@.len() implies ids@[k] != ids@[l] by {
                    if l == old_ids.len() {
                        assert(old_ids[k] == ids@[k]);
                    }
                }
            }
        }
        proof {
            assert(src@.subrange(0, i + 1) =~= src@.subrange(0, i as int).push(id));
            lemma_push_contains(src@.subrange(0, i as int), id);
            if !seen {
                lemma_push_contains(old_ids, id);
                assert(ids@ == old_ids.push(id));
            }
        }
        i = i + 1;
    }
    assert(src@.subrange(0, src@.len() as int) =~= src@);
}

/// The reply packets as (unknown ids, replied ids) pairs.
pub open spec fn packets_view(ps: Seq<(Vec<u32>, Vec<u32>)>) -> Seq<(Seq<u32>, Seq<u32>)> {
    ps.map_values(|p: (Vec<u32>, Vec<u32>)| (p.0@, p.1@))
}

/// The writes a batch of reply packets makes to the package cache, in
/// order: each packet first marks the packages it calls unknown as absent,
/// then stores the packages it carries, each by its place (packet, index).
pub open spec fn packet_writes(ps: Seq<(Seq<u32>, Seq<u32>)>) -> Seq<(u32, Option<(int, int)>)>
    decreases ps.len(),
{
    if ps.len() == 0 {
        seq![]
    } else {
        let p = ps.last();
        let at = ps.len() - 1;
        packet_writes(ps.drop_last()) + p.0.map_values(|id: u32| (id, None::<(int, int)>)) + p.1.map(
            |i: int, id: u32| (id, Some((at, i))),
        )
    }
}

/// The last write for a package, if any.
pub open spec fn last_write(ws: Seq<(u32, Option<(int, int)>)>, id: u32) -> Option<Option<(int, int)>>
    decreases ws.len(),
{
    if ws.len() == 0 {
        None
    } else if ws.last().0 == id {
        Some(ws.last().1)
    } else {
        last_write(ws.drop_last(), id)
    }
}

pub open spec fn slot_view(o: Option<(usize, usize)>) -> Option<(int, int)> {
    match o {
        Some((a, b)) => Some((a as int, b as int)),
        None => None,
    }
}

pub open spec fn writes_view(ws: Seq<(u32, Option<(usize, usize)>)>) -> Seq<(u32, Option<(int, int)>)> {
    ws.map_values(|w: (u32, Option<(usize, usize)>)| (w.0, slot_view(w.1)))
}

/// `r` holds one entry per package that is requested or written to, each
/// with what the last write gave it (absent when none stored a reply).
pub open spec fn cache_writes(
    r: Seq<(u32, Option<(usize, usize)>)>,
    requested: Seq<u32>,
    ws: Seq<(u32, Option<(int, int)>)>,
) -> bool {
    &&& forall|k: int, l: int| 0 <= k < l < r.len() ==> (#[trigger] r[k]).0 != (#[trigger] r[l]).0
    &&& forall|k: int|
        0 <= k < r.len() ==> slot_view((#[trigger] r[k]).1) == match last_write(ws, r[k].0) {
            Some(w) => w,
            None => None,
        }
    &&& forall|id: u32|
        (exists|k: int| 0 <= k < r.len() && (#[trigger] r[k]).0 == id) <==> (requested.contains(id)
            || ws.map_values(|w: (u32, Option<(int, int)>)| w.0).contains(id))
}

fn last_write_of(ws: &Vec<(u32, Option<(usize, usize)>)>, id: u32) -> (r: Option<(usize, usize)>)
    ensures
        slot_view(r) == match last_write(writes_view(ws@), id) {
            Some(w) => w,
            None => None,
        },
{
    let ghost wv = writes_view(ws@);
    let mut i: usize = ws.len();
    assert(wv.subrange(0, i as int) =~= wv);
    while i > 0
        invariant
            i <= ws@.len(),
            wv == writes_view(ws@),
            last_write(wv, id) == last_write(wv.subrange(0, i as int), id),
        decreases i,
    {
        assert(wv.subrange(0, i as int).drop_last() =~= wv.subrange(0, i - 1));
        if ws[i - 1].0 == id {
            return ws[i - 1].1;
        }
        i = i - 1;
    }
    None
}

/// The entries a batch of package replies writes into the cache, one per
/// package: every requested package and every package a packet calls
/// unknown or carries. Packets count in order, the last write winning: a
/// package maps to its last stored reply, by (packet, index), unless a
/// later packet calls it unknown; the others are cached as absent.
pub fn package_cache_writes(requested: &Vec<u32>, packets: &Vec<(Vec<u32>, Vec<u32>)>) -> (r: Vec<
    (u32, Option<(usize, usize)>),
>)
    ensures
        cache_writes(r@, requested@, packet_writes(packets_view(packets@))),
{
    let ghost pv = packets_view(packets@);
    let mut ws: Vec<(u32, Option<(usize, usize)>)> = Vec::new();
    let mut p: usize = 0;
    assert(pv.take(0) =~= seq![]);
    while p < packets.len()
        invariant
            p <= packets@.len(),
            pv == packets_view(packets@),
            writes_view(ws@) == packet_writes(pv.take(p as int)),
        decreases packets@.len() - p,
    {
        let ghost before = writes_view(ws@);
        let unknown = &packets[p].0;
        let replied = &packets[p].1;
        assert(pv[p as int] == (unknown@, replied@));
        let mut i: usize = 0;
        while i < unknown.len()
            invariant
                i <= unknown@.len(),
                writes_view(ws@) == before + unknown@.take(i as int).map_values(
                    |id: u32| (id, None::<(int, int)>),
                ),
            decreases unknown@.len() - i,
        {
            let ghost w0 = ws@;
            let id = unknown[i];
            ws.push((id, None));
            assert(writes_view(ws@) =~= writes_view(w0).push((id, None::<(int, int)>)));
            assert(unknown@.take(i + 1).map_values(|id: u32| (id, None::<(int, int)>)) =~= unknown@.take(
                i as int,
            ).map_values(|id: u32| (id, None::<(int, int)>)).push((id, None::<(int, int)>)));
            i = i + 1;
            assert(writes_view(ws@) =~= before + unknown@.take(i as int).map_values(
                |id: u32| (id, None::<(int, int)>),
            ));
        }
        assert(unknown@.take(unknown@.len() as int) =~= unknown@);
        let ghost mid = writes_view(ws@);
        let mut j: usize = 0;
        while j < replied.len()
            invariant
                j <= replied@.len(),
                writes_view(ws@) == mid + replied@.take(j as int).map(
                    |k: int, id: u32| (id, Some((p as int, k))),
                ),
            decreases replied@.len() - j,
        {
            let ghost w0 = ws@;
            let id = replied[j];
            ws.push((id, Some((p, j))));
            assert(writes_view(ws@) =~= writes_view(w0).push((id, Some((p as int, j as int)))));
            assert(replied@.take(j + 1).map(|k: int, id: u32| (id, Some((p as int, k)))) =~= replied@.take(
                j as int,
            ).map(|k: int, id: u32| (id, Some((p as int, k)))).push((id, Some((p as int, j as int)))));
            j = j + 1;
            assert(writes_view(ws@) =~= mid + replied@.take(j as int).map(
                |k: int, id: u32| (id, Some((p as int, k))),
            ));
        }
        assert(replied@.take(replied@.len() as int) =~= replied@);
        assert(pv.take(p + 1).drop_last() =~= pv.take(p as int));
        assert(pv.take(p + 1).last() == pv[p as int]);
        p = p + 1;
    }
    assert(pv.take(packets@.len() as int) =~= pv);
    let ghost wv = writes_view(ws@);
    let mut written: Vec<u32> = Vec::new();
    let mut k: usize = 0;
    while k < ws.len()
        invariant
            k <= ws@.len(),
            written@ == wv.map_values(|w: (u32, Option<(int, int)>)| w.0).take(k as int),
            wv == writes_view(ws@),
        decreases ws@.len() - k,
    {
        written.push(ws[k].0);
        k = k + 1;
        assert(written@ =~= wv.map_values(|w: (u32, Option<(int, int)>)| w.0).take(k as int));
    }
    assert(written@ =~= wv.map_values(|w: (u32, Option<(int, int)>)| w.0));
    let mut ids: Vec<u32> = Vec::new();
    let ghost ids0 = ids@;
    assert(forall|x: u32| !(#[trigger] ids0.contains(x)));
    add_new_ids(&mut ids, requested);
    add_new_ids(&mut ids, &written);
    let mut out: Vec<(u32, Option<(usize, usize)>)> = Vec::new();
    let mut i: usize = 0;
    while i < ids.len()
        invariant
            i <= ids@.len(),
            wv == writes_view(ws@),
            out@.len() == i,
            forall|k: int| 0 <= k < i ==> (#[trigger] out@[k]).0 == ids@[k],
            forall|k: int|
                0 <= k < i ==> slot_view((#[trigger] out@[k]).1) == match last_write(wv, out@[k].0) {
                    Some(w) => w,
                    None => None,
                },
        decreases ids@.len() - i,
    {
        let slot = last_write_of(&ws, ids[i]);
        out.push((ids[i], slot));
        i = i + 1;
    }
    assert forall|k: int, l: int| 0 <= k < l < out@.len() implies (#[trigger] out@[k]).0 != (
    #[trigger] out@[l]).0 by {
        assert(out@[k].0 == ids@[k] && out@[l].0 == ids@[l]);
    }
    assert forall|id: u32|
        (exists|k: int| 0 <= k < out@.len() && (#[trigger] out@[k]).0 == id) <==> (requested@.contains(id)
            || wv.map_values(|w: (u32, Option<(int, int)>)| w.0).contains(id)) by {
        assert(ids@.contains(id) <==> (requested@.contains(id) || written@.contains(id)));
        if ids@.contains(id) {
            let k = choose|k: int| 0 <= k < ids@.len() && ids@[k] == id;
            assert(out@[k].0 == id);
        }
        if exists|k: int| 0 <= k < out@.len() && (#[trigger] out@[k]).0 == id {
            let k = choose|k: int| 0 <= k < out@.len() && (#[trigger] out@[k]).0 == id;
            assert(ids@[k] == id);
        }
    }
    out
}

} // verus!
