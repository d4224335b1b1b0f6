use std::io::Write;

use base64::Engine;

use depotmanager::auth::guard_type;
use depotmanager::auth::{confirmations_from_reply, device_name, host_or_pc, non_empty, poll_result};
use depotmanager::commands::{
    app_detail, clamp_connections, default_branch, default_max_conn, download_request,
    StartDownloadArgs,
};
use depotmanager::connection::{
    cached_endpoints, cm_list_url, cm_socket_url, connect_candidates, fallback_cm_endpoints,
    multi_payload, packet_kind, route, service_call_emsg, split_multi, websocket_endpoints,
    ConnectionEvent, ConnectionState, LogonResponse, PacketKind, Route,
};
use depotmanager::engine::{
    branch_manifest_gid, candidate_depots, chunk_jobs, chunk_needed, compile_filters,
    depot_matches_filters, depot_owner, existing_bytes, filters_match, grants_app_or_depot,
    is_cached_manifest_of, manifest_cache_name, must_fetch_all, new_task_id, normalize_rel,
    plan_files, plan_manifest, removable, safe_components, total_size, unchanged_in,
    file_needs_work, depot_outcome, DepotOutcome, first_depot_step_of, owner_depot_step_of, record_depot_plan, DepotStep,
    DownloadRequest,
    validation_order, ChunkCounters, PathError, TaskState,
};
use depotmanager::history::{branch_list, branch_manifests, merged_history, parse_steamdb_history, ManifestVersion};
use depotmanager::kv::{parse_text_vdf, KeyValue};
use depotmanager::manifest::{ChunkData, DepotManifest, FileData};
use depotmanager::msgs::eresult;
use depotmanager::msgs::{make_header, JOBID_NONE};
use depotmanager::pics::{
    access_token, app_info_from_replies, batch_complete, free_license_step, LicenseStep, granted_tokens, license_granted,
    missing_app_err, missing_package_ids, package_cache_writes, package_grants_access, unwrap_single_child, AppInfo,
    AppReply, PackageInfo,
};
use depotmanager::runtime::{
    anonymous_name, auto_login_account, challenge_from_state, is_user_disconnect, merge_endpoints,
    reconnect_delay_secs, remember_endpoint, remember_login, steamid_from_token, task_log_line,
    LoginState,
};
use depotmanager::session::{heartbeat_delay, jwt_account_id, jwt_expiry, logon_outcome, LogonError};
use depotmanager::state::{default_os, SavedAccount, Settings};
use depotmanager::store::{
    applist_after_fetch, applist_cache_text, applist_entries, applist_fresh, applist_name,
    applist_search, capsule_image_url, parse_applist_cache,
    header_image_url, popular_results, store_results, store_search_url, StoreItem,
};

const APP_VDF: &[u8] = b"\"570\"\n{\n\
  \"common\" { \"name\" \"Dota 2\" \"oslist\" \"windows, macos,,linux\" \"FreeToDownload\" \"1\" }\n\
  \"depots\" {\n\
    \"573\" { \"config\" { \"oslist\" \"windows\" } \"manifests\" { \"public\" { \"gid\" \"111\" \"size\" \"1000\" } \"beta\" { \"gid\" \"0\" } } }\n\
    \"571\" { \"config\" { \"oslist\" \"linux\" \"language\" \"english\" \"lowviolence\" \"1\" } \"manifests\" { \"public\" { \"gid\" \"222\" } } \"depotfromapp\" \"228980\" }\n\
    \"branches\" { \"public\" { \"buildid\" \"9\" } \"beta\" { \"buildid\" \"10\" \"description\" \"Beta\" } }\n\
  }\n\
}\n";

fn app_kv() -> KeyValue {
    unwrap_single_child(parse_text_vdf(APP_VDF).unwrap())
}

fn app_info() -> AppInfo {
    AppInfo { app_id: 570, change_number: 1, missing_token: false, kv: app_kv(), only_public: false }
}

// ---------------------------------------------------------------- tasks

#[test]
fn task_states() {
    assert_eq!(TaskState::Downloading.label(), "下载中");
    assert_eq!(TaskState::Canceled.label(), "已取消");
    assert!(TaskState::Verifying.is_active());
    assert!(!TaskState::Paused.is_active());
    assert_eq!(TaskState::Paused.resumed(), TaskState::Downloading);
    assert_eq!(TaskState::Failed.resumed(), TaskState::Failed);
    assert_eq!(TaskState::finished(true, true), TaskState::Canceled);
    assert_eq!(TaskState::finished(false, true), TaskState::Completed);
    assert_eq!(TaskState::finished(false, false), TaskState::Failed);
    assert!(removable(TaskState::Completed));
    assert!(removable(TaskState::Paused));
    assert!(!removable(TaskState::Queued));
}

#[test]
fn task_ids_are_hex() {
    let id = new_task_id();
    assert_eq!(id.len(), 16);
    assert!(id.chars().all(|c| c.is_ascii_hexdigit() && !c.is_ascii_uppercase()));
}

// ---------------------------------------------------------------- depot selection

#[test]
fn depot_filters() {
    let mut cfg = KeyValue::new("config");
    cfg.push_child(KeyValue::with_value("oslist", "windows, macos"));
    cfg.push_child(KeyValue::with_value("osarch", "64"));
    cfg.push_child(KeyValue::with_value("language", "german"));
    assert!(depot_matches_filters(None, "linux", "32", "english", false, true));
    assert!(depot_matches_filters(Some(&cfg), "macos", "64", "german", false, true));
    assert!(!depot_matches_filters(Some(&cfg), "linux", "64", "german", false, true));
    assert!(depot_matches_filters(Some(&cfg), "", "64", "german", false, true));
    assert!(!depot_matches_filters(Some(&cfg), "windows", "32", "german", false, true));
    assert!(depot_matches_filters(Some(&cfg), "windows", "", "german", false, true));
    assert!(!depot_matches_filters(Some(&cfg), "windows", "64", "english", false, true));
    assert!(depot_matches_filters(Some(&cfg), "windows", "64", "english", true, true));
    let mut lv = KeyValue::new("config");
    lv.push_child(KeyValue::with_value("lowviolence", "1"));
    assert!(!depot_matches_filters(Some(&lv), "windows", "64", "", false, true));
    assert!(depot_matches_filters(Some(&lv), "windows", "64", "", false, false));
}

#[test]
fn depot_candidates_and_owner() {
    let kv = app_kv();
    let depots = kv.get("depots").unwrap();
    assert_eq!(candidate_depots(depots, &vec![]), vec![571, 573]);
    assert_eq!(candidate_depots(depots, &vec![9, 3, 9]), vec![3, 9]);
    assert_eq!(depot_owner(depots.get("571").unwrap(), 570), 228980);
    assert_eq!(depot_owner(depots.get("573").unwrap(), 570), 570);
    assert_eq!(branch_manifest_gid(depots.get("573").unwrap(), "public"), Some(111));
    assert_eq!(branch_manifest_gid(depots.get("573").unwrap(), "PUBLIC"), Some(111));
    assert_eq!(branch_manifest_gid(depots.get("573").unwrap(), "beta"), Some(0));
    assert_eq!(branch_manifest_gid(depots.get("573").unwrap(), "nightly"), None);
}

#[test]
fn manifest_choice() {
    assert_eq!(plan_manifest(Some(5), Some(6)), Some(5));
    assert_eq!(plan_manifest(None, Some(6)), Some(6));
    assert_eq!(plan_manifest(None, Some(0)), None);
    assert_eq!(plan_manifest(Some(0), Some(6)), None);
    assert_eq!(plan_manifest(None, None), None);
}

#[test]
fn package_access() {
    let mut kv = KeyValue::new("17906");
    let mut apps = KeyValue::new("appids");
    apps.push_child(KeyValue::with_value("0", "570"));
    let mut depots = KeyValue::new("depotids");
    depots.push_child(KeyValue::with_value("0", "573"));
    kv.push_child(apps);
    kv.push_child(depots);
    let pkg = PackageInfo { package_id: 17906, change_number: 0, missing_token: false, kv };
    assert!(package_grants_access(&pkg, 570));
    assert!(package_grants_access(&pkg, 573));
    assert!(!package_grants_access(&pkg, 57));
    assert!(grants_app_or_depot(&pkg, 1, 573));
    assert!(!grants_app_or_depot(&pkg, 1, 2));
}

// ---------------------------------------------------------------- paths and filters

#[test]
fn path_components() {
    assert_eq!(normalize_rel("bin\\win64\\a.dll"), "bin/win64/a.dll");
    assert_eq!(safe_components("a/./b//c").unwrap(), vec!["a", "b", "c"]);
    assert_eq!(safe_components("dir\\file.txt").unwrap(), vec!["dir", "file.txt"]);
    assert_eq!(safe_components("a/../b"), Err(PathError::Illegal));
    assert_eq!(safe_components("C:\\x"), Err(PathError::Illegal));
    assert_eq!(safe_components("").unwrap(), Vec::<String>::new());
}

#[test]
fn file_filters_are_case_insensitive() {
    let filters = compile_filters(&vec!["\\.exe$".to_string(), "(".to_string()]);
    assert_eq!(filters.len(), 1);
    assert!(filters_match(&filters, "bin\\Game.EXE"));
    assert!(!filters_match(&filters, "readme.txt"));
    assert!(filters_match(&Vec::new(), "anything"));
}

fn file(name: &str, flags: u32, size: u64, hash: u8, chunks: Vec<ChunkData>) -> FileData {
    FileData {
        name: name.to_string(),
        name_hash: vec![],
        chunks,
        flags,
        size,
        hash: vec![hash; 20],
        link_target: None,
    }
}

fn chunk(offset: u64, len: u32, checksum: u32) -> ChunkData {
    ChunkData { id: vec![1], checksum, offset, compressed_len: len, uncompressed_len: len }
}

fn manifest(files: Vec<FileData>) -> DepotManifest {
    DepotManifest {
        files,
        filenames_encrypted: false,
        depot_id: 731,
        manifest_gid: 1,
        creation_time: 0,
        total_uncompressed: 0,
        total_compressed: 0,
    }
}

#[test]
fn file_plan_orders_and_filters() {
    let m = manifest(vec![
        file("b.txt", 0, 10, 1, vec![]),
        file("A.exe", 0, 20, 2, vec![]),
        file("dir", 64, 0, 3, vec![]),
        file("c.EXE", 0, 30, 4, vec![]),
    ]);
    let all = plan_files(&m, &Vec::new());
    assert_eq!(all.files, vec![1, 0, 3]);
    assert_eq!(all.dirs, vec![2]);
    assert_eq!(total_size(&m, &all.files), 60);
    let exes = plan_files(&m, &compile_filters(&vec!["\\.exe$".to_string()]));
    assert_eq!(exes.files, vec![1, 3]);
    assert!(exes.dirs.is_empty());
    assert_eq!(total_size(&m, &exes.files), 50);
}

#[test]
fn total_size_is_capped() {
    let m = manifest(vec![file("a", 0, u64::MAX, 1, vec![]), file("b", 0, 5, 1, vec![])]);
    assert_eq!(total_size(&m, &vec![0, 1]), u64::MAX);
}

#[test]
fn unchanged_files_are_skipped() {
    let old = manifest(vec![file("a", 0, 3, 7, vec![]), file("b", 0, 3, 8, vec![])]);
    assert!(unchanged_in(&old, &file("a", 0, 3, 7, vec![])));
    assert!(!unchanged_in(&old, &file("a", 0, 4, 7, vec![])));
    assert!(!unchanged_in(&old, &file("b", 0, 3, 9, vec![])));
    assert!(!unchanged_in(&old, &file("c", 0, 3, 7, vec![])));
}

#[test]
fn chunk_validation_rules() {
    let chunks = vec![chunk(30, 1, 0), chunk(10, 1, 0), chunk(20, 1, 0), chunk(10, 1, 0)];
    assert_eq!(validation_order(&chunks), vec![1, 3, 2, 0]);
    let c = chunk(0, 3, depotmanager::crypto::adler32(b"abc"));
    assert!(!chunk_needed(&c, b"abc"));
    assert!(chunk_needed(&c, b"abd"));
    assert!(must_fetch_all(10, None));
    assert!(must_fetch_all(10, Some(9)));
    assert!(!must_fetch_all(10, Some(10)));
    assert!(!must_fetch_all(0, None));
    assert_eq!(existing_bytes(100, &vec![chunk(0, 30, 0), chunk(0, 20, 0)]), 50);
    assert_eq!(existing_bytes(10, &vec![chunk(0, 30, 0)]), 0);
}

#[test]
fn chunk_jobs_and_counters() {
    assert_eq!(chunk_jobs(&vec![2, 0, 1]), vec![(0, 0), (0, 1), (2, 0)]);
    let mut counters = ChunkCounters::new(&vec![2, 1]);
    assert!(!counters.chunk_done(0));
    assert!(counters.chunk_done(0));
    assert!(counters.chunk_done(1));
    assert_eq!(counters.remaining, vec![0, 0]);
}

#[test]
fn cached_manifest_names() {
    assert_eq!(manifest_cache_name(731, 123), "731_123.manifest");
    assert!(is_cached_manifest_of("731_123.manifest", 731));
    assert!(!is_cached_manifest_of("7310_1.manifest", 731));
    assert!(!is_cached_manifest_of("731_1.txt", 731));
}

// ---------------------------------------------------------------- commands

#[test]
fn app_detail_from_info() {
    let d = app_detail(570, &app_info());
    assert_eq!(d.name, "Dota 2");
    assert!(d.free_to_download);
    assert_eq!(d.os_list, vec!["windows", "macos", "linux"]);
    assert_eq!(d.branches.len(), 2);
    assert_eq!(d.branches[1].name, "beta");
    assert_eq!(d.branches[1].build_id, 10);
    assert_eq!(d.branches[1].description.as_deref(), Some("Beta"));
    let ids: Vec<u32> = d.depots.iter().map(|x| x.depot_id).collect();
    assert_eq!(ids, vec![571, 573]);
    assert_eq!(d.depots[0].owner_app, 228980);
    assert!(d.depots[0].low_violence);
    assert_eq!(d.depots[0].language, "english");
    assert_eq!(d.depots[1].manifests.len(), 1);
    assert_eq!(d.depots[1].manifests[0].manifest_id, 111);
    assert_eq!(d.depots[1].manifests[0].size, 1000);
    assert_eq!(d.depots[1].accessible, None);
    assert!(!d.depots_restricted);
    assert_eq!(d.header_image, header_image_url(570));
}

#[test]
fn app_detail_without_depots() {
    let info = AppInfo { app_id: 7, change_number: 0, missing_token: true, kv: KeyValue::new("7"), only_public: false };
    let d = app_detail(7, &info);
    assert_eq!(d.name, "App 7");
    assert!(d.depots.is_empty());
    assert!(d.depots_restricted);
    assert!(d.os_list.is_empty());
}

fn args(dir: &str, conns: usize) -> StartDownloadArgs {
    StartDownloadArgs {
        app_id: 570,
        depot_ids: vec![573],
        branch: default_branch(),
        manifest_id: None,
        install_dir: dir.to_string(),
        os: "windows".to_string(),
        arch: "64".to_string(),
        language: "english".to_string(),
        all_languages: false,
        file_filters: vec![],
        verify_only: false,
        max_connections: conns,
    }
}

#[test]
fn download_requests() {
    assert_eq!(default_branch(), "public");
    assert_eq!(default_max_conn(), 16);
    assert_eq!(clamp_connections(0), 1);
    assert_eq!(clamp_connections(100), 64);
    assert_eq!(clamp_connections(8), 8);
    assert_eq!(download_request(args("", 4)).unwrap_err(), "请选择安装目录");
    let q = download_request(args("/games/dota", 200)).unwrap();
    assert_eq!(q.max_connections, 64);
    assert_eq!(q.install_dir, "/games/dota");
    assert_eq!(q.depot_ids, vec![573]);
}

// ---------------------------------------------------------------- product info

#[test]
fn app_info_from_reply_buffers() {
    let mut buf = APP_VDF.to_vec();
    buf.push(0);
    let replies = vec![
        AppReply { appid: Some(1), change_number: None, missing_token: None, buffer: None, only_public: None },
        AppReply { appid: Some(570), change_number: Some(42), missing_token: Some(true), buffer: Some(buf), only_public: None },
    ];
    let info = app_info_from_replies(570, &replies).unwrap().unwrap();
    assert_eq!(info.change_number, 42);
    assert!(info.missing_token);
    assert_eq!(info.name().as_deref(), Some("Dota 2"));
    assert!(app_info_from_replies(9, &replies).unwrap().is_none());
    let bad = vec![AppReply { appid: Some(570), change_number: None, missing_token: None, buffer: Some(b"\"a\" {x".to_vec()), only_public: None }];
    assert!(app_info_from_replies(570, &bad).is_err());
}

#[test]
fn product_info_helpers() {
    assert_eq!(access_token(0), None);
    assert_eq!(access_token(77), Some(77));
    assert_eq!(missing_package_ids(&[5, 3, 5, 8], &[false, false, false, true]), vec![3, 5]);
    assert!(license_granted(&[570], &[], 570));
    assert!(license_granted(&[], &[1], 570));
    assert!(!license_granted(&[1], &[], 570));
    assert!(batch_complete(&[true, false]));
    assert!(!batch_complete(&[true, true]));
    assert_eq!(granted_tokens(&vec![(Some(1), Some(2)), (None, Some(3)), (Some(4), None)]), vec![(1, 2)]);
    assert_eq!(missing_app_err(570), "无法获取 App 570 的信息（不存在或当前账号无权访问）");
}

// ---------------------------------------------------------------- history

fn version(id: u64, source: &str, branch: Option<&str>) -> ManifestVersion {
    ManifestVersion {
        manifest_id: id,
        date: None,
        source: source.to_string(),
        branch: branch.map(|b| b.to_string()),
        build_id: None,
        description: None,
    }
}

#[test]
fn branch_history_from_app_info() {
    let kv = app_kv();
    let v = branch_manifests(&kv, 573);
    assert_eq!(v.len(), 1);
    assert_eq!(v[0].manifest_id, 111);
    assert_eq!(v[0].source, "pics");
    assert_eq!(v[0].branch.as_deref(), Some("public"));
    assert_eq!(v[0].build_id, Some(9));
    assert!(branch_manifests(&kv, 999).is_empty());
    let b = branch_list(&kv);
    assert_eq!(b.len(), 2);
    assert_eq!(b[0], ("public".to_string(), 9, None));
}

#[test]
fn merged_history_keeps_each_id_once() {
    let mut s = version(1, "steamdb", None);
    s.date = Some("2020-01-01".to_string());
    let mut p = version(1, "pics", Some("public"));
    p.build_id = Some(5);
    let merged = merged_history(vec![s, version(2, "steamdb", None)], vec![p, version(3, "pics", Some("beta"))]);
    let ids: Vec<u64> = merged.iter().map(|m| m.manifest_id).collect();
    assert_eq!(ids, vec![1, 2, 3]);
    assert_eq!(merged[0].branch.as_deref(), Some("public"));
    assert_eq!(merged[0].build_id, Some(5));
    assert_eq!(merged[0].date.as_deref(), Some("2020-01-01"));
    assert_eq!(merged[0].source, "steamdb");
}

#[test]
fn steamdb_rows_newest_first() {
    let html = "<table>\
        <tr><td>1234567890123456789</td><td data-time=\"1700000000\">x</td></tr>\
        <tr class=\"r\"><td> 9876543210987654321 </td><td>2020-01-02</td></tr>\
        <tr><td>1234567890123456789</td><td data-time=\"1\"></td></tr>\
        <tr><td>12</td></tr>\
        </table>";
    let v = parse_steamdb_history(html);
    let ids: Vec<u64> = v.iter().map(|m| m.manifest_id).collect();
    assert_eq!(ids, vec![9876543210987654321, 1234567890123456789]);
    assert_eq!(v[0].date.as_deref(), Some("2020-01-02"));
    assert_eq!(v[1].date.as_deref(), Some("2023-11-14"));
    assert_eq!(v[1].source, "steamdb");
}

// ---------------------------------------------------------------- settings

fn account(name: &str, token: &str) -> SavedAccount {
    SavedAccount { account_name: name.to_string(), steamid: 1, refresh_token: token.to_string(), guard_data: None }
}

#[test]
fn settings_defaults() {
    assert_eq!(default_os("windows"), "windows");
    assert_eq!(default_os("macos"), "macos");
    assert_eq!(default_os("freebsd"), "linux");
    let s = Settings::defaults("linux".to_string());
    assert_eq!(s.max_connections, 16);
    assert_eq!(s.language, "english");
    assert_eq!(s.arch, "64");
    assert!(s.accounts.is_empty());
}

#[test]
fn accounts_upsert_find_remove() {
    let mut s = Settings::defaults("linux".to_string());
    s.upsert_account(account("Alice", "t1"));
    s.upsert_account(account("bob", "t2"));
    s.upsert_account(account("ALICE", "t3"));
    assert_eq!(s.accounts.len(), 2);
    assert_eq!(s.find_account("alice").unwrap().refresh_token, "t3");
    assert_eq!(s.find_account("Bob").unwrap().refresh_token, "t2");
    assert!(s.find_account("carol").is_none());
    s.last_account = Some("Bob".to_string());
    s.remove_account("BOB");
    assert!(s.find_account("bob").is_none());
    assert_eq!(s.last_account, None);
    assert_eq!(s.accounts.len(), 1);
}

#[test]
fn machine_ids_from_seed() {
    let mut s = Settings::defaults("linux".to_string());
    s.machine_id_seed = "00ff".to_string();
    assert_eq!(s.machine_id(), depotmanager::machineid::build_machine_id(&[0x00, 0xff]));
    s.machine_id_seed = "zz".to_string();
    assert_eq!(s.machine_id(), depotmanager::machineid::build_machine_id(b"depotmanager"));
    s.machine_id_seed = String::new();
    s.ensure_machine_seed();
    assert_eq!(s.machine_id_seed.len(), 32);
    let kept = s.machine_id_seed.clone();
    s.ensure_machine_seed();
    assert_eq!(s.machine_id_seed, kept);
}

// ---------------------------------------------------------------- runtime

fn jwt(payload: &str) -> String {
    format!(
        "eyJhbGciOiJFZERTQSJ9.{}.c2ln",
        base64::engine::general_purpose::URL_SAFE_NO_PAD.encode(payload)
    )
}

#[test]
fn jwt_claims() {
    let t = jwt("{\"sub\":\"76561197960287930\",\"exp\":1700000000}");
    assert_eq!(jwt_account_id(&t), Some(22202));
    assert_eq!(jwt_expiry(&t), Some(1700000000));
    assert_eq!(jwt_account_id("no-dots"), None);
    assert_eq!(jwt_account_id(&jwt("{\"sub\":12}")), None);
    assert_eq!(jwt_expiry(&jwt("{\"sub\":\"1\"}")), None);
    assert_eq!(steamid_from_token(&t), 0x0110_0000_0000_0000 + 22202);
    assert_eq!(steamid_from_token("x"), 0);
}

#[test]
fn logins_are_remembered() {
    let mut s = Settings::defaults("linux".to_string());
    assert_eq!(auto_login_account(&s), None);
    let t = jwt("{\"sub\":\"76561197960287930\"}");
    remember_login(&mut s, "Alice".to_string(), t.clone(), Some("guard".to_string()));
    assert_eq!(s.last_account.as_deref(), Some("Alice"));
    let a = s.find_account("alice").unwrap();
    assert_eq!(a.steamid, 0x0110_0000_0000_0000 + 22202);
    assert_eq!(a.guard_data.as_deref(), Some("guard"));
    assert_eq!(auto_login_account(&s), Some(("Alice".to_string(), t)));
}

#[test]
fn challenges() {
    let none = challenge_from_state(&vec![]);
    assert_eq!((none.kind.as_str(), none.message.as_str()), ("none", "无需额外验证"));
    let email = challenge_from_state(&vec![(guard_type::EMAIL_CODE, String::new()), (guard_type::DEVICE_CONFIRMATION, "x".to_string())]);
    assert_eq!((email.kind.as_str(), email.message.as_str()), ("email_code", "请输入发送到邮箱的验证码"));
    let device = challenge_from_state(&vec![(guard_type::DEVICE_CONFIRMATION, "ok".to_string()), (guard_type::DEVICE_CODE, String::new())]);
    assert_eq!((device.kind.as_str(), device.message.as_str()), ("device_code", "请输入 Steam 手机令牌验证码"));
    let confirm = challenge_from_state(&vec![(guard_type::EMAIL_CONFIRMATION, "确认".to_string())]);
    assert_eq!((confirm.kind.as_str(), confirm.message.as_str()), ("confirmation", "确认"));
    assert_eq!(guard_type::describe(guard_type::DEVICE_CODE), "手机令牌验证码");
    assert_eq!(guard_type::describe(99), "未知验证");
}

#[test]
fn endpoints_bookkeeping() {
    let mut eps = vec!["a".to_string(), "b".to_string()];
    assert!(!remember_endpoint(&mut eps, "a".to_string()));
    assert!(remember_endpoint(&mut eps, "b".to_string()));
    assert_eq!(eps, vec!["b", "a", "b"]);
    merge_endpoints(&mut eps, vec!["a".to_string(), "c".to_string(), "c".to_string()]);
    assert_eq!(eps, vec!["b", "a", "b", "c"]);
    let mut many: Vec<String> = (0..50).map(|i| i.to_string()).collect();
    assert!(remember_endpoint(&mut many, "new".to_string()));
    assert_eq!(many.len(), 50);
    assert_eq!(many[0], "new");
    assert_eq!(many[49], "48");
}

#[test]
fn runtime_texts() {
    assert_eq!(anonymous_name(), "匿名用户");
    assert!(matches!(LoginState::default(), LoginState::Offline { message } if message == "未登录"));
    assert!(is_user_disconnect("用户主动断开连接"));
    assert!(!is_user_disconnect("连接超时"));
    assert_eq!(reconnect_delay_secs(1), 5);
    assert_eq!(reconnect_delay_secs(4), 14);
    assert_eq!(task_log_line("abcdef123", "开始"), "[abcdef] 开始");
    assert_eq!(task_log_line("ab", "x"), "[ab] x");
}

// ---------------------------------------------------------------- auth

#[test]
fn auth_replies() {
    assert_eq!(non_empty(Some(String::new())), None);
    assert_eq!(non_empty(Some("g".to_string())), Some("g".to_string()));
    let done = poll_result(Some("alice".to_string()), Some("r".to_string()), Some("a".to_string()), Some(String::new())).unwrap();
    assert_eq!(done.account_name, "alice");
    assert_eq!(done.refresh_token, "r");
    assert_eq!(done.new_guard_data, None);
    assert!(poll_result(None, Some(String::new()), Some("a".to_string()), None).is_none());
    assert!(poll_result(None, Some("r".to_string()), None, None).is_none());
    assert_eq!(confirmations_from_reply(vec![(Some(3), None), (None, Some("m".to_string()))]), vec![(3, String::new()), (0, "m".to_string())]);
    assert_eq!(host_or_pc(None), "PC");
    assert_eq!(host_or_pc(Some(String::new())), "PC");
    assert_eq!(host_or_pc(Some("box".to_string())), "box");
    assert_eq!(device_name("box"), "DepotManager (box)");
}

// ---------------------------------------------------------------- connection

#[test]
fn logon_updates_state() {
    let mut st = ConnectionState::default();
    let header = make_header(76561197960287930, 17, 1, 2, None);
    let ok = LogonResponse { eresult: Some(eresult::OK), cell_id: Some(4), heartbeat_seconds: Some(2), ip_country_code: Some("CN".to_string()) };
    let ev = st.on_logon_response(&header, &ok);
    assert!(matches!(ev, ConnectionEvent::LoggedOn { steamid: 76561197960287930, cell_id: 4, ref ip_country } if ip_country == "CN"));
    assert!(st.logged_on);
    assert_eq!(st.session_id, 17);
    assert_eq!(st.heartbeat_seconds, 5);
    assert_eq!(heartbeat_delay(&st), Some(5));
    let ev = st.on_license_list(&vec![(Some(17906), Some(9)), (None, None)]);
    assert!(matches!(ev, ConnectionEvent::Licenses { count: 2 }));
    assert_eq!(st.licenses, vec![(17906, 9), (0, 0)]);
    let snap = st.snapshot();
    assert_eq!(snap.licenses, st.licenses);
    let ev = st.on_logged_off(None);
    assert!(matches!(ev, ConnectionEvent::LoggedOff { eresult: 2 }));
    assert!(!st.logged_on);
    assert_eq!(heartbeat_delay(&st), None);
    let bad = LogonResponse { eresult: Some(eresult::INVALID_PASSWORD), cell_id: None, heartbeat_seconds: None, ip_country_code: None };
    let mut fresh = ConnectionState::default();
    assert!(matches!(fresh.on_logon_response(&header, &bad), ConnectionEvent::LogonFailed { eresult: 5 }));
    assert!(!fresh.logged_on);
    let ok2 = LogonResponse { eresult: Some(eresult::OK), cell_id: None, heartbeat_seconds: None, ip_country_code: None };
    fresh.on_logon_response(&header, &ok2);
    assert_eq!(fresh.heartbeat_seconds, 15);
    assert_eq!(heartbeat_delay(&fresh), Some(15));
}

#[test]
fn logon_wait_outcomes() {
    assert_eq!(logon_outcome(&ConnectionEvent::LoggedOn { steamid: 9, cell_id: 0, ip_country: String::new() }), Some(Ok(9)));
    assert_eq!(logon_outcome(&ConnectionEvent::LogonFailed { eresult: 5 }), Some(Err(LogonError::Failed(5))));
    assert_eq!(logon_outcome(&ConnectionEvent::Disconnected { reason: "gone".to_string() }), Some(Err(LogonError::Disconnected("gone".to_string()))));
    assert_eq!(logon_outcome(&ConnectionEvent::Connected), None);
}

#[test]
fn multi_messages() {
    let mut body = Vec::new();
    body.extend_from_slice(&3u32.to_le_bytes());
    body.extend_from_slice(b"abc");
    body.extend_from_slice(&1u32.to_le_bytes());
    body.extend_from_slice(b"d");
    body.extend_from_slice(&9u32.to_le_bytes());
    body.extend_from_slice(b"xy");
    assert_eq!(split_multi(&body), vec![b"abc".to_vec(), b"d".to_vec()]);
    assert!(split_multi(&[1, 2]).is_empty());
    assert_eq!(multi_payload(body.clone(), None), Some(body.clone()));
    assert_eq!(multi_payload(body.clone(), Some(0)), Some(body.clone()));
    let mut gz = flate2::write::GzEncoder::new(Vec::new(), flate2::Compression::default());
    gz.write_all(&body).unwrap();
    let zipped = gz.finish().unwrap();
    assert_eq!(multi_payload(zipped, Some(body.len() as u32)), Some(body.clone()));
    assert_eq!(multi_payload(vec![1, 2, 3], Some(5)), None);
}

#[test]
fn dispatch_and_routing() {
    assert_eq!(packet_kind(1), PacketKind::Multi);
    assert_eq!(packet_kind(751), PacketKind::LogonResponse);
    assert_eq!(packet_kind(757), PacketKind::LoggedOff);
    assert_eq!(packet_kind(780), PacketKind::LicenseList);
    assert_eq!(packet_kind(5500), PacketKind::ServerUnavailable);
    assert_eq!(packet_kind(147), PacketKind::Reply);
    let waiting = vec![(10, 8904), (11, 5439), (12, 8904)];
    assert_eq!(route(11, 0, &waiting), Route::Job(11));
    assert_eq!(route(99, 0, &waiting), Route::NoWaiter(99));
    assert_eq!(route(JOBID_NONE, 8904, &waiting), Route::Job(10));
    assert_eq!(route(JOBID_NONE, 1, &waiting), Route::Unrouted);
    assert_eq!(service_call_emsg(true), 151);
    assert_eq!(service_call_emsg(false), 9804);
}

#[test]
fn cm_directory() {
    let entries = vec![
        (Some("websockets".to_string()), Some("h1:443".to_string())),
        (Some("netfilter".to_string()), Some("h2:27017".to_string())),
        (None, Some("h3".to_string())),
        (Some("websockets".to_string()), None),
        (Some("websockets".to_string()), Some("h4:443".to_string())),
    ];
    assert_eq!(websocket_endpoints(&entries), vec!["h1:443", "h4:443"]);
    assert_eq!(cm_socket_url("h1:443"), "wss://h1:443/cmsocket/");
    assert_eq!(cm_list_url(0), "https://api.steampowered.com/ISteamDirectory/GetCMListForConnect/v1/?cellid=0");
    let many: Vec<String> = (0..8).map(|i| format!("e{}", i)).collect();
    assert_eq!(connect_candidates(&many), many.clone());
    assert_eq!(connect_candidates(&many[..2].to_vec()), many[..2].to_vec());
    let fb = fallback_cm_endpoints();
    assert_eq!(fb.len(), 15);
    assert_eq!(fb[0], "cmp1-hkg1.steamserver.net:27024");
    assert_eq!(fb[14], "cmp2-hkg1.steamserver.net:27022");
    assert_eq!(cached_endpoints(Some(vec![])), None);
    assert_eq!(cached_endpoints(None), None);
    assert_eq!(cached_endpoints(Some(vec!["x".to_string()])), Some(vec!["x".to_string()]));
}

// ---------------------------------------------------------------- store

#[test]
fn store_urls() {
    assert_eq!(
        header_image_url(570),
        "https://shared.cloudflare.steamstatic.com/store_item_assets/steam/apps/570/header.jpg"
    );
    assert_eq!(
        capsule_image_url(570),
        "https://shared.cloudflare.steamstatic.com/store_item_assets/steam/apps/570/capsule_184x69.jpg"
    );
    assert_eq!(
        store_search_url("dota 2&x", "us", "english"),
        "https://store.steampowered.com/api/storesearch/?term=dota+2%26x&cc=us&l=english"
    );
}

fn item(id: Option<u64>, name: Option<&str>, ty: Option<&str>, img: Option<&str>) -> StoreItem {
    StoreItem {
        id,
        name: name.map(|s| s.to_string()),
        item_type: ty.map(|s| s.to_string()),
        tiny_image: img.map(|s| s.to_string()),
    }
}

#[test]
fn store_search_results() {
    let items = vec![
        item(Some(570), Some("Dota 2"), Some("app"), Some("img")),
        item(Some(1), Some("Bundle"), Some("sub"), None),
        item(None, Some("x"), None, None),
        item(Some(730), Some(""), None, None),
        item(Some(440), Some("TF2"), None, None),
    ];
    let r = store_results(&items);
    assert_eq!(r.len(), 2);
    assert_eq!(r[0].app_id, 570);
    assert_eq!(r[0].image.as_deref(), Some("img"));
    assert_eq!(r[0].source, "store");
    assert_eq!(r[1].app_id, 440);
    assert_eq!(r[1].image, Some(header_image_url(440)));
    let many: Vec<StoreItem> = (1..=60).map(|i| item(Some(i), Some("n"), None, None)).collect();
    assert_eq!(store_results(&many).len(), 50);
}

#[test]
fn applist_lookup_and_search() {
    let list = applist_entries(&vec![
        (Some(10), Some("Counter-Strike".to_string())),
        (Some(0), Some("zero".to_string())),
        (Some(20), None),
        (Some(570), Some("Dota 2".to_string())),
        (Some(730), Some("Counter-Strike 2".to_string())),
        (Some(999), Some("The Dota Files".to_string())),
    ]);
    assert_eq!(list.len(), 4);
    assert_eq!(applist_name(&list, 570), Some("Dota 2".to_string()));
    assert_eq!(applist_name(&list, 1), None);
    assert!(applist_fresh(Some(0)));
    assert!(!applist_fresh(Some(7 * 24 * 3600)));
    assert!(!applist_fresh(None));
    let r = applist_search(&list, "  dota ");
    let ids: Vec<u32> = r.iter().map(|x| x.app_id).collect();
    assert_eq!(ids, vec![570, 999]);
    assert_eq!(r[0].source, "applist");
    assert_eq!(r[0].image, Some(header_image_url(570)));
    assert!(applist_search(&list, "   ").is_empty());
    let cs: Vec<u32> = applist_search(&list, "COUNTER").iter().map(|x| x.app_id).collect();
    assert_eq!(cs, vec![10, 730]);
}

#[test]
fn popular_sorted_and_capped() {
    let entries: Vec<(u32, String)> = (0..70u32).rev().map(|i| (i, format!("g{}", i))).collect();
    let r = popular_results(&entries);
    assert_eq!(r.len(), 60);
    assert_eq!(r[0].app_id, 0);
    assert_eq!(r[59].app_id, 59);
    assert_eq!(r[0].source, "popular");
    assert_eq!(r[0].name, "g0");
}

#[test]
fn same_version_files_all_unchanged() {
    let m = manifest(vec![file("a", 0, 3, 7, vec![]), file("b/c", 0, 9, 8, vec![]), file("d", 0, 0, 1, vec![])]);
    for f in &m.files {
        assert!(unchanged_in(&m, f));
    }
}

#[test]
fn unchanged_files_skip_the_check_unless_verifying() {
    let old = manifest(vec![file("a", 0, 3, 7, vec![])]);
    let same = file("a", 0, 3, 7, vec![]);
    let changed = file("a", 0, 3, 8, vec![]);
    assert!(!file_needs_work(false, Some(&old), &same, true));
    assert!(file_needs_work(true, Some(&old), &same, true));
    assert!(file_needs_work(false, Some(&old), &same, false));
    assert!(file_needs_work(false, Some(&old), &changed, true));
    assert!(file_needs_work(false, None, &same, true));
}

#[test]
fn depot_outcome_after_the_check() {
    assert_eq!(depot_outcome(true, &vec![0, 2, 0, 5]), DepotOutcome::Verified { bad: 2 });
    assert_eq!(depot_outcome(true, &vec![0, 0]), DepotOutcome::Verified { bad: 0 });
    assert_eq!(depot_outcome(false, &vec![0, 0]), DepotOutcome::UpToDate);
    assert_eq!(depot_outcome(false, &vec![]), DepotOutcome::UpToDate);
    assert_eq!(depot_outcome(false, &vec![0, 1]), DepotOutcome::Download);
}

fn request(depot_ids: Vec<u32>, branch: &str, manifest_id: Option<u64>, os: &str) -> DownloadRequest {
    DownloadRequest {
        app_id: 570,
        depot_ids,
        branch: branch.to_string(),
        manifest_id,
        install_dir: "/games".to_string(),
        os: os.to_string(),
        arch: "64".to_string(),
        language: "english".to_string(),
        all_languages: false,
        file_filters: vec![],
        verify_only: false,
        max_connections: 16,
    }
}

#[test]
fn depot_resolution_steps() {
    let kv = app_kv();
    let depots = kv.get("depots").unwrap();
    let auto = request(vec![], "public", None, "windows");
    assert_eq!(first_depot_step_of(depots, 999, &auto), DepotStep::NotInAppInfo);
    assert_eq!(first_depot_step_of(depots, 573, &auto), DepotStep::CheckAccess { owner_app: 570, gid: 111 });
    assert_eq!(first_depot_step_of(depots, 573, &request(vec![], "public", None, "linux")), DepotStep::Filtered);
    assert_eq!(first_depot_step_of(depots, 573, &request(vec![], "beta", None, "windows")), DepotStep::NoManifest);
    assert_eq!(
        first_depot_step_of(depots, 573, &request(vec![], "public", Some(5), "windows")),
        DepotStep::CheckAccess { owner_app: 570, gid: 5 }
    );
    // the low-violence depot is left out of automatic selection only
    assert_eq!(first_depot_step_of(depots, 571, &request(vec![], "public", None, "linux")), DepotStep::Filtered);
    let picked = request(vec![571], "public", None, "linux");
    assert_eq!(first_depot_step_of(depots, 571, &picked), DepotStep::NeedOwnerInfo { owner_app: 228980 });
    assert_eq!(
        owner_depot_step_of(depots, 571, "public", 228980, None),
        DepotStep::OwnerUnknown { owner_app: 228980 }
    );
    let owner = unwrap_single_child(
        parse_text_vdf(b"\"228980\" { \"depots\" { \"571\" { \"manifests\" { \"public\" { \"gid\" \"333\" } } } } }").unwrap(),
    );
    assert_eq!(
        owner_depot_step_of(depots, 571, "public", 228980, Some(&owner)),
        DepotStep::CheckAccess { owner_app: 228980, gid: 333 }
    );
    let bare = KeyValue::new("228980");
    assert_eq!(
        owner_depot_step_of(depots, 571, "public", 228980, Some(&bare)),
        DepotStep::CheckAccess { owner_app: 228980, gid: 222 }
    );
}

#[test]
fn package_cache_after_replies() {
    let packets = vec![(vec![2], vec![3, 1, 3]), (vec![9], vec![])];
    let mut w = package_cache_writes(&vec![1, 2, 3], &packets);
    w.sort();
    assert_eq!(w, vec![(1, Some((0, 1))), (2, None), (3, Some((0, 2))), (9, None)]);
    assert_eq!(package_cache_writes(&vec![], &vec![]), vec![]);
    // a later packet calling a package unknown wins over an earlier reply
    let later_unknown = vec![(vec![], vec![7]), (vec![7], vec![])];
    assert_eq!(package_cache_writes(&vec![7], &later_unknown), vec![(7, None)]);
    // a later reply wins over an earlier "unknown"
    let later_reply = vec![(vec![7], vec![]), (vec![], vec![7])];
    assert_eq!(package_cache_writes(&vec![7], &later_reply), vec![(7, Some((1, 0)))]);
}

#[test]
fn depot_plans_follow_resolution_order() {
    let mut plans = Vec::new();
    record_depot_plan(&mut plans, 573, DepotStep::CheckAccess { owner_app: 570, gid: 111 }, true, "public");
    record_depot_plan(&mut plans, 574, DepotStep::CheckAccess { owner_app: 570, gid: 112 }, false, "public");
    record_depot_plan(&mut plans, 575, DepotStep::NoManifest, true, "public");
    record_depot_plan(&mut plans, 571, DepotStep::CheckAccess { owner_app: 228980, gid: 333 }, true, "public");
    let got: Vec<(u32, u32, u64)> = plans.iter().map(|p| (p.depot_id, p.owner_app, p.manifest_gid)).collect();
    assert_eq!(got, vec![(573, 570, 111), (571, 228980, 333)]);
    assert_eq!(plans[0].branch, "public");
}

#[test]
fn applist_cache_text_round_trip() {
    let list = vec![(10u32, "Counter-Strike".to_string()), (570, "Dota \"2\"".to_string())];
    let text = applist_cache_text(&list);
    assert_eq!(text, "[[10,\"Counter-Strike\"],[570,\"Dota \\\"2\\\"\"]]");
    assert_eq!(parse_applist_cache(&text), Some(list));
    assert_eq!(parse_applist_cache("not json"), None);
    assert_eq!(parse_applist_cache("[[1,2]]"), None);
}

#[test]
fn applist_falls_back_to_the_cache() {
    let fetched = vec![(1u32, "A".to_string())];
    assert_eq!(applist_after_fetch(fetched.clone(), Some("[[2,\"B\"]]")), Some((fetched, true)));
    assert_eq!(applist_after_fetch(vec![], Some("[[2,\"B\"]]")), Some((vec![(2, "B".to_string())], false)));
    assert_eq!(applist_after_fetch(vec![], Some("garbage")), None);
    assert_eq!(applist_after_fetch(vec![], None), None);
}

#[test]
fn free_license_claimed_only_when_eligible() {
    assert_eq!(free_license_step(true, None, 570), LicenseStep::Claim);
    assert_eq!(free_license_step(false, None, 570), LicenseStep::Keep);
    assert_eq!(free_license_step(true, Some(&(vec![570], vec![])), 570), LicenseStep::Granted);
    assert_eq!(free_license_step(true, Some(&(vec![], vec![17906])), 570), LicenseStep::Granted);
    assert_eq!(free_license_step(true, Some(&(vec![440], vec![])), 570), LicenseStep::Keep);
    assert_eq!(free_license_step(true, Some(&(vec![], vec![])), 570), LicenseStep::Keep);
}
