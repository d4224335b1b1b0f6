use std::io::Write;

use aes::cipher::{BlockEncrypt, BlockEncryptMut, KeyInit, KeyIvInit};
use base64::Engine;

use depotmanager::cdn::{
    append_token, depot_key_from_reply, is_auth_error, manifest_branch, process_chunk,
    request_code_from_reply, server_eligible, server_from_info, status_error, unzip_single,
    CdnError, CdnFetch, CdnServer, DepotKeyError, FetchPhase, FetchStep, GetOutcome, PayloadError,
    ServerInfo, ServerRing, TokenCache, VecSink, CHUNK_ATTEMPTS, MANIFEST_ATTEMPTS,
};
use depotmanager::crypto::{adler32, CryptoError};
use depotmanager::engine::{cached_manifest_intact, manifest_sidecar};
use depotmanager::manifest::{
    frame_manifest, split_sections, ChunkData, ChunkMapping, DepotManifest, FileData, FileMapping,
    ManifestError, ManifestMetadata, ManifestPayload, ManifestSections, END_MAGIC, METADATA_MAGIC,
    PAYLOAD_MAGIC,
};

const KEY: [u8; 32] = [
    0, 1, 2, 3, 4, 5, 6, 7, 8, 9, 10, 11, 12, 13, 14, 15, 16, 17, 18, 19, 20, 21, 22, 23, 24, 25,
    26, 27, 28, 29, 30, 31,
];

fn cbc_encrypt(key: &[u8], iv: &[u8; 16], plain: &[u8]) -> Vec<u8> {
    let enc = cbc::Encryptor::<aes::Aes256>::new_from_slices(key, iv).unwrap();
    let mut buf = vec![0u8; plain.len() + 16];
    buf[..plain.len()].copy_from_slice(plain);
    let ct = enc
        .encrypt_padded_mut::<aes::cipher::block_padding::Pkcs7>(&mut buf, plain.len())
        .unwrap();
    ct.to_vec()
}

/// `[ECB(iv) | CBC(plain)]`, the layout of chunk payloads and names.
fn seal(key: &[u8], iv: [u8; 16], plain: &[u8]) -> Vec<u8> {
    let ecb = aes::Aes256::new_from_slice(key).unwrap();
    let mut head = aes::cipher::generic_array::GenericArray::clone_from_slice(&iv);
    ecb.encrypt_block(&mut head);
    let mut out = head.to_vec();
    out.extend(cbc_encrypt(key, &iv, plain));
    out
}

fn seal_name(name: &str) -> String {
    base64::engine::general_purpose::STANDARD.encode(seal(&KEY, [9u8; 16], name.as_bytes()))
}

fn vzstd(plain: &[u8]) -> Vec<u8> {
    let frame = zstd::stream::encode_all(plain, 3).unwrap();
    let mut out = b"VSZa".to_vec();
    out.extend_from_slice(&[0; 4]);
    out.extend_from_slice(&frame);
    out.extend_from_slice(&adler32(plain).to_le_bytes());
    out.extend_from_slice(&(plain.len() as u32).to_le_bytes());
    out.extend_from_slice(&[0; 4]);
    out.extend_from_slice(b"zsv");
    out
}

fn vzip(plain: &[u8]) -> Vec<u8> {
    let mut alone = Vec::new();
    lzma_rs::lzma_compress(&mut std::io::Cursor::new(plain), &mut alone).unwrap();
    let mut out = b"VZa".to_vec();
    out.extend_from_slice(&[0; 4]);
    out.extend_from_slice(&alone[0..5]);
    out.extend_from_slice(&alone[13..]);
    out.extend_from_slice(&[0; 4]);
    out.extend_from_slice(&(plain.len() as u32).to_le_bytes());
    out.extend_from_slice(b"zv");
    out
}

fn zip_of(entries: &[(&str, &[u8])]) -> Vec<u8> {
    let mut w = zip::ZipWriter::new(std::io::Cursor::new(Vec::new()));
    let opts = zip::write::SimpleFileOptions::default()
        .compression_method(zip::CompressionMethod::Stored);
    for (name, data) in entries {
        w.start_file(*name, opts).unwrap();
        w.write_all(data).unwrap();
    }
    w.finish().unwrap().into_inner()
}

fn chunk_for(plain: &[u8]) -> ChunkData {
    ChunkData {
        id: vec![0xAB; 20],
        checksum: adler32(plain),
        offset: 0,
        compressed_len: 0,
        uncompressed_len: plain.len() as u32,
    }
}

// ---------------------------------------------------------------- chunks

#[test]
fn chunk_vzstd_payload() {
    let plain = b"hello depot chunk hello depot chunk".to_vec();
    let data = seal(&KEY, [1u8; 16], &vzstd(&plain));
    assert_eq!(process_chunk(&chunk_for(&plain), &data, &KEY).unwrap(), plain);
}

#[test]
fn chunk_vzip_payload() {
    let plain: Vec<u8> = (0..500u32).map(|i| (i % 7) as u8).collect();
    let data = seal(&KEY, [2u8; 16], &vzip(&plain));
    assert_eq!(process_chunk(&chunk_for(&plain), &data, &KEY).unwrap(), plain);
}

#[test]
fn chunk_zip_payload() {
    let plain = b"zip chunk contents".to_vec();
    let data = seal(&KEY, [3u8; 16], &zip_of(&[("z", &plain)]));
    assert_eq!(process_chunk(&chunk_for(&plain), &data, &KEY).unwrap(), plain);
}

#[test]
fn chunk_errors() {
    let plain = b"abcdef".to_vec();
    let chunk = chunk_for(&plain);
    assert_eq!(process_chunk(&chunk, &[0u8; 15], &KEY), Err(PayloadError::Length(15)));
    assert_eq!(process_chunk(&chunk, &[], &KEY), Err(PayloadError::Length(0)));
    let unknown = seal(&KEY, [4u8; 16], b"ABCDxxxx");
    assert_eq!(process_chunk(&chunk, &unknown, &KEY), Err(PayloadError::UnknownFormat(b'A', b'B', b'C', b'D')));
    let short = seal(&KEY, [4u8; 16], b"VS");
    assert_eq!(process_chunk(&chunk, &short, &KEY), Err(PayloadError::TooShort));
    let mut wrong_len = chunk.clone();
    wrong_len.uncompressed_len = 7;
    let good = seal(&KEY, [5u8; 16], &vzstd(&plain));
    assert_eq!(process_chunk(&wrong_len, &good, &KEY), Err(PayloadError::SizeMismatch(7, 6)));
    let mut wrong_sum = chunk.clone();
    wrong_sum.checksum = 1;
    assert_eq!(
        process_chunk(&wrong_sum, &good, &KEY),
        Err(PayloadError::ChecksumMismatch(1, adler32(&plain)))
    );
}

#[test]
fn chunk_vzstd_framing_errors() {
    let chunk = chunk_for(b"x");
    let short = seal(&KEY, [6u8; 16], b"VSZa0000");
    assert_eq!(process_chunk(&chunk, &short, &KEY), Err(PayloadError::VzstdTooShort));
    let mut no_footer = vzstd(b"x");
    let n = no_footer.len();
    no_footer[n - 1] = b'!';
    let sealed = seal(&KEY, [6u8; 16], &no_footer);
    assert_eq!(process_chunk(&chunk, &sealed, &KEY), Err(PayloadError::VzstdFooter));
}

#[test]
fn unzip_single_entry_rules() {
    assert_eq!(unzip_single(&zip_of(&[("only", b"data")])).unwrap(), b"data".to_vec());
    assert_eq!(
        unzip_single(&zip_of(&[("a", b"1"), ("b", b"2")])),
        Err(PayloadError::ZipEntryCount(2))
    );
    assert_eq!(unzip_single(b"not a zip at all"), Err(PayloadError::ZipOpen));
}

#[test]
fn vec_sink_collects_bytes() {
    let mut out = Vec::new();
    {
        let mut sink = VecSink(&mut out);
        sink.write_all(b"ab").unwrap();
        sink.write_all(b"cd").unwrap();
        sink.flush().unwrap();
    }
    assert_eq!(out, b"abcd".to_vec());
}

// ---------------------------------------------------------------- manifests

fn sample_manifest() -> DepotManifest {
    DepotManifest {
        files: vec![
            FileData {
                name: "game/bin/run.exe".to_string(),
                name_hash: vec![1; 20],
                chunks: vec![chunk_for(b"abc")],
                flags: 32,
                size: 3,
                hash: vec![2; 20],
                link_target: None,
            },
            FileData {
                name: "game/link".to_string(),
                name_hash: vec![3; 20],
                chunks: vec![],
                flags: 512,
                size: 0,
                hash: vec![4; 20],
                link_target: Some("bin/run.exe".to_string()),
            },
        ],
        filenames_encrypted: false,
        depot_id: 731,
        manifest_gid: 7617088375292372759,
        creation_time: 1700000000,
        total_uncompressed: 3,
        total_compressed: 2,
    }
}

fn same_manifest(a: &DepotManifest, b: &DepotManifest) {
    assert_eq!(a.depot_id, b.depot_id);
    assert_eq!(a.manifest_gid, b.manifest_gid);
    assert_eq!(a.creation_time, b.creation_time);
    assert_eq!(a.filenames_encrypted, b.filenames_encrypted);
    assert_eq!(a.total_uncompressed, b.total_uncompressed);
    assert_eq!(a.total_compressed, b.total_compressed);
    assert_eq!(a.files.len(), b.files.len());
    for (x, y) in a.files.iter().zip(b.files.iter()) {
        assert_eq!(x.name, y.name);
        assert_eq!(x.name_hash, y.name_hash);
        assert_eq!(x.chunks, y.chunks);
        assert_eq!(x.flags, y.flags);
        assert_eq!(x.size, y.size);
        assert_eq!(x.hash, y.hash);
        assert_eq!(x.link_target, y.link_target);
    }
}

#[test]
fn manifest_sections_roundtrip() {
    let m = sample_manifest();
    let (payload, metadata) = m.to_sections();
    assert_eq!(metadata.depot_id, Some(731));
    assert_eq!(metadata.unique_chunks, None);
    assert_eq!(payload.mappings.len(), 2);
    assert_eq!(payload.mappings[1].linktarget.as_deref(), Some("bin/run.exe"));
    let back = DepotManifest::parse(&payload, &metadata);
    same_manifest(&back, &m);
}

#[test]
fn manifest_parse_defaults() {
    let payload = ManifestPayload {
        mappings: vec![FileMapping {
            filename: None,
            size: None,
            flags: None,
            sha_filename: None,
            sha_content: None,
            chunks: vec![ChunkMapping { sha: None, crc: Some(5), offset: None, cb_original: Some(9), cb_compressed: None }],
            linktarget: Some(String::new()),
        }],
    };
    let metadata = ManifestMetadata {
        depot_id: None,
        gid_manifest: Some(42),
        creation_time: None,
        filenames_encrypted: None,
        cb_disk_original: None,
        cb_disk_compressed: None,
        unique_chunks: Some(1),
        crc_encrypted: None,
        crc_clear: None,
    };
    let m = DepotManifest::parse(&payload, &metadata);
    assert_eq!(m.depot_id, 0);
    assert_eq!(m.manifest_gid, 42);
    assert!(!m.filenames_encrypted);
    let f = &m.files[0];
    assert_eq!(f.name, "");
    assert_eq!(f.size, 0);
    assert_eq!(f.link_target, None);
    assert_eq!(f.chunks[0].checksum, 5);
    assert_eq!(f.chunks[0].uncompressed_len, 9);
    assert!(f.chunks[0].id.is_empty());
}

#[test]
fn manifest_frame_split_roundtrip() {
    let framed = frame_manifest(b"payload bytes", b"meta");
    let sections = split_sections(&framed).unwrap();
    assert_eq!(sections, ManifestSections { payload: b"payload bytes".to_vec(), metadata: b"meta".to_vec() });
    assert_eq!(&framed[0..4], &PAYLOAD_MAGIC.to_le_bytes());
    assert_eq!(&framed[framed.len() - 4..], &END_MAGIC.to_le_bytes());
}

#[test]
fn manifest_split_errors() {
    assert_eq!(split_sections(&[1, 2]), Err(ManifestError::Truncated(0)));
    let mut only_meta = METADATA_MAGIC.to_le_bytes().to_vec();
    only_meta.extend_from_slice(&0u32.to_le_bytes());
    only_meta.extend_from_slice(&END_MAGIC.to_le_bytes());
    assert_eq!(split_sections(&only_meta), Err(ManifestError::MissingPayload));
    let mut only_payload = PAYLOAD_MAGIC.to_le_bytes().to_vec();
    only_payload.extend_from_slice(&0u32.to_le_bytes());
    only_payload.extend_from_slice(&END_MAGIC.to_le_bytes());
    assert_eq!(split_sections(&only_payload), Err(ManifestError::MissingMetadata));
    let mut overrun = PAYLOAD_MAGIC.to_le_bytes().to_vec();
    overrun.extend_from_slice(&100u32.to_le_bytes());
    assert_eq!(split_sections(&overrun), Err(ManifestError::Overrun));
    let mut no_len = PAYLOAD_MAGIC.to_le_bytes().to_vec();
    no_len.push(0);
    assert_eq!(split_sections(&no_len), Err(ManifestError::TruncatedLength(4)));
    let unknown = 0xDEADBEEFu32.to_le_bytes().iter().chain(0u32.to_le_bytes().iter()).cloned().collect::<Vec<u8>>();
    assert_eq!(split_sections(&unknown), Err(ManifestError::UnknownMagic(0xDEADBEEF)));
    let mut no_end = PAYLOAD_MAGIC.to_le_bytes().to_vec();
    no_end.extend_from_slice(&0u32.to_le_bytes());
    assert_eq!(split_sections(&no_end), Err(ManifestError::Truncated(8)));
}

#[test]
fn manifest_decrypts_and_sorts_names() {
    let mut m = sample_manifest();
    m.files[0].name = seal_name("b.txt");
    m.files[1].name = seal_name("A.txt");
    m.files[1].link_target = Some(seal_name("b.txt"));
    m.filenames_encrypted = true;
    m.decrypt_filenames(&KEY).unwrap();
    assert!(!m.filenames_encrypted);
    assert_eq!(m.files[0].name, "A.txt");
    assert_eq!(m.files[0].link_target.as_deref(), Some("b.txt"));
    assert_eq!(m.files[1].name, "b.txt");
    assert_eq!(m.depot_id, 731);
}

#[test]
fn manifest_plain_names_untouched() {
    let mut m = sample_manifest();
    m.decrypt_filenames(&[1, 2, 3]).unwrap();
    assert_eq!(m.files[0].name, "game/bin/run.exe");
    assert_eq!(m.files[1].name, "game/link");
}

#[test]
fn manifest_bad_name_fails() {
    let mut m = sample_manifest();
    m.files[0].name = "@@@".to_string();
    m.filenames_encrypted = true;
    assert_eq!(m.decrypt_filenames(&KEY), Err(CryptoError::Base64));
    assert!(m.filenames_encrypted);
}

#[test]
fn chunk_id_hex_and_directory_flag() {
    let c = ChunkData { id: vec![0x0A, 0xFF], checksum: 0, offset: 0, compressed_len: 0, uncompressed_len: 0 };
    assert_eq!(c.id_hex(), "0aff");
    let mut f = sample_manifest().files[0].clone();
    assert!(!f.is_directory());
    f.flags = 64;
    assert!(f.is_directory());
}

// ---------------------------------------------------------------- CDN

#[test]
fn token_appending() {
    assert_eq!(append_token("http://h/x", "?t=1"), "http://h/x?t=1");
    assert_eq!(append_token("http://h/x?a=1", "t=1"), "http://h/x?a=1&t=1");
    assert_eq!(append_token("http://h/x", "t=1"), "http://h/x?t=1");
}

#[test]
fn status_classification() {
    assert_eq!(status_error(401), CdnError::Auth(401));
    assert_eq!(status_error(403), CdnError::Auth(403));
    assert_eq!(status_error(404), CdnError::NotFound);
    assert_eq!(status_error(500), CdnError::Http(500));
    assert!(is_auth_error(&status_error(403)));
    assert!(!is_auth_error(&status_error(404)));
}

fn info(ty: &str, apps: Vec<u32>) -> ServerInfo {
    ServerInfo {
        server_type: Some(ty.to_string()),
        host: Some("cache1.example.net".to_string()),
        vhost: None,
        https_support: Some("mandatory".to_string()),
        cell_id: Some(5),
        num_entries_in_client_list: Some(0),
        allowed_app_ids: apps,
        use_as_proxy: None,
        steam_china_only: Some(false),
    }
}

#[test]
fn server_selection_and_urls() {
    assert!(server_eligible(&info("CDN", vec![]), 730));
    assert!(server_eligible(&info("SteamCache", vec![730, 570]), 570));
    assert!(!server_eligible(&info("SteamCache", vec![730]), 570));
    assert!(!server_eligible(&info("OpenCache", vec![]), 570));
    let s = server_from_info(&info("CDN", vec![]));
    assert_eq!(s.vhost, "cache1.example.net");
    assert!(s.https);
    assert_eq!(s.num_entries, 1);
    assert_eq!(s.cell_id, 5);
    assert_eq!(s.port(), 443);
    assert_eq!(s.base_url(), "https://cache1.example.net:443");
    assert_eq!(
        s.manifest_url(731, 123, 456),
        "https://cache1.example.net:443/depot/731/manifest/123/5/456"
    );
    assert_eq!(s.chunk_url(731, "0aff"), "https://cache1.example.net:443/depot/731/chunk/0aff");
    let mut plain = info("CDN", vec![]);
    plain.https_support = Some("optional".to_string());
    plain.vhost = Some("v.example".to_string());
    let p = server_from_info(&plain);
    assert_eq!(p.port(), 80);
    assert_eq!(p.base_url(), "http://v.example:80");
}

#[test]
fn directory_replies() {
    assert_eq!(manifest_branch("Public"), None);
    assert_eq!(manifest_branch("beta"), Some("beta".to_string()));
    assert_eq!(request_code_from_reply(1, Some(99)), 99);
    assert_eq!(request_code_from_reply(1, None), 0);
    assert_eq!(request_code_from_reply(15, Some(99)), 0);
    assert_eq!(depot_key_from_reply(Some(1), Some(KEY.to_vec())), Ok(KEY.to_vec()));
    assert_eq!(depot_key_from_reply(None, Some(KEY.to_vec())), Err(DepotKeyError::Refused(2)));
    assert_eq!(depot_key_from_reply(Some(15), None), Err(DepotKeyError::Refused(15)));
    assert_eq!(depot_key_from_reply(Some(1), Some(vec![1, 2])), Err(DepotKeyError::Missing));
    assert_eq!(depot_key_from_reply(Some(1), None), Err(DepotKeyError::Missing));
}

#[test]
fn token_cache_read_after_write() {
    let mut cache = TokenCache::new();
    assert_eq!(cache.lookup(731, "h1", 1000), None);
    cache.insert(731, "h1".to_string(), "tok".to_string(), 2000);
    assert_eq!(cache.lookup(731, "h1", 1000), Some("tok".to_string()));
    assert_eq!(cache.lookup(731, "h2", 1000), None);
    assert_eq!(cache.lookup(732, "h1", 1000), None);
    // usable only while more than 30 seconds remain
    assert_eq!(cache.lookup(731, "h1", 1970), None);
    assert_eq!(cache.lookup(731, "h1", 1969), Some("tok".to_string()));
    cache.insert(731, "h1".to_string(), "forever".to_string(), 0);
    assert_eq!(cache.lookup(731, "h1", u64::MAX), Some("forever".to_string()));
}

fn server(host: &str) -> CdnServer {
    server_from_info(&ServerInfo { host: Some(host.to_string()), ..info("CDN", vec![]) })
}

#[test]
fn server_ring_turns_and_failures() {
    let mut empty = ServerRing::new(vec![]);
    assert_eq!(empty.pick(), None);
    let mut ring = ServerRing::new(vec![server("a"), server("b"), server("c")]);
    assert_eq!(ring.pick(), Some(0));
    assert_eq!(ring.pick(), Some(1));
    ring.note_failure("b");
    assert_eq!(ring.failure_count("b"), 1);
    assert_eq!(ring.pick(), Some(0));
    ring.note_failure("b");
    assert_eq!(ring.failure_count("b"), 2);
    assert_eq!(ring.failure_count("a"), 0);
    ring.note_success("b");
    assert_eq!(ring.failure_count("b"), 0);
    ring.next = usize::MAX;
    assert_eq!(ring.pick(), Some(usize::MAX % 3));
    assert_eq!(ring.next, 0);
}

#[test]
fn chunk_bad_padding_is_crypto_error() {
    let iv = [8u8; 16];
    let enc = cbc::Encryptor::<aes::Aes256>::new_from_slices(&KEY, &iv).unwrap();
    let mut block = [0u8; 16];
    let body = enc
        .encrypt_padded_mut::<aes::cipher::block_padding::NoPadding>(&mut block, 16)
        .unwrap()
        .to_vec();
    let ecb = aes::Aes256::new_from_slice(&KEY).unwrap();
    let mut head = aes::cipher::generic_array::GenericArray::clone_from_slice(&iv);
    ecb.encrypt_block(&mut head);
    let mut data = head.to_vec();
    data.extend(body);
    assert_eq!(
        process_chunk(&chunk_for(b"x"), &data, &KEY),
        Err(PayloadError::Crypto(CryptoError::Decrypt))
    );
}

#[test]
fn fetched_chunk_passes_resume_check() {
    let plain = b"resume me, resume me, resume me".to_vec();
    let chunk = chunk_for(&plain);
    let data = seal(&KEY, [11u8; 16], &vzstd(&plain));
    let out = process_chunk(&chunk, &data, &KEY).unwrap();
    assert!(!depotmanager::engine::chunk_needed(&chunk, &out));
}

#[test]
fn manifest_sidecar_is_sha1_of_bytes() {
    let side = manifest_sidecar(b"abc");
    assert_eq!(hex::encode(&side), "a9993e364706816aba3e25717850c26c9cd0d89d");
}

#[test]
fn cached_manifest_checked_against_sidecar() {
    let data = b"manifest bytes".to_vec();
    let side = manifest_sidecar(&data);
    assert!(cached_manifest_intact(&data, None));
    assert!(cached_manifest_intact(&data, Some(side.as_slice())));
    assert!(!cached_manifest_intact(&data, Some(&[0u8; 20][..])));
    assert!(!cached_manifest_intact(b"other bytes", Some(side.as_slice())));
}

#[test]
fn fetch_gives_up_after_its_servers() {
    let mut f = CdnFetch::new(2);
    assert_eq!(f.first_step(), FetchStep::Get);
    assert_eq!(f.on_get(GetOutcome::Failed), FetchStep::Retry);
    assert_eq!(f.attempts, 1);
    assert_eq!(f.on_get(GetOutcome::Failed), FetchStep::GiveUp);
    assert_eq!(f.attempts, 2);
    assert_eq!(CdnFetch::new(0).first_step(), FetchStep::GiveUp);
    assert_eq!(MANIFEST_ATTEMPTS, 6);
    assert_eq!(CHUNK_ATTEMPTS, 8);
}

#[test]
fn fetch_asks_for_a_token_once_per_server() {
    let mut f = CdnFetch::new(CHUNK_ATTEMPTS);
    assert_eq!(f.on_get(GetOutcome::AuthRefused), FetchStep::RequestToken);
    assert_eq!(f.phase, FetchPhase::AwaitToken);
    assert_eq!(f.on_token(true), FetchStep::GetWithToken);
    assert_eq!(f.phase, FetchPhase::WithToken);
    assert_eq!(f.on_get(GetOutcome::AuthRefused), FetchStep::Retry);
    assert_eq!(f.phase, FetchPhase::Plain);
    assert_eq!(f.attempts, 1);
    assert_eq!(f.on_get(GetOutcome::AuthRefused), FetchStep::RequestToken);
    assert_eq!(f.on_token(false), FetchStep::Retry);
    assert_eq!(f.attempts, 2);
    assert_eq!(f.on_get(GetOutcome::Accepted), FetchStep::Done);
    assert_eq!(f.attempts, 2);
}

#[test]
fn manifest_short_key_refused_before_decrypting() {
    let mut m = sample_manifest();
    m.files[0].name = seal_name("b.txt");
    m.files[1].name = seal_name("A.txt");
    m.files[1].link_target = Some(seal_name("b.txt"));
    m.filenames_encrypted = true;
    let sealed = m.files[0].name.clone();
    assert_eq!(m.decrypt_filenames_checked(&[1, 2, 3]), Err(CryptoError::BadKeyLength));
    assert!(m.filenames_encrypted);
    assert_eq!(m.files[0].name, sealed);
    m.decrypt_filenames_checked(&KEY).unwrap();
    assert_eq!(m.files[0].name, "A.txt");
    let mut bad = sample_manifest();
    bad.files[0].name = "@@@".to_string();
    bad.filenames_encrypted = true;
    assert_eq!(bad.decrypt_filenames_checked(&[1, 2, 3]), Err(CryptoError::Base64));
}
