use aes::cipher::{BlockEncrypt, BlockEncryptMut, KeyInit, KeyIvInit};
use base64::Engine;
use rsa::traits::PublicKeyParts;

use depotmanager::crypto::{
    adler32, aes256_cbc_decrypt, aes256_ecb_decrypt_block, decrypt_symmetric_name,
    rsa_encrypt_password, CryptoError,
};
use depotmanager::kv::{parse_binary_kv, parse_text_vdf, BinReader, KeyValue, KvError};
use depotmanager::machineid::{build_machine_id, random_seed, sha1_hex};
use depotmanager::msgs::steamid;
use depotmanager::msgs::{encode_packet, make_header, parse_packet, PacketError, RawPacket};

fn hex_bytes(s: &str) -> Vec<u8> {
    hex::decode(s).unwrap()
}

// ---------------------------------------------------------------- frames

#[test]
fn frame_roundtrip_gives_parts_back() {
    let header = vec![0x08, 0x01, 0x10, 0x02];
    let body = vec![1, 2, 3, 4, 5];
    let frame = encode_packet(5514, &header, &body);
    let parsed = parse_packet(&frame).unwrap().unwrap();
    assert_eq!(parsed, RawPacket { emsg: 5514, header, body });
}

#[test]
fn frame_layout_is_little_endian_with_proto_bit() {
    let frame = encode_packet(751, &[0xAA, 0xBB], &[0xCC]);
    assert_eq!(frame, vec![0xEF, 0x02, 0x00, 0x80, 0x02, 0x00, 0x00, 0x00, 0xAA, 0xBB, 0xCC]);
}

#[test]
fn frame_too_small_is_refused() {
    assert_eq!(parse_packet(&[1, 2, 3]), Err(PacketError::TooSmall(3)));
    assert_eq!(parse_packet(&[]), Err(PacketError::TooSmall(0)));
}

#[test]
fn frame_without_proto_bit_is_skipped() {
    let data = [0x01, 0x00, 0x00, 0x00, 0x00, 0x00, 0x00, 0x00, 0x09];
    assert_eq!(parse_packet(&data), Ok(None));
}

#[test]
fn frame_header_past_end_is_truncated() {
    let data = [0x01, 0x00, 0x00, 0x80, 0x10, 0x00, 0x00, 0x00, 0x01, 0x02];
    assert_eq!(parse_packet(&data), Err(PacketError::Truncated));
    let negative = [0x01, 0x00, 0x00, 0x80, 0xFF, 0xFF, 0xFF, 0xFF];
    assert_eq!(parse_packet(&negative), Err(PacketError::Truncated));
}

#[test]
fn header_leaves_zero_ids_out() {
    let h = make_header(0, 0, 7, 9, None);
    assert_eq!(h.steamid, None);
    assert_eq!(h.client_sessionid, None);
    assert_eq!(h.jobid_source, Some(7));
    assert_eq!(h.jobid_target, Some(9));
    assert_eq!(h.eresult, None);
    let h2 = make_header(76561197960265728, -3, 1, 2, Some("Player.GetGameBadgeLevels#1".to_string()));
    assert_eq!(h2.steamid, Some(76561197960265728));
    assert_eq!(h2.client_sessionid, Some(-3));
    assert_eq!(h2.target_job_name.as_deref(), Some("Player.GetGameBadgeLevels#1"));
}

// ---------------------------------------------------------------- steam ids

#[test]
fn steamid_anonymous_and_individual() {
    assert_eq!(steamid::anonymous(), 0x01A0_0000_0000_0000);
    assert!(steamid::is_anonymous(steamid::anonymous()));
    let id = steamid::individual(22202);
    assert_eq!(id, 76561197960287930);
    assert!(!steamid::is_anonymous(id));
    assert_eq!(steamid::account_id(id), 22202);
}

#[test]
fn steamid_make_packs_fields() {
    assert_eq!(steamid::make(1, 1, 1, 5), 0x0110_0001_0000_0005);
    assert_eq!(steamid::make(1, 10, 0, 0), steamid::anonymous());
}

#[test]
fn steamid_id32_text() {
    assert_eq!(steamid::to_id32(steamid::individual(22202)), "STEAM_1:0:11101");
    assert_eq!(steamid::to_id32(steamid::individual(7)), "STEAM_1:1:3");
    assert_eq!(steamid::to_id32(0), "STEAM_1:0:0");
    assert_eq!(steamid::to_id32(steamid::individual(2469)), "STEAM_1:1:1234");
}

// ---------------------------------------------------------------- text VDF

#[test]
fn vdf_nested_blocks_and_values() {
    let text = b"\"appinfo\"\n{\n  \"appid\" \"570\"\n  \"common\" { \"name\" \"Dota 2\" }\n}\n";
    let root = parse_text_vdf(text).unwrap();
    assert_eq!(root.name, "");
    assert_eq!(root.children.len(), 1);
    let app = &root.children[0];
    assert_eq!(app.name, "appinfo");
    assert_eq!(app.get("APPID").unwrap().as_u32(), Some(570));
    assert_eq!(root.path("appinfo/common/name").unwrap().value_str(), Some("Dota 2"));
    assert!(root.path("appinfo/missing").is_none());
}

#[test]
fn vdf_escapes_comments_and_conditionals() {
    let text = b"// header comment\n\"a\" { \"k\" \"x\\\"y\\n\" [$WIN32] bare value }";
    let root = parse_text_vdf(text).unwrap();
    let a = root.get("a").unwrap();
    assert_eq!(a.children.len(), 2);
    assert_eq!(a.children[0].value_str(), Some("x\"y\n"));
    assert_eq!(a.children[1].name, "bare");
    assert_eq!(a.children[1].value_str(), Some("value"));
}

#[test]
fn vdf_errors() {
    assert_eq!(parse_text_vdf(b"\"a\" \"unterminated").map(|_| ()), Err(KvError::UnterminatedQuote));
    assert_eq!(parse_text_vdf(b"\"a\" {").map(|_| ()), Err(KvError::UnexpectedEof));
    assert_eq!(parse_text_vdf(b"\"lonely\"").map(|_| ()), Err(KvError::UnexpectedEof));
    assert_eq!(parse_text_vdf(b"").unwrap().children.len(), 0);
}

#[test]
fn keyvalue_numbers_and_flags() {
    assert_eq!(KeyValue::with_value("n", " 42 ").as_u32(), Some(42));
    assert_eq!(KeyValue::with_value("n", "+7").as_u64(), Some(7));
    assert_eq!(KeyValue::with_value("n", "-1").as_u32(), None);
    assert_eq!(KeyValue::with_value("n", "4294967296").as_u32(), None);
    assert_eq!(KeyValue::with_value("n", "4294967296").as_u64(), Some(4294967296));
    assert_eq!(KeyValue::new("n").as_u32(), None);
    assert!(KeyValue::with_value("b", "1").as_bool());
    assert!(KeyValue::with_value("b", "True").as_bool());
    assert!(!KeyValue::with_value("b", "TRUE").as_bool());
    assert!(!KeyValue::new("b").as_bool());
}

#[test]
fn keyvalue_duplicate_and_push() {
    let mut root = KeyValue::new("root");
    root.push_child(KeyValue::with_value("a", "1"));
    let copy = root.duplicate();
    assert_eq!(copy.name, "root");
    assert_eq!(copy.children.len(), 1);
    assert_eq!(copy.children[0].value_str(), Some("1"));
}

// ---------------------------------------------------------------- binary KV

#[test]
fn binary_kv_nested_values() {
    let mut data = vec![0x00];
    data.extend_from_slice(b"pkg\0");
    data.push(0x01);
    data.extend_from_slice(b"k\0v\0");
    data.push(0x02);
    data.extend_from_slice(b"n\0");
    data.extend_from_slice(&5u32.to_le_bytes());
    data.push(0x07);
    data.extend_from_slice(b"big\0");
    data.extend_from_slice(&u64::MAX.to_le_bytes());
    data.push(0x0A);
    data.extend_from_slice(b"neg\0");
    data.extend_from_slice(&(-12i64).to_le_bytes());
    data.push(0x08);
    data.push(0x08);
    let parsed = parse_binary_kv(&data).unwrap();
    assert!(parsed.floats.is_empty());
    let pkg = parsed.root.get("pkg").unwrap();
    assert_eq!(pkg.get("k").unwrap().value_str(), Some("v"));
    assert_eq!(pkg.get("n").unwrap().value_str(), Some("5"));
    assert_eq!(pkg.get("big").unwrap().value_str(), Some("18446744073709551615"));
    assert_eq!(pkg.get("neg").unwrap().value_str(), Some("-12"));
}

#[test]
fn binary_kv_float_leaf_is_reported() {
    let mut data = vec![0x03];
    data.extend_from_slice(b"f\0");
    data.extend_from_slice(&1.5f32.to_le_bytes());
    data.push(0x08);
    let parsed = parse_binary_kv(&data).unwrap();
    assert_eq!(parsed.floats.len(), 1);
    assert_eq!(parsed.floats[0].path, vec![0]);
    assert_eq!(parsed.floats[0].bytes, 1.5f32.to_le_bytes());
    assert_eq!(parsed.root.children[0].name, "f");
}

#[test]
fn binary_kv_wide_string() {
    let mut data = vec![0x05];
    data.extend_from_slice(b"w\0");
    data.extend_from_slice(&[b'h', 0, b'i', 0, 0, 0]);
    data.push(0x0B);
    let parsed = parse_binary_kv(&data).unwrap();
    assert_eq!(parsed.root.get("w").unwrap().value_str(), Some("hi"));
}

#[test]
fn binary_kv_errors() {
    assert_eq!(parse_binary_kv(&[]).map(|_| ()), Err(KvError::BinaryEof));
    assert_eq!(parse_binary_kv(&[0x01, b'a']).map(|_| ()), Err(KvError::UnterminatedString));
    assert_eq!(parse_binary_kv(&[0x02, b'a', 0, 1, 2]).map(|_| ()), Err(KvError::BinaryEof));
    assert_eq!(parse_binary_kv(&[0x05, b'a', 0, b'x', 0]).map(|_| ()), Err(KvError::UnterminatedWideString));
    assert_eq!(parse_binary_kv(&[0x09, b'a', 0]).map(|_| ()), Err(KvError::UnknownType(9)));
}

// ---------------------------------------------------------------- crypto

const KEY: &str = "000102030405060708090a0b0c0d0e0f101112131415161718191a1b1c1d1e1f";

#[test]
fn aes_ecb_known_vector() {
    let key = hex_bytes(KEY);
    let mut block = [0u8; 16];
    block.copy_from_slice(&hex_bytes("8ea2b7ca516745bfeafc49904b496089"));
    let plain = aes256_ecb_decrypt_block(&key, &block);
    assert_eq!(plain.to_vec(), hex_bytes("00112233445566778899aabbccddeeff"));
}

fn cbc_encrypt(key: &[u8], iv: &[u8; 16], plain: &[u8]) -> Vec<u8> {
    let enc = cbc::Encryptor::<aes::Aes256>::new_from_slices(key, iv).unwrap();
    let mut buf = vec![0u8; plain.len() + 16];
    buf[..plain.len()].copy_from_slice(plain);
    let ct = enc
        .encrypt_padded_mut::<aes::cipher::block_padding::Pkcs7>(&mut buf, plain.len())
        .unwrap();
    ct.to_vec()
}

#[test]
fn aes_cbc_roundtrip_and_errors() {
    let key = hex_bytes(KEY);
    let iv = [7u8; 16];
    let ct = cbc_encrypt(&key, &iv, b"depot payload");
    assert_eq!(aes256_cbc_decrypt(&key, &iv, &ct).unwrap(), b"depot payload".to_vec());
    assert_eq!(aes256_cbc_decrypt(&key[..16], &iv, &ct), Err(CryptoError::BadKeyLength));
    assert_eq!(aes256_cbc_decrypt(&key, &iv, &[]), Err(CryptoError::Decrypt));
    assert_eq!(aes256_cbc_decrypt(&key, &iv, &ct[..15]), Err(CryptoError::Decrypt));
}

fn encrypt_name(key: &[u8], iv: [u8; 16], name: &[u8]) -> String {
    let ecb = aes::Aes256::new_from_slice(key).unwrap();
    let mut head = aes::cipher::generic_array::GenericArray::clone_from_slice(&iv);
    ecb.encrypt_block(&mut head);
    let mut out = head.to_vec();
    out.extend(cbc_encrypt(key, &iv, name));
    base64::engine::general_purpose::STANDARD.encode(out)
}

#[test]
fn symmetric_name_roundtrip() {
    let key = hex_bytes(KEY);
    let encoded = encrypt_name(&key, [3u8; 16], b"bin/win64/game.exe\0\0");
    let wrapped = format!("{}\n{}", &encoded[..10], &encoded[10..]);
    assert_eq!(decrypt_symmetric_name(&wrapped, &key).unwrap(), "bin/win64/game.exe");
}

#[test]
fn symmetric_name_errors() {
    let key = hex_bytes(KEY);
    assert_eq!(decrypt_symmetric_name("!!!!", &key), Err(CryptoError::Base64));
    assert_eq!(decrypt_symmetric_name("AAAAAAAAAAA=", &key), Err(CryptoError::InvalidLength(8)));
    assert_eq!(decrypt_symmetric_name("", &key), Err(CryptoError::InvalidLength(0)));
}

#[test]
fn rsa_password_bad_hex() {
    assert_eq!(rsa_encrypt_password("zz", "010001", "pw"), Err(CryptoError::Hex));
    assert_eq!(rsa_encrypt_password("00ff", "0g", "pw"), Err(CryptoError::Hex));
}

#[test]
fn adler32_zero_seed_values() {
    assert_eq!(adler32(b""), 0);
    assert_eq!(adler32(b"abc"), 0x024A_0126);
    let big: Vec<u8> = (0..300).flat_map(|_| 0u8..=255).collect();
    assert_eq!(adler32(&big), 0xDDDA_72BB);
}

// ---------------------------------------------------------------- machine id

#[test]
fn sha1_hex_known_value() {
    assert_eq!(sha1_hex(b"abc"), "A9993E364706816ABA3E25717850C26C9CD0D89D");
}

#[test]
fn machine_id_is_binary_kv_of_three_hashes() {
    let seed = b"seed-bytes";
    let blob = build_machine_id(seed);
    assert_eq!(blob.len(), 155);
    let parsed = parse_binary_kv(&blob).unwrap();
    let obj = parsed.root.get("MessageObject").unwrap();
    let names: Vec<&str> = obj.children.iter().map(|c| c.name.as_str()).collect();
    assert_eq!(names, vec!["BB3", "FF2", "3B3"]);
    assert_eq!(obj.get("BB3").unwrap().value_str().unwrap(), sha1_hex(b"seed-bytes:bb3"));
    assert_eq!(obj.get("FF2").unwrap().value_str().unwrap(), sha1_hex(b"seed-bytes:ff2"));
    assert_eq!(obj.get("3B3").unwrap().value_str().unwrap(), sha1_hex(b"seed-bytes:3b3"));
}

#[test]
fn random_seed_is_32_bytes() {
    assert_eq!(random_seed().len(), 32);
}

#[test]
fn rsa_password_rejected_key() {
    // an even modulus is refused by the RSA crate
    assert_eq!(rsa_encrypt_password("00ff00", "010001", "pw"), Err(CryptoError::RsaKey));
}

#[test]
fn rsa_password_encrypts_for_the_key() {
    let private = rsa::RsaPrivateKey::new(&mut rand::thread_rng(), 512).unwrap();
    let n = hex::encode(private.n().to_bytes_be());
    let e = hex::encode(private.e().to_bytes_be());
    let b64 = rsa_encrypt_password(&n, &e, "hunter2").unwrap();
    let ct = base64::engine::general_purpose::STANDARD.decode(b64).unwrap();
    assert_eq!(ct.len(), 64);
    let plain = private.decrypt(rsa::Pkcs1v15Encrypt, &ct).unwrap();
    assert_eq!(plain, b"hunter2".to_vec());
}

#[test]
fn rsa_password_too_long_for_the_key() {
    let private = rsa::RsaPrivateKey::new(&mut rand::thread_rng(), 512).unwrap();
    let n = format!("0000{}", hex::encode(private.n().to_bytes_be()));
    let e = hex::encode(private.e().to_bytes_be());
    // 64-byte modulus (leading zero bytes do not count): at most 53 bytes fit
    let fits = "a".repeat(53);
    let b64 = rsa_encrypt_password(&n, &e, &fits).unwrap();
    let ct = base64::engine::general_purpose::STANDARD.decode(b64).unwrap();
    assert_eq!(ct.len(), 64);
    assert_eq!(rsa_encrypt_password(&n, &e, &"a".repeat(54)), Err(CryptoError::RsaEncrypt));
}

#[test]
fn bin_reader_past_end_is_an_error() {
    let data = [1u8, 2, 0];
    let mut r = BinReader { data: &data, pos: 5 };
    assert_eq!(r.cstr(), Err(KvError::UnterminatedString));
    assert_eq!(r.pos, 5);
    assert_eq!(r.wide(), Err(KvError::UnterminatedWideString));
    assert_eq!(r.pos, 5);
}
