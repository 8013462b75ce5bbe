use cheatlib::arm64;
use cheatlib::scanner;
use cheatlib::scanner::Scanner;
use cheatlib::base64;
use cheatlib::kitty_utils;
use cheatlib::maps::ProcMap;
use cheatlib::mono_string;
use cheatlib::patch::MemoryBackup;
use cheatlib::patch::MemoryPatch;
use cheatlib::str_enc::StrEnc;
use cheatlib::tools;

#[test]
fn test_bit_bits() {
    assert_eq!(arm64::bit_from(0b1010, 1), 1); // second bit is 1
    assert_eq!(arm64::bits_from(0b1111000, 3, 4), 0b1111);
}

#[test]
fn test_encode_decode() {
    let original = "Hello, World!";
    let encoded = base64::base64_encode_string(original, false);
    let decoded = base64::base64_decode(&encoded, false).unwrap();
    assert_eq!(original, decoded);
}

#[test]
fn test_base64_exact_values() {
    assert_eq!(base64::base64_encode(b"M", false), "TQ==");
    assert_eq!(base64::base64_encode(b"Ma", false), "TWE=");
    assert_eq!(base64::base64_encode(b"Man", false), "TWFu");
    assert_eq!(base64::base64_encode(b"M", true), "TQ..");
    let err = base64::base64_decode("ab!d", false);
    assert!(err.is_err());
}

#[test]
fn test_base64_linebreaks() {
    let long = "a".repeat(100);
    let pem = base64::base64_encode_pem(&long);
    let first_line = pem.split('\n').next().unwrap();
    assert_eq!(first_line.len(), 64);
    let rejoined: String = pem.split('\n').collect();
    assert_eq!(base64::base64_decode(&pem, true).unwrap(), long);
    assert_eq!(rejoined, base64::base64_encode_string(&long, false));
}

#[test]
fn test_string_to_offset() {
    assert_eq!(tools::string_to_offset("0x1000"), 0x1000);
    assert_eq!(tools::string_to_offset("1000"), 0x1000);
}

#[test]
fn test_string_to_offset_rejects() {
    assert_eq!(tools::string_to_offset("zz"), 0);
    assert_eq!(tools::string_to_offset(""), 0);
    assert_eq!(tools::string_to_offset("0x"), 0);
    assert_eq!(tools::string_to_offset("ffffffffffffffffff"), 0); // overflows
}

#[test]
fn test_calc_md5() {
    let hash = tools::calc_md5("Hello, World!");
    assert_eq!(hash, "65a8e27d8879283831b664bd8b7f0ad4");
}

#[test]
fn test_random_string() {
    let s = tools::random_string(10);
    assert_eq!(s.len(), 10);
    assert!(s.chars().all(|c| c.is_ascii_alphanumeric()));
}

#[test]
fn test_calculate_checksum() {
    assert_eq!(tools::calculate_checksum(&[1, 2, 3, 250]), 256);
    assert_eq!(tools::calculate_checksum(&[]), 0);
}

#[test]
fn test_hex_round_trip() {
    let bytes = vec![0xde, 0xad, 0xbe, 0xef, 0x00, 0x7f];
    let hex = kitty_utils::to_hex(&bytes);
    assert_eq!(hex, "deadbeef007f");
    assert_eq!(kitty_utils::from_hex(&hex), bytes);
    // a malformed pair decodes to zero, as the loose parser always did
    assert_eq!(kitty_utils::from_hex("zz41"), vec![0, 0x41]);
}

#[test]
fn test_trim_string() {
    let mut s = String::from(" a b\t c\r\nd ");
    kitty_utils::trim_string(&mut s);
    assert_eq!(s, "abcd");
}

#[test]
fn test_validate_hex_string() {
    let mut s = String::from("0xDE AD");
    assert!(kitty_utils::validate_hex_string(&mut s));
    assert_eq!(s, "DEAD");

    let mut odd = String::from("0xABC");
    assert!(!kitty_utils::validate_hex_string(&mut odd));

    let mut bad = String::from("0xG1");
    assert!(!kitty_utils::validate_hex_string(&mut bad));

    let mut empty = String::new();
    assert!(!kitty_utils::validate_hex_string(&mut empty));
}

#[test]
fn test_utf16_conversions() {
    let le = mono_string::utf8_to_utf16le("abc", false);
    assert_eq!(le, vec![97, 98, 99]);
    assert_eq!(mono_string::utf16_to_utf8(&le), "abc");

    let le_bom = mono_string::utf8_to_utf16le("hi", true);
    assert_eq!(le_bom, vec![0xfeff, 104, 105]);
    assert_eq!(mono_string::utf16le_to_utf8(&le_bom), "hi");

    let be = mono_string::utf8_to_utf16be("hi", true);
    assert_eq!(be, vec![0xfffe, 104 << 8, 105 << 8]);
    assert_eq!(mono_string::utf16be_to_utf8(&be), "hi");
}

#[test]
fn test_str_enc() {
    let enc = StrEnc::new(b"hello", b"\0\0\0\0\0\0\0");
    assert_eq!(enc.as_bytes(), b"hello");
    assert_eq!(enc.as_str().unwrap(), "hello");
    assert_eq!(enc.to_string(), "hello");

    let masked = StrEnc::new(b"hello", b"key12345");
    let expect: Vec<u8> = b"hello".iter().zip(b"key12".iter()).map(|(a, b)| a ^ b).collect();
    assert_eq!(masked.as_bytes(), expect.as_slice());
}

#[test]
fn test_proc_map_basics() {
    let m = ProcMap::new();
    assert!(!m.is_valid());
    assert!(m.is_unknown());
}

#[test]
fn test_memory_backup() {
    let b = MemoryBackup::from_absolute(0x1000, 4, vec![1, 2, 3, 4]);
    assert!(b.is_valid());
    assert_eq!(b.get_backup_size(), 4);
    assert_eq!(b.get_target_address(), 0x1000);
    assert_eq!(b.get_orig_bytes(), "01020304");

    let invalid = MemoryBackup::from_absolute(0, 4, vec![1, 2, 3, 4]);
    assert!(!invalid.is_valid());
}

#[test]
fn test_memory_patch() {
    let p = MemoryPatch::create_with_hex_absolute(0x2000, "0xDEADBEEF", vec![9, 9, 9, 9]);
    assert!(p.is_valid());
    assert_eq!(p.get_patch_size(), 4);
    assert_eq!(p.get_target_address(), 0x2000);
    assert_eq!(p.get_patch_bytes(), "deadbeef");
    assert_eq!(p.get_orig_bytes(), "09090909");

    let bad = MemoryPatch::create_with_hex_absolute(0x2000, "0xXYZ", vec![]);
    assert!(!bad.is_valid());

    let raw = MemoryPatch::from_absolute(0x3000, &[0xaa, 0xbb], vec![1]);
    assert!(raw.is_valid());
    assert_eq!(raw.get_patch_bytes(), "aabb");
    assert_eq!(raw.get_orig_bytes(), "0100"); // padded to the patch size
}

#[test]
fn test_decode_adr_imm() {
    // ADR X0, #+8: immhi = 2, immlo = 0
    let adr: u32 = 0x1000_0000 | (2 << 5);
    let mut imm: i64 = -1;
    assert!(arm64::decode_adr_imm(adr, &mut imm));
    assert_eq!(imm, 8);

    let not_adr: u32 = 0xd503_201f;
    let mut unchanged: i64 = 77;
    assert!(!arm64::decode_adr_imm(not_adr, &mut unchanged));
    assert_eq!(unchanged, 77);
}

#[test]
fn test_decode_addsub_imm() {
    // ADD X0, X0, #5
    let ins: u32 = 0x9100_0000 | (5 << 10);
    assert_eq!(arm64::decode_addsub_imm(ins), 5);
    // the same with the 12-bit shift
    let shifted: u32 = ins | (1 << 22);
    assert_eq!(arm64::decode_addsub_imm(shifted), 5 << 12);
}

#[test]
fn test_ldst_predicates() {
    // LDR X1, [X2, #16]: load/store with unsigned offset, size 3
    let ins: u32 = 0xf940_0000 | (2 << 10) | (2 << 5) | 1;
    assert!(arm64::is_insn_ldst_uimm(ins));
    assert!(arm64::is_insn_ld(ins));
    let mut imm: i32 = 0;
    assert!(arm64::decode_ldrstr_uimm(ins, &mut imm));
    assert_eq!(imm, 16);
}

#[test]
fn test_scanner_masked_search() {
    let region: Vec<u8> = vec![0x10, 0x20, 0x30, 0x40, 0x20, 0x31, 0x40, 0x99];
    let start: usize = 0x1000;
    let end = start + region.len();

    // 'x' positions must match, '?' is a wildcard
    let hit = scanner::find_bytes_first(&region, start, end, &[0x20, 0x00, 0x40], "x?x");
    assert_eq!(hit, start + 1);
    let none = scanner::find_bytes_first(&region, start, end, &[0xaa, 0xbb], "xx");
    assert_eq!(none, 0);

    let all = scanner::find_bytes_all(&region, start, end, &[0x20, 0x00, 0x40], "x?x");
    assert_eq!(all, vec![start + 1, start + 4]);

    let verbatim = scanner::find_data_first(&region, start, end, &[0x30, 0x40]);
    assert_eq!(verbatim, start + 2);
    assert_eq!(scanner::find_data_all(&region, start, end, &[0x40]), vec![start + 3, start + 6]);
}

#[test]
fn test_scanner_hex_search() {
    let region: Vec<u8> = vec![0xde, 0xad, 0xbe, 0xef, 0xde, 0xad];
    let s = Scanner::from_range(0x2000, 0x2000 + region.len());
    assert_eq!(s.find_hex_first(&region, "0xDEAD", "xx"), Some(0x2000));
    assert_eq!(s.find_hex_all(&region, "0xDEAD", "xx"), vec![0x2000, 0x2004]);
    assert_eq!(s.find_hex_first(&region, "0xBEEF", "xx"), Some(0x2002));
    // a pattern whose length disagrees with its mask finds nothing
    assert_eq!(s.find_hex_first(&region, "0xDEAD", "x"), None);
    assert_eq!(s.find_bytes_first(&region, &[0xad, 0xbe], "xx"), Some(0x2001));
}

#[test]
fn test_hex_dump() {
    let data = vec![0x41u8, 0x42, 0x00, 0xff];
    let dump = kitty_utils::hex_dump(&data, 4, true);
    assert_eq!(dump, "00000000: 41 42 00 FF  AB..\n");

    let two_rows = kitty_utils::hex_dump(&data, 2, false);
    assert_eq!(two_rows, "00000000: 41 42 \n00000002: 00 FF \n");

    // a short last row is padded with blanks before the text column
    let padded = kitty_utils::hex_dump(&[0x41u8], 2, true);
    assert_eq!(padded, "00000000: 41     A\n");

    assert_eq!(kitty_utils::hex_dump(&[], 4, true), "");
    assert_eq!(kitty_utils::hex_dump(&data, 0, true), "");
}

#[test]
fn test_parse_maps_line() {
    let line = "7f0000000000-7f0000002000 r-xp 00001000 fd:00 1234  /usr/lib/some lib.so";
    let m = cheatlib::maps::parse_maps_line(line).unwrap();
    assert_eq!(m.start_address, 0x7f0000000000);
    assert_eq!(m.end_address, 0x7f0000002000);
    assert_eq!(m.length, 0x2000);
    assert_eq!(m.offset, 0x1000);
    assert!(m.readable && !m.writeable && m.executable);
    assert!(m.is_private && !m.is_shared);
    assert!(!m.is_ro && !m.is_rw && m.is_rx);
    assert_eq!(m.protection, 5);
    assert_eq!(m.dev, "fd:00");
    assert_eq!(m.inode, 1234);
    assert_eq!(m.pathname, "/usr/lib/some lib.so");
    assert!(m.is_valid());
    assert!(!m.is_unknown());

    let ro = cheatlib::maps::parse_maps_line("1000-2000 r--p 00000000 00:00 0").unwrap();
    assert!(ro.is_ro);
    assert!(ro.is_unknown());

    assert!(cheatlib::maps::parse_maps_line("garbage").is_none());
    assert!(cheatlib::maps::parse_maps_line("").is_none());
    assert!(cheatlib::maps::parse_maps_line("10zz-2000 r--p 0 00:00 0").is_none());
}
