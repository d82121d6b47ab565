use hammer2::errno::Errno;
use hammer2::fs::{
    enc_check, Hammer2Blockref, HAMMER2_BREF_TYPE_DATA, HAMMER2_BREF_TYPE_INODE,
    HAMMER2_CHECK_DISABLED, HAMMER2_CHECK_FREEMAP, HAMMER2_CHECK_ISCSI32, HAMMER2_CHECK_NONE,
    HAMMER2_CHECK_SHA192, HAMMER2_CHECK_XXHASH64,
};
use hammer2::hammer2::parse_mount_spec;
use hammer2::keys::{key_range_end, key_range_next};
use hammer2::ondisk::verify_media;
use hammer2::plan::split_volume_spec;
use hammer2::report::{hex0x_string, hex_string};
use hammer2::volume::{get_volume_data_offset, Volume};

fn bref_with_check(method: u8, check: &[u8]) -> Hammer2Blockref {
    let mut b = Hammer2Blockref::new(HAMMER2_BREF_TYPE_DATA);
    b.methods = enc_check(method);
    b.check[..check.len()].copy_from_slice(check);
    b
}

#[test]
fn test_verify_media_iscsi32() {
    // CRC-32C of "123456789" is 0xe3069283.
    let b = bref_with_check(HAMMER2_CHECK_ISCSI32, &0xe306_9283_u32.to_le_bytes());
    assert_eq!(verify_media(&b, b"123456789"), Ok(true));
    assert_eq!(verify_media(&b, b"123456780"), Ok(false));
    let b = bref_with_check(HAMMER2_CHECK_FREEMAP, &0xe306_9283_u32.to_le_bytes());
    assert_eq!(verify_media(&b, b"123456789"), Ok(true));
}

#[test]
fn test_verify_media_xxhash64() {
    // XXH64 of the empty input with seed 0.
    let b = bref_with_check(HAMMER2_CHECK_XXHASH64, &0xef46_db37_51d8_e999_u64.to_le_bytes());
    assert_eq!(verify_media(&b, b""), Ok(true));
    assert_eq!(verify_media(&b, b"x"), Ok(false));
}

#[test]
fn test_verify_media_sha() {
    let digest: [u8; 32] = [
        0xba, 0x78, 0x16, 0xbf, 0x8f, 0x01, 0xcf, 0xea, 0x41, 0x41, 0x40, 0xde, 0x5d, 0xae, 0x22,
        0x23, 0xb0, 0x03, 0x61, 0xa3, 0x96, 0x17, 0x7a, 0x9c, 0xb4, 0x10, 0xff, 0x61, 0xf2, 0x00,
        0x15, 0xad,
    ];
    let b = bref_with_check(HAMMER2_CHECK_SHA192, &digest);
    assert_eq!(verify_media(&b, b"abc"), Ok(true));
    assert_eq!(verify_media(&b, b"abd"), Ok(false));
}

#[test]
fn test_verify_media_other_methods() {
    let b = bref_with_check(HAMMER2_CHECK_NONE, &[1, 2, 3]);
    assert_eq!(verify_media(&b, b"anything"), Ok(true));
    let b = bref_with_check(HAMMER2_CHECK_DISABLED, &[1, 2, 3]);
    assert_eq!(verify_media(&b, b"anything"), Ok(true));
    let b = bref_with_check(9, &[]);
    assert_eq!(verify_media(&b, b"anything"), Err(Errno::EINVAL));
}

#[test]
fn test_key_ranges() {
    assert_eq!(key_range_end(0x100, 8), 0x1ff);
    assert_eq!(key_range_next(0x100, 8), 0x200);
    assert_eq!(key_range_end(0, 0), 0);
    assert_eq!(key_range_next(0, 0), 1);
    assert_eq!(key_range_next(0xff00_0000_0000_0000, 56), 0);
    assert_eq!(key_range_end(0xff00_0000_0000_0000, 56), u64::MAX);
}

#[test]
fn test_hex_strings() {
    assert_eq!(hex_string(0xab, 4), "00ab");
    assert_eq!(hex_string(0x1234, 2), "34");
    assert_eq!(hex0x_string(0xdead_beef), "0x00000000deadbeef");
}

#[test]
fn test_blockref_to_string() {
    let mut b = Hammer2Blockref::new(HAMMER2_BREF_TYPE_INODE);
    b.data_off = 0x1000;
    b.key = 0x20;
    b.keybits = 5;
    b.methods = 0x32;
    b.leaf_count = 7;
    b.mirror_tid = 1;
    b.modify_tid = 2;
    assert_eq!(
        b.to_string(),
        "inode 0000000000001000 0000000000000020/5 meth 32 leaf 7 mir 0000000000000001 mod 0000000000000002"
    );
}

#[test]
fn test_split_volume_spec() {
    assert_eq!(split_volume_spec("/dev/a:/dev/b@ROOT"), ["/dev/a", "/dev/b"]);
    assert_eq!(split_volume_spec("/dev/a"), ["/dev/a"]);
    assert_eq!(split_volume_spec("/dev/a::/dev/c"), ["/dev/a", "", "/dev/c"]);
}

#[test]
fn test_parse_mount_spec() {
    assert_eq!(parse_mount_spec("/dev/a@ROOT"), ("/dev/a", "ROOT"));
    assert_eq!(parse_mount_spec("/dev/a"), ("/dev/a", "DATA"));
    assert_eq!(parse_mount_spec("/dev/a@"), ("/dev/a", "DATA"));
}

#[test]
fn test_volume() {
    let v = Volume::new(3, "/dev/x", true, 0x8000_0000, 0x1000_0000);
    assert_eq!(v.get_id(), 3);
    assert_eq!(v.get_path(), "/dev/x");
    assert_eq!(v.get_offset(), 0x8000_0000);
    assert_eq!(v.get_size(), 0x1000_0000);
    assert_eq!(get_volume_data_offset(0), 0);
    assert_eq!(get_volume_data_offset(3), 3 * 0x8000_0000);
}
