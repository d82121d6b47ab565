use hammer2::fs::{
    enc_algo, enc_level, HAMMER2_CHECK_DEFAULT, HAMMER2_COMP_DEFAULT, HAMMER2_UUID_STRING,
};
use hammer2::subs::{
    conv_time_to_timespec, conv_timespec_to_time, conv_unix_xid_to_uuid,
    conv_unix_xid_to_uuid_bytes, conv_uuid_to_unix_xid, conv_uuid_to_unix_xid_from_bytes, dirhash,
    get_blockref_type_string, get_check_mode_string, get_comp_mode_string, get_hammer2_mounts,
    get_inode_type_string, get_pfs_subtype_string, get_pfs_type_string, get_time_string,
    get_time_string_impl, get_uuid_from_str, get_uuid_string, get_uuid_string_from_bytes,
    try_get_time_string, UuidError,
};

#[test]
fn test_get_time_string() {
    assert_eq!(get_time_string(0), "01-Jan-1970 00:00:00");
    assert_eq!(get_time_string(1_000_000), "01-Jan-1970 00:00:01");
}

#[test]
fn test_get_time_string_impl() {
    assert_eq!(
        match get_time_string_impl(0, -25200) {
            Ok(v) => v,
            Err(e) => panic!("{e:?}"),
        },
        "31-Dec-1969 17:00:00".to_string()
    ); // -7
    assert_eq!(
        match get_time_string_impl(0, 32400) {
            Ok(v) => v,
            Err(e) => panic!("{e:?}"),
        },
        "01-Jan-1970 09:00:00".to_string()
    ); // +9
}

#[test]
fn test_try_get_time_string() {
    assert_eq!(try_get_time_string(86_400_000_000), Some("02-Jan-1970 00:00:00".to_string()));
    assert_eq!(try_get_time_string(u64::MAX), None);
}

#[test]
fn test_get_check_mode_string() {
    let l1 = enc_level(1);
    let l0 = enc_level(0);
    let def_algo = enc_algo(HAMMER2_CHECK_DEFAULT);
    assert_eq!(get_check_mode_string(l1 | def_algo), "xxhash64:1");
    assert_eq!(get_check_mode_string(l1 | 0xf), "unknown(15):1");
    assert_eq!(get_check_mode_string(l0 | def_algo), "xxhash64");
    assert_eq!(get_check_mode_string(l0 | 0xf), "unknown(15)");
}

#[test]
fn test_get_comp_mode_string() {
    let l1 = enc_level(1);
    let l0 = enc_level(0);
    let def_algo = enc_algo(HAMMER2_COMP_DEFAULT);
    assert_eq!(get_comp_mode_string(l1 | def_algo), "lz4:1");
    assert_eq!(get_comp_mode_string(l1 | 0xf), "unknown(15):1");
    assert_eq!(get_comp_mode_string(l0 | def_algo), "lz4:default");
    assert_eq!(get_comp_mode_string(l0 | 0xf), "unknown(15):default");
}

#[test]
fn test_type_strings() {
    assert_eq!(get_inode_type_string(1), "DIR");
    assert_eq!(get_inode_type_string(2), "FILE");
    assert_eq!(get_inode_type_string(0), "UNKNOWN");
    assert_eq!(get_inode_type_string(200), "ILLEGAL");
    assert_eq!(get_pfs_type_string(0x08), "SUPROOT");
    assert_eq!(get_pfs_subtype_string(1), "SNAPSHOT");
    assert_eq!(get_blockref_type_string(1), "inode");
    assert_eq!(get_blockref_type_string(255), "volume");
}

#[test]
fn test_dirhash() {
    let l = [
        ("", 0x8000_0000_0000_8000),
        (".", 0x8000_0000_bc10_8000),
        ("-", 0x8000_0000_5cb4_8000),
        ("_", 0x8000_0000_e8ed_8000),
        ("~", 0x8000_0000_37e6_8000),
        ("A", 0xe16d_cdee_2c83_8000),
        ("hammer2", 0x9f2f_13b5_8c9a_8000),
        (
            "This code is derived from software contributed to The DragonFly Project",
            0xf8df_95ed_6d32_8000,
        ),
    ];
    for t in &l {
        assert_eq!(dirhash(t.0.as_bytes()), t.1, "{}", t.0);
    }
}

#[test]
fn test_dirhash_visible_and_low_bits() {
    for name in ["a", "ab", "hammer2", "x.y.z"] {
        let h = dirhash(name.as_bytes());
        assert_ne!(h & 0x8000_0000_0000_0000, 0, "{name}");
        assert_eq!(h & 0xffff, 0x8000, "{name}");
    }
}

#[test]
fn test_uuid_parse_str() {
    let u = match uuid::Uuid::parse_str(HAMMER2_UUID_STRING) {
        Ok(v) => v,
        Err(e) => panic!("{e}"),
    };
    assert_eq!(u.to_string(), HAMMER2_UUID_STRING);
}

#[test]
fn test_get_uuid_string() {
    let u = match get_uuid_from_str(HAMMER2_UUID_STRING) {
        Ok(v) => v,
        Err(e) => panic!("{e:?}"),
    };
    assert_eq!(get_uuid_string(&u), HAMMER2_UUID_STRING);
    assert_eq!(get_uuid_string_from_bytes(&u[..]), HAMMER2_UUID_STRING);
}

#[test]
fn test_get_uuid_from_str_media_order() {
    let u = match get_uuid_from_str("00112233-4455-6677-8899-aabbccddeeff") {
        Ok(v) => v,
        Err(e) => panic!("{e:?}"),
    };
    assert_eq!(
        u,
        [0x33, 0x22, 0x11, 0x00, 0x55, 0x44, 0x77, 0x66, 0x88, 0x99, 0xaa, 0xbb, 0xcc, 0xdd, 0xee, 0xff]
    );
    assert_eq!(get_uuid_from_str("not a uuid"), Err(UuidError));
}

#[test]
fn test_conv_uuid_to_unix_xid() {
    let u = match get_uuid_from_str(HAMMER2_UUID_STRING) {
        Ok(v) => v,
        Err(e) => panic!("{e:?}"),
    };
    let node = &u[10..];
    assert_eq!(node.len(), 6);
    let xid = (u32::from(node[5]) << 24)
        + (u32::from(node[4]) << 16)
        + (u32::from(node[3]) << 8)
        + u32::from(node[2]);
    assert_eq!(conv_uuid_to_unix_xid(&u), xid);
    assert_eq!(conv_uuid_to_unix_xid_from_bytes(&u[..]), xid);
    // node: 01 30 1b b8 a9 f5
    let xid = (0xf5_u32 << 24) + (0xa9_u32 << 16) + (0xb8_u32 << 8) + 0x1b_u32;
    assert_eq!(conv_uuid_to_unix_xid(&u), xid);
    assert_eq!(conv_uuid_to_unix_xid_from_bytes(&u[..]), xid);
}

#[test]
fn test_conv_unix_xid_to_uuid() {
    let xid = 0x1234_5678;
    let b = conv_unix_xid_to_uuid_bytes(xid);
    let u = conv_unix_xid_to_uuid(xid);
    assert_eq!(b, u);
    let b = &u;
    for x in b.iter().take(12) {
        assert_eq!(*x, 0);
    }
    assert!(b[12] == 0x12 || b[12] == 0x78);
    assert!(b[13] == 0x34 || b[13] == 0x56);
    assert!(b[14] == 0x56 || b[14] == 0x34);
    assert!(b[15] == 0x78 || b[15] == 0x12);
}

#[test]
fn test_conv_time_roundtrip() {
    assert_eq!(conv_timespec_to_time(conv_time_to_timespec(1_234_567_890)), 1_234_000_000);
    assert_eq!(conv_time_to_timespec(0), 0);
}

#[test]
fn test_get_hammer2_mounts() {
    let infos = vec![
        ("ext4".to_string(), "/".to_string(), "/dev/sda1".to_string()),
        ("hammer2".to_string(), "/mnt".to_string(), "/dev/sdb1@DATA".to_string()),
        ("tmpfs".to_string(), "/tmp".to_string(), "tmpfs".to_string()),
        ("hammer2".to_string(), "/data".to_string(), "/dev/sdc1".to_string()),
    ];
    let v = get_hammer2_mounts(&infos);
    assert_eq!(v, ["/mnt", "/data"]);
}
