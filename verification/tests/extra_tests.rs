use hammer2::extra::{new_timeval, Timeval};
use hammer2::fs::{
    Hammer2Blockref, Hammer2BlockrefCheckFreemap, Hammer2BlockrefCheckIscsi,
    Hammer2BlockrefCheckSha192, Hammer2BlockrefCheckSha256, Hammer2BlockrefCheckSha512,
    Hammer2BlockrefCheckXxhash64, Hammer2BlockrefEmbedStats, Hammer2Blockset, Hammer2DirentHead,
    Hammer2InodeData, Hammer2InodeMeta, HAMMER2_BREF_TYPE_DATA, HAMMER2_INODE_MAXNAME,
    HAMMER2_OPFLAG_DIRECTDATA, HAMMER2_OPFLAG_PFSROOT, HAMMER2_SET_COUNT,
};

// A record read out of an area is the record its bytes hold; a record
// stored into an area is the one read back from it.

#[test]
fn test_blockref_embed_as() {
    let bref = Hammer2Blockref::new_empty();
    let h: Hammer2DirentHead = bref.embed_as();
    assert_eq!(h, Hammer2DirentHead { inum: 0, namlen: 0, typ: 0 });
    let s: Hammer2BlockrefEmbedStats = bref.embed_as();
    assert_eq!(s, Hammer2BlockrefEmbedStats { data_count: 0, inode_count: 0 });

    let mut bref = Hammer2Blockref::new_empty();
    bref.embed = [1, 2, 0, 0, 0, 0, 0, 0, 7, 0, 4, 0, 0, 0, 0, 0];
    let h: Hammer2DirentHead = bref.embed_as();
    assert_eq!(h, Hammer2DirentHead { inum: 0x0201, namlen: 7, typ: 4 });
    let s: Hammer2BlockrefEmbedStats = bref.embed_as();
    assert_eq!(s, Hammer2BlockrefEmbedStats { data_count: 0x0201, inode_count: 0x0004_0007 });
}

#[test]
fn test_blockref_embed_as_mut() {
    let mut bref = Hammer2Blockref::new_empty();
    let h = Hammer2DirentHead { inum: 0x1122_3344_5566_7788, namlen: 0x0102, typ: 1 };
    bref.embed_as_mut(&h);
    assert_eq!(bref.embed_as::<Hammer2DirentHead>(), h);
    assert_eq!(bref.embed[..11], [0x88, 0x77, 0x66, 0x55, 0x44, 0x33, 0x22, 0x11, 0x02, 0x01, 1]);

    let mut bref = Hammer2Blockref::new_empty();
    let s = Hammer2BlockrefEmbedStats { data_count: 5, inode_count: 6 };
    bref.embed_as_mut(&s);
    assert_eq!(bref.embed_as::<Hammer2BlockrefEmbedStats>(), s);
    assert_eq!(bref.embed, [5, 0, 0, 0, 0, 0, 0, 0, 6, 0, 0, 0, 0, 0, 0, 0]);
}

#[test]
fn test_blockref_check_as() {
    let bref = Hammer2Blockref::new_empty();
    assert_eq!(bref.check_as::<Hammer2BlockrefCheckIscsi>(), Hammer2BlockrefCheckIscsi { value: 0 });
    assert_eq!(
        bref.check_as::<Hammer2BlockrefCheckXxhash64>(),
        Hammer2BlockrefCheckXxhash64 { value: 0 }
    );
    assert_eq!(bref.check_as::<Hammer2BlockrefCheckSha192>().data, [0; 24]);
    assert_eq!(bref.check_as::<Hammer2BlockrefCheckSha256>().data, [0; 32]);
    assert_eq!(bref.check_as::<Hammer2BlockrefCheckSha512>().data, [0; 64]);
    assert_eq!(
        bref.check_as::<Hammer2BlockrefCheckFreemap>(),
        Hammer2BlockrefCheckFreemap { icrc32: 0, bigmask: 0, avail: 0 }
    );

    let mut bref = Hammer2Blockref::new_empty();
    for (i, b) in bref.check.iter_mut().enumerate() {
        *b = i as u8;
    }
    assert_eq!(bref.check_as::<Hammer2BlockrefCheckIscsi>().value, 0x0302_0100);
    assert_eq!(bref.check_as::<Hammer2BlockrefCheckXxhash64>().value, 0x0706_0504_0302_0100);
    assert_eq!(bref.check_as::<Hammer2BlockrefCheckSha192>().data[23], 23);
    assert_eq!(bref.check_as::<Hammer2BlockrefCheckSha256>().data[31], 31);
    assert_eq!(bref.check_as::<Hammer2BlockrefCheckSha512>().data[63], 63);
    let f = bref.check_as::<Hammer2BlockrefCheckFreemap>();
    assert_eq!((f.icrc32, f.bigmask, f.avail), (0x0302_0100, 0x0706_0504, 0x0f0e_0d0c_0b0a_0908));
}

#[test]
fn test_blockref_check_as_mut() {
    let mut bref = Hammer2Blockref::new_empty();
    let v = Hammer2BlockrefCheckIscsi { value: 0xdead_beef };
    bref.check_as_mut(&v);
    assert_eq!(bref.check_as::<Hammer2BlockrefCheckIscsi>(), v);

    let v = Hammer2BlockrefCheckXxhash64 { value: 0x0123_4567_89ab_cdef };
    bref.check_as_mut(&v);
    assert_eq!(bref.check_as::<Hammer2BlockrefCheckXxhash64>(), v);
    assert_eq!(bref.check[..8], [0xef, 0xcd, 0xab, 0x89, 0x67, 0x45, 0x23, 0x01]);

    let v = Hammer2BlockrefCheckSha192 { data: [7; 24] };
    bref.check_as_mut(&v);
    assert_eq!(bref.check_as::<Hammer2BlockrefCheckSha192>().data, v.data);

    let v = Hammer2BlockrefCheckSha256 { data: [8; 32] };
    bref.check_as_mut(&v);
    assert_eq!(bref.check_as::<Hammer2BlockrefCheckSha256>().data, v.data);

    let v = Hammer2BlockrefCheckSha512 { data: [9; 64] };
    bref.check_as_mut(&v);
    assert_eq!(bref.check_as::<Hammer2BlockrefCheckSha512>().data, v.data);
    assert_eq!(bref.check, [9; 64]);

    let v = Hammer2BlockrefCheckFreemap { icrc32: 1, bigmask: 2, avail: 3 };
    bref.check_as_mut(&v);
    assert_eq!(bref.check_as::<Hammer2BlockrefCheckFreemap>(), v);
}

#[test]
fn test_blockset_as_blockref() {
    let bset = Hammer2Blockset::new();
    assert_eq!(bset.blockref.len(), HAMMER2_SET_COUNT);
    assert_eq!(bset.as_blockref().len(), HAMMER2_SET_COUNT);
    for i in 0..HAMMER2_SET_COUNT {
        assert_eq!(format!("{:?}", bset.blockref[i]), format!("{:?}", bset.as_blockref()[i]));
    }

    let mut bset = Hammer2Blockset::new();
    bset.blockref[2] = Hammer2Blockref::new(HAMMER2_BREF_TYPE_DATA);
    bset.blockref[2].key = 42;
    assert_eq!(bset.as_blockref()[2].typ, HAMMER2_BREF_TYPE_DATA);
    assert_eq!(bset.as_blockref()[2].key, 42);
    assert_eq!(bset.as_blockref()[1].key, 0);
}

#[test]
fn test_inode_meta_has_direct_data() {
    let ipmeta = Hammer2InodeMeta { ..Default::default() };
    assert!(!ipmeta.has_direct_data());
    let ipmeta = Hammer2InodeMeta { op_flags: HAMMER2_OPFLAG_PFSROOT, ..Default::default() };
    assert!(!ipmeta.has_direct_data());
    let ipmeta = Hammer2InodeMeta { op_flags: HAMMER2_OPFLAG_DIRECTDATA, ..Default::default() };
    assert!(ipmeta.has_direct_data());
    let ipmeta = Hammer2InodeMeta {
        op_flags: HAMMER2_OPFLAG_DIRECTDATA | HAMMER2_OPFLAG_PFSROOT,
        ..Default::default()
    };
    assert!(ipmeta.has_direct_data());
}

#[test]
fn test_inode_meta_ctime_as_timeval() {
    let ipmeta = Hammer2InodeMeta { ctime: 1_000_001, ..Default::default() };
    assert_eq!(ipmeta.ctime_as_timeval(), Timeval { tv_sec: 1, tv_usec: 1 });
}

#[test]
fn test_inode_meta_atime_as_timeval() {
    let ipmeta = Hammer2InodeMeta { atime: 1_000_001, ..Default::default() };
    assert_eq!(ipmeta.atime_as_timeval(), Timeval { tv_sec: 1, tv_usec: 1 });
}

#[test]
fn test_inode_meta_mtime_as_timeval() {
    let ipmeta = Hammer2InodeMeta { mtime: 1_000_001, ..Default::default() };
    assert_eq!(ipmeta.mtime_as_timeval(), Timeval { tv_sec: 1, tv_usec: 1 });
}

#[test]
fn test_inode_meta_get_utimes_timeval() {
    let ipmeta = Hammer2InodeMeta { atime: 2_500_000, mtime: 3_000_007, ..Default::default() };
    assert_eq!(
        ipmeta.get_utimes_timeval(),
        [Timeval { tv_sec: 2, tv_usec: 500_000 }, Timeval { tv_sec: 3, tv_usec: 7 }]
    );
    assert_eq!(new_timeval(4, 5), Timeval { tv_sec: 4, tv_usec: 5 });
}

#[test]
fn test_inode_data_u_as() {
    let ipdata = Hammer2InodeData::new();
    let bset: Hammer2Blockset = ipdata.u_as();
    for b in bset.blockref.iter() {
        assert_eq!(b.typ, 0);
        assert_eq!(b.key, 0);
        assert_eq!(b.data_off, 0);
    }

    let mut ipdata = Hammer2InodeData::new();
    ipdata.u[128] = HAMMER2_BREF_TYPE_DATA;
    ipdata.u[128 + 8] = 0x99;
    let bset: Hammer2Blockset = ipdata.u_as();
    assert_eq!(bset.blockref[1].typ, HAMMER2_BREF_TYPE_DATA);
    assert_eq!(bset.blockref[1].key, 0x99);
    assert_eq!(bset.blockref[0].typ, 0);
}

#[test]
fn test_inode_data_u_as_mut() {
    let mut ipdata = Hammer2InodeData::new();
    let mut bset = Hammer2Blockset::new();
    bset.blockref[3] = Hammer2Blockref::new(HAMMER2_BREF_TYPE_DATA);
    bset.blockref[3].key = 0x1234;
    ipdata.u_as_mut(&bset);
    assert_eq!(ipdata.u[3 * 128], HAMMER2_BREF_TYPE_DATA);
    assert_eq!(ipdata.u[3 * 128 + 8], 0x34);
    assert_eq!(ipdata.u[3 * 128 + 9], 0x12);
    let back: Hammer2Blockset = ipdata.u_as();
    assert_eq!(format!("{:?}", back), format!("{:?}", bset));
}

#[test]
fn test_inode_data_get_filename_string() {
    let ipdata = Hammer2InodeData::new();
    assert_eq!(
        match ipdata.get_filename_string() {
            Ok(v) => v,
            Err(e) => panic!("{e:?}"),
        },
        String::new()
    );

    for s in [String::new(), "A".to_string(), "A".repeat(HAMMER2_INODE_MAXNAME)] {
        let mut ipdata = Hammer2InodeData::new();
        ipdata.meta.name_len = match s.len().try_into() {
            Ok(v) => v,
            Err(e) => panic!("{e}"),
        };
        ipdata.filename[..s.len()].copy_from_slice(s.as_bytes());
        assert_eq!(
            match ipdata.get_filename_string() {
                Ok(v) => v,
                Err(e) => panic!("{e:?}"),
            },
            s
        );
    }
}

#[test]
fn test_inode_data_get_filename_string_invalid() {
    let mut ipdata = Hammer2InodeData::new();
    ipdata.meta.name_len = 2;
    ipdata.filename[0] = 0xff;
    ipdata.filename[1] = 0xfe;
    assert!(ipdata.get_filename_string().is_err());
}

#[test]
fn test_inode_data_to_string() {
    let u = hammer2::subs::get_uuid_from_str(hammer2::fs::HAMMER2_UUID_STRING).unwrap();
    let mut ipdata = Hammer2InodeData::new();
    ipdata.meta.name_len = 4;
    ipdata.filename[..4].copy_from_slice(b"DATA");
    ipdata.meta.pfs_clid = u;
    assert_eq!(
        ipdata.to_string(),
        format!(
            "DATA clid {} fsid 00000000-0000-0000-0000-000000000000",
            hammer2::fs::HAMMER2_UUID_STRING
        )
    );
    ipdata.filename[0] = 0xff;
    assert!(ipdata.to_string().starts_with("??? clid "));
}

#[test]
fn test_volume_data_get_crc() {
    let image = b"x123456789y";
    assert_eq!(hammer2::fs::Hammer2VolumeData::get_crc(image, 1, 9), 0xe306_9283);
    assert_eq!(hammer2::fs::Hammer2VolumeData::get_crc(image, 0, 3), crc32c::crc32c(b"x12"));
    assert_eq!(hammer2::fs::Hammer2VolumeData::get_crc(image, 4, 0), 0);
}
