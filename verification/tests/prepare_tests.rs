use hammer2::errno::Errno;
use hammer2::hammer2::mount_prepare;
use hammer2::ioctl::{IocVolume2, IocVolumeList2};
use hammer2::lz4::{compress, decompress};
use hammer2::option::CidAllocMode;
use hammer2::subs::DEBUFSIZE;

// What mounting decides before it opens a device.

#[test]
fn mount_prepare_empty_spec() {
    assert_eq!(mount_prepare("@DATA", &[]).err(), Some(Errno::EINVAL));
    assert_eq!(mount_prepare("", &[]).err(), Some(Errno::EINVAL));
}

#[test]
fn mount_prepare_bad_options() {
    assert_eq!(mount_prepare("/dev/x", &["--cidalloc", "xxx"]).err(), Some(Errno::EINVAL));
    assert_eq!(mount_prepare("/dev/x", &["-h"]).err(), Some(Errno::UnknownErrno));
}

#[test]
fn mount_prepare_splits_spec() {
    let (opt, fs, label) = mount_prepare("/dev/a:/dev/b@ROOT", &["--cidalloc", "linear"]).unwrap();
    assert_eq!(opt.cidalloc, CidAllocMode::Linear);
    assert_eq!(fs, "/dev/a:/dev/b");
    assert_eq!(label, "ROOT");
    let (_, fs, label) = mount_prepare("/dev/a", &[]).unwrap();
    assert_eq!(fs, "/dev/a");
    assert_eq!(label, "DATA");
}

#[test]
fn ioc_volume2_copy_path_keeps_fields() {
    let mut v = IocVolume2::new();
    v.id = 3;
    v.offset = 7;
    v.size = 9;
    v.copy_path(b"/dev/da0");
    assert_eq!(&v.path[..8], b"/dev/da0");
    assert!(v.path[8..].iter().all(|&x| x == 0));
    assert_eq!((v.id, v.offset, v.size), (3, 7, 9));
}

#[test]
fn ioc_volume_list2_copy_pfs_name_keeps_fields() {
    let mut l = IocVolumeList2::new();
    l.nvolumes = 2;
    l.version = 2;
    l.copy_pfs_name(b"DATA");
    assert_eq!(&l.pfs_name[..4], b"DATA");
    assert!(l.pfs_name[4..].iter().all(|&x| x == 0));
    assert_eq!((l.nvolumes, l.version), (2, 2));
}

#[test]
fn lz4_small_input_round_trips() {
    let b = vec![7u8; 1000];
    let c = compress(&b).unwrap();
    assert!(c.len() > 4);
    assert_eq!(decompress(&c, DEBUFSIZE).unwrap(), b);
}

#[test]
fn pfs_name_reads_back() {
    let mut p = hammer2::ioctl::IocPfs::new();
    p.name = [0x5a; 256];
    p.pfs_flags = 7;
    p.copy_name(b"DATA");
    assert_eq!(p.get_name(), Ok(b"DATA".to_vec()));
    assert_eq!(p.pfs_flags, 7);
    let long = [b'a'; 256];
    p.copy_name(&long);
    assert_eq!(p.get_name(), Ok(long.to_vec()));
    p.copy_name(&[0xff, 0xfe]);
    assert_eq!(p.get_name(), Err(hammer2::errno::Errno::EINVAL));
}
