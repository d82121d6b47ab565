// A small file system image built in memory: a volume header, the
// super-root, the PFS "DATA" with a file held in its inode, a file held in
// a data block, a symbolic link, and an indirect block with the directory
// entries. Media is handed to the library whenever an operation asks.
use hammer2::errno::Errno;
use hammer2::fs::{
    Hammer2Blockref, HAMMER2_BREF_TYPE_DATA, HAMMER2_BREF_TYPE_DIRENT, HAMMER2_BREF_TYPE_INDIRECT,
    HAMMER2_BREF_TYPE_INODE, HAMMER2_OBJTYPE_DIRECTORY, HAMMER2_OBJTYPE_REGFILE,
    HAMMER2_OBJTYPE_SOFTLINK, HAMMER2_OPFLAG_DIRECTDATA, HAMMER2_OPFLAG_PFSROOT,
    HAMMER2_PFSTYPE_MASTER, HAMMER2_PFSTYPE_SUPROOT, HAMMER2_VOLUME_ID_HBO,
};
use hammer2::hammer2::{Hammer2, Hammer2Error, S_IFDIR, S_IFREG};
use hammer2::ondisk::Ondisk;
use hammer2::option::Opt;
use hammer2::subs::dirhash;

const IMG_SIZE: usize = 0x2_0000;
const SROOT_OFF: u64 = 0x1_0000;
const PFS_OFF: u64 = 0x1_0400;
const HELLO_OFF: u64 = 0x1_0800;
const BIG_OFF: u64 = 0x1_0C00;
const DATA_OFF: u64 = 0x1_1000;
const LINK_OFF: u64 = 0x1_1400;
const INDIRECT_OFF: u64 = 0x1_1800;
const RADIX_1K: u64 = 10;
const BIG_SIZE: u64 = 1000;

fn put(img: &mut [u8], off: usize, b: &[u8]) {
    img[off..off + b.len()].copy_from_slice(b);
}

fn bref(typ: u8, key: u64, keybits: u8, off: u64) -> Hammer2Blockref {
    let mut b = Hammer2Blockref::new(typ);
    b.key = key;
    b.keybits = keybits;
    b.data_off = if off == 0 { 0 } else { off | RADIX_1K };
    b.mirror_tid = 1;
    b.modify_tid = 1;
    b
}

fn dirent(name: &str, inum: u64, typ: u8) -> Hammer2Blockref {
    let mut b = bref(HAMMER2_BREF_TYPE_DIRENT, dirhash(name.as_bytes()), 0, 0);
    b.embed[..8].copy_from_slice(&inum.to_le_bytes());
    b.embed[8..10].copy_from_slice(&(name.len() as u16).to_le_bytes());
    b.embed[10] = typ;
    b.check[..name.len()].copy_from_slice(name.as_bytes());
    b
}

struct InodeSpec<'a> {
    inum: u64,
    typ: u8,
    op_flags: u8,
    pfs_type: u8,
    size: u64,
    name: &'a str,
    mode: u32,
}

fn put_inode(img: &mut [u8], off: u64, i: &InodeSpec, brefs: &[Hammer2Blockref], direct: &[u8]) {
    let o = usize::try_from(off).unwrap();
    put(img, o + 0x10, &3_000_000u64.to_le_bytes()); // ctime
    put(img, o + 0x18, &2_000_000u64.to_le_bytes()); // mtime
    put(img, o + 0x20, &1_000_000u64.to_le_bytes()); // atime
    img[o + 0x50] = i.typ;
    img[o + 0x51] = i.op_flags;
    put(img, o + 0x54, &i.mode.to_le_bytes());
    put(img, o + 0x58, &i.inum.to_le_bytes());
    put(img, o + 0x60, &i.size.to_le_bytes());
    put(img, o + 0x68, &1u64.to_le_bytes()); // nlinks
    put(img, o + 0x70, &1u64.to_le_bytes()); // iparent
    put(img, o + 0x80, &(i.name.len() as u16).to_le_bytes());
    img[o + 0x89] = i.pfs_type;
    put(img, o + 0x100, i.name.as_bytes());
    for (k, b) in brefs.iter().enumerate() {
        put(img, o + 0x200 + 128 * k, &b.to_bytes());
    }
    put(img, o + 0x200, direct);
}

fn build_image() -> Vec<u8> {
    let mut img = vec![0u8; IMG_SIZE];
    // volume header
    put(&mut img, 0x00, &HAMMER2_VOLUME_ID_HBO.to_le_bytes());
    put(&mut img, 0x28, &(IMG_SIZE as u64).to_le_bytes());
    put(&mut img, 0x30, &5u32.to_le_bytes());
    put(&mut img, 0x60, &(4 * 65536u64).to_le_bytes()); // allocator_size
    put(&mut img, 0x68, &(2 * 65536u64).to_le_bytes()); // allocator_free
    put(&mut img, 0x78, &1u64.to_le_bytes()); // mirror_tid
    let sroot = bref(HAMMER2_BREF_TYPE_INODE, 0, 0, SROOT_OFF);
    put(&mut img, 0x200, &sroot.to_bytes());

    // super-root, holding the PFS "DATA" at its name's hash
    let mut pfs = bref(HAMMER2_BREF_TYPE_INODE, dirhash(b"DATA"), 0, PFS_OFF);
    pfs.embed[0..8].copy_from_slice(&7u64.to_le_bytes()); // data_count
    pfs.embed[8..16].copy_from_slice(&4u64.to_le_bytes()); // inode_count
    let sup = InodeSpec {
        inum: 0,
        typ: HAMMER2_OBJTYPE_DIRECTORY,
        op_flags: 0,
        pfs_type: HAMMER2_PFSTYPE_SUPROOT,
        size: 0,
        name: "",
        mode: 0o755,
    };
    put_inode(&mut img, SROOT_OFF, &sup, &[pfs], &[]);

    // PFS root: the three inodes by number, then the directory entries
    let root = InodeSpec {
        inum: 1,
        typ: HAMMER2_OBJTYPE_DIRECTORY,
        op_flags: HAMMER2_OPFLAG_PFSROOT,
        pfs_type: HAMMER2_PFSTYPE_MASTER,
        size: 0,
        name: "DATA",
        mode: 0o755,
    };
    let brefs = [
        bref(HAMMER2_BREF_TYPE_INODE, 2, 0, HELLO_OFF),
        bref(HAMMER2_BREF_TYPE_INODE, 3, 0, BIG_OFF),
        bref(HAMMER2_BREF_TYPE_INODE, 4, 0, LINK_OFF),
        bref(HAMMER2_BREF_TYPE_INDIRECT, 0x8000_0000_0000_0000, 63, INDIRECT_OFF),
    ];
    put_inode(&mut img, PFS_OFF, &root, &brefs, &[]);

    let mut ents = [
        dirent("hello", 2, HAMMER2_OBJTYPE_REGFILE),
        dirent("big", 3, HAMMER2_OBJTYPE_REGFILE),
        dirent("link", 4, HAMMER2_OBJTYPE_SOFTLINK),
    ];
    ents.sort_by_key(|b| b.key);
    for (k, b) in ents.iter().enumerate() {
        put(&mut img, INDIRECT_OFF as usize + 128 * k, &b.to_bytes());
    }

    let hello = InodeSpec {
        inum: 2,
        typ: HAMMER2_OBJTYPE_REGFILE,
        op_flags: HAMMER2_OPFLAG_DIRECTDATA,
        pfs_type: 0,
        size: 5,
        name: "hello",
        mode: 0o644,
    };
    put_inode(&mut img, HELLO_OFF, &hello, &[], b"world");

    let big = InodeSpec {
        inum: 3,
        typ: HAMMER2_OBJTYPE_REGFILE,
        op_flags: 0,
        pfs_type: 0,
        size: BIG_SIZE,
        name: "big",
        mode: 0o600,
    };
    put_inode(&mut img, BIG_OFF, &big, &[bref(HAMMER2_BREF_TYPE_DATA, 0, 10, DATA_OFF)], &[]);
    for k in 0..1024 {
        img[DATA_OFF as usize + k] = (k % 251) as u8;
    }

    let link = InodeSpec {
        inum: 4,
        typ: HAMMER2_OBJTYPE_SOFTLINK,
        op_flags: HAMMER2_OPFLAG_DIRECTDATA,
        pfs_type: 0,
        size: 5,
        name: "link",
        mode: 0o777,
    };
    put_inode(&mut img, LINK_OFF, &link, &[], b"hello");
    img
}

// Runs an operation, handing over media from the image until it completes.
fn run<T>(
    pmp: &mut Hammer2,
    img: &[u8],
    mut op: impl FnMut(&mut Hammer2) -> Result<T, Hammer2Error>,
) -> Result<T, Errno> {
    for _ in 0..1000 {
        match op(pmp) {
            Ok(v) => return Ok(v),
            Err(Hammer2Error::Errno(e)) => return Err(e),
            Err(Hammer2Error::NeedMedia(q)) => {
                let s = usize::try_from(q.offset).unwrap();
                let n = usize::try_from(q.bytes).unwrap();
                pmp.supply_media(q.offset, img[s..s + n].to_vec());
            }
        }
    }
    panic!("no progress");
}

fn mount_image(label: &str) -> (Hammer2, Vec<u8>, Result<(), Errno>) {
    let img = build_image();
    let mut fso = Ondisk::new(None);
    fso.install_volume(0, "image", true, 0, IMG_SIZE as u64);
    let opt = Opt::new(&[]).unwrap();
    let mut pmp = Hammer2::new(fso, opt, img[..65536].to_vec());
    pmp.mount_init().unwrap();
    let r = run(&mut pmp, &img, |p| p.mount_root(label));
    (pmp, img, r)
}

#[test]
fn image_mount_and_label() {
    let (pmp, _, r) = mount_image("DATA");
    assert_eq!(r, Ok(()));
    assert_eq!(pmp.get_label(), "DATA");
    assert!(pmp.get_inode(0).is_some());
    assert_eq!(pmp.get_inode(1).unwrap().meta.inum, 1);
    let (_, _, r) = mount_image("NOSUCH");
    assert_eq!(r, Err(Errno::ENOENT));
}

#[test]
fn image_mount_refuses_byte_swapped_header() {
    let mut img = build_image();
    put(&mut img, 0, &hammer2::fs::HAMMER2_VOLUME_ID_ABO.to_le_bytes());
    let mut fso = Ondisk::new(None);
    fso.install_volume(0, "image", true, 0, IMG_SIZE as u64);
    let mut pmp = Hammer2::new(fso, Opt::new(&[]).unwrap(), img[..65536].to_vec());
    assert_eq!(pmp.mount_init(), Err(Errno::EINVAL));
}

#[test]
fn image_resolve_and_read() {
    let (mut pmp, img, r) = mount_image("DATA");
    assert_eq!(r, Ok(()));
    let inum = run(&mut pmp, &img, |p| p.nresolve_path("/hello")).unwrap();
    assert_eq!(inum, 2);
    let v = run(&mut pmp, &img, |p| p.pread(2, 100, 0)).unwrap();
    assert_eq!(v, b"world");
    let v = run(&mut pmp, &img, |p| p.pread(2, 2, 1)).unwrap();
    assert_eq!(v, b"or");
    let v = run(&mut pmp, &img, |p| p.pread(2, 10, 5)).unwrap();
    assert!(v.is_empty());

    let inum = run(&mut pmp, &img, |p| p.nresolve_path("big")).unwrap();
    assert_eq!(inum, 3);
    let v = run(&mut pmp, &img, |p| p.read_all(3)).unwrap();
    assert_eq!(v.len() as u64, BIG_SIZE);
    for (k, x) in v.iter().enumerate() {
        assert_eq!(*x, (k % 251) as u8);
    }
    let v = run(&mut pmp, &img, |p| p.pread(3, 10, 995)).unwrap();
    assert_eq!(v, [(995 % 251) as u8, (996 % 251) as u8, (997 % 251) as u8, (998 % 251) as u8, (999 % 251) as u8]);

    assert_eq!(run(&mut pmp, &img, |p| p.nresolve_path("nosuch")), Err(Errno::ENOENT));
    assert_eq!(run(&mut pmp, &img, |p| p.nresolve_path("")), Err(Errno::EINVAL));
    assert_eq!(run(&mut pmp, &img, |p| p.nresolve(1, ".")), Ok(1));
    assert_eq!(run(&mut pmp, &img, |p| p.pread(1, 10, 0)), Err(Errno::EISDIR));
}

#[test]
fn image_readlink() {
    let (mut pmp, img, r) = mount_image("DATA");
    assert_eq!(r, Ok(()));
    let inum = run(&mut pmp, &img, |p| p.nresolve_path("link")).unwrap();
    assert_eq!(inum, 4);
    assert_eq!(run(&mut pmp, &img, |p| p.readlink(4, 64)).unwrap(), b"hello");
    assert_eq!(run(&mut pmp, &img, |p| p.readlinkx(4)).unwrap(), "hello");
    assert_eq!(run(&mut pmp, &img, |p| p.pread(4, 10, 0)), Err(Errno::EINVAL));
    run(&mut pmp, &img, |p| p.nresolve_path("hello")).unwrap();
    assert_eq!(run(&mut pmp, &img, |p| p.readlink(2, 64)), Err(Errno::EINVAL));
}

#[test]
fn image_readdir() {
    let (mut pmp, img, r) = mount_image("DATA");
    assert_eq!(r, Ok(()));
    let v = run(&mut pmp, &img, |p| p.readdir(1)).unwrap();
    let names: Vec<&str> = v.iter().map(|d| d.name.as_str()).collect();
    assert_eq!(names.len(), 5, "{names:?}");
    assert_eq!(names[0], ".");
    assert_eq!(names[1], "..");
    let mut rest = names[2..].to_vec();
    rest.sort_unstable();
    assert_eq!(rest, ["big", "hello", "link"]);
    for d in &v[2..] {
        let want = match d.name.as_str() {
            "hello" => (2, HAMMER2_OBJTYPE_REGFILE),
            "big" => (3, HAMMER2_OBJTYPE_REGFILE),
            _ => (4, HAMMER2_OBJTYPE_SOFTLINK),
        };
        assert_eq!((d.inum, d.typ), want);
    }
    run(&mut pmp, &img, |p| p.nresolve_path("hello")).unwrap();
    assert_eq!(run(&mut pmp, &img, |p| p.readdir(2)).unwrap_err(), Errno::ENOTDIR);
    assert_eq!(run(&mut pmp, &img, |p| p.readdir(99)).unwrap_err(), Errno::ENOENT);
}

#[test]
fn image_stat_statfs_bmap() {
    let (mut pmp, img, r) = mount_image("DATA");
    assert_eq!(r, Ok(()));
    run(&mut pmp, &img, |p| p.nresolve_path("hello")).unwrap();
    let st = pmp.stat(2).unwrap();
    assert_eq!(st.st_ino, 2);
    assert_eq!(st.st_size, 5);
    assert_eq!(st.st_mode, 0o644 | S_IFREG);
    assert_eq!(st.st_nlink, 1);
    assert_eq!((st.st_atime, st.st_mtime, st.st_ctime), (1, 2, 3));
    let st = pmp.stat(1).unwrap();
    assert_eq!(st.st_mode, 0o755 | S_IFDIR);
    assert_eq!(st.st_blocks, 2);
    assert_eq!(pmp.stat(42).unwrap_err(), Errno::ENOENT);

    let sf = run(&mut pmp, &img, |p| p.statfs()).unwrap();
    assert_eq!(sf.f_bsize, 65536);
    assert_eq!(sf.f_blocks, 4);
    assert_eq!(sf.f_bfree, 2);
    assert_eq!(sf.f_files, 4);
    assert_eq!(pmp.get_inode_embed_stats(1).unwrap().data_count, 7);

    run(&mut pmp, &img, |p| p.nresolve_path("big")).unwrap();
    assert_eq!(run(&mut pmp, &img, |p| p.bmap(3, 0)), Ok(DATA_OFF));
    assert_eq!(run(&mut pmp, &img, |p| p.bmap(3, 5)), Err(Errno::ENOENT));
}

#[test]
fn image_unmount() {
    let (mut pmp, img, r) = mount_image("DATA");
    assert_eq!(r, Ok(()));
    run(&mut pmp, &img, |p| p.nresolve_path("big")).unwrap();
    run(&mut pmp, &img, |p| p.read_all(3)).unwrap();
    let dump = pmp.dump_chain(hammer2::chain::CID_VCHAIN, false).unwrap();
    assert!(dump[0].starts_with("v-chain #1 [volume 0000000000000010 0000000000000000/0"), "{dump:?}");
    assert!(dump[1].starts_with("  bref[0] [inode 000000000001000a"), "{dump:?}");
    assert!(dump.iter().any(|l| l.starts_with("  chain[0] #")), "{dump:?}");
    let compat = pmp.dump_chain(hammer2::chain::CID_VCHAIN, true).unwrap();
    assert!(compat[0].starts_with("i-chain 0 volume "), "{compat:?}");
    assert!(compat[1].starts_with("      (?) flags "), "{compat:?}");
    assert_eq!(compat.last().unwrap(), "}");
    let lines = pmp.unmount(false).unwrap();
    assert!(!lines.is_empty());
    assert!(lines[0].starts_with("v-chain"), "{lines:?}");
    assert!(lines.iter().any(|l| l.starts_with("f-chain")), "{lines:?}");
    assert!(pmp.cmap.is_empty());
    assert!(pmp.nmap.is_empty());
}

#[test]
fn image_media_supply_law() {
    // A load that was handed the media it asked for does not ask again.
    let img = build_image();
    let mut fso = Ondisk::new(None);
    fso.install_volume(0, "image", true, 0, IMG_SIZE as u64);
    let mut pmp = Hammer2::new(fso, Opt::new(&[]).unwrap(), img[..65536].to_vec());
    pmp.mount_init().unwrap();
    let q = match pmp.mount_root("DATA") {
        Err(Hammer2Error::NeedMedia(q)) => q,
        r => panic!("{r:?}"),
    };
    assert_eq!(q.offset, SROOT_OFF);
    assert_eq!(q.bytes, 1024);
    assert_eq!(q.volume, 0);
    pmp.supply_media(q.offset, img[SROOT_OFF as usize..SROOT_OFF as usize + 1024].to_vec());
    match pmp.mount_root("DATA") {
        Err(Hammer2Error::NeedMedia(q2)) => {
            assert_ne!(q2.offset, SROOT_OFF);
            assert_eq!(q2.offset, PFS_OFF);
        }
        r => panic!("{r:?}"),
    }
    // Media of the wrong size is not taken: the same request comes back.
    pmp.supply_media(PFS_OFF, vec![0; 10]);
    match pmp.mount_root("DATA") {
        Err(Hammer2Error::NeedMedia(q3)) => assert_eq!(q3.offset, PFS_OFF),
        r => panic!("{r:?}"),
    }
}

#[test]
fn image_unmount_right_after_mount() {
    let (mut pmp, _, r) = mount_image("DATA");
    assert_eq!(r, Ok(()));
    assert_eq!(pmp.cmap.len(), 4);
    assert_eq!(pmp.nmap.len(), 2);
    let lines = pmp.unmount(false).unwrap();
    assert!(lines[0].starts_with("v-chain"), "{lines:?}");
    assert!(pmp.cmap.is_empty());
    assert!(pmp.nmap.is_empty());
}

#[test]
fn image_resolve_root_paths() {
    let (mut pmp, img, r) = mount_image("DATA");
    assert_eq!(r, Ok(()));
    assert_eq!(run(&mut pmp, &img, |p| p.nresolve_path("/")), Ok(1));
    assert_eq!(run(&mut pmp, &img, |p| p.nresolve_path("/./")), Ok(1));
    assert_eq!(run(&mut pmp, &img, |p| p.nresolve_path("./hello")), Ok(2));
}
