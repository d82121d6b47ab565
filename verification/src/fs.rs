//! The HAMMER2 on-media format: constants, the method byte encodings,
//! and the on-disk records (block references, inodes, volume headers)
//! decoded from their little-endian byte images.
use vstd::prelude::*;
use vstd::bytes::*;
use vstd::slice::*;

verus! {

pub const HAMMER2_PBUFRADIX: u64 = 16;
pub const HAMMER2_PBUFSIZE: u64 = 65536;
pub const HAMMER2_PBUFMASK: u64 = 65535;
pub const HAMMER2_LBUFRADIX: u64 = 14;
pub const HAMMER2_LBUFSIZE: u64 = 16384;
pub const HAMMER2_LBUFMASK: u64 = 16383;

pub const HAMMER2_OFF_MASK: u64 = 0xFFFF_FFFF_FFFF_FFC0;
pub const HAMMER2_OFF_MASK_RADIX: u64 = 0x3F;

pub const HAMMER2_KEY_MIN: u64 = 0;
pub const HAMMER2_KEY_MAX: u64 = 0xFFFF_FFFF_FFFF_FFFF;
pub const HAMMER2_SROOT_KEY: u64 = 0;

pub const HAMMER2_DIRHASH_VISIBLE: u64 = 0x8000_0000_0000_0000;
pub const HAMMER2_DIRHASH_USERMSK: u64 = 0x7FFF_FFFF_FFFF_FFFF;
pub const HAMMER2_DIRHASH_LOMASK: u64 = 0x0000_0000_0000_7FFF;
pub const HAMMER2_DIRHASH_HIMASK: u64 = 0xFFFF_FFFF_FFFF_0000;
pub const HAMMER2_DIRHASH_FORCED: u64 = 0x0000_0000_0000_8000;

pub const HAMMER2_INODE_MAXNAME: usize = 256;
pub const HAMMER2_SET_COUNT: usize = 4;
pub const HAMMER2_EMBEDDED_BYTES: usize = 512;
pub const HAMMER2_INODE_BYTES: u64 = 1024;
pub const HAMMER2_BLOCKREF_BYTES: usize = 128;
pub const HAMMER2_VOLUME_BYTES: u64 = 65536;

pub const HAMMER2_VOLUME_ID_HBO: u64 = 0x4841_4d32_0517_2011;
pub const HAMMER2_VOLUME_ID_ABO: u64 = 0x1120_1705_324d_4148;

pub const HAMMER2_MAX_VOLUMES: u8 = 64;
pub const HAMMER2_ROOT_VOLUME: u8 = 0;
pub const HAMMER2_NUM_VOLHDRS: usize = 4;
pub const HAMMER2_ZONE_BYTES64: u64 = 0x8000_0000;
pub const HAMMER2_VOLUME_ALIGN: u64 = 0x0080_0000;
pub const HAMMER2_VOLUME_ALIGNMASK: u64 = 0x007F_FFFF;
pub const HAMMER2_FREEMAP_LEVEL1_SIZE: u64 = 0x4000_0000;
pub const HAMMER2_FREEMAP_LEVEL1_MASK: u64 = 0x3FFF_FFFF;

pub const HAMMER2_VOL_VERSION_MULTI_VOLUMES: u32 = 5;
pub const HAMMER2_VOL_VERSION_DEFAULT: u32 = 5;

pub const HAMMER2_UUID_STRING: &'static str = "5cbb9ad1-862d-11dc-a94d-01301bb8a9f5";

pub const HAMMER2_OPFLAG_DIRECTDATA: u8 = 0x01;
pub const HAMMER2_OPFLAG_PFSROOT: u8 = 0x02;

pub const HAMMER2_OBJTYPE_UNKNOWN: u8 = 0;
pub const HAMMER2_OBJTYPE_DIRECTORY: u8 = 1;
pub const HAMMER2_OBJTYPE_REGFILE: u8 = 2;
pub const HAMMER2_OBJTYPE_FIFO: u8 = 4;
pub const HAMMER2_OBJTYPE_CDEV: u8 = 5;
pub const HAMMER2_OBJTYPE_BDEV: u8 = 6;
pub const HAMMER2_OBJTYPE_SOFTLINK: u8 = 7;
pub const HAMMER2_OBJTYPE_SOCKET: u8 = 9;
pub const HAMMER2_OBJTYPE_WHITEOUT: u8 = 10;

pub const HAMMER2_PFSTYPE_NONE: u8 = 0x00;
pub const HAMMER2_PFSTYPE_CACHE: u8 = 0x01;
pub const HAMMER2_PFSTYPE_SLAVE: u8 = 0x03;
pub const HAMMER2_PFSTYPE_SOFT_SLAVE: u8 = 0x04;
pub const HAMMER2_PFSTYPE_SOFT_MASTER: u8 = 0x05;
pub const HAMMER2_PFSTYPE_MASTER: u8 = 0x06;
pub const HAMMER2_PFSTYPE_SUPROOT: u8 = 0x08;
pub const HAMMER2_PFSTYPE_DUMMY: u8 = 0x09;

pub const HAMMER2_PFSSUBTYPE_NONE: u8 = 0;
pub const HAMMER2_PFSSUBTYPE_SNAPSHOT: u8 = 1;
pub const HAMMER2_PFSSUBTYPE_AUTOSNAP: u8 = 2;

pub const HAMMER2_BREF_TYPE_EMPTY: u8 = 0;
pub const HAMMER2_BREF_TYPE_INODE: u8 = 1;
pub const HAMMER2_BREF_TYPE_INDIRECT: u8 = 2;
pub const HAMMER2_BREF_TYPE_DATA: u8 = 3;
pub const HAMMER2_BREF_TYPE_DIRENT: u8 = 4;
pub const HAMMER2_BREF_TYPE_FREEMAP_NODE: u8 = 5;
pub const HAMMER2_BREF_TYPE_FREEMAP_LEAF: u8 = 6;
pub const HAMMER2_BREF_TYPE_INVALID: u8 = 7;
pub const HAMMER2_BREF_TYPE_FREEMAP: u8 = 254;
pub const HAMMER2_BREF_TYPE_VOLUME: u8 = 255;

pub const HAMMER2_CHECK_NONE: u8 = 0;
pub const HAMMER2_CHECK_DISABLED: u8 = 1;
pub const HAMMER2_CHECK_ISCSI32: u8 = 2;
pub const HAMMER2_CHECK_XXHASH64: u8 = 3;
pub const HAMMER2_CHECK_SHA192: u8 = 4;
pub const HAMMER2_CHECK_FREEMAP: u8 = 5;
pub const HAMMER2_CHECK_DEFAULT: u8 = 3;

pub const HAMMER2_COMP_NONE: u8 = 0;
pub const HAMMER2_COMP_AUTOZERO: u8 = 1;
pub const HAMMER2_COMP_LZ4: u8 = 2;
pub const HAMMER2_COMP_ZLIB: u8 = 3;
pub const HAMMER2_COMP_DEFAULT: u8 = 2;

// Byte offsets of the volume header fields that the library reads.
pub const VOLDATA_SROOT_BLOCKSET: usize = 0x200;
pub const VOLDATA_FREEMAP_BLOCKSET: usize = 0x800;
pub const VOLDATA_VOLU_LOFF: usize = 0x1000;

// Byte offsets within an inode.
pub const INODE_FILENAME_OFFSET: usize = 0x100;
pub const INODE_U_OFFSET: usize = 0x200;

/// The low four bits of a method byte: the algorithm.
pub open spec fn spec_dec_algo(n: u8) -> u8 {
    (n % 16) as u8
}

/// The high four bits of a method byte: the level (or the check method).
pub open spec fn spec_dec_level(n: u8) -> u8 {
    (n / 16) as u8
}

pub fn enc_algo(n: u8) -> (r: u8)
    ensures
        r == n,
{
    n
}

pub fn dec_algo(n: u8) -> (r: u8)
    ensures
        r == spec_dec_algo(n),
{
    n % 16
}

pub fn enc_level(n: u8) -> (r: u8)
    requires
        n < 16,
    ensures
        r == n * 16,
{
    n * 16
}

pub fn dec_level(n: u8) -> (r: u8)
    ensures
        r == spec_dec_level(n),
{
    n / 16
}

pub fn enc_check(n: u8) -> (r: u8)
    ensures
        r == (n % 16) * 16,
{
    (n % 16) * 16
}

pub fn dec_check(n: u8) -> (r: u8)
    ensures
        r == spec_dec_level(n),
{
    n / 16
}

pub fn enc_comp(n: u8) -> (r: u8)
    ensures
        r == n % 16,
{
    n % 16
}

pub fn dec_comp(n: u8) -> (r: u8)
    ensures
        r == spec_dec_algo(n),
{
    n % 16
}

/// Little-endian 16-bit value at `off`.
pub open spec fn le16(s: Seq<u8>, off: int) -> u16 {
    spec_u16_from_le_bytes(s.subrange(off, off + 2))
}

/// Little-endian 32-bit value at `off`.
pub open spec fn le32(s: Seq<u8>, off: int) -> u32 {
    spec_u32_from_le_bytes(s.subrange(off, off + 4))
}

/// Little-endian 64-bit value at `off`.
pub open spec fn le64(s: Seq<u8>, off: int) -> u64 {
    spec_u64_from_le_bytes(s.subrange(off, off + 8))
}

pub fn read_u16_le(s: &[u8], off: usize) -> (r: u16)
    requires
        off + 2 <= s@.len(),
    ensures
        r == le16(s@, off as int),
{
    let _n = s.len();
    u16_from_le_bytes(slice_subrange(s, off, off + 2))
}

pub fn read_u32_le(s: &[u8], off: usize) -> (r: u32)
    requires
        off + 4 <= s@.len(),
    ensures
        r == le32(s@, off as int),
{
    let _n = s.len();
    u32_from_le_bytes(slice_subrange(s, off, off + 4))
}

pub fn read_u64_le(s: &[u8], off: usize) -> (r: u64)
    requires
        off + 8 <= s@.len(),
    ensures
        r == le64(s@, off as int),
{
    let _n = s.len();
    u64_from_le_bytes(slice_subrange(s, off, off + 8))
}

/// Copies `N` bytes starting at `off` into an array.
pub fn read_array<const N: usize>(s: &[u8], off: usize) -> (r: [u8; N])
    requires
        off + N <= s@.len(),
    ensures
        r@ == s@.subrange(off as int, off + N),
{
    let _n = s.len();
    let mut a: [u8; N] = vstd::array::array_fill_for_copy_types(0u8);
    let mut i: usize = 0;
    while i < N
        invariant
            off + N <= s@.len(),
            _n == s@.len(),
            i <= N,
            a@.len() == N,
            forall|k: int| 0 <= k < i ==> a@[k] == s@[off + k],
        decreases N - i,
    {
        a[i] = s[off + i];
        i = i + 1;
    }
    assert(a@ =~= s@.subrange(off as int, off + N));
    a
}

/// A block reference: the 128-byte record that points at a block of media
/// and describes the key range it covers.
#[derive(Debug, Clone, Copy)]
pub struct Hammer2Blockref {
    pub typ: u8,
    pub methods: u8,
    pub copyid: u8,
    pub keybits: u8,
    pub vradix: u8,
    pub flags: u8,
    pub leaf_count: u16,
    pub key: u64,
    pub mirror_tid: u64,
    pub modify_tid: u64,
    pub data_off: u64,
    pub update_tid: u64,
    pub embed: [u8; 16],
    pub check: [u8; 64],
}

/// `r` is the block reference whose byte image starts at `off` of `s`.
pub open spec fn blockref_decodes(r: Hammer2Blockref, s: Seq<u8>, off: int) -> bool {
    &&& r.typ == s[off]
    &&& r.methods == s[off + 1]
    &&& r.copyid == s[off + 2]
    &&& r.keybits == s[off + 3]
    &&& r.vradix == s[off + 4]
    &&& r.flags == s[off + 5]
    &&& r.leaf_count == le16(s, off + 6)
    &&& r.key == le64(s, off + 8)
    &&& r.mirror_tid == le64(s, off + 16)
    &&& r.modify_tid == le64(s, off + 24)
    &&& r.data_off == le64(s, off + 32)
    &&& r.update_tid == le64(s, off + 40)
    &&& r.embed@ == s.subrange(off + 48, off + 64)
    &&& r.check@ == s.subrange(off + 64, off + 128)
}

impl Hammer2Blockref {
    /// A zeroed block reference of the given type.
    pub fn new(typ: u8) -> (r: Self)
        ensures
            r.typ == typ,
            r.methods == 0 && r.copyid == 0 && r.keybits == 0 && r.vradix == 0,
            r.flags == 0 && r.leaf_count == 0 && r.key == 0,
            r.mirror_tid == 0 && r.modify_tid == 0 && r.data_off == 0 && r.update_tid == 0,
            forall|i: int| 0 <= i < 16 ==> r.embed@[i] == 0,
            forall|i: int| 0 <= i < 64 ==> r.check@[i] == 0,
    {
        Self {
            typ,
            methods: 0,
            copyid: 0,
            keybits: 0,
            vradix: 0,
            flags: 0,
            leaf_count: 0,
            key: 0,
            mirror_tid: 0,
            modify_tid: 0,
            data_off: 0,
            update_tid: 0,
            embed: [0u8; 16],
            check: [0u8; 64],
        }
    }

    /// A zeroed block reference of the empty type.
    pub fn new_empty() -> (r: Self)
        ensures
            r.typ == HAMMER2_BREF_TYPE_EMPTY,
            r.key == 0 && r.keybits == 0 && r.data_off == 0 && r.methods == 0,
    {
        Self::new(HAMMER2_BREF_TYPE_EMPTY)
    }

    /// Decodes the block reference whose image starts at `off`.
    pub fn from_bytes(s: &[u8], off: usize) -> (r: Self)
        requires
            off + 128 <= s@.len(),
        ensures
            blockref_decodes(r, s@, off as int),
    {
        let _n = s.len();
        Self {
            typ: s[off],
            methods: s[off + 1],
            copyid: s[off + 2],
            keybits: s[off + 3],
            vradix: s[off + 4],
            flags: s[off + 5],
            leaf_count: read_u16_le(s, off + 6),
            key: read_u64_le(s, off + 8),
            mirror_tid: read_u64_le(s, off + 16),
            modify_tid: read_u64_le(s, off + 24),
            data_off: read_u64_le(s, off + 32),
            update_tid: read_u64_le(s, off + 40),
            embed: read_array::<16>(s, off + 48),
            check: read_array::<64>(s, off + 64),
        }
    }
}

/// The head of a directory entry, embedded in a dirent block reference.
#[derive(Debug, Clone, Copy, PartialEq, Eq, Structural)]
pub struct Hammer2DirentHead {
    pub inum: u64,
    pub namlen: u16,
    pub typ: u8,
}

/// Statistics embedded in an inode or indirect block reference.
#[derive(Debug, Clone, Copy, PartialEq, Eq, Structural)]
pub struct Hammer2BlockrefEmbedStats {
    pub data_count: u64,
    pub inode_count: u64,
}

/// The iSCSI CRC32 check code.
#[derive(Debug, Clone, Copy, PartialEq, Eq, Structural)]
pub struct Hammer2BlockrefCheckIscsi {
    pub value: u32,
}

/// The xxhash64 check code.
#[derive(Debug, Clone, Copy, PartialEq, Eq, Structural)]
pub struct Hammer2BlockrefCheckXxhash64 {
    pub value: u64,
}

/// The 192-bit SHA check code.
#[derive(Debug, Clone, Copy)]
pub struct Hammer2BlockrefCheckSha192 {
    pub data: [u8; 24],
}

/// The 256-bit SHA check code.
#[derive(Debug, Clone, Copy)]
pub struct Hammer2BlockrefCheckSha256 {
    pub data: [u8; 32],
}

/// The 512-bit SHA check code.
#[derive(Debug, Clone, Copy)]
pub struct Hammer2BlockrefCheckSha512 {
    pub data: [u8; 64],
}

/// The check code of freemap blocks.
#[derive(Debug, Clone, Copy, PartialEq, Eq, Structural)]
pub struct Hammer2BlockrefCheckFreemap {
    pub icrc32: u32,
    pub bigmask: u32,
    pub avail: u64,
}

/// A set of block references, as found in inodes and volume headers.
#[derive(Debug, Clone, Copy)]
pub struct Hammer2Blockset {
    pub blockref: [Hammer2Blockref; 4],
}

/// `b` is the block set whose byte image starts at `off` of `s`.
pub open spec fn blockset_decodes(b: Hammer2Blockset, s: Seq<u8>, off: int) -> bool {
    forall|i: int| 0 <= i < 4 ==> blockref_decodes(#[trigger] b.blockref@[i], s, off + 128 * i)
}

impl Hammer2Blockset {
    /// A block set of four empty block references.
    pub fn new() -> (r: Self)
        ensures
            forall|i: int| 0 <= i < 4 ==> (#[trigger] r.blockref@[i]).typ == HAMMER2_BREF_TYPE_EMPTY,
    {
        let e = Hammer2Blockref::new_empty();
        Self { blockref: [e, e, e, e] }
    }

    /// Decodes the block set whose image starts at `off`.
    pub fn from_bytes(s: &[u8], off: usize) -> (r: Self)
        requires
            off + 512 <= s@.len(),
        ensures
            blockset_decodes(r, s@, off as int),
    {
        let _n = s.len();
        let b0 = Hammer2Blockref::from_bytes(s, off);
        let b1 = Hammer2Blockref::from_bytes(s, off + 128);
        let b2 = Hammer2Blockref::from_bytes(s, off + 256);
        let b3 = Hammer2Blockref::from_bytes(s, off + 384);
        let r = Self { blockref: [b0, b1, b2, b3] };
        assert(r.blockref@[0] == b0 && r.blockref@[1] == b1);
        assert(r.blockref@[2] == b2 && r.blockref@[3] == b3);
        r
    }
}

/// The metadata part (first 256 bytes) of an inode.
#[derive(Debug, Clone, Copy)]
pub struct Hammer2InodeMeta {
    pub version: u16,
    pub pfs_subtype: u8,
    pub uflags: u32,
    pub rmajor: u32,
    pub rminor: u32,
    pub ctime: u64,
    pub mtime: u64,
    pub atime: u64,
    pub btime: u64,
    pub uid: [u8; 16],
    pub gid: [u8; 16],
    pub typ: u8,
    pub op_flags: u8,
    pub cap_flags: u16,
    pub mode: u32,
    pub inum: u64,
    pub size: u64,
    pub nlinks: u64,
    pub iparent: u64,
    pub name_key: u64,
    pub name_len: u16,
    pub ncopies: u8,
    pub comp_algo: u8,
    pub check_algo: u8,
    pub pfs_nmasters: u8,
    pub pfs_type: u8,
    pub pfs_clid: [u8; 16],
    pub pfs_fsid: [u8; 16],
}

/// `m` is the inode metadata whose image starts at `off` of `s`.
pub open spec fn inode_meta_decodes(m: Hammer2InodeMeta, s: Seq<u8>, off: int) -> bool {
    &&& m.version == le16(s, off)
    &&& m.pfs_subtype == s[off + 0x03]
    &&& m.uflags == le32(s, off + 0x04)
    &&& m.rmajor == le32(s, off + 0x08)
    &&& m.rminor == le32(s, off + 0x0C)
    &&& m.ctime == le64(s, off + 0x10)
    &&& m.mtime == le64(s, off + 0x18)
    &&& m.atime == le64(s, off + 0x20)
    &&& m.btime == le64(s, off + 0x28)
    &&& m.uid@ == s.subrange(off + 0x30, off + 0x40)
    &&& m.gid@ == s.subrange(off + 0x40, off + 0x50)
    &&& m.typ == s[off + 0x50]
    &&& m.op_flags == s[off + 0x51]
    &&& m.cap_flags == le16(s, off + 0x52)
    &&& m.mode == le32(s, off + 0x54)
    &&& m.inum == le64(s, off + 0x58)
    &&& m.size == le64(s, off + 0x60)
    &&& m.nlinks == le64(s, off + 0x68)
    &&& m.iparent == le64(s, off + 0x70)
    &&& m.name_key == le64(s, off + 0x78)
    &&& m.name_len == le16(s, off + 0x80)
    &&& m.ncopies == s[off + 0x82]
    &&& m.comp_algo == s[off + 0x83]
    &&& m.check_algo == s[off + 0x87]
    &&& m.pfs_nmasters == s[off + 0x88]
    &&& m.pfs_type == s[off + 0x89]
    &&& m.pfs_clid@ == s.subrange(off + 0x90, off + 0xA0)
    &&& m.pfs_fsid@ == s.subrange(off + 0xA0, off + 0xB0)
}

impl Hammer2InodeMeta {
    /// All-zero metadata.
    pub fn new() -> (r: Self)
        ensures
            r.typ == 0 && r.op_flags == 0 && r.pfs_type == 0 && r.inum == 0,
            r.size == 0 && r.name_len == 0 && r.mode == 0 && r.iparent == 0,
            r.ctime == 0 && r.mtime == 0 && r.atime == 0 && r.nlinks == 0,
    {
        Self {
            version: 0,
            pfs_subtype: 0,
            uflags: 0,
            rmajor: 0,
            rminor: 0,
            ctime: 0,
            mtime: 0,
            atime: 0,
            btime: 0,
            uid: [0u8; 16],
            gid: [0u8; 16],
            typ: 0,
            op_flags: 0,
            cap_flags: 0,
            mode: 0,
            inum: 0,
            size: 0,
            nlinks: 0,
            iparent: 0,
            name_key: 0,
            name_len: 0,
            ncopies: 0,
            comp_algo: 0,
            check_algo: 0,
            pfs_nmasters: 0,
            pfs_type: 0,
            pfs_clid: [0u8; 16],
            pfs_fsid: [0u8; 16],
        }
    }

    /// Decodes the inode metadata whose image starts at `off`.
    pub fn from_bytes(s: &[u8], off: usize) -> (r: Self)
        requires
            off + 256 <= s@.len(),
        ensures
            inode_meta_decodes(r, s@, off as int),
    {
        let _n = s.len();
        Self {
            version: read_u16_le(s, off),
            pfs_subtype: s[off + 0x03],
            uflags: read_u32_le(s, off + 0x04),
            rmajor: read_u32_le(s, off + 0x08),
            rminor: read_u32_le(s, off + 0x0C),
            ctime: read_u64_le(s, off + 0x10),
            mtime: read_u64_le(s, off + 0x18),
            atime: read_u64_le(s, off + 0x20),
            btime: read_u64_le(s, off + 0x28),
            uid: read_array::<16>(s, off + 0x30),
            gid: read_array::<16>(s, off + 0x40),
            typ: s[off + 0x50],
            op_flags: s[off + 0x51],
            cap_flags: read_u16_le(s, off + 0x52),
            mode: read_u32_le(s, off + 0x54),
            inum: read_u64_le(s, off + 0x58),
            size: read_u64_le(s, off + 0x60),
            nlinks: read_u64_le(s, off + 0x68),
            iparent: read_u64_le(s, off + 0x70),
            name_key: read_u64_le(s, off + 0x78),
            name_len: read_u16_le(s, off + 0x80),
            ncopies: s[off + 0x82],
            comp_algo: s[off + 0x83],
            check_algo: s[off + 0x87],
            pfs_nmasters: s[off + 0x88],
            pfs_type: s[off + 0x89],
            pfs_clid: read_array::<16>(s, off + 0x90),
            pfs_fsid: read_array::<16>(s, off + 0xA0),
        }
    }
}

impl Default for Hammer2InodeMeta {
    fn default() -> (r: Self)
        ensures
            r.typ == 0 && r.op_flags == 0 && r.pfs_type == 0 && r.inum == 0,
            r.size == 0 && r.name_len == 0 && r.mode == 0 && r.iparent == 0,
            r.ctime == 0 && r.mtime == 0 && r.atime == 0 && r.nlinks == 0,
    {
        Self::new()
    }
}

/// A whole inode: metadata, filename and the embedded area (a block set or
/// direct data).
#[derive(Debug, Clone, Copy)]
pub struct Hammer2InodeData {
    pub meta: Hammer2InodeMeta,
    pub filename: [u8; 256],
    pub u: [u8; 512],
}

/// `d` is the inode whose 1024-byte image starts at the beginning of `s`.
pub open spec fn inode_data_decodes(d: Hammer2InodeData, s: Seq<u8>) -> bool {
    &&& inode_meta_decodes(d.meta, s, 0)
    &&& d.filename@ == s.subrange(0x100, 0x200)
    &&& d.u@ == s.subrange(0x200, 0x400)
}

impl Hammer2InodeData {
    /// An all-zero inode.
    pub fn new() -> (r: Self)
        ensures
            r.meta.name_len == 0 && r.meta.op_flags == 0 && r.meta.typ == 0,
            forall|i: int| 0 <= i < 256 ==> r.filename@[i] == 0,
    {
        Self { meta: Hammer2InodeMeta::new(), filename: [0u8; 256], u: [0u8; 512] }
    }

    /// Decodes the inode whose image is the first 1024 bytes of `s`.
    pub fn from_bytes(s: &[u8]) -> (r: Self)
        requires
            1024 <= s@.len(),
        ensures
            inode_data_decodes(r, s@),
    {
        Self {
            meta: Hammer2InodeMeta::from_bytes(s, 0),
            filename: read_array::<256>(s, 0x100),
            u: read_array::<512>(s, 0x200),
        }
    }
}

/// The volume header fields that the library reads.
#[derive(Debug, Clone, Copy)]
pub struct Hammer2VolumeData {
    pub magic: u64,
    pub boot_beg: u64,
    pub boot_end: u64,
    pub aux_beg: u64,
    pub aux_end: u64,
    pub volu_size: u64,
    pub version: u32,
    pub flags: u32,
    pub copyid: u8,
    pub freemap_version: u8,
    pub peer_type: u8,
    pub volu_id: u8,
    pub nvolumes: u8,
    pub fsid: [u8; 16],
    pub fstype: [u8; 16],
    pub allocator_size: u64,
    pub allocator_free: u64,
    pub allocator_beg: u64,
    pub mirror_tid: u64,
    pub freemap_tid: u64,
    pub bulkfree_tid: u64,
    pub total_size: u64,
    pub sroot_blockset: Hammer2Blockset,
    pub freemap_blockset: Hammer2Blockset,
    pub volu_loff: [u64; 64],
}

/// `v` is the volume header whose image starts at the beginning of `s`.
pub open spec fn volume_data_decodes(v: Hammer2VolumeData, s: Seq<u8>) -> bool {
    &&& v.magic == le64(s, 0x00)
    &&& v.boot_beg == le64(s, 0x08)
    &&& v.boot_end == le64(s, 0x10)
    &&& v.aux_beg == le64(s, 0x18)
    &&& v.aux_end == le64(s, 0x20)
    &&& v.volu_size == le64(s, 0x28)
    &&& v.version == le32(s, 0x30)
    &&& v.flags == le32(s, 0x34)
    &&& v.copyid == s[0x38]
    &&& v.freemap_version == s[0x39]
    &&& v.peer_type == s[0x3A]
    &&& v.volu_id == s[0x3B]
    &&& v.nvolumes == s[0x3C]
    &&& v.fsid@ == s.subrange(0x40, 0x50)
    &&& v.fstype@ == s.subrange(0x50, 0x60)
    &&& v.allocator_size == le64(s, 0x60)
    &&& v.allocator_free == le64(s, 0x68)
    &&& v.allocator_beg == le64(s, 0x70)
    &&& v.mirror_tid == le64(s, 0x78)
    &&& v.freemap_tid == le64(s, 0x90)
    &&& v.bulkfree_tid == le64(s, 0x98)
    &&& v.total_size == le64(s, 0xC0)
    &&& blockset_decodes(v.sroot_blockset, s, 0x200)
    &&& blockset_decodes(v.freemap_blockset, s, 0x800)
    &&& forall|i: int| 0 <= i < 64 ==> #[trigger] v.volu_loff@[i] == le64(s, 0x1000 + 8 * i)
}

impl Hammer2VolumeData {
    /// An all-zero volume header.
    pub fn new() -> (r: Self)
        ensures
            r.magic == 0 && r.mirror_tid == 0 && r.volu_id == 0 && r.nvolumes == 0,
            r.total_size == 0 && r.volu_size == 0 && r.version == 0,
    {
        Self {
            magic: 0,
            boot_beg: 0,
            boot_end: 0,
            aux_beg: 0,
            aux_end: 0,
            volu_size: 0,
            version: 0,
            flags: 0,
            copyid: 0,
            freemap_version: 0,
            peer_type: 0,
            volu_id: 0,
            nvolumes: 0,
            fsid: [0u8; 16],
            fstype: [0u8; 16],
            allocator_size: 0,
            allocator_free: 0,
            allocator_beg: 0,
            mirror_tid: 0,
            freemap_tid: 0,
            bulkfree_tid: 0,
            total_size: 0,
            sroot_blockset: Hammer2Blockset::new(),
            freemap_blockset: Hammer2Blockset::new(),
            volu_loff: [0u64; 64],
        }
    }

    /// Decodes the volume header whose image starts at the beginning of `s`.
    pub fn from_bytes(s: &[u8]) -> (r: Self)
        requires
            0x1200 <= s@.len(),
        ensures
            volume_data_decodes(r, s@),
    {
        let mut loff: [u64; 64] = [0u64; 64];
        let mut i: usize = 0;
        while i < 64
            invariant
                0x1200 <= s@.len(),
                i <= 64,
                loff@.len() == 64,
                forall|k: int| 0 <= k < i ==> #[trigger] loff@[k] == le64(s@, 0x1000 + 8 * k),
            decreases 64 - i,
        {
            loff[i] = read_u64_le(s, 0x1000 + 8 * i);
            i = i + 1;
        }
        Self {
            magic: read_u64_le(s, 0x00),
            boot_beg: read_u64_le(s, 0x08),
            boot_end: read_u64_le(s, 0x10),
            aux_beg: read_u64_le(s, 0x18),
            aux_end: read_u64_le(s, 0x20),
            volu_size: read_u64_le(s, 0x28),
            version: read_u32_le(s, 0x30),
            flags: read_u32_le(s, 0x34),
            copyid: s[0x38],
            freemap_version: s[0x39],
            peer_type: s[0x3A],
            volu_id: s[0x3B],
            nvolumes: s[0x3C],
            fsid: read_array::<16>(s, 0x40),
            fstype: read_array::<16>(s, 0x50),
            allocator_size: read_u64_le(s, 0x60),
            allocator_free: read_u64_le(s, 0x68),
            allocator_beg: read_u64_le(s, 0x70),
            mirror_tid: read_u64_le(s, 0x78),
            freemap_tid: read_u64_le(s, 0x90),
            bulkfree_tid: read_u64_le(s, 0x98),
            total_size: read_u64_le(s, 0xC0),
            sroot_blockset: Hammer2Blockset::from_bytes(s, 0x200),
            freemap_blockset: Hammer2Blockset::from_bytes(s, 0x800),
            volu_loff: loff,
        }
    }
}

/// A method byte built from a check method and a compression method gives
/// both back: the check from the high four bits, the compression from the
/// low four.
pub proof fn lemma_methods_roundtrip(check: u8, comp: u8)
    ensures
        spec_dec_level((((check % 16) * 16) as u8 | (comp % 16) as u8) as u8) == check % 16,
        spec_dec_algo((((check % 16) * 16) as u8 | (comp % 16) as u8) as u8) == comp % 16,
{
    let c = (check % 16) as u8;
    let m = (comp % 16) as u8;
    assert(((c * 16) as u8 | m) / 16 == c) by (bit_vector)
        requires
            c < 16,
            m < 16,
    ;
    assert(((c * 16) as u8 | m) % 16 == m) by (bit_vector)
        requires
            c < 16,
            m < 16,
    ;
}

} // verus!
