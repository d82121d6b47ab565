//! The argument records of the HAMMER2 ioctls, laid out as the kernel
//! expects them.
use vstd::prelude::*;
use crate::fs::{Hammer2InodeData, HAMMER2_INODE_MAXNAME};

verus! {

pub const IOC: u8 = 0x68;

pub const IOC_VERSION_GET: u8 = 64;
pub const IOC_PFS_GET: u8 = 80;
pub const IOC_PFS_CREATE: u8 = 81;
pub const IOC_PFS_DELETE: u8 = 82;
pub const IOC_PFS_LOOKUP: u8 = 83;
pub const IOC_PFS_SNAPSHOT: u8 = 84;
pub const IOC_INODE_GET: u8 = 86;
pub const IOC_INODE_SET: u8 = 87;
pub const IOC_DEBUG_DUMP: u8 = 91;
pub const IOC_BULKFREE_SCAN: u8 = 92;
pub const IOC_DESTROY: u8 = 94;
pub const IOC_EMERG_MODE: u8 = 95;
pub const IOC_GROWFS: u8 = 96;
pub const IOC_VOLUME_LIST: u8 = 97;

/// The longest file name component, without its terminating NUL.
pub const NAME_MAX: usize = 255;
/// The longest path, with its terminating NUL.
pub const MAXPATHLEN: usize = 1024;

pub const PFS_FLAGS_NOSYNC: u32 = 0x0000_0001;

pub const INODE_FLAGS_IQUOTA: u32 = 0x0000_0001;
pub const INODE_FLAGS_DQUOTA: u32 = 0x0000_0002;
pub const INODE_FLAGS_COPIES: u32 = 0x0000_0004;
pub const INODE_FLAGS_CHECK: u32 = 0x0000_0008;
pub const INODE_FLAGS_COMP: u32 = 0x0000_0010;

pub const DESTROY_CMD_NOP: u32 = 0;
pub const DESTROY_CMD_FILE: u32 = 1;
pub const DESTROY_CMD_INUM: u32 = 2;

/// The version of a mounted file system.
#[derive(Debug)]
pub struct IocVersion {
    pub version: u32,
    pub reserved: [u8; 252],
}

impl IocVersion {
    pub fn new() -> (r: Self)
        ensures
            r.version == 0,
            forall|i: int| 0 <= i < 252 ==> r.reserved@[i] == 0,
    {
        Self { version: 0, reserved: [0u8; 252] }
    }
}

impl Default for IocVersion {
    fn default() -> (r: Self)
        ensures
            r.version == 0,
            forall|i: int| 0 <= i < 252 ==> r.reserved@[i] == 0,
    {
        Self::new()
    }
}

/// A PFS: its name, type and identifiers.
#[derive(Debug)]
pub struct IocPfs {
    pub name_key: u64,
    pub name_next: u64,
    pub pfs_type: u8,
    pub pfs_subtype: u8,
    pub reserved0012: u8,
    pub reserved0013: u8,
    pub pfs_flags: u32,
    pub reserved0018: u64,
    pub pfs_fsid: [u8; 16],
    pub pfs_clid: [u8; 16],
    pub name: [u8; 256],
}

/// All fields of a PFS record are zero.
pub open spec fn ioc_pfs_zero(r: IocPfs) -> bool {
    &&& r.name_key == 0 && r.name_next == 0 && r.pfs_type == 0 && r.pfs_subtype == 0
    &&& r.reserved0012 == 0 && r.reserved0013 == 0 && r.pfs_flags == 0 && r.reserved0018 == 0
    &&& forall|i: int| 0 <= i < 16 ==> r.pfs_fsid@[i] == 0 && r.pfs_clid@[i] == 0
    &&& forall|i: int| 0 <= i < 256 ==> r.name@[i] == 0
}

impl IocPfs {
    pub fn new() -> (r: Self)
        ensures
            ioc_pfs_zero(r),
    {
        Self {
            name_key: 0,
            name_next: 0,
            pfs_type: 0,
            pfs_subtype: 0,
            reserved0012: 0,
            reserved0013: 0,
            pfs_flags: 0,
            reserved0018: 0,
            pfs_fsid: [0u8; 16],
            pfs_clid: [0u8; 16],
            name: [0u8; 256],
        }
    }
}

impl Default for IocPfs {
    fn default() -> (r: Self)
        ensures
            ioc_pfs_zero(r),
    {
        Self::new()
    }
}

/// An inode's record and statistics.
#[derive(Debug)]
pub struct IocInode {
    pub flags: u32,
    pub unused: u64,
    pub data_count: u64,
    pub inode_count: u64,
    pub ip_data: Hammer2InodeData,
}

impl IocInode {
    pub fn new() -> (r: Self)
        ensures
            r.flags == 0 && r.unused == 0 && r.data_count == 0 && r.inode_count == 0,
            r.ip_data.meta.name_len == 0,
            forall|i: int| 0 <= i < 256 ==> r.ip_data.filename@[i] == 0,
    {
        Self { flags: 0, unused: 0, data_count: 0, inode_count: 0, ip_data: Hammer2InodeData::new() }
    }
}

impl Default for IocInode {
    fn default() -> (r: Self)
        ensures
            r.flags == 0 && r.unused == 0 && r.data_count == 0 && r.inode_count == 0,
    {
        Self::new()
    }
}

/// A bulk free scan: where it starts and what it found.
#[derive(Debug)]
pub struct IocBulkfree {
    pub sbase: u64,
    pub sstop: u64,
    pub size: u64,
    pub count_allocated: u64,
    pub count_freed: u64,
    pub total_fragmented: u64,
    pub total_allocated: u64,
    pub total_scanned: u64,
}

/// All fields of a bulk free record are zero.
pub open spec fn ioc_bulkfree_zero(r: IocBulkfree) -> bool {
    &&& r.sbase == 0 && r.sstop == 0 && r.size == 0 && r.count_allocated == 0
    &&& r.count_freed == 0 && r.total_fragmented == 0 && r.total_allocated == 0
    &&& r.total_scanned == 0
}

impl IocBulkfree {
    pub fn new() -> (r: Self)
        ensures
            ioc_bulkfree_zero(r),
    {
        Self {
            sbase: 0,
            sstop: 0,
            size: 0,
            count_allocated: 0,
            count_freed: 0,
            total_fragmented: 0,
            total_allocated: 0,
            total_scanned: 0,
        }
    }
}

impl Default for IocBulkfree {
    fn default() -> (r: Self)
        ensures
            ioc_bulkfree_zero(r),
    {
        Self::new()
    }
}

/// A request to destroy a directory entry by path or inode number.
#[derive(Debug)]
pub struct IocDestroy {
    pub cmd: u32,
    pub path: [u8; 256],
    pub inum: u64,
}

impl IocDestroy {
    pub fn new() -> (r: Self)
        ensures
            r.cmd == DESTROY_CMD_NOP && r.inum == 0,
            forall|i: int| 0 <= i < HAMMER2_INODE_MAXNAME ==> r.path@[i] == 0,
    {
        Self { cmd: DESTROY_CMD_NOP, path: [0u8; 256], inum: 0 }
    }
}

impl Default for IocDestroy {
    fn default() -> (r: Self)
        ensures
            r.cmd == DESTROY_CMD_NOP && r.inum == 0,
            forall|i: int| 0 <= i < HAMMER2_INODE_MAXNAME ==> r.path@[i] == 0,
    {
        Self::new()
    }
}

/// A request to grow the file system.
#[derive(Debug)]
pub struct IocGrowfs {
    pub size: u64,
    pub modified: u32,
    pub unused01: u32,
    pub unusedary: [u32; 14],
}

impl IocGrowfs {
    pub fn new() -> (r: Self)
        ensures
            r.size == 0 && r.modified == 0 && r.unused01 == 0,
            forall|i: int| 0 <= i < 14 ==> r.unusedary@[i] == 0,
    {
        Self { size: 0, modified: 0, unused01: 0, unusedary: [0u32; 14] }
    }
}

impl Default for IocGrowfs {
    fn default() -> (r: Self)
        ensures
            r.size == 0 && r.modified == 0 && r.unused01 == 0,
            forall|i: int| 0 <= i < 14 ==> r.unusedary@[i] == 0,
    {
        Self::new()
    }
}

/// One volume of a file system: its path, id and place.
#[derive(Clone, Copy, Debug)]
pub struct IocVolume {
    pub path: [u8; 1024],
    pub id: u32,
    pub offset: u64,
    pub size: u64,
}

impl IocVolume {
    pub fn new() -> (r: Self)
        ensures
            r.id == 0 && r.offset == 0 && r.size == 0,
            forall|i: int| 0 <= i < MAXPATHLEN ==> r.path@[i] == 0,
    {
        Self { path: [0u8; 1024], id: 0, offset: 0, size: 0 }
    }
}

impl Default for IocVolume {
    fn default() -> (r: Self)
        ensures
            r.id == 0 && r.offset == 0 && r.size == 0,
            forall|i: int| 0 <= i < MAXPATHLEN ==> r.path@[i] == 0,
    {
        Self::new()
    }
}

/// The volumes of a file system, as the kernel lists them.
#[derive(Debug)]
pub struct IocVolumeList {
    pub volumes: u64,
    pub nvolumes: u32,
    pub version: u32,
    pub pfs_name: [u8; 256],
}

impl IocVolumeList {
    pub fn new() -> (r: Self)
        ensures
            r.volumes == 0 && r.nvolumes == 0 && r.version == 0,
            forall|i: int| 0 <= i < HAMMER2_INODE_MAXNAME ==> r.pfs_name@[i] == 0,
    {
        Self { volumes: 0, nvolumes: 0, version: 0, pfs_name: [0u8; 256] }
    }
}

impl Default for IocVolumeList {
    fn default() -> (r: Self)
        ensures
            r.volumes == 0 && r.nvolumes == 0 && r.version == 0,
            forall|i: int| 0 <= i < HAMMER2_INODE_MAXNAME ==> r.pfs_name@[i] == 0,
    {
        Self::new()
    }
}

/// One volume of a file system as the newer volume listing reports it:
/// its path, id and place.
#[derive(Clone, Copy, Debug)]
pub struct IocVolume2 {
    pub path: [u8; 1024],
    pub id: u32,
    pub offset: u64,
    pub size: u64,
}

impl IocVolume2 {
    pub fn new() -> (r: Self)
        ensures
            r.id == 0 && r.offset == 0 && r.size == 0,
            forall|i: int| 0 <= i < MAXPATHLEN ==> r.path@[i] == 0,
    {
        Self { path: [0u8; 1024], id: 0, offset: 0, size: 0 }
    }
}

/// The volumes of a file system, as the newer volume listing reports them.
#[derive(Debug)]
pub struct IocVolumeList2 {
    pub volumes: u64,
    pub nvolumes: u32,
    pub version: u32,
    pub pfs_name: [u8; 256],
}

impl IocVolumeList2 {
    pub fn new() -> (r: Self)
        ensures
            r.volumes == 0 && r.nvolumes == 0 && r.version == 0,
            forall|i: int| 0 <= i < HAMMER2_INODE_MAXNAME ==> r.pfs_name@[i] == 0,
    {
        Self { volumes: 0, nvolumes: 0, version: 0, pfs_name: [0u8; 256] }
    }
}

} // verus!
