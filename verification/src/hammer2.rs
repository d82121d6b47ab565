//! A mounted HAMMER2 file system: the chains loaded from media, the inodes
//! found through them, and the operations on files and directories.
//!
//! Reading media is left to the caller. An operation that needs media it
//! does not have yet stops with [`Hammer2Error::NeedMedia`], naming what to
//! read; the caller reads it, hands it over with [`Hammer2::supply_media`]
//! and runs the operation again. Everything an operation learned before it
//! stopped stays in the chain cache, so each run gets further.
use vstd::prelude::*;
use std::collections::HashMap;
use crate::chain::{
    keys_ok, live_ranges_ok, Chain, Cid, CHAIN_ALL_MASK, CHAIN_COUNTED_BLOCKREF, CID_CHAIN_OFFSET, CID_FCHAIN,
    CID_NONE, CID_VCHAIN,
};
use crate::errno::Errno;
use crate::fs::{
    Hammer2Blockref, Hammer2VolumeData, HAMMER2_BREF_TYPE_DATA, HAMMER2_BREF_TYPE_DIRENT,
    HAMMER2_BREF_TYPE_EMPTY,
    HAMMER2_BREF_TYPE_FREEMAP, HAMMER2_BREF_TYPE_FREEMAP_LEAF, HAMMER2_BREF_TYPE_FREEMAP_NODE,
    HAMMER2_BREF_TYPE_INDIRECT, HAMMER2_BREF_TYPE_INODE, HAMMER2_BREF_TYPE_VOLUME,
};
use crate::inode::Inode;
use crate::keys::{chain_key_ok, range_ok};
use crate::ondisk::{first_volume_with, media_blockrefs, media_size_ok, vols_fit, Ondisk};
use crate::option::{CidAllocMode, Opt};
use vstd::string::{StrSliceExecFns, StringExecFns};
use vstd::utf8::encode_utf8;

verus! {

broadcast use vstd::std_specs::hash::group_hash_axioms;

/// Resolve the data of the chains a lookup returns.
pub const LOOKUP_ALWAYS: u32 = 0x0000_0800;

/// Load a chain's media unless it holds file data.
pub const RESOLVE_MAYBE: u32 = 2;
/// Always load a chain's media.
pub const RESOLVE_ALWAYS: u32 = 3;
pub const RESOLVE_MASK: u32 = 0x0F;

/// A directory entry.
#[derive(Debug)]
pub struct Dirent {
    pub inum: u64,
    pub typ: u8,
    pub name: String,
}

impl Dirent {
    pub fn new(inum: u64, typ: u8, name: &str) -> (r: Self)
        ensures
            r.inum == inum,
            r.typ == typ,
            r.name@ == name@,
    {
        Self { inum, typ, name: name.to_string() }
    }
}

/// The directory entry a chain stands for: an inode by its number (less
/// the visibility bit), type and name; a directory entry by the number and
/// type in its head and its name; none without a name.
pub open spec fn dirent_of(c: Chain) -> Option<(u64, u8, Seq<char>)> {
    match crate::chain::chain_name(c) {
        None => None,
        Some(n) => if c.bref.typ == HAMMER2_BREF_TYPE_INODE && c.data@.len() == 1024 {
            Some(
                (
                    crate::fs::le64(c.data@, 0x58) & crate::fs::HAMMER2_DIRHASH_USERMSK,
                    c.data@[0x50],
                    n,
                ),
            )
        } else if c.bref.typ == HAMMER2_BREF_TYPE_DIRENT {
            Some((crate::fs::le64(c.bref.embed@, 0), c.bref.embed@[10], n))
        } else {
            None
        },
    }
}

/// Every entry from index `from` on stands for a chain of the cache `m`.
pub open spec fn entries_from_cache(v: Seq<Dirent>, from: int, m: Map<u64, Chain>) -> bool {
    forall|k: int|
        from <= k < v.len() ==> exists|cid: u64|
            #![trigger m[cid]]
            m.contains_key(cid) && dirent_of(m[cid]) == Some(
                ((#[trigger] v[k]).inum, v[k].typ, v[k].name@),
            )
}

/// What `bmap` reports for media at the raw offset `off`: the offset less
/// the start of its volume counted in device blocks; none when no volume
/// holds it.
pub open spec fn bmap_of(vols: Seq<crate::volume::Volume>, off: u64) -> Option<u64> {
    let i = first_volume_with(vols, off);
    if i < 0 {
        None
    } else {
        Some((off - vols[i].offset / 512) as u64)
    }
}

/// What `bmap` answers for a block whose chain has media at the raw offset
/// `off`: `EINVAL` for the offset that stands for no media, the offset
/// within its volume in device blocks, or `ENODEV` when no volume holds it.
pub open spec fn bmap_answer(vols: Seq<crate::volume::Volume>, off: u64) -> Result<u64, Hammer2Error> {
    if off == crate::fs::HAMMER2_OFF_MASK {
        Err(Hammer2Error::Errno(Errno::EINVAL))
    } else {
        match bmap_of(vols, off) {
            Some(b) => Ok(b),
            None => Err(Hammer2Error::Errno(Errno::ENODEV)),
        }
    }
}

/// How much a read of `size` bytes at `offset` of a file of `ipsize` bytes
/// gives: as much as asked, cut at the end of the file.
pub open spec fn pread_len_ok(n: nat, ipsize: u64, size: u64, offset: u64) -> bool {
    n == if offset >= ipsize {
        0
    } else if size < ipsize - offset {
        size as int
    } else {
        ipsize - offset
    }
}

/// The status of a file.
#[derive(Debug, Clone, Copy, PartialEq, Eq, Structural)]
pub struct Stat {
    pub st_dev: u64,
    pub st_ino: u64,
    pub st_nlink: u32,
    pub st_mode: u32,
    pub st_uid: u32,
    pub st_gid: u32,
    pub st_rdev: u32,
    pub st_size: u64,
    pub st_blksize: u32,
    pub st_blocks: u64,
    pub st_atime: u64,
    pub st_mtime: u64,
    pub st_ctime: u64,
}

/// The status of the file system.
#[derive(Debug, Clone, Copy, PartialEq, Eq, Structural)]
pub struct StatFs {
    pub f_bsize: u32,
    pub f_blocks: u64,
    pub f_bfree: u64,
    pub f_bavail: u64,
    pub f_files: u64,
    pub f_ffree: u64,
    pub f_namelen: u32,
    pub f_frsize: u32,
}

/// Chain id allocation: the next id to hand out and the largest one.
#[derive(Debug)]
pub struct CidMap {
    pub next: Cid,
    pub max: Cid,
    pub pool: Vec<Cid>,
}

impl CidMap {
    pub fn new() -> (r: Self)
        ensures
            r.next == CID_CHAIN_OFFSET,
            r.max == 0,
            r.pool@.len() == 0,
    {
        Self { next: CID_CHAIN_OFFSET, max: 0, pool: Vec::new() }
    }
}

/// Media an operation needs: the bytes of chain `cid`, `bytes` long, at
/// the raw offset `offset` of the file system, which volume `volume` holds.
#[derive(Debug, Clone, Copy, PartialEq, Eq, Structural)]
pub struct MediaRequest {
    pub cid: Cid,
    pub volume: usize,
    pub offset: u64,
    pub bytes: u64,
}

/// Why an operation did not complete: an error, or media it needs.
#[derive(Debug, Clone, Copy, PartialEq, Eq, Structural)]
pub enum Hammer2Error {
    Errno(Errno),
    NeedMedia(MediaRequest),
}

/// A mounted file system.
#[derive(Debug)]
pub struct Hammer2 {
    pub opt: Opt,
    pub fso: Ondisk,
    pub voldata: Hammer2VolumeData,
    pub label: String,
    pub imap: CidMap,
    pub cmap: HashMap<u64, Chain>,
    pub nmap: HashMap<u64, Inode>,
    /// Media handed over for the next load: its raw offset and bytes.
    pub media: Option<(u64, Vec<u8>)>,
    /// The image of the root volume header.
    pub vimage: Vec<u8>,
}

/// What a chain keeps true: its key range fits, its children's do, its
/// media has the size its records need, and its block table statistics
/// were counted on such media.
pub open spec fn chain_ok(c: Chain) -> bool {
    &&& chain_key_ok(c.key_of())
    &&& keys_ok(c.ccids@)
    &&& c.data@.len() > 0 ==> media_size_ok(c.bref.typ, c.data@)
    &&& c.flags & CHAIN_COUNTED_BLOCKREF != 0 ==> {
        &&& media_size_ok(c.bref.typ, c.data@)
        &&& (media_blockrefs(c.bref.typ, c.data@) matches Ok(s) ==> c.live_zero <= s.len())
        &&& c.data@.len() == 0 ==> c.live_zero == 0
    }
    &&& c.flags & CHAIN_COUNTED_BLOCKREF == 0 ==> c.live_count == 0
    &&& c.udata@.len() > 0 ==> c.data@.len() > 0 && crate::chain::chain_data(c) == Ok::<
        Seq<u8>,
        Errno,
    >(c.udata@)
}

/// Every chain in the cache is filed under its own id and keeps its
/// invariant.
pub open spec fn cmap_ok(m: Map<u64, Chain>) -> bool {
    &&& !m.contains_key(CID_NONE)
    &&& forall|k: u64| #[trigger] m.contains_key(k) ==> m[k].cid == k && chain_ok(m[k])
}

/// Every inode in the table is filed under its own number.
pub open spec fn nmap_ok(m: Map<u64, Inode>) -> bool {
    forall|k: u64| #[trigger] m.contains_key(k) ==> m[k].meta.inum == k
}

/// The largest chain id a way of allocating hands out.
pub open spec fn cid_max(mode: CidAllocMode) -> u64 {
    match mode {
        CidAllocMode::Linear => (u64::MAX - 1) as u64,
        CidAllocMode::Bitmap => (CIDMAP_BITMAP_BITS - 1) as u64,
    }
}

/// The number of chain ids a bitmap allocation covers: 4 Mi bits, a whole
/// number of 64-bit words.
pub const CIDMAP_BITMAP_BITS: u64 = 0x40_0000;

impl Hammer2 {
    /// The mounted file system is in order: its chains keep their
    /// invariant, chain ids are handed out above the fixed ones, and its
    /// volumes lie within the offset space.
    pub open spec fn wf(&self) -> bool {
        &&& cmap_ok(self.cmap@)
        &&& nmap_ok(self.nmap@)
        &&& self.imap.next >= CID_CHAIN_OFFSET
        &&& self.imap.max < u64::MAX
        &&& vols_fit(self.fso.volumes@)
        &&& self.vimage@.len() == 65536
    }

    /// The chain `cid`; `EINVAL` when it is not in the cache.
    pub fn get_chain(&self, cid: Cid) -> (r: Result<&Chain, Errno>)
        ensures
            r is Ok <==> self.cmap@.contains_key(cid),
            r matches Ok(c) ==> *c == self.cmap@[cid],
            r is Err ==> r == Err::<&Chain, Errno>(Errno::EINVAL),
    {
        match self.cmap.get(&cid) {
            Some(c) => Ok(c),
            None => Err(Errno::EINVAL),
        }
    }

    /// Takes the chain `cid` out of the cache.
    fn take_chain(&mut self, cid: Cid) -> (r: Result<Chain, Errno>)
        ensures
            r is Ok <==> old(self).cmap@.contains_key(cid),
            r matches Ok(c) ==> c == old(self).cmap@[cid] && final(self).cmap@ == old(self).cmap@.remove(cid),
            r is Err ==> r == Err::<Chain, Errno>(Errno::EINVAL) && final(self).cmap@ == old(self).cmap@,
            final(self).nmap@ == old(self).nmap@ && final(self).imap == old(self).imap,
            final(self).fso == old(self).fso && final(self).media == old(self).media,
            final(self).voldata == old(self).voldata && final(self).opt == old(self).opt,
            final(self).label@ == old(self).label@ && final(self).vimage@ == old(self).vimage@,
    {
        match self.cmap.remove(&cid) {
            Some(c) => Ok(c),
            None => Err(Errno::EINVAL),
        }
    }

    /// Files the chain `c` under its id.
    fn put_chain(&mut self, c: Chain)
        ensures
            final(self).cmap@ == old(self).cmap@.insert(c.cid, c),
            final(self).nmap@ == old(self).nmap@ && final(self).imap == old(self).imap,
            final(self).fso == old(self).fso && final(self).media == old(self).media,
            final(self).voldata == old(self).voldata && final(self).opt == old(self).opt,
            final(self).label@ == old(self).label@ && final(self).vimage@ == old(self).vimage@,
    {
        let cid = c.cid;
        self.cmap.insert(cid, c);
    }
}

/// Whether media of a block reference type has the size its records need.
pub fn media_size_ok_exec(typ: u8, media: &[u8]) -> (r: bool)
    ensures
        r == media_size_ok(typ, media@),
{
    let n = media.len();
    if typ == HAMMER2_BREF_TYPE_INODE {
        n == 1024
    } else if typ == HAMMER2_BREF_TYPE_FREEMAP || typ == HAMMER2_BREF_TYPE_VOLUME {
        n == 65536
    } else if typ == HAMMER2_BREF_TYPE_INDIRECT || typ == HAMMER2_BREF_TYPE_FREEMAP_NODE {
        n % 128 == 0
    } else {
        true
    }
}

impl Hammer2 {
    /// A file system with no chain and no inode yet, over the volumes `fso`
    /// whose root volume header has the image `vimage`.
    pub fn new(fso: Ondisk, opt: Opt, vimage: Vec<u8>) -> (r: Self)
        requires
            vimage@.len() == 65536,
            vols_fit(fso.volumes@),
        ensures
            r.wf(),
            r.cmap@ == Map::<u64, Chain>::empty(),
            r.nmap@ == Map::<u64, Inode>::empty(),
            r.imap.next == CID_CHAIN_OFFSET,
            r.imap.max == cid_max(opt.cidalloc),
            r.opt == opt,
            r.label@.len() == 0,
            r.media is None,
            crate::fs::volume_data_decodes(r.voldata, vimage@),
            r.vimage@ == vimage@,
    {
        let voldata = Hammer2VolumeData::from_bytes(vimage.as_slice());
        let mut imap = CidMap::new();
        imap.max = match opt.cidalloc {
            CidAllocMode::Linear => u64::MAX - 1,
            CidAllocMode::Bitmap => CIDMAP_BITMAP_BITS - 1,
        };
        Self {
            opt,
            fso,
            voldata,
            label: String::new(),
            imap,
            cmap: HashMap::new(),
            nmap: HashMap::new(),
            media: None,
            vimage,
        }
    }

    /// Hands over media for the next load of the chain it belongs to.
    pub fn supply_media(&mut self, offset: u64, data: Vec<u8>)
        ensures
            final(self).media == Some((offset, data)),
            final(self).cmap@ == old(self).cmap@ && final(self).nmap@ == old(self).nmap@,
            final(self).imap == old(self).imap && final(self).fso == old(self).fso,
            final(self).voldata == old(self).voldata && final(self).opt == old(self).opt,
            final(self).label@ == old(self).label@ && final(self).vimage@ == old(self).vimage@,
    {
        self.media = Some((offset, data));
    }

    /// Hands out the next chain id: linearly up to the largest id (`ENOSPC`
    /// beyond it); bitmap allocation is not supported (`EOPNOTSUPP`).
    pub fn alloc_cid(&mut self) -> (r: Result<Cid, Errno>)
        requires
            old(self).imap.next >= CID_CHAIN_OFFSET,
            old(self).imap.max < u64::MAX,
        ensures
            match old(self).opt.cidalloc {
                CidAllocMode::Linear => if old(self).imap.next > old(self).imap.max {
                    r == Err::<Cid, Errno>(Errno::ENOSPC) && final(self).imap == old(self).imap
                } else {
                    r == Ok::<Cid, Errno>(old(self).imap.next) && final(self).imap.next == old(self).imap.next + 1 && final(self).imap.max == old(self).imap.max
                        && final(self).imap.pool@ == old(self).imap.pool@
                },
                CidAllocMode::Bitmap => r == Err::<Cid, Errno>(Errno::EOPNOTSUPP) && final(self).imap == old(self).imap,
            },
            r matches Ok(c) ==> c != CID_NONE && c != CID_VCHAIN && c != CID_FCHAIN,
            final(self).cmap@ == old(self).cmap@ && final(self).nmap@ == old(self).nmap@,
            final(self).fso == old(self).fso && final(self).media == old(self).media,
            final(self).voldata == old(self).voldata && final(self).opt == old(self).opt,
            final(self).label@ == old(self).label@ && final(self).vimage@ == old(self).vimage@,
    {
        match self.opt.cidalloc {
            CidAllocMode::Linear => self.alloc_cidmap_linear(),
            CidAllocMode::Bitmap => self.alloc_cidmap_bitmap(),
        }
    }

    fn alloc_cidmap_linear(&mut self) -> (r: Result<Cid, Errno>)
        requires
            old(self).imap.max < u64::MAX,
        ensures
            if old(self).imap.next > old(self).imap.max {
                r == Err::<Cid, Errno>(Errno::ENOSPC) && final(self).imap == old(self).imap
            } else {
                r == Ok::<Cid, Errno>(old(self).imap.next) && final(self).imap.next == old(self).imap.next + 1 && final(self).imap.max == old(self).imap.max
                    && final(self).imap.pool@ == old(self).imap.pool@
            },
            final(self).cmap@ == old(self).cmap@ && final(self).nmap@ == old(self).nmap@,
            final(self).fso == old(self).fso && final(self).media == old(self).media,
            final(self).voldata == old(self).voldata && final(self).opt == old(self).opt,
            final(self).label@ == old(self).label@ && final(self).vimage@ == old(self).vimage@,
    {
        if self.imap.next > self.imap.max {
            return Err(Errno::ENOSPC);
        }
        let cid = self.imap.next;
        self.imap.next = self.imap.next + 1;
        Ok(cid)
    }

    fn alloc_cidmap_bitmap(&self) -> (r: Result<Cid, Errno>)
        ensures
            r == Err::<Cid, Errno>(Errno::EOPNOTSUPP),
    {
        Err(Errno::EOPNOTSUPP)
    }

    /// Adds `chain` to the cache as a child of `pcid`; `EEXIST` when its id
    /// is taken, `EINVAL` when the parent is not in the cache.
    fn add_chain(&mut self, pcid: Cid, chain: Chain) -> (r: Result<(), Errno>)
        requires
            old(self).wf(),
            chain_ok(chain),
            chain.cid != CID_NONE && chain.cid != CID_VCHAIN && chain.cid != CID_FCHAIN,
            chain.pcid == CID_NONE,
        ensures
            final(self).wf(),
            r is Ok <==> !old(self).cmap@.contains_key(chain.cid) && old(self).cmap@.contains_key(pcid),
            old(self).cmap@.contains_key(chain.cid) ==> r == Err::<(), Errno>(Errno::EEXIST),
            !old(self).cmap@.contains_key(chain.cid) && !old(self).cmap@.contains_key(pcid) ==> r
                == Err::<(), Errno>(Errno::EINVAL),
            r is Ok ==> final(self).cmap@[pcid].ccids@ == crate::chain::isort(
                old(self).cmap@[pcid].ccids@.push(chain.key_of()),
            ),
            cache_grows(old(self).cmap@, final(self).cmap@),
            r is Ok ==> final(self).cmap@.contains_key(chain.cid) && final(self).cmap@[chain.cid].pcid
                == pcid && final(self).cmap@[chain.cid].bref == chain.bref
                && final(self).cmap@[chain.cid].data@ == chain.data@
                && final(self).cmap@[chain.cid].flags == chain.flags
                && final(self).cmap@[chain.cid].bytes == chain.bytes,
            r is Ok ==> forall|k: u64|
                #[trigger] old(self).cmap@.contains_key(k) ==> final(self).cmap@.contains_key(k),
            r is Ok ==> final(self).cmap@.contains_key(pcid) && final(self).cmap@[pcid].ccids@.contains(
                chain.key_of(),
            ),
            r is Err ==> final(self).cmap@ == old(self).cmap@,
            final(self).nmap@ == old(self).nmap@ && final(self).imap == old(self).imap,
            final(self).fso == old(self).fso && final(self).media == old(self).media,
            final(self).voldata == old(self).voldata && final(self).opt == old(self).opt,
            final(self).label@ == old(self).label@ && final(self).vimage@ == old(self).vimage@,
    {
        if self.cmap.contains_key(&chain.cid) {
            return Err(Errno::EEXIST);
        }
        let mut chain = chain;
        chain.pcid = pcid;
        let mut p = self.take_chain(pcid)?;
        assert(chain_ok(p));
        p.add_child(&chain);
        proof {
            crate::chain::lemma_isort_push_contains(old(self).cmap@[pcid].ccids@, chain.key_of());
        }
        self.put_chain(p);
        self.put_chain(chain);
        Ok(())
    }

    /// Removes the chain `cid` from the cache and from the children of
    /// `pcid`; `ENOENT` when it is not a child or not in the cache,
    /// `EINVAL` for a fixed chain id or a parent that is not in the cache.
    pub fn remove_chain(&mut self, pcid: Cid, cid: Cid) -> (r: Result<Chain, Errno>)
        requires
            old(self).wf(),
        ensures
            final(self).wf(),
            r is Ok <==> remove_ok(old(self).cmap@, pcid, cid),
            r is Err ==> r == Err::<Chain, Errno>(
                if cid == CID_NONE || cid == CID_VCHAIN || cid == CID_FCHAIN || pcid == CID_NONE
                    || !old(self).cmap@.contains_key(pcid) {
                    Errno::EINVAL
                } else {
                    Errno::ENOENT
                },
            ),
            r is Ok && pcid != cid ==> final(self).cmap@[pcid].ccids@ == crate::chain::isort(
                crate::chain::swap_remove_spec(
                    old(self).cmap@[pcid].ccids@,
                    crate::chain::first_cid_index(old(self).cmap@[pcid].ccids@, cid),
                ),
            ),
            r matches Ok(c) ==> old(self).cmap@.contains_key(cid) && c.cid == cid && c.bref == old(self).cmap@[cid].bref && c.data@ == old(self).cmap@[cid].data@ && chain_ok(c)
                && !final(self).cmap@.contains_key(cid),
            forall|k: u64|
                #[trigger] final(self).cmap@.contains_key(k) ==> old(self).cmap@.contains_key(k),
            r is Ok ==> final(self).cmap@.len() < old(self).cmap@.len(),
            final(self).cmap@.len() <= old(self).cmap@.len(),
            forall|k: u64|
                #[trigger] old(self).cmap@.contains_key(k) && k != cid ==> final(self).cmap@.contains_key(
                    k,
                ) && same_place(old(self).cmap@[k], final(self).cmap@[k]) && final(self).cmap@[k].data@
                    == old(self).cmap@[k].data@,
            forall|k: u64|
                #[trigger] old(self).cmap@.contains_key(k) && k != cid && k != pcid
                    ==> final(self).cmap@[k] == old(self).cmap@[k],
            final(self).cmap@.contains_key(cid) ==> same_place(old(self).cmap@[cid], final(self).cmap@[cid])
                && final(self).cmap@[cid].data@ == old(self).cmap@[cid].data@,
            final(self).nmap@ == old(self).nmap@ && final(self).imap == old(self).imap,
            final(self).fso == old(self).fso && final(self).media == old(self).media,
            final(self).voldata == old(self).voldata && final(self).opt == old(self).opt,
            final(self).label@ == old(self).label@ && final(self).vimage@ == old(self).vimage@,
    {
        if cid == CID_NONE || cid == CID_VCHAIN || cid == CID_FCHAIN || pcid == CID_NONE {
            return Err(Errno::EINVAL);
        }
        let mut p = self.take_chain(pcid)?;
        assert(chain_ok(p));
        let r = p.remove_child(cid);
        self.put_chain(p);
        r?;
        match self.cmap.remove(&cid) {
            Some(c) => Ok(c),
            None => Err(Errno::ENOENT),
        }
    }

    /// Adds an inode under its number; `EEXIST` when the number is taken.
    fn add_inode(&mut self, ip: Inode) -> (r: Result<(), Errno>)
        requires
            old(self).wf(),
        ensures
            final(self).wf(),
            r is Ok <==> !old(self).nmap@.contains_key(ip.meta.inum),
            r is Ok ==> final(self).nmap@ == old(self).nmap@.insert(ip.meta.inum, ip),
            r is Err ==> r == Err::<(), Errno>(Errno::EEXIST) && final(self).nmap@ == old(self).nmap@,
            final(self).cmap@ == old(self).cmap@ && final(self).imap == old(self).imap,
            final(self).fso == old(self).fso && final(self).media == old(self).media,
            final(self).voldata == old(self).voldata && final(self).opt == old(self).opt,
            final(self).label@ == old(self).label@ && final(self).vimage@ == old(self).vimage@,
    {
        if self.nmap.contains_key(&ip.meta.inum) {
            return Err(Errno::EEXIST);
        }
        let inum = ip.meta.inum;
        self.nmap.insert(inum, ip);
        Ok(())
    }

    /// Removes the inode `inum`; `ENOENT` when there is none.
    fn remove_inode(&mut self, inum: u64) -> (r: Result<Inode, Errno>)
        requires
            old(self).wf(),
        ensures
            final(self).wf(),
            r is Ok <==> old(self).nmap@.contains_key(inum),
            r matches Ok(ip) ==> ip == old(self).nmap@[inum] && final(self).nmap@ == old(self).nmap@.remove(inum),
            r is Err ==> r == Err::<Inode, Errno>(Errno::ENOENT) && final(self).nmap@ == old(self).nmap@,
            final(self).cmap@ == old(self).cmap@ && final(self).imap == old(self).imap,
            final(self).fso == old(self).fso && final(self).media == old(self).media,
            final(self).voldata == old(self).voldata && final(self).opt == old(self).opt,
            final(self).label@ == old(self).label@ && final(self).vimage@ == old(self).vimage@,
    {
        match self.nmap.remove(&inum) {
            Some(ip) => Ok(ip),
            None => Err(Errno::ENOENT),
        }
    }

    /// Makes sure an inode `inum` is in the table: `true` when it was
    /// (`EINVAL` if it has no chain), `false` when an empty one was added.
    fn set_inode(&mut self, inum: u64) -> (r: Result<bool, Errno>)
        requires
            old(self).wf(),
        ensures
            final(self).wf(),
            old(self).nmap@.contains_key(inum) ==> final(self).nmap@ == old(self).nmap@ && r == if old(self).nmap@[inum].cid == CID_NONE {
                Err::<bool, Errno>(Errno::EINVAL)
            } else {
                Ok::<bool, Errno>(true)
            },
            !old(self).nmap@.contains_key(inum) ==> r == Ok::<bool, Errno>(false)
                && final(self).nmap@.contains_key(inum) && final(self).nmap@[inum].cid == CID_NONE
                && final(self).nmap@ == old(self).nmap@.insert(inum, final(self).nmap@[inum]),
            final(self).cmap@ == old(self).cmap@ && final(self).imap == old(self).imap,
            final(self).fso == old(self).fso && final(self).media == old(self).media,
            final(self).voldata == old(self).voldata && final(self).opt == old(self).opt,
            final(self).label@ == old(self).label@ && final(self).vimage@ == old(self).vimage@,
    {
        match self.nmap.get(&inum) {
            Some(ip) => {
                if ip.cid == CID_NONE {
                    return Err(Errno::EINVAL);
                }
                Ok(true)
            },
            None => {
                let mut ip = Inode::new_empty();
                ip.meta.inum = inum;
                self.add_inode(ip)?;
                Ok(false)
            },
        }
    }

    /// Makes sure the inode held by the first chain an operation collected
    /// is in the table: its number, and whether it was there already.
    fn set_inode_from_xop(&mut self, head: &crate::xop::XopHeader) -> (r: Result<(u64, bool), Errno>)
        requires
            old(self).wf(),
        ensures
            final(self).wf(),
            r is Ok <==> xop_inode_ok(*old(self), *head),
            r is Err ==> r == Err::<(u64, bool), Errno>(
                if head.cids@.len() == 0 {
                    Errno::ENOENT
                } else {
                    Errno::EINVAL
                },
            ),
            r matches Ok((inum, ex)) ==> inum == crate::fs::le64(old(self).cmap@[head.cids@[0]].data@, 0x58)
                && ex == old(self).nmap@.contains_key(inum),
            r matches Ok((inum, ex)) ==> ex ==> final(self).nmap@ == old(self).nmap@,
            r matches Ok((inum, ex)) ==> !ex ==> final(self).nmap@ == old(self).nmap@.insert(
                inum,
                final(self).nmap@[inum],
            ),
            r matches Ok((inum, _)) ==> final(self).nmap@.contains_key(inum),
            r matches Ok((inum, _)) ==> ({
                let c = head.cids@[0];
                &&& head.cids@.len() > 0
                &&& final(self).cmap@.contains_key(c)
                &&& final(self).cmap@[c].bref.typ == HAMMER2_BREF_TYPE_INODE
                &&& final(self).cmap@[c].data@.len() == 1024
                &&& crate::fs::le64(final(self).cmap@[c].data@, 0x58) == inum
                &&& final(self).nmap@[inum].cid == c
            }),
            forall|k: u64|
                #[trigger] old(self).nmap@.contains_key(k) ==> final(self).nmap@.contains_key(k)
                    && final(self).nmap@[k] == old(self).nmap@[k],
            final(self).cmap@ == old(self).cmap@ && final(self).imap == old(self).imap,
            final(self).fso == old(self).fso && final(self).media == old(self).media,
            final(self).voldata == old(self).voldata && final(self).opt == old(self).opt,
            final(self).label@ == old(self).label@ && final(self).vimage@ == old(self).vimage@,
    {
        let cid = head.collect()?;
        let chain = self.get_chain(cid)?;
        if chain.bref.typ != HAMMER2_BREF_TYPE_INODE || chain.data.len() != 1024 {
            return Err(Errno::EINVAL);
        }
        let ipdata = chain.as_inode_data();
        let ccid = chain.cid;
        let inum = ipdata.meta.inum;
        match self.nmap.get(&inum) {
            Some(ip) => {
                if ip.cid == CID_NONE || ip.cid != ccid {
                    return Err(Errno::EINVAL);
                }
                Ok((inum, true))
            },
            None => {
                self.add_inode(Inode::new(&ipdata.meta, ccid))?;
                Ok((inum, false))
            },
        }
    }
}

/// Whether the range of `2^keybits` keys from `key` fits in 64 bits.
pub fn range_ok_exec(key: u64, keybits: u8) -> (r: bool)
    ensures
        r == range_ok(key, keybits),
{
    if keybits >= 64 {
        return false;
    }
    proof {
        vstd::bits::lemma_u64_pow2_no_overflow(keybits as nat);
        vstd::bits::lemma_u64_shl_is_mul(1u64, keybits as u64);
    }
    let span = (1u64 << (keybits as u64)) - 1;
    key <= u64::MAX - span
}

/// The raw media offset of a block reference, without its radix bits.
pub open spec fn raw_off(b: Hammer2Blockref) -> u64 {
    (b.data_off - b.data_off % 64) as u64
}

/// A load of chain `cid` that finished without media: file data under
/// `RESOLVE_MAYBE`, a block reference without a media offset, or media of
/// no size.
pub open spec fn load_skips(c: Chain, how: u32) -> bool {
    ||| (how & RESOLVE_MASK == RESOLVE_MAYBE && c.bref.typ == HAMMER2_BREF_TYPE_DATA)
    ||| raw_off(c.bref) == 0
    ||| c.bytes == 0
}

/// Removing chain `cid` from under `pcid` succeeds: neither is a fixed id,
/// both are in the cache `m`, and `cid` is among the children of `pcid`.
pub open spec fn remove_ok(m: Map<u64, Chain>, pcid: Cid, cid: Cid) -> bool {
    &&& cid != CID_NONE && cid != CID_VCHAIN && cid != CID_FCHAIN && pcid != CID_NONE
    &&& m.contains_key(pcid) && m.contains_key(cid)
    &&& crate::chain::first_cid_index(m[pcid].ccids@, cid) >= 0
}

/// The media held ready, as bytes (none when nothing is held).
pub open spec fn ready_media(h: Hammer2) -> Seq<u8> {
    match h.media {
        Some(p) => p.1@,
        None => Seq::empty(),
    }
}

/// Media is held ready for chain `c`: handed over for its offset and size.
pub open spec fn media_ready(h: Hammer2, c: Chain) -> bool {
    h.media matches Some(p) && p.0 == raw_off(c.bref) && p.1@.len() == c.bytes
}

/// A chain type whose media a load installs (a directory entry only when
/// it has media of its own).
pub open spec fn loadable_type(typ: u8, bytes: u64) -> bool {
    ||| typ == HAMMER2_BREF_TYPE_INODE
    ||| typ == HAMMER2_BREF_TYPE_INDIRECT
    ||| typ == HAMMER2_BREF_TYPE_DATA
    ||| typ == HAMMER2_BREF_TYPE_FREEMAP_NODE
    ||| typ == HAMMER2_BREF_TYPE_FREEMAP_LEAF
    ||| (typ == HAMMER2_BREF_TYPE_DIRENT && bytes != 0)
}

/// A load of chain `c` as `how` asks has nothing to do: file data under
/// `RESOLVE_MAYBE`, a chain that has media, or one without a media offset.
pub open spec fn load_done(c: Chain, how: u32) -> bool {
    ||| (how & RESOLVE_MASK == RESOLVE_MAYBE && c.bref.typ == HAMMER2_BREF_TYPE_DATA)
    ||| c.data@.len() > 0
    ||| raw_off(c.bref) == 0
}

/// A load of chain `cid` as `how` asks succeeds in `h`: the chain is in the
/// cache, `how` is a way of loading, and either there is nothing to do or
/// media is ready for the chain on a volume that holds its offset, passes
/// the chain's check (or the chain passed before), and fits its type.
pub open spec fn load_succeeds(h: Hammer2, cid: Cid, how: u32) -> bool {
    let m = how & RESOLVE_MASK;
    let c = h.cmap@[cid];
    &&& h.cmap@.contains_key(cid)
    &&& (m == RESOLVE_MAYBE || m == RESOLVE_ALWAYS || m == 0)
    &&& (load_done(c, how) || {
        &&& first_volume_with(h.fso.volumes@, raw_off(c.bref)) >= 0
        &&& media_ready(h, c)
        &&& (c.flags & crate::chain::CHAIN_TESTED_GOOD != 0 || crate::ondisk::verify_media_spec(
            c.bref,
            ready_media(h),
        ) == Ok::<bool, Errno>(true))
        &&& loadable_type(c.bref.typ, c.bytes)
        &&& media_size_ok(c.bref.typ, ready_media(h))
    })
}

/// After chain `c` loaded as `how` asks, its parent loads too: it has no
/// parent, or the parent's load succeeds where the first load did nothing,
/// or, the media held ready having gone to `c`, the parent needs none.
pub open spec fn parent_load_ok(h: Hammer2, c: Cid, how: u32) -> bool {
    let p = h.cmap@[c].pcid;
    ||| p == CID_NONE
    ||| load_done(h.cmap@[c], how) && load_succeeds(h, p, how)
    ||| !load_done(h.cmap@[c], how) && p == c && ready_media(h).len() > 0
    ||| !load_done(h.cmap@[c], how) && p != c && h.cmap@.contains_key(p) && load_done(h.cmap@[p], how)
}

/// A chain of a fixed id over the root volume header's image `image`, for
/// the block reference `bref`, with no parent and no children.
pub open spec fn header_chain(c: Chain, bref: Hammer2Blockref, cid: Cid, image: Seq<u8>) -> bool {
    &&& c.bref == bref && c.cid == cid && c.pcid == CID_NONE
    &&& c.data@ == image && c.ccids@.len() == 0
}

/// The chain first collected in `head` can have its inode entered in the
/// table of `h`: it holds a whole inode whose number is free, or already
/// entered with that very chain.
pub open spec fn xop_inode_ok(h: Hammer2, head: crate::xop::XopHeader) -> bool {
    let c = head.cids@[0];
    let inum = crate::fs::le64(h.cmap@[c].data@, 0x58);
    &&& head.cids@.len() > 0
    &&& h.cmap@.contains_key(c)
    &&& h.cmap@[c].bref.typ == HAMMER2_BREF_TYPE_INODE && h.cmap@[c].data@.len() == 1024
    &&& (!h.nmap@.contains_key(inum) || (h.nmap@[inum].cid != CID_NONE && h.nmap@[inum].cid == c))
}

/// Counting the block table of chain `c` succeeds: its media has the size
/// its records need, and it was counted before or its block table reads.
pub open spec fn count_ok(c: Chain) -> bool {
    &&& media_size_ok(c.bref.typ, c.data@)
    &&& (c.flags & CHAIN_COUNTED_BLOCKREF != 0 || media_blockrefs(c.bref.typ, c.data@) is Ok)
}

/// A load as `how` asks of a new chain for `bref` (no media, never
/// checked) succeeds in `h`.
pub open spec fn new_chain_loads(h: Hammer2, bref: Hammer2Blockref, how: u32) -> bool {
    let m = how & RESOLVE_MASK;
    let off = (bref.data_off - bref.data_off % 64) as u64;
    let bytes = crate::chain::radix_bytes(bref.data_off);
    &&& (m == RESOLVE_MAYBE || m == RESOLVE_ALWAYS || m == 0)
    &&& {
        ||| (m == RESOLVE_MAYBE && bref.typ == HAMMER2_BREF_TYPE_DATA)
        ||| off == 0
        ||| {
            &&& first_volume_with(h.fso.volumes@, off) >= 0
            &&& h.media matches Some(p) && p.0 == off && p.1@.len() == bytes
            &&& crate::ondisk::verify_media_spec(bref, ready_media(h)) == Ok::<bool, Errno>(true)
            &&& loadable_type(bref.typ, bytes as u64)
            &&& media_size_ok(bref.typ, ready_media(h))
        }
    }
}

/// Creating a chain for `bref` under `pcid` and loading it as `how` asks
/// succeeds in `h`: the key range fits, a chain id is handed out (linear
/// allocation with ids left) that is free, the type is one a chain can
/// have, the parent is in the cache, and the load succeeds.
pub open spec fn set_ok(h: Hammer2, pcid: Cid, bref: Hammer2Blockref, how: u32) -> bool {
    &&& range_ok(bref.key, bref.keybits)
    &&& h.opt.cidalloc == CidAllocMode::Linear && h.imap.next <= h.imap.max
    &&& crate::chain::chain_type_ok(bref.typ)
    &&& !h.cmap@.contains_key(h.imap.next) && h.cmap@.contains_key(pcid)
    &&& new_chain_loads(h, bref, how)
}

/// A lookup step under chain `c` for `[kb, ke]` finds its child `j`, with
/// nothing to load under `c`: as for [`finds_nothing`], but exactly one
/// child, child `j`, meets the range, and the block table entries a search
/// can hit are child `j`'s own or lie past it.
pub open spec fn finds_one(c: Chain, kb: u64, ke: u64, j: int) -> bool {
    &&& kb <= ke
    &&& !inode_unread(c) && !direct_inode(c)
    &&& count_ok(c)
    &&& media_blockrefs(c.bref.typ, c.data@) matches Ok(s) && live_ranges_ok(s) && table_shadowed(
        s,
        kb,
        c.ccids@[j].key,
    )
    &&& crate::chain::sorted_by_bounds(c.ccids@)
    &&& crate::chain::equal_run(c.ccids@, kb, ke, j, j)
}

/// A lookup step under chain `c` for `[kb, ke]` finds the children
/// `j..=hi`, of which child `j` has the least key, with nothing to load:
/// as [`finds_one`], but with the overlapping children `j..=hi`, those
/// past `j` starting past `kb` and past child `j`.
pub open spec fn finds_first(c: Chain, kb: u64, ke: u64, j: int, hi: int) -> bool {
    &&& kb <= ke
    &&& !inode_unread(c) && !direct_inode(c)
    &&& count_ok(c)
    &&& media_blockrefs(c.bref.typ, c.data@) matches Ok(s) && live_ranges_ok(s) && table_shadowed(
        s,
        kb,
        c.ccids@[j].key,
    )
    &&& crate::chain::sorted_by_bounds(c.ccids@)
    &&& crate::chain::equal_run(c.ccids@, kb, ke, j, hi)
    &&& crate::chain::rises_from(c.ccids@, kb, j, hi)
}

/// Child `d` of `pcid` is in the cache under `pcid` and loads as a lookup
/// loads it.
pub open spec fn child_loads(h: Hammer2, pcid: Cid, d: Cid, how_maybe: u32, how: u32) -> bool {
    &&& d != pcid && h.cmap@.contains_key(d) && h.cmap@[d].pcid == pcid
    &&& load_succeeds(h, d, select_how(h.cmap@[d].bref, how_maybe, how))
}

/// Under inode chain `p` of `h`, a lookup of the key `kb` loading as `how`
/// goes through the one child at index `j`, an indirect block already in
/// memory, to its one child at index `k`, a leaf already in memory.
pub open spec fn finds_through_indirect(h: Hammer2, p: Cid, kb: u64, how: u32, j: int, k: int) -> bool {
    let q = h.cmap@[p].ccids@[j].cid;
    let d = h.cmap@[q].ccids@[k].cid;
    &&& h.cmap@.contains_key(p) && h.cmap@[p].bref.typ == HAMMER2_BREF_TYPE_INODE
    &&& kb != u64::MAX
    &&& finds_one(h.cmap@[p], kb, kb, j)
    &&& h.cmap@[q].bref.typ == HAMMER2_BREF_TYPE_INDIRECT
    &&& child_loads(h, p, q, how, how) && h.cmap@[q].data@.len() > 0
    &&& finds_one(h.cmap@[q], kb, kb, k)
    &&& !(h.cmap@[d].bref.typ == HAMMER2_BREF_TYPE_INDIRECT || h.cmap@[d].bref.typ
        == HAMMER2_BREF_TYPE_FREEMAP_NODE)
    &&& child_loads(h, q, d, how, how) && h.cmap@[d].data@.len() > 0
    &&& d != p
}

/// The leaf that a lookup reaching through child `j` of `p` and then its
/// child `k` finds.
pub open spec fn indirect_leaf(h: Hammer2, p: Cid, j: int, k: int) -> Cid {
    h.cmap@[h.cmap@[p].ccids@[j].cid].ccids@[k].cid
}

/// How a lookup with `flags` loads what it finds.
pub open spec fn lookup_how(flags: u32) -> u32 {
    if flags & LOOKUP_ALWAYS != 0 {
        RESOLVE_ALWAYS
    } else {
        RESOLVE_MAYBE
    }
}

/// Child `d` of `pcid` is cached under it, is not a node, and loads as a
/// lookup with `flags` loads it.
pub open spec fn leaf_child_loads(h: Hammer2, pcid: Cid, d: Cid, flags: u32) -> bool {
    let how = if flags & LOOKUP_ALWAYS != 0 {
        RESOLVE_ALWAYS
    } else {
        RESOLVE_MAYBE
    };
    &&& h.cmap@.contains_key(d)
    &&& !(h.cmap@[d].bref.typ == HAMMER2_BREF_TYPE_INDIRECT || h.cmap@[d].bref.typ
        == HAMMER2_BREF_TYPE_FREEMAP_NODE)
    &&& child_loads(h, pcid, d, how, how)
}

/// The super-root of `h` is loaded and holds one PFS, named `label`, with
/// everything a mount needs of it in the cache: the super-root's block
/// table is empty and its one child is the PFS root inode, loaded, filed
/// under the PFS root number (not yet in the table), its recorded range
/// that of its block reference and meeting the hash range of `label`.
pub open spec fn one_pfs(h: Hammer2, label: Seq<char>) -> bool {
    let c = h.nmap@[crate::inode::INUM_SUP_ROOT].cid;
    let sc = h.cmap@[c];
    let e = sc.ccids@[0];
    let d = e.cid;
    let lhc = crate::subs::dirhash_spec(encode_utf8(label));
    &&& h.nmap@.contains_key(crate::inode::INUM_SUP_ROOT) && h.cmap@.contains_key(c)
    &&& sc.bref.typ == HAMMER2_BREF_TYPE_INODE && sc.data@.len() > 0 && !direct_inode(sc)
    &&& count_ok(sc)
    &&& media_blockrefs(sc.bref.typ, sc.data@) matches Ok(s) && forall|k: int|
        0 <= k < s.len() ==> (#[trigger] s[k]).typ == HAMMER2_BREF_TYPE_EMPTY
    &&& sc.ccids@.len() == 1
    &&& d != c && h.cmap@.contains_key(d) && h.cmap@[d].pcid == c
    &&& e.key == h.cmap@[d].bref.key && e.keybits == h.cmap@[d].bref.keybits
    &&& h.cmap@[d].bref.typ == HAMMER2_BREF_TYPE_INODE && h.cmap@[d].data@.len() == 1024
    &&& crate::chain::chain_name(h.cmap@[d]) == Some(label)
    &&& crate::fs::le64(h.cmap@[d].data@, 0x58) == crate::inode::INUM_PFS_ROOT
    &&& !h.nmap@.contains_key(crate::inode::INUM_PFS_ROOT)
    &&& crate::chain::elem_order(lhc, (lhc + crate::fs::HAMMER2_DIRHASH_LOMASK) as u64, e)
        == crate::keys::KeyOrder::Equal
}

/// What a mount keeps of the super-root `c` and its one child `d` of `o`
/// in `h`: the super-root, counted, and the child, as they were.
pub open spec fn one_pfs_kept(o: Hammer2, h: Hammer2, c: Cid, d: Cid) -> bool {
    &&& h.cmap@.contains_key(c) && h.cmap@[c].bref == o.cmap@[c].bref
    &&& h.cmap@[c].data@ == o.cmap@[c].data@ && h.cmap@[c].ccids@ == o.cmap@[c].ccids@
    &&& h.cmap@.contains_key(d) && same_place(o.cmap@[d], h.cmap@[d])
    &&& h.cmap@[d].data@ == o.cmap@[d].data@
}

/// The first look over the super-root of a mount finds its one child.
proof fn lemma_one_pfs_first(h: Hammer2, label: Seq<char>)
    requires
        h.wf(),
        one_pfs(h, label),
    ensures
        ({
            let c = h.nmap@[crate::inode::INUM_SUP_ROOT].cid;
            &&& finds_one(h.cmap@[c], crate::fs::HAMMER2_KEY_MIN, crate::fs::HAMMER2_KEY_MAX, 0)
            &&& leaf_child_loads(h, c, h.cmap@[c].ccids@[0].cid, 0)
        }),
{
    let c = h.nmap@[crate::inode::INUM_SUP_ROOT].cid;
    let v = h.cmap@[c].ccids@;
    assert(RESOLVE_MAYBE & RESOLVE_MASK == RESOLVE_MAYBE) by (bit_vector);
    assert(0u32 & LOOKUP_ALWAYS == 0) by (bit_vector);
    assert(chain_ok(h.cmap@[c]));
    assert(crate::chain::elem_order(0, u64::MAX, v[0]) == crate::keys::KeyOrder::Equal);
    assert(crate::chain::equal_run(v, 0, u64::MAX, 0, 0));
}

/// Walking on past the one child of the super-root ends there.
proof fn lemma_one_pfs_next(o: Hammer2, h: Hammer2, c: Cid, d: Cid, label: Seq<char>)
    requires
        o.wf(),
        one_pfs(o, label),
        c == o.nmap@[crate::inode::INUM_SUP_ROOT].cid,
        d == o.cmap@[c].ccids@[0].cid,
        one_pfs_kept(o, h, c, d),
    ensures
        h.cmap@[c].bref.typ == HAMMER2_BREF_TYPE_INODE,
        h.cmap@.contains_key(d) && d != c,
        !next_ends(h.cmap@, c, d, u64::MAX) ==> finds_nothing(
            h.cmap@[c],
            crate::keys::range_next(h.cmap@[d].bref.key, h.cmap@[d].bref.keybits) as u64,
            u64::MAX,
        ),
{
    let v = h.cmap@[c].ccids@;
    assert(chain_ok(o.cmap@[c]));
    if !next_ends(h.cmap@, c, d, u64::MAX) {
        let nx = crate::keys::range_next(h.cmap@[d].bref.key, h.cmap@[d].bref.keybits);
        if crate::chain::has_equal(v, nx, u64::MAX) {
            let k = choose|k: int|
                0 <= k < v.len() && crate::chain::elem_order(nx, u64::MAX, #[trigger] v[k])
                    == crate::keys::KeyOrder::Equal;
            assert(k == 0);
        }
    }
}

/// The look for the name of the PFS under the super-root finds its one
/// child.
proof fn lemma_one_pfs_second(o: Hammer2, h: Hammer2, c: Cid, d: Cid, label: Seq<char>)
    requires
        o.wf(),
        one_pfs(o, label),
        c == o.nmap@[crate::inode::INUM_SUP_ROOT].cid,
        d == o.cmap@[c].ccids@[0].cid,
        one_pfs_kept(o, h, c, d),
    ensures
        ({
            let lhc = crate::subs::dirhash_spec(encode_utf8(label));
            &&& finds_one(h.cmap@[c], lhc, (lhc + crate::fs::HAMMER2_DIRHASH_LOMASK) as u64, 0)
            &&& leaf_child_loads(h, c, d, 0)
            &&& h.cmap@[c].bref.typ == HAMMER2_BREF_TYPE_INODE
        }),
{
    let v = h.cmap@[c].ccids@;
    let lhc = crate::subs::dirhash_spec(encode_utf8(label));
    assert(chain_ok(o.cmap@[c]));
    crate::subs::lemma_dirhash_low(encode_utf8(label));
    assert(RESOLVE_MAYBE & RESOLVE_MASK == RESOLVE_MAYBE) by (bit_vector);
    assert(0u32 & LOOKUP_ALWAYS == 0) by (bit_vector);
    assert(crate::chain::equal_run(v, lhc, (lhc + crate::fs::HAMMER2_DIRHASH_LOMASK) as u64, 0, 0));
}

/// Child entry `e` of the directory chain `c` of `h` is a cached chain
/// under `c`, recorded with the range of its block reference.
pub open spec fn entry_placed(h: Hammer2, c: Cid, e: crate::keys::ChainKey) -> bool {
    let d = e.cid;
    &&& d != c && h.cmap@.contains_key(d) && h.cmap@[d].pcid == c
    &&& e.key == h.cmap@[d].bref.key && e.keybits == h.cmap@[d].bref.keybits
}

/// Child entry `e` of the directory chain `c` of `h` is an inode whose
/// media is handed over: placed under `c`, without media yet, loading from
/// the media held ready, which is a whole inode bearing a name.
pub open spec fn entry_at_hand(h: Hammer2, c: Cid, e: crate::keys::ChainKey) -> bool {
    let d = e.cid;
    &&& entry_placed(h, c, e)
    &&& h.cmap@[d].bref.typ == HAMMER2_BREF_TYPE_INODE && h.cmap@[d].data@.len() == 0
    &&& raw_off(h.cmap@[d].bref) != 0
    &&& load_succeeds(h, d, RESOLVE_MAYBE)
    &&& ready_media(h).len() == 1024 && crate::chain::inode_name(ready_media(h)) is Some
}

/// Child entry `e` of the directory chain `c` of `h` is ready for a
/// listing: cached under `c`, recorded with the range of its block
/// reference, an entry (an inode with media, or a directory entry with
/// media or a short name) that bears a name and needs no loading.
pub open spec fn entry_ready(h: Hammer2, c: Cid, e: crate::keys::ChainKey) -> bool {
    let d = e.cid;
    &&& entry_placed(h, c, e)
    &&& (h.cmap@[d].bref.typ == HAMMER2_BREF_TYPE_INODE && h.cmap@[d].data@.len() == 1024
        || h.cmap@[d].bref.typ == HAMMER2_BREF_TYPE_DIRENT)
    &&& load_done(h.cmap@[d], RESOLVE_MAYBE)
    &&& (h.cmap@[d].data@.len() > 0 || (h.cmap@[d].bref.typ == HAMMER2_BREF_TYPE_DIRENT
        && crate::chain::dirent_namlen(h.cmap@[d].bref) <= 64))
    &&& crate::chain::chain_name(h.cmap@[d]) is Some
}

/// The directory chain `c` of `h` holds its entries from `lkey` on in its
/// cached children, with everything a listing needs at hand: its block
/// table lists no entry but those of its children, its children (at least
/// one, and no more than a listing's count of steps) are entries ready for
/// a listing, but for the last one, which may instead be an inode whose
/// media is handed over; they come in rising key order with ranges that do
/// not meet, and the first one's range reaches `lkey`.
pub open spec fn entries_ready(h: Hammer2, c: Cid, lkey: u64) -> bool {
    let sc = h.cmap@[c];
    let v = sc.ccids@;
    &&& h.cmap@.contains_key(c) && sc.bref.typ == HAMMER2_BREF_TYPE_INODE && sc.data@.len() > 0
    &&& !direct_inode(sc) && count_ok(sc)
    &&& media_blockrefs(sc.bref.typ, sc.data@) matches Ok(s) && forall|k: int|
        0 <= k < s.len() && (#[trigger] s[k]).typ != HAMMER2_BREF_TYPE_EMPTY ==> exists|m: int|
            0 <= m < v.len() && (#[trigger] v[m]).key == s[k].key && v[m].keybits == s[k].keybits
    &&& 0 < v.len() <= u64::MAX
    &&& forall|a: int, b: int|
        #![trigger v[a], v[b]]
        0 <= a < b < v.len() ==> crate::keys::range_end(v[a].key, v[a].keybits) < v[b].key
    &&& crate::keys::range_end(v[0].key, v[0].keybits) >= lkey
    &&& forall|k: int| 0 <= k < v.len() - 1 ==> #[trigger] entry_ready(h, c, v[k])
    &&& entry_ready(h, c, v[v.len() - 1]) || entry_at_hand(h, c, v[v.len() - 1])
}

/// How far a listing of the directory chain `c` of `o` is, in `h`, with
/// its last entry: before reaching it, the same media is held ready and
/// the last entry's chain is as it was; once past it, an entry whose media
/// was handed over holds that media.
pub open spec fn last_kept(o: Hammer2, h: Hammer2, c: Cid, gk: int) -> bool {
    let v = o.cmap@[c].ccids@;
    let dl = v[v.len() - 1].cid;
    &&& gk < v.len() - 1 ==> h.media == o.media && h.fso == o.fso && h.cmap@.contains_key(dl)
        && h.cmap@[dl] == o.cmap@[dl]
    &&& gk >= v.len() - 1 && entry_at_hand(o, c, v[v.len() - 1]) ==> h.cmap@[dl].data@
        == ready_media(o)
}

/// Entry `k` of a directory whose entries are ready loads as a listing's
/// lookups load it: with nothing to do when it is ready, from the media
/// handed over when it is the last one and at hand.
proof fn lemma_entry_loads(o: Hammer2, h: Hammer2, c: Cid, lkey: u64, k: int)
    requires
        o.wf(),
        entries_ready(o, c, lkey),
        cache_grows(o.cmap@, h.cmap@),
        0 <= k < o.cmap@[c].ccids@.len(),
        k == o.cmap@[c].ccids@.len() - 1 && !entry_ready(o, c, o.cmap@[c].ccids@[k]) ==> h.media
            == o.media && h.fso == o.fso && h.cmap@[o.cmap@[c].ccids@[k].cid]
            == o.cmap@[o.cmap@[c].ccids@[k].cid],
    ensures
        leaf_child_loads(h, c, o.cmap@[c].ccids@[k].cid, 0),
        entry_ready(o, c, o.cmap@[c].ccids@[k]) ==> load_done(
            h.cmap@[o.cmap@[c].ccids@[k].cid],
            lookup_how(0),
        ),
        !entry_ready(o, c, o.cmap@[c].ccids@[k]) ==> entry_at_hand(o, c, o.cmap@[c].ccids@[k])
            && !load_done(h.cmap@[o.cmap@[c].ccids@[k].cid], lookup_how(0)),
{
    let v = o.cmap@[c].ccids@;
    let d = v[k].cid;
    assert(RESOLVE_MAYBE & RESOLVE_MASK == RESOLVE_MAYBE) by (bit_vector);
    assert(0u32 & LOOKUP_ALWAYS == 0) by (bit_vector);
    if entry_ready(o, c, v[k]) {
        lemma_entry_kept(o, h, c, lkey, k);
    } else {
        if k < v.len() - 1 {
            assert(entry_ready(o, c, v[k]));
        }
        assert(entry_at_hand(o, c, v[k]));
        assert(o.cmap@.contains_key(d));
        assert(h.cmap@[d] == o.cmap@[d]);
        assert(load_succeeds(h, d, RESOLVE_MAYBE));
    }
}

/// The listing `v` holds, after `.` and `..`, the directory entries that
/// the children `kids` stand for in the cache `m`, each once, in order.
pub open spec fn lists_entries(v: Seq<Dirent>, m: Map<u64, Chain>, kids: Seq<crate::keys::ChainKey>) -> bool {
    &&& v.len() == kids.len() + 2
    &&& forall|k: int|
        0 <= k < kids.len() ==> dirent_of(m[(#[trigger] kids[k]).cid]) == Some(
            (v[k + 2].inum, v[k + 2].typ, v[k + 2].name@),
        )
}

/// The chain ids of the entries `v`.
pub open spec fn entry_cids(v: Seq<crate::keys::ChainKey>) -> Seq<Cid> {
    v.map_values(|e: crate::keys::ChainKey| e.cid)
}

/// What a listing keeps of the directory chain `c` of `o` in `h`: its
/// block reference, media and children, in a cache that grew.
pub open spec fn dir_kept(o: Hammer2, h: Hammer2, c: Cid) -> bool {
    &&& h.cmap@.contains_key(c) && h.cmap@[c].bref == o.cmap@[c].bref
    &&& h.cmap@[c].data@ == o.cmap@[c].data@ && h.cmap@[c].ccids@ == o.cmap@[c].ccids@
    &&& cache_grows(o.cmap@, h.cmap@)
}

/// The children of a directory whose entries are ready are kept in order.
proof fn lemma_entries_ranges(o: Hammer2, c: Cid, lkey: u64)
    requires
        o.wf(),
        entries_ready(o, c, lkey),
    ensures
        forall|m: int|
            0 <= m < o.cmap@[c].ccids@.len() ==> crate::keys::range_end(
                (#[trigger] o.cmap@[c].ccids@[m]).key,
                o.cmap@[c].ccids@[m].keybits,
            ) >= o.cmap@[c].ccids@[m].key,
        crate::chain::sorted_by_bounds(o.cmap@[c].ccids@),
        !inode_unread(o.cmap@[c]),
        media_blockrefs(o.cmap@[c].bref.typ, o.cmap@[c].data@) matches Ok(s) && live_ranges_ok(s),
{
    let v = o.cmap@[c].ccids@;
    assert(chain_ok(o.cmap@[c]));
    let s = media_blockrefs(o.cmap@[c].bref.typ, o.cmap@[c].data@)->Ok_0;
    assert forall|k: int| 0 <= k < s.len() && (#[trigger] s[k]).typ != HAMMER2_BREF_TYPE_EMPTY implies crate::keys::range_ok(
        s[k].key,
        s[k].keybits,
    ) by {
        let m = choose|m: int|
            0 <= m < v.len() && (#[trigger] v[m]).key == s[k].key && v[m].keybits == s[k].keybits;
        assert(crate::keys::chain_key_ok(v[m]));
    }
    assert forall|m: int| 0 <= m < v.len() implies crate::keys::range_end(
        (#[trigger] v[m]).key,
        v[m].keybits,
    ) >= v[m].key by {
        vstd::arithmetic::power2::lemma_pow2_pos(v[m].keybits as nat);
    }
    assert forall|i: int, j: int| #![trigger v[i], v[j]] 0 <= i < j < v.len() implies v[i].key
        <= v[j].key && crate::keys::range_end(v[i].key, v[i].keybits) <= crate::keys::range_end(
        v[j].key,
        v[j].keybits,
    ) by {
        vstd::arithmetic::power2::lemma_pow2_pos(v[i].keybits as nat);
        vstd::arithmetic::power2::lemma_pow2_pos(v[j].keybits as nat);
    }
}

/// What a listing under a directory whose entries are ready looks up:
/// the first look, at `lkey` alone, finds the first entry when its range
/// holds `lkey` and nothing otherwise; the look from `lkey` to the end
/// finds all entries, the first one first; a look past entry `k` finds
/// the entries after it, or nothing past the last one.
proof fn lemma_entries_looks(o: Hammer2, h: Hammer2, c: Cid, lkey: u64, k: int)
    requires
        o.wf(),
        entries_ready(o, c, lkey),
        dir_kept(o, h, c),
        0 <= k < o.cmap@[c].ccids@.len(),
    ensures
        o.cmap@[c].ccids@[0].key <= lkey ==> finds_first(h.cmap@[c], lkey, lkey, 0, 0),
        o.cmap@[c].ccids@[0].key > lkey ==> finds_nothing(h.cmap@[c], lkey, lkey),
        finds_first(h.cmap@[c], lkey, u64::MAX, 0, o.cmap@[c].ccids@.len() - 1),
        k < o.cmap@[c].ccids@.len() - 1 ==> !next_ends(h.cmap@, c, o.cmap@[c].ccids@[k].cid, u64::MAX)
            && finds_first(
            h.cmap@[c],
            crate::keys::range_next(
                h.cmap@[o.cmap@[c].ccids@[k].cid].bref.key,
                h.cmap@[o.cmap@[c].ccids@[k].cid].bref.keybits,
            ) as u64,
            u64::MAX,
            k + 1,
            o.cmap@[c].ccids@.len() - 1,
        ),
        k == o.cmap@[c].ccids@.len() - 1 && !next_ends(
            h.cmap@,
            c,
            o.cmap@[c].ccids@[k].cid,
            u64::MAX,
        ) ==> finds_nothing(
            h.cmap@[c],
            crate::keys::range_next(
                h.cmap@[o.cmap@[c].ccids@[k].cid].bref.key,
                h.cmap@[o.cmap@[c].ccids@[k].cid].bref.keybits,
            ) as u64,
            u64::MAX,
        ),
{
    let v = o.cmap@[c].ccids@;
    let n = v.len();
    lemma_entries_ranges(o, c, lkey);
    assert(h.cmap@[c].ccids@ == v);
    lemma_entry_placed(o, c, lkey, 0);
    lemma_entry_placed(o, c, lkey, k);
    let d = v[k].cid;
    assert(o.cmap@.contains_key(d));
    assert(same_place(o.cmap@[d], h.cmap@[d]));
    // the look from `lkey` to the end
    assert forall|m: int| 0 <= m < n implies (crate::chain::elem_order(lkey, u64::MAX, #[trigger] v[m])
        == crate::keys::KeyOrder::Equal) <==> (0 <= m <= n - 1) by {
        if m > 0 {
            assert(crate::keys::range_end(v[0].key, v[0].keybits) < v[m].key);
            assert(crate::keys::range_end(v[m].key, v[m].keybits) >= v[m].key);
        }
    }
    assert(crate::chain::equal_run(v, lkey, u64::MAX, 0, n - 1));
    assert forall|m: int| 0 < m <= n - 1 implies (#[trigger] v[m]).key > v[0].key && v[m].key > lkey by {
        assert(crate::keys::range_end(v[0].key, v[0].keybits) < v[m].key);
        assert(crate::keys::range_end(v[0].key, v[0].keybits) >= v[0].key);
    }
    assert(crate::chain::rises_from(v, lkey, 0, n - 1));
    // the look at `lkey` alone
    if v[0].key <= lkey {
        assert forall|m: int| 0 <= m < n implies (crate::chain::elem_order(lkey, lkey, #[trigger] v[m])
            == crate::keys::KeyOrder::Equal) <==> (0 <= m <= 0) by {
            if m > 0 {
                assert(crate::keys::range_end(v[0].key, v[0].keybits) < v[m].key);
            }
        }
        assert(crate::chain::equal_run(v, lkey, lkey, 0, 0));
    } else {
        if crate::chain::has_equal(v, lkey, lkey) {
            let m = choose|m: int|
                0 <= m < n && crate::chain::elem_order(lkey, lkey, #[trigger] v[m])
                    == crate::keys::KeyOrder::Equal;
            if m > 0 {
                assert(v[m].key > v[0].key);
            }
        }
    }
    // the look past entry `k`
    let rn = crate::keys::range_next(v[k].key, v[k].keybits);
    if k < n - 1 {
        assert(crate::keys::range_end(v[k].key, v[k].keybits) < v[k + 1].key);
        assert(rn == crate::keys::range_end(v[k].key, v[k].keybits) + 1);
        assert forall|m: int| 0 <= m < n implies (crate::chain::elem_order(rn, u64::MAX, #[trigger] v[m])
            == crate::keys::KeyOrder::Equal) <==> (k + 1 <= m <= n - 1) by {
            if m < k {
                assert(crate::keys::range_end(v[m].key, v[m].keybits) < v[k].key);
                assert(crate::keys::range_end(v[k].key, v[k].keybits) >= v[k].key);
            }
            if m > k + 1 {
                assert(crate::keys::range_end(v[k].key, v[k].keybits) < v[m].key);
            }
            if m == k + 1 {
                assert(crate::keys::range_end(v[m].key, v[m].keybits) >= v[m].key);
            }
            if m > k + 1 {
                assert(crate::keys::range_end(v[m].key, v[m].keybits) >= v[m].key);
            }
        }
        assert(crate::chain::equal_run(v, rn, u64::MAX, k + 1, n - 1));
        assert forall|m: int| k + 1 < m <= n - 1 implies (#[trigger] v[m]).key > v[k + 1].key && v[m].key
            > rn by {
            assert(crate::keys::range_end(v[k + 1].key, v[k + 1].keybits) < v[m].key);
            assert(crate::keys::range_end(v[k + 1].key, v[k + 1].keybits) >= v[k + 1].key);
        }
        assert(crate::chain::rises_from(v, rn, k + 1, n - 1));
    } else if rn != 0 {
        if crate::chain::has_equal(v, rn, u64::MAX) {
            let m = choose|m: int|
                0 <= m < n && crate::chain::elem_order(rn, u64::MAX, #[trigger] v[m])
                    == crate::keys::KeyOrder::Equal;
            if m < k {
                assert(crate::keys::range_end(v[m].key, v[m].keybits) < v[k].key);
                assert(crate::keys::range_end(v[k].key, v[k].keybits) >= v[k].key);
            }
        }
    }
}

/// Every entry of a directory whose entries are ready is placed under it.
proof fn lemma_entry_placed(o: Hammer2, c: Cid, lkey: u64, k: int)
    requires
        entries_ready(o, c, lkey),
        0 <= k < o.cmap@[c].ccids@.len(),
    ensures
        entry_placed(o, c, o.cmap@[c].ccids@[k]),
{
    let v = o.cmap@[c].ccids@;
    if k < v.len() - 1 {
        assert(entry_ready(o, c, v[k]));
    }
}

/// An entry ready for a listing stays so, and stands for the same
/// directory entry, when the cache grows.
proof fn lemma_entry_kept(o: Hammer2, h: Hammer2, c: Cid, lkey: u64, k: int)
    requires
        o.wf(),
        entries_ready(o, c, lkey),
        cache_grows(o.cmap@, h.cmap@),
        0 <= k < o.cmap@[c].ccids@.len(),
        entry_ready(o, c, o.cmap@[c].ccids@[k]),
    ensures
        leaf_child_loads(h, c, o.cmap@[c].ccids@[k].cid, 0),
        load_done(h.cmap@[o.cmap@[c].ccids@[k].cid], lookup_how(0)),
        h.cmap@.contains_key(o.cmap@[c].ccids@[k].cid),
        dirent_of(h.cmap@[o.cmap@[c].ccids@[k].cid]) == dirent_of(o.cmap@[o.cmap@[c].ccids@[k].cid]),
        crate::chain::chain_name(h.cmap@[o.cmap@[c].ccids@[k].cid]) is Some,
        h.cmap@[o.cmap@[c].ccids@[k].cid].bref.typ == HAMMER2_BREF_TYPE_INODE
            && h.cmap@[o.cmap@[c].ccids@[k].cid].data@.len() == 1024
            || h.cmap@[o.cmap@[c].ccids@[k].cid].bref.typ == HAMMER2_BREF_TYPE_DIRENT,
{
    let v = o.cmap@[c].ccids@;
    let d = v[k].cid;
    assert(entry_ready(o, c, v[k]));
    assert(o.cmap@.contains_key(d));
    assert(same_place(o.cmap@[d], h.cmap@[d]));
    if o.cmap@[d].data@.len() > 0 {
        assert(h.cmap@[d].data@ == o.cmap@[d].data@);
    }
    assert(RESOLVE_MAYBE & RESOLVE_MASK == RESOLVE_MAYBE) by (bit_vector);
    assert(0u32 & LOOKUP_ALWAYS == 0) by (bit_vector);
    assert(crate::chain::chain_name(h.cmap@[d]) == crate::chain::chain_name(o.cmap@[d]));
}

/// A block of zeros, what a block without data reads as.
pub open spec fn zero_block() -> Seq<u8> {
    Seq::new(65536, |i: int| 0u8)
}

/// The chains that hold the block at `lbase` of the file with inode chain
/// `c` are at hand in `h`: the inode chain holds a whole inode, not one that
/// holds its data itself, and under it either nothing meets the block, or
/// exactly one cached child does, which is not a node and loads.
pub open spec fn block_at_hand(h: Hammer2, c: Cid, lbase: u64) -> bool {
    &&& h.cmap@.contains_key(c) && h.cmap@[c].bref.typ == HAMMER2_BREF_TYPE_INODE
    &&& h.cmap@[c].data@.len() > 0
    &&& (finds_nothing(h.cmap@[c], lbase, lbase) || exists|j: int|
        #[trigger] finds_one(h.cmap@[c], lbase, lbase, j) && leaf_child_loads(
            h,
            c,
            h.cmap@[c].ccids@[j].cid,
            LOOKUP_ALWAYS,
        ))
}

/// The block at `lbase` of the file with inode chain `c` reads as `b` in
/// `h`: zeros where nothing under the inode meets it, else the data of the
/// one child that does.
pub open spec fn block_reads(h: Hammer2, c: Cid, lbase: u64, b: Seq<u8>) -> bool {
    ||| finds_nothing(h.cmap@[c], lbase, lbase) && b == zero_block()
    ||| exists|j: int|
        #[trigger] finds_one(h.cmap@[c], lbase, lbase, j) && h.cmap@.contains_key(
            h.cmap@[c].ccids@[j].cid,
        ) && crate::chain::chain_data(h.cmap@[h.cmap@[c].ccids@[j].cid]) == Ok::<Seq<u8>, Errno>(b)
}

/// Child `d` of the inode chain `c` is cached under it, holds media, and
/// is not a node.
pub open spec fn child_cached(h: Hammer2, c: Cid, d: Cid) -> bool {
    &&& d != c && h.cmap@.contains_key(d) && h.cmap@[d].pcid == c
    &&& h.cmap@[d].data@.len() > 0
    &&& !(h.cmap@[d].bref.typ == HAMMER2_BREF_TYPE_INDIRECT || h.cmap@[d].bref.typ
        == HAMMER2_BREF_TYPE_FREEMAP_NODE)
}

/// The chains that hold the block at `lbase` of the file with inode chain
/// `c` are in the cache with their media: nothing under the inode meets
/// the block, or exactly one child does, which holds media and is not a
/// node.
pub open spec fn block_cached(h: Hammer2, c: Cid, lbase: u64) -> bool {
    &&& h.cmap@.contains_key(c) && h.cmap@[c].bref.typ == HAMMER2_BREF_TYPE_INODE
    &&& h.cmap@[c].data@.len() > 0
    &&& (finds_nothing(h.cmap@[c], lbase, lbase) || exists|j: int|
        #[trigger] finds_one(h.cmap@[c], lbase, lbase, j) && child_cached(
            h,
            c,
            h.cmap@[c].ccids@[j].cid,
        ))
}

/// A chain of file data that reads: its media can be read as data, and
/// reading it gives data (decompressing succeeds).
pub open spec fn child_readable(d: Chain) -> bool {
    crate::chain::data_readable(d) && crate::chain::chain_data(d) is Ok
}

/// The block at `lbase` of the file with inode chain `c` is cached in `h`
/// and reads: nothing meets it, or the one child that does reads.
pub open spec fn block_readable(h: Hammer2, c: Cid, lbase: u64) -> bool {
    &&& block_cached(h, c, lbase)
    &&& forall|j: int|
        #[trigger] finds_one(h.cmap@[c], lbase, lbase, j) ==> child_readable(
            h.cmap@[h.cmap@[c].ccids@[j].cid],
        )
}

/// How many bytes a read of `size` bytes at `offset` of a file of `ipsize`
/// bytes gives: as many as asked, cut at the end of the file.
pub open spec fn read_len(ipsize: u64, size: u64, offset: u64) -> int {
    if offset >= ipsize {
        0
    } else if size < ipsize - offset {
        size as int
    } else {
        ipsize - offset
    }
}

/// A read of `size` bytes at the block-aligned `offset` of the file `ip`
/// that stays within one block, reached through an indirect block: child
/// `j` of the inode chain, then its child `k`, a leaf in memory that reads
/// and holds at least the bytes asked and at most a block.
pub open spec fn reads_one_indirect(h: Hammer2, ip: Inode, size: u64, offset: u64, j: int, k: int) -> bool {
    let len = read_len(ip.meta.size, size, offset);
    let leaf = h.cmap@[indirect_leaf(h, ip.cid, j, k)];
    &&& offset % 65536 == 0 && 0 < len <= 65536
    &&& finds_through_indirect(h, ip.cid, offset, RESOLVE_ALWAYS, j, k)
    &&& child_readable(leaf)
    &&& crate::chain::chain_data(leaf) matches Ok(d) && len <= d.len() <= 65536
}

/// The bytes the leaf reached through child `j`, then child `k`, of the
/// chain of `ip` reads as.
pub open spec fn indirect_leaf_data(h: Hammer2, ip: Inode, j: int, k: int) -> Seq<u8> {
    match crate::chain::chain_data(h.cmap@[indirect_leaf(h, ip.cid, j, k)]) {
        Ok(d) => d,
        Err(_) => Seq::empty(),
    }
}

/// How many bytes of the block at `lbase` a file of `ipsize` bytes needs:
/// the whole block, or up to the end of the file.
pub open spec fn block_need(ipsize: u64, lbase: u64) -> int {
    if ipsize - lbase < 65536 {
        ipsize - lbase
    } else {
        65536
    }
}

/// The block at `lbase` of the file with inode chain `c` is cached and
/// reads in `h` as at least `need` bytes and at most a block.
pub open spec fn block_holds(h: Hammer2, c: Cid, lbase: u64, need: int) -> bool {
    &&& block_readable(h, c, lbase)
    &&& forall|j: int|
        #[trigger] finds_one(h.cmap@[c], lbase, lbase, j) ==> need <= crate::chain::chain_data(
            h.cmap@[h.cmap@[c].ccids@[j].cid],
        )->Ok_0.len() <= 65536
}

/// Every block that a read of `size` bytes at `offset` of the file with
/// inode `ip` touches is cached in `h` and reads as the part of the file
/// it holds.
pub open spec fn reads_cached(h: Hammer2, ip: Inode, size: u64, offset: u64) -> bool {
    forall|i: int|
        0 <= i < read_len(ip.meta.size, size, offset) ==> #[trigger] block_holds(
            h,
            ip.cid,
            base_of(offset, i),
            block_need(ip.meta.size, base_of(offset, i)),
        )
}

/// A block that holds its bytes still does once the inode chain is
/// counted and the cache grows.
proof fn lemma_block_holds_stable(a: Hammer2, b: Hammer2, c: Cid, lbase: u64, need: int)
    requires
        a.cmap@.contains_key(c),
        counted_as(a.cmap@[c], b.cmap@[c]),
        cache_grows(a.cmap@, b.cmap@),
        block_holds(a, c, lbase, need),
    ensures
        block_holds(b, c, lbase, need),
{
    lemma_block_stable(a, b, c, lbase);
    let v = a.cmap@[c].ccids@;
    if finds_nothing(a.cmap@[c], lbase, lbase) {
        lemma_finds_counted(a.cmap@[c], b.cmap@[c], lbase, lbase, 0);
        assert forall|j: int| #[trigger] finds_one(b.cmap@[c], lbase, lbase, j) implies false by {
            assert(crate::chain::elem_order(lbase, lbase, v[j]) == crate::keys::KeyOrder::Equal);
        }
    } else {
        let j0 = choose|j: int|
            #[trigger] finds_one(a.cmap@[c], lbase, lbase, j) && child_cached(
                a,
                c,
                a.cmap@[c].ccids@[j].cid,
            );
        let d = v[j0].cid;
        assert(same_place(a.cmap@[d], b.cmap@[d]));
        assert(b.cmap@[d].data@ == a.cmap@[d].data@);
        assert(crate::chain::chain_data(b.cmap@[d]) == crate::chain::chain_data(a.cmap@[d]));
        assert(crate::chain::data_readable(b.cmap@[d]) == crate::chain::data_readable(a.cmap@[d]));
        assert forall|j: int| #[trigger] finds_one(b.cmap@[c], lbase, lbase, j) implies j == j0 by {
            assert(crate::chain::elem_order(lbase, lbase, v[j]) == crate::keys::KeyOrder::Equal);
            assert(crate::chain::equal_run(v, lbase, lbase, j0, j0));
        }
        assert(finds_one(a.cmap@[c], lbase, lbase, j0));
    }
}

/// A block that holds its bytes reads as no fewer bytes than it must and
/// no more than a block.
proof fn lemma_block_holds_len(h: Hammer2, c: Cid, lbase: u64, need: int, b: Seq<u8>)
    requires
        block_holds(h, c, lbase, need),
        need <= 65536,
        finds_nothing(h.cmap@[c], lbase, lbase) ==> b == zero_block(),
        forall|j: int|
            #[trigger] finds_one(h.cmap@[c], lbase, lbase, j) ==> crate::chain::chain_data(
                h.cmap@[h.cmap@[c].ccids@[j].cid],
            ) == Ok::<Seq<u8>, Errno>(b),
    ensures
        need <= b.len() <= 65536,
{
    if !finds_nothing(h.cmap@[c], lbase, lbase) {
        let j0 = choose|j: int|
            #[trigger] finds_one(h.cmap@[c], lbase, lbase, j) && child_cached(
                h,
                c,
                h.cmap@[c].ccids@[j].cid,
            );
        assert(finds_one(h.cmap@[c], lbase, lbase, j0));
    }
}

/// What the block at `lbase` of the file with inode chain `c` holds in
/// `h`: zeros when no child of the inode meets it, else the data of the
/// child that does.
pub open spec fn block_value(h: Hammer2, c: Cid, lbase: u64) -> Seq<u8> {
    let v = h.cmap@[c].ccids@;
    if !crate::chain::has_equal(v, lbase, lbase) {
        zero_block()
    } else {
        let j = choose|j: int| #[trigger] crate::chain::equal_run(v, lbase, lbase, j, j);
        match crate::chain::chain_data(h.cmap@[v[j].cid]) {
            Ok(b) => b,
            Err(_) => Seq::empty(),
        }
    }
}

/// The first key of the block that holds the byte `i` bytes past `offset`.
pub open spec fn base_of(offset: u64, i: int) -> u64 {
    (offset + i - block_pos(offset, i)) as u64
}

/// The blocks that the first `n` bytes from `offset` of the file with inode
/// chain `c` lie in are ready in `h`: each one but the block of the last
/// byte is cached, and that block is at hand (media for it may have been
/// handed over, or it is cached too).
pub open spec fn all_ready(h: Hammer2, c: Cid, offset: u64, n: int) -> bool {
    &&& forall|i: int|
        0 <= i < n && base_of(offset, i) != base_of(offset, n - 1) ==> #[trigger] block_cached(
            h,
            c,
            base_of(offset, i),
        )
    &&& n > 0 ==> block_at_hand(h, c, base_of(offset, n - 1))
}

/// Block starts keep the order of the bytes in them, and a byte before a
/// block boundary lies in an earlier block.
proof fn lemma_base_order(x: int, y: int)
    requires
        0 <= x <= y,
    ensures
        x - x % 65536 <= y - y % 65536,
        y % 65536 == 0 && x < y ==> x - x % 65536 < y,
{
    assert(x - x % 65536 <= y - y % 65536) by (nonlinear_arith)
        requires
            0 <= x <= y,
    ;
}

/// A block at hand stays at hand when the inode chain is counted, the
/// cache grows, the same media is held ready and the chains without media
/// stay as they were.
proof fn lemma_at_hand_kept(a: Hammer2, b: Hammer2, c: Cid, lk: u64)
    requires
        block_at_hand(a, c, lk),
        counted_as(a.cmap@[c], b.cmap@[c]),
        cache_grows(a.cmap@, b.cmap@),
        b.media == a.media,
        b.fso == a.fso,
        forall|k: u64|
            #[trigger] a.cmap@.contains_key(k) && k != c && a.cmap@[k].data@.len() == 0
                ==> b.cmap@.contains_key(k) && b.cmap@[k] == a.cmap@[k],
    ensures
        block_at_hand(b, c, lk),
{
    assert(b.cmap@.contains_key(c));
    if finds_nothing(a.cmap@[c], lk, lk) {
        lemma_finds_counted(a.cmap@[c], b.cmap@[c], lk, lk, 0);
    } else {
        let j = choose|j: int|
            #[trigger] finds_one(a.cmap@[c], lk, lk, j) && leaf_child_loads(
                a,
                c,
                a.cmap@[c].ccids@[j].cid,
                LOOKUP_ALWAYS,
            );
        lemma_finds_counted(a.cmap@[c], b.cmap@[c], lk, lk, j);
        let d = a.cmap@[c].ccids@[j].cid;
        assert(b.cmap@[c].ccids@ == a.cmap@[c].ccids@);
        assert(a.cmap@.contains_key(d));
        assert(same_place(a.cmap@[d], b.cmap@[d]));
        if a.cmap@[d].data@.len() > 0 {
            assert(b.cmap@[d].data@ == a.cmap@[d].data@);
        } else {
            assert(b.cmap@[d] == a.cmap@[d]);
        }
        assert(leaf_child_loads(b, c, d, LOOKUP_ALWAYS));
        assert(finds_one(b.cmap@[c], lk, lk, j));
    }
}

/// The bytes `v` read from `offset` of the file with inode chain `c` are,
/// each, the byte at its place in its block as `h` holds it.
pub open spec fn reads_blocks(h: Hammer2, c: Cid, v: Seq<u8>, offset: u64) -> bool {
    forall|i: int|
        0 <= i < v.len() ==> #[trigger] v[i] == block_value(h, c, base_of(offset, i))[block_pos(
            offset,
            i,
        )]
}

/// A block that a lookup finds read as `b` is what [`block_value`] says.
proof fn lemma_block_reads_value(h: Hammer2, c: Cid, lbase: u64, b: Seq<u8>)
    requires
        h.cmap@.contains_key(c),
        block_reads(h, c, lbase, b),
    ensures
        block_value(h, c, lbase) == b,
{
    let v = h.cmap@[c].ccids@;
    if finds_nothing(h.cmap@[c], lbase, lbase) {
    } else {
        let j = choose|j: int|
            #[trigger] finds_one(h.cmap@[c], lbase, lbase, j) && h.cmap@.contains_key(
                h.cmap@[c].ccids@[j].cid,
            ) && crate::chain::chain_data(h.cmap@[h.cmap@[c].ccids@[j].cid]) == Ok::<Seq<u8>, Errno>(b);
        assert(crate::chain::equal_run(v, lbase, lbase, j, j));
        assert(crate::chain::has_equal(v, lbase, lbase));
        let j2 = choose|j: int| #[trigger] crate::chain::equal_run(v, lbase, lbase, j, j);
        assert(crate::chain::elem_order(lbase, lbase, v[j2]) == crate::keys::KeyOrder::Equal);
        assert(j2 == j);
    }
}

/// What a cached block holds and that it is cached stay so when the inode
/// chain is counted and the cache grows.
proof fn lemma_block_stable(a: Hammer2, b: Hammer2, c: Cid, lbase: u64)
    requires
        a.cmap@.contains_key(c),
        counted_as(a.cmap@[c], b.cmap@[c]),
        cache_grows(a.cmap@, b.cmap@),
        block_cached(a, c, lbase),
    ensures
        block_cached(b, c, lbase),
        block_value(b, c, lbase) == block_value(a, c, lbase),
{
    assert(b.cmap@.contains_key(c));
    let v = a.cmap@[c].ccids@;
    assert(b.cmap@[c].ccids@ == v);
    if !finds_nothing(a.cmap@[c], lbase, lbase) {
        let j = choose|j: int|
            #[trigger] finds_one(a.cmap@[c], lbase, lbase, j) && child_cached(
                a,
                c,
                a.cmap@[c].ccids@[j].cid,
            );
        lemma_finds_counted(a.cmap@[c], b.cmap@[c], lbase, lbase, j);
        let d = v[j].cid;
        assert(same_place(a.cmap@[d], b.cmap@[d]));
        assert(b.cmap@[d].data@ == a.cmap@[d].data@);
        assert(child_cached(b, c, d));
        assert(crate::chain::has_equal(v, lbase, lbase)) by {
            assert(crate::chain::equal_run(v, lbase, lbase, j, j));
        }
    } else {
        lemma_finds_counted(a.cmap@[c], b.cmap@[c], lbase, lbase, 0);
    }
}

/// A cached block is at hand for a read.
proof fn lemma_cached_at_hand(h: Hammer2, c: Cid, lbase: u64)
    requires
        block_cached(h, c, lbase),
    ensures
        block_at_hand(h, c, lbase),
{
    assert(RESOLVE_ALWAYS & RESOLVE_MASK == RESOLVE_ALWAYS) by (bit_vector);
    assert(LOOKUP_ALWAYS & LOOKUP_ALWAYS != 0) by (bit_vector);
    if !finds_nothing(h.cmap@[c], lbase, lbase) {
        let j = choose|j: int|
            #[trigger] finds_one(h.cmap@[c], lbase, lbase, j) && child_cached(
                h,
                c,
                h.cmap@[c].ccids@[j].cid,
            );
        assert(leaf_child_loads(h, c, h.cmap@[c].ccids@[j].cid, LOOKUP_ALWAYS));
    }
}

/// One block read on: the blocks stay cached and what they hold stays,
/// and the bytes read from the new block are its bytes.
proof fn lemma_read_blocks_step(
    a: Hammer2,
    b: Hammer2,
    c: Cid,
    out0: Seq<u8>,
    blk: Seq<u8>,
    offset: u64,
    total: int,
    lo: int,
    n: int,
    len: int,
)
    requires
        forall|i: int| 0 <= i < total ==> #[trigger] block_cached(a, c, base_of(offset, i)),
        reads_blocks(a, c, out0, offset),
        out0.len() == total,
        0 <= total,
        total + n <= len,
        a.cmap@.contains_key(c),
        counted_as(a.cmap@[c], b.cmap@[c]),
        cache_grows(a.cmap@, b.cmap@),
        block_reads(b, c, base_of(offset, total), blk),
        lo == block_pos(offset, total),
        0 <= n,
        lo + n <= blk.len(),
        lo + n <= 65536,
    ensures
        reads_blocks(b, c, out0 + blk.subrange(lo, lo + n), offset),
{
    let lbase = base_of(offset, total);
    lemma_block_reads_value(b, c, lbase, blk);
    let out = out0 + blk.subrange(lo, lo + n);
    assert forall|i: int| 0 <= i < out.len() implies #[trigger] out[i] == block_value(
        b,
        c,
        base_of(offset, i),
    )[block_pos(offset, i)] by {
        if i < total {
            lemma_block_stable(a, b, c, base_of(offset, i));
            assert(out[i] == out0[i]);
        } else {
            let k = i - total;
            lemma_mod_step(offset + total, k);
            assert(offset + total + k == offset + i);
            assert(block_pos(offset, i) == lo + k);
            assert(base_of(offset, i) == lbase);
            assert(out[i] == blk[lo + k]);
        }
    }
}

/// Counting a chain leaves what a lookup under it finds as it was.
proof fn lemma_finds_counted(a: Chain, b: Chain, kb: u64, ke: u64, j: int)
    requires
        counted_as(a, b),
    ensures
        finds_nothing(a, kb, ke) ==> finds_nothing(b, kb, ke),
        finds_one(a, kb, ke, j) ==> finds_one(b, kb, ke, j),
{
}

/// A lookup step's result `t` is `s` but for the next key.
pub open spec fn steps_to(t: (Cid, Cid, u64, u64), s: (Cid, Cid, u64, u64)) -> bool {
    t.0 == s.0 && t.1 == s.1 && t.3 == s.3
}

/// A lookup step under chain `c` for `[kb, ke]` finds nothing, with
/// nothing to load: `c` is not an inode without a whole image nor one that
/// holds its data itself, its block table counts and reads with ranges
/// that fit, every entry of it that a search from `kb` can hit starts past
/// the range, and its children, kept in order, hold none that meets it.
pub open spec fn finds_nothing(c: Chain, kb: u64, ke: u64) -> bool {
    &&& !inode_unread(c) && !direct_inode(c)
    &&& count_ok(c)
    &&& media_blockrefs(c.bref.typ, c.data@) matches Ok(s) && live_ranges_ok(s) && table_beyond(
        s,
        kb,
        ke,
    )
    &&& crate::chain::sorted_by_bounds(c.ccids@)
    &&& !crate::chain::has_equal(c.ccids@, kb, ke)
}

/// A loaded inode chain `c` under which a lookup from `kb` to the end of
/// the keys finds nothing: a directory without entries from `kb` on.
pub open spec fn empty_from(c: Chain, kb: u64) -> bool {
    &&& c.bref.typ == HAMMER2_BREF_TYPE_INODE
    &&& c.data@.len() > 0
    &&& finds_nothing(c, kb, u64::MAX)
}

/// A lookup that finds nothing up to the end of the keys finds nothing
/// at its first key either.
proof fn lemma_empty_narrow(c: Chain, kb: u64)
    requires
        empty_from(c, kb),
    ensures
        finds_nothing(c, kb, kb),
{
    let s = media_blockrefs(c.bref.typ, c.data@)->Ok_0;
    assert(table_beyond(s, kb, kb));
    if crate::chain::has_equal(c.ccids@, kb, kb) {
        let k = choose|k: int|
            0 <= k < c.ccids@.len() && crate::chain::elem_order(kb, kb, #[trigger] c.ccids@[k])
                == crate::keys::KeyOrder::Equal;
        assert(crate::chain::elem_order(kb, u64::MAX, c.ccids@[k]) == crate::keys::KeyOrder::Equal);
    }
}

/// A chain under which a lookup of all keys finds nothing finds nothing in
/// any range.
proof fn lemma_empty_all(c: Chain, kb: u64, ke: u64)
    requires
        empty_from(c, 0),
    ensures
        finds_nothing(c, kb, ke),
{
    let s = media_blockrefs(c.bref.typ, c.data@)->Ok_0;
    assert forall|k: int| 0 <= k < s.len() && #[trigger] crate::chain::bref_hit(s[k], kb) implies s[k].key
        > ke by {
        vstd::arithmetic::power2::lemma_pow2_pos(s[k].keybits as nat);
        assert(crate::chain::bref_hit(s[k], 0));
    }
    if crate::chain::has_equal(c.ccids@, kb, ke) {
        let k = choose|k: int|
            0 <= k < c.ccids@.len() && crate::chain::elem_order(kb, ke, #[trigger] c.ccids@[k])
                == crate::keys::KeyOrder::Equal;
        assert(crate::chain::elem_order(0, u64::MAX, c.ccids@[k]) == crate::keys::KeyOrder::Equal);
    }
}

/// A chain under which a lookup finds nothing still does once counted.
proof fn lemma_empty_counted(c: Chain, d: Chain, kb: u64)
    requires
        empty_from(c, kb),
        counted_as(c, d),
    ensures
        empty_from(d, kb),
{
}

/// Chain `b` is chain `a` counted: the same block reference, media and
/// children, and marked counted.
pub open spec fn counted_as(a: Chain, b: Chain) -> bool {
    &&& a.bref == b.bref && a.data@ == b.data@ && a.ccids@ == b.ccids@
    &&& b.flags & CHAIN_COUNTED_BLOCKREF != 0
}

/// Chain `b` is chain `a` with the same block reference, media, children
/// and flags.
pub open spec fn keeps_content(a: Chain, b: Chain) -> bool {
    &&& a.bref == b.bref && a.data@ == b.data@ && a.ccids@ == b.ccids@ && a.flags == b.flags
}

/// Every entry of the block table `s` that a search from `kb` can hit
/// starts past `ke`.
pub open spec fn table_beyond(s: Seq<Hammer2Blockref>, kb: u64, ke: u64) -> bool {
    forall|k: int| 0 <= k < s.len() && #[trigger] crate::chain::bref_hit(s[k], kb) ==> s[k].key > ke
}

/// Every entry of the block table `s` that a search from `kb` can hit has
/// the key `xkey` of the child found, or starts past both `kb` and that
/// key: the child found stands for its own entry.
pub open spec fn table_shadowed(s: Seq<Hammer2Blockref>, kb: u64, xkey: u64) -> bool {
    forall|k: int|
        0 <= k < s.len() && #[trigger] crate::chain::bref_hit(s[k], kb) ==> s[k].key == xkey || (
        s[k].key > xkey && s[k].key > kb)
}

/// The block table of chain `c` was counted, reads, and has entries whose
/// key ranges fit.
pub open spec fn table_ready(c: Chain) -> bool {
    &&& c.flags & CHAIN_COUNTED_BLOCKREF != 0
    &&& media_blockrefs(c.bref.typ, c.data@) matches Ok(s) && live_ranges_ok(s)
}

/// A lookup step under chain `c` that found nothing is final: a single
/// key, a parent that is not a node, or a node whose range reaches the end
/// of the keys or past `ke`.
pub open spec fn lookup_ends(c: Chain, kb: u64, ke: u64) -> bool {
    let next = crate::keys::range_next(c.bref.key, c.bref.keybits);
    ||| kb == ke
    ||| !(c.bref.typ == HAMMER2_BREF_TYPE_INDIRECT || c.bref.typ == HAMMER2_BREF_TYPE_FREEMAP_NODE)
    ||| next == 0
    ||| next > ke
}

/// State `b` is state `a` but for chain `p`: the same media held ready and
/// every other chain of `a` as it was.
pub open spec fn keeps_others(a: Hammer2, b: Hammer2, p: Cid) -> bool {
    &&& b.media == a.media
    &&& forall|k: u64|
        #[trigger] a.cmap@.contains_key(k) && k != p ==> b.cmap@.contains_key(k) && b.cmap@[k]
            == a.cmap@[k]
}

/// How an element found by a lookup step loads: as `how_maybe` for a
/// node, as `how` otherwise.
pub open spec fn select_how(b: Hammer2Blockref, how_maybe: u32, how: u32) -> u32 {
    if b.typ == HAMMER2_BREF_TYPE_INDIRECT || b.typ == HAMMER2_BREF_TYPE_FREEMAP_NODE {
        how_maybe
    } else {
        how
    }
}

/// What a lookup step that found the chain `c` of block reference `b`
/// under `pcid` gives: a node becomes the parent to look again under from
/// `kb`; anything else is the result.
pub open spec fn select_result(b: Hammer2Blockref, pcid: Cid, c: Cid, kb: u64, key_next: u64) -> (
    Cid,
    Cid,
    u64,
    u64,
) {
    if b.typ == HAMMER2_BREF_TYPE_INDIRECT || b.typ == HAMMER2_BREF_TYPE_FREEMAP_NODE {
        (c, CID_NONE, u64::MAX, kb)
    } else {
        (pcid, c, key_next, u64::MAX)
    }
}

/// Walking on past element `cid` found under `pcid` up to `ke` ends at
/// once: `cid` is the parent itself (direct data), or the keys after the
/// element (or, without one, after a node parent) run out or pass `ke`,
/// or the parent without an element is not a node.
pub open spec fn next_ends(m: Map<u64, Chain>, pcid: Cid, cid: Cid, ke: u64) -> bool {
    let p = m[pcid].bref;
    ||| cid != CID_NONE && cid == pcid
    ||| cid != CID_NONE && m.contains_key(cid) && (crate::keys::range_next(
        m[cid].bref.key,
        m[cid].bref.keybits,
    ) == 0 || crate::keys::range_next(m[cid].bref.key, m[cid].bref.keybits) > ke)
    ||| cid == CID_NONE && !(p.typ == HAMMER2_BREF_TYPE_INDIRECT || p.typ
        == HAMMER2_BREF_TYPE_FREEMAP_NODE)
    ||| cid == CID_NONE && (crate::keys::range_next(p.key, p.keybits) == 0
        || crate::keys::range_next(p.key, p.keybits) > ke)
}

/// The same chain: the same block reference, id, parent and media size.
pub open spec fn same_place(a: Chain, b: Chain) -> bool {
    &&& a.bref == b.bref
    &&& a.cid == b.cid
    &&& a.pcid == b.pcid
    &&& a.bytes == b.bytes
}

/// The cache after an operation: every chain that was there still is, in
/// the same place, and one that had media keeps it.
pub open spec fn cache_grows(a: Map<u64, Chain>, b: Map<u64, Chain>) -> bool {
    forall|k: u64|
        #[trigger] a.contains_key(k) ==> b.contains_key(k) && same_place(a[k], b[k]) && (
        a[k].data@.len() > 0 ==> b[k].data@ == a[k].data@)
}

/// An inode chain whose media holds the file's data itself.
pub open spec fn direct_inode(c: Chain) -> bool {
    &&& c.bref.typ == HAMMER2_BREF_TYPE_INODE
    &&& c.data@.len() == 1024
    &&& c.data@[0x51] & crate::fs::HAMMER2_OPFLAG_DIRECTDATA != 0
}

/// A read of `size` bytes at `offset` of the file with inode `ip` needs
/// nothing that is not at hand: it reads nothing, or the file's inode chain
/// holds all of the file's data itself.
pub open spec fn read_needs_nothing(h: Hammer2, ip: Inode, size: u64, offset: u64) -> bool {
    ||| size == 0
    ||| offset >= ip.meta.size
    ||| direct_readable(h, ip.cid) && ip.meta.size <= crate::fs::le64(h.cmap@[ip.cid].data@, 0x60)
}

/// Chain `c` of `h` is an inode that holds its data itself, no more than
/// its embedded area.
pub open spec fn direct_readable(h: Hammer2, c: Cid) -> bool {
    &&& h.cmap@.contains_key(c)
    &&& direct_inode(h.cmap@[c])
    &&& crate::fs::le64(h.cmap@[c].data@, 0x60) <= 512
}

/// The data an inode chain holds itself: its embedded area, as far as the
/// inode's size says.
pub open spec fn direct_data(c: Chain) -> Seq<u8> {
    c.data@.subrange(0x200, 0x200 + crate::fs::le64(c.data@, 0x60))
}

/// The offset within its block of the byte `i` bytes past `offset`.
pub open spec fn block_pos(offset: u64, i: int) -> int {
    (offset + i) % 65536
}

/// Bytes `v` read from `offset` of a file whose inode holds its data `d`:
/// each byte is the byte of `d` at its offset within its block.
pub open spec fn direct_read(v: Seq<u8>, d: Seq<u8>, offset: u64) -> bool {
    forall|i: int|
        #![trigger v[i]]
        0 <= i < v.len() ==> block_pos(offset, i) < d.len() && v[i] == d[block_pos(offset, i)]
}

/// The buffer a link's target is read into: the bytes read, filled with
/// zeros to a name's length.
pub open spec fn link_buffer(v: Seq<u8>) -> Seq<u8> {
    Seq::new(
        crate::fs::HAMMER2_INODE_MAXNAME as nat,
        |j: int|
            if j < v.len() {
                v[j]
            } else {
                0u8
            },
    )
}

/// What a read of `v` from `offset` of the file with chain `c` gives, where
/// the chain in `h` holds the file's data itself.
pub open spec fn reads_direct(h: Hammer2, c: Cid, v: Seq<u8>, offset: u64) -> bool {
    h.cmap@.contains_key(c) && direct_inode(h.cmap@[c]) ==> direct_read(
        v,
        direct_data(h.cmap@[c]),
        offset,
    )
}

/// Bytes read on from a block of direct data keep the read direct.
proof fn lemma_direct_read_extend(
    out0: Seq<u8>,
    piece: Seq<u8>,
    d: Seq<u8>,
    offset: u64,
    total: int,
    lo: int,
    n: int,
)
    requires
        out0.len() == total,
        total > 0 ==> direct_read(out0, d, offset),
        0 <= lo,
        0 <= n,
        lo + n <= d.len(),
        lo + n <= 65536,
        piece == d.subrange(lo, lo + n),
        lo == (offset + total) % 65536,
    ensures
        direct_read(out0 + piece, d, offset),
{
    let out = out0 + piece;
    assert forall|i: int|
        #![trigger out[i]]
        #![trigger block_pos(offset, i)]
        0 <= i < out.len() implies block_pos(offset, i) < d.len() && out[i] == d[block_pos(
            offset,
            i,
        )] by {
        if i >= total {
            let j = i - total;
            lemma_mod_step(offset + total, j);
            assert(offset + total + j == offset + i);
            assert(out[i] == piece[j]);
        } else {
            assert(out[i] == out0[i]);
        }
    }
}

proof fn lemma_mod_step(off: int, k: int)
    requires
        0 <= off,
        0 <= k,
        off % 65536 + k < 65536,
    ensures
        (off + k) % 65536 == off % 65536 + k,
{
    assert((off + k) % 65536 == off % 65536 + k) by (nonlinear_arith)
        requires
            0 <= off,
            0 <= k,
            off % 65536 + k < 65536,
    ;
}

/// An inode chain whose media is not a whole inode.
pub open spec fn inode_unread(c: Chain) -> bool {
    c.bref.typ == HAMMER2_BREF_TYPE_INODE && c.data@.len() != 1024
}

/// Chain `c` is recorded among the children of chain `p` of the cache `m`
/// with a key range that overlaps `[kb, ke]`.
pub open spec fn child_found(m: Map<u64, Chain>, p: Cid, c: Cid, kb: u64, ke: u64) -> bool {
    &&& m.contains_key(p)
    &&& exists|j: int|
        0 <= j < m[p].ccids@.len() && (#[trigger] m[p].ccids@[j]).cid == c
            && crate::chain::elem_order(kb, ke, m[p].ccids@[j]) == crate::keys::KeyOrder::Equal
}

/// Chain `c` is recorded among the children of chain `p` of the cache `m`
/// with a key range that starts at or below `ke`.
pub open spec fn child_within(m: Map<u64, Chain>, p: Cid, c: Cid, ke: u64) -> bool {
    &&& m.contains_key(p)
    &&& exists|j: int|
        0 <= j < m[p].ccids@.len() && (#[trigger] m[p].ccids@[j]).cid == c && m[p].ccids@[j].key
            <= ke
}

/// A child recorded with a range overlapping `[kb, ke]` starts at or below
/// `ke`.
proof fn lemma_found_within(m: Map<u64, Chain>, p: Cid, c: Cid, kb: u64, ke: u64)
    requires
        child_found(m, p, c, kb, ke),
    ensures
        child_within(m, p, c, ke),
{
    let j = choose|j: int|
        0 <= j < m[p].ccids@.len() && (#[trigger] m[p].ccids@[j]).cid == c
            && crate::chain::elem_order(kb, ke, m[p].ccids@[j]) == crate::keys::KeyOrder::Equal;
    assert(m[p].ccids@[j].key <= ke);
}

/// Chain `c` is what resolving `name` in a directory gives: a chain that
/// bears the name itself, or the inode chain a directory entry of that name
/// refers to (by the inode table, or by the inode number in the chain's
/// media).
pub open spec fn resolved(h: Hammer2, name: Seq<u8>, c: Cid) -> bool {
    &&& h.cmap@.contains_key(c)
    &&& (crate::chain::name_matches(h.cmap@[c], name) || exists|d: u64|
        #![trigger h.cmap@[d]]
        {
            &&& h.cmap@.contains_key(d)
            &&& h.cmap@[d].bref.typ == HAMMER2_BREF_TYPE_DIRENT
            &&& crate::chain::name_matches(h.cmap@[d], name)
            &&& dirent_refers(h, crate::fs::le64(h.cmap@[d].bref.embed@, 0), c)
        })
}

/// Directory chain `c` of `h` holds no entry in the hash range of `name`:
/// it is a loaded inode chain, and neither its block table nor a cached
/// child meets the range.
pub open spec fn no_entry_named(h: Hammer2, c: Cid, name: Seq<u8>) -> bool {
    let lhc = crate::subs::dirhash_spec(name);
    &&& h.cmap@.contains_key(c) && h.cmap@[c].bref.typ == HAMMER2_BREF_TYPE_INODE
    &&& h.cmap@[c].data@.len() > 0
    &&& finds_nothing(h.cmap@[c], lhc, (lhc + crate::fs::HAMMER2_DIRHASH_LOMASK) as u64)
}

/// The media of chain `d` of `h` once loaded: its own, or the media held
/// ready when it has none yet.
pub open spec fn media_after_load(h: Hammer2, d: Cid) -> Seq<u8> {
    if h.cmap@[d].data@.len() > 0 {
        h.cmap@[d].data@
    } else {
        ready_media(h)
    }
}

/// Inode media bearing the name `name`: a whole inode whose name length
/// is that of `name` (at most 256 bytes) and whose filename is `name`.
pub open spec fn inode_bears(media: Seq<u8>, name: Seq<u8>) -> bool {
    let n = name.len();
    &&& media.len() == 1024
    &&& crate::chain::inode_name_len(media) == n && n <= 256
    &&& media.subrange(0x100, 0x100 + n as int) == name
}

/// Under directory chain `c` of `h`, the lookup of the hash range of `name`
/// finds the one recorded child at index `j`: an inode that loads as a
/// lookup loads it (from its media, or from the media handed over for it)
/// and whose media then bears the name `name`.
pub open spec fn one_named(h: Hammer2, c: Cid, name: Seq<u8>, j: int) -> bool {
    let lhc = crate::subs::dirhash_spec(name);
    let d = h.cmap@[c].ccids@[j].cid;
    &&& h.cmap@.contains_key(c) && h.cmap@[c].bref.typ == HAMMER2_BREF_TYPE_INODE
    &&& h.cmap@[c].data@.len() > 0
    &&& finds_first(h.cmap@[c], lhc, (lhc + crate::fs::HAMMER2_DIRHASH_LOMASK) as u64, j, j)
    &&& leaf_child_loads(h, c, d, LOOKUP_ALWAYS)
    &&& h.cmap@[d].bref.typ == HAMMER2_BREF_TYPE_INODE
    &&& (h.cmap@[d].data@.len() == 1024 || h.cmap@[d].data@.len() == 0 && raw_off(h.cmap@[d].bref)
        != 0)
    &&& inode_bears(media_after_load(h, d), name)
}

/// In directory `dinum` of `h`, the name `name` resolves through the one
/// recorded child at index `j`, to the inode number its media holds,
/// which the table does not file with another chain.
pub open spec fn resolves_at(h: Hammer2, dinum: u64, name: Seq<u8>, j: int) -> bool {
    let c = h.nmap@[dinum].cid;
    &&& h.nmap@.contains_key(dinum)
    &&& one_named(h, c, name, j)
    &&& inode_filed_as(h, h.cmap@[c].ccids@[j].cid, resolved_inum(h, dinum, j))
}

/// The inode number held by the media of child `j` of directory `dinum`
/// once loaded.
pub open spec fn resolved_inum(h: Hammer2, dinum: u64, j: int) -> u64 {
    crate::fs::le64(media_after_load(h, h.cmap@[h.nmap@[dinum].cid].ccids@[j].cid), 0x58)
}

/// The inode number `inum` is not in the table of `h`, or is filed there
/// with chain `d`.
pub open spec fn inode_filed_as(h: Hammer2, d: Cid, inum: u64) -> bool {
    !h.nmap@.contains_key(inum) || h.nmap@[inum].cid == d
}

/// The inode number `inum` of a directory entry refers to chain `c`.
pub open spec fn dirent_refers(h: Hammer2, inum: u64, c: Cid) -> bool {
    ||| h.nmap@.contains_key(inum) && h.nmap@[inum].cid == c
    ||| h.cmap@[c].data@.len() > 0 ==> crate::fs::le64(h.cmap@[c].data@, 0x58) == inum
}

/// Resolution stays as it was when only inodes are added to the table.
proof fn lemma_resolved_nmap_grows(a: Hammer2, b: Hammer2, name: Seq<u8>, c: Cid)
    requires
        resolved(a, name, c),
        b.cmap@ == a.cmap@,
        forall|k: u64|
            #[trigger] a.nmap@.contains_key(k) ==> b.nmap@.contains_key(k) && b.nmap@[k]
                == a.nmap@[k],
    ensures
        resolved(b, name, c),
{
    if !crate::chain::name_matches(a.cmap@[c], name) {
        let d = choose|d: u64|
            #![trigger a.cmap@[d]]
            {
                &&& a.cmap@.contains_key(d)
                &&& a.cmap@[d].bref.typ == HAMMER2_BREF_TYPE_DIRENT
                &&& crate::chain::name_matches(a.cmap@[d], name)
                &&& dirent_refers(a, crate::fs::le64(a.cmap@[d].bref.embed@, 0), c)
            };
        assert(dirent_refers(b, crate::fs::le64(b.cmap@[d].bref.embed@, 0), c));
    }
}

/// A name that a chain bears, read where it can be read, stays borne as
/// the cache grows.
proof fn lemma_name_stable(a: Map<u64, Chain>, b: Map<u64, Chain>, d: u64, name: Seq<u8>)
    requires
        cache_grows(a, b),
        a.contains_key(d),
        crate::chain::name_matches(a[d], name),
        crate::chain::name_readable(a[d], name.len()),
    ensures
        b.contains_key(d),
        crate::chain::name_matches(b[d], name),
{
    assert(same_place(a[d], b[d]));
    if a[d].bref.typ == HAMMER2_BREF_TYPE_INODE {
        assert(b[d].data@ == a[d].data@);
    } else if a[d].bref.typ == HAMMER2_BREF_TYPE_DIRENT && name.len() > 64 {
        assert(b[d].data@ == a[d].data@);
    }
}

/// What clearing below chain `cid` leaves of the cache `a` in `b`: no new
/// chain, every chain in its place with its media, and every chain but
/// `cid` with the children it had.
pub open spec fn cleared_rest(a: Map<u64, Chain>, b: Map<u64, Chain>, cid: Cid) -> bool {
    &&& cache_shrinks(a, b)
    &&& forall|k: u64| #[trigger] b.contains_key(k) && k != cid ==> b[k].ccids@ == a[k].ccids@
}

/// The filename an inode's media holds: as many bytes as its name length
/// says, at most 256.
pub open spec fn media_filename(m: Seq<u8>) -> Seq<u8> {
    let n = crate::fs::le16(m, 0x80) as int;
    m.subrange(0x100, 0x100 + if n < 256 {
        n
    } else {
        256
    })
}

/// A decoded inode names what its media holds: its name, its flags and its
/// number.
proof fn lemma_inode_media_name(d: crate::fs::Hammer2InodeData, s: Seq<u8>)
    requires
        s.len() == 1024,
        crate::fs::inode_data_decodes(d, s),
    ensures
        crate::extra::filename_bytes(d) == media_filename(s),
        d.meta.op_flags == s[0x51],
        d.meta.inum == crate::fs::le64(s, 0x58),
{
    assert(crate::extra::filename_bytes(d) =~= media_filename(s));
}

/// Whether an inode's media marks the root of a PFS.
pub open spec fn media_pfs_root(m: Seq<u8>) -> bool {
    m[0x51] & crate::fs::HAMMER2_OPFLAG_PFSROOT != 0
}

/// The inode that clearing takes out of the table with chain `c`, under
/// the mounted label `label`: that of an inode chain, unless it is the
/// root of another PFS.
pub open spec fn dropped_inode(c: Chain, label: Seq<char>) -> Option<u64> {
    if c.bref.typ == HAMMER2_BREF_TYPE_INODE && (!media_pfs_root(c.data@)
        || vstd::utf8::decode_utf8(media_filename(c.data@)) == label) {
        Some(crate::fs::le64(c.data@, 0x58))
    } else {
        None
    }
}

/// The table `n` with the inode `x` taken out, if there is one.
pub open spec fn nmap_without(n: Map<u64, Inode>, x: Option<u64>) -> Map<u64, Inode> {
    match x {
        Some(i) => n.remove(i),
        None => n,
    }
}

/// Chain `d` of `h` goes cleanly from under chain `p` once it has no
/// children: it is cached and not a fixed chain; an inode chain holds a
/// whole inode, whose name, for the root of a PFS, is valid UTF-8; and the
/// inode it takes out is in the table.
pub open spec fn goes_clean(h: Hammer2, p: Cid, d: Cid) -> bool {
    let c = h.cmap@[d];
    &&& d != CID_NONE && d != CID_VCHAIN && d != CID_FCHAIN && d != p
    &&& h.cmap@.contains_key(d)
    &&& c.bref.typ == HAMMER2_BREF_TYPE_INODE ==> c.data@.len() == 1024 && (media_pfs_root(c.data@)
        ==> vstd::utf8::valid_utf8(media_filename(c.data@)))
    &&& dropped_inode(c, h.label@) matches Some(i) ==> h.nmap@.contains_key(i)
}

/// Chain `cid` of `h` has one child, which has no children and goes
/// cleanly.
pub open spec fn one_leaf(h: Hammer2, cid: Cid) -> bool {
    let d = h.cmap@[cid].ccids@[0].cid;
    &&& h.cmap@.contains_key(cid) && h.cmap@[cid].ccids@.len() == 1
    &&& goes_clean(h, cid, d) && h.cmap@[d].ccids@.len() == 0
}

/// Chain `cid` of `h` has one child, which has one child with no
/// children; both go cleanly, taking out different inodes.
pub open spec fn one_branch(h: Hammer2, cid: Cid) -> bool {
    let d = h.cmap@[cid].ccids@[0].cid;
    let g = h.cmap@[d].ccids@[0].cid;
    &&& h.cmap@.contains_key(cid) && h.cmap@[cid].ccids@.len() == 1
    &&& goes_clean(h, cid, d) && one_leaf(h, d) && g != cid
    &&& dropped_inode(h.cmap@[d], h.label@) matches Some(i) ==> nmap_without(
        h.nmap@,
        dropped_inode(h.cmap@[g], h.label@),
    ).contains_key(i)
}

/// What clearing below chain `cid` of `a`, which holds a branch of two
/// chains, leaves in `b`: the cache without those chains, and the table
/// without the inodes they took out.
pub open spec fn branch_cleared(a: Hammer2, b: Hammer2, cid: Cid) -> bool {
    let d = a.cmap@[cid].ccids@[0].cid;
    let g = a.cmap@[d].ccids@[0].cid;
    &&& b.cmap@.dom() == a.cmap@.dom().remove(g).remove(d)
    &&& b.nmap@ == nmap_without(
        nmap_without(a.nmap@, dropped_inode(a.cmap@[g], a.label@)),
        dropped_inode(a.cmap@[d], a.label@),
    )
}

/// A mounted file system as unmounting wants it: the volume header's chain
/// holds the super-root's, which holds that of the mounted PFS root, with
/// nothing below; the freemap's chain has no children; no other chain is
/// cached; the table holds the super-root and the PFS root, the inodes
/// those two chains take out; and a linear allocator has handed back
/// every id.
pub open spec fn unmount_ready(h: Hammer2) -> bool {
    let d = h.cmap@[CID_VCHAIN].ccids@[0].cid;
    let g = h.cmap@[d].ccids@[0].cid;
    &&& one_branch(h, CID_VCHAIN)
    &&& h.cmap@.contains_key(CID_FCHAIN) && h.cmap@[CID_FCHAIN].ccids@.len() == 0
    &&& h.cmap@.dom() == set![CID_VCHAIN, CID_FCHAIN, d, g]
    &&& h.nmap@.dom() == set![crate::inode::INUM_SUP_ROOT, crate::inode::INUM_PFS_ROOT]
    &&& dropped_inode(h.cmap@[d], h.label@) == Some(crate::inode::INUM_SUP_ROOT)
    &&& dropped_inode(h.cmap@[g], h.label@) == Some(crate::inode::INUM_PFS_ROOT)
    &&& h.opt.cidalloc == CidAllocMode::Linear ==> h.imap.pool@.len() == 0
}

/// The cache `b` holds no chain that `a` did not, each in its place and
/// with its media.
pub open spec fn cache_shrinks(a: Map<u64, Chain>, b: Map<u64, Chain>) -> bool {
    forall|k: u64|
        #[trigger] b.contains_key(k) ==> a.contains_key(k) && same_place(a[k], b[k]) && b[k].data@
            == a[k].data@
}

impl Hammer2 {
    /// Loads the media of chain `cid` as `how` asks: not for file data under
    /// `RESOLVE_MAYBE`, not when it has media or no media offset. Media
    /// must have been handed over for the chain's offset and size, else the
    /// load stops with the request for it. Media that fails its check code,
    /// does not fit the chain's type, or belongs to a volume header gives
    /// `EINVAL`; an offset no volume holds gives `ENODEV`.
    pub fn load_chain(&mut self, cid: Cid, how: u32) -> (r: Result<(), Hammer2Error>)
        requires
            old(self).wf(),
        ensures
            final(self).wf(),
            r is Ok <==> load_succeeds(*old(self), cid, how),
            r is Ok && old(self).cmap@.contains_key(cid) && load_done(old(self).cmap@[cid], how)
                ==> *final(self) == *old(self),
            r is Ok && old(self).cmap@.contains_key(cid) && !load_done(old(self).cmap@[cid], how)
                ==> final(self).media is None && final(self).cmap@[cid].data@ == ready_media(
                *old(self),
            ),
            final(self).cmap@.dom() == old(self).cmap@.dom(),
            forall|k: u64|
                #[trigger] old(self).cmap@.contains_key(k) && k != cid ==> final(self).cmap@[k]
                    == old(self).cmap@[k],
            cache_grows(old(self).cmap@, final(self).cmap@),
            r is Ok ==> old(self).cmap@.contains_key(cid) && (final(self).cmap@[cid].data@.len()
                > 0 || load_skips(old(self).cmap@[cid], how)),
            r matches Err(Hammer2Error::NeedMedia(q)) ==> q.cid == cid && old(self).cmap@.contains_key(
                cid,
            ) && q.offset == raw_off(old(self).cmap@[cid].bref) && q.bytes == old(self).cmap@[cid].bytes
                && q.volume == first_volume_with(old(self).fso.volumes@, q.offset),
            old(self).media matches Some(p) && old(self).cmap@.contains_key(cid) && p.0 == raw_off(
                old(self).cmap@[cid].bref,
            ) && p.1@.len() == old(self).cmap@[cid].bytes ==> !(r is Err && r->Err_0 is NeedMedia),
            old(self).cmap@.contains_key(cid) ==> final(self).cmap@[cid].ccids@
                == old(self).cmap@[cid].ccids@,
            old(self).cmap@.contains_key(cid) && old(self).cmap@[cid].data@.len() > 0 && (how
                & RESOLVE_MASK == RESOLVE_ALWAYS || how & RESOLVE_MASK == 0) ==> r == Ok::<
                (),
                Hammer2Error,
            >(()) && final(self).cmap@ == old(self).cmap@,
            final(self).nmap@ == old(self).nmap@ && final(self).imap == old(self).imap,
            final(self).fso == old(self).fso,
            final(self).voldata == old(self).voldata && final(self).opt == old(self).opt,
            final(self).label@ == old(self).label@ && final(self).vimage@ == old(self).vimage@,
    {
        let m = how & RESOLVE_MASK;
        if m == RESOLVE_MAYBE {
            let c = match self.get_chain(cid) {
                Ok(c) => c,
                Err(e) => return Err(Hammer2Error::Errno(e)),
            };
            if c.bref.typ == HAMMER2_BREF_TYPE_DATA {
                return Ok(());
            }
        } else if m != RESOLVE_ALWAYS && m != 0 {
            return Err(Hammer2Error::Errno(Errno::EINVAL));
        }
        let c = match self.get_chain(cid) {
            Ok(c) => c,
            Err(e) => return Err(Hammer2Error::Errno(e)),
        };
        if c.has_data() {
            return Ok(());
        }
        let offset = c.bref.get_raw_data_off();
        if offset == 0 {
            return Ok(());
        }
        let bytes = c.get_bytes();
        let typ = c.bref.typ;
        let vi = match self.fso.get_volume_index(offset) {
            Some(i) => i,
            None => return Err(Hammer2Error::Errno(Errno::ENODEV)),
        };
        let supplied = match &self.media {
            Some(pair) => pair.0 == offset && pair.1.len() as u64 == bytes,
            None => false,
        };
        if !supplied {
            return Err(
                Hammer2Error::NeedMedia(MediaRequest { cid, volume: vi, offset, bytes }),
            );
        }
        let b = match self.media.take() {
            Some(pair) => pair.1,
            None => Vec::new(),
        };
        let mut chain = match self.take_chain(cid) {
            Ok(c) => c,
            Err(e) => return Err(Hammer2Error::Errno(e)),
        };
        let ghost c0 = chain;
        assert(chain_ok(chain));
        let good = match chain.test_check(b.as_slice()) {
            Ok(v) => v,
            Err(e) => {
                self.put_chain(chain);
                return Err(Hammer2Error::Errno(e));
            },
        };
        proof {
            let f0 = c0.flags;
            let f1 = chain.flags;
            assert(f1 == f0 || f1 == f0 | 0x100u32);
            assert(f1 == f0 | 0x100u32 ==> (f1 & 0x2000u32 == f0 & 0x2000u32)) by (bit_vector);
            assert(chain_ok(chain));
        }
        if !good {
            self.put_chain(chain);
            return Err(Hammer2Error::Errno(Errno::EINVAL));
        }
        let fits = media_size_ok_exec(typ, b.as_slice());
        if typ == HAMMER2_BREF_TYPE_INODE || typ == HAMMER2_BREF_TYPE_INDIRECT || typ
            == HAMMER2_BREF_TYPE_DATA || typ == HAMMER2_BREF_TYPE_FREEMAP_NODE || typ
            == HAMMER2_BREF_TYPE_FREEMAP_LEAF || (typ == HAMMER2_BREF_TYPE_DIRENT && bytes != 0) {
            if !fits {
                self.put_chain(chain);
                return Err(Hammer2Error::Errno(Errno::EINVAL));
            }
            chain.set_data(b);
            self.put_chain(chain);
            Ok(())
        } else {
            self.put_chain(chain);
            Err(Hammer2Error::Errno(Errno::EINVAL))
        }
    }

    /// Creates the chain of `bref` under `pcid` and loads it as `how` asks;
    /// when the load does not complete the chain is removed again.
    fn set_chain(&mut self, pcid: Cid, bref: &Hammer2Blockref, how: u32) -> (r: Result<
        Cid,
        Hammer2Error,
    >)
        requires
            old(self).wf(),
        ensures
            final(self).wf(),
            r matches Ok(cid) ==> final(self).cmap@.contains_key(cid) && final(self).cmap@[cid].bref
                == *bref && final(self).cmap@[cid].pcid == pcid && !old(self).cmap@.contains_key(
                cid,
            ) && cid != CID_NONE,
            r matches Ok(cid) ==> final(self).cmap@.contains_key(pcid) && final(self).cmap@[pcid].ccids@.contains(
                crate::keys::ChainKey { cid: cid, key: bref.key, keybits: bref.keybits },
            ),
            cache_grows(old(self).cmap@, final(self).cmap@),
            final(self).nmap@ == old(self).nmap@,
            final(self).fso == old(self).fso,
            final(self).voldata == old(self).voldata && final(self).opt == old(self).opt,
            final(self).label@ == old(self).label@ && final(self).vimage@ == old(self).vimage@,
            r is Ok <==> set_ok(*old(self), pcid, *bref, how),
            r matches Ok(cid) ==> cid == old(self).imap.next,
    {
        if !range_ok_exec(bref.key, bref.keybits) {
            return Err(Hammer2Error::Errno(Errno::EINVAL));
        }
        let cid = match self.alloc_cid() {
            Ok(c) => c,
            Err(e) => return Err(Hammer2Error::Errno(e)),
        };
        let chain = match Chain::new(bref, cid) {
            Ok(c) => c,
            Err(e) => return Err(Hammer2Error::Errno(e)),
        };
        assert(chain.ccids@ =~= Seq::<crate::keys::ChainKey>::empty());
        assert(0u32 & 0x2000u32 == 0) by (bit_vector);
        match self.add_chain(pcid, chain) {
            Ok(()) => {},
            Err(e) => return Err(Hammer2Error::Errno(e)),
        }
        proof {
            let c = self.cmap@[cid];
            let f = c.flags;
            assert(f & crate::chain::CHAIN_TESTED_GOOD == 0) by (bit_vector)
                requires
                    f == 0u32,
            ;
            assert(c.data@.len() == 0);
            assert(raw_off(c.bref) == (bref.data_off - bref.data_off % 64) as u64);
            assert(load_succeeds(*self, cid, how) == new_chain_loads(*old(self), *bref, how));
        }
        match self.load_chain(cid, how) {
            Ok(()) => Ok(cid),
            Err(e) => {
                match self.remove_chain(pcid, cid) {
                    Ok(_) => Err(e),
                    Err(e2) => Err(Hammer2Error::Errno(e2)),
                }
            },
        }
    }
}

/// Whether every non-empty entry of a block table describes a key range
/// that fits in 64 bits.
pub fn table_ranges_ok(base: &Vec<Hammer2Blockref>) -> (r: bool)
    ensures
        r == live_ranges_ok(base@),
{
    let mut i: usize = 0;
    while i < base.len()
        invariant
            i <= base@.len(),
            forall|k: int|
                0 <= k < i && (#[trigger] base@[k]).typ != HAMMER2_BREF_TYPE_EMPTY ==> range_ok(
                    base@[k].key,
                    base@[k].keybits,
                ),
        decreases base@.len() - i,
    {
        if base[i].typ != HAMMER2_BREF_TYPE_EMPTY && !range_ok_exec(base[i].key, base[i].keybits) {
            return false;
        }
        i = i + 1;
    }
    true
}

/// The cache after an operation that only loaded media and created
/// chains: it grew, and the rest of the file system is as it was.
pub open spec fn only_cache(a: Hammer2, b: Hammer2) -> bool {
    &&& cache_grows(a.cmap@, b.cmap@)
    &&& b.nmap@ == a.nmap@
    &&& b.fso == a.fso
    &&& b.voldata == a.voldata
    &&& b.opt == a.opt
    &&& b.label@ == a.label@
    &&& b.vimage@ == a.vimage@
}

/// The POSIX file-type bits of a HAMMER2 inode type: directory 0o040000,
/// regular file 0o100000, fifo 0o010000, character device 0o020000, block
/// device 0o060000, symbolic link 0o120000, socket 0o140000; none for any
/// other type.
pub open spec fn posix_file_type(typ: u8) -> u32 {
    if typ == 1 {
        0o040000u32
    } else if typ == 2 {
        0o100000u32
    } else if typ == 4 {
        0o010000u32
    } else if typ == 5 {
        0o020000u32
    } else if typ == 6 {
        0o060000u32
    } else if typ == 7 {
        0o120000u32
    } else if typ == 9 {
        0o140000u32
    } else {
        0u32
    }
}

/// The other fields of a status: the inode's number, link count and size;
/// blocks of 512 bytes (a directory counts as 1024 bytes, any other file
/// by its size); a preferred block size of 64 KiB; times in whole seconds
/// from the inode's microseconds; no device numbers.
pub proof fn lemma_stat_fields(st: Stat, m: crate::fs::Hammer2InodeMeta)
    requires
        stat_matches(st, m),
    ensures
        st.st_ino == m.inum && st.st_nlink == m.nlinks && st.st_size == m.size,
        st.st_blocks == (if m.typ == 1 {
            2
        } else {
            m.size / 512
        }),
        st.st_blksize == 0x1_0000,
        st.st_atime == m.atime / 1_000_000 && st.st_mtime == m.mtime / 1_000_000 && st.st_ctime
            == m.ctime / 1_000_000,
        st.st_dev == 0 && st.st_rdev == 0,
{
}

/// The mode of a status: its file-type bits are those of the inode's mode
/// joined with the POSIX type of the inode (a symbolic link reads as
/// 0o120000, a directory as 0o040000, ...), and its permission bits are the
/// inode's.
pub proof fn lemma_stat_mode(st: Stat, m: crate::fs::Hammer2InodeMeta)
    requires
        stat_matches(st, m),
    ensures
        st.st_mode & 0o170000u32 == (m.mode & 0o170000u32) | posix_file_type(m.typ),
        st.st_mode & 0o7777u32 == m.mode & 0o7777u32,
        m.mode & 0o170000u32 == 0 && m.typ == crate::fs::HAMMER2_OBJTYPE_SOFTLINK ==> st.st_mode
            & 0o170000u32 == 0o120000u32,
{
    let w = posix_file_type(m.typ);
    let a = m.mode;
    assert(mode_type(m.typ) == w);
    assert(w & 0o7777u32 == 0 && w & 0o170000u32 == w) by (bit_vector)
        requires
            w == 0o040000u32 || w == 0o100000u32 || w == 0o010000u32 || w == 0o020000u32 || w
                == 0o060000u32 || w == 0o120000u32 || w == 0o140000u32 || w == 0u32,
    ;
    assert((a | w) & 0o170000u32 == (a & 0o170000u32) | w && (a | w) & 0o7777u32 == a & 0o7777u32)
        by (bit_vector)
        requires
            w & 0o7777u32 == 0 && w & 0o170000u32 == w,
    ;
    assert(a & 0o170000u32 == 0 ==> (a & 0o170000u32) | w == w) by (bit_vector);
}

impl Hammer2 {
    /// The parent of chain `cid`, loaded as `how` asks; `EINVAL` for a
    /// chain without a parent.
    fn repparent_chain(&mut self, cid: Cid, how: u32) -> (r: Result<Cid, Hammer2Error>)
        requires
            old(self).wf(),
        ensures
            final(self).wf(),
            only_cache(*old(self), *final(self)),
            r matches Ok(p) ==> p != CID_NONE && final(self).cmap@.contains_key(p)
                && old(self).cmap@.contains_key(cid) && p == old(self).cmap@[cid].pcid,
            r is Ok <==> old(self).cmap@.contains_key(cid) && old(self).cmap@[cid].pcid != CID_NONE
                && load_succeeds(*old(self), old(self).cmap@[cid].pcid, how),
            !old(self).cmap@.contains_key(cid) || old(self).cmap@[cid].pcid == CID_NONE ==> r
                == Err::<Cid, Hammer2Error>(Hammer2Error::Errno(Errno::EINVAL)),
    {
        let pcid = match self.get_chain(cid) {
            Ok(c) => c.pcid,
            Err(e) => return Err(Hammer2Error::Errno(e)),
        };
        if pcid == CID_NONE {
            return Err(Hammer2Error::Errno(Errno::EINVAL));
        }
        match self.load_chain(pcid, how) {
            Ok(()) => Ok(pcid),
            Err(e) => Err(e),
        }
    }

    /// Searches chain `pcid` for the element nearest to `key_beg` within
    /// `[key_beg, key_end]`, among its children in the cache and the
    /// entries of its block table: the child found, or the block table
    /// entry found, and the next key to look at.
    fn combined_find_chain(&mut self, pcid: Cid, key_beg: u64, key_end: u64) -> (r: Result<
        (Cid, Option<Hammer2Blockref>, u64),
        Errno,
    >)
        requires
            old(self).wf(),
        ensures
            final(self).wf(),
            only_cache(*old(self), *final(self)),
            final(self).cmap@.dom() == old(self).cmap@.dom(),
            final(self).imap == old(self).imap,
            r matches Ok((c, sel, _)) ==> (sel matches Some(b) ==> c == CID_NONE && b.typ
                != HAMMER2_BREF_TYPE_EMPTY && range_ok(b.key, b.keybits)),
            r is Ok ==> final(self).cmap@.contains_key(pcid),
            r matches Ok((c, _, _)) ==> (c != CID_NONE ==> child_found(
                final(self).cmap@,
                pcid,
                c,
                key_beg,
                key_end,
            )),
            r matches Ok((_, sel, _)) ==> (sel matches Some(b) ==> b.key <= key_end
                && crate::keys::range_end(b.key, b.keybits) >= key_beg),
            r is Ok ==> old(self).cmap@.contains_key(pcid) && table_ready(old(self).cmap@[pcid]),
            !old(self).cmap@.contains_key(pcid) || old(self).cmap@[pcid].flags
                & CHAIN_COUNTED_BLOCKREF == 0 ==> r == Err::<
                (Cid, Option<Hammer2Blockref>, u64),
                Errno,
            >(Errno::EINVAL),
            old(self).cmap@.contains_key(pcid) && table_ready(old(self).cmap@[pcid])
                && crate::chain::sorted_by_bounds(old(self).cmap@[pcid].ccids@)
                && !crate::chain::has_equal(old(self).cmap@[pcid].ccids@, key_beg, key_end) ==> r is Ok
                && r->Ok_0.0 == CID_NONE,
            final(self).media == old(self).media,
            forall|k: u64|
                #[trigger] old(self).cmap@.contains_key(k) && k != pcid ==> final(self).cmap@[k]
                    == old(self).cmap@[k],
            old(self).cmap@.contains_key(pcid) ==> keeps_content(old(self).cmap@[pcid], final(self).cmap@[pcid]),
            old(self).cmap@.contains_key(pcid) && table_ready(old(self).cmap@[pcid])
                && crate::chain::sorted_by_bounds(old(self).cmap@[pcid].ccids@)
                && !crate::chain::has_equal(old(self).cmap@[pcid].ccids@, key_beg, key_end)
                && table_beyond(
                media_blockrefs(old(self).cmap@[pcid].bref.typ, old(self).cmap@[pcid].data@)->Ok_0,
                key_beg,
                key_end,
            ) ==> (r matches Ok(t) && t.0 == CID_NONE && t.1 is None),
            forall|j: int|
                key_beg <= key_end && old(self).cmap@.contains_key(pcid) && table_ready(old(self).cmap@[pcid])
                    && crate::chain::sorted_by_bounds(old(self).cmap@[pcid].ccids@) && table_shadowed(
                    media_blockrefs(old(self).cmap@[pcid].bref.typ, old(self).cmap@[pcid].data@)->Ok_0,
                    key_beg,
                    old(self).cmap@[pcid].ccids@[j].key,
                ) && #[trigger] crate::chain::equal_run(
                    old(self).cmap@[pcid].ccids@,
                    key_beg,
                    key_end,
                    j,
                    j,
                ) ==> (r matches Ok(t) && t.0 == old(self).cmap@[pcid].ccids@[j].cid && t.1 is None),
            forall|j: int, hi: int|
                key_beg <= key_end && old(self).cmap@.contains_key(pcid) && table_ready(old(self).cmap@[pcid])
                    && crate::chain::sorted_by_bounds(old(self).cmap@[pcid].ccids@) && table_shadowed(
                    media_blockrefs(old(self).cmap@[pcid].bref.typ, old(self).cmap@[pcid].data@)->Ok_0,
                    key_beg,
                    old(self).cmap@[pcid].ccids@[j].key,
                ) && #[trigger] crate::chain::equal_run(
                    old(self).cmap@[pcid].ccids@,
                    key_beg,
                    key_end,
                    j,
                    hi,
                ) && crate::chain::rises_from(old(self).cmap@[pcid].ccids@, key_beg, j, hi)
                    ==> (r matches Ok(t) && t.0 == old(self).cmap@[pcid].ccids@[j].cid && t.1 is None),
    {
        let mut chain = self.take_chain(pcid)?;
        let ghost c0 = chain;
        assert(chain_ok(chain));
        assert(CHAIN_COUNTED_BLOCKREF & !CHAIN_ALL_MASK == 0) by (bit_vector);
        if !chain.has_flags(CHAIN_COUNTED_BLOCKREF) {
            self.put_chain(chain);
            return Err(Errno::EINVAL);
        }
        let base = match chain.as_blockref() {
            Ok(b) => b,
            Err(e) => {
                self.put_chain(chain);
                return Err(e);
            },
        };
        if !table_ranges_ok(&base) {
            self.put_chain(chain);
            return Err(Errno::EINVAL);
        }
        let ghost ch1 = chain;
        let (i, key_next) = match chain.find_blockref(key_end.wrapping_add(1), key_beg) {
            Ok(p) => p,
            Err(e) => {
                self.put_chain(chain);
                return Err(e);
            },
        };
        proof {
            let sq = base@;
            if sq.len() > 0 {
                let st = crate::chain::start_index(ch1.cache_index, ch1.live_zero);
                crate::chain::lemma_bwd_stop(sq, st, key_beg);
                let ib = crate::chain::bwd_stop(sq, st, key_beg);
                crate::chain::lemma_fwd_scan(sq, ib, ch1.live_zero as int, key_beg);
            }
            if i < sq.len() {
                assert(crate::chain::bref_hit(sq[i as int], key_beg));
            }
        }
        let fr = chain.find_child(key_next, key_beg, key_end);
        proof {
            let v = chain.ccids@;
            assert forall|j: int|
                crate::chain::sorted_by_bounds(v) && #[trigger] crate::chain::equal_run(
                    v,
                    key_beg,
                    key_end,
                    j,
                    j,
                ) implies fr == Ok::<Option<(crate::keys::ChainKey, u64)>, Errno>(
                Some((v[j], key_next)),
            ) by {
                reveal_with_fuel(crate::chain::find_child_fold, 3);
                assert(crate::chain::find_child_result(v, key_beg, j, j, key_next) == Ok::<
                    Option<(crate::keys::ChainKey, u64)>,
                    Errno,
                >(Some((v[j], key_next))));
            }
            assert forall|j: int, hi: int|
                crate::chain::sorted_by_bounds(v) && #[trigger] crate::chain::equal_run(
                    v,
                    key_beg,
                    key_end,
                    j,
                    hi,
                ) && crate::chain::rises_from(v, key_beg, j, hi) implies (fr matches Ok(Some((x, _)))
                && x == v[j]) by {
                crate::chain::lemma_fold_first(v, key_beg, j, hi, key_next);
            }
        }
        let found = match fr {
            Ok(f) => f,
            Err(e) => {
                self.put_chain(chain);
                return Err(e);
            },
        };
        assert(chain_ok(chain));
        self.put_chain(chain);
        let n = base.len();
        match found {
            Some((x, kn)) => {
                if i >= n {
                    if x.key > key_end {
                        Ok((CID_NONE, None, kn))
                    } else {
                        Ok((x.cid, None, kn))
                    }
                } else {
                    let b = base[i];
                    if (x.key <= key_beg && b.key <= key_beg) || x.key == b.key {
                        if x.key != b.key {
                            return Err(Errno::EINVAL);
                        }
                        if x.key > key_end {
                            Ok((CID_NONE, None, kn))
                        } else {
                            Ok((x.cid, None, kn))
                        }
                    } else if x.key < b.key {
                        Ok((x.cid, None, kn))
                    } else {
                        Ok((CID_NONE, Some(b), kn))
                    }
                }
            },
            None => {
                if i >= n {
                    Ok((CID_NONE, None, key_next))
                } else if base[i].key > key_end {
                    Ok((CID_NONE, None, key_next))
                } else {
                    Ok((CID_NONE, Some(base[i]), key_next))
                }
            },
        }
    }

    /// Counts the block table of chain `pcid` once; `EINVAL` when its media
    /// does not have the size its records need.
    fn count_chain(&mut self, pcid: Cid) -> (r: Result<(), Errno>)
        requires
            old(self).wf(),
        ensures
            final(self).wf(),
            only_cache(*old(self), *final(self)),
            final(self).cmap@.dom() == old(self).cmap@.dom(),
            final(self).imap == old(self).imap,
            r is Ok <==> old(self).cmap@.contains_key(pcid) && count_ok(old(self).cmap@[pcid]),
            r is Err ==> final(self).cmap@ == old(self).cmap@,
            !old(self).cmap@.contains_key(pcid) || !media_size_ok(
                old(self).cmap@[pcid].bref.typ,
                old(self).cmap@[pcid].data@,
            ) ==> r == Err::<(), Errno>(Errno::EINVAL),
            r is Ok ==> final(self).cmap@ == old(self).cmap@.insert(pcid, final(self).cmap@[pcid])
                && final(self).cmap@[pcid].flags & CHAIN_COUNTED_BLOCKREF != 0,
            r is Ok ==> final(self).cmap@[pcid].ccids@ == old(self).cmap@[pcid].ccids@
                && final(self).cmap@[pcid].data@ == old(self).cmap@[pcid].data@
                && final(self).cmap@[pcid].bref == old(self).cmap@[pcid].bref
                && final(self).cmap@[pcid].pcid == old(self).cmap@[pcid].pcid,
            final(self).media == old(self).media,
            r is Ok && old(self).cmap@[pcid].flags & CHAIN_COUNTED_BLOCKREF == 0 ==> (media_blockrefs(
                old(self).cmap@[pcid].bref.typ,
                old(self).cmap@[pcid].data@,
            ) matches Ok(s) && final(self).cmap@[pcid].live_zero == crate::chain::counted_live_zero(s)
                && final(self).cmap@[pcid].live_count == old(self).cmap@[pcid].live_count
                + crate::chain::counted_live(s)),
    {
        let mut chain = self.take_chain(pcid)?;
        assert(chain_ok(chain));
        if !media_size_ok_exec(chain.bref.typ, chain.data.as_slice()) {
            self.put_chain(chain);
            return Err(Errno::EINVAL);
        }
        let ghost c0 = chain;
        let _dl = chain.data.len();
        proof {
            crate::ondisk::lemma_media_blockrefs_len(c0.bref.typ, c0.data@);
            if let Ok(s) = media_blockrefs(c0.bref.typ, c0.data@) {
                if s.len() > 0 {
                    crate::chain::lemma_last_live(s, s.len() - 1);
                }
            }
        }
        let counted = chain.count_blockref();
        proof {
            let f0 = c0.flags;
            assert((f0 | 0x2000u32) & 0x2000u32 != 0) by (bit_vector);
            assert(chain_ok(chain));
        }
        self.put_chain(chain);
        counted
    }

    /// The end of a lookup step that found nothing under `pcid`: final for a
    /// single key, for a parent that is not a node, or at the end of the
    /// range; otherwise go on from the parent's parent past `pcid`'s range.
    fn lookup_exhausted(
        &mut self,
        pcid: Cid,
        key_beg: u64,
        key_end: u64,
        key_next: u64,
        how_maybe: u32,
    ) -> (r: Result<(Cid, Cid, u64, u64), Hammer2Error>)
        requires
            old(self).wf(),
            old(self).cmap@.contains_key(pcid),
        ensures
            final(self).wf(),
            only_cache(*old(self), *final(self)),
            r matches Ok(t) ==> t.0 != CID_NONE && final(self).cmap@.contains_key(t.0) && t.1
                == CID_NONE && (t.3 != u64::MAX ==> t.2 == u64::MAX),
            r matches Ok(t) ==> (key_beg == key_end ==> t.3 == u64::MAX),
            lookup_ends(old(self).cmap@[pcid], key_beg, key_end) ==> r == Ok::<
                (Cid, Cid, u64, u64),
                Hammer2Error,
            >((pcid, CID_NONE, key_next, u64::MAX)) && *final(self) == *old(self),
            !lookup_ends(old(self).cmap@[pcid], key_beg, key_end) ==> (r is Ok <==> old(
                self,
            ).cmap@[pcid].pcid != CID_NONE && load_succeeds(
                *old(self),
                old(self).cmap@[pcid].pcid,
                how_maybe,
            )),
            !lookup_ends(old(self).cmap@[pcid], key_beg, key_end) ==> (r matches Ok(t) ==> t == (
                old(self).cmap@[pcid].pcid,
                CID_NONE,
                u64::MAX,
                crate::keys::range_next(
                    old(self).cmap@[pcid].bref.key,
                    old(self).cmap@[pcid].bref.keybits,
                ),
            )),
    {
        if key_beg == key_end {
            return Ok((pcid, CID_NONE, key_next, u64::MAX));
        }
        let pchain = match self.get_chain(pcid) {
            Ok(c) => c,
            Err(e) => return Err(Hammer2Error::Errno(e)),
        };
        if !pchain.bref.is_node_type() {
            return Ok((pcid, CID_NONE, key_next, u64::MAX));
        }
        assert(chain_ok(self.cmap@[pcid]));
        let next = crate::keys::key_range_next(pchain.bref.key, pchain.bref.keybits);
        if next == 0 || next > key_end {
            return Ok((pcid, CID_NONE, key_next, u64::MAX));
        }
        let ppcid = match self.repparent_chain(pcid, how_maybe) {
            Ok(p) => p,
            Err(e) => return Err(e),
        };
        Ok((ppcid, CID_NONE, u64::MAX, next))
    }

    /// The end of a lookup step that found an element under `pcid`: the
    /// chain of the block table entry `sel` (created now), or the child
    /// `cid`, loaded; a node becomes the parent to go on with.
    fn lookup_select(
        &mut self,
        pcid: Cid,
        cid: Cid,
        sel: Option<Hammer2Blockref>,
        key_beg: u64,
        Ghost(key_end): Ghost<u64>,
        key_next: u64,
        how_maybe: u32,
        how: u32,
    ) -> (r: Result<(Cid, Cid, u64, u64), Hammer2Error>)
        requires
            old(self).wf(),
            old(self).cmap@.contains_key(pcid),
            cid != CID_NONE ==> child_found(old(self).cmap@, pcid, cid, key_beg, key_end),
            sel matches Some(b) ==> cid == CID_NONE && b.key <= key_end
                && crate::keys::range_end(b.key, b.keybits) >= key_beg,
        ensures
            final(self).wf(),
            only_cache(*old(self), *final(self)),
            r matches Ok(t) ==> t.0 != CID_NONE && final(self).cmap@.contains_key(t.0) && (t.1
                != CID_NONE ==> final(self).cmap@.contains_key(t.1)) && (t.3 != u64::MAX ==> t.1
                == CID_NONE && t.2 == u64::MAX),
            r matches Ok(t) ==> (t.1 != CID_NONE ==> t.0 == pcid && child_found(
                final(self).cmap@,
                pcid,
                t.1,
                key_beg,
                key_end,
            )),
            r matches Ok(t) ==> (t.3 != u64::MAX ==> t.3 == key_beg),
            sel matches Some(b) ==> (r is Ok <==> set_ok(
                *old(self),
                pcid,
                b,
                select_how(b, how_maybe, how),
            )),
            sel matches Some(b) ==> (r matches Ok(t) ==> t == select_result(
                b,
                pcid,
                old(self).imap.next,
                key_beg,
                key_next,
            )),
            sel is None ==> (r is Ok <==> old(self).cmap@.contains_key(cid) && load_succeeds(
                *old(self),
                cid,
                select_how(old(self).cmap@[cid].bref, how_maybe, how),
            ) && old(self).cmap@[cid].pcid == pcid),
            sel is None && cid != pcid ==> final(self).cmap@[pcid] == old(self).cmap@[pcid],
            sel is None ==> (r matches Ok(t) ==> t == select_result(
                old(self).cmap@[cid].bref,
                pcid,
                cid,
                key_beg,
                key_next,
            )),
            sel is None && old(self).cmap@.contains_key(cid) && load_done(
                old(self).cmap@[cid],
                select_how(old(self).cmap@[cid].bref, how_maybe, how),
            ) && r is Ok ==> *final(self) == *old(self),
            sel is None && old(self).cmap@.contains_key(cid) && !load_done(
                old(self).cmap@[cid],
                select_how(old(self).cmap@[cid].bref, how_maybe, how),
            ) && r is Ok ==> final(self).cmap@[cid].data@ == ready_media(*old(self)),
    {
        let cid = match sel {
            Some(bref) => {
                let h = if bref.is_node_type() {
                    how_maybe
                } else {
                    how
                };
                match self.set_chain(pcid, &bref, h) {
                    Ok(c) => c,
                    Err(e) => return Err(e),
                }
            },
            None => {
                let node = match self.get_chain(cid) {
                    Ok(c) => c.bref.is_node_type(),
                    Err(e) => return Err(Hammer2Error::Errno(e)),
                };
                let h = if node {
                    how_maybe
                } else {
                    how
                };
                match self.load_chain(cid, h) {
                    Ok(()) => {},
                    Err(e) => return Err(e),
                }
                let cp = match self.get_chain(cid) {
                    Ok(c) => c.pcid,
                    Err(e) => return Err(Hammer2Error::Errno(e)),
                };
                if cp != pcid {
                    return Err(Hammer2Error::Errno(Errno::EINVAL));
                }
                cid
            },
        };
        let node = match self.get_chain(cid) {
            Ok(c) => c.bref.is_node_type(),
            Err(e) => return Err(Hammer2Error::Errno(e)),
        };
        if node {
            return Ok((cid, CID_NONE, u64::MAX, key_beg));
        }
        Ok((pcid, cid, key_next, u64::MAX))
    }

    /// One step of a lookup under chain `pcid`: the parent to go on with,
    /// the chain found, the next key to look at, and the key to look up
    /// again from (the largest key when the step is final). An inode with
    /// direct data is its own result.
    fn lookup_chain_impl(
        &mut self,
        pcid: Cid,
        key_beg: u64,
        key_end: u64,
        how_maybe: u32,
        how: u32,
    ) -> (r: Result<(Cid, Cid, u64, u64), Hammer2Error>)
        requires
            old(self).wf(),
        ensures
            final(self).wf(),
            only_cache(*old(self), *final(self)),
            r matches Ok(t) ==> t.0 != CID_NONE && final(self).cmap@.contains_key(t.0) && (t.1
                != CID_NONE ==> final(self).cmap@.contains_key(t.1)) && (t.3 != u64::MAX ==> t.1
                == CID_NONE && t.2 == u64::MAX),
            r matches Ok(t) ==> (t.1 != CID_NONE && t.1 != t.0 ==> child_found(
                final(self).cmap@,
                t.0,
                t.1,
                key_beg,
                key_end,
            )),
            r matches Ok(t) ==> (t.3 != u64::MAX && key_beg == key_end ==> t.3 == key_beg),
            old(self).cmap@.contains_key(pcid) && direct_inode(old(self).cmap@[pcid]) ==> r
                == Ok::<(Cid, Cid, u64, u64), Hammer2Error>(
                (pcid, pcid, key_end.wrapping_add(1), u64::MAX),
            ) && final(self).cmap@ == old(self).cmap@,
            old(self).cmap@.contains_key(pcid) && inode_unread(old(self).cmap@[pcid]) ==> r is Err,
            old(self).cmap@.contains_key(pcid) && finds_nothing(old(self).cmap@[pcid], key_beg, key_end)
                && lookup_ends(old(self).cmap@[pcid], key_beg, key_end) ==> (r matches Ok(t) && t.0
                == pcid && t.1 == CID_NONE && t.3 == u64::MAX) && counted_as(
                old(self).cmap@[pcid],
                final(self).cmap@[pcid],
            ),
            old(self).cmap@.contains_key(pcid) && finds_nothing(old(self).cmap@[pcid], key_beg, key_end)
                && !lookup_ends(old(self).cmap@[pcid], key_beg, key_end) && old(self).cmap@[pcid].pcid
                != CID_NONE && old(self).cmap@[pcid].pcid != pcid && load_succeeds(
                *old(self),
                old(self).cmap@[pcid].pcid,
                how_maybe,
            ) ==> (r matches Ok(t) && t.0 == old(self).cmap@[pcid].pcid && t.1 == CID_NONE),
            forall|j: int|
                old(self).cmap@.contains_key(pcid) && #[trigger] finds_one(
                    old(self).cmap@[pcid],
                    key_beg,
                    key_end,
                    j,
                ) && child_loads(*old(self), pcid, old(self).cmap@[pcid].ccids@[j].cid, how_maybe, how)
                    ==> (r matches Ok(t) && steps_to(
                    t,
                    select_result(
                        old(self).cmap@[old(self).cmap@[pcid].ccids@[j].cid].bref,
                        pcid,
                        old(self).cmap@[pcid].ccids@[j].cid,
                        key_beg,
                        0,
                    ),
                )) && counted_as(old(self).cmap@[pcid], final(self).cmap@[pcid]),
            old(self).cmap@.contains_key(pcid) && finds_nothing(old(self).cmap@[pcid], key_beg, key_end)
                && lookup_ends(old(self).cmap@[pcid], key_beg, key_end) ==> keeps_others(
                *old(self),
                *final(self),
                pcid,
            ),
            forall|j: int|
                old(self).cmap@.contains_key(pcid) && #[trigger] finds_one(
                    old(self).cmap@[pcid],
                    key_beg,
                    key_end,
                    j,
                ) && child_loads(*old(self), pcid, old(self).cmap@[pcid].ccids@[j].cid, how_maybe, how)
                    && load_done(
                    old(self).cmap@[old(self).cmap@[pcid].ccids@[j].cid],
                    select_how(
                        old(self).cmap@[old(self).cmap@[pcid].ccids@[j].cid].bref,
                        how_maybe,
                        how,
                    ),
                ) ==> keeps_others(*old(self), *final(self), pcid),
            forall|j: int, hi: int|
                old(self).cmap@.contains_key(pcid) && #[trigger] finds_first(
                    old(self).cmap@[pcid],
                    key_beg,
                    key_end,
                    j,
                    hi,
                ) && child_loads(*old(self), pcid, old(self).cmap@[pcid].ccids@[j].cid, how_maybe, how)
                    ==> (r matches Ok(t) && steps_to(
                    t,
                    select_result(
                        old(self).cmap@[old(self).cmap@[pcid].ccids@[j].cid].bref,
                        pcid,
                        old(self).cmap@[pcid].ccids@[j].cid,
                        key_beg,
                        0,
                    ),
                )) && counted_as(old(self).cmap@[pcid], final(self).cmap@[pcid]) && (load_done(
                    old(self).cmap@[old(self).cmap@[pcid].ccids@[j].cid],
                    select_how(
                        old(self).cmap@[old(self).cmap@[pcid].ccids@[j].cid].bref,
                        how_maybe,
                        how,
                    ),
                ) ==> keeps_others(*old(self), *final(self), pcid)) && (!load_done(
                    old(self).cmap@[old(self).cmap@[pcid].ccids@[j].cid],
                    select_how(
                        old(self).cmap@[old(self).cmap@[pcid].ccids@[j].cid].bref,
                        how_maybe,
                        how,
                    ),
                ) ==> final(self).cmap@[old(self).cmap@[pcid].ccids@[j].cid].data@ == ready_media(
                    *old(self),
                )),
    {
        let pchain = match self.get_chain(pcid) {
            Ok(c) => c,
            Err(e) => return Err(Hammer2Error::Errno(e)),
        };
        if pchain.bref.typ == HAMMER2_BREF_TYPE_INODE {
            if pchain.data.len() != 1024 {
                return Err(Hammer2Error::Errno(Errno::EINVAL));
            }
            if pchain.as_inode_data().meta.has_direct_data() {
                assert(RESOLVE_ALWAYS & RESOLVE_MASK == RESOLVE_ALWAYS) by (bit_vector);
                match self.load_chain(pcid, RESOLVE_ALWAYS) {
                    Ok(()) => {},
                    Err(e) => return Err(e),
                }
                return Ok((pcid, pcid, key_end.wrapping_add(1), u64::MAX));
            }
        }
        let ghost s0 = *self;
        match self.count_chain(pcid) {
            Ok(()) => {},
            Err(e) => return Err(Hammer2Error::Errno(e)),
        }
        let ghost s1 = *self;
        proof {
            if s0.cmap@.contains_key(pcid) && finds_nothing(s0.cmap@[pcid], key_beg, key_end) {
                assert(table_ready(s1.cmap@[pcid]));
                let p = s0.cmap@[pcid].pcid;
                if p != pcid && s0.cmap@.contains_key(p) {
                    assert(s1.cmap@[p] == s0.cmap@[p]);
                }
            }
        }
        let (cid, sel, key_next) = match self.combined_find_chain(pcid, key_beg, key_end) {
            Ok(t) => t,
            Err(e) => return Err(Hammer2Error::Errno(e)),
        };
        proof {
            if s0.cmap@.contains_key(pcid) && finds_nothing(s0.cmap@[pcid], key_beg, key_end) {
                let p = s0.cmap@[pcid].pcid;
                assert(same_place(s1.cmap@[pcid], self.cmap@[pcid]));
                if p != pcid && s0.cmap@.contains_key(p) {
                    assert(self.cmap@[p] == s0.cmap@[p]);
                    assert(load_succeeds(*self, p, how_maybe) == load_succeeds(s0, p, how_maybe));
                }
            }
        }
        if cid == CID_NONE && sel.is_none() {
            return self.lookup_exhausted(pcid, key_beg, key_end, key_next, how_maybe);
        }
        self.lookup_select(pcid, cid, sel, key_beg, Ghost(key_end), key_next, how_maybe, how)
    }
}

/// How many lookup steps a lookup may take before it gives up.
pub const LOOKUP_MAX_STEPS: u32 = 300_000;

impl Hammer2 {
    /// Looks up the first element in `[key_beg, key_end]` below chain
    /// `pcid`: first climbs to a parent whose range holds the keys (or to
    /// the inode), then steps down through nodes. Returns the parent the
    /// element was found under, the element (`CID_NONE` for none) and the
    /// next key to look at; `E2BIG` when the steps run out.
    pub fn lookup_chain(&mut self, pcid: Cid, key_beg: u64, key_end: u64, flags: u32) -> (r: Result<
        (Cid, Cid, u64),
        Hammer2Error,
    >)
        requires
            old(self).wf(),
        ensures
            final(self).wf(),
            only_cache(*old(self), *final(self)),
            r matches Ok(t) ==> t.0 != CID_NONE && final(self).cmap@.contains_key(t.0) && (t.1
                != CID_NONE ==> final(self).cmap@.contains_key(t.1)),
            r matches Ok(t) ==> (t.1 != CID_NONE && t.1 != t.0 ==> child_within(
                final(self).cmap@,
                t.0,
                t.1,
                key_end,
            )),
            r matches Ok(t) ==> (key_beg == key_end && t.1 != CID_NONE && t.1 != t.0
                ==> child_found(final(self).cmap@, t.0, t.1, key_beg, key_end)),
            old(self).cmap@.contains_key(pcid) && direct_inode(old(self).cmap@[pcid]) ==> (r matches Ok(
                t,
            ) && t.0 == pcid && t.1 == pcid) && final(self).cmap@ == old(self).cmap@,
            old(self).cmap@.contains_key(pcid) && inode_unread(old(self).cmap@[pcid]) ==> r is Err,
            old(self).cmap@.contains_key(pcid) && old(self).cmap@[pcid].bref.typ
                == HAMMER2_BREF_TYPE_INODE && finds_nothing(old(self).cmap@[pcid], key_beg, key_end)
                ==> (r matches Ok(t) && t.0 == pcid && t.1 == CID_NONE) && counted_as(
                old(self).cmap@[pcid],
                final(self).cmap@[pcid],
            ),
            forall|j: int|
                old(self).cmap@.contains_key(pcid) && old(self).cmap@[pcid].bref.typ
                    == HAMMER2_BREF_TYPE_INODE && #[trigger] finds_one(
                    old(self).cmap@[pcid],
                    key_beg,
                    key_end,
                    j,
                ) && leaf_child_loads(*old(self), pcid, old(self).cmap@[pcid].ccids@[j].cid, flags)
                    ==> (r matches Ok(t) && t.0 == pcid && t.1 == old(self).cmap@[pcid].ccids@[j].cid)
                    && counted_as(old(self).cmap@[pcid], final(self).cmap@[pcid]),
            old(self).cmap@.contains_key(pcid) && old(self).cmap@[pcid].bref.typ
                == HAMMER2_BREF_TYPE_INODE && finds_nothing(old(self).cmap@[pcid], key_beg, key_end)
                ==> keeps_others(*old(self), *final(self), pcid),
            forall|j: int|
                old(self).cmap@.contains_key(pcid) && old(self).cmap@[pcid].bref.typ
                    == HAMMER2_BREF_TYPE_INODE && #[trigger] finds_one(
                    old(self).cmap@[pcid],
                    key_beg,
                    key_end,
                    j,
                ) && leaf_child_loads(*old(self), pcid, old(self).cmap@[pcid].ccids@[j].cid, flags)
                    && old(self).cmap@[old(self).cmap@[pcid].ccids@[j].cid].data@.len() > 0
                    ==> keeps_others(*old(self), *final(self), pcid),
            forall|j: int, hi: int|
                old(self).cmap@.contains_key(pcid) && old(self).cmap@[pcid].bref.typ
                    == HAMMER2_BREF_TYPE_INODE && #[trigger] finds_first(
                    old(self).cmap@[pcid],
                    key_beg,
                    key_end,
                    j,
                    hi,
                ) && leaf_child_loads(*old(self), pcid, old(self).cmap@[pcid].ccids@[j].cid, flags)
                    ==> (r matches Ok(t) && t.0 == pcid && t.1 == old(self).cmap@[pcid].ccids@[j].cid)
                    && counted_as(old(self).cmap@[pcid], final(self).cmap@[pcid]) && (load_done(
                    old(self).cmap@[old(self).cmap@[pcid].ccids@[j].cid],
                    lookup_how(flags),
                ) ==> keeps_others(*old(self), *final(self), pcid)) && (!load_done(
                    old(self).cmap@[old(self).cmap@[pcid].ccids@[j].cid],
                    lookup_how(flags),
                ) ==> final(self).cmap@[old(self).cmap@[pcid].ccids@[j].cid].data@ == ready_media(
                    *old(self),
                )),
            forall|j: int, k: int|
                key_beg == key_end && #[trigger] finds_through_indirect(
                    *old(self),
                    pcid,
                    key_beg,
                    lookup_how(flags),
                    j,
                    k,
                ) ==> ({
                    let q = old(self).cmap@[pcid].ccids@[j].cid;
                    let d = old(self).cmap@[q].ccids@[k].cid;
                    r matches Ok(t) && t.0 == q && t.1 == d && final(self).cmap@.contains_key(d)
                        && final(self).cmap@[d] == old(self).cmap@[d]
                }),
    {
        let (how_maybe, how) = if (flags & LOOKUP_ALWAYS) != 0 {
            (RESOLVE_ALWAYS, RESOLVE_ALWAYS)
        } else {
            (RESOLVE_MAYBE, RESOLVE_MAYBE)
        };
        let mut pc = pcid;
        let mut budget = self.cmap.len();
        let ghost s0 = *self;
        let ghost at_inode = s0.cmap@.contains_key(pcid) && s0.cmap@[pcid].bref.typ
            == HAMMER2_BREF_TYPE_INODE;
        loop
            invariant
                s0 == *old(self),
                self.wf(),
                only_cache(s0, *self),
                at_inode == (s0.cmap@.contains_key(pcid) && s0.cmap@[pcid].bref.typ
                    == HAMMER2_BREF_TYPE_INODE),
                at_inode ==> pc == pcid && *self == s0,
            decreases budget,
        {
            let pchain = match self.get_chain(pc) {
                Ok(c) => c,
                Err(e) => return Err(Hammer2Error::Errno(e)),
            };
            if !pchain.bref.is_node_type() {
                break;
            }
            assert(chain_ok(self.cmap@[pc]));
            let scan_beg = pchain.bref.key;
            let scan_end = crate::keys::key_range_end(pchain.bref.key, pchain.bref.keybits);
            if key_beg >= scan_beg && key_end <= scan_end {
                break;
            }
            if budget == 0 {
                return Err(Hammer2Error::Errno(Errno::EINVAL));
            }
            budget = budget - 1;
            pc = match self.repparent_chain(pc, how_maybe) {
                Ok(p) => p,
                Err(e) => return Err(e),
            };
        }
        let ghost ends_at_inode = s0.cmap@.contains_key(pcid) && (direct_inode(s0.cmap@[pcid])
            || inode_unread(s0.cmap@[pcid]));
        let ghost jj = choose|j: int|
            s0.cmap@.contains_key(pcid) && s0.cmap@[pcid].bref.typ == HAMMER2_BREF_TYPE_INODE
                && #[trigger] finds_one(s0.cmap@[pcid], key_beg, key_end, j) && leaf_child_loads(
                s0,
                pcid,
                s0.cmap@[pcid].ccids@[j].cid,
                flags,
            );
        let ghost one = s0.cmap@.contains_key(pcid) && s0.cmap@[pcid].bref.typ
            == HAMMER2_BREF_TYPE_INODE && finds_one(s0.cmap@[pcid], key_beg, key_end, jj)
            && leaf_child_loads(s0, pcid, s0.cmap@[pcid].ccids@[jj].cid, flags);
        proof {
            assert forall|j: int|
                s0.cmap@.contains_key(pcid) && s0.cmap@[pcid].bref.typ == HAMMER2_BREF_TYPE_INODE
                    && #[trigger] finds_one(s0.cmap@[pcid], key_beg, key_end, j) && leaf_child_loads(
                    s0,
                    pcid,
                    s0.cmap@[pcid].ccids@[j].cid,
                    flags,
                ) implies one && j == jj by {
                let v = s0.cmap@[pcid].ccids@;
                assert(crate::chain::equal_run(v, key_beg, key_end, jj, jj));
                assert(crate::chain::elem_order(key_beg, key_end, v[j]) == crate::keys::KeyOrder::Equal);
            }
        }
        let ghost empty_inode = s0.cmap@.contains_key(pcid) && s0.cmap@[pcid].bref.typ
            == HAMMER2_BREF_TYPE_INODE && finds_nothing(s0.cmap@[pcid], key_beg, key_end);
        let ghost (jf, hf) = choose|j: int, hi: int|
            s0.cmap@.contains_key(pcid) && s0.cmap@[pcid].bref.typ == HAMMER2_BREF_TYPE_INODE
                && #[trigger] finds_first(s0.cmap@[pcid], key_beg, key_end, j, hi) && leaf_child_loads(
                s0,
                pcid,
                s0.cmap@[pcid].ccids@[j].cid,
                flags,
            );
        let ghost first = s0.cmap@.contains_key(pcid) && s0.cmap@[pcid].bref.typ
            == HAMMER2_BREF_TYPE_INODE && finds_first(s0.cmap@[pcid], key_beg, key_end, jf, hf)
            && leaf_child_loads(s0, pcid, s0.cmap@[pcid].ccids@[jf].cid, flags);
        proof {
            assert forall|j: int, hi: int|
                s0.cmap@.contains_key(pcid) && s0.cmap@[pcid].bref.typ == HAMMER2_BREF_TYPE_INODE
                    && #[trigger] finds_first(s0.cmap@[pcid], key_beg, key_end, j, hi)
                    && leaf_child_loads(s0, pcid, s0.cmap@[pcid].ccids@[j].cid, flags) implies first
                && j == jf by {
                let v = s0.cmap@[pcid].ccids@;
                assert(crate::chain::equal_run(v, key_beg, key_end, jf, hf));
                assert(crate::chain::elem_order(key_beg, key_end, v[j]) == crate::keys::KeyOrder::Equal);
                assert(crate::chain::elem_order(key_beg, key_end, v[jf]) == crate::keys::KeyOrder::Equal);
            }
        }
        let ghost hw = lookup_how(flags);
        let ghost two = key_beg == key_end && exists|j: int, k: int|
            #[trigger] finds_through_indirect(s0, pcid, key_beg, hw, j, k);
        let ghost (j2, k2) = choose|j: int, k: int|
            key_beg == key_end && #[trigger] finds_through_indirect(s0, pcid, key_beg, hw, j, k);
        let ghost q2 = s0.cmap@[pcid].ccids@[j2].cid;
        let ghost d2 = s0.cmap@[q2].ccids@[k2].cid;
        proof {
            if two {
                let v = s0.cmap@[pcid].ccids@;
                assert(crate::chain::elem_order(key_beg, key_end, v[j2]) == crate::keys::KeyOrder::Equal);
                assert(!empty_inode);
                assert(!ends_at_inode);
                if one {
                    assert(crate::chain::elem_order(key_beg, key_end, v[jj]) == crate::keys::KeyOrder::Equal);
                    assert(jj == j2);
                }
                if first {
                    assert(crate::chain::equal_run(v, key_beg, key_end, jf, hf));
                    assert(crate::chain::elem_order(key_beg, key_end, v[jf]) == crate::keys::KeyOrder::Equal);
                    assert(jf == j2);
                }
                assert forall|j: int, k: int|
                    key_beg == key_end && #[trigger] finds_through_indirect(s0, pcid, key_beg, hw, j, k)
                    implies two && j == j2 && k == k2 by {
                    assert(crate::chain::elem_order(key_beg, key_end, v[j]) == crate::keys::KeyOrder::Equal);
                    let w = s0.cmap@[q2].ccids@;
                    assert(crate::chain::elem_order(key_beg, key_end, w[k2]) == crate::keys::KeyOrder::Equal);
                    assert(crate::chain::elem_order(key_beg, key_end, w[k]) == crate::keys::KeyOrder::Equal);
                }
            }
        }
        let mut kb = key_beg;
        let mut n: u32 = 0;
        while n < LOOKUP_MAX_STEPS
            invariant
                s0 == *old(self),
                self.wf(),
                only_cache(s0, *self),
                key_beg == key_end ==> kb == key_beg,
                hw == lookup_how(flags),
                two ==> key_beg == key_end && finds_through_indirect(s0, pcid, key_beg, hw, j2, k2),
                q2 == s0.cmap@[pcid].ccids@[j2].cid && d2 == s0.cmap@[q2].ccids@[k2].cid,
                two ==> n <= 1,
                two && n == 0 ==> pc == pcid && *self == s0,
                two && n == 1 ==> pc == q2 && keeps_others(s0, *self, pcid),
                forall|j: int, k: int|
                    key_beg == key_end && #[trigger] finds_through_indirect(s0, pcid, key_beg, hw, j, k)
                        ==> two && j == j2 && k == k2,
                ends_at_inode == (s0.cmap@.contains_key(pcid) && (direct_inode(s0.cmap@[pcid])
                    || inode_unread(s0.cmap@[pcid]))),
                ends_at_inode ==> pc == pcid && n == 0 && self.cmap@ == s0.cmap@,
                empty_inode == (s0.cmap@.contains_key(pcid) && s0.cmap@[pcid].bref.typ
                    == HAMMER2_BREF_TYPE_INODE && finds_nothing(s0.cmap@[pcid], key_beg, key_end)),
                empty_inode ==> pc == pcid && n == 0 && *self == s0 && kb == key_beg,
                one == (s0.cmap@.contains_key(pcid) && s0.cmap@[pcid].bref.typ
                    == HAMMER2_BREF_TYPE_INODE && finds_one(s0.cmap@[pcid], key_beg, key_end, jj)
                    && leaf_child_loads(s0, pcid, s0.cmap@[pcid].ccids@[jj].cid, flags)),
                one ==> pc == pcid && n == 0 && *self == s0 && kb == key_beg,
                first == (s0.cmap@.contains_key(pcid) && s0.cmap@[pcid].bref.typ
                    == HAMMER2_BREF_TYPE_INODE && finds_first(s0.cmap@[pcid], key_beg, key_end, jf, hf)
                    && leaf_child_loads(s0, pcid, s0.cmap@[pcid].ccids@[jf].cid, flags)),
                first ==> pc == pcid && n == 0 && *self == s0 && kb == key_beg,
                forall|j: int, hi: int|
                    s0.cmap@.contains_key(pcid) && s0.cmap@[pcid].bref.typ
                        == HAMMER2_BREF_TYPE_INODE && #[trigger] finds_first(
                        s0.cmap@[pcid],
                        key_beg,
                        key_end,
                        j,
                        hi,
                    ) && leaf_child_loads(s0, pcid, s0.cmap@[pcid].ccids@[j].cid, flags) ==> first
                        && j == jf,
                how_maybe == how && how == (if flags & LOOKUP_ALWAYS != 0 {
                    RESOLVE_ALWAYS
                } else {
                    RESOLVE_MAYBE
                }),
                forall|j: int|
                    s0.cmap@.contains_key(pcid) && s0.cmap@[pcid].bref.typ
                        == HAMMER2_BREF_TYPE_INODE && #[trigger] finds_one(
                        s0.cmap@[pcid],
                        key_beg,
                        key_end,
                        j,
                    ) && leaf_child_loads(s0, pcid, s0.cmap@[pcid].ccids@[j].cid, flags) ==> one && j
                        == jj,
            decreases LOOKUP_MAX_STEPS - n,
        {
            proof {
                if first {
                    assert(finds_first(self.cmap@[pc], kb, key_end, jf, hf));
                    assert(child_loads(*self, pc, self.cmap@[pc].ccids@[jf].cid, how_maybe, how));
                }
                if one {
                    assert(finds_one(self.cmap@[pc], kb, key_end, jj));
                    assert(child_loads(*self, pc, self.cmap@[pc].ccids@[jj].cid, how_maybe, how));
                }
            }
            let ghost sb = *self;
            proof {
                if two && n == 0 {
                    assert(finds_one(self.cmap@[pc], kb, key_end, j2));
                    assert(child_loads(*self, pc, q2, how_maybe, how));
                }
                if two && n == 1 {
                    assert(self.cmap@[q2] == s0.cmap@[q2]);
                    assert(self.cmap@[d2] == s0.cmap@[d2]);
                    assert(finds_one(self.cmap@[pc], kb, key_end, k2));
                    assert(self.cmap@[pc].ccids@[k2].cid == d2);
                    assert(load_succeeds(*self, d2, select_how(self.cmap@[d2].bref, how_maybe, how)));
                    assert(child_loads(*self, pc, d2, how_maybe, how));
                }
            }
            let t = match self.lookup_chain_impl(pc, kb, key_end, how_maybe, how) {
                Ok(t) => t,
                Err(e) => return Err(e),
            };
            proof {
                if two && n == 0 {
                    assert(load_done(s0.cmap@[q2], select_how(s0.cmap@[q2].bref, how_maybe, how)));
                    assert(keeps_others(s0, *self, pcid));
                    assert(t.0 == q2 && t.1 == CID_NONE && t.3 == key_beg);
                }
                if two && n == 1 {
                    assert(load_done(sb.cmap@[d2], select_how(sb.cmap@[d2].bref, how_maybe, how)));
                    assert(keeps_others(sb, *self, q2));
                    assert(t.0 == q2 && t.1 == d2 && t.3 == u64::MAX);
                    assert(self.cmap@[d2] == s0.cmap@[d2]);
                }
            }
            pc = t.0;
            if t.3 == u64::MAX {
                proof {
                    if t.1 != CID_NONE && t.1 != t.0 {
                        lemma_found_within(self.cmap@, t.0, t.1, kb, key_end);
                    }
                }
                return Ok((pc, t.1, t.2));
            }
            kb = t.3;
            n = n + 1;
        }
        Err(Hammer2Error::Errno(Errno::E2BIG))
    }

    /// Continues a lookup past the element `cid` found under `pcid`, up to
    /// `key_end`: final when `cid` is the inode itself (direct data), when
    /// the keys run out, or when the parent is not a node.
    pub fn get_next_chain(&mut self, pcid: Cid, cid: Cid, key_end: u64, flags: u32) -> (r: Result<
        (Cid, Cid, u64),
        Hammer2Error,
    >)
        requires
            old(self).wf(),
        ensures
            final(self).wf(),
            only_cache(*old(self), *final(self)),
            r matches Ok(t) ==> (t.1 != CID_NONE ==> final(self).cmap@.contains_key(t.1)),
            r matches Ok(t) ==> (t.1 != CID_NONE && t.1 != t.0 ==> child_within(
                final(self).cmap@,
                t.0,
                t.1,
                key_end,
            )),
            !old(self).cmap@.contains_key(pcid) || (cid != CID_NONE && cid != pcid && !old(
                self,
            ).cmap@.contains_key(cid)) ==> r == Err::<(Cid, Cid, u64), Hammer2Error>(
                Hammer2Error::Errno(Errno::EINVAL),
            ),
            old(self).cmap@.contains_key(pcid) && next_ends(old(self).cmap@, pcid, cid, key_end) ==> r
                == Ok::<(Cid, Cid, u64), Hammer2Error>((pcid, CID_NONE, u64::MAX)) && *final(self)
                == *old(self),
            old(self).cmap@.contains_key(pcid) && cid != CID_NONE && cid != pcid && old(
                self,
            ).cmap@.contains_key(cid) && !next_ends(old(self).cmap@, pcid, cid, key_end) && old(
                self,
            ).cmap@[pcid].bref.typ == HAMMER2_BREF_TYPE_INODE && finds_nothing(
                old(self).cmap@[pcid],
                crate::keys::range_next(old(self).cmap@[cid].bref.key, old(self).cmap@[cid].bref.keybits)
                    as u64,
                key_end,
            ) ==> (r matches Ok(t) && t.0 == pcid && t.1 == CID_NONE) && counted_as(
                old(self).cmap@[pcid],
                final(self).cmap@[pcid],
            ),
            forall|j: int, hi: int|
                old(self).cmap@.contains_key(pcid) && cid != CID_NONE && cid != pcid && old(
                    self,
                ).cmap@.contains_key(cid) && !next_ends(old(self).cmap@, pcid, cid, key_end) && old(
                    self,
                ).cmap@[pcid].bref.typ == HAMMER2_BREF_TYPE_INODE && #[trigger] finds_first(
                    old(self).cmap@[pcid],
                    crate::keys::range_next(old(self).cmap@[cid].bref.key, old(self).cmap@[cid].bref.keybits)
                        as u64,
                    key_end,
                    j,
                    hi,
                ) && leaf_child_loads(*old(self), pcid, old(self).cmap@[pcid].ccids@[j].cid, flags)
                    ==> (r matches Ok(t) && t.0 == pcid && t.1 == old(self).cmap@[pcid].ccids@[j].cid)
                    && counted_as(old(self).cmap@[pcid], final(self).cmap@[pcid]) && (load_done(
                    old(self).cmap@[old(self).cmap@[pcid].ccids@[j].cid],
                    lookup_how(flags),
                ) ==> keeps_others(*old(self), *final(self), pcid)) && (!load_done(
                    old(self).cmap@[old(self).cmap@[pcid].ccids@[j].cid],
                    lookup_how(flags),
                ) ==> final(self).cmap@[old(self).cmap@[pcid].ccids@[j].cid].data@ == ready_media(
                    *old(self),
                )),
    {
        let pchain = match self.get_chain(pcid) {
            Ok(c) => c,
            Err(e) => return Err(Hammer2Error::Errno(e)),
        };
        let (pc, key_beg) = if cid != CID_NONE {
            if cid == pcid {
                return Ok((pcid, CID_NONE, u64::MAX));
            }
            let chain = match self.get_chain(cid) {
                Ok(c) => c,
                Err(e) => return Err(Hammer2Error::Errno(e)),
            };
            assert(chain_ok(self.cmap@[cid]));
            let key_beg = crate::keys::key_range_next(chain.bref.key, chain.bref.keybits);
            if key_beg == 0 || key_beg > key_end {
                return Ok((pcid, CID_NONE, u64::MAX));
            }
            (pcid, key_beg)
        } else if !pchain.bref.is_node_type() {
            return Ok((pcid, CID_NONE, u64::MAX));
        } else {
            assert(chain_ok(self.cmap@[pcid]));
            let key_beg = crate::keys::key_range_next(pchain.bref.key, pchain.bref.keybits);
            if key_beg == 0 || key_beg > key_end {
                return Ok((pcid, CID_NONE, u64::MAX));
            }
            let p = match self.repparent_chain(pcid, RESOLVE_MAYBE) {
                Ok(p) => p,
                Err(e) => return Err(e),
            };
            (p, key_beg)
        };
        self.lookup_chain(pc, key_beg, key_end, flags)
    }
}

/// A block the operations on files never exceed: one physical buffer.
pub const PBUFSIZE_USIZE: usize = 65536;

/// An empty operation's error: `EIO` for an inode without a chain.
pub open spec fn errno_of(r: Hammer2Error) -> Option<Errno> {
    match r {
        Hammer2Error::Errno(e) => Some(e),
        Hammer2Error::NeedMedia(_) => None,
    }
}

impl Hammer2 {
    /// The chain of inode `inum`, loaded as `how` asks; `CID_NONE` for an
    /// inode without a chain, `ENOENT` for an inode not in the table.
    pub fn get_inode_chain(&mut self, inum: u64, how: u32) -> (r: Result<Cid, Hammer2Error>)
        requires
            old(self).wf(),
        ensures
            final(self).wf(),
            only_cache(*old(self), *final(self)),
            r is Ok ==> old(self).nmap@.contains_key(inum),
            r matches Ok(c) ==> c == old(self).nmap@[inum].cid && (c != CID_NONE ==> final(self).cmap@.contains_key(c)),
            !old(self).nmap@.contains_key(inum) ==> r == Err::<Cid, Hammer2Error>(
                Hammer2Error::Errno(Errno::ENOENT),
            ),
            r is Ok <==> old(self).nmap@.contains_key(inum) && (old(self).nmap@[inum].cid == CID_NONE
                || load_succeeds(*old(self), old(self).nmap@[inum].cid, how)),
            final(self).cmap@.dom() == old(self).cmap@.dom(),
            r matches Ok(c) ==> (c == CID_NONE || load_done(old(self).cmap@[c], how)) ==> *final(self)
                == *old(self),
            r matches Ok(c) ==> c != CID_NONE && !load_done(old(self).cmap@[c], how)
                ==> final(self).media is None
                && final(self).cmap@[c].data@ == ready_media(*old(self))
                && forall|k: u64| #[trigger] old(self).cmap@.contains_key(k) && k != c
                    ==> final(self).cmap@[k] == old(self).cmap@[k],
    {
        let cid = match self.nmap.get(&inum) {
            Some(ip) => ip.cid,
            None => return Err(Hammer2Error::Errno(Errno::ENOENT)),
        };
        if cid != CID_NONE {
            match self.load_chain(cid, how) {
                Ok(()) => {},
                Err(e) => return Err(e),
            }
        }
        Ok(cid)
    }

    /// The chain of inode `inum` and its parent, both loaded as `how` asks.
    fn get_inode_chain_and_parent(&mut self, inum: u64, how: u32) -> (r: Result<
        (Cid, Cid),
        Hammer2Error,
    >)
        requires
            old(self).wf(),
        ensures
            final(self).wf(),
            only_cache(*old(self), *final(self)),
            r matches Ok((p, c)) ==> c != CID_NONE && final(self).cmap@.contains_key(c),
            r matches Ok((p, c)) ==> old(self).nmap@.contains_key(inum) && c == old(self).nmap@[inum].cid,
            r matches Ok((p, c)) ==> old(self).cmap@.contains_key(c) && p == old(self).cmap@[c].pcid,
            r is Ok <==> old(self).nmap@.contains_key(inum) && old(self).nmap@[inum].cid != CID_NONE
                && load_succeeds(*old(self), old(self).nmap@[inum].cid, how) && parent_load_ok(
                *old(self),
                old(self).nmap@[inum].cid,
                how,
            ),
    {
        let cid = match self.get_inode_chain(inum, how) {
            Ok(c) => c,
            Err(e) => return Err(e),
        };
        let pcid = match self.get_chain(cid) {
            Ok(c) => c.pcid,
            Err(e) => return Err(Hammer2Error::Errno(e)),
        };
        let ghost s1 = *self;
        proof {
            assert(same_place(old(self).cmap@[cid], self.cmap@[cid]));
            assert(self.cmap@.dom() == old(self).cmap@.dom());
            if pcid != CID_NONE && pcid != cid && old(self).cmap@.contains_key(pcid) {
                assert(self.cmap@[pcid] == old(self).cmap@[pcid]);
            }
        }
        if pcid != CID_NONE {
            match self.load_chain(pcid, how) {
                Ok(()) => {},
                Err(e) => {
                    proof {
                        assert(!load_succeeds(s1, pcid, how));
                    }
                    return Err(e);
                },
            }
            proof {
                assert(load_succeeds(s1, pcid, how));
            }
        }
        Ok((pcid, cid))
    }

    /// The chain of inode `inum` and its parent: the inode's own chain when
    /// it has one, else looked up by number under the PFS root (`EIO` when
    /// the root has no chain); `EINVAL` when the chain found holds another
    /// inode.
    fn find_inode_chain(&mut self, inum: u64) -> (r: Result<(Cid, Cid), Hammer2Error>)
        requires
            old(self).wf(),
        ensures
            final(self).wf(),
            only_cache(*old(self), *final(self)),
            r matches Ok((p, c)) ==> c != CID_NONE ==> final(self).cmap@.contains_key(c),
            r matches Ok((p, c)) ==> c != CID_NONE ==> (old(self).nmap@.contains_key(inum) && c
                == old(self).nmap@[inum].cid) || ((c == p || child_found(
                final(self).cmap@,
                p,
                c,
                inum,
                inum,
            )) && (final(self).cmap@[c].data@.len() > 0 ==> crate::fs::le64(
                final(self).cmap@[c].data@,
                0x58,
            ) == inum)),
            old(self).nmap@.contains_key(inum) ==> (r is Ok <==> old(self).nmap@[inum].cid != CID_NONE
                && load_succeeds(*old(self), old(self).nmap@[inum].cid, 0) && parent_load_ok(
                *old(self),
                old(self).nmap@[inum].cid,
                0,
            )),
            old(self).nmap@.contains_key(inum) ==> (r matches Ok((p, c)) ==> c == old(
                self,
            ).nmap@[inum].cid && p == old(self).cmap@[c].pcid),
            !old(self).nmap@.contains_key(inum) && !old(self).nmap@.contains_key(
                crate::inode::INUM_PFS_ROOT,
            ) ==> r == Err::<(Cid, Cid), Hammer2Error>(Hammer2Error::Errno(Errno::ENOENT)),
            !old(self).nmap@.contains_key(inum) && old(self).nmap@.contains_key(
                crate::inode::INUM_PFS_ROOT,
            ) && old(self).nmap@[crate::inode::INUM_PFS_ROOT].cid == CID_NONE ==> r == Err::<
                (Cid, Cid),
                Hammer2Error,
            >(Hammer2Error::Errno(Errno::EIO)),
    {
        if self.nmap.contains_key(&inum) {
            let (pcid, cid) = match self.get_inode_chain_and_parent(inum, 0) {
                Ok(t) => t,
                Err(e) => return Err(e),
            };
            if cid != CID_NONE {
                return Ok((pcid, cid));
            }
        }
        let pcid = match self.get_inode_chain(crate::inode::INUM_PFS_ROOT, 0) {
            Ok(c) => c,
            Err(e) => return Err(e),
        };
        if pcid == CID_NONE {
            return Err(Hammer2Error::Errno(Errno::EIO));
        }
        let (pcid, cid, _) = match self.lookup_chain(pcid, inum, inum, 0) {
            Ok(t) => t,
            Err(e) => return Err(e),
        };
        if cid != CID_NONE {
            let chain = match self.get_chain(cid) {
                Ok(c) => c,
                Err(e) => return Err(Hammer2Error::Errno(e)),
            };
            if chain.has_data() {
                if chain.data.len() != 1024 {
                    return Err(Hammer2Error::Errno(Errno::EINVAL));
                }
                let ipdata = chain.as_inode_data();
                if inum != ipdata.meta.inum {
                    return Err(Hammer2Error::Errno(Errno::EINVAL));
                }
            }
        }
        Ok((pcid, cid))
    }

    /// The statistics embedded in the block reference of inode `inum`'s
    /// chain.
    pub fn get_inode_embed_stats(&self, inum: u64) -> (r: Result<
        crate::fs::Hammer2BlockrefEmbedStats,
        Errno,
    >)
        ensures
            r is Ok <==> self.nmap@.contains_key(inum) && self.cmap@.contains_key(
                self.nmap@[inum].cid,
            ),
            !self.nmap@.contains_key(inum) ==> r == Err::<crate::fs::Hammer2BlockrefEmbedStats, Errno>(
                Errno::ENOENT,
            ),
            self.nmap@.contains_key(inum) && !self.cmap@.contains_key(self.nmap@[inum].cid) ==> r
                == Err::<crate::fs::Hammer2BlockrefEmbedStats, Errno>(Errno::EINVAL),
            r matches Ok(st) ==> self.nmap@.contains_key(inum) && self.cmap@.contains_key(
                self.nmap@[inum].cid,
            ) && <crate::fs::Hammer2BlockrefEmbedStats as crate::extra::Record<16>>::decodes(
                st,
                self.cmap@[self.nmap@[inum].cid].bref.embed@,
            ),
    {
        let cid = match self.nmap.get(&inum) {
            Some(ip) => ip.cid,
            None => return Err(Errno::ENOENT),
        };
        let chain = self.get_chain(cid)?;
        Ok(chain.bref.embed_as())
    }

    /// Resolves the name of the operation in directory `inum1`: walks the
    /// entries that hash like the name until one bears it, and for a
    /// directory entry finds the inode it names. Feeds the chain found.
    fn xop_nresolve(&mut self, arg: &mut crate::xop::XopNresolve) -> (r: Result<(), Hammer2Error>)
        requires
            old(self).wf(),
        ensures
            final(self).wf(),
            only_cache(*old(self), *final(self)),
            final(arg).head.inum1 == old(arg).head.inum1,
            final(arg).head.name1@ == old(arg).head.name1@,
            forall|i: int|
                0 <= i < final(arg).head.cids@.len() ==> final(self).cmap@.contains_key(
                    #[trigger] final(arg).head.cids@[i],
                ) || old(arg).head.cids@.contains(final(arg).head.cids@[i]),
            r is Ok ==> final(arg).head.cids@ == old(arg).head.cids@ || exists|c: Cid|
                #[trigger] resolved(*final(self), encode_utf8(old(arg).head.name1@), c)
                    && final(arg).head.cids@ == old(arg).head.cids@.push(c),
            r is Err ==> final(arg).head.cids@ == old(arg).head.cids@,
            !old(self).nmap@.contains_key(old(arg).head.inum1) ==> r == Err::<(), Hammer2Error>(
                Hammer2Error::Errno(Errno::ENOENT),
            ),
            old(self).nmap@.contains_key(old(arg).head.inum1) && old(self).nmap@[old(
                arg,
            ).head.inum1].cid == CID_NONE ==> r == Err::<(), Hammer2Error>(
                Hammer2Error::Errno(Errno::EIO),
            ),
            old(self).nmap@.contains_key(old(arg).head.inum1) && old(self).nmap@[old(
                arg,
            ).head.inum1].cid != CID_NONE && !load_succeeds(
                *old(self),
                old(self).nmap@[old(arg).head.inum1].cid,
                RESOLVE_ALWAYS,
            ) ==> r is Err,
            old(self).nmap@.contains_key(old(arg).head.inum1) && no_entry_named(
                *old(self),
                old(self).nmap@[old(arg).head.inum1].cid,
                encode_utf8(old(arg).head.name1@),
            ) ==> r is Ok && final(arg).head.cids@ == old(arg).head.cids@,
            forall|j: int|
                old(self).nmap@.contains_key(old(arg).head.inum1) && #[trigger] one_named(
                    *old(self),
                    old(self).nmap@[old(arg).head.inum1].cid,
                    encode_utf8(old(arg).head.name1@),
                    j,
                ) ==> r is Ok && final(arg).head.cids@ == old(arg).head.cids@.push(
                    old(self).cmap@[old(self).nmap@[old(arg).head.inum1].cid].ccids@[j].cid,
                ) && final(self).cmap@[old(self).cmap@[old(self).nmap@[old(
                    arg,
                ).head.inum1].cid].ccids@[j].cid].data@ == media_after_load(
                    *old(self),
                    old(self).cmap@[old(self).nmap@[old(arg).head.inum1].cid].ccids@[j].cid,
                ),
    {
        let ghost s0 = *self;
        let ghost ic = s0.nmap@[arg.head.inum1].cid;
        let ghost nm = encode_utf8(arg.head.name1@);
        let ghost one = s0.nmap@.contains_key(arg.head.inum1) && exists|j: int|
            #[trigger] one_named(s0, ic, nm, j);
        let ghost jj = choose|j: int| #[trigger] one_named(s0, ic, nm, j);
        let ghost d0 = s0.cmap@[ic].ccids@[jj].cid;
        let ghost none = s0.nmap@.contains_key(arg.head.inum1) && no_entry_named(
            s0,
            s0.nmap@[arg.head.inum1].cid,
            encode_utf8(arg.head.name1@),
        );
        assert(RESOLVE_ALWAYS & RESOLVE_MASK == RESOLVE_ALWAYS) by (bit_vector);
        let pcid = match self.get_inode_chain(arg.head.inum1, RESOLVE_ALWAYS) {
            Ok(c) => c,
            Err(e) => return Err(e),
        };
        if pcid == CID_NONE {
            return Err(Hammer2Error::Errno(Errno::EIO));
        }
        let name = arg.head.name1.as_str().as_bytes_vec();
        let lhc = crate::subs::dirhash(name.as_slice());
        proof {
            crate::subs::lemma_dirhash_low(name@);
        }
        let lend = lhc + crate::fs::HAMMER2_DIRHASH_LOMASK;
        proof {
            if none || one {
                assert(name@ == encode_utf8(old(arg).head.name1@));
                assert(*self == s0);
            }
        }
        let (mut pcid, mut cid, _) = match self.lookup_chain(pcid, lhc, lend, LOOKUP_ALWAYS) {
            Ok(t) => t,
            Err(e) => return Err(e),
        };
        proof {
            if one {
                assert(LOOKUP_ALWAYS & LOOKUP_ALWAYS != 0) by (bit_vector);
                assert(cid == d0);
                assert(same_place(s0.cmap@[d0], self.cmap@[d0]));
                assert(self.cmap@[d0].data@ == media_after_load(s0, d0));
            }
        }
        let mut budget: u64 = u64::MAX;
        while cid != CID_NONE
            invariant
                self.wf(),
                only_cache(s0, *self),
                s0 == *old(self),
                cid != CID_NONE ==> self.cmap@.contains_key(cid),
                s0.nmap@.contains_key(arg.head.inum1) && s0.nmap@[arg.head.inum1].cid != CID_NONE,
                arg.head.inum1 == old(arg).head.inum1,
                none ==> cid == CID_NONE,
                none == (old(self).nmap@.contains_key(old(arg).head.inum1) && no_entry_named(
                    *old(self),
                    old(self).nmap@[old(arg).head.inum1].cid,
                    encode_utf8(old(arg).head.name1@),
                )),
                one ==> cid == d0 && s0.cmap@.contains_key(d0) && self.cmap@.contains_key(d0)
                    && self.cmap@[d0].data@ == media_after_load(s0, d0),
                one == (s0.nmap@.contains_key(arg.head.inum1) && exists|j: int|
                    #[trigger] one_named(s0, ic, nm, j)),
                ic == s0.nmap@[arg.head.inum1].cid,
                nm == encode_utf8(old(arg).head.name1@),
                name@ == nm,
                one ==> one_named(s0, ic, nm, jj),
                d0 == s0.cmap@[ic].ccids@[jj].cid,
            ensures
                self.wf(),
                only_cache(s0, *self),
                none ==> cid == CID_NONE,
                one ==> cid == d0,
                cid != CID_NONE ==> self.cmap@.contains_key(cid) && crate::chain::name_matches(
                    self.cmap@[cid],
                    name@,
                ) && crate::chain::name_readable(self.cmap@[cid], name@.len()),
            decreases budget,
        {
            proof {
                if one {
                    assert(s0.cmap@.contains_key(d0));
                    assert(same_place(s0.cmap@[d0], self.cmap@[d0]));
                }
            }
            let chain = match self.get_chain(cid) {
                Ok(c) => c,
                Err(e) => return Err(Hammer2Error::Errno(e)),
            };
            if !chain.name_readable_exec(name.len()) {
                return Err(Hammer2Error::Errno(Errno::EINVAL));
            }
            if chain.match_name_from_bytes(name.as_slice()) {
                break;
            }
            if budget == 0 {
                return Err(Hammer2Error::Errno(Errno::E2BIG));
            }
            budget = budget - 1;
            let t = match self.get_next_chain(pcid, cid, lend, LOOKUP_ALWAYS) {
                Ok(t) => t,
                Err(e) => return Err(e),
            };
            pcid = t.0;
            cid = t.1;
        }
        assert(name@ == encode_utf8(old(arg).head.name1@));
        if cid != CID_NONE {
            let chain = match self.get_chain(cid) {
                Ok(c) => c,
                Err(e) => return Err(Hammer2Error::Errno(e)),
            };
            if chain.bref.typ == HAMMER2_BREF_TYPE_DIRENT {
                let head: crate::fs::Hammer2DirentHead = chain.bref.embed_as();
                let ghost s1 = *self;
                let ghost d = cid;
                let t = match self.find_inode_chain(head.inum) {
                    Ok(t) => t,
                    Err(e) => return Err(e),
                };
                proof {
                    lemma_name_stable(s1.cmap@, self.cmap@, d, name@);
                    if t.1 != CID_NONE {
                        assert(dirent_refers(*self, crate::fs::le64(self.cmap@[d].bref.embed@, 0), t.1));
                        assert(resolved(*self, name@, t.1));
                    }
                }
                cid = t.1;
            } else {
                assert(resolved(*self, name@, cid));
            }
        }
        arg.head.feed(cid);
        Ok(())
    }

    /// Lists directory `inum1` from the key of the operation: feeds every
    /// entry from there to the end of the key space.
    fn xop_readdir(&mut self, arg: &mut crate::xop::XopReaddir) -> (r: Result<(), Hammer2Error>)
        requires
            old(self).wf(),
        ensures
            final(self).wf(),
            only_cache(*old(self), *final(self)),
            final(arg).head.inum1 == old(arg).head.inum1,
            final(arg).lkey == old(arg).lkey,
            final(arg).head.cids@.len() >= old(arg).head.cids@.len(),
            final(arg).head.cids@.subrange(0, old(arg).head.cids@.len() as int) == old(
                arg,
            ).head.cids@,
            forall|i: int|
                old(arg).head.cids@.len() <= i < final(arg).head.cids@.len()
                    ==> final(self).cmap@.contains_key(#[trigger] final(arg).head.cids@[i]),
            !old(self).nmap@.contains_key(old(arg).head.inum1) ==> r == Err::<(), Hammer2Error>(
                Hammer2Error::Errno(Errno::ENOENT),
            ),
            old(self).nmap@.contains_key(old(arg).head.inum1) && old(self).nmap@[old(
                arg,
            ).head.inum1].cid == CID_NONE ==> r == Err::<(), Hammer2Error>(
                Hammer2Error::Errno(Errno::EIO),
            ),
            old(self).nmap@.contains_key(old(arg).head.inum1) && old(self).nmap@[old(
                arg,
            ).head.inum1].cid != CID_NONE && !load_succeeds(
                *old(self),
                old(self).nmap@[old(arg).head.inum1].cid,
                RESOLVE_ALWAYS,
            ) ==> r is Err,
            old(self).nmap@.contains_key(old(arg).head.inum1) && old(self).cmap@.contains_key(
                old(self).nmap@[old(arg).head.inum1].cid,
            ) && empty_from(old(self).cmap@[old(self).nmap@[old(arg).head.inum1].cid], old(arg).lkey)
                ==> r is Ok && final(arg).head.cids@ == old(arg).head.cids@,
            old(self).nmap@.contains_key(old(arg).head.inum1) && entries_ready(
                *old(self),
                old(self).nmap@[old(arg).head.inum1].cid,
                old(arg).lkey,
            ) ==> r is Ok && final(arg).head.cids@ == old(arg).head.cids@ + entry_cids(
                old(self).cmap@[old(self).nmap@[old(arg).head.inum1].cid].ccids@,
            ) && last_kept(
                *old(self),
                *final(self),
                old(self).nmap@[old(arg).head.inum1].cid,
                old(self).cmap@[old(self).nmap@[old(arg).head.inum1].cid].ccids@.len() as int,
            ),
    {
        let ghost s0 = *self;
        assert(RESOLVE_ALWAYS & RESOLVE_MASK == RESOLVE_ALWAYS) by (bit_vector);
        let pcid = match self.get_inode_chain(arg.head.inum1, RESOLVE_ALWAYS) {
            Ok(c) => c,
            Err(e) => return Err(e),
        };
        if pcid == CID_NONE {
            return Err(Hammer2Error::Errno(Errno::EIO));
        }
        let ghost empty = s0.cmap@.contains_key(pcid) && empty_from(s0.cmap@[pcid], arg.lkey);
        let ghost c0 = pcid;
        let ghost many = s0.nmap@.contains_key(arg.head.inum1) && entries_ready(s0, pcid, arg.lkey);
        let ghost v = s0.cmap@[pcid].ccids@;
        let ghost mut gk: int = 0;
        proof {
            if many {
                assert(*self == s0);
                lemma_entries_looks(s0, *self, c0, arg.lkey, 0);
                lemma_entry_loads(s0, *self, c0, arg.lkey, 0);
            }
            if empty {
                assert(*self == s0);
                lemma_empty_narrow(s0.cmap@[pcid], arg.lkey);
            }
        }
        let lkey = arg.lkey;
        let ghost s1 = *self;
        let (mut pcid, mut cid, _) = match self.lookup_chain(pcid, lkey, lkey, 0) {
            Ok(t) => t,
            Err(e) => return Err(e),
        };
        proof {
            if empty {
                assert(pcid == s0.nmap@[arg.head.inum1].cid);
                lemma_empty_counted(s0.cmap@[pcid], self.cmap@[pcid], lkey);
            }
            if many {
                assert(pcid == c0);
                assert(cid == v[0].cid || cid == CID_NONE);
                assert(dir_kept(s0, *self, c0));
                lemma_entry_placed(s0, c0, lkey, v.len() - 1);
                if cid == CID_NONE {
                    assert(keeps_others(s1, *self, c0));
                    assert(last_kept(s0, *self, c0, -1));
                    lemma_entries_looks(s0, *self, c0, lkey, 0);
                    lemma_entry_loads(s0, *self, c0, lkey, 0);
                } else {
                    if v.len() > 1 {
                        assert(keeps_others(s1, *self, c0));
                    }
                    assert(last_kept(s0, *self, c0, 0));
                }
            }
        }
        if cid == CID_NONE {
            let ghost s2 = *self;
            let t = match self.lookup_chain(pcid, lkey, crate::fs::HAMMER2_KEY_MAX, 0) {
                Ok(t) => t,
                Err(e) => return Err(e),
            };
            pcid = t.0;
            cid = t.1;
            proof {
                if many {
                    assert(pcid == c0 && cid == v[0].cid);
                    assert(dir_kept(s0, *self, c0));
                    lemma_entry_placed(s0, c0, lkey, v.len() - 1);
                    if v.len() > 1 {
                        assert(keeps_others(s2, *self, c0));
                    }
                    assert(last_kept(s0, *self, c0, 0));
                }
            }
        }
        proof {
            if many {
                assert(arg.head.cids@ == old(arg).head.cids@ + entry_cids(v).take(0));
            }
        }
        let mut budget: u64 = u64::MAX;
        while cid != CID_NONE
            invariant
                self.wf(),
                only_cache(s0, *self),
                s0 == *old(self),
                arg.head.inum1 == old(arg).head.inum1,
                arg.lkey == old(arg).lkey,
                cid != CID_NONE ==> self.cmap@.contains_key(cid),
                s0.nmap@.contains_key(arg.head.inum1) && s0.nmap@[arg.head.inum1].cid != CID_NONE,
                arg.head.cids@.len() >= old(arg).head.cids@.len(),
                arg.head.cids@.subrange(0, old(arg).head.cids@.len() as int) == old(arg).head.cids@,
                forall|i: int|
                    old(arg).head.cids@.len() <= i < arg.head.cids@.len()
                        ==> self.cmap@.contains_key(#[trigger] arg.head.cids@[i]),
                empty == (s0.cmap@.contains_key(s0.nmap@[arg.head.inum1].cid) && empty_from(
                    s0.cmap@[s0.nmap@[arg.head.inum1].cid],
                    arg.lkey,
                )),
                empty ==> cid == CID_NONE && arg.head.cids@ == old(arg).head.cids@,
                c0 == s0.nmap@[arg.head.inum1].cid,
                many == (s0.nmap@.contains_key(arg.head.inum1) && entries_ready(s0, c0, arg.lkey)),
                v == s0.cmap@[c0].ccids@,
                many ==> s0.wf() && pcid == c0 && dir_kept(s0, *self, c0) && 0 <= gk <= v.len(),
                many ==> arg.head.cids@ == old(arg).head.cids@ + entry_cids(v).take(gk),
                many && gk < v.len() ==> cid == v[gk].cid && budget == u64::MAX - gk,
                many && gk == v.len() ==> cid == CID_NONE,
                many ==> last_kept(s0, *self, c0, gk),
            decreases budget,
        {
            proof {
                if many {
                    assert(entry_cids(v).take(gk + 1) =~= entry_cids(v).take(gk).push(v[gk].cid));
                }
            }
            arg.head.feed(cid);
            if budget == 0 {
                return Err(Hammer2Error::Errno(Errno::E2BIG));
            }
            budget = budget - 1;
            proof {
                if many {
                    lemma_entries_looks(s0, *self, c0, arg.lkey, gk);
                    lemma_entry_placed(s0, c0, arg.lkey, gk);
                    lemma_entry_placed(s0, c0, arg.lkey, v.len() - 1);
                    if gk + 1 < v.len() {
                        lemma_entry_loads(s0, *self, c0, arg.lkey, gk + 1);
                    }
                }
            }
            let ghost s3 = *self;
            let t = match self.get_next_chain(pcid, cid, crate::fs::HAMMER2_KEY_MAX, 0) {
                Ok(t) => t,
                Err(e) => return Err(e),
            };
            pcid = t.0;
            cid = t.1;
            proof {
                if many {
                    gk = gk + 1;
                    assert(pcid == c0);
                    assert(dir_kept(s0, *self, c0));
                    let dl = v[v.len() - 1].cid;
                    if gk < v.len() - 1 {
                        assert(keeps_others(s3, *self, c0));
                    } else if gk == v.len() - 1 {
                        if entry_at_hand(s0, c0, v[v.len() - 1]) {
                            assert(self.cmap@[dl].data@ == ready_media(s3));
                        }
                    } else {
                        if entry_at_hand(s0, c0, v[v.len() - 1]) {
                            assert(s3.cmap@.contains_key(dl));
                            assert(s3.cmap@[dl].data@.len() > 0);
                            assert(self.cmap@[dl].data@ == s3.cmap@[dl].data@);
                        }
                    }
                    assert(last_kept(s0, *self, c0, gk));
                }
            }
        }
        proof {
            if many {
                if gk < v.len() {
                    lemma_entry_placed(s0, c0, arg.lkey, gk);
                    assert(s0.cmap@.contains_key(v[gk].cid));
                }
                assert(entry_cids(v).take(v.len() as int) =~= entry_cids(v));
            }
        }
        Ok(())
    }

    /// Maps logical block `lbn` of file `inum1` to the raw media offset of
    /// its data (`ENOENT` for a block without media).
    fn xop_bmap(&mut self, arg: &mut crate::xop::XopBmap) -> (r: Result<(), Hammer2Error>)
        requires
            old(self).wf(),
            old(arg).lbn < 0x1_0000_0000_0000,
        ensures
            final(self).wf(),
            only_cache(*old(self), *final(self)),
            final(arg).lbn == old(arg).lbn,
            r is Ok ==> final(arg).offset % 64 == 0,
            r is Ok ==> exists|p: u64, c: u64|
                #![trigger final(self).cmap@[p], final(self).cmap@[c]]
                final(self).cmap@.contains_key(c) && raw_off(final(self).cmap@[c].bref)
                    == final(arg).offset && (c == p || child_found(
                    final(self).cmap@,
                    p,
                    c,
                    (old(arg).lbn * 65536) as u64,
                    (old(arg).lbn * 65536) as u64,
                )),
            !old(self).nmap@.contains_key(old(arg).head.inum1) ==> r == Err::<(), Hammer2Error>(
                Hammer2Error::Errno(Errno::ENOENT),
            ),
            old(self).nmap@.contains_key(old(arg).head.inum1) && block_at_hand(
                *old(self),
                old(self).nmap@[old(arg).head.inum1].cid,
                (old(arg).lbn * 65536) as u64,
            ) && finds_nothing(
                old(self).cmap@[old(self).nmap@[old(arg).head.inum1].cid],
                (old(arg).lbn * 65536) as u64,
                (old(arg).lbn * 65536) as u64,
            ) ==> r == Err::<(), Hammer2Error>(Hammer2Error::Errno(Errno::ENOENT)),
            forall|j: int|
                old(self).nmap@.contains_key(old(arg).head.inum1) && block_at_hand(
                    *old(self),
                    old(self).nmap@[old(arg).head.inum1].cid,
                    (old(arg).lbn * 65536) as u64,
                ) && #[trigger] finds_one(
                    old(self).cmap@[old(self).nmap@[old(arg).head.inum1].cid],
                    (old(arg).lbn * 65536) as u64,
                    (old(arg).lbn * 65536) as u64,
                    j,
                ) && leaf_child_loads(
                    *old(self),
                    old(self).nmap@[old(arg).head.inum1].cid,
                    old(self).cmap@[old(self).nmap@[old(arg).head.inum1].cid].ccids@[j].cid,
                    LOOKUP_ALWAYS,
                ) ==> r is Ok && final(arg).offset == raw_off(
                    old(self).cmap@[old(self).cmap@[old(self).nmap@[old(
                        arg,
                    ).head.inum1].cid].ccids@[j].cid].bref,
                ),
            old(self).nmap@.contains_key(old(arg).head.inum1) && old(self).cmap@.contains_key(
                old(self).nmap@[old(arg).head.inum1].cid,
            ) && direct_inode(old(self).cmap@[old(self).nmap@[old(arg).head.inum1].cid]) ==> r is Ok
                && final(arg).offset == raw_off(
                old(self).cmap@[old(self).nmap@[old(arg).head.inum1].cid].bref,
            ),
    {
        assert(RESOLVE_ALWAYS & RESOLVE_MASK == RESOLVE_ALWAYS) by (bit_vector);
        let ghost s0 = *self;
        let ghost ic = s0.nmap@[arg.head.inum1].cid;
        let ghost lb = (arg.lbn * 65536) as u64;
        let ghost hand = s0.nmap@.contains_key(arg.head.inum1) && block_at_hand(s0, ic, lb);
        let ghost dir = s0.nmap@.contains_key(arg.head.inum1) && s0.cmap@.contains_key(ic)
            && direct_inode(s0.cmap@[ic]);
        let ghost jj = choose|j: int|
            #[trigger] finds_one(s0.cmap@[ic], lb, lb, j) && leaf_child_loads(
                s0,
                ic,
                s0.cmap@[ic].ccids@[j].cid,
                LOOKUP_ALWAYS,
            );
        let lbase = arg.lbn * 65536;
        let pcid = match self.get_inode_chain(arg.head.inum1, RESOLVE_ALWAYS) {
            Ok(c) => c,
            Err(e) => return Err(e),
        };
        if pcid == CID_NONE {
            return Err(Hammer2Error::Errno(Errno::EIO));
        }
        arg.offset = crate::fs::HAMMER2_OFF_MASK;
        proof {
            if hand || dir {
                assert(*self == s0);
                assert(pcid == ic);
                if hand && !finds_nothing(s0.cmap@[ic], lb, lb) {
                    assert(finds_one(s0.cmap@[ic], lb, lb, jj));
                }
            }
        }
        let ghost s1 = *self;
        let (_, cid, _) = match self.lookup_chain(pcid, lbase, lbase, LOOKUP_ALWAYS) {
            Ok(t) => t,
            Err(e) => return Err(e),
        };
        proof {
            if hand && !finds_nothing(s0.cmap@[ic], lb, lb) {
                assert(cid == s0.cmap@[ic].ccids@[jj].cid);
                assert(same_place(s1.cmap@[cid], self.cmap@[cid]));
            }
            if dir {
                assert(cid == ic);
                assert(same_place(s1.cmap@[cid], self.cmap@[cid]));
            }
        }
        if cid == CID_NONE {
            return Err(Hammer2Error::Errno(Errno::ENOENT));
        }
        let off = match self.get_chain(cid) {
            Ok(c) => c.bref.get_raw_data_off(),
            Err(e) => return Err(Hammer2Error::Errno(e)),
        };
        assert(raw_off(self.cmap@[cid].bref) == off);
        assert(lbase == (arg.lbn * 65536) as u64);
        arg.offset = off;
        arg.head.feed(cid);
        Ok(())
    }

    /// Reads the logical block at `lbase` of file `inum1`: zeros for a block
    /// without media, else the block's data (cached unless the mount says
    /// not to).
    fn xop_read(&mut self, arg: &mut crate::xop::XopRead) -> (r: Result<Vec<u8>, Hammer2Error>)
        requires
            old(self).wf(),
            old(arg).head.cids@.len() == 0,
        ensures
            forall|j: int, k: int|
                old(self).nmap@.contains_key(old(arg).head.inum1) && #[trigger] finds_through_indirect(
                    *old(self),
                    old(self).nmap@[old(arg).head.inum1].cid,
                    old(arg).lbase,
                    RESOLVE_ALWAYS,
                    j,
                    k,
                ) && child_readable(
                    old(self).cmap@[indirect_leaf(*old(self), old(self).nmap@[old(arg).head.inum1].cid, j, k)],
                ) ==> (r matches Ok(b) && crate::chain::chain_data(
                    old(self).cmap@[indirect_leaf(*old(self), old(self).nmap@[old(arg).head.inum1].cid, j, k)],
                ) == Ok::<Seq<u8>, Errno>(b@)),
            final(self).wf(),
            final(self).nmap@ == old(self).nmap@ && final(self).fso == old(self).fso,
            final(self).opt == old(self).opt && final(self).voldata == old(self).voldata,
            final(self).label@ == old(self).label@ && final(self).vimage@ == old(self).vimage@,
            final(arg).lbase == old(arg).lbase,
            cache_grows(old(self).cmap@, final(self).cmap@),
            r is Ok ==> old(self).nmap@.contains_key(old(arg).head.inum1) && final(self).cmap@.contains_key(
                old(self).nmap@[old(arg).head.inum1].cid,
            ) && !inode_unread(final(self).cmap@[old(self).nmap@[old(arg).head.inum1].cid]),
            r matches Ok(b) ==> (direct_inode(
                final(self).cmap@[old(self).nmap@[old(arg).head.inum1].cid],
            ) ==> crate::chain::chain_data(final(self).cmap@[old(self).nmap@[old(
                arg,
            ).head.inum1].cid]) == Ok::<Seq<u8>, Errno>(b@)),
            old(self).nmap@.contains_key(old(arg).head.inum1) && direct_readable(
                *old(self),
                old(self).nmap@[old(arg).head.inum1].cid,
            ) ==> r is Ok && final(self).cmap@.dom() == old(self).cmap@.dom(),
            r matches Ok(b) ==> (block_at_hand(
                *old(self),
                old(self).nmap@[old(arg).head.inum1].cid,
                old(arg).lbase,
            ) ==> block_reads(*final(self), old(self).nmap@[old(arg).head.inum1].cid, old(arg).lbase, b@)),
            r is Ok && block_at_hand(
                *old(self),
                old(self).nmap@[old(arg).head.inum1].cid,
                old(arg).lbase,
            ) ==> counted_as(
                old(self).cmap@[old(self).nmap@[old(arg).head.inum1].cid],
                final(self).cmap@[old(self).nmap@[old(arg).head.inum1].cid],
            ),
            old(self).nmap@.contains_key(old(arg).head.inum1) && block_readable(
                *old(self),
                old(self).nmap@[old(arg).head.inum1].cid,
                old(arg).lbase,
            ) ==> (r matches Ok(b) && (finds_nothing(
                old(self).cmap@[old(self).nmap@[old(arg).head.inum1].cid],
                old(arg).lbase,
                old(arg).lbase,
            ) ==> b@ == zero_block()) && forall|j: int|
                #[trigger] finds_one(
                    old(self).cmap@[old(self).nmap@[old(arg).head.inum1].cid],
                    old(arg).lbase,
                    old(arg).lbase,
                    j,
                ) ==> crate::chain::chain_data(
                    old(self).cmap@[old(self).cmap@[old(self).nmap@[old(
                        arg,
                    ).head.inum1].cid].ccids@[j].cid],
                ) == Ok::<Seq<u8>, Errno>(b@)),
            r is Ok && block_cached(
                *old(self),
                old(self).nmap@[old(arg).head.inum1].cid,
                old(arg).lbase,
            ) ==> final(self).media == old(self).media && forall|k: u64|
                #[trigger] old(self).cmap@.contains_key(k) && k != old(self).nmap@[old(
                    arg,
                ).head.inum1].cid && old(self).cmap@[k].data@.len() == 0
                    ==> final(self).cmap@.contains_key(k) && final(self).cmap@[k] == old(self).cmap@[k],
    {
        assert(RESOLVE_ALWAYS & RESOLVE_MASK == RESOLVE_ALWAYS) by (bit_vector);
        let ghost ic = old(self).nmap@[arg.head.inum1].cid;
        let ghost hand = block_at_hand(*old(self), ic, arg.lbase);
        let ghost cached = block_cached(*old(self), ic, arg.lbase);
        let ghost rd = old(self).nmap@.contains_key(arg.head.inum1) && block_readable(
            *old(self),
            ic,
            arg.lbase,
        );
        proof {
            if cached {
                lemma_cached_at_hand(*old(self), ic, arg.lbase);
            }
        }
        let ghost jc = choose|j: int|
            #[trigger] finds_one(old(self).cmap@[ic], arg.lbase, arg.lbase, j) && child_cached(
                *old(self),
                ic,
                old(self).cmap@[ic].ccids@[j].cid,
            );
        let ghost jj = choose|j: int|
            #[trigger] finds_one(old(self).cmap@[ic], arg.lbase, arg.lbase, j) && leaf_child_loads(
                *old(self),
                ic,
                old(self).cmap@[ic].ccids@[j].cid,
                LOOKUP_ALWAYS,
            );
        let ghost deep = old(self).nmap@.contains_key(arg.head.inum1) && exists|j: int, k: int|
            #[trigger] finds_through_indirect(*old(self), ic, arg.lbase, RESOLVE_ALWAYS, j, k)
                && child_readable(old(self).cmap@[indirect_leaf(*old(self), ic, j, k)]);
        let ghost (j3, k3) = choose|j: int, k: int|
            #[trigger] finds_through_indirect(*old(self), ic, arg.lbase, RESOLVE_ALWAYS, j, k)
                && child_readable(old(self).cmap@[indirect_leaf(*old(self), ic, j, k)]);
        let ghost d3 = indirect_leaf(*old(self), ic, j3, k3);
        proof {
            if deep {
                assert(load_done(old(self).cmap@[ic], RESOLVE_ALWAYS));
                assert(RESOLVE_ALWAYS & LOOKUP_ALWAYS == RESOLVE_ALWAYS & LOOKUP_ALWAYS);
            }
        }
        let pcid = match self.get_inode_chain(arg.head.inum1, RESOLVE_ALWAYS) {
            Ok(c) => c,
            Err(e) => return Err(e),
        };
        if pcid == CID_NONE {
            return Err(Hammer2Error::Errno(Errno::EIO));
        }
        let ghost s1 = *self;
        let lbase = arg.lbase;
        proof {
            if hand {
                assert(s1 == *old(self));
                assert(pcid == ic);
                if !finds_nothing(s1.cmap@[pcid], lbase, lbase) {
                    assert(finds_one(s1.cmap@[pcid], lbase, lbase, jj));
                }
            }
        }
        proof {
            if deep {
                assert(s1 == *old(self));
                assert(lookup_how(LOOKUP_ALWAYS) == RESOLVE_ALWAYS) by {
                    assert(LOOKUP_ALWAYS & LOOKUP_ALWAYS != 0) by (bit_vector);
                }
                assert(finds_through_indirect(s1, pcid, lbase, lookup_how(LOOKUP_ALWAYS), j3, k3));
            }
        }
        let (_, cid, _) = match self.lookup_chain(pcid, lbase, lbase, LOOKUP_ALWAYS) {
            Ok(t) => t,
            Err(e) => return Err(e),
        };
        proof {
            if deep {
                assert(cid == d3 && self.cmap@[d3] == s1.cmap@[d3]);
            }
        }
        proof {
            if hand {
                lemma_finds_counted(s1.cmap@[pcid], self.cmap@[pcid], lbase, lbase, jj);
                if !finds_nothing(s1.cmap@[pcid], lbase, lbase) {
                    assert(cid == s1.cmap@[pcid].ccids@[jj].cid);
                }
            }
            if cached {
                assert(RESOLVE_ALWAYS & RESOLVE_MASK == RESOLVE_ALWAYS) by (bit_vector);
                assert(LOOKUP_ALWAYS & LOOKUP_ALWAYS != 0) by (bit_vector);
                if !finds_nothing(s1.cmap@[pcid], lbase, lbase) {
                    assert(finds_one(s1.cmap@[pcid], lbase, lbase, jc));
                    assert(leaf_child_loads(s1, pcid, s1.cmap@[pcid].ccids@[jc].cid, LOOKUP_ALWAYS));
                    assert(keeps_others(s1, *self, pcid));
                    assert(cid == s1.cmap@[pcid].ccids@[jc].cid);
                    if rd {
                        assert(child_readable(s1.cmap@[cid]));
                        assert(self.cmap@[cid] == s1.cmap@[cid]);
                    }
                } else {
                    assert(keeps_others(s1, *self, pcid));
                }
            }
        }
        proof {
            assert(s1.cmap@.contains_key(pcid));
            assert(!inode_unread(s1.cmap@[pcid]));
            assert(same_place(s1.cmap@[pcid], self.cmap@[pcid]));
            if s1.cmap@[pcid].bref.typ == HAMMER2_BREF_TYPE_INODE {
                assert(self.cmap@[pcid].data@ == s1.cmap@[pcid].data@);
            }
            assert(direct_inode(self.cmap@[pcid]) ==> direct_inode(s1.cmap@[pcid]));
        }
        if cid == CID_NONE {
            let z = vec![0u8; PBUFSIZE_USIZE];
            assert(z@ =~= zero_block());
            return Ok(z);
        }
        let ghost s2 = *self;
        arg.head.feed(cid);
        let c = match arg.head.collect() {
            Ok(c) => c,
            Err(e) => return Err(Hammer2Error::Errno(e)),
        };
        assert(c == cid);
        let mut chain = match self.take_chain(c) {
            Ok(ch) => ch,
            Err(e) => return Err(Hammer2Error::Errno(e)),
        };
        let ghost c0 = chain;
        assert(chain_ok(chain));
        proof {
            if rd {
                assert(c0 == old(self).cmap@[c]);
                assert(child_readable(c0));
            }
            if deep {
                assert(c0 == old(self).cmap@[d3]);
                assert(child_readable(c0));
            }
        }
        let r = if self.opt.nodatacache {
            if !chain.data_readable_exec() {
                self.put_chain(chain);
                return Err(Hammer2Error::Errno(Errno::EINVAL));
            }
            chain.read_data()
        } else {
            if !chain.has_udata() && !chain.data_readable_exec() {
                self.put_chain(chain);
                return Err(Hammer2Error::Errno(Errno::EINVAL));
            }
            chain.read_cache_data()
        };
        assert(chain_ok(chain));
        assert(same_place(c0, chain) && chain.data@ == c0.data@);
        self.put_chain(chain);
        proof {
            assert(self.cmap@ == s2.cmap@.insert(c, chain));
            assert forall|k: u64| #[trigger] s2.cmap@.contains_key(k) implies self.cmap@.contains_key(
                k,
            ) && same_place(s2.cmap@[k], self.cmap@[k]) && self.cmap@[k].data@ == s2.cmap@[k].data@ by {
                if k == c {
                    assert(s2.cmap@[k] == c0);
                }
            }
            if direct_inode(self.cmap@[pcid]) {
                assert(direct_inode(s2.cmap@[pcid]));
                assert(cid == pcid);
                assert(crate::chain::chain_data(chain) == crate::chain::chain_data(c0));
            }
        }
        match r {
            Ok(v) => Ok(v),
            Err(e) => Err(Hammer2Error::Errno(e)),
        }
    }
}

pub const S_IFIFO: u32 = 0o010000;
pub const S_IFCHR: u32 = 0o020000;
pub const S_IFDIR: u32 = 0o040000;
pub const S_IFBLK: u32 = 0o060000;
pub const S_IFREG: u32 = 0o100000;
pub const S_IFLNK: u32 = 0o120000;
pub const S_IFSOCK: u32 = 0o140000;

/// The file type bits of the mode for an inode type (none for others).
pub open spec fn mode_type(typ: u8) -> u32 {
    if typ == crate::fs::HAMMER2_OBJTYPE_DIRECTORY {
        S_IFDIR
    } else if typ == crate::fs::HAMMER2_OBJTYPE_REGFILE {
        S_IFREG
    } else if typ == crate::fs::HAMMER2_OBJTYPE_FIFO {
        S_IFIFO
    } else if typ == crate::fs::HAMMER2_OBJTYPE_CDEV {
        S_IFCHR
    } else if typ == crate::fs::HAMMER2_OBJTYPE_BDEV {
        S_IFBLK
    } else if typ == crate::fs::HAMMER2_OBJTYPE_SOFTLINK {
        S_IFLNK
    } else if typ == crate::fs::HAMMER2_OBJTYPE_SOCKET {
        S_IFSOCK
    } else {
        0
    }
}

fn mode_type_exec(typ: u8) -> (r: u32)
    ensures
        r == mode_type(typ),
{
    if typ == crate::fs::HAMMER2_OBJTYPE_DIRECTORY {
        S_IFDIR
    } else if typ == crate::fs::HAMMER2_OBJTYPE_REGFILE {
        S_IFREG
    } else if typ == crate::fs::HAMMER2_OBJTYPE_FIFO {
        S_IFIFO
    } else if typ == crate::fs::HAMMER2_OBJTYPE_CDEV {
        S_IFCHR
    } else if typ == crate::fs::HAMMER2_OBJTYPE_BDEV {
        S_IFBLK
    } else if typ == crate::fs::HAMMER2_OBJTYPE_SOFTLINK {
        S_IFLNK
    } else if typ == crate::fs::HAMMER2_OBJTYPE_SOCKET {
        S_IFSOCK
    } else {
        0
    }
}

/// The status of a file with metadata `m`, apart from its owner ids.
pub open spec fn stat_matches(st: Stat, m: crate::fs::Hammer2InodeMeta) -> bool {
    &&& st.st_dev == 0
    &&& st.st_ino == m.inum
    &&& st.st_nlink == m.nlinks
    &&& st.st_mode == m.mode | mode_type(m.typ)
    &&& st.st_rdev == 0
    &&& st.st_size == m.size
    &&& st.st_blksize == 65536
    &&& st.st_blocks == (if m.typ == crate::fs::HAMMER2_OBJTYPE_DIRECTORY {
        1024
    } else {
        m.size
    }) / 512
    &&& st.st_atime == m.atime / 1_000_000
    &&& st.st_mtime == m.mtime / 1_000_000
    &&& st.st_ctime == m.ctime / 1_000_000
    &&& (st.st_uid == crate::fs::le32(m.uid@, 12) || st.st_uid == crate::subs::be32(m.uid@, 12))
    &&& (st.st_gid == crate::fs::le32(m.gid@, 12) || st.st_gid == crate::subs::be32(m.gid@, 12))
}

impl Hammer2 {
    /// Resolves each component of `path` in turn from the PFS root;
    /// `EINVAL` for an empty path, the PFS root for a path of only slashes
    /// and `.` components.
    pub fn nresolve_path(&mut self, path: &str) -> (r: Result<u64, Hammer2Error>)
        requires
            old(self).wf(),
        ensures
            final(self).wf(),
            path@.len() == 0 ==> r == Err::<u64, Hammer2Error>(Hammer2Error::Errno(Errno::EINVAL)),
            path@.len() > 0 && crate::util::path_components(path@).len() == 0 ==> r == Ok::<
                u64,
                Hammer2Error,
            >(crate::inode::INUM_PFS_ROOT),
            r matches Ok(inum) ==> ({
                let cs = crate::util::path_components(path@);
                cs.len() > 0 && cs.last() != "."@ && cs.last() != ".."@ ==> final(self).nmap@.contains_key(inum)
                    && resolved(*final(self), encode_utf8(cs.last()), final(self).nmap@[inum].cid)
            }),
            forall|j: int|
                crate::util::path_components(path@).len() == 1 && crate::util::path_components(
                    path@,
                )[0] != "."@ && crate::util::path_components(path@)[0] != ".."@ && #[trigger] resolves_at(
                    *old(self),
                    crate::inode::INUM_PFS_ROOT,
                    encode_utf8(crate::util::path_components(path@)[0]),
                    j,
                ) ==> r == Ok::<u64, Hammer2Error>(
                    resolved_inum(*old(self), crate::inode::INUM_PFS_ROOT, j),
                ),
            crate::util::path_components(path@).len() == 1 && crate::util::path_components(path@)[0]
                != "."@ && crate::util::path_components(path@)[0] != ".."@ && old(
                self,
            ).nmap@.contains_key(crate::inode::INUM_PFS_ROOT) && no_entry_named(
                *old(self),
                old(self).nmap@[crate::inode::INUM_PFS_ROOT].cid,
                encode_utf8(crate::util::path_components(path@)[0]),
            ) ==> r == Err::<u64, Hammer2Error>(Hammer2Error::Errno(Errno::ENOENT)),
    {
        let ghost h0 = *self;
        if path.unicode_len() == 0 {
            return Err(Hammer2Error::Errno(Errno::EINVAL));
        }
        let mut inum = crate::inode::INUM_PFS_ROOT;
        let v = crate::util::split_path(path);
        let ghost cs = crate::util::path_components(path@);
        assert(v@.len() == cs.len());
        let mut i: usize = 0;
        while i < v.len()
            invariant
                self.wf(),
                i <= v@.len(),
                path@.len() > 0,
                cs == crate::util::path_components(path@),
                v@.map_values(|s: &str| s@) == cs,
                v@.len() == cs.len(),
                i == 0 ==> inum == crate::inode::INUM_PFS_ROOT && *self == h0,
                h0 == *old(self),
                i == 1 && cs.len() == 1 && cs[0] != "."@ && cs[0] != ".."@ ==> forall|j: int|
                    #[trigger] resolves_at(h0, crate::inode::INUM_PFS_ROOT, encode_utf8(cs[0]), j)
                        ==> inum == resolved_inum(h0, crate::inode::INUM_PFS_ROOT, j),
                i == 1 && cs.len() == 1 && cs[0] != "."@ && cs[0] != ".."@ ==> !(h0.nmap@.contains_key(
                    crate::inode::INUM_PFS_ROOT,
                ) && no_entry_named(
                    h0,
                    h0.nmap@[crate::inode::INUM_PFS_ROOT].cid,
                    encode_utf8(cs[0]),
                )),
                i > 0 && cs[i - 1] != "."@ && cs[i - 1] != ".."@ ==> self.nmap@.contains_key(inum)
                    && resolved(*self, encode_utf8(cs[i - 1]), self.nmap@[inum].cid),
            decreases v@.len() - i,
        {
            assert(v@[i as int]@ == cs[i as int]);
            inum = match self.nresolve(inum, v[i]) {
                Ok(n) => n,
                Err(e) => return Err(e),
            };
            i = i + 1;
        }
        Ok(inum)
    }

    /// Resolves the name `cnp` in directory `dinum`: `.` is the directory,
    /// `..` its parent, other names are looked up and their inode entered in
    /// the table. The super-root cannot be searched (`EINVAL`).
    pub fn nresolve(&mut self, dinum: u64, cnp: &str) -> (r: Result<u64, Hammer2Error>)
        requires
            old(self).wf(),
        ensures
            final(self).wf(),
            dinum == crate::inode::INUM_SUP_ROOT ==> r == Err::<u64, Hammer2Error>(
                Hammer2Error::Errno(Errno::EINVAL),
            ),
            dinum != crate::inode::INUM_SUP_ROOT && cnp@ == "."@ ==> r == Ok::<u64, Hammer2Error>(
                dinum,
            ),
            dinum != crate::inode::INUM_SUP_ROOT && cnp@ == ".."@ ==> r == (if old(self).nmap@.contains_key(dinum) {
                Ok::<u64, Hammer2Error>(old(self).nmap@[dinum].meta.iparent)
            } else {
                Err::<u64, Hammer2Error>(Hammer2Error::Errno(Errno::ENOENT))
            }),
            r matches Ok(inum) ==> cnp@ != "."@ && cnp@ != ".."@ ==> final(self).nmap@.contains_key(
                inum,
            ),
            r matches Ok(inum) ==> cnp@ != "."@ && cnp@ != ".."@ ==> ({
                let c = final(self).nmap@[inum].cid;
                &&& final(self).cmap@.contains_key(c)
                &&& final(self).cmap@[c].bref.typ == HAMMER2_BREF_TYPE_INODE
                &&& final(self).cmap@[c].data@.len() == 1024
                &&& crate::fs::le64(final(self).cmap@[c].data@, 0x58) == inum
                &&& resolved(*final(self), encode_utf8(cnp@), c)
            }),
            dinum != crate::inode::INUM_SUP_ROOT && cnp@ != "."@ && cnp@ != ".."@ && old(
                self,
            ).nmap@.contains_key(dinum) && no_entry_named(
                *old(self),
                old(self).nmap@[dinum].cid,
                encode_utf8(cnp@),
            ) ==> r == Err::<u64, Hammer2Error>(Hammer2Error::Errno(Errno::ENOENT)),
            forall|j: int|
                dinum != crate::inode::INUM_SUP_ROOT && cnp@ != "."@ && cnp@ != ".."@ && old(
                    self,
                ).nmap@.contains_key(dinum) && #[trigger] one_named(
                    *old(self),
                    old(self).nmap@[dinum].cid,
                    encode_utf8(cnp@),
                    j,
                ) && inode_filed_as(
                    *old(self),
                    old(self).cmap@[old(self).nmap@[dinum].cid].ccids@[j].cid,
                    crate::fs::le64(
                        media_after_load(
                            *old(self),
                            old(self).cmap@[old(self).nmap@[dinum].cid].ccids@[j].cid,
                        ),
                        0x58,
                    ),
                ) ==> r == Ok::<u64, Hammer2Error>(
                    crate::fs::le64(
                        media_after_load(
                            *old(self),
                            old(self).cmap@[old(self).nmap@[dinum].cid].ccids@[j].cid,
                        ),
                        0x58,
                    ),
                ),
    {
        if dinum == crate::inode::INUM_SUP_ROOT {
            return Err(Hammer2Error::Errno(Errno::EINVAL));
        }
        proof {
            reveal_strlit(".");
            reveal_strlit("..");
        }
        let n = cnp.unicode_len();
        if n == 1 && cnp.get_char(0) == '.' {
            assert(cnp@ =~= "."@);
            return Ok(dinum);
        }
        if n == 2 && cnp.get_char(0) == '.' && cnp.get_char(1) == '.' {
            assert(cnp@ =~= ".."@);
            return match self.nmap.get(&dinum) {
                Some(ip) => Ok(ip.meta.iparent),
                None => Err(Hammer2Error::Errno(Errno::ENOENT)),
            };
        }
        assert(cnp@ != "."@ && cnp@ != ".."@) by {
            if cnp@ == "."@ {
                assert(cnp@[0] == '.');
            }
            if cnp@ == ".."@ {
                assert(cnp@[0] == '.' && cnp@[1] == '.');
            }
        }
        let mut arg = crate::xop::XopNresolve::new(dinum, cnp);
        match self.xop_nresolve(&mut arg) {
            Ok(()) => {},
            Err(e) => return Err(e),
        }
        let ghost s2 = *self;
        match self.set_inode_from_xop(&arg.head) {
            Ok((inum, _)) => {
                proof {
                    let c = arg.head.cids@[0];
                    assert(arg.head.cids@ == seq![c]);
                    lemma_resolved_nmap_grows(s2, *self, encode_utf8(cnp@), c);
                }
                Ok(inum)
            },
            Err(e) => Err(Hammer2Error::Errno(e)),
        }
    }

    /// The entries of directory `dinum`: `.` and `..` first, then every
    /// entry found, each with its inode number, type and name; `ENOTDIR`
    /// for a file that is not a directory.
    pub fn readdir(&mut self, dinum: u64) -> (r: Result<Vec<Dirent>, Hammer2Error>)
        requires
            old(self).wf(),
        ensures
            final(self).wf(),
            !old(self).nmap@.contains_key(dinum) ==> r == Err::<Vec<Dirent>, Hammer2Error>(
                Hammer2Error::Errno(Errno::ENOENT),
            ),
            old(self).nmap@.contains_key(dinum) && old(self).nmap@[dinum].meta.typ
                != crate::fs::HAMMER2_OBJTYPE_DIRECTORY ==> r == Err::<Vec<Dirent>, Hammer2Error>(
                Hammer2Error::Errno(Errno::ENOTDIR),
            ),
            r matches Ok(v) ==> {
                let m = old(self).nmap@[dinum].meta;
                &&& v@.len() >= 2
                &&& v@[0].inum == m.inum && v@[0].typ == m.typ && v@[0].name@ == "."@
                &&& v@[1].inum == m.iparent & crate::fs::HAMMER2_DIRHASH_USERMSK
                &&& v@[1].typ == crate::fs::HAMMER2_OBJTYPE_DIRECTORY && v@[1].name@ == ".."@
                &&& entries_from_cache(v@, 2, final(self).cmap@)
            },
            old(self).nmap@.contains_key(dinum) && old(self).nmap@[dinum].meta.typ
                == crate::fs::HAMMER2_OBJTYPE_DIRECTORY && old(self).cmap@.contains_key(
                old(self).nmap@[dinum].cid,
            ) && empty_from(
                old(self).cmap@[old(self).nmap@[dinum].cid],
                2 | crate::fs::HAMMER2_DIRHASH_VISIBLE,
            ) ==> (r matches Ok(v) && v@.len() == 2),
            old(self).nmap@.contains_key(dinum) && old(self).nmap@[dinum].meta.typ
                == crate::fs::HAMMER2_OBJTYPE_DIRECTORY && entries_ready(
                *old(self),
                old(self).nmap@[dinum].cid,
                2 | crate::fs::HAMMER2_DIRHASH_VISIBLE,
            ) ==> (r matches Ok(v) && lists_entries(
                v@,
                final(self).cmap@,
                old(self).cmap@[old(self).nmap@[dinum].cid].ccids@,
            )),
    {
        let ghost s0 = *self;
        let ghost c0 = s0.nmap@[dinum].cid;
        let ghost kids = s0.cmap@[c0].ccids@;
        let ghost many = s0.nmap@.contains_key(dinum) && entries_ready(
            s0,
            c0,
            2 | crate::fs::HAMMER2_DIRHASH_VISIBLE,
        );
        let (inum, typ, iparent) = match self.nmap.get(&dinum) {
            Some(ip) => (ip.meta.inum, ip.meta.typ, ip.meta.iparent),
            None => return Err(Hammer2Error::Errno(Errno::ENOENT)),
        };
        if typ != crate::fs::HAMMER2_OBJTYPE_DIRECTORY {
            return Err(Hammer2Error::Errno(Errno::ENOTDIR));
        }
        let mut v: Vec<Dirent> = Vec::new();
        v.push(Dirent::new(inum, typ, "."));
        v.push(
            Dirent::new(
                iparent & crate::fs::HAMMER2_DIRHASH_USERMSK,
                crate::fs::HAMMER2_OBJTYPE_DIRECTORY,
                "..",
            ),
        );
        let mut arg = crate::xop::XopReaddir::new(
            dinum,
            2 | crate::fs::HAMMER2_DIRHASH_VISIBLE,
        );
        match self.xop_readdir(&mut arg) {
            Ok(()) => {},
            Err(e) => return Err(e),
        }
        let dirents = match arg.head.collect_all() {
            Ok(d) => d,
            Err(Errno::ENOENT) => Vec::new(),
            Err(e) => return Err(Hammer2Error::Errno(e)),
        };
        proof {
            if many {
                assert(entry_cids(kids).len() > 0);
                assert(dirents@ == entry_cids(kids));
            }
        }
        let mut i: usize = 0;
        while i < dirents.len()
            invariant
                self.wf(),
                i <= dirents@.len(),
                old(self).nmap@.contains_key(dinum),
                old(self).nmap@[dinum].meta.inum == inum,
                old(self).nmap@[dinum].meta.typ == typ,
                old(self).nmap@[dinum].meta.iparent == iparent,
                typ == crate::fs::HAMMER2_OBJTYPE_DIRECTORY,
                v@.len() >= 2,
                v@[0].inum == inum && v@[0].typ == typ && v@[0].name@ == "."@,
                v@[1].inum == iparent & crate::fs::HAMMER2_DIRHASH_USERMSK,
                v@[1].typ == crate::fs::HAMMER2_OBJTYPE_DIRECTORY && v@[1].name@ == ".."@,
                entries_from_cache(v@, 2, self.cmap@),
                v@.len() == 2 + i,
                old(self).cmap@.contains_key(old(self).nmap@[dinum].cid) && empty_from(
                    old(self).cmap@[old(self).nmap@[dinum].cid],
                    2 | crate::fs::HAMMER2_DIRHASH_VISIBLE,
                ) ==> dirents@.len() == 0,
                s0 == *old(self),
                many == (s0.nmap@.contains_key(dinum) && entries_ready(
                    s0,
                    c0,
                    2 | crate::fs::HAMMER2_DIRHASH_VISIBLE,
                )),
                c0 == s0.nmap@[dinum].cid,
                kids == s0.cmap@[c0].ccids@,
                many ==> s0.wf() && dirents@ == entry_cids(kids) && cache_grows(s0.cmap@, self.cmap@),
                many ==> last_kept(s0, *self, c0, kids.len() as int),
                many ==> forall|m: int|
                    0 <= m < i ==> dirent_of(self.cmap@[(#[trigger] kids[m]).cid]) == Some(
                        (v@[m + 2].inum, v@[m + 2].typ, v@[m + 2].name@),
                    ),
            decreases dirents@.len() - i,
        {
            let ghost v0 = v@;
            proof {
                if many {
                    let lk = 2 | crate::fs::HAMMER2_DIRHASH_VISIBLE;
                    assert(dirents@[i as int] == kids[i as int].cid);
                    lemma_entry_placed(s0, c0, lk, i as int);
                    if entry_ready(s0, c0, kids[i as int]) {
                        lemma_entry_kept(s0, *self, c0, lk, i as int);
                    } else {
                        let d = kids[i as int].cid;
                        if i < kids.len() - 1 {
                            assert(entry_ready(s0, c0, kids[i as int]));
                        }
                        assert(entry_at_hand(s0, c0, kids[i as int]));
                        assert(same_place(s0.cmap@[d], self.cmap@[d]));
                        assert(self.cmap@[d].data@ == ready_media(s0));
                    }
                }
            }
            let chain = match self.get_chain(dirents[i]) {
                Ok(c) => c,
                Err(e) => return Err(Hammer2Error::Errno(e)),
            };
            let ghost cid = dirents@[i as int];
            if chain.bref.typ == HAMMER2_BREF_TYPE_INODE {
                if chain.data.len() != 1024 {
                    return Err(Hammer2Error::Errno(Errno::EINVAL));
                }
                let ipdata = chain.as_inode_data();
                match chain.get_name() {
                    Some(s) => {
                        let d = Dirent::new(
                            ipdata.meta.inum & crate::fs::HAMMER2_DIRHASH_USERMSK,
                            ipdata.meta.typ,
                            s.as_str(),
                        );
                        assert(dirent_of(self.cmap@[cid]) == Some((d.inum, d.typ, d.name@)));
                        v.push(d);
                    },
                    None => return Err(Hammer2Error::Errno(Errno::EINVAL)),
                }
            } else if chain.bref.typ == HAMMER2_BREF_TYPE_DIRENT {
                let head: crate::fs::Hammer2DirentHead = chain.bref.embed_as();
                match chain.get_name() {
                    Some(s) => {
                        let d = Dirent::new(head.inum, head.typ, s.as_str());
                        assert(dirent_of(self.cmap@[cid]) == Some((d.inum, d.typ, d.name@)));
                        v.push(d);
                    },
                    None => return Err(Hammer2Error::Errno(Errno::EINVAL)),
                }
            } else {
                return Err(Hammer2Error::Errno(Errno::EINVAL));
            }
            proof {
                assert forall|k: int| 2 <= k < v@.len() implies exists|c: u64|
                    #![trigger self.cmap@[c]]
                    self.cmap@.contains_key(c) && dirent_of(self.cmap@[c]) == Some(
                        ((#[trigger] v@[k]).inum, v@[k].typ, v@[k].name@),
                    ) by {
                    if k < v0.len() {
                        assert(v@[k] == v0[k]);
                    } else {
                        assert(self.cmap@.contains_key(cid));
                    }
                }
                if many {
                    assert forall|m: int| 0 <= m < i + 1 implies dirent_of(
                        self.cmap@[(#[trigger] kids[m]).cid],
                    ) == Some((v@[m + 2].inum, v@[m + 2].typ, v@[m + 2].name@)) by {
                        if m < i {
                            assert(v@[m + 2] == v0[m + 2]);
                        }
                    }
                }
            }
            i = i + 1;
        }
        Ok(v)
    }

    /// The device block of logical block `lbn` of file `inum`: the raw
    /// offset of its media less the start of its volume in device blocks;
    /// `ENODEV` when no volume holds it.
    pub fn bmap(&mut self, inum: u64, lbn: u64) -> (r: Result<u64, Hammer2Error>)
        requires
            old(self).wf(),
            lbn < 0x1_0000_0000_0000,
        ensures
            final(self).wf(),
            only_cache(*old(self), *final(self)),
            !old(self).nmap@.contains_key(inum) ==> r == Err::<u64, Hammer2Error>(
                Hammer2Error::Errno(Errno::ENOENT),
            ),
            r matches Ok(b) ==> exists|p: u64, c: u64|
                #![trigger final(self).cmap@[p], final(self).cmap@[c]]
                final(self).cmap@.contains_key(c) && bmap_of(
                    final(self).fso.volumes@,
                    raw_off(final(self).cmap@[c].bref),
                ) == Some(b) && (c == p || child_found(
                    final(self).cmap@,
                    p,
                    c,
                    (lbn * 65536) as u64,
                    (lbn * 65536) as u64,
                )),
            old(self).nmap@.contains_key(inum) && block_at_hand(
                *old(self),
                old(self).nmap@[inum].cid,
                (lbn * 65536) as u64,
            ) && finds_nothing(
                old(self).cmap@[old(self).nmap@[inum].cid],
                (lbn * 65536) as u64,
                (lbn * 65536) as u64,
            ) ==> r == Err::<u64, Hammer2Error>(Hammer2Error::Errno(Errno::ENOENT)),
            forall|j: int|
                old(self).nmap@.contains_key(inum) && block_at_hand(
                    *old(self),
                    old(self).nmap@[inum].cid,
                    (lbn * 65536) as u64,
                ) && #[trigger] finds_one(
                    old(self).cmap@[old(self).nmap@[inum].cid],
                    (lbn * 65536) as u64,
                    (lbn * 65536) as u64,
                    j,
                ) && leaf_child_loads(
                    *old(self),
                    old(self).nmap@[inum].cid,
                    old(self).cmap@[old(self).nmap@[inum].cid].ccids@[j].cid,
                    LOOKUP_ALWAYS,
                ) ==> r == bmap_answer(
                    old(self).fso.volumes@,
                    raw_off(old(self).cmap@[old(self).cmap@[old(self).nmap@[inum].cid].ccids@[j].cid].bref),
                ),
            old(self).nmap@.contains_key(inum) && old(self).cmap@.contains_key(old(self).nmap@[inum].cid)
                && direct_inode(old(self).cmap@[old(self).nmap@[inum].cid]) ==> r == bmap_answer(
                old(self).fso.volumes@,
                raw_off(old(self).cmap@[old(self).nmap@[inum].cid].bref),
            ),
    {
        let mut arg = crate::xop::XopBmap::new(inum, lbn);
        match self.xop_bmap(&mut arg) {
            Ok(()) => {},
            Err(e) => return Err(e),
        }
        if arg.offset == crate::fs::HAMMER2_OFF_MASK {
            return Err(Hammer2Error::Errno(Errno::EINVAL));
        }
        let off = arg.offset;
        match self.fso.get_volume(off) {
            Some(vol) => {
                proof {
                    crate::ondisk::lemma_first_volume_with(self.fso.volumes@, (off - off % 64) as u64);
                }
                Ok(off - vol.offset / crate::subs::DEV_BSIZE)
            },
            None => Err(Hammer2Error::Errno(Errno::ENODEV)),
        }
    }

    /// The target of symbolic link `inum`, at most `size` bytes of it;
    /// `EINVAL` for a file that is not a link.
    pub fn readlink(&mut self, inum: u64, size: u64) -> (r: Result<Vec<u8>, Hammer2Error>)
        requires
            old(self).wf(),
        ensures
            final(self).wf(),
            !old(self).nmap@.contains_key(inum) ==> r == Err::<Vec<u8>, Hammer2Error>(
                Hammer2Error::Errno(Errno::ENOENT),
            ),
            old(self).nmap@.contains_key(inum) && old(self).nmap@[inum].meta.typ
                != crate::fs::HAMMER2_OBJTYPE_SOFTLINK ==> r == Err::<Vec<u8>, Hammer2Error>(
                Hammer2Error::Errno(Errno::EINVAL),
            ),
            r matches Ok(v) ==> pread_len_ok(v@.len(), old(self).nmap@[inum].meta.size, size, 0),
            r matches Ok(v) ==> reads_direct(*final(self), old(self).nmap@[inum].cid, v@, 0),
            r matches Ok(v) ==> (all_ready(*old(self), old(self).nmap@[inum].cid, 0, v@.len() as int)
                ==> reads_blocks(*final(self), old(self).nmap@[inum].cid, v@, 0)),
            old(self).nmap@.contains_key(inum) && old(self).nmap@[inum].meta.typ
                == crate::fs::HAMMER2_OBJTYPE_SOFTLINK && read_needs_nothing(
                *old(self),
                old(self).nmap@[inum],
                size,
                0,
            ) ==> r is Ok,
            old(self).nmap@.contains_key(inum) && old(self).nmap@[inum].meta.typ
                == crate::fs::HAMMER2_OBJTYPE_SOFTLINK && reads_cached(
                *old(self),
                old(self).nmap@[inum],
                size,
                0,
            ) ==> r is Ok,
    {
        let typ = match self.nmap.get(&inum) {
            Some(ip) => ip.meta.typ,
            None => return Err(Hammer2Error::Errno(Errno::ENOENT)),
        };
        if typ != crate::fs::HAMMER2_OBJTYPE_SOFTLINK {
            return Err(Hammer2Error::Errno(Errno::EINVAL));
        }
        self.pread_impl(inum, size, 0)
    }

    /// Reads up to `size` bytes of regular file `inum` from `offset`;
    /// `EISDIR` for a directory, `EINVAL` for other files that are not
    /// regular.
    pub fn pread(&mut self, inum: u64, size: u64, offset: u64) -> (r: Result<Vec<u8>, Hammer2Error>)
        requires
            old(self).wf(),
        ensures
            final(self).wf(),
            !old(self).nmap@.contains_key(inum) ==> r == Err::<Vec<u8>, Hammer2Error>(
                Hammer2Error::Errno(Errno::ENOENT),
            ),
            old(self).nmap@.contains_key(inum) && old(self).nmap@[inum].meta.typ
                == crate::fs::HAMMER2_OBJTYPE_DIRECTORY ==> r == Err::<Vec<u8>, Hammer2Error>(
                Hammer2Error::Errno(Errno::EISDIR),
            ),
            old(self).nmap@.contains_key(inum) && old(self).nmap@[inum].meta.typ
                != crate::fs::HAMMER2_OBJTYPE_DIRECTORY && old(self).nmap@[inum].meta.typ
                != crate::fs::HAMMER2_OBJTYPE_REGFILE ==> r == Err::<Vec<u8>, Hammer2Error>(
                Hammer2Error::Errno(Errno::EINVAL),
            ),
            r matches Ok(v) ==> pread_len_ok(v@.len(), old(self).nmap@[inum].meta.size, size, offset),
            r matches Ok(v) ==> reads_direct(*final(self), old(self).nmap@[inum].cid, v@, offset),
            r matches Ok(v) ==> (all_ready(*old(self), old(self).nmap@[inum].cid, offset, v@.len() as int)
                ==> reads_blocks(*final(self), old(self).nmap@[inum].cid, v@, offset)),
            old(self).nmap@.contains_key(inum) && old(self).nmap@[inum].meta.typ
                == crate::fs::HAMMER2_OBJTYPE_REGFILE && read_needs_nothing(
                *old(self),
                old(self).nmap@[inum],
                size,
                offset,
            ) ==> r is Ok,
            old(self).nmap@.contains_key(inum) && old(self).nmap@[inum].meta.typ
                == crate::fs::HAMMER2_OBJTYPE_REGFILE && reads_cached(
                *old(self),
                old(self).nmap@[inum],
                size,
                offset,
            ) ==> r is Ok,
            forall|j: int, k: int|
                old(self).nmap@.contains_key(inum) && old(self).nmap@[inum].meta.typ
                    == crate::fs::HAMMER2_OBJTYPE_REGFILE && #[trigger] reads_one_indirect(
                    *old(self),
                    old(self).nmap@[inum],
                    size,
                    offset,
                    j,
                    k,
                ) ==> (r matches Ok(v) && v@ == indirect_leaf_data(*old(self), old(self).nmap@[inum], j, k).take(
                    read_len(old(self).nmap@[inum].meta.size, size, offset),
                )),
    {
        let typ = match self.nmap.get(&inum) {
            Some(ip) => ip.meta.typ,
            None => return Err(Hammer2Error::Errno(Errno::ENOENT)),
        };
        if typ == crate::fs::HAMMER2_OBJTYPE_DIRECTORY {
            return Err(Hammer2Error::Errno(Errno::EISDIR));
        }
        if typ != crate::fs::HAMMER2_OBJTYPE_REGFILE {
            return Err(Hammer2Error::Errno(Errno::EINVAL));
        }
        self.pread_impl(inum, size, offset)
    }

    /// Reads up to `size` bytes of file `inum` from `offset`, block by
    /// block, stopping at the end of the file.
    #[verifier::rlimit(60)]
    #[verifier::spinoff_prover]
    fn pread_impl(&mut self, inum: u64, size: u64, offset: u64) -> (r: Result<Vec<u8>, Hammer2Error>)
        requires
            old(self).wf(),
        ensures
            final(self).wf(),
            r is Ok ==> old(self).nmap@.contains_key(inum),
            r matches Ok(v) ==> pread_len_ok(v@.len(), old(self).nmap@[inum].meta.size, size, offset),
            r matches Ok(v) ==> reads_direct(*final(self), old(self).nmap@[inum].cid, v@, offset),
            old(self).nmap@.contains_key(inum) && read_needs_nothing(
                *old(self),
                old(self).nmap@[inum],
                size,
                offset,
            ) ==> r is Ok,
            r matches Ok(v) ==> (all_ready(*old(self), old(self).nmap@[inum].cid, offset, v@.len() as int)
                ==> reads_blocks(*final(self), old(self).nmap@[inum].cid, v@, offset)),
            old(self).nmap@.contains_key(inum) && reads_cached(
                *old(self),
                old(self).nmap@[inum],
                size,
                offset,
            ) ==> r is Ok,
            forall|j: int, k: int|
                old(self).nmap@.contains_key(inum) && #[trigger] reads_one_indirect(
                    *old(self),
                    old(self).nmap@[inum],
                    size,
                    offset,
                    j,
                    k,
                ) ==> (r matches Ok(v) && v@ == indirect_leaf_data(*old(self), old(self).nmap@[inum], j, k).take(
                    read_len(old(self).nmap@[inum].meta.size, size, offset),
                )),
    {
        let ghost one_ind = old(self).nmap@.contains_key(inum) && exists|j: int, k: int|
            #[trigger] reads_one_indirect(*old(self), old(self).nmap@[inum], size, offset, j, k);
        let ghost (j4, k4) = choose|j: int, k: int|
            #[trigger] reads_one_indirect(*old(self), old(self).nmap@[inum], size, offset, j, k);
        let ghost dd = indirect_leaf_data(*old(self), old(self).nmap@[inum], j4, k4);
        proof {
            let h = *old(self);
            let ip = h.nmap@[inum];
            assert forall|j: int, k: int|
                old(self).nmap@.contains_key(inum) && #[trigger] reads_one_indirect(h, ip, size, offset, j, k)
                implies one_ind && j == j4 && k == k4 by {
                let v = h.cmap@[ip.cid].ccids@;
                assert(crate::chain::elem_order(offset, offset, v[j]) == crate::keys::KeyOrder::Equal);
                assert(crate::chain::elem_order(offset, offset, v[j4]) == crate::keys::KeyOrder::Equal);
                let w = h.cmap@[v[j4].cid].ccids@;
                assert(crate::chain::elem_order(offset, offset, w[k]) == crate::keys::KeyOrder::Equal);
                assert(crate::chain::elem_order(offset, offset, w[k4]) == crate::keys::KeyOrder::Equal);
            }
        }
        let ipsize = match self.nmap.get(&inum) {
            Some(ip) => ip.meta.size,
            None => return Err(Hammer2Error::Errno(Errno::ENOENT)),
        };
        let ghost nm = self.nmap@;
        let ghost c = nm[inum].cid;
        let ghost easy = read_needs_nothing(*old(self), nm[inum], size, offset);
        let ghost direct = easy && !(size == 0 || offset >= ipsize);
        let ghost len: int = if offset >= ipsize {
            0
        } else if size < ipsize - offset {
            size as int
        } else {
            ipsize - offset
        };
        let ghost ac = all_ready(*old(self), c, offset, len);
        let ghost lastb = base_of(offset, len - 1);
        let ghost gd = reads_cached(*old(self), nm[inum], size, offset);
        let mut out: Vec<u8> = Vec::new();
        let mut resid = size;
        let mut off = offset;
        let mut total: u64 = 0;
        while resid > 0 && off < ipsize
            invariant
                self.wf(),
                self.nmap@ == nm,
                nm == old(self).nmap@,
                nm.contains_key(inum) && nm[inum].meta.size == ipsize,
                c == nm[inum].cid,
                out@.len() == total,
                total + resid == size,
                off == offset + total,
                total > 0 ==> off <= ipsize,
                total > 0 ==> self.cmap@.contains_key(c) && !inode_unread(self.cmap@[c]),
                total > 0 ==> reads_direct(*self, c, out@, offset),
                easy == read_needs_nothing(*old(self), nm[inum], size, offset),
                direct == (easy && !(size == 0 || offset >= ipsize)),
                easy && !direct ==> total == 0 && !(resid > 0 && off < ipsize),
                direct ==> direct_readable(*self, c) && ipsize <= crate::fs::le64(
                    self.cmap@[c].data@,
                    0x60,
                ) && (total > 0 ==> off >= ipsize || resid == 0) && ipsize <= 512,
                len == (if offset >= ipsize {
                    0
                } else if size < ipsize - offset {
                    size as int
                } else {
                    ipsize - offset
                }),
                ac == all_ready(*old(self), c, offset, len),
                lastb == base_of(offset, len - 1),
                ac ==> (forall|i: int|
                    0 <= i < len && base_of(offset, i) != lastb ==> #[trigger] block_cached(
                        *self,
                        c,
                        base_of(offset, i),
                    )),
                ac ==> (total < len ==> block_at_hand(*self, c, lastb)),
                ac ==> reads_blocks(*self, c, out@, offset),
                gd == reads_cached(*old(self), nm[inum], size, offset),
                gd ==> forall|i: int|
                    0 <= i < len ==> #[trigger] block_holds(
                        *self,
                        c,
                        base_of(offset, i),
                        block_need(ipsize, base_of(offset, i)),
                    ),
                total <= len || total == 0,
                total == 0 || off % 65536 == 0 || !(resid > 0 && off < ipsize),
                one_ind ==> reads_one_indirect(*old(self), nm[inum], size, offset, j4, k4),
                forall|j: int, k: int|
                    nm.contains_key(inum) && #[trigger] reads_one_indirect(*old(self), nm[inum], size, offset, j, k)
                        ==> one_ind && j == j4 && k == k4,
                dd == indirect_leaf_data(*old(self), nm[inum], j4, k4),
                one_ind && total == 0 ==> *self == *old(self),
                one_ind && total > 0 ==> total == len && out@ == dd.take(len) && !(resid > 0 && off
                    < ipsize),
            decreases ipsize - off,
        {
            let lbase = off & !0xFFFFu64;
            assert(off & !0xFFFFu64 == off - off % 65536) by (bit_vector);
            let ghost s0 = *self;
            proof {
                if ac {
                    assert(total < len);
                    assert(block_pos(offset, total as int) == off % 65536);
                    assert(base_of(offset, total as int) == lbase);
                    lemma_base_order(offset + total, offset + len - 1);
                    assert(lbase <= lastb);
                    if lbase != lastb {
                        assert(block_cached(*self, c, base_of(offset, total as int)));
                        lemma_cached_at_hand(*self, c, lbase);
                    }
                }
                if gd {
                    assert(total < len);
                    assert(block_pos(offset, total as int) == off % 65536);
                    assert(base_of(offset, total as int) == lbase);
                    assert(block_holds(*self, c, lbase, block_need(ipsize, lbase)));
                    lemma_cached_at_hand(*self, c, lbase);
                }
            }
            let mut arg = crate::xop::XopRead::new(inum, lbase);
            proof {
                if one_ind && total == 0 {
                    assert(lbase == offset);
                    assert(finds_through_indirect(*self, c, lbase, RESOLVE_ALWAYS, j4, k4));
                    assert(child_readable(self.cmap@[indirect_leaf(*self, c, j4, k4)]));
                    assert(arg.head.inum1 == inum && arg.lbase == lbase);
                }
            }
            let b = match self.xop_read(&mut arg) {
                Ok(b) => b,
                Err(e) => return Err(e),
            };
            proof {
                if one_ind && total == 0 {
                    assert(b@ == dd);
                }
                if gd {
                    lemma_block_holds_len(s0, c, lbase, block_need(ipsize, lbase), b@);
                }
                if direct {
                    assert(same_place(s0.cmap@[c], self.cmap@[c]));
                    assert(self.cmap@[c].data@ == s0.cmap@[c].data@);
                    assert(direct_readable(*self, c));
                    assert(b@.len() == crate::fs::le64(self.cmap@[c].data@, 0x60));
                    assert(off % 65536 == off);
                }
            }
            if b.len() > PBUFSIZE_USIZE {
                return Err(Hammer2Error::Errno(Errno::EINVAL));
            }
            let loff = off - lbase;
            let mut n = 65536 - loff;
            if n > resid {
                n = resid;
            }
            if n > ipsize - off {
                n = ipsize - off;
            }
            if loff + n > b.len() as u64 {
                return Err(Hammer2Error::Errno(Errno::EINVAL));
            }
            let lo = loff as usize;
            let hi = (loff + n) as usize;
            let piece = vstd::slice::slice_subrange(b.as_slice(), lo, hi);
            let mut k: usize = 0;
            let ghost out0 = out@;
            while k < piece.len()
                invariant
                    k <= piece@.len(),
                    out@ == out0 + piece@.subrange(0, k as int),
                decreases piece@.len() - k,
            {
                out.push(piece[k]);
                k = k + 1;
                assert(out@ =~= out0 + piece@.subrange(0, k as int));
            }
            proof {
                assert(out@ =~= out0 + piece@);
                if self.cmap@.contains_key(c) && direct_inode(self.cmap@[c]) {
                    let d = direct_data(self.cmap@[c]);
                    assert(b@ == d);
                    if total > 0 {
                        assert(same_place(s0.cmap@[c], self.cmap@[c]));
                        assert(s0.cmap@[c].data@.len() == 1024);
                        assert(self.cmap@[c].data@ == s0.cmap@[c].data@);
                        assert(direct_inode(s0.cmap@[c]));
                        assert(direct_data(s0.cmap@[c]) == d);
                    }
                    lemma_direct_read_extend(out0, piece@, d, offset, total as int, lo as int, n as int);
                    assert(direct_read(out@, d, offset));
                }
                assert(reads_direct(*self, c, out@, offset));
                if gd {
                    assert forall|i: int|
                        0 <= i < len implies #[trigger] block_holds(
                        *self,
                        c,
                        base_of(offset, i),
                        block_need(ipsize, base_of(offset, i)),
                    ) by {
                        lemma_block_holds_stable(
                            s0,
                            *self,
                            c,
                            base_of(offset, i),
                            block_need(ipsize, base_of(offset, i)),
                        );
                    }
                }
                if ac {
                    assert forall|i: int| 0 <= i < total implies #[trigger] block_cached(
                        s0,
                        c,
                        base_of(offset, i),
                    ) by {
                        lemma_base_order(offset + i, off as int);
                        lemma_base_order(offset + total, offset + len - 1);
                        assert(base_of(offset, i) != lastb);
                    }
                    lemma_read_blocks_step(
                        s0,
                        *self,
                        c,
                        out0,
                        b@,
                        offset,
                        total as int,
                        lo as int,
                        n as int,
                        len,
                    );
                    assert(piece@ == b@.subrange(lo as int, lo + n));
                    assert forall|i: int|
                        0 <= i < len && base_of(offset, i) != lastb implies #[trigger] block_cached(
                        *self,
                        c,
                        base_of(offset, i),
                    ) by {
                        lemma_block_stable(s0, *self, c, base_of(offset, i));
                    }
                    if lbase != lastb {
                        assert(block_cached(s0, c, lbase));
                        lemma_at_hand_kept(s0, *self, c, lastb);
                    } else {
                        lemma_base_order(offset + len - 1, lbase + 65536);
                        assert(total + n == len);
                    }
                }
            }
            proof {
                if one_ind && total == 0 {
                    assert(n == len);
                    assert(!(resid - n > 0 && off + n < ipsize));
                    assert(out@ =~= dd.take(len));
                }
            }
            total = total + n;
            off = off + n;
            resid = resid - n;
        }
        Ok(out)
    }

    /// The status of file `inum`; `ENOENT` when it is not in the table.
    pub fn stat(&self, inum: u64) -> (r: Result<Stat, Errno>)
        requires
            self.nmap@.contains_key(inum) ==> self.nmap@[inum].meta.nlinks <= u32::MAX,
        ensures
            !self.nmap@.contains_key(inum) ==> r == Err::<Stat, Errno>(Errno::ENOENT),
            self.nmap@.contains_key(inum) ==> (r matches Ok(st) && stat_matches(
                st,
                self.nmap@[inum].meta,
            )),
    {
        let ip = match self.nmap.get(&inum) {
            Some(ip) => ip,
            None => return Err(Errno::ENOENT),
        };
        let m = &ip.meta;
        let mode = mode_type_exec(m.typ);
        let blocks = if m.typ == crate::fs::HAMMER2_OBJTYPE_DIRECTORY {
            crate::fs::HAMMER2_INODE_BYTES
        } else {
            m.size
        } / crate::subs::DEV_BSIZE;
        Ok(
            Stat {
                st_dev: 0,
                st_ino: m.inum,
                st_nlink: m.nlinks as u32,
                st_mode: m.mode | mode,
                st_uid: crate::subs::conv_uuid_to_unix_xid_from_bytes(m.uid.as_slice()),
                st_gid: crate::subs::conv_uuid_to_unix_xid_from_bytes(m.gid.as_slice()),
                st_rdev: 0,
                st_size: m.size,
                st_blksize: 65536,
                st_blocks: blocks,
                st_atime: crate::subs::conv_time_to_timespec(m.atime),
                st_mtime: crate::subs::conv_time_to_timespec(m.mtime),
                st_ctime: crate::subs::conv_time_to_timespec(m.ctime),
            },
        )
    }

    /// The status of the file system: its size and free space in physical
    /// buffers, and the inode count of the PFS root.
    pub fn statfs(&mut self) -> (r: Result<StatFs, Hammer2Error>)
        requires
            old(self).wf(),
        ensures
            final(self).wf(),
            r matches Ok(st) ==> {
                &&& st.f_bsize == 65536 && st.f_frsize == 65536
                &&& st.f_blocks == old(self).voldata.allocator_size / 65536
                &&& st.f_bfree == old(self).voldata.allocator_free / 65536
                &&& st.f_bavail == old(self).voldata.allocator_free / 65536
                &&& st.f_ffree == 0 && st.f_namelen == 0
                &&& old(self).nmap@.contains_key(crate::inode::INUM_PFS_ROOT)
                &&& final(self).cmap@.contains_key(final(self).nmap@[crate::inode::INUM_PFS_ROOT].cid)
                &&& st.f_files == crate::fs::le64(
                    final(self).cmap@[final(self).nmap@[crate::inode::INUM_PFS_ROOT].cid].bref.embed@,
                    8,
                )
            },
            r is Ok <==> old(self).nmap@.contains_key(crate::inode::INUM_PFS_ROOT) && old(
                self,
            ).nmap@[crate::inode::INUM_PFS_ROOT].cid != CID_NONE && load_succeeds(
                *old(self),
                old(self).nmap@[crate::inode::INUM_PFS_ROOT].cid,
                RESOLVE_MAYBE,
            ),
            !old(self).nmap@.contains_key(crate::inode::INUM_PFS_ROOT) ==> r == Err::<
                StatFs,
                Hammer2Error,
            >(Hammer2Error::Errno(Errno::ENOENT)),
    {
        let cid = match self.get_inode_chain(crate::inode::INUM_PFS_ROOT, RESOLVE_MAYBE) {
            Ok(c) => c,
            Err(e) => return Err(e),
        };
        let stats: crate::fs::Hammer2BlockrefEmbedStats = match self.get_chain(cid) {
            Ok(c) => c.bref.embed_as(),
            Err(e) => return Err(Hammer2Error::Errno(e)),
        };
        let bsize: u64 = 65536;
        Ok(
            StatFs {
                f_bsize: 65536,
                f_blocks: self.voldata.allocator_size / bsize,
                f_bfree: self.voldata.allocator_free / bsize,
                f_bavail: self.voldata.allocator_free / bsize,
                f_files: stats.inode_count,
                f_ffree: 0,
                f_namelen: 0,
                f_frsize: 65536,
            },
        )
    }
}

/// The file system part and the PFS label of a mount specification: the
/// label follows the first `@`; without one, or with nothing after it, the
/// label is the default one.
pub open spec fn mount_spec_parts(spec: Seq<char>) -> (Seq<char>, Seq<char>) {
    let i = crate::plan::find_char(spec, '@');
    if i < spec.len() && i + 1 < spec.len() {
        (spec.take(i), spec.subrange(i + 1, spec.len() as int))
    } else {
        (spec.take(i), crate::inode::PFS_LABEL_DEFAULT@)
    }
}

/// Splits a mount specification into the file system part and the PFS
/// label.
pub fn parse_mount_spec<'a>(spec: &'a str) -> (r: (&'a str, &'a str))
    ensures
        (r.0@, r.1@) == mount_spec_parts(spec@),
        r.1@.len() > 0,
{
    proof {
        crate::plan::lemma_find_char(spec@, '@');
        reveal_strlit("DATA");
    }
    let i = crate::plan::find_char_exec(spec, '@');
    let n = spec.unicode_len();
    let head = spec.substring_char(0, i);
    assert(head@ =~= spec@.take(i as int));
    if i < n && i + 1 < n {
        let label = spec.substring_char(i + 1, n);
        (head, label)
    } else {
        (head, crate::inode::PFS_LABEL_DEFAULT)
    }
}

/// What mounting decides before it opens a device: the options, then the
/// file system part and the label of the specification; `EINVAL` for an
/// empty file system part.
pub open spec fn mount_prepare_spec(spec: Seq<char>, args: Seq<Seq<char>>) -> Result<
    (crate::option::Opt, Seq<char>, Seq<char>),
    Errno,
> {
    match crate::option::opt_parse(args) {
        Err(e) => Err(e),
        Ok(o) => {
            let (fs, label) = mount_spec_parts(spec);
            if fs.len() == 0 {
                Err(Errno::EINVAL)
            } else {
                Ok((o, fs, label))
            }
        },
    }
}

/// Parses the mount options and splits the mount specification, as
/// mounting does before it opens a device.
pub fn mount_prepare<'a>(spec: &'a str, args: &[&str]) -> (r: Result<
    (crate::option::Opt, &'a str, &'a str),
    Errno,
>)
    ensures
        match mount_prepare_spec(spec@, crate::option::args_view(args@)) {
            Ok((o, fs, label)) => r matches Ok(t) && t.0 == o && t.1@ == fs && t.2@ == label,
            Err(e) => r == Err::<(crate::option::Opt, &'a str, &'a str), Errno>(e),
        },
{
    let opt = match crate::option::Opt::new(args) {
        Ok(o) => o,
        Err(e) => return Err(e),
    };
    let (fs, label) = parse_mount_spec(spec);
    if fs.unicode_len() == 0 {
        return Err(Errno::EINVAL);
    }
    Ok((opt, fs, label))
}

impl Hammer2 {
    /// Enters the chain of the volume header: a volume block reference over
    /// the root volume header's image.
    fn init_vchain(&mut self) -> (r: Result<(), Errno>)
        requires
            old(self).wf(),
        ensures
            final(self).wf(),
            r is Ok <==> !old(self).cmap@.contains_key(CID_VCHAIN),
            r is Err ==> r == Err::<(), Errno>(Errno::EEXIST) && final(self).cmap@ == old(self).cmap@,
            r is Ok ==> final(self).cmap@ == old(self).cmap@.insert(CID_VCHAIN, final(self).cmap@[CID_VCHAIN])
                && final(self).cmap@[CID_VCHAIN].bref.typ == HAMMER2_BREF_TYPE_VOLUME
                && final(self).cmap@[CID_VCHAIN].bref.data_off == 16
                && final(self).cmap@[CID_VCHAIN].bref.mirror_tid == old(self).voldata.mirror_tid
                && final(self).cmap@[CID_VCHAIN].data@ == old(self).vimage@,
            final(self).media == old(self).media && final(self).vimage@ == old(self).vimage@,
            r is Ok ==> final(self).cmap@.contains_key(CID_VCHAIN),
            forall|k: u64|
                #[trigger] old(self).cmap@.contains_key(k) ==> final(self).cmap@.contains_key(k),
            final(self).nmap@ == old(self).nmap@ && final(self).imap == old(self).imap,
            final(self).fso == old(self).fso && final(self).voldata == old(self).voldata,
            final(self).opt == old(self).opt && final(self).label@ == old(self).label@,
    {
        let mut bref = Hammer2Blockref::new(HAMMER2_BREF_TYPE_VOLUME);
        bref.data_off = 16;
        bref.mirror_tid = self.voldata.mirror_tid;
        bref.modify_tid = bref.mirror_tid;
        self.install_header_chain(&bref, CID_VCHAIN)
    }

    /// Enters the chain of the freemap: a freemap block reference, checked
    /// by the freemap method, over the root volume header's image.
    fn init_fchain(&mut self) -> (r: Result<(), Errno>)
        requires
            old(self).wf(),
        ensures
            final(self).wf(),
            r is Ok <==> !old(self).cmap@.contains_key(CID_FCHAIN),
            r is Err ==> r == Err::<(), Errno>(Errno::EEXIST) && final(self).cmap@ == old(self).cmap@,
            r is Ok ==> final(self).cmap@ == old(self).cmap@.insert(CID_FCHAIN, final(self).cmap@[CID_FCHAIN])
                && final(self).cmap@[CID_FCHAIN].bref.typ == HAMMER2_BREF_TYPE_FREEMAP
                && final(self).cmap@[CID_FCHAIN].bref.data_off == 16
                && final(self).cmap@[CID_FCHAIN].bref.mirror_tid == old(self).voldata.mirror_tid
                && final(self).cmap@[CID_FCHAIN].data@ == old(self).vimage@,
            final(self).media == old(self).media && final(self).vimage@ == old(self).vimage@,
            r is Ok ==> final(self).cmap@.contains_key(CID_FCHAIN),
            forall|k: u64|
                #[trigger] old(self).cmap@.contains_key(k) ==> final(self).cmap@.contains_key(k),
            final(self).nmap@ == old(self).nmap@ && final(self).imap == old(self).imap,
            final(self).fso == old(self).fso && final(self).voldata == old(self).voldata,
            final(self).opt == old(self).opt && final(self).label@ == old(self).label@,
    {
        let mut bref = Hammer2Blockref::new(HAMMER2_BREF_TYPE_FREEMAP);
        bref.data_off = 16;
        bref.mirror_tid = self.voldata.mirror_tid;
        bref.modify_tid = bref.mirror_tid;
        bref.methods = crate::fs::enc_check(crate::fs::HAMMER2_CHECK_FREEMAP) | crate::fs::enc_comp(
            crate::fs::HAMMER2_COMP_NONE,
        );
        self.install_header_chain(&bref, CID_FCHAIN)
    }

    /// Enters a chain over the root volume header's image under a fixed id;
    /// `EEXIST` when the id is taken.
    fn install_header_chain(&mut self, bref: &Hammer2Blockref, cid: Cid) -> (r: Result<(), Errno>)
        requires
            old(self).wf(),
            bref.typ == HAMMER2_BREF_TYPE_VOLUME || bref.typ == HAMMER2_BREF_TYPE_FREEMAP,
            bref.key == 0 && bref.keybits == 0,
            cid == CID_VCHAIN || cid == CID_FCHAIN,
        ensures
            final(self).wf(),
            r is Ok <==> !old(self).cmap@.contains_key(cid),
            r is Err ==> r == Err::<(), Errno>(Errno::EEXIST) && final(self).cmap@ == old(self).cmap@,
            r is Ok ==> final(self).cmap@ == old(self).cmap@.insert(cid, final(self).cmap@[cid])
                && header_chain(final(self).cmap@[cid], *bref, cid, old(self).vimage@),
            final(self).media == old(self).media && final(self).vimage@ == old(self).vimage@,
            r is Ok ==> final(self).cmap@.contains_key(cid),
            forall|k: u64|
                #[trigger] old(self).cmap@.contains_key(k) ==> final(self).cmap@.contains_key(k),
            final(self).nmap@ == old(self).nmap@ && final(self).imap == old(self).imap,
            final(self).fso == old(self).fso && final(self).voldata == old(self).voldata,
            final(self).opt == old(self).opt && final(self).label@ == old(self).label@,
    {
        if self.cmap.contains_key(&cid) {
            return Err(Errno::EEXIST);
        }
        let mut chain = Chain::new(bref, cid)?;
        let image = vstd::slice::slice_to_vec(self.vimage.as_slice());
        chain.set_data(image);
        proof {
            vstd::arithmetic::power2::lemma2_to64();
            assert(chain.ccids@ =~= Seq::<crate::keys::ChainKey>::empty());
            assert(0u32 & 0x2000u32 == 0) by (bit_vector);
            assert(chain_ok(chain));
        }
        self.put_chain(chain);
        Ok(())
    }

    /// Removes the chain of the volume header; `ENOENT` when there is none.
    fn remove_vchain(&mut self) -> (r: Result<(), Errno>)
        requires
            old(self).wf(),
        ensures
            final(self).wf(),
            final(self).cmap@ == old(self).cmap@.remove(CID_VCHAIN),
            r is Ok <==> old(self).cmap@.contains_key(CID_VCHAIN),
            final(self).nmap@ == old(self).nmap@ && final(self).imap == old(self).imap,
            final(self).opt == old(self).opt,
    {
        match self.cmap.remove(&CID_VCHAIN) {
            Some(_) => Ok(()),
            None => Err(Errno::ENOENT),
        }
    }

    /// Removes the chain of the freemap; `ENOENT` when there is none.
    fn remove_fchain(&mut self) -> (r: Result<(), Errno>)
        requires
            old(self).wf(),
        ensures
            final(self).wf(),
            final(self).cmap@ == old(self).cmap@.remove(CID_FCHAIN),
            r is Ok <==> old(self).cmap@.contains_key(CID_FCHAIN),
            final(self).nmap@ == old(self).nmap@ && final(self).imap == old(self).imap,
            final(self).opt == old(self).opt,
    {
        match self.cmap.remove(&CID_FCHAIN) {
            Some(_) => Ok(()),
            None => Err(Errno::ENOENT),
        }
    }

    /// Enters the super-root inode held by chain `cid`; `EINVAL` unless it
    /// is the super-root and new.
    fn init_sup_root_inode(&mut self, cid: Cid) -> (r: Result<(), Errno>)
        requires
            old(self).wf(),
        ensures
            final(self).wf(),
            r is Ok ==> final(self).nmap@.contains_key(crate::inode::INUM_SUP_ROOT),
            r is Ok <==> old(self).cmap@.contains_key(cid) && old(self).cmap@[cid].bref.typ
                == HAMMER2_BREF_TYPE_INODE && old(self).cmap@[cid].data@.len() == 1024
                && crate::fs::le64(old(self).cmap@[cid].data@, 0x58) == crate::inode::INUM_SUP_ROOT
                && !old(self).nmap@.contains_key(crate::inode::INUM_SUP_ROOT),
            r is Ok ==> final(self).nmap@ == old(self).nmap@.insert(
                crate::inode::INUM_SUP_ROOT,
                final(self).nmap@[crate::inode::INUM_SUP_ROOT],
            ) && final(self).nmap@[crate::inode::INUM_SUP_ROOT].cid == cid,
            final(self).cmap@ == old(self).cmap@,
            final(self).fso == old(self).fso && final(self).voldata == old(self).voldata,
            final(self).opt == old(self).opt && final(self).label@ == old(self).label@,
            final(self).imap == old(self).imap,
    {
        let head = crate::xop::XopHeader::dummy_new(cid);
        let (inum, exists) = self.set_inode_from_xop(&head)?;
        if inum != crate::inode::INUM_SUP_ROOT || exists {
            return Err(Errno::EINVAL);
        }
        Ok(())
    }

    /// Enters the PFS root inode held by chain `cid` under the PFS root
    /// number; `EINVAL` unless it is the PFS root and new.
    fn init_pfs_root_inode(&mut self, cid: Cid) -> (r: Result<(), Errno>)
        requires
            old(self).wf(),
        ensures
            final(self).wf(),
            r is Ok ==> final(self).nmap@.contains_key(crate::inode::INUM_PFS_ROOT) && final(self).nmap@[crate::inode::INUM_PFS_ROOT].cid == cid
                && final(self).nmap@[crate::inode::INUM_PFS_ROOT].meta.inum == crate::inode::INUM_PFS_ROOT,
            r is Ok <==> old(self).cmap@.contains_key(cid) && old(self).cmap@[cid].data@.len() == 1024
                && crate::fs::le64(old(self).cmap@[cid].data@, 0x58) == crate::inode::INUM_PFS_ROOT
                && !old(self).nmap@.contains_key(crate::inode::INUM_PFS_ROOT),
            r is Ok ==> final(self).nmap@ == old(self).nmap@.insert(
                crate::inode::INUM_PFS_ROOT,
                final(self).nmap@[crate::inode::INUM_PFS_ROOT],
            ) && crate::fs::inode_meta_decodes(
                final(self).nmap@[crate::inode::INUM_PFS_ROOT].meta,
                old(self).cmap@[cid].data@,
                0,
            ),
            forall|k: u64|
                #[trigger] old(self).nmap@.contains_key(k) ==> final(self).nmap@.contains_key(k),
            final(self).cmap@ == old(self).cmap@,
            final(self).fso == old(self).fso && final(self).voldata == old(self).voldata,
            final(self).opt == old(self).opt && final(self).label@ == old(self).label@,
            final(self).imap == old(self).imap,
    {
        let chain = self.get_chain(cid)?;
        if chain.data.len() != 1024 {
            return Err(Errno::EINVAL);
        }
        let meta = chain.as_inode_data().meta;
        if meta.inum != crate::inode::INUM_PFS_ROOT {
            return Err(Errno::EINVAL);
        }
        if self.set_inode(meta.inum)? {
            return Err(Errno::EINVAL);
        }
        let mut ip = match self.nmap.remove(&crate::inode::INUM_PFS_ROOT) {
            Some(ip) => ip,
            None => return Err(Errno::EINVAL),
        };
        ip.meta = meta;
        ip.cid = cid;
        self.nmap.insert(crate::inode::INUM_PFS_ROOT, ip);
        Ok(())
    }

    /// The first part of mounting: refuses a byte-swapped volume header
    /// (`EINVAL`, as for one that is not a volume header), then enters the
    /// chains of the volume header and of the freemap.
    pub fn mount_init(&mut self) -> (r: Result<(), Errno>)
        requires
            old(self).wf(),
        ensures
            final(self).wf(),
            r is Ok ==> final(self).cmap@.contains_key(CID_VCHAIN) && final(self).cmap@.contains_key(
                CID_FCHAIN,
            ),
            r is Ok ==> old(self).voldata.magic == crate::fs::HAMMER2_VOLUME_ID_HBO,
            r is Ok <==> old(self).voldata.magic == crate::fs::HAMMER2_VOLUME_ID_HBO && !old(
                self,
            ).cmap@.contains_key(CID_VCHAIN) && !old(self).cmap@.contains_key(CID_FCHAIN),
            old(self).voldata.magic != crate::fs::HAMMER2_VOLUME_ID_HBO ==> r == Err::<(), Errno>(
                Errno::EINVAL,
            ) && final(self).cmap@ == old(self).cmap@,
            old(self).voldata.magic == crate::fs::HAMMER2_VOLUME_ID_HBO && (old(self).cmap@.contains_key(
                CID_VCHAIN,
            ) || old(self).cmap@.contains_key(CID_FCHAIN)) ==> r == Err::<(), Errno>(Errno::EEXIST),
            r is Ok ==> final(self).cmap@.dom() == old(self).cmap@.dom().insert(CID_VCHAIN).insert(
                CID_FCHAIN,
            ) && final(self).cmap@[CID_VCHAIN].data@ == old(self).vimage@
                && final(self).cmap@[CID_FCHAIN].data@ == old(self).vimage@
                && final(self).cmap@[CID_VCHAIN].bref.typ == HAMMER2_BREF_TYPE_VOLUME
                && final(self).cmap@[CID_FCHAIN].bref.typ == HAMMER2_BREF_TYPE_FREEMAP,
            final(self).nmap@ == old(self).nmap@ && final(self).imap == old(self).imap,
            final(self).opt == old(self).opt && final(self).label@ == old(self).label@,
    {
        if self.voldata.magic != crate::fs::HAMMER2_VOLUME_ID_HBO && self.voldata.magic
            != crate::fs::HAMMER2_VOLUME_ID_ABO {
            return Err(Errno::EINVAL);
        }
        if !self.voldata.is_hbo() {
            return Err(Errno::EINVAL);
        }
        self.init_vchain()?;
        self.init_fchain()?;
        Ok(())
    }

    /// The rest of mounting: enters the super-root inode (found at key 0
    /// under the volume header), checks that only inodes lie under the
    /// super-root, finds the PFS named `label` among them (`ENOENT` when
    /// there is none) and enters its root inode. When it stops for media,
    /// running it again goes on where it stopped.
    pub fn mount_root(&mut self, label: &str) -> (r: Result<(), Hammer2Error>)
        requires
            old(self).wf(),
        ensures
            final(self).wf(),
            r is Ok ==> final(self).nmap@.contains_key(crate::inode::INUM_SUP_ROOT)
                && final(self).nmap@.contains_key(crate::inode::INUM_PFS_ROOT)
                && final(self).label@ == label@,
            r is Ok ==> ({
                let pc = final(self).nmap@[crate::inode::INUM_PFS_ROOT].cid;
                &&& final(self).cmap@.contains_key(pc)
                &&& final(self).cmap@[pc].bref.typ == HAMMER2_BREF_TYPE_INODE
                &&& crate::chain::chain_name(final(self).cmap@[pc]) == Some(label@)
                &&& final(self).nmap@[crate::inode::INUM_PFS_ROOT].meta.inum
                    == crate::inode::INUM_PFS_ROOT
            }),
            old(self).nmap@.contains_key(crate::inode::INUM_SUP_ROOT) && old(self).cmap@.contains_key(
                old(self).nmap@[crate::inode::INUM_SUP_ROOT].cid,
            ) && empty_from(old(self).cmap@[old(self).nmap@[crate::inode::INUM_SUP_ROOT].cid], 0)
                ==> r == Err::<(), Hammer2Error>(Hammer2Error::Errno(Errno::ENOENT)),
            one_pfs(*old(self), label@) ==> r is Ok,
    {
        let ghost c0 = old(self).nmap@[crate::inode::INUM_SUP_ROOT].cid;
        let ghost empty = old(self).nmap@.contains_key(crate::inode::INUM_SUP_ROOT)
            && old(self).cmap@.contains_key(c0) && empty_from(old(self).cmap@[c0], 0);
        assert(RESOLVE_ALWAYS & RESOLVE_MASK == RESOLVE_ALWAYS) by (bit_vector);
        assert(RESOLVE_MAYBE & RESOLVE_MASK == RESOLVE_MAYBE) by (bit_vector);
        assert(0u32 & LOOKUP_ALWAYS == 0) by (bit_vector);
        let ghost one = one_pfs(*old(self), label@);
        let ghost d0 = old(self).cmap@[c0].ccids@[0].cid;
        if !self.nmap.contains_key(&crate::inode::INUM_SUP_ROOT) {
            match self.load_chain(CID_VCHAIN, RESOLVE_ALWAYS) {
                Ok(()) => {},
                Err(e) => return Err(e),
            }
            let (_, cid, _) = match self.lookup_chain(
                CID_VCHAIN,
                crate::fs::HAMMER2_SROOT_KEY,
                crate::fs::HAMMER2_SROOT_KEY,
                0,
            ) {
                Ok(t) => t,
                Err(e) => return Err(e),
            };
            if cid == CID_NONE {
                return Err(Hammer2Error::Errno(Errno::EINVAL));
            }
            match self.init_sup_root_inode(cid) {
                Ok(()) => {},
                Err(e) => return Err(Hammer2Error::Errno(e)),
            }
        }
        let pcid = match self.get_inode_chain(crate::inode::INUM_SUP_ROOT, RESOLVE_ALWAYS) {
            Ok(c) => c,
            Err(e) => return Err(e),
        };
        proof {
            if empty {
                lemma_empty_all(self.cmap@[pcid], crate::fs::HAMMER2_KEY_MIN, crate::fs::HAMMER2_KEY_MAX);
            }
            if one {
                assert(*self == *old(self));
                assert(pcid == c0);
                lemma_one_pfs_first(*self, label@);
            }
        }
        let ghost s1 = *self;
        let (mut pcid, mut cid, _) = match self.lookup_chain(
            pcid,
            crate::fs::HAMMER2_KEY_MIN,
            crate::fs::HAMMER2_KEY_MAX,
            0,
        ) {
            Ok(t) => t,
            Err(e) => return Err(e),
        };
        proof {
            if empty {
                lemma_empty_counted(s1.cmap@[c0], self.cmap@[c0], 0);
            }
            if one {
                assert(cid == d0 && pcid == c0);
                assert(same_place(s1.cmap@[d0], self.cmap@[d0]));
            }
        }
        let mut budget: u64 = u64::MAX;
        while cid != CID_NONE
            invariant
                self.wf(),
                self.nmap@.contains_key(crate::inode::INUM_SUP_ROOT),
                empty == (old(self).nmap@.contains_key(crate::inode::INUM_SUP_ROOT)
                    && old(self).cmap@.contains_key(c0) && empty_from(old(self).cmap@[c0], 0)),
                c0 == old(self).nmap@[crate::inode::INUM_SUP_ROOT].cid,
                empty ==> cid == CID_NONE && self.nmap@ == old(self).nmap@ && self.cmap@.contains_key(
                    c0,
                ) && empty_from(self.cmap@[c0], 0),
                one == one_pfs(*old(self), label@),
                old(self).wf(),
                d0 == old(self).cmap@[c0].ccids@[0].cid,
                one ==> pcid == c0 && (cid == d0 || cid == CID_NONE) && self.nmap@ == old(self).nmap@
                    && one_pfs_kept(*old(self), *self, c0, d0) && (cid == d0 ==> budget
                    == u64::MAX),
            decreases budget,
        {
            let typ = match self.get_chain(cid) {
                Ok(c) => c.bref.typ,
                Err(e) => return Err(Hammer2Error::Errno(e)),
            };
            if typ != HAMMER2_BREF_TYPE_INODE {
                return Err(Hammer2Error::Errno(Errno::EINVAL));
            }
            if budget == 0 {
                return Err(Hammer2Error::Errno(Errno::E2BIG));
            }
            budget = budget - 1;
            let ghost sa = *self;
            proof {
                if one {
                    lemma_one_pfs_next(*old(self), *self, c0, d0, label@);
                }
            }
            let t = match self.get_next_chain(pcid, cid, crate::fs::HAMMER2_KEY_MAX, 0) {
                Ok(t) => t,
                Err(e) => return Err(e),
            };
            proof {
                if one {
                    assert(same_place(sa.cmap@[d0], self.cmap@[d0]));
                }
            }
            pcid = t.0;
            cid = t.1;
        }
        let pcid = match self.get_inode_chain(crate::inode::INUM_SUP_ROOT, RESOLVE_ALWAYS) {
            Ok(c) => c,
            Err(e) => return Err(e),
        };
        let name = label.as_bytes_vec();
        let lhc = crate::subs::dirhash(name.as_slice());
        proof {
            crate::subs::lemma_dirhash_low(name@);
        }
        let lend = lhc + crate::fs::HAMMER2_DIRHASH_LOMASK;
        proof {
            if empty {
                lemma_empty_all(self.cmap@[pcid], lhc, lend);
            }
            if one {
                assert(pcid == c0);
                assert(name@ == encode_utf8(label@));
                lemma_one_pfs_second(*old(self), *self, c0, d0, label@);
            }
        }
        let ghost s3 = *self;
        let (mut pcid, mut cid, _) = match self.lookup_chain(pcid, lhc, lend, 0) {
            Ok(t) => t,
            Err(e) => return Err(e),
        };
        let want = label.to_string();
        let mut budget: u64 = u64::MAX;
        while cid != CID_NONE
            invariant
                self.wf(),
                self.nmap@.contains_key(crate::inode::INUM_SUP_ROOT),
                cid != CID_NONE ==> self.cmap@.contains_key(cid),
                want@ == label@,
                empty == (old(self).nmap@.contains_key(crate::inode::INUM_SUP_ROOT)
                    && old(self).cmap@.contains_key(c0) && empty_from(old(self).cmap@[c0], 0)),
                c0 == old(self).nmap@[crate::inode::INUM_SUP_ROOT].cid,
                empty ==> cid == CID_NONE,
                one == one_pfs(*old(self), label@),
                d0 == old(self).cmap@[c0].ccids@[0].cid,
                one ==> cid == d0 && self.nmap@ == old(self).nmap@ && one_pfs_kept(
                    *old(self),
                    *self,
                    c0,
                    d0,
                ),
            ensures
                self.wf(),
                self.nmap@.contains_key(crate::inode::INUM_SUP_ROOT),
                want@ == label@,
                cid != CID_NONE ==> self.cmap@.contains_key(cid) && self.cmap@[cid].bref.typ
                    == HAMMER2_BREF_TYPE_INODE && crate::chain::chain_name(self.cmap@[cid]) == Some(
                    label@,
                ),
            decreases budget,
        {
            let chain = match self.get_chain(cid) {
                Ok(c) => c,
                Err(e) => return Err(Hammer2Error::Errno(e)),
            };
            if chain.bref.typ == HAMMER2_BREF_TYPE_INODE {
                if chain.data.len() != 1024 {
                    return Err(Hammer2Error::Errno(Errno::EINVAL));
                }
                let ipdata = chain.as_inode_data();
                proof {
                    let dv = chain.data@;
                    assert(crate::extra::filename_bytes(ipdata) =~= dv.subrange(
                        0x100,
                        0x100 + if crate::chain::inode_name_len(dv) < 256 {
                            crate::chain::inode_name_len(dv) as int
                        } else {
                            256
                        },
                    ));
                }
                match ipdata.get_filename_string() {
                    Ok(s) => {
                        if s == want {
                            assert(s@ == want@);
                            break;
                        }
                    },
                    Err(_) => return Err(Hammer2Error::Errno(Errno::EINVAL)),
                }
            }
            if budget == 0 {
                return Err(Hammer2Error::Errno(Errno::E2BIG));
            }
            budget = budget - 1;
            let t = match self.get_next_chain(pcid, cid, lend, 0) {
                Ok(t) => t,
                Err(e) => return Err(e),
            };
            pcid = t.0;
            cid = t.1;
        }
        if cid == CID_NONE {
            return Err(Hammer2Error::Errno(Errno::ENOENT));
        }
        match self.init_pfs_root_inode(cid) {
            Ok(()) => {},
            Err(e) => return Err(Hammer2Error::Errno(e)),
        }
        self.label = want;
        Ok(())
    }
}

/// `n` spaces.
pub open spec fn indent_chars(n: nat) -> Seq<char> {
    Seq::new(n, |i: int| ' ')
}

/// The name a chain is shown under in a dump.
pub open spec fn dump_label(cid: Cid, bi: nat) -> Seq<char> {
    if cid == CID_VCHAIN {
        "v-chain"@
    } else if cid == CID_FCHAIN {
        "f-chain"@
    } else {
        "chain["@ + crate::subs::dec_chars(bi) + "]"@
    }
}

/// The line that shows a chain in a dump: its label and id, its block
/// reference, its name, its flags and the sizes of its media and cached
/// data.
pub open spec fn dump_line(c: Chain, tab: nat, bi: nat) -> Seq<char> {
    indent_chars(tab) + dump_label(c.cid, bi) + " #"@ + crate::subs::dec_chars(c.cid as nat) + " ["@
        + crate::report::blockref_text(c.bref) + "] \""@ + (match crate::chain::chain_name(c) {
        Some(n) => n,
        None => Seq::empty(),
    }) + "\" "@ + crate::report::hex_chars(c.flags as nat, 8) + " "@ + crate::subs::dec_chars(
        c.data@.len(),
    ) + "/"@ + crate::subs::dec_chars(c.udata@.len())
}

/// The block table of a chain as a dump shows it: the entries its media
/// holds, none for media that holds no table.
pub open spec fn dump_table(c: Chain) -> Seq<Hammer2Blockref> {
    match media_blockrefs(c.bref.typ, c.data@) {
        Ok(s) => s,
        Err(_) => Seq::empty(),
    }
}

/// The line a dump shows for entry `i` of a block table.
pub open spec fn bref_line(b: Hammer2Blockref, tab: nat, i: nat) -> Seq<char> {
    indent_chars(tab) + "  bref["@ + crate::subs::dec_chars(i) + "] ["@
        + crate::report::blockref_text(b) + "]"@
}

/// The lines a dump shows for the first `n` entries of a block table: one
/// per entry that is not empty.
pub open spec fn bref_lines(s: Seq<Hammer2Blockref>, tab: nat, n: nat) -> Seq<Seq<char>>
    decreases n,
{
    if n == 0 {
        Seq::empty()
    } else {
        let k = (n - 1) as nat;
        bref_lines(s, tab, k) + if s[k as int].typ != HAMMER2_BREF_TYPE_EMPTY {
            seq![bref_line(s[k as int], tab, k)]
        } else {
            Seq::empty()
        }
    }
}

/// The lines a dump shows below a chain's own line: its block table, or a
/// note that it has no media.
pub open spec fn table_lines(c: Chain, tab: nat) -> Seq<Seq<char>> {
    if c.data@.len() > 0 {
        bref_lines(dump_table(c), tab, dump_table(c).len())
    } else {
        seq![indent_chars(tab) + "  (no chain data)"@]
    }
}

/// The depth left for the children of a chain dumped with `depth` levels
/// (-1 for all).
pub open spec fn child_depth(depth: int) -> int {
    if depth == -1 {
        -1
    } else {
        depth - 1
    }
}

/// The dump of chain `cid` of the cache `m` and, down to `depth` levels
/// (all for -1), of the chains below it, the children of a chain going
/// `fuel` levels deep at most; `EINVAL` for a chain not in the cache or
/// when the fuel runs out.
pub open spec fn dump_tree(m: Map<u64, Chain>, cid: Cid, tab: nat, bi: nat, depth: int, fuel: nat) -> Result<
    Seq<Seq<char>>,
    Errno,
>
    decreases fuel, 1int, 0int,
{
    if depth == 0 {
        Ok(Seq::empty())
    } else if !m.contains_key(cid) || cid == CID_NONE {
        Err(Errno::EINVAL)
    } else {
        let head = seq![dump_line(m[cid], tab, bi)] + table_lines(m[cid], tab);
        match dump_children(m, m[cid].ccids@, (tab + 2) as nat, child_depth(depth), fuel, m[cid].ccids@.len()) {
            Ok(rest) => Ok(head + rest),
            Err(e) => Err(e),
        }
    }
}

/// The dumps of the first `n` children `ks`, in order; the first error
/// stops it.
pub open spec fn dump_children(
    m: Map<u64, Chain>,
    ks: Seq<crate::keys::ChainKey>,
    tab: nat,
    depth: int,
    fuel: nat,
    n: nat,
) -> Result<Seq<Seq<char>>, Errno>
    decreases fuel, 0int, n,
{
    if n == 0 {
        Ok(Seq::empty())
    } else {
        let k = (n - 1) as nat;
        match dump_children(m, ks, tab, depth, fuel, k) {
            Err(e) => Err(e),
            Ok(a) => if fuel == 0 {
                Err(Errno::EINVAL)
            } else {
                match dump_tree(m, ks[k as int].cid, tab, k, depth, (fuel - 1) as nat) {
                    Ok(b) => Ok(a + b),
                    Err(e) => Err(e),
                }
            },
        }
    }
}

/// Once the dump of some children fails, the dump of more of them fails
/// the same way.
proof fn lemma_dump_children_err(
    m: Map<u64, Chain>,
    ks: Seq<crate::keys::ChainKey>,
    tab: nat,
    depth: int,
    fuel: nat,
    n: nat,
    n2: nat,
)
    requires
        n <= n2,
        dump_children(m, ks, tab, depth, fuel, n) is Err,
    ensures
        dump_children(m, ks, tab, depth, fuel, n2) == dump_children(m, ks, tab, depth, fuel, n),
    decreases n2,
{
    if n < n2 {
        lemma_dump_children_err(m, ks, tab, depth, fuel, n, (n2 - 1) as nat);
    }
}

/// The name the reference layout shows for a chain: an inode's filename
/// (empty when it is not UTF-8), nothing for other chains and for an inode
/// without media.
pub open spec fn compat_name(c: Chain) -> Option<Seq<char>> {
    if c.bref.typ == HAMMER2_BREF_TYPE_INODE && c.data@.len() > 0 {
        Some(
            match crate::chain::chain_name(c) {
                Some(n) => n,
                None => Seq::empty(),
            },
        )
    } else {
        None
    }
}

/// The one-letter prefix of a dump in the reference layout.
pub open spec fn pfx_text(pfx: char) -> Seq<char> {
    if pfx == 'v' {
        "v"@
    } else if pfx == 'f' {
        "f"@
    } else if pfx == 'i' {
        "i"@
    } else {
        "a"@
    }
}

/// The first line the reference layout shows for a chain: its prefix,
/// index and block reference.
pub open spec fn compat_line1(c: Chain, tab: nat, bi: nat, pfx: char) -> Seq<char> {
    indent_chars(tab) + pfx_text(pfx) + "-chain "@ + crate::subs::dec_chars(bi) + " "@
        + crate::report::blockref_text(c.bref)
}

/// The second line the reference layout shows for a chain: its name and
/// flags.
pub open spec fn compat_line2(c: Chain, tab: nat) -> Seq<char> {
    indent_chars(tab) + "      ("@ + (match compat_name(c) {
        Some(n) => n,
        None => "?"@,
    }) + ") flags "@ + crate::report::hex_chars(c.flags as nat, 8)
}

/// The line that closes the children of a chain in the reference layout.
pub open spec fn compat_close(c: Chain, tab: nat) -> Seq<char> {
    indent_chars(tab) + "}"@ + match compat_name(c) {
        Some(n) => "("@ + n + ")"@,
        None => Seq::empty(),
    }
}

/// The dump of chain `cid` in the reference layout, as [`dump_tree`] for
/// the other one: two lines per chain, and its children, four columns
/// further in and prefixed `a`, within braces.
pub open spec fn dump_tree_compat(
    m: Map<u64, Chain>,
    cid: Cid,
    tab: nat,
    bi: nat,
    depth: int,
    pfx: char,
    fuel: nat,
) -> Result<Seq<Seq<char>>, Errno>
    decreases fuel, 1int, 0int,
{
    if depth == 0 {
        Ok(Seq::empty())
    } else if !m.contains_key(cid) {
        Err(Errno::EINVAL)
    } else {
        let c = m[cid];
        if c.ccids@.len() == 0 {
            Ok(seq![compat_line1(c, tab, bi, pfx), compat_line2(c, tab)])
        } else {
            match dump_children_compat(m, c.ccids@, (tab + 4) as nat, child_depth(depth), fuel, c.ccids@.len()) {
                Ok(rest) => Ok(seq![compat_line1(c, tab, bi, pfx), compat_line2(c, tab) + " {"@]
                    + rest + seq![compat_close(c, tab)]),
                Err(e) => Err(e),
            }
        }
    }
}

/// The dumps in the reference layout of the first `n` children `ks`.
pub open spec fn dump_children_compat(
    m: Map<u64, Chain>,
    ks: Seq<crate::keys::ChainKey>,
    tab: nat,
    depth: int,
    fuel: nat,
    n: nat,
) -> Result<Seq<Seq<char>>, Errno>
    decreases fuel, 0int, n,
{
    if n == 0 {
        Ok(Seq::empty())
    } else {
        let k = (n - 1) as nat;
        match dump_children_compat(m, ks, tab, depth, fuel, k) {
            Err(e) => Err(e),
            Ok(a) => if fuel == 0 {
                Err(Errno::EINVAL)
            } else {
                match dump_tree_compat(m, ks[k as int].cid, tab, k, depth, 'a', (fuel - 1) as nat) {
                    Ok(b) => Ok(a + b),
                    Err(e) => Err(e),
                }
            },
        }
    }
}

proof fn lemma_dump_children_compat_err(
    m: Map<u64, Chain>,
    ks: Seq<crate::keys::ChainKey>,
    tab: nat,
    depth: int,
    fuel: nat,
    n: nat,
    n2: nat,
)
    requires
        n <= n2,
        dump_children_compat(m, ks, tab, depth, fuel, n) is Err,
    ensures
        dump_children_compat(m, ks, tab, depth, fuel, n2) == dump_children_compat(
            m,
            ks,
            tab,
            depth,
            fuel,
            n,
        ),
    decreases n2,
{
    if n < n2 {
        lemma_dump_children_compat_err(m, ks, tab, depth, fuel, n, (n2 - 1) as nat);
    }
}

/// The dump of chain `cid` and everything below it in the cache `m`, in
/// the reference layout when `compat` is set (prefixed `pfx` there), the
/// depth of the tree bounded by the number of chains; `EINVAL` when the
/// chain is missing or the cache is too large to count.
pub open spec fn dump_spec(m: Map<u64, Chain>, cid: Cid, compat: bool, pfx: char) -> Result<
    Seq<Seq<char>>,
    Errno,
> {
    if m.len() > usize::MAX / 8 {
        Err(Errno::EINVAL)
    } else if compat {
        dump_tree_compat(m, cid, 0, 0, -1, pfx, m.len())
    } else {
        dump_tree(m, cid, 0, 0, -1, m.len())
    }
}

/// What unmounting a cache `a` shows: the dumps of the volume header's
/// chain and of the freemap's chain, made when they are the only chains
/// left, childless, in their places and with their media.
pub open spec fn unmount_dump(a: Map<u64, Chain>, m: Map<u64, Chain>, compat: bool, lines: Seq<Seq<char>>) -> bool {
    &&& m.dom() == set![CID_VCHAIN, CID_FCHAIN]
    &&& m[CID_VCHAIN].ccids@.len() == 0 && m[CID_FCHAIN].ccids@.len() == 0
    &&& cache_shrinks(a, m)
    &&& dump_spec(m, CID_VCHAIN, compat, 'v') matches Ok(v)
    &&& dump_spec(m, CID_FCHAIN, compat, 'f') matches Ok(f)
    &&& lines == v + f
}

/// The lines unmounting a cache `a` shows, for some such state of the two
/// remaining chains.
pub open spec fn unmount_shows(a: Map<u64, Chain>, compat: bool, lines: Seq<Seq<char>>) -> bool {
    exists|m: Map<u64, Chain>| #[trigger] unmount_dump(a, m, compat, lines)
}

/// The views of a list of strings.
pub open spec fn string_views(v: Seq<String>) -> Seq<Seq<char>> {
    v.map_values(|s: String| s@)
}

/// A string of `n` spaces.
fn indent_string(n: usize) -> (r: String)
    ensures
        r@ == indent_chars(n as nat),
{
    let mut s = String::new();
    let mut i: usize = 0;
    while i < n
        invariant
            i <= n,
            s@ == indent_chars(i as nat),
        decreases n - i,
    {
        s.append(" ");
        proof {
            reveal_strlit(" ");
        }
        i = i + 1;
        assert(s@ =~= indent_chars(i as nat));
    }
    s
}

impl Hammer2 {
    /// The line that shows chain `cid` in a dump.
    #[verifier::spinoff_prover]
    #[verifier::rlimit(40)]
    fn dump_chain_line(&self, cid: Cid, tab: usize, bi: usize) -> (r: Result<String, Errno>)
        requires
            self.wf(),
        ensures
            r is Ok <==> self.cmap@.contains_key(cid) && cid != CID_NONE,
            r matches Ok(l) ==> l@ == dump_line(self.cmap@[cid], tab as nat, bi as nat),
            r is Err ==> r == Err::<String, Errno>(Errno::EINVAL),
    {
        let chain = self.get_chain(cid)?;
        if cid == CID_NONE {
            return Err(Errno::EINVAL);
        }
        assert(chain_ok(*chain));
        let mut s = indent_string(tab);
        if cid == CID_VCHAIN {
            s.append("v-chain");
        } else if cid == CID_FCHAIN {
            s.append("f-chain");
        } else {
            s.append("chain[");
            let d = crate::text::decimal_string(bi as u64);
            s.append(d.as_str());
            s.append("]");
        }
        s.append(" #");
        let d = crate::text::decimal_string(chain.cid);
        s.append(d.as_str());
        s.append(" [");
        let b = chain.bref.to_string();
        s.append(b.as_str());
        s.append("] \"");
        match chain.get_name() {
            Some(n) => s.append(n.as_str()),
            None => {},
        }
        s.append("\" ");
        let f = crate::report::hex_string(chain.flags as u64, 8);
        s.append(f.as_str());
        s.append(" ");
        let d = crate::text::decimal_string(chain.data.len() as u64);
        s.append(d.as_str());
        s.append("/");
        let d = crate::text::decimal_string(chain.udata.len() as u64);
        s.append(d.as_str());
        proof {
            let a = indent_chars(tab as nat);
            let l = dump_label(cid, bi as nat);
            assert(s@ =~= dump_line(*chain, tab as nat, bi as nat));
        }
        Ok(s)
    }

    /// Dumps chain `cid` and, down to `depth` levels (all for -1), the
    /// chains below it: a line per chain, then a line per non-empty entry
    /// of its block table (or a line saying it has no media).
    #[verifier::spinoff_prover]
    #[verifier::rlimit(40)]
    fn dump_chain_impl(
        &self,
        cid: Cid,
        tab: usize,
        bi: usize,
        depth: isize,
        out: &mut Vec<String>,
        fuel: usize,
    ) -> (r: Result<(), Errno>)
        requires
            self.wf(),
            depth == -1 || depth >= 0,
            tab + 2 * fuel <= usize::MAX,
        ensures
            match dump_tree(self.cmap@, cid, tab as nat, bi as nat, depth as int, fuel as nat) {
                Ok(lines) => r is Ok && string_views(final(out)@) == string_views(old(out)@)
                    + lines,
                Err(e) => r == Err::<(), Errno>(e),
            },
        decreases fuel,
    {
        let ghost m = self.cmap@;
        let ghost old_v = string_views(out@);
        if depth == 0 {
            assert(string_views(out@) =~= old_v + Seq::<Seq<char>>::empty());
            return Ok(());
        }
        let d = if depth == -1 {
            -1
        } else {
            depth - 1
        };
        assert(d as int == child_depth(depth as int));
        let line = self.dump_chain_line(cid, tab, bi)?;
        out.push(line);
        let chain = self.get_chain(cid)?;
        assert(chain_ok(*chain));
        let ghost c = *chain;
        let ind = indent_string(tab);
        if chain.has_data() {
            let brefs = chain.as_blockref_safe();
            assert(brefs@ == dump_table(c));
            let mut i: usize = 0;
            while i < brefs.len()
                invariant
                    i <= brefs@.len(),
                    brefs@ == dump_table(c),
                    ind@ == indent_chars(tab as nat),
                    string_views(out@) == old_v + seq![dump_line(c, tab as nat, bi as nat)]
                        + bref_lines(brefs@, tab as nat, i as nat),
                decreases brefs@.len() - i,
            {
                let ghost before = string_views(out@);
                if brefs[i].typ != HAMMER2_BREF_TYPE_EMPTY {
                    let mut l = ind.clone();
                    l.append("  bref[");
                    let d = crate::text::decimal_string(i as u64);
                    l.append(d.as_str());
                    l.append("] [");
                    let b = brefs[i].to_string();
                    l.append(b.as_str());
                    l.append("]");
                    assert(l@ =~= bref_line(brefs@[i as int], tab as nat, i as nat));
                    out.push(l);
                    assert(string_views(out@) =~= before.push(l@));
                } else {
                    assert(before + Seq::<Seq<char>>::empty() =~= before);
                }
                proof {
                    assert(bref_lines(brefs@, tab as nat, (i + 1) as nat) == bref_lines(
                        brefs@,
                        tab as nat,
                        i as nat,
                    ) + if brefs@[i as int].typ != HAMMER2_BREF_TYPE_EMPTY {
                        seq![bref_line(brefs@[i as int], tab as nat, i as nat)]
                    } else {
                        Seq::<Seq<char>>::empty()
                    });
                }
                i = i + 1;
                assert(string_views(out@) =~= old_v + seq![dump_line(c, tab as nat, bi as nat)]
                    + bref_lines(brefs@, tab as nat, i as nat));
            }
        } else {
            let ghost before = string_views(out@);
            let mut l = ind.clone();
            l.append("  (no chain data)");
            out.push(l);
            assert(string_views(out@) =~= before.push(l@));
        }
        let ghost head = seq![dump_line(c, tab as nat, bi as nat)] + table_lines(c, tab as nat);
        assert(string_views(out@) =~= old_v + head);
        let v = chain.get_child();
        let ghost ks = c.ccids@;
        let mut i: usize = 0;
        while i < v.len()
            invariant
                self.wf(),
                self.cmap@ == m,
                m.contains_key(cid) && m[cid] == c,
                ks == c.ccids@,
                v@.len() == ks.len(),
                forall|k: int| 0 <= k < v@.len() ==> v@[k] == (#[trigger] ks[k]).cid,
                i <= v@.len(),
                depth != 0,
                d as int == child_depth(depth as int),
                d == -1 || d >= 0,
                cid != CID_NONE,
                old_v == string_views(old(out)@),
                head == seq![dump_line(m[cid], tab as nat, bi as nat)] + table_lines(m[cid], tab as nat),
                tab + 2 * fuel <= usize::MAX,
                dump_children(m, ks, (tab + 2) as nat, d as int, fuel as nat, i as nat) matches Ok(
                    rest,
                ) && string_views(out@) == old_v + head + rest,
            decreases v@.len() - i,
        {
            let ghost rest = dump_children(m, ks, (tab + 2) as nat, d as int, fuel as nat, i as nat)->Ok_0;
            if fuel == 0 {
                proof {
                    assert(dump_children(m, ks, (tab + 2) as nat, d as int, fuel as nat, (i + 1) as nat)
                        == Err::<Seq<Seq<char>>, Errno>(Errno::EINVAL));
                    lemma_dump_children_err(m, ks, (tab + 2) as nat, d as int, fuel as nat, (i + 1) as nat, ks.len());
                }
                return Err(Errno::EINVAL);
            }
            let ghost out_before = string_views(out@);
            match self.dump_chain_impl(v[i], tab + 2, i, d, out, fuel - 1) {
                Ok(()) => {},
                Err(e) => {
                    proof {
                        assert(dump_children(m, ks, (tab + 2) as nat, d as int, fuel as nat, (i + 1) as nat)
                            == Err::<Seq<Seq<char>>, Errno>(e));
                        lemma_dump_children_err(m, ks, (tab + 2) as nat, d as int, fuel as nat, (i + 1) as nat, ks.len());
                    }
                    return Err(e);
                },
            }
            proof {
                let b = dump_tree(m, ks[i as int].cid, (tab + 2) as nat, i as nat, d as int, (fuel - 1) as nat)->Ok_0;
                assert(string_views(out@) =~= old_v + head + (rest + b));
            }
            i = i + 1;
        }
        Ok(())
    }

    /// Dumps chain `cid` and, down to `depth` levels (all for -1), the
    /// chains below it, in the layout of the reference tools: a line with
    /// the block reference, a line with the inode's name and the flags, and
    /// the children within braces.
    #[verifier::spinoff_prover]
    #[verifier::rlimit(40)]
    fn dump_chain_impl_compat(
        &self,
        cid: Cid,
        tab: usize,
        bi: usize,
        depth: isize,
        pfx: char,
        out: &mut Vec<String>,
        fuel: usize,
    ) -> (r: Result<(), Errno>)
        requires
            self.wf(),
            depth == -1 || depth >= 0,
            tab + 4 * fuel <= usize::MAX,
        ensures
            match dump_tree_compat(self.cmap@, cid, tab as nat, bi as nat, depth as int, pfx, fuel as nat) {
                Ok(lines) => r is Ok && string_views(final(out)@) == string_views(old(out)@)
                    + lines,
                Err(e) => r == Err::<(), Errno>(e),
            },
        decreases fuel,
    {
        let ghost m = self.cmap@;
        let ghost old_v = string_views(out@);
        if depth == 0 {
            assert(string_views(out@) =~= old_v + Seq::<Seq<char>>::empty());
            return Ok(());
        }
        let d = if depth == -1 {
            -1
        } else {
            depth - 1
        };
        assert(d as int == child_depth(depth as int));
        let chain = self.get_chain(cid)?;
        assert(chain_ok(*chain));
        let ghost c = *chain;
        let filename: Option<String> = if chain.bref.typ == HAMMER2_BREF_TYPE_INODE
            && chain.has_data() {
            let ipdata = chain.as_inode_data();
            assert(crate::extra::filename_bytes(ipdata) =~= c.data@.subrange(
                0x100,
                0x100 + if crate::chain::inode_name_len(c.data@) < 256 {
                    crate::chain::inode_name_len(c.data@) as int
                } else {
                    256
                },
            ));
            match ipdata.get_filename_string() {
                Ok(s) => Some(s),
                Err(_) => Some(String::new()),
            }
        } else {
            None
        };
        assert(match compat_name(c) {
            Some(n) => filename matches Some(f) && f@ == n,
            None => filename is None,
        });
        let ind = indent_string(tab);
        let mut l = ind.clone();
        let mut pf = String::new();
        proof {
            reveal_strlit("a");
            reveal_strlit("v");
            reveal_strlit("f");
            reveal_strlit("i");
        }
        if pfx == 'v' {
            pf.append("v");
        } else if pfx == 'f' {
            pf.append("f");
        } else if pfx == 'i' {
            pf.append("i");
        } else {
            pf.append("a");
        }
        l.append(pf.as_str());
        l.append("-chain ");
        let dd = crate::text::decimal_string(bi as u64);
        l.append(dd.as_str());
        l.append(" ");
        let b = chain.bref.to_string();
        l.append(b.as_str());
        assert(l@ =~= compat_line1(c, tab as nat, bi as nat, pfx));
        out.push(l);
        let mut l = ind.clone();
        l.append("      (");
        match &filename {
            Some(f) => l.append(f.as_str()),
            None => {
                proof {
                    reveal_strlit("?");
                }
                l.append("?")
            },
        }
        l.append(") flags ");
        let f = crate::report::hex_string(chain.flags as u64, 8);
        l.append(f.as_str());
        assert(l@ =~= compat_line2(c, tab as nat));
        let v = chain.get_child();
        if v.len() == 0 {
            let ghost before = string_views(out@);
            out.push(l);
            assert(string_views(out@) =~= before.push(l@));
            assert(string_views(out@) =~= old_v + seq![compat_line1(c, tab as nat, bi as nat, pfx), compat_line2(c, tab as nat)]);
        } else {
            l.append(" {");
            let ghost before = string_views(out@);
            out.push(l);
            assert(string_views(out@) =~= before.push(l@));
            let ghost head = seq![compat_line1(c, tab as nat, bi as nat, pfx), compat_line2(c, tab as nat) + " {"@];
            assert(string_views(out@) =~= old_v + head);
            let ghost ks = c.ccids@;
            let mut i: usize = 0;
            while i < v.len()
                invariant
                    self.wf(),
                    self.cmap@ == m,
                    m.contains_key(cid) && m[cid] == c,
                    ks == c.ccids@,
                    v@.len() == ks.len(),
                    v@.len() > 0,
                    forall|k: int| 0 <= k < v@.len() ==> v@[k] == (#[trigger] ks[k]).cid,
                    i <= v@.len(),
                    depth != 0,
                    d as int == child_depth(depth as int),
                    d == -1 || d >= 0,
                    old_v == string_views(old(out)@),
                    head == seq![compat_line1(c, tab as nat, bi as nat, pfx), compat_line2(c, tab as nat) + " {"@],
                    tab + 4 * fuel <= usize::MAX,
                    dump_children_compat(m, ks, (tab + 4) as nat, d as int, fuel as nat, i as nat) matches Ok(
                        rest,
                    ) && string_views(out@) == old_v + head + rest,
                decreases v@.len() - i,
            {
                let ghost rest = dump_children_compat(m, ks, (tab + 4) as nat, d as int, fuel as nat, i as nat)->Ok_0;
                if fuel == 0 {
                    proof {
                        assert(dump_children_compat(m, ks, (tab + 4) as nat, d as int, fuel as nat, (i + 1) as nat)
                            == Err::<Seq<Seq<char>>, Errno>(Errno::EINVAL));
                        lemma_dump_children_compat_err(m, ks, (tab + 4) as nat, d as int, fuel as nat, (i + 1) as nat, ks.len());
                    }
                    return Err(Errno::EINVAL);
                }
                match self.dump_chain_impl_compat(v[i], tab + 4, i, d, 'a', out, fuel - 1) {
                    Ok(()) => {},
                    Err(e) => {
                        proof {
                            assert(dump_children_compat(m, ks, (tab + 4) as nat, d as int, fuel as nat, (i + 1) as nat)
                                == Err::<Seq<Seq<char>>, Errno>(e));
                            lemma_dump_children_compat_err(m, ks, (tab + 4) as nat, d as int, fuel as nat, (i + 1) as nat, ks.len());
                        }
                        return Err(e);
                    },
                }
                proof {
                    let b = dump_tree_compat(m, ks[i as int].cid, (tab + 4) as nat, i as nat, d as int, 'a', (fuel - 1) as nat)->Ok_0;
                    assert(string_views(out@) =~= old_v + head + (rest + b));
                }
                i = i + 1;
            }
            let mut l = ind.clone();
            l.append("}");
            match &filename {
                Some(f) => {
                    l.append("(");
                    l.append(f.as_str());
                    l.append(")");
                },
                None => {},
            }
            assert(l@ =~= compat_close(c, tab as nat));
            let ghost before = string_views(out@);
            out.push(l);
            assert(string_views(out@) =~= before.push(l@));
        }
        Ok(())
    }

    /// The dump of chain `cid` and everything below it, in the layout of
    /// the reference tools when `compat` is set, prefixed `pfx` there.
    pub fn dump_chain_pfx(&self, cid: Cid, compat: bool, pfx: char) -> (r: Result<Vec<String>, Errno>)
        requires
            self.wf(),
        ensures
            match dump_spec(self.cmap@, cid, compat, pfx) {
                Ok(lines) => r matches Ok(v) && string_views(v@) == lines,
                Err(e) => r == Err::<Vec<String>, Errno>(e),
            },
    {
        let fuel = self.cmap.len();
        if fuel > usize::MAX / 8 {
            return Err(Errno::EINVAL);
        }
        let mut out: Vec<String> = Vec::new();
        assert(string_views(out@) =~= Seq::<Seq<char>>::empty());
        if compat {
            self.dump_chain_impl_compat(cid, 0, 0, -1, pfx, &mut out, fuel)?;
        } else {
            self.dump_chain_impl(cid, 0, 0, -1, &mut out, fuel)?;
        }
        assert(string_views(out@) =~= Seq::<Seq<char>>::empty() + string_views(out@));
        Ok(out)
    }

    /// The dump of the volume header's chain and everything below it.
    fn dump_vchain(&self, compat: bool) -> (r: Result<Vec<String>, Errno>)
        requires
            self.wf(),
        ensures
            match dump_spec(self.cmap@, CID_VCHAIN, compat, 'v') {
                Ok(lines) => r matches Ok(v) && string_views(v@) == lines,
                Err(e) => r == Err::<Vec<String>, Errno>(e),
            },
    {
        self.dump_chain_pfx(CID_VCHAIN, compat, 'v')
    }

    /// The dump of the freemap's chain and everything below it.
    fn dump_fchain(&self, compat: bool) -> (r: Result<Vec<String>, Errno>)
        requires
            self.wf(),
        ensures
            match dump_spec(self.cmap@, CID_FCHAIN, compat, 'f') {
                Ok(lines) => r matches Ok(v) && string_views(v@) == lines,
                Err(e) => r == Err::<Vec<String>, Errno>(e),
            },
    {
        self.dump_chain_pfx(CID_FCHAIN, compat, 'f')
    }

    /// The dump of chain `cid` and everything below it.
    pub fn dump_chain(&self, cid: Cid, compat: bool) -> (r: Result<Vec<String>, Errno>)
        requires
            self.wf(),
        ensures
            match dump_spec(self.cmap@, cid, compat, 'i') {
                Ok(lines) => r matches Ok(v) && string_views(v@) == lines,
                Err(e) => r == Err::<Vec<String>, Errno>(e),
            },
    {
        self.dump_chain_pfx(cid, compat, 'i')
    }

    /// The dump of the chain of inode `ip` and everything below it.
    pub fn dump_inode_chain(&self, ip: &Inode, compat: bool) -> (r: Result<Vec<String>, Errno>)
        requires
            self.wf(),
        ensures
            match dump_spec(self.cmap@, ip.cid, compat, 'i') {
                Ok(lines) => r matches Ok(v) && string_views(v@) == lines,
                Err(e) => r == Err::<Vec<String>, Errno>(e),
            },
    {
        self.dump_chain(ip.cid, compat)
    }
}

impl Hammer2 {
    /// Removes every chain below the volume header and below the freemap,
    /// and the inodes they held.
    fn clear_chain(&mut self) -> (r: Result<(), Errno>)
        requires
            old(self).wf(),
        ensures
            final(self).wf(),
            final(self).label@ == old(self).label@ && final(self).opt == old(self).opt,
            final(self).imap == old(self).imap,
            cache_shrinks(old(self).cmap@, final(self).cmap@),
            r is Ok ==> final(self).cmap@.contains_key(CID_FCHAIN) && final(self).cmap@[CID_FCHAIN].ccids@.len() == 0,
            r is Ok && final(self).cmap@.contains_key(CID_VCHAIN) ==> final(self).cmap@[CID_VCHAIN].ccids@.len() == 0,
            !old(self).cmap@.contains_key(CID_VCHAIN) ==> r == Err::<(), Errno>(Errno::EINVAL),
            old(self).cmap@.contains_key(CID_VCHAIN) && old(self).cmap@[CID_VCHAIN].ccids@.len() == 0
                && old(self).cmap@.contains_key(CID_FCHAIN) && old(self).cmap@[CID_FCHAIN].ccids@.len()
                == 0 ==> r == Ok::<(), Errno>(()) && final(self).cmap@ == old(self).cmap@
                && final(self).nmap@ == old(self).nmap@,
            one_branch(*old(self), CID_VCHAIN) && old(self).cmap@.contains_key(CID_FCHAIN)
                && old(self).cmap@[CID_FCHAIN].ccids@.len() == 0 ==> r is Ok && branch_cleared(
                *old(self),
                *final(self),
                CID_VCHAIN,
            ),
    {
        let ghost h0 = *self;
        let ghost shaped = one_branch(*self, CID_VCHAIN) && self.cmap@.contains_key(CID_FCHAIN)
            && self.cmap@[CID_FCHAIN].ccids@.len() == 0;
        let fuel = self.cmap.len();
        proof {
            if shaped {
                let d = self.cmap@[CID_VCHAIN].ccids@[0].cid;
                vstd::set_lib::lemma_len_subset(set![CID_VCHAIN, d], self.cmap@.dom());
            }
        }
        self.clear_chain_impl(CID_VCHAIN, fuel)?;
        proof {
            if shaped {
                assert(self.cmap@.contains_key(CID_FCHAIN));
            }
        }
        let fuel = self.cmap.len();
        self.clear_chain_impl(CID_FCHAIN, fuel)
    }

    /// Removes every chain below chain `cid`, deepest first, and the inodes
    /// they held: every inode but PFS roots, and the root of the mounted
    /// PFS.
    fn clear_chain_impl(&mut self, cid: Cid, fuel: usize) -> (r: Result<(), Errno>)
        requires
            old(self).wf(),
        ensures
            final(self).wf(),
            final(self).cmap@.len() <= old(self).cmap@.len(),
            final(self).label@ == old(self).label@ && final(self).opt == old(self).opt,
            final(self).imap == old(self).imap,
            r is Ok ==> final(self).cmap@.contains_key(cid) && final(self).cmap@[cid].ccids@.len() == 0,
            r is Ok ==> cleared_rest(old(self).cmap@, final(self).cmap@, cid),
            cache_shrinks(old(self).cmap@, final(self).cmap@),
            !old(self).cmap@.contains_key(cid) ==> r == Err::<(), Errno>(Errno::EINVAL),
            old(self).cmap@.contains_key(cid) && old(self).cmap@[cid].ccids@.len() == 0 ==> r == Ok::<
                (),
                Errno,
            >(()) && final(self).cmap@ == old(self).cmap@ && final(self).nmap@ == old(self).nmap@,
            one_leaf(*old(self), cid) && fuel >= 1 ==> r is Ok && final(self).cmap@.dom() == old(
                self,
            ).cmap@.dom().remove(old(self).cmap@[cid].ccids@[0].cid) && final(self).nmap@
                == nmap_without(
                old(self).nmap@,
                dropped_inode(old(self).cmap@[old(self).cmap@[cid].ccids@[0].cid], old(self).label@),
            ),
            one_branch(*old(self), cid) && fuel >= 2 ==> r is Ok && final(self).cmap@.dom() == old(
                self,
            ).cmap@.dom().remove(
                old(self).cmap@[old(self).cmap@[cid].ccids@[0].cid].ccids@[0].cid,
            ).remove(old(self).cmap@[cid].ccids@[0].cid) && final(self).nmap@ == nmap_without(
                nmap_without(
                    old(self).nmap@,
                    dropped_inode(
                        old(self).cmap@[old(self).cmap@[old(self).cmap@[cid].ccids@[0].cid].ccids@[0].cid],
                        old(self).label@,
                    ),
                ),
                dropped_inode(old(self).cmap@[old(self).cmap@[cid].ccids@[0].cid], old(self).label@),
            ),
        decreases fuel,
    {
        let ghost len0 = self.cmap@.len();
        let ghost m0 = self.cmap@;
        let ghost n0 = self.nmap@;
        let ghost lab = self.label@;
        let ghost c1 = one_leaf(*self, cid) && fuel >= 1;
        let ghost c2 = one_branch(*self, cid) && fuel >= 2;
        let ghost d1 = m0[cid].ccids@[0].cid;
        let ghost g1 = m0[d1].ccids@[0].cid;
        let ghost want_dom = if c2 {
            m0.dom().remove(g1).remove(d1)
        } else {
            m0.dom().remove(d1)
        };
        let ghost want_n = if c2 {
            nmap_without(nmap_without(n0, dropped_inode(m0[g1], lab)), dropped_inode(m0[d1], lab))
        } else {
            nmap_without(n0, dropped_inode(m0[d1], lab))
        };
        let ghost mut stage: int = 0;
        loop
            invariant
                self.wf(),
                self.cmap@.len() <= len0,
                len0 == old(self).cmap@.len(),
                m0 == old(self).cmap@,
                self.label@ == old(self).label@ && self.opt == old(self).opt,
                self.imap == old(self).imap,
                cleared_rest(m0, self.cmap@, cid),
                !m0.contains_key(cid) || m0[cid].ccids@.len() == 0 ==> self.cmap@ == m0
                    && self.nmap@ == old(self).nmap@,
                n0 == old(self).nmap@ && lab == old(self).label@,
                c1 == (one_leaf(*old(self), cid) && fuel >= 1),
                c2 == (one_branch(*old(self), cid) && fuel >= 2),
                d1 == m0[cid].ccids@[0].cid && g1 == m0[d1].ccids@[0].cid,
                want_dom == (if c2 {
                    m0.dom().remove(g1).remove(d1)
                } else {
                    m0.dom().remove(d1)
                }),
                want_n == (if c2 {
                    nmap_without(nmap_without(n0, dropped_inode(m0[g1], lab)), dropped_inode(m0[d1], lab))
                } else {
                    nmap_without(n0, dropped_inode(m0[d1], lab))
                }),
                (c1 || c2) ==> stage == 0 || stage == 1,
                (c1 || c2) && stage == 0 ==> self.cmap@ == m0 && self.nmap@ == n0,
                (c1 || c2) && stage == 1 ==> self.cmap@.dom() == want_dom && self.nmap@ == want_n
                    && self.cmap@.contains_key(cid) && self.cmap@[cid].ccids@.len() == 0,
            ensures
                self.wf(),
                self.cmap@.len() <= len0,
                self.label@ == old(self).label@ && self.opt == old(self).opt,
                self.imap == old(self).imap,
                cleared_rest(m0, self.cmap@, cid),
                self.cmap@.contains_key(cid) && self.cmap@[cid].ccids@.len() == 0,
                !m0.contains_key(cid) || m0[cid].ccids@.len() == 0 ==> self.cmap@ == m0
                    && self.nmap@ == old(self).nmap@,
                (c1 || c2) ==> self.cmap@.dom() == want_dom && self.nmap@ == want_n,
            decreases self.cmap@.len(),
        {
            let first = self.get_chain(cid)?.get_first_child();
            let ccid = match first {
                Some(c) => c,
                None => break,
            };
            if fuel == 0 {
                return Err(Errno::EINVAL);
            }
            let ghost shaped = (c1 || c2) && stage == 0;
            proof {
                if shaped {
                    assert(ccid == d1);
                    if c2 {
                        assert(one_leaf(*self, d1));
                    }
                }
            }
            self.clear_chain_impl(ccid, fuel - 1)?;
            let ghost m1 = self.cmap@;
            let ghost n1 = self.nmap@;
            proof {
                if shaped {
                    assert(m1.contains_key(cid));
                    assert(m1[cid].ccids@ == m0[cid].ccids@);
                    assert(crate::chain::first_cid_index(m1[cid].ccids@, d1) == 0);
                    assert(m1.contains_key(d1));
                    assert(m1.dom() =~= (if c2 { m0.dom().remove(g1) } else { m0.dom() }));
                    assert(n1 == (if c2 { nmap_without(n0, dropped_inode(m0[g1], lab)) } else { n0 }));
                }
            }
            let chain = self.remove_chain(cid, ccid)?;
            proof {
                if shaped {
                    assert(crate::chain::swap_remove_spec(m1[cid].ccids@, 0).len() == 0);
                    assert(self.cmap@.dom() =~= want_dom);
                    assert(chain.bref == m0[d1].bref && chain.data@ == m0[d1].data@);
                    assert(dropped_inode(m0[d1], lab) matches Some(i) ==> n1.contains_key(i));
                }
            }
            if chain.bref.typ == HAMMER2_BREF_TYPE_INODE {
                if chain.data.len() != 1024 {
                    return Err(Errno::EINVAL);
                }
                let ipdata = chain.as_inode_data();
                proof {
                    lemma_inode_media_name(ipdata, chain.data@);
                }
                if ipdata.meta.is_pfs_root() {
                    match ipdata.get_filename_string() {
                        Ok(s) => {
                            if s == self.label {
                                self.remove_inode(ipdata.meta.inum)?;
                            }
                        },
                        Err(_) => return Err(Errno::EINVAL),
                    }
                } else {
                    self.remove_inode(ipdata.meta.inum)?;
                }
            }
            proof {
                if shaped {
                    assert(self.nmap@ == want_n);
                    stage = 1;
                }
            }
        }
        Ok(())
    }

    /// Unmounts: removes all chains and inodes. Returns the dump of what is
    /// left below the volume header and the freemap just before their own
    /// chains go (in the layout of the reference tools when `compat` is
    /// set). `EINVAL` unless both fixed chains and both root inodes are
    /// there, and unless clearing leaves no inode. A cache that holds just
    /// the branch from the volume header through the super-root to the PFS
    /// root, with the freemap's chain (see `unmount_ready`), unmounts.
    #[verifier::spinoff_prover]
    #[verifier::rlimit(40)]
    pub fn unmount(&mut self, compat: bool) -> (r: Result<Vec<String>, Errno>)
        requires
            old(self).wf(),
        ensures
            final(self).wf(),
            r is Ok ==> final(self).cmap@ == Map::<u64, Chain>::empty() && final(self).nmap@.len()
                == 0,
            r matches Ok(v) ==> unmount_shows(old(self).cmap@, compat, string_views(v@)),
            unmount_ready(*old(self)) ==> r is Ok,
    {
        let ghost ready = unmount_ready(*self);
        let ghost d = self.cmap@[CID_VCHAIN].ccids@[0].cid;
        let ghost g = self.cmap@[d].ccids@[0].cid;
        if !self.cmap.contains_key(&CID_VCHAIN) || !self.cmap.contains_key(&CID_FCHAIN)
            || !self.nmap.contains_key(&crate::inode::INUM_SUP_ROOT) || !self.nmap.contains_key(
            &crate::inode::INUM_PFS_ROOT,
        ) {
            return Err(Errno::EINVAL);
        }
        self.clear_chain()?;
        proof {
            if ready {
                assert(self.cmap@.dom() =~= set![CID_VCHAIN, CID_FCHAIN]);
                assert(self.nmap@.dom() =~= Set::<u64>::empty());
            }
        }
        if !self.cmap.contains_key(&CID_VCHAIN) || !self.cmap.contains_key(&CID_FCHAIN)
            || !self.nmap.is_empty() {
            return Err(Errno::EINVAL);
        }
        let ghost m = self.cmap@;
        let mut out = self.dump_vchain(compat)?;
        let f = self.dump_fchain(compat)?;
        let ghost a = string_views(out@);
        let mut i: usize = 0;
        while i < f.len()
            invariant
                i <= f@.len(),
                string_views(out@) == a + string_views(f@).take(i as int),
            decreases f@.len() - i,
        {
            let ghost before = string_views(out@);
            out.push(f[i].clone());
            assert(string_views(f@).take(i + 1) =~= string_views(f@).take(i as int).push(f@[i as int]@));
            assert(string_views(out@) =~= before.push(f@[i as int]@));
            i = i + 1;
        }
        assert(string_views(f@).take(f@.len() as int) =~= string_views(f@));
        if self.cmap.len() != 2 {
            return Err(Errno::EINVAL);
        }
        proof {
            assert(m.dom() =~= set![CID_VCHAIN, CID_FCHAIN]) by {
                assert(m.dom().finite());
                assert(set![CID_VCHAIN, CID_FCHAIN].subset_of(m.dom()));
                assert(set![CID_VCHAIN, CID_FCHAIN].len() == 2);
                vstd::set_lib::lemma_subset_equality(set![CID_VCHAIN, CID_FCHAIN], m.dom());
            }
            assert(unmount_dump(old(self).cmap@, m, compat, string_views(out@)));
        }
        self.remove_vchain()?;
        self.remove_fchain()?;
        assert(self.cmap@.dom() =~= Set::<u64>::empty());
        if self.opt.cidalloc == CidAllocMode::Linear && self.imap.pool.len() != 0 {
            return Err(Errno::EINVAL);
        }
        assert(unmount_dump(old(self).cmap@, m, compat, string_views(out@)));
        assert(unmount_shows(old(self).cmap@, compat, string_views(out@)));
        Ok(out)
    }

    /// The volumes of the file system.
    pub fn get_volumes(&self) -> (r: Vec<&crate::volume::Volume>)
        ensures
            r@.len() == self.fso.volumes@.len(),
            forall|i: int| 0 <= i < r@.len() ==> *r@[i] == self.fso.volumes@[i],
    {
        self.fso.get_volumes()
    }

    /// The root volume header.
    pub fn get_volume_data(&self) -> (r: &Hammer2VolumeData)
        ensures
            *r == self.voldata,
    {
        &self.voldata
    }

    /// The label of the mounted PFS.
    pub fn get_label(&self) -> (r: &str)
        ensures
            r@ == self.label@,
    {
        self.label.as_str()
    }

    /// The inode `inum`, if it is in the table.
    pub fn get_inode(&self, inum: u64) -> (r: Option<&Inode>)
        ensures
            self.nmap@.contains_key(inum) ==> (r matches Some(ip) && *ip == self.nmap@[inum]),
            !self.nmap@.contains_key(inum) ==> r is None,
    {
        self.nmap.get(&inum)
    }

    /// Reads up to `size` bytes of file `inum` from `offset`.
    pub fn preadx(&mut self, inum: u64, size: u64, offset: u64) -> (r: Result<Vec<u8>, Hammer2Error>)
        requires
            old(self).wf(),
        ensures
            final(self).wf(),
            !old(self).nmap@.contains_key(inum) ==> r == Err::<Vec<u8>, Hammer2Error>(
                Hammer2Error::Errno(Errno::ENOENT),
            ),
            old(self).nmap@.contains_key(inum) && old(self).nmap@[inum].meta.typ
                == crate::fs::HAMMER2_OBJTYPE_DIRECTORY ==> r == Err::<Vec<u8>, Hammer2Error>(
                Hammer2Error::Errno(Errno::EISDIR),
            ),
            old(self).nmap@.contains_key(inum) && old(self).nmap@[inum].meta.typ
                != crate::fs::HAMMER2_OBJTYPE_DIRECTORY && old(self).nmap@[inum].meta.typ
                != crate::fs::HAMMER2_OBJTYPE_REGFILE ==> r == Err::<Vec<u8>, Hammer2Error>(
                Hammer2Error::Errno(Errno::EINVAL),
            ),
            r matches Ok(v) ==> pread_len_ok(v@.len(), old(self).nmap@[inum].meta.size, size, offset),
            r matches Ok(v) ==> reads_direct(*final(self), old(self).nmap@[inum].cid, v@, offset),
            r matches Ok(v) ==> (all_ready(*old(self), old(self).nmap@[inum].cid, offset, v@.len() as int)
                ==> reads_blocks(*final(self), old(self).nmap@[inum].cid, v@, offset)),
            old(self).nmap@.contains_key(inum) && old(self).nmap@[inum].meta.typ
                == crate::fs::HAMMER2_OBJTYPE_REGFILE && read_needs_nothing(
                *old(self),
                old(self).nmap@[inum],
                size,
                offset,
            ) ==> r is Ok,
            old(self).nmap@.contains_key(inum) && old(self).nmap@[inum].meta.typ
                == crate::fs::HAMMER2_OBJTYPE_REGFILE && reads_cached(
                *old(self),
                old(self).nmap@[inum],
                size,
                offset,
            ) ==> r is Ok,
            forall|j: int, k: int|
                old(self).nmap@.contains_key(inum) && old(self).nmap@[inum].meta.typ
                    == crate::fs::HAMMER2_OBJTYPE_REGFILE && #[trigger] reads_one_indirect(
                    *old(self),
                    old(self).nmap@[inum],
                    size,
                    offset,
                    j,
                    k,
                ) ==> (r matches Ok(v) && v@ == indirect_leaf_data(*old(self), old(self).nmap@[inum], j, k).take(
                    read_len(old(self).nmap@[inum].meta.size, size, offset),
                )),
    {
        self.pread(inum, size, offset)
    }

    /// The whole content of file `inum`.
    pub fn read_all(&mut self, inum: u64) -> (r: Result<Vec<u8>, Hammer2Error>)
        requires
            old(self).wf(),
        ensures
            final(self).wf(),
            !old(self).nmap@.contains_key(inum) ==> r == Err::<Vec<u8>, Hammer2Error>(
                Hammer2Error::Errno(Errno::ENOENT),
            ),
            old(self).nmap@.contains_key(inum) && old(self).nmap@[inum].meta.typ
                == crate::fs::HAMMER2_OBJTYPE_DIRECTORY ==> r == Err::<Vec<u8>, Hammer2Error>(
                Hammer2Error::Errno(Errno::EISDIR),
            ),
            old(self).nmap@.contains_key(inum) && old(self).nmap@[inum].meta.typ
                != crate::fs::HAMMER2_OBJTYPE_DIRECTORY && old(self).nmap@[inum].meta.typ
                != crate::fs::HAMMER2_OBJTYPE_REGFILE ==> r == Err::<Vec<u8>, Hammer2Error>(
                Hammer2Error::Errno(Errno::EINVAL),
            ),
            r matches Ok(v) ==> v@.len() == old(self).nmap@[inum].meta.size,
            r matches Ok(v) ==> reads_direct(*final(self), old(self).nmap@[inum].cid, v@, 0),
            r matches Ok(v) ==> (all_ready(*old(self), old(self).nmap@[inum].cid, 0, v@.len() as int)
                ==> reads_blocks(*final(self), old(self).nmap@[inum].cid, v@, 0)),
            old(self).nmap@.contains_key(inum) && old(self).nmap@[inum].meta.typ
                == crate::fs::HAMMER2_OBJTYPE_REGFILE && read_needs_nothing(
                *old(self),
                old(self).nmap@[inum],
                old(self).nmap@[inum].meta.size,
                0,
            ) ==> r is Ok,
            old(self).nmap@.contains_key(inum) && old(self).nmap@[inum].meta.typ
                == crate::fs::HAMMER2_OBJTYPE_REGFILE && reads_cached(
                *old(self),
                old(self).nmap@[inum],
                old(self).nmap@[inum].meta.size,
                0,
            ) ==> r is Ok,
            forall|j: int, k: int|
                old(self).nmap@.contains_key(inum) && old(self).nmap@[inum].meta.typ
                    == crate::fs::HAMMER2_OBJTYPE_REGFILE && #[trigger] reads_one_indirect(
                    *old(self),
                    old(self).nmap@[inum],
                    old(self).nmap@[inum].meta.size,
                    0,
                    j,
                    k,
                ) ==> (r matches Ok(v) && v@ == indirect_leaf_data(*old(self), old(self).nmap@[inum], j, k).take(
                    old(self).nmap@[inum].meta.size as int,
                )),
    {
        let size = match self.nmap.get(&inum) {
            Some(ip) => ip.meta.size,
            None => return Err(Hammer2Error::Errno(Errno::ENOENT)),
        };
        self.pread(inum, size, 0)
    }

    /// The target of symbolic link `inum` as a string: the bytes before the
    /// first NUL of at most a name's length of it; `EINVAL` when they are not
    /// valid UTF-8.
    pub fn readlinkx(&mut self, inum: u64) -> (r: Result<String, Hammer2Error>)
        requires
            old(self).wf(),
        ensures
            final(self).wf(),
            !old(self).nmap@.contains_key(inum) ==> r == Err::<String, Hammer2Error>(
                Hammer2Error::Errno(Errno::ENOENT),
            ),
            old(self).nmap@.contains_key(inum) && old(self).nmap@[inum].meta.typ
                != crate::fs::HAMMER2_OBJTYPE_SOFTLINK ==> r == Err::<String, Hammer2Error>(
                Hammer2Error::Errno(Errno::EINVAL),
            ),
            r matches Ok(s) ==> exists|v: Seq<u8>|
                #![trigger link_buffer(v)]
                {
                    &&& pread_len_ok(
                        v.len(),
                        old(self).nmap@[inum].meta.size,
                        crate::fs::HAMMER2_INODE_MAXNAME as u64,
                        0,
                    )
                    &&& reads_direct(*final(self), old(self).nmap@[inum].cid, v, 0)
                    &&& (all_ready(*old(self), old(self).nmap@[inum].cid, 0, v.len() as int)
                        ==> reads_blocks(*final(self), old(self).nmap@[inum].cid, v, 0))
                    &&& s@ == vstd::utf8::decode_utf8(
                        link_buffer(v).take(crate::util::cstr_len(link_buffer(v))),
                    )
                },
            old(self).nmap@.contains_key(inum) && old(self).nmap@[inum].meta.typ
                == crate::fs::HAMMER2_OBJTYPE_SOFTLINK && (read_needs_nothing(
                *old(self),
                old(self).nmap@[inum],
                crate::fs::HAMMER2_INODE_MAXNAME as u64,
                0,
            ) || reads_cached(
                *old(self),
                old(self).nmap@[inum],
                crate::fs::HAMMER2_INODE_MAXNAME as u64,
                0,
            )) ==> (r is Ok || (r == Err::<String, Hammer2Error>(Hammer2Error::Errno(Errno::EINVAL))
                && exists|v: Seq<u8>|
                #![trigger link_buffer(v)]
                {
                    &&& pread_len_ok(
                        v.len(),
                        old(self).nmap@[inum].meta.size,
                        crate::fs::HAMMER2_INODE_MAXNAME as u64,
                        0,
                    )
                    &&& reads_direct(*final(self), old(self).nmap@[inum].cid, v, 0)
                    &&& (all_ready(*old(self), old(self).nmap@[inum].cid, 0, v.len() as int)
                        ==> reads_blocks(*final(self), old(self).nmap@[inum].cid, v, 0))
                    &&& !vstd::utf8::valid_utf8(
                        link_buffer(v).take(crate::util::cstr_len(link_buffer(v))),
                    )
                })),
    {
        let v = match self.readlink(inum, crate::fs::HAMMER2_INODE_MAXNAME as u64) {
            Ok(v) => v,
            Err(e) => return Err(e),
        };
        let mut buf = vec![0u8; crate::fs::HAMMER2_INODE_MAXNAME];
        let mut i: usize = 0;
        while i < v.len() && i < buf.len()
            invariant
                i <= v@.len(),
                buf@.len() == crate::fs::HAMMER2_INODE_MAXNAME,
                forall|j: int| 0 <= j < i ==> buf@[j] == v@[j],
                forall|j: int| i <= j < buf@.len() ==> buf@[j] == 0,
            decreases v@.len() - i,
        {
            buf.set(i, v[i]);
            i = i + 1;
        }
        assert(buf@ =~= link_buffer(v@));
        match crate::util::bin_to_string(buf.as_slice()) {
            Ok(s) => Ok(s),
            Err(_) => Err(Hammer2Error::Errno(Errno::EINVAL)),
        }
    }
}

} // verus!
