//! In-memory inodes: the metadata, the chain that holds them, and a
//! reference count.
use vstd::prelude::*;
use crate::chain::{Cid, CID_NONE};
use crate::errno::Errno;
use crate::fs::{Hammer2InodeMeta, HAMMER2_OBJTYPE_DIRECTORY};

verus! {

pub const INUM_SUP_ROOT: u64 = 0;
pub const INUM_PFS_ROOT: u64 = 1;

pub const PFS_LABEL_BOOT: &'static str = "BOOT";
pub const PFS_LABEL_ROOT: &'static str = "ROOT";
pub const PFS_LABEL_DATA: &'static str = "DATA";
pub const PFS_LABEL_LOCAL: &'static str = "LOCAL";

pub const PFS_LABEL_DEFAULT: &'static str = "DATA";

/// An inode: its metadata, the chain that holds it, and a reference count.
#[derive(Debug)]
pub struct Inode {
    pub meta: Hammer2InodeMeta,
    pub cid: Cid,
    pub refs: usize,
}

impl Inode {
    /// An unreferenced inode for the given metadata and chain.
    pub fn new(meta: &Hammer2InodeMeta, cid: Cid) -> (r: Self)
        ensures
            r.meta == *meta,
            r.cid == cid,
            r.refs == 0,
    {
        Self { meta: *meta, cid, refs: 0 }
    }

    /// An unreferenced inode with zeroed metadata and no chain.
    pub fn new_empty() -> (r: Self)
        ensures
            r.cid == CID_NONE,
            r.refs == 0,
            r.meta.inum == 0 && r.meta.typ == 0,
    {
        Self::new(&Hammer2InodeMeta::new(), CID_NONE)
    }

    pub fn get_meta(&self) -> (r: &Hammer2InodeMeta)
        ensures
            *r == self.meta,
    {
        &self.meta
    }

    /// Takes a reference; `EINVAL` when the count would overflow.
    pub fn get(&mut self) -> (r: Result<(), Errno>)
        ensures
            r is Ok <==> old(self).refs < usize::MAX,
            r is Ok ==> final(self).refs == old(self).refs + 1,
            r is Err ==> r == Err::<(), Errno>(Errno::EINVAL) && final(self).refs == old(
                self,
            ).refs,
            final(self).meta == old(self).meta,
            final(self).cid == old(self).cid,
    {
        match self.refs.checked_add(1) {
            Some(v) => {
                self.refs = v;
                Ok(())
            },
            None => Err(Errno::EINVAL),
        }
    }

    /// Drops a reference; `EINVAL` when there is none.
    pub fn put(&mut self) -> (r: Result<(), Errno>)
        ensures
            r is Ok <==> old(self).refs > 0,
            r is Ok ==> final(self).refs == old(self).refs - 1,
            r is Err ==> r == Err::<(), Errno>(Errno::EINVAL) && final(self).refs == old(
                self,
            ).refs,
            final(self).meta == old(self).meta,
            final(self).cid == old(self).cid,
    {
        match self.refs.checked_sub(1) {
            Some(v) => {
                self.refs = v;
                Ok(())
            },
            None => Err(Errno::EINVAL),
        }
    }

    /// Whether the inode is a directory.
    pub fn is_directory(&self) -> (r: bool)
        ensures
            r == (self.meta.typ == HAMMER2_OBJTYPE_DIRECTORY),
    {
        self.meta.typ == HAMMER2_OBJTYPE_DIRECTORY
    }
}

/// Taking a reference and dropping it again leaves an inode as it was:
/// a successful `get` from `a` to `b` followed by a `put` from `b` to `c`
/// gives `c` the count of `a`, and the `put` cannot fail.
pub proof fn lemma_get_put_restores(a: Inode, b: Inode, c: Inode)
    requires
        a.refs < usize::MAX,
        b.refs == a.refs + 1 && b.meta == a.meta && b.cid == a.cid,
        c.refs == b.refs - 1 && c.meta == b.meta && c.cid == b.cid,
    ensures
        b.refs > 0,
        c.refs == a.refs && c.meta == a.meta && c.cid == a.cid,
{
}

} // verus!
