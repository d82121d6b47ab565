//! Operation records: the inputs of a directory or file operation and the
//! chains it collected.
use vstd::prelude::*;
use crate::chain::{Cid, CID_NONE};
use crate::errno::Errno;

verus! {

/// The common part of an operation: the chains fed to it and its inputs.
#[derive(Debug)]
pub struct XopHeader {
    pub cids: Vec<Cid>,
    pub inum1: u64,
    pub name1: String,
}

impl XopHeader {
    pub fn new(inum1: u64, name1: &str) -> (r: Self)
        ensures
            r.cids@.len() == 0,
            r.inum1 == inum1,
            r.name1@ == name1@,
    {
        Self { cids: Vec::new(), inum1, name1: name1.to_string() }
    }

    pub fn new_from_inum(inum1: u64) -> (r: Self)
        ensures
            r.cids@.len() == 0,
            r.inum1 == inum1,
            r.name1@.len() == 0,
    {
        Self { cids: Vec::new(), inum1, name1: String::new() }
    }

    /// A header that already holds one chain.
    pub fn dummy_new(cid: Cid) -> (r: Self)
        ensures
            r.cids@ == seq![cid],
            r.inum1 == 0,
            r.name1@.len() == 0,
    {
        let mut cids: Vec<Cid> = Vec::new();
        cids.push(cid);
        Self { cids, inum1: 0, name1: String::new() }
    }

    /// Records a chain; `CID_NONE` is ignored.
    pub fn feed(&mut self, cid: Cid)
        ensures
            final(self).cids@ == if cid != CID_NONE {
                old(self).cids@.push(cid)
            } else {
                old(self).cids@
            },
            final(self).inum1 == old(self).inum1,
            final(self).name1@ == old(self).name1@,
    {
        if cid != CID_NONE {
            self.cids.push(cid);
        }
    }

    /// The first chain fed; `ENOENT` when there is none.
    pub fn collect(&self) -> (r: Result<Cid, Errno>)
        ensures
            self.cids@.len() == 0 ==> r == Err::<Cid, Errno>(Errno::ENOENT),
            self.cids@.len() > 0 ==> r == Ok::<Cid, Errno>(self.cids@[0]),
    {
        if self.cids.len() == 0 {
            Err(Errno::ENOENT)
        } else {
            Ok(self.cids[0])
        }
    }

    /// All chains fed, in order; `ENOENT` when there is none.
    pub fn collect_all(&self) -> (r: Result<Vec<Cid>, Errno>)
        ensures
            self.cids@.len() == 0 ==> r == Err::<Vec<Cid>, Errno>(Errno::ENOENT),
            self.cids@.len() > 0 ==> (r matches Ok(v) && v@ == self.cids@),
    {
        if self.cids.len() == 0 {
            Err(Errno::ENOENT)
        } else {
            Ok(self.cids.clone())
        }
    }
}

/// Name resolution in a directory.
#[derive(Debug)]
pub struct XopNresolve {
    pub head: XopHeader,
}

impl XopNresolve {
    pub fn new(inum1: u64, name1: &str) -> (r: Self)
        ensures
            r.head.cids@.len() == 0 && r.head.inum1 == inum1 && r.head.name1@ == name1@,
    {
        Self { head: XopHeader::new(inum1, name1) }
    }
}

/// Directory listing from a key.
#[derive(Debug)]
pub struct XopReaddir {
    pub head: XopHeader,
    pub lkey: u64,
}

impl XopReaddir {
    pub fn new(inum1: u64, lkey: u64) -> (r: Self)
        ensures
            r.head.cids@.len() == 0 && r.head.inum1 == inum1 && r.lkey == lkey,
    {
        Self { head: XopHeader::new_from_inum(inum1), lkey }
    }
}

/// Logical to physical block mapping.
#[derive(Debug)]
pub struct XopBmap {
    pub head: XopHeader,
    pub lbn: u64,
    pub offset: u64,
}

impl XopBmap {
    pub fn new(inum1: u64, lbn: u64) -> (r: Self)
        ensures
            r.head.cids@.len() == 0 && r.head.inum1 == inum1 && r.lbn == lbn && r.offset == 0,
    {
        Self { head: XopHeader::new_from_inum(inum1), lbn, offset: 0 }
    }
}

/// Reading one logical block of a file.
#[derive(Debug)]
pub struct XopRead {
    pub head: XopHeader,
    pub lbase: u64,
}

impl XopRead {
    pub fn new(inum1: u64, lbase: u64) -> (r: Self)
        ensures
            r.head.cids@.len() == 0 && r.head.inum1 == inum1 && r.lbase == lbase,
    {
        Self { head: XopHeader::new_from_inum(inum1), lbase }
    }
}

} // verus!
