//! A volume of a file system: a device or file that holds one contiguous
//! part of the file system's offset space.
use vstd::prelude::*;
use crate::fs::{HAMMER2_NUM_VOLHDRS, HAMMER2_ZONE_BYTES64};

verus! {

/// A volume: its id, the path of its device, and the part of the offset
/// space it holds.
#[derive(Debug)]
pub struct Volume {
    pub id: usize,
    pub path: String,
    pub readonly: bool,
    pub offset: u64,
    pub size: u64,
}

impl Volume {
    pub fn new(id: u8, path: &str, readonly: bool, offset: u64, size: u64) -> (r: Self)
        ensures
            r.id == id,
            r.path@ == path@,
            r.readonly == readonly,
            r.offset == offset,
            r.size == size,
    {
        Self { id: id as usize, path: path.to_string(), readonly, offset, size }
    }

    pub fn get_id(&self) -> (r: usize)
        ensures
            r == self.id,
    {
        self.id
    }

    pub fn get_path(&self) -> (r: &str)
        ensures
            r@ == self.path@,
    {
        self.path.as_str()
    }

    pub fn get_offset(&self) -> (r: u64)
        ensures
            r == self.offset,
    {
        self.offset
    }

    pub fn get_size(&self) -> (r: u64)
        ensures
            r == self.size,
    {
        self.size
    }
}

/// Where the `index`-th copy of the volume header lies in a volume: at the
/// start of each of the first zones.
pub fn get_volume_data_offset(index: usize) -> (r: u64)
    requires
        index < HAMMER2_NUM_VOLHDRS,
    ensures
        r == index * HAMMER2_ZONE_BYTES64,
{
    (index as u64) * HAMMER2_ZONE_BYTES64
}

} // verus!
