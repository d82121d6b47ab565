//! Helpers on the on-media records: offsets, the records held in the
//! embedded and check areas of a block reference and in the embedded area of
//! an inode, inode predicates, times and filenames.
use vstd::prelude::*;
use vstd::bytes::{
    spec_u16_to_le_bytes, spec_u32_to_le_bytes, spec_u64_to_le_bytes, u16_to_le_bytes,
    u32_to_le_bytes, u64_to_le_bytes,
};
use vstd::utf8::{decode_utf8, valid_utf8};
use crate::fs::{
    blockset_decodes, le16, le32, le64, read_array, read_u16_le, read_u32_le, read_u64_le,
    Hammer2Blockref, Hammer2BlockrefCheckFreemap, Hammer2BlockrefCheckIscsi,
    Hammer2BlockrefCheckSha192, Hammer2BlockrefCheckSha256, Hammer2BlockrefCheckSha512,
    Hammer2BlockrefCheckXxhash64, Hammer2BlockrefEmbedStats, Hammer2Blockset, Hammer2DirentHead,
    Hammer2InodeData, Hammer2InodeMeta, Hammer2VolumeData, HAMMER2_BREF_TYPE_DATA,
    HAMMER2_BREF_TYPE_FREEMAP_LEAF, HAMMER2_BREF_TYPE_FREEMAP_NODE, HAMMER2_BREF_TYPE_INDIRECT,
    HAMMER2_INODE_MAXNAME, HAMMER2_OFF_MASK_RADIX, HAMMER2_OPFLAG_DIRECTDATA,
    HAMMER2_OPFLAG_PFSROOT, HAMMER2_PFSTYPE_SUPROOT, HAMMER2_VOLUME_ID_ABO, HAMMER2_VOLUME_ID_HBO,
};
use crate::errno::Errno;
use crate::ioctl::{IocDestroy, IocPfs, IocVolume, IocVolume2, IocVolumeList, IocVolumeList2};
use crate::subs::{dirhash, dirhash_spec};
use crate::text::string_from_utf8;
use crate::util::{bin_to_string, cstr_len, cstr_len_exec, Utf8Error};

verus! {

broadcast use vstd::array::group_array_axioms;

/// The low six bits of a data offset: the radix of the media size.
pub fn conv_offset_to_radix(x: u64) -> (r: u8)
    ensures
        r == x % 64,
{
    assert(x & 0x3F == x % 64) by (bit_vector);
    (x & HAMMER2_OFF_MASK_RADIX) as u8
}

/// A data offset without its radix bits.
pub fn conv_offset_to_raw_data_off(x: u64) -> (r: u64)
    ensures
        r == x - x % 64,
{
    assert(x & !0x3Fu64 == x - x % 64) by (bit_vector);
    x & !HAMMER2_OFF_MASK_RADIX
}

/// `b` with the bytes from `off` replaced by `src`.
pub open spec fn splice(b: Seq<u8>, off: int, src: Seq<u8>) -> Seq<u8> {
    b.subrange(0, off) + src + b.subrange(off + src.len(), b.len() as int)
}

/// Writes `src` into `b` from `off`.
fn put_bytes<const N: usize>(b: &mut [u8; N], off: usize, src: &[u8])
    requires
        off + src@.len() <= N,
    ensures
        final(b)@ == splice(old(b)@, off as int, src@),
{
    let ghost b0 = old(b)@;
    let mut i: usize = 0;
    while i < src.len()
        invariant
            off + src@.len() <= N,
            i <= src@.len(),
            b@.len() == N,
            b0.len() == N,
            b@ == splice(b0, off as int, src@.subrange(0, i as int)),
        decreases src@.len() - i,
    {
        b[off + i] = src[i];
        i = i + 1;
        assert(b@ =~= splice(b0, off as int, src@.subrange(0, i as int)));
    }
    assert(src@.subrange(0, src@.len() as int) =~= src@);
}

/// A record that is stored in a fixed area of `N` bytes: the embedded area
/// (16 bytes) or the check area (64 bytes) of a block reference, or the
/// embedded area (512 bytes) of an inode.
pub trait Record<const N: usize>: Sized {
    /// `r` is the record whose image starts the area `b`.
    spec fn decodes(r: Self, b: Seq<u8>) -> bool;

    /// Decodes the record held in the area.
    fn decode(b: &[u8; N]) -> (r: Self)
        ensures
            Self::decodes(r, b@),
    ;

    /// Stores the record into the area.
    fn encode(&self, b: &mut [u8; N])
        ensures
            Self::decodes(*self, final(b)@),
    ;

    /// An area holds at most one record.
    proof fn decodes_unique(r1: Self, r2: Self, b: Seq<u8>)
        requires
            Self::decodes(r1, b),
            Self::decodes(r2, b),
        ensures
            r1 == r2,
    ;
}

impl Record<16> for Hammer2DirentHead {
    open spec fn decodes(r: Self, b: Seq<u8>) -> bool {
        &&& r.inum == le64(b, 0)
        &&& r.namlen == le16(b, 8)
        &&& r.typ == b[10]
    }

    fn decode(b: &[u8; 16]) -> (r: Self) {
        let s = b.as_slice();
        Hammer2DirentHead { inum: read_u64_le(s, 0), namlen: read_u16_le(s, 8), typ: b[10] }
    }

    fn encode(&self, b: &mut [u8; 16]) {
        proof {
            vstd::bytes::lemma_auto_spec_u64_to_from_le_bytes();
            vstd::bytes::lemma_auto_spec_u16_to_from_le_bytes();
        }
        let x = u64_to_le_bytes(self.inum);
        put_bytes(b, 0, x.as_slice());
        let y = u16_to_le_bytes(self.namlen);
        put_bytes(b, 8, y.as_slice());
        b[10] = self.typ;
        assert(b@.subrange(0, 8) =~= spec_u64_to_le_bytes(self.inum));
        assert(b@.subrange(8, 10) =~= spec_u16_to_le_bytes(self.namlen));
    }

    proof fn decodes_unique(r1: Self, r2: Self, b: Seq<u8>) {

    }
}

impl Record<16> for Hammer2BlockrefEmbedStats {
    open spec fn decodes(r: Self, b: Seq<u8>) -> bool {
        &&& r.data_count == le64(b, 0)
        &&& r.inode_count == le64(b, 8)
    }

    fn decode(b: &[u8; 16]) -> (r: Self) {
        let s = b.as_slice();
        Hammer2BlockrefEmbedStats { data_count: read_u64_le(s, 0), inode_count: read_u64_le(s, 8) }
    }

    fn encode(&self, b: &mut [u8; 16]) {
        proof {
            vstd::bytes::lemma_auto_spec_u64_to_from_le_bytes();
        }
        let x = u64_to_le_bytes(self.data_count);
        put_bytes(b, 0, x.as_slice());
        let y = u64_to_le_bytes(self.inode_count);
        put_bytes(b, 8, y.as_slice());
        assert(b@.subrange(0, 8) =~= spec_u64_to_le_bytes(self.data_count));
        assert(b@.subrange(8, 16) =~= spec_u64_to_le_bytes(self.inode_count));
    }

    proof fn decodes_unique(r1: Self, r2: Self, b: Seq<u8>) {

    }
}

impl Record<64> for Hammer2BlockrefCheckIscsi {
    open spec fn decodes(r: Self, b: Seq<u8>) -> bool {
        r.value == le32(b, 0)
    }

    fn decode(b: &[u8; 64]) -> (r: Self) {
        Hammer2BlockrefCheckIscsi { value: read_u32_le(b.as_slice(), 0) }
    }

    fn encode(&self, b: &mut [u8; 64]) {
        proof {
            vstd::bytes::lemma_auto_spec_u32_to_from_le_bytes();
        }
        let x = u32_to_le_bytes(self.value);
        put_bytes(b, 0, x.as_slice());
        assert(b@.subrange(0, 4) =~= spec_u32_to_le_bytes(self.value));
    }

    proof fn decodes_unique(r1: Self, r2: Self, b: Seq<u8>) {

    }
}

impl Record<64> for Hammer2BlockrefCheckXxhash64 {
    open spec fn decodes(r: Self, b: Seq<u8>) -> bool {
        r.value == le64(b, 0)
    }

    fn decode(b: &[u8; 64]) -> (r: Self) {
        Hammer2BlockrefCheckXxhash64 { value: read_u64_le(b.as_slice(), 0) }
    }

    fn encode(&self, b: &mut [u8; 64]) {
        proof {
            vstd::bytes::lemma_auto_spec_u64_to_from_le_bytes();
        }
        let x = u64_to_le_bytes(self.value);
        put_bytes(b, 0, x.as_slice());
        assert(b@.subrange(0, 8) =~= spec_u64_to_le_bytes(self.value));
    }

    proof fn decodes_unique(r1: Self, r2: Self, b: Seq<u8>) {

    }
}

impl Record<64> for Hammer2BlockrefCheckSha192 {
    open spec fn decodes(r: Self, b: Seq<u8>) -> bool {
        r.data@ == b.subrange(0, 24)
    }

    fn decode(b: &[u8; 64]) -> (r: Self) {
        Hammer2BlockrefCheckSha192 { data: read_array::<24>(b.as_slice(), 0) }
    }

    fn encode(&self, b: &mut [u8; 64]) {
        put_bytes(b, 0, self.data.as_slice());
        assert(b@.subrange(0, 24) =~= self.data@);
    }

    proof fn decodes_unique(r1: Self, r2: Self, b: Seq<u8>) {
        assert(r1.data =~= r2.data);
    }
}

impl Record<64> for Hammer2BlockrefCheckSha256 {
    open spec fn decodes(r: Self, b: Seq<u8>) -> bool {
        r.data@ == b.subrange(0, 32)
    }

    fn decode(b: &[u8; 64]) -> (r: Self) {
        Hammer2BlockrefCheckSha256 { data: read_array::<32>(b.as_slice(), 0) }
    }

    fn encode(&self, b: &mut [u8; 64]) {
        put_bytes(b, 0, self.data.as_slice());
        assert(b@.subrange(0, 32) =~= self.data@);
    }

    proof fn decodes_unique(r1: Self, r2: Self, b: Seq<u8>) {
        assert(r1.data =~= r2.data);
    }
}

impl Record<64> for Hammer2BlockrefCheckSha512 {
    open spec fn decodes(r: Self, b: Seq<u8>) -> bool {
        r.data@ == b.subrange(0, 64)
    }

    fn decode(b: &[u8; 64]) -> (r: Self) {
        Hammer2BlockrefCheckSha512 { data: read_array::<64>(b.as_slice(), 0) }
    }

    fn encode(&self, b: &mut [u8; 64]) {
        put_bytes(b, 0, self.data.as_slice());
        assert(b@.subrange(0, 64) =~= self.data@);
    }

    proof fn decodes_unique(r1: Self, r2: Self, b: Seq<u8>) {
        assert(r1.data =~= r2.data);
    }
}

impl Record<64> for Hammer2BlockrefCheckFreemap {
    open spec fn decodes(r: Self, b: Seq<u8>) -> bool {
        &&& r.icrc32 == le32(b, 0)
        &&& r.bigmask == le32(b, 4)
        &&& r.avail == le64(b, 8)
    }

    fn decode(b: &[u8; 64]) -> (r: Self) {
        let s = b.as_slice();
        Hammer2BlockrefCheckFreemap {
            icrc32: read_u32_le(s, 0),
            bigmask: read_u32_le(s, 4),
            avail: read_u64_le(s, 8),
        }
    }

    fn encode(&self, b: &mut [u8; 64]) {
        proof {
            vstd::bytes::lemma_auto_spec_u32_to_from_le_bytes();
            vstd::bytes::lemma_auto_spec_u64_to_from_le_bytes();
        }
        let x = u32_to_le_bytes(self.icrc32);
        put_bytes(b, 0, x.as_slice());
        let y = u32_to_le_bytes(self.bigmask);
        put_bytes(b, 4, y.as_slice());
        let z = u64_to_le_bytes(self.avail);
        put_bytes(b, 8, z.as_slice());
        assert(b@.subrange(0, 4) =~= spec_u32_to_le_bytes(self.icrc32));
        assert(b@.subrange(4, 8) =~= spec_u32_to_le_bytes(self.bigmask));
        assert(b@.subrange(8, 16) =~= spec_u64_to_le_bytes(self.avail));
    }

    proof fn decodes_unique(r1: Self, r2: Self, b: Seq<u8>) {

    }
}

/// Appends the bytes of `src` to `v`.
fn push_all(v: &mut Vec<u8>, src: &[u8])
    ensures
        final(v)@ == old(v)@ + src@,
{
    let ghost v0 = old(v)@;
    let mut i: usize = 0;
    while i < src.len()
        invariant
            i <= src@.len(),
            v@ == v0 + src@.subrange(0, i as int),
        decreases src@.len() - i,
    {
        v.push(src[i]);
        i = i + 1;
        assert(v@ =~= v0 + src@.subrange(0, i as int));
    }
    assert(src@.subrange(0, src@.len() as int) =~= src@);
}

/// The 128-byte image of a block reference.
pub open spec fn blockref_image(r: Hammer2Blockref) -> Seq<u8> {
    seq![r.typ, r.methods, r.copyid, r.keybits, r.vradix, r.flags] + spec_u16_to_le_bytes(
        r.leaf_count,
    ) + spec_u64_to_le_bytes(r.key) + spec_u64_to_le_bytes(r.mirror_tid) + spec_u64_to_le_bytes(
        r.modify_tid,
    ) + spec_u64_to_le_bytes(r.data_off) + spec_u64_to_le_bytes(r.update_tid) + r.embed@
        + r.check@
}

impl Hammer2Blockref {
    /// The 128-byte image of this block reference, which decodes back to it.
    pub fn to_bytes(&self) -> (r: Vec<u8>)
        ensures
            r@ == blockref_image(*self),
            r@.len() == 128,
            crate::fs::blockref_decodes(*self, r@, 0),
    {
        proof {
            vstd::bytes::lemma_auto_spec_u64_to_from_le_bytes();
            vstd::bytes::lemma_auto_spec_u16_to_from_le_bytes();
        }
        let mut v: Vec<u8> = Vec::new();
        v.push(self.typ);
        v.push(self.methods);
        v.push(self.copyid);
        v.push(self.keybits);
        v.push(self.vradix);
        v.push(self.flags);
        let a = u16_to_le_bytes(self.leaf_count);
        push_all(&mut v, a.as_slice());
        let a = u64_to_le_bytes(self.key);
        push_all(&mut v, a.as_slice());
        let a = u64_to_le_bytes(self.mirror_tid);
        push_all(&mut v, a.as_slice());
        let a = u64_to_le_bytes(self.modify_tid);
        push_all(&mut v, a.as_slice());
        let a = u64_to_le_bytes(self.data_off);
        push_all(&mut v, a.as_slice());
        let a = u64_to_le_bytes(self.update_tid);
        push_all(&mut v, a.as_slice());
        push_all(&mut v, self.embed.as_slice());
        push_all(&mut v, self.check.as_slice());
        let ghost img = blockref_image(*self);
        assert(v@ =~= img);
        assert(img.subrange(6, 8) =~= spec_u16_to_le_bytes(self.leaf_count));
        assert(img.subrange(8, 16) =~= spec_u64_to_le_bytes(self.key));
        assert(img.subrange(16, 24) =~= spec_u64_to_le_bytes(self.mirror_tid));
        assert(img.subrange(24, 32) =~= spec_u64_to_le_bytes(self.modify_tid));
        assert(img.subrange(32, 40) =~= spec_u64_to_le_bytes(self.data_off));
        assert(img.subrange(40, 48) =~= spec_u64_to_le_bytes(self.update_tid));
        assert(img.subrange(48, 64) =~= self.embed@);
        assert(img.subrange(64, 128) =~= self.check@);
        v
    }
}

/// Decoding a block reference reads only its 128-byte window.
proof fn lemma_decodes_window(r: Hammer2Blockref, s1: Seq<u8>, o1: int, s2: Seq<u8>, o2: int)
    requires
        0 <= o1,
        o1 + 128 <= s1.len(),
        0 <= o2,
        o2 + 128 <= s2.len(),
        s1.subrange(o1, o1 + 128) == s2.subrange(o2, o2 + 128),
        crate::fs::blockref_decodes(r, s1, o1),
    ensures
        crate::fs::blockref_decodes(r, s2, o2),
{
    let w = s1.subrange(o1, o1 + 128);
    assert forall|j: int| o1 <= j < o1 + 128 implies #[trigger] s1[j] == s2[j - o1 + o2] by {
        assert(w[j - o1] == s1[j]);
        assert(s2.subrange(o2, o2 + 128)[j - o1] == s2[j - o1 + o2]);
    }
    assert(s1.subrange(o1 + 6, o1 + 8) =~= s2.subrange(o2 + 6, o2 + 8));
    assert(s1.subrange(o1 + 8, o1 + 16) =~= s2.subrange(o2 + 8, o2 + 16));
    assert(s1.subrange(o1 + 16, o1 + 24) =~= s2.subrange(o2 + 16, o2 + 24));
    assert(s1.subrange(o1 + 24, o1 + 32) =~= s2.subrange(o2 + 24, o2 + 32));
    assert(s1.subrange(o1 + 32, o1 + 40) =~= s2.subrange(o2 + 32, o2 + 40));
    assert(s1.subrange(o1 + 40, o1 + 48) =~= s2.subrange(o2 + 40, o2 + 48));
    assert(s1.subrange(o1 + 48, o1 + 64) =~= s2.subrange(o2 + 48, o2 + 64));
    assert(s1.subrange(o1 + 64, o1 + 128) =~= s2.subrange(o2 + 64, o2 + 128));
    assert(s1[o1] == s2[o2] && s1[o1 + 1] == s2[o2 + 1] && s1[o1 + 2] == s2[o2 + 2]);
    assert(s1[o1 + 3] == s2[o2 + 3] && s1[o1 + 4] == s2[o2 + 4] && s1[o1 + 5] == s2[o2 + 5]);
}

impl Record<512> for Hammer2Blockset {
    open spec fn decodes(r: Self, b: Seq<u8>) -> bool {
        blockset_decodes(r, b, 0)
    }

    fn decode(b: &[u8; 512]) -> (r: Self) {
        Hammer2Blockset::from_bytes(b.as_slice(), 0)
    }

    fn encode(&self, b: &mut [u8; 512]) {
        let ghost b0 = b@;
        let mut i: usize = 0;
        while i < 4
            invariant
                i <= 4,
                b@.len() == 512,
                forall|k: int|
                    0 <= k < i ==> crate::fs::blockref_decodes(
                        #[trigger] self.blockref@[k],
                        b@,
                        128 * k,
                    ),
            decreases 4 - i,
        {
            let img = self.blockref[i].to_bytes();
            let ghost bprev = b@;
            put_bytes(b, 128 * i, img.as_slice());
            proof {
                assert forall|k: int| 0 <= k < i + 1 implies crate::fs::blockref_decodes(
                    #[trigger] self.blockref@[k],
                    b@,
                    128 * k,
                ) by {
                    if k < i {
                        assert(b@.subrange(128 * k, 128 * k + 128) =~= bprev.subrange(
                            128 * k,
                            128 * k + 128,
                        ));
                        lemma_decodes_window(self.blockref@[k], bprev, 128 * k, b@, 128 * k);
                    } else {
                        assert(b@.subrange(128 * k, 128 * k + 128) =~= img@.subrange(0, 128));
                        lemma_decodes_window(self.blockref@[k], img@, 0, b@, 128 * k);
                    }
                }
            }
            i = i + 1;
        }
    }

    proof fn decodes_unique(r1: Self, r2: Self, b: Seq<u8>) {
        assert forall|i: int| 0 <= i < 4 implies r1.blockref@[i] == r2.blockref@[i] by {
            assert(crate::fs::blockref_decodes(r1.blockref@[i], b, 128 * i));
            assert(crate::fs::blockref_decodes(r2.blockref@[i], b, 128 * i));
            crate::ondisk::lemma_blockref_decodes_unique(r1.blockref@[i], r2.blockref@[i], b, 128 * i);
        }
        assert(r1.blockref =~= r2.blockref);
    }
}

/// A time in seconds and microseconds.
#[derive(Debug, Clone, Copy, PartialEq, Eq, Structural)]
pub struct Timeval {
    pub tv_sec: i64,
    pub tv_usec: i64,
}

/// A time value from seconds and microseconds, each taken as a signed
/// 64-bit value.
pub fn new_timeval(tv_sec: u64, tv_usec: u64) -> (r: Timeval)
    ensures
        r.tv_sec == tv_sec as i64,
        r.tv_usec == tv_usec as i64,
{
    Timeval { tv_sec: tv_sec as i64, tv_usec: tv_usec as i64 }
}

/// A time in microseconds as seconds and microseconds.
pub open spec fn usec_timeval(t: u64) -> Timeval {
    Timeval { tv_sec: (t / 1_000_000) as i64, tv_usec: (t % 1_000_000) as i64 }
}

fn usec_as_timeval(t: u64) -> (r: Timeval)
    ensures
        r == usec_timeval(t),
        r.tv_sec == t / 1_000_000,
        r.tv_usec == t % 1_000_000,
{
    new_timeval(t / 1_000_000, t % 1_000_000)
}

impl Hammer2Blockref {
    /// Whether the block reference points at an indirect or freemap node.
    pub fn is_node_type(&self) -> (r: bool)
        ensures
            r == (self.typ == HAMMER2_BREF_TYPE_INDIRECT || self.typ
                == HAMMER2_BREF_TYPE_FREEMAP_NODE),
    {
        self.typ == HAMMER2_BREF_TYPE_INDIRECT || self.typ == HAMMER2_BREF_TYPE_FREEMAP_NODE
    }

    /// Whether the block reference points at data or a freemap leaf.
    pub fn is_leaf_type(&self) -> (r: bool)
        ensures
            r == (self.typ == HAMMER2_BREF_TYPE_DATA || self.typ == HAMMER2_BREF_TYPE_FREEMAP_LEAF),
    {
        self.typ == HAMMER2_BREF_TYPE_DATA || self.typ == HAMMER2_BREF_TYPE_FREEMAP_LEAF
    }

    /// The radix of the media size: the low six bits of the data offset.
    pub fn get_radix(&self) -> (r: u8)
        ensures
            r == self.data_off % 64,
    {
        conv_offset_to_radix(self.data_off)
    }

    /// The media offset without its radix bits.
    pub fn get_raw_data_off(&self) -> (r: u64)
        ensures
            r == self.data_off - self.data_off % 64,
    {
        conv_offset_to_raw_data_off(self.data_off)
    }

    /// The record held in the embedded area.
    pub fn embed_as<T: Record<16>>(&self) -> (r: T)
        ensures
            T::decodes(r, self.embed@),
    {
        T::decode(&self.embed)
    }

    /// Stores a record into the embedded area; the rest of the block
    /// reference is unchanged.
    pub fn embed_as_mut<T: Record<16>>(&mut self, v: &T)
        ensures
            T::decodes(*v, final(self).embed@),
            final(self).typ == old(self).typ && final(self).methods == old(self).methods,
            final(self).key == old(self).key && final(self).keybits == old(self).keybits,
            final(self).data_off == old(self).data_off && final(self).check == old(self).check,
    {
        v.encode(&mut self.embed);
    }

    /// The record held in the check area.
    pub fn check_as<T: Record<64>>(&self) -> (r: T)
        ensures
            T::decodes(r, self.check@),
    {
        T::decode(&self.check)
    }

    /// Stores a record into the check area; the rest of the block reference
    /// is unchanged.
    pub fn check_as_mut<T: Record<64>>(&mut self, v: &T)
        ensures
            T::decodes(*v, final(self).check@),
            final(self).typ == old(self).typ && final(self).methods == old(self).methods,
            final(self).key == old(self).key && final(self).keybits == old(self).keybits,
            final(self).data_off == old(self).data_off && final(self).embed == old(self).embed,
    {
        v.encode(&mut self.check);
    }
}

impl Hammer2Blockset {
    /// The block references of the set, in order.
    pub fn as_blockref(&self) -> (r: &[Hammer2Blockref; 4])
        ensures
            r@ == self.blockref@,
    {
        &self.blockref
    }
}

impl Hammer2InodeMeta {
    /// Whether the inode holds its data in its embedded area.
    pub fn has_direct_data(&self) -> (r: bool)
        ensures
            r == (self.op_flags & HAMMER2_OPFLAG_DIRECTDATA != 0),
    {
        (self.op_flags & HAMMER2_OPFLAG_DIRECTDATA) != 0
    }

    /// Whether the inode is the root of a PFS.
    pub fn is_pfs_root(&self) -> (r: bool)
        ensures
            r == (self.op_flags & HAMMER2_OPFLAG_PFSROOT != 0),
    {
        (self.op_flags & HAMMER2_OPFLAG_PFSROOT) != 0
    }

    /// Whether the inode is the super-root.
    pub fn is_sup_root(&self) -> (r: bool)
        ensures
            r == (self.pfs_type == HAMMER2_PFSTYPE_SUPROOT),
    {
        self.pfs_type == HAMMER2_PFSTYPE_SUPROOT
    }

    /// Whether the inode is a PFS root or the super-root.
    pub fn is_root(&self) -> (r: bool)
        ensures
            r == (self.op_flags & HAMMER2_OPFLAG_PFSROOT != 0 || self.pfs_type
                == HAMMER2_PFSTYPE_SUPROOT),
    {
        self.is_pfs_root() || self.is_sup_root()
    }

    /// The change time.
    pub fn ctime_as_timeval(&self) -> (r: Timeval)
        ensures
            r == usec_timeval(self.ctime),
    {
        usec_as_timeval(self.ctime)
    }

    /// The access time.
    pub fn atime_as_timeval(&self) -> (r: Timeval)
        ensures
            r == usec_timeval(self.atime),
    {
        usec_as_timeval(self.atime)
    }

    /// The modification time.
    pub fn mtime_as_timeval(&self) -> (r: Timeval)
        ensures
            r == usec_timeval(self.mtime),
    {
        usec_as_timeval(self.mtime)
    }

    /// The access and modification times, in that order.
    pub fn get_utimes_timeval(&self) -> (r: [Timeval; 2])
        ensures
            r@ == seq![usec_timeval(self.atime), usec_timeval(self.mtime)],
    {
        let r = [self.atime_as_timeval(), self.mtime_as_timeval()];
        assert(r@ =~= seq![usec_timeval(self.atime), usec_timeval(self.mtime)]);
        r
    }
}

/// The bytes of an inode's name: as many as its name length says, at most
/// the size of the filename field.
pub open spec fn filename_bytes(d: Hammer2InodeData) -> Seq<u8> {
    let n = d.meta.name_len as int;
    d.filename@.take(if n < HAMMER2_INODE_MAXNAME { n } else { HAMMER2_INODE_MAXNAME as int })
}

impl Hammer2InodeData {
    /// The record held in the embedded area.
    pub fn u_as<T: Record<512>>(&self) -> (r: T)
        ensures
            T::decodes(r, self.u@),
    {
        T::decode(&self.u)
    }

    /// Stores a record into the embedded area; metadata and filename are
    /// unchanged.
    pub fn u_as_mut<T: Record<512>>(&mut self, v: &T)
        ensures
            T::decodes(*v, final(self).u@),
            final(self).meta == old(self).meta,
            final(self).filename == old(self).filename,
    {
        v.encode(&mut self.u);
    }

    /// The inode's name as a string; `Utf8Error` when its bytes are not
    /// valid UTF-8.
    pub fn get_filename_string(&self) -> (r: Result<String, Utf8Error>)
        ensures
            r is Ok <==> valid_utf8(filename_bytes(*self)),
            r matches Ok(s) ==> s@ == decode_utf8(filename_bytes(*self)),
            r is Err ==> r == Err::<String, Utf8Error>(Utf8Error),
    {
        let n = self.meta.name_len as usize;
        let m = if n < HAMMER2_INODE_MAXNAME { n } else { HAMMER2_INODE_MAXNAME };
        let head = vstd::slice::slice_subrange(self.filename.as_slice(), 0, m);
        let v = vstd::slice::slice_to_vec(head);
        assert(v@ =~= filename_bytes(*self));
        match string_from_utf8(v) {
            Some(s) => Ok(s),
            None => Err(Utf8Error),
        }
    }
}

impl Hammer2VolumeData {
    /// Whether the volume header is in host byte order (rather than
    /// byte-swapped).
    pub fn is_hbo(&self) -> (r: bool)
        requires
            self.magic == HAMMER2_VOLUME_ID_HBO || self.magic == HAMMER2_VOLUME_ID_ABO,
        ensures
            r == (self.magic == HAMMER2_VOLUME_ID_HBO),
    {
        self.magic == HAMMER2_VOLUME_ID_HBO
    }

    /// The iSCSI CRC32 of the bytes `offset..offset + size` of a volume
    /// header's image.
    pub fn get_crc(image: &[u8], offset: u64, size: u64) -> (r: u32)
        requires
            offset + size <= image@.len(),
        ensures
            r == crate::icrc::iscsi_crc32_spec(image@.subrange(offset as int, (offset + size) as int)),
    {
        let _len = image.len();
        let beg = offset as usize;
        let end = beg + size as usize;
        let part = vstd::slice::slice_subrange(image, beg, end);
        crate::icrc::iscsi_crc32(part)
    }
}

/// `src` cut or padded with zeros to `n` bytes.
pub open spec fn padded(src: Seq<u8>, n: nat) -> Seq<u8> {
    Seq::new(n, |i: int| if i < src.len() { src[i] } else { 0u8 })
}

/// Fills `dst` with the start of `src`, zeros behind it.
pub fn copy_bytes<const N: usize>(dst: &mut [u8; N], src: &[u8])
    ensures
        final(dst)@ == padded(src@, N as nat),
{
    let mut i: usize = 0;
    while i < N
        invariant
            i <= N,
            dst@.len() == N,
            forall|k: int| 0 <= k < i ==> dst@[k] == padded(src@, N as nat)[k],
        decreases N - i,
    {
        if i < src.len() {
            dst[i] = src[i];
        } else {
            dst[i] = 0;
        }
        i = i + 1;
    }
    assert(dst@ =~= padded(src@, N as nat));
}

/// The NUL-terminated name at the start of `b`, when it is valid UTF-8.
pub open spec fn name_bytes(b: Seq<u8>) -> Option<Seq<u8>> {
    let n = b.take(cstr_len(b));
    if valid_utf8(n) {
        Some(n)
    } else {
        None
    }
}

/// A name stored by [`IocPfs::copy_name`] reads back whole by
/// [`IocPfs::get_name`]: a valid UTF-8 name of at most 256 bytes without a
/// NUL byte, padded with zeros, has exactly those bytes before its first NUL.
pub proof fn lemma_pfs_name_round_trip(name: Seq<u8>)
    requires
        name.len() <= 256,
        forall|i: int| 0 <= i < name.len() ==> #[trigger] name[i] != 0,
        valid_utf8(name),
    ensures
        name_bytes(padded(name, 256)) == Some(name),
{
    let p = padded(name, 256);
    crate::util::lemma_cstr_len(p);
    let l = cstr_len(p);
    if l < name.len() {
        assert(p[l] == name[l]);
    }
    if l > name.len() {
        assert(p[name.len() as int] == 0u8);
    }
    assert(l == name.len());
    assert(p.take(l) =~= name);
}

impl IocPfs {
    /// The PFS name: the bytes before the first NUL; `EINVAL` when they are
    /// not valid UTF-8.
    pub fn get_name(&self) -> (r: Result<Vec<u8>, Errno>)
        ensures
            match name_bytes(self.name@) {
                Some(n) => r matches Ok(v) && v@ == n,
                None => r == Err::<Vec<u8>, Errno>(Errno::EINVAL),
            },
    {
        match bin_to_string(self.name.as_slice()) {
            Ok(_) => {
                let n = cstr_len_exec(self.name.as_slice());
                proof {
                    crate::util::lemma_cstr_len(self.name@);
                }
                let head = vstd::slice::slice_subrange(self.name.as_slice(), 0, n);
                let v = vstd::slice::slice_to_vec(head);
                assert(v@ =~= self.name@.take(cstr_len(self.name@)));
                Ok(v)
            },
            Err(_) => Err(Errno::EINVAL),
        }
    }

    /// The directory hash of the PFS name.
    pub fn get_name_lhc(&self) -> (r: Result<u64, Errno>)
        ensures
            match name_bytes(self.name@) {
                Some(n) => r == Ok::<u64, Errno>(dirhash_spec(n)),
                None => r == Err::<u64, Errno>(Errno::EINVAL),
            },
    {
        let n = self.get_name()?;
        Ok(dirhash(n.as_slice()))
    }

    /// Stores `name` as the PFS name, cut or padded with zeros.
    pub fn copy_name(&mut self, name: &[u8])
        ensures
            final(self).name@ == padded(name@, 256),
            *final(self) == (IocPfs { name: final(self).name, ..*old(self) }),
    {
        copy_bytes(&mut self.name, name);
    }
}

impl IocDestroy {
    /// Stores `path`, cut or padded with zeros.
    pub fn copy_path(&mut self, path: &[u8])
        ensures
            final(self).path@ == padded(path@, 256),
            *final(self) == (IocDestroy { path: final(self).path, ..*old(self) }),
    {
        copy_bytes(&mut self.path, path);
    }
}

impl IocVolume {
    /// Stores `path`, cut or padded with zeros.
    pub fn copy_path(&mut self, path: &[u8])
        ensures
            final(self).path@ == padded(path@, 1024),
            *final(self) == (IocVolume { path: final(self).path, ..*old(self) }),
    {
        copy_bytes(&mut self.path, path);
    }
}

impl IocVolume2 {
    /// Stores `path`, cut or padded with zeros.
    pub fn copy_path(&mut self, path: &[u8])
        ensures
            final(self).path@ == padded(path@, 1024),
            *final(self) == (IocVolume2 { path: final(self).path, ..*old(self) }),
    {
        copy_bytes(&mut self.path, path);
    }
}

impl IocVolumeList {
    /// Stores `pfs_name`, cut or padded with zeros.
    pub fn copy_pfs_name(&mut self, pfs_name: &[u8])
        ensures
            final(self).pfs_name@ == padded(pfs_name@, 256),
            *final(self) == (IocVolumeList { pfs_name: final(self).pfs_name, ..*old(self) }),
    {
        copy_bytes(&mut self.pfs_name, pfs_name);
    }
}

impl IocVolumeList2 {
    /// Stores `pfs_name`, cut or padded with zeros.
    pub fn copy_pfs_name(&mut self, pfs_name: &[u8])
        ensures
            final(self).pfs_name@ == padded(pfs_name@, 256),
            *final(self) == (IocVolumeList2 { pfs_name: final(self).pfs_name, ..*old(self) }),
    {
        copy_bytes(&mut self.pfs_name, pfs_name);
    }
}

/// A record stored into an area reads back unchanged: what `embed_as_mut`,
/// `check_as_mut` or `u_as_mut` stores, `embed_as`, `check_as` or `u_as`
/// returns.
pub proof fn lemma_record_roundtrip<const N: usize, T: Record<N>>(stored: T, read: T, area: Seq<u8>)
    requires
        T::decodes(stored, area),
        T::decodes(read, area),
    ensures
        read == stored,
{
    T::decodes_unique(read, stored, area);
}

/// The image of a block reference decodes back to it.
pub proof fn lemma_blockref_image_roundtrip(b: Hammer2Blockref, r: Hammer2Blockref)
    requires
        crate::fs::blockref_decodes(r, blockref_image(b), 0),
    ensures
        r == b,
{
    vstd::bytes::lemma_auto_spec_u64_to_from_le_bytes();
    vstd::bytes::lemma_auto_spec_u16_to_from_le_bytes();
    let img = blockref_image(b);
    assert(img.subrange(6, 8) =~= spec_u16_to_le_bytes(b.leaf_count));
    assert(img.subrange(8, 16) =~= spec_u64_to_le_bytes(b.key));
    assert(img.subrange(16, 24) =~= spec_u64_to_le_bytes(b.mirror_tid));
    assert(img.subrange(24, 32) =~= spec_u64_to_le_bytes(b.modify_tid));
    assert(img.subrange(32, 40) =~= spec_u64_to_le_bytes(b.data_off));
    assert(img.subrange(40, 48) =~= spec_u64_to_le_bytes(b.update_tid));
    assert(img.subrange(48, 64) =~= b.embed@);
    assert(img.subrange(64, 128) =~= b.check@);
    assert(crate::fs::blockref_decodes(b, img, 0));
    crate::ondisk::lemma_blockref_decodes_unique(r, b, img, 0);
}

} // verus!
