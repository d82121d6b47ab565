//! What to read from the volumes, and what to keep of it: the copies of the
//! volume header, the block that holds a block reference's media, and the
//! volumes a file system specification names.
use vstd::prelude::*;
use vstd::string::StrSliceExecFns;
use crate::errno::Errno;
use crate::fs::{
    Hammer2Blockref, Hammer2VolumeData, HAMMER2_LBUFSIZE, HAMMER2_MAX_VOLUMES, HAMMER2_NUM_VOLHDRS,
    HAMMER2_PBUFSIZE,
    HAMMER2_VOLUME_ID_ABO, HAMMER2_VOLUME_ID_HBO, HAMMER2_ZONE_BYTES64,
};
use crate::ondisk::{add_volume_ok, first_volume_with, vols_fit, Ondisk, VolumeIdentifier};
use crate::volume::{get_volume_data_offset, Volume};
use vstd::arithmetic::power2::pow2;

verus! {

/// How many copies of the volume header a volume of `size` bytes holds: one
/// at the start of each zone that begins inside it, at most four.
pub open spec fn header_count(size: u64) -> nat {
    if size > 3 * HAMMER2_ZONE_BYTES64 {
        4
    } else if size > 2 * HAMMER2_ZONE_BYTES64 {
        3
    } else if size > HAMMER2_ZONE_BYTES64 {
        2
    } else if size > 0 {
        1
    } else {
        0
    }
}

/// The number of volume header copies a volume of `size` bytes holds.
pub fn volume_header_count(size: u64) -> (r: usize)
    ensures
        r == header_count(size),
{
    let mut j: usize = 0;
    while j < HAMMER2_NUM_VOLHDRS
        invariant
            j <= 4,
            j > 0 ==> (j - 1) * HAMMER2_ZONE_BYTES64 < size,
        ensures
            j <= 4,
            j > 0 ==> (j - 1) * HAMMER2_ZONE_BYTES64 < size,
            j < 4 ==> size <= j * HAMMER2_ZONE_BYTES64,
        decreases 4 - j,
    {
        if get_volume_data_offset(j) >= size {
            break;
        }
        j = j + 1;
    }
    j
}

/// `i` is the copy of the volume header to use among `hdrs`: one with the
/// highest mirror transaction id, the first such.
pub open spec fn is_best_header(hdrs: Seq<Hammer2VolumeData>, i: int) -> bool {
    &&& 0 <= i < hdrs.len()
    &&& forall|k: int| 0 <= k < hdrs.len() ==> #[trigger] hdrs[k].mirror_tid <= hdrs[i].mirror_tid
    &&& forall|k: int| 0 <= k < i ==> #[trigger] hdrs[k].mirror_tid < hdrs[i].mirror_tid
}

/// Every copy is a volume header, in either byte order.
pub open spec fn headers_valid(hdrs: Seq<Hammer2VolumeData>) -> bool {
    forall|k: int|
        0 <= k < hdrs.len() ==> #[trigger] hdrs[k].magic == HAMMER2_VOLUME_ID_HBO || hdrs[k].magic
            == HAMMER2_VOLUME_ID_ABO
}

/// Some copy has a non-zero mirror transaction id.
pub open spec fn headers_used(hdrs: Seq<Hammer2VolumeData>) -> bool {
    exists|k: int| 0 <= k < hdrs.len() && #[trigger] hdrs[k].mirror_tid != 0
}

/// Picks the copy of the volume header to use: the first one with the
/// highest mirror transaction id.
pub fn best_volume_data(hdrs: &[Hammer2VolumeData]) -> (r: (usize, Hammer2VolumeData))
    requires
        hdrs@.len() >= 1,
        headers_valid(hdrs@),
        headers_used(hdrs@),
    ensures
        is_best_header(hdrs@, r.0 as int),
        r.1 == hdrs@[r.0 as int],
        r.1.mirror_tid != 0,
{
    let mut index: usize = 0;
    let mut best = hdrs[0];
    let mut j: usize = 1;
    while j < hdrs.len()
        invariant
            1 <= j <= hdrs@.len(),
            index < j,
            best == hdrs@[index as int],
            forall|k: int| 0 <= k < j ==> #[trigger] hdrs@[k].mirror_tid <= best.mirror_tid,
            forall|k: int| 0 <= k < index ==> #[trigger] hdrs@[k].mirror_tid < best.mirror_tid,
        decreases hdrs@.len() - j,
    {
        if best.mirror_tid < hdrs[j].mirror_tid {
            index = j;
            best = hdrs[j];
        }
        j = j + 1;
    }
    proof {
        let k = choose|k: int| 0 <= k < hdrs@.len() && #[trigger] hdrs@[k].mirror_tid != 0;
        assert(hdrs@[k].mirror_tid <= best.mirror_tid);
    }
    (index, best)
}

impl Ondisk {
    /// For each volume, the copy of its volume header to use, given all
    /// copies each volume holds: its index and the header.
    pub fn get_best_volume_data(&self, headers: &Vec<Vec<Hammer2VolumeData>>) -> (r: Vec<
        (usize, Hammer2VolumeData),
    >)
        requires
            headers@.len() == self.volumes@.len(),
            forall|i: int|
                0 <= i < headers@.len() ==> (#[trigger] headers@[i])@.len() == header_count(
                    self.volumes@[i].size,
                ) && headers@[i]@.len() >= 1 && headers_valid(headers@[i]@) && headers_used(
                    headers@[i]@,
                ),
        ensures
            r@.len() == headers@.len(),
            forall|i: int|
                0 <= i < r@.len() ==> is_best_header(headers@[i]@, (#[trigger] r@[i]).0 as int)
                    && r@[i].1 == headers@[i]@[r@[i].0 as int],
    {
        let mut bests: Vec<(usize, Hammer2VolumeData)> = Vec::new();
        let mut i: usize = 0;
        while i < headers.len()
            invariant
                i <= headers@.len(),
                bests@.len() == i,
                forall|k: int|
                    0 <= k < headers@.len() ==> (#[trigger] headers@[k])@.len() >= 1
                        && headers_valid(headers@[k]@) && headers_used(headers@[k]@),
                forall|k: int|
                    0 <= k < i ==> is_best_header(headers@[k]@, (#[trigger] bests@[k]).0 as int)
                        && bests@[k].1 == headers@[k]@[bests@[k].0 as int],
            decreases headers@.len() - i,
        {
            let b = best_volume_data(headers[i].as_slice());
            bests.push(b);
            i = i + 1;
        }
        bests
    }
}

/// The block that holds the media of a block reference: the volume, where
/// in the volume the block starts and how long it is, and where in the
/// block the media lies.
#[derive(Debug, Clone, Copy, PartialEq, Eq, Structural)]
pub struct MediaRead {
    pub volume: usize,
    pub pos: u64,
    pub io_bytes: u64,
    pub beg: usize,
    pub end: usize,
}

/// The size of the media a block reference describes: 2 to the power of the
/// radix, none for radix 0.
pub open spec fn media_bytes(b: Hammer2Blockref) -> nat {
    let radix = b.data_off % 64;
    if radix == 0 {
        0
    } else {
        pow2(radix as nat)
    }
}

/// The block size to read for media of `bytes` bytes that starts `boff`
/// bytes into a block: `n`, doubled until it reaches the media's end.
pub open spec fn io_size_from(n: nat, boff: nat, bytes: nat) -> nat
    decreases (if bytes > n {
        bytes - n
    } else {
        0
    }),
{
    if n == 0 || n + boff >= bytes {
        n
    } else {
        io_size_from(2 * n, boff, bytes)
    }
}

/// The read that brings in a block reference's media. The media lies
/// `boff` bytes into the logical buffer that holds its offset; the block
/// read starts there and is the logical buffer size, doubled as often as
/// needed to reach the media's end. `None` for a block reference without
/// media; `EINVAL` when the block would exceed a physical buffer, `ENODEV`
/// when no volume holds the offset.
pub open spec fn media_plan(od: Ondisk, b: Hammer2Blockref) -> Result<Option<MediaRead>, Errno> {
    let bytes = media_bytes(b);
    let io_off = (b.data_off - b.data_off % 64) as u64;
    let boff = io_off % HAMMER2_LBUFSIZE;
    let io_base = io_off - boff;
    let io_bytes = io_size_from(HAMMER2_LBUFSIZE as nat, boff as nat, bytes);
    let v = first_volume_with(od.volumes@, io_off);
    if bytes == 0 {
        Ok(None)
    } else if io_bytes > HAMMER2_PBUFSIZE {
        Err(Errno::EINVAL)
    } else if v < 0 {
        Err(Errno::ENODEV)
    } else {
        Ok(
            Some(
                MediaRead {
                    volume: v as usize,
                    pos: (io_base - od.volumes@[v].offset) as u64,
                    io_bytes: io_bytes as u64,
                    beg: boff as usize,
                    end: (boff + bytes) as usize,
                },
            ),
        )
    }
}

/// The logical buffer that holds the media of `b` starts within the
/// volume that holds the media's offset (when one does); a read planned
/// for media whose buffer starts before its volume would reach behind the
/// volume's start.
pub open spec fn media_base_in_volume(od: Ondisk, b: Hammer2Blockref) -> bool {
    let io_off = (b.data_off - b.data_off % 64) as u64;
    let v = first_volume_with(od.volumes@, io_off);
    v >= 0 ==> od.volumes@[v].offset <= io_off - io_off % HAMMER2_LBUFSIZE
}

impl Ondisk {
    /// Whether the logical buffer that holds the media of `bref` starts
    /// within the volume that holds it.
    pub fn media_base_ok(&self, bref: &Hammer2Blockref) -> (r: bool)
        requires
            vols_fit(self.volumes@),
        ensures
            r == media_base_in_volume(*self, *bref),
    {
        let io_off = bref.get_raw_data_off();
        let io_base = io_off - io_off % HAMMER2_LBUFSIZE;
        match self.get_volume_index(io_off) {
            None => true,
            Some(i) => self.volumes[i].offset <= io_base,
        }
    }

    /// Plans the read of a block reference's media.
    pub fn plan_read_media(&self, bref: &Hammer2Blockref) -> (r: Result<Option<MediaRead>, Errno>)
        requires
            vols_fit(self.volumes@),
            media_base_in_volume(*self, *bref),
        ensures
            r == media_plan(*self, *bref),
    {
        let radix = bref.get_radix();
        if radix == 0 {
            return Ok(None);
        }
        proof {
            vstd::bits::lemma_u64_pow2_no_overflow(radix as nat);
            vstd::bits::lemma_u64_shl_is_mul(1u64, radix as u64);
            if radix < 63 {
                vstd::arithmetic::power2::lemma_pow2_strictly_increases(radix as nat, 63);
            }
            vstd::arithmetic::power2::lemma2_to64_rest();
        }
        let bytes: u64 = 1u64 << (radix as u64);
        let io_off = bref.get_raw_data_off();
        let boff = io_off % HAMMER2_LBUFSIZE;
        let io_base = io_off - boff;
        let mut io_bytes: u64 = HAMMER2_LBUFSIZE;
        while boff < bytes && io_bytes < bytes - boff
            invariant
                io_size_from(io_bytes as nat, boff as nat, bytes as nat) == io_size_from(
                    HAMMER2_LBUFSIZE as nat,
                    boff as nat,
                    bytes as nat,
                ),
                bytes <= 0x8000_0000_0000_0000,
                boff < 16384,
                io_bytes > 0,
            decreases 0x1_0000_0000_0000_0000 - io_bytes,
        {
            io_bytes = io_bytes * 2;
        }
        if io_bytes > HAMMER2_PBUFSIZE {
            return Err(Errno::EINVAL);
        }
        match self.get_volume_index(io_off) {
            None => Err(Errno::ENODEV),
            Some(i) => {
                let vol_offset = self.volumes[i].offset;
                proof {
                    crate::ondisk::lemma_first_volume_with(self.volumes@, io_off);
                }
                Ok(
                    Some(
                        MediaRead {
                            volume: i,
                            pos: io_base - vol_offset,
                            io_bytes,
                            beg: boff as usize,
                            end: (boff + bytes) as usize,
                        },
                    ),
                )
            },
        }
    }
}

impl MediaRead {
    /// The media out of the block that was read.
    pub fn extract(&self, block: &[u8]) -> (r: Vec<u8>)
        requires
            self.beg <= self.end <= block@.len(),
        ensures
            r@ == block@.subrange(self.beg as int, self.end as int),
    {
        let s = vstd::slice::slice_subrange(block, self.beg, self.end);
        vstd::slice::slice_to_vec(s)
    }
}

/// The index of the first `c` in `s`, its length when there is none.
pub open spec fn find_char(s: Seq<char>, c: char) -> int
    decreases s.len(),
{
    if s.len() == 0 {
        0
    } else if s[0] == c {
        0
    } else {
        1 + find_char(s.drop_first(), c)
    }
}

pub proof fn lemma_find_char(s: Seq<char>, c: char)
    ensures
        0 <= find_char(s, c) <= s.len(),
        forall|k: int| 0 <= k < find_char(s, c) ==> s[k] != c,
        find_char(s, c) < s.len() ==> s[find_char(s, c)] == c,
    decreases s.len(),
{
    if s.len() > 0 && s[0] != c {
        lemma_find_char(s.drop_first(), c);
        assert forall|k: int| 0 <= k < find_char(s, c) implies s[k] != c by {
            if k > 0 {
                assert(s[k] == s.drop_first()[k - 1]);
            }
        }
    }
}

/// The index of the first `c` in `s`, its length when there is none.
pub fn find_char_exec(s: &str, c: char) -> (r: usize)
    ensures
        r == find_char(s@, c),
{
    proof {
        lemma_find_char(s@, c);
    }
    let n = s.unicode_len();
    let mut i: usize = 0;
    while i < n
        invariant
            n == s@.len(),
            i <= n,
            forall|k: int| 0 <= k < i ==> s@[k] != c,
        ensures
            i <= n,
            forall|k: int| 0 <= k < i ==> s@[k] != c,
            i < n ==> s@[i as int] == c,
        decreases n - i,
    {
        if s.get_char(i) == c {
            break;
        }
        i = i + 1;
    }
    proof {
        let f = find_char(s@, c);
        if f < i {
            assert(s@[f] != c);
        }
        if i < f {
            assert(s@[i as int] != c);
        }
    }
    i
}

/// The pieces of `s` between separators `c` from the piece that starts at
/// `j`, scanning at `i`; empty pieces are kept.
pub open spec fn pieces_from(s: Seq<char>, c: char, j: int, i: int) -> Seq<Seq<char>>
    decreases s.len() - i,
{
    if i >= s.len() {
        seq![s.subrange(j, s.len() as int)]
    } else if s[i] == c {
        seq![s.subrange(j, i)] + pieces_from(s, c, i + 1, i + 1)
    } else {
        pieces_from(s, c, j, i + 1)
    }
}

/// The volumes a file system specification names: the part before any
/// `@` (which introduces a PFS label), split at each `:`.
pub open spec fn volume_paths(spec: Seq<char>) -> Seq<Seq<char>> {
    pieces_from(spec.take(find_char(spec, '@')), ':', 0, 0)
}

/// Splits a file system specification into the paths of its volumes.
pub fn split_volume_spec<'a>(spec: &'a str) -> (r: Vec<&'a str>)
    ensures
        r@.map_values(|s: &str| s@) == volume_paths(spec@),
{
    let m = find_char_exec(spec, '@');
    proof {
        lemma_find_char(spec@, '@');
    }
    let head = spec.substring_char(0, m);
    let ghost h = head@;
    assert(h =~= spec@.take(find_char(spec@, '@')));
    let n = head.unicode_len();
    let mut v: Vec<&'a str> = Vec::new();
    let mut j: usize = 0;
    let mut i: usize = 0;
    while i < n
        invariant
            n == h.len(),
            h == head@,
            j <= i <= n,
            v@.map_values(|s: &str| s@) + pieces_from(h, ':', j as int, i as int) == pieces_from(
                h,
                ':',
                0,
                0,
            ),
        decreases n - i,
    {
        if head.get_char(i) == ':' {
            let piece = head.substring_char(j, i);
            let ghost before = v@.map_values(|s: &str| s@);
            v.push(piece);
            assert(v@.map_values(|s: &str| s@) =~= before + seq![h.subrange(j as int, i as int)]);
            assert(before + pieces_from(h, ':', j as int, i as int) =~= v@.map_values(
                |s: &str| s@,
            ) + pieces_from(h, ':', i + 1, i + 1));
            j = i + 1;
        }
        i = i + 1;
    }
    let piece = head.substring_char(j, n);
    let ghost before = v@.map_values(|s: &str| s@);
    v.push(piece);
    assert(v@.map_values(|s: &str| s@) =~= before + pieces_from(h, ':', j as int, n as int));
    v
}

/// The identifier that the first volume header of a file system sets.
pub open spec fn ident_of(h: Hammer2VolumeData) -> VolumeIdentifier {
    VolumeIdentifier { version: h.version, nvolumes: h.nvolumes, fsid: h.fsid, fstype: h.fstype }
}

/// The identifier after a header is added: the header's own when none was
/// recorded yet (no volume count), the recorded one otherwise.
pub open spec fn next_ident(ident: VolumeIdentifier, h: Hammer2VolumeData) -> VolumeIdentifier {
    if ident.nvolumes == 0 {
        ident_of(h)
    } else {
        ident
    }
}

/// The headers `hs` can be added one after another to a file system with
/// identifier `ident` and `count` volumes.
pub open spec fn adds_ok(ident: VolumeIdentifier, count: nat, hs: Seq<Hammer2VolumeData>) -> bool
    decreases hs.len(),
{
    if hs.len() == 0 {
        true
    } else {
        let h = hs[0];
        &&& count < 64
        &&& h.volu_id < 64
        &&& (ident.nvolumes == 0 || crate::ondisk::ident_matches(ident, h))
        &&& adds_ok(next_ident(ident, h), count + 1, hs.drop_first())
    }
}

/// Volume `v` is the one made of the path `path` and the header `h`.
pub open spec fn volume_of(v: Volume, path: Seq<char>, readonly: bool, h: Hammer2VolumeData) -> bool {
    &&& v.id == h.volu_id && v.path@ == path && v.readonly == readonly
    &&& v.offset == h.volu_loff@[h.volu_id as int] && v.size == h.volu_size
}

/// Volume `j` of `vs` is made of path and header `idx[j]`, one of the
/// first `i`.
pub open spec fn volume_index(
    vs: Seq<Volume>,
    paths: Seq<&str>,
    readonly: bool,
    hs: Seq<Hammer2VolumeData>,
    i: int,
    idx: Seq<int>,
) -> bool {
    &&& idx.len() == vs.len()
    &&& forall|j: int|
        0 <= j < vs.len() ==> 0 <= #[trigger] idx[j] < i && volume_of(
            vs[j],
            paths[idx[j]]@,
            readonly,
            hs[idx[j]],
        )
}

/// The volumes `vs` are made of the first `i` paths and headers: as many
/// volumes as headers, each made of one path and its header.
pub open spec fn volumes_from(
    vs: Seq<Volume>,
    paths: Seq<&str>,
    readonly: bool,
    hs: Seq<Hammer2VolumeData>,
    i: int,
) -> bool {
    &&& vs.len() == i
    &&& exists|idx: Seq<int>| #[trigger] volume_index(vs, paths, readonly, hs, i, idx)
}

proof fn lemma_volumes_from_step(
    a: Seq<Volume>,
    b: Seq<Volume>,
    x: Volume,
    paths: Seq<&str>,
    readonly: bool,
    hs: Seq<Hammer2VolumeData>,
    i: int,
)
    requires
        0 <= i < hs.len(),
        i < paths.len(),
        volumes_from(a, paths, readonly, hs, i),
        volume_of(x, paths[i]@, readonly, hs[i]),
        b.to_multiset() == a.push(x).to_multiset(),
        b.len() == a.len() + 1,
    ensures
        volumes_from(b, paths, readonly, hs, i + 1),
{
    broadcast use vstd::seq_lib::group_to_multiset_ensures;

    let p = a.push(x);
    let ia = choose|idx: Seq<int>| #[trigger] volume_index(a, paths, readonly, hs, i, idx);
    let pidx = ia.push(i);
    assert forall|t: int| 0 <= t < p.len() implies 0 <= #[trigger] pidx[t] < i + 1 && volume_of(
        p[t],
        paths[pidx[t]]@,
        readonly,
        hs[pidx[t]],
    ) by {
        if t < a.len() {
            assert(p[t] == a[t]);
            assert(0 <= ia[t] < i);
        }
    }
    let f = |j: int| choose|t: int| 0 <= t < p.len() && p[t] == b[j];
    let bidx = Seq::new(b.len(), |j: int| pidx[f(j)]);
    assert forall|j: int| 0 <= j < b.len() implies 0 <= #[trigger] bidx[j] < i + 1 && volume_of(
        b[j],
        paths[bidx[j]]@,
        readonly,
        hs[bidx[j]],
    ) by {
        assert(b.contains(b[j]));
        assert(b.to_multiset().count(b[j]) > 0);
        assert(p.contains(b[j]));
        let t = f(j);
        assert(0 <= t < p.len() && p[t] == b[j]);
        assert(0 <= pidx[t] < i + 1);
    }
    assert(volume_index(b, paths, readonly, hs, i + 1, bidx));
}

/// The headers can make up a file system, added in order.
pub open spec fn headers_add_ok(hs: Seq<Hammer2VolumeData>) -> bool {
    hs.len() == 0 || (hs[0].volu_id < 64 && adds_ok(ident_of(hs[0]), 1, hs.drop_first()))
}

/// The sum of the volume sizes the headers record.
pub open spec fn sum_sizes(hs: Seq<Hammer2VolumeData>) -> nat
    decreases hs.len(),
{
    if hs.len() == 0 {
        0
    } else {
        sum_sizes(hs.drop_last()) + hs.last().volu_size as nat
    }
}

proof fn lemma_sum_sizes_prefix(hs: Seq<Hammer2VolumeData>, i: int)
    requires
        0 <= i <= hs.len(),
    ensures
        sum_sizes(hs.take(i)) <= sum_sizes(hs),
    decreases hs.len(),
{
    if i < hs.len() {
        assert(hs.drop_last().take(i) =~= hs.take(i));
        lemma_sum_sizes_prefix(hs.drop_last(), i);
    } else {
        assert(hs.take(i) =~= hs);
    }
}

/// Starting from no recorded identifier, adding the headers succeeds
/// exactly when [`headers_add_ok`] holds.
proof fn lemma_adds_ok_start(ident: VolumeIdentifier, hs: Seq<Hammer2VolumeData>)
    requires
        ident.nvolumes == 0,
    ensures
        adds_ok(ident, 0, hs) == headers_add_ok(hs),
{
}

impl Ondisk {
    /// Makes up a file system of the volumes at `paths`, whose headers are
    /// `headers`, adding them in order; the first volume that cannot be
    /// added stops it with its error.
    pub fn init_volumes(paths: &Vec<&str>, readonly: bool, quiet: bool, headers: &Vec<
        Hammer2VolumeData,
    >) -> (r: Result<Ondisk, Errno>)
        requires
            paths@.len() == headers@.len(),
            sum_sizes(headers@) <= u64::MAX,
        ensures
            r is Ok <==> headers_add_ok(headers@),
            r is Err ==> r == Err::<Ondisk, Errno>(Errno::EINVAL),
            r matches Ok(od) ==> {
                &&& od.volumes@.len() == headers@.len()
                &&& od.total_size == sum_sizes(headers@)
                &&& od.quiet == quiet
                &&& crate::ondisk::vols_sorted(od.volumes@)
                &&& od.volumes@.len() <= HAMMER2_MAX_VOLUMES
                &&& forall|k: int|
                    0 <= k < od.volumes@.len() ==> #[trigger] od.volumes@[k].id < HAMMER2_MAX_VOLUMES
                &&& volumes_from(od.volumes@, paths@, readonly, headers@, headers@.len() as int)
            },
    {
        let mut od = if quiet {
            Ondisk::new_quiet(None)
        } else {
            Ondisk::new(None)
        };
        let ghost hs = headers@;
        let ghost n = hs.len() as int;
        proof {
            lemma_adds_ok_start(od.ident, hs);
            assert(hs.subrange(0, n) =~= hs);
            assert(hs.take(0) =~= Seq::<Hammer2VolumeData>::empty());
            assert(volume_index(od.volumes@, paths@, readonly, hs, 0, Seq::<int>::empty()));
        }
        let mut i: usize = 0;
        while i < paths.len()
            invariant
                paths@.len() == headers@.len(),
                hs == headers@,
                n == hs.len(),
                sum_sizes(hs) <= u64::MAX,
                i <= n,
                od.volumes@.len() == i,
                od.total_size == sum_sizes(hs.take(i as int)),
                od.quiet == quiet,
                crate::ondisk::vols_sorted(od.volumes@),
                od.volumes@.len() <= HAMMER2_MAX_VOLUMES,
                forall|k: int|
                    0 <= k < od.volumes@.len() ==> #[trigger] od.volumes@[k].id < HAMMER2_MAX_VOLUMES,
                headers_add_ok(hs) == adds_ok(od.ident, i as nat, hs.subrange(i as int, n)),
                volumes_from(od.volumes@, paths@, readonly, hs, i as int),
            decreases n - i,
        {
            proof {
                lemma_sum_sizes_prefix(hs, i + 1);
                assert(hs.take(i + 1).drop_last() =~= hs.take(i as int));
                assert(hs.subrange(i as int, n).drop_first() =~= hs.subrange(i + 1, n));
                assert(hs.subrange(i as int, n)[0] == hs[i as int]);
            }
            let ghost od0 = od;
            match od.add_volume(paths[i], readonly, &headers[i]) {
                Ok(()) => {},
                Err(e) => {
                    return Err(e);
                },
            }
            proof {
                let x = choose|x: Volume|
                    {
                        &&& x.id == hs[i as int].volu_id && x.path@ == paths@[i as int]@
                            && x.readonly == readonly
                        &&& x.offset == hs[i as int].volu_loff@[hs[i as int].volu_id as int]
                        &&& x.size == hs[i as int].volu_size
                        &&& od.volumes@ == crate::ondisk::vol_isort(od0.volumes@.push(x))
                    };
                crate::ondisk::lemma_vol_isort(od0.volumes@.push(x));
                let pushed = od0.volumes@.push(x);
                assert forall|k: int| 0 <= k < pushed.len() implies #[trigger] pushed[k].id
                    < HAMMER2_MAX_VOLUMES by {
                    if k < od0.volumes@.len() {
                        assert(pushed[k] == od0.volumes@[k]);
                    }
                }
                crate::ondisk::lemma_vol_isort_ids(pushed);
                lemma_volumes_from_step(od0.volumes@, od.volumes@, x, paths@, readonly, hs, i as int);
            }
            i = i + 1;
        }
        proof {
            assert(hs.take(n) =~= hs);
        }
        Ok(od)
    }
}

} // verus!
