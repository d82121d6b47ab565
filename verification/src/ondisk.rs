//! The set of volumes a file system is made of, the checks of their
//! layout, and the decoding and checking of media.
use vstd::prelude::*;
use vstd::string::{StrSliceExecFns, StringExecFns};
use crate::errno::Errno;
use crate::fs::{
    self, blockref_decodes, le32, le64, Hammer2Blockref, Hammer2InodeData, Hammer2VolumeData,
    HAMMER2_BREF_TYPE_FREEMAP, HAMMER2_BREF_TYPE_FREEMAP_NODE, HAMMER2_BREF_TYPE_INDIRECT,
    HAMMER2_BREF_TYPE_INODE, HAMMER2_BREF_TYPE_VOLUME, HAMMER2_CHECK_DISABLED,
    HAMMER2_CHECK_FREEMAP, HAMMER2_CHECK_ISCSI32, HAMMER2_CHECK_NONE, HAMMER2_CHECK_SHA192,
    HAMMER2_CHECK_XXHASH64, HAMMER2_FREEMAP_LEVEL1_MASK, HAMMER2_FREEMAP_LEVEL1_SIZE,
    HAMMER2_MAX_VOLUMES, HAMMER2_OPFLAG_DIRECTDATA, HAMMER2_PFSTYPE_SUPROOT,
    HAMMER2_VOLUME_ALIGNMASK, HAMMER2_VOL_VERSION_DEFAULT, HAMMER2_VOL_VERSION_MULTI_VOLUMES,
};
use crate::icrc::{iscsi_crc32, iscsi_crc32_spec};
use crate::sha::{sha256, sha256_spec};
use crate::subs::get_uuid_string_from_bytes;
use crate::subs::uuid_text;
use crate::text::ascii_chars;
use crate::volume::Volume;
use crate::xxhash::{xxh64, xxh64_spec};

verus! {

/// What all volumes of one file system must agree on.
#[derive(Debug, Clone, Copy)]
pub struct VolumeIdentifier {
    pub version: u32,
    pub nvolumes: u8,
    pub fsid: [u8; 16],
    pub fstype: [u8; 16],
}

impl VolumeIdentifier {
    /// An identifier with the given version (the default one when `None`).
    pub fn new(version: Option<u32>) -> (r: Self)
        ensures
            r.version == match version {
                Some(v) => v,
                None => HAMMER2_VOL_VERSION_DEFAULT,
            },
            r.nvolumes == 0,
    {
        let version = match version {
            Some(v) => v,
            None => HAMMER2_VOL_VERSION_DEFAULT,
        };
        Self { version, nvolumes: 0, fsid: [0u8; 16], fstype: [0u8; 16] }
    }
}

/// The identity and size of a volume's device as the system reports them.
#[derive(Debug, Clone, Copy, PartialEq, Eq, Structural)]
pub struct DeviceStat {
    pub ino: u64,
    pub dev: u64,
    pub size: u64,
}

/// The volumes of a file system, ordered by id, and their total size.
#[derive(Debug)]
pub struct Ondisk {
    pub volumes: Vec<Volume>,
    pub total_size: u64,
    pub ident: VolumeIdentifier,
    pub quiet: bool,
}

/// Where a volume with id `id` enters a list: behind every volume whose id
/// is not larger, searching from the end.
pub open spec fn vol_insert_pos(s: Seq<Volume>, id: usize) -> int
    decreases s.len(),
{
    if s.len() == 0 {
        0
    } else if s.last().id > id {
        vol_insert_pos(s.drop_last(), id)
    } else {
        s.len() as int
    }
}

/// The stable sort of `s` by volume id.
pub open spec fn vol_isort(s: Seq<Volume>) -> Seq<Volume>
    decreases s.len(),
{
    if s.len() == 0 {
        s
    } else {
        let t = vol_isort(s.drop_last());
        t.insert(vol_insert_pos(t, s.last().id), s.last())
    }
}

/// The sum of the sizes of the volumes `s`.
pub open spec fn vol_size_sum(s: Seq<Volume>) -> nat
    decreases s.len(),
{
    if s.len() == 0 {
        0
    } else {
        vol_size_sum(s.drop_last()) + s.last().size as nat
    }
}

proof fn lemma_vol_size_sum_insert(s: Seq<Volume>, p: int, x: Volume)
    requires
        0 <= p <= s.len(),
    ensures
        vol_size_sum(s.insert(p, x)) == vol_size_sum(s) + x.size,
    decreases s.len(),
{
    if p == s.len() {
        assert(s.insert(p, x).drop_last() =~= s);
    } else {
        lemma_vol_size_sum_insert(s.drop_last(), p, x);
        assert(s.insert(p, x).drop_last() =~= s.drop_last().insert(p, x));
    }
}

proof fn lemma_vol_size_sum_isort(s: Seq<Volume>)
    ensures
        vol_size_sum(vol_isort(s)) == vol_size_sum(s),
    decreases s.len(),
{
    if s.len() > 0 {
        lemma_vol_size_sum_isort(s.drop_last());
        let t = vol_isort(s.drop_last());
        lemma_vol_isort(s.drop_last());
        lemma_vol_insert_pos(t, s.last().id);
        lemma_vol_size_sum_insert(t, vol_insert_pos(t, s.last().id), s.last());
    }
}

/// Installing a volume keeps the total size the sum of the volume sizes:
/// the volumes after installing `x` into `vs` sum to the old sum plus the
/// size of `x`.
pub proof fn lemma_install_volume_total(vs: Seq<Volume>, x: Volume)
    ensures
        vol_size_sum(vol_isort(vs.push(x))) == vol_size_sum(vs) + x.size,
{
    lemma_vol_size_sum_isort(vs.push(x));
    assert(vs.push(x).drop_last() =~= vs);
}

/// Volume ids do not decrease along the list.
pub open spec fn vols_sorted(s: Seq<Volume>) -> bool {
    forall|i: int, j: int| 0 <= i < j < s.len() ==> #[trigger] s[i].id <= #[trigger] s[j].id
}

/// Each volume's end lies within the 64-bit offset space.
pub open spec fn vols_fit(s: Seq<Volume>) -> bool {
    forall|i: int| 0 <= i < s.len() ==> #[trigger] s[i].offset + s[i].size <= u64::MAX
}

pub proof fn lemma_vol_insert_pos(s: Seq<Volume>, id: usize)
    ensures
        0 <= vol_insert_pos(s, id) <= s.len(),
        forall|k: int| vol_insert_pos(s, id) <= k < s.len() ==> (#[trigger] s[k]).id > id,
        vol_insert_pos(s, id) > 0 ==> s[vol_insert_pos(s, id) - 1].id <= id,
    decreases s.len(),
{
    if s.len() > 0 && s.last().id > id {
        lemma_vol_insert_pos(s.drop_last(), id);
        assert forall|k: int| vol_insert_pos(s, id) <= k < s.len() implies (#[trigger] s[k]).id
            > id by {
            if k < s.len() - 1 {
                assert(s[k] == s.drop_last()[k]);
            }
        }
        if vol_insert_pos(s, id) > 0 {
            assert(s[vol_insert_pos(s, id) - 1] == s.drop_last()[vol_insert_pos(s, id) - 1]);
        }
    }
}

/// Sorting by volume id keeps the volumes, and leaves them sorted.
pub proof fn lemma_vol_isort(s: Seq<Volume>)
    ensures
        vol_isort(s).to_multiset() == s.to_multiset(),
        vol_isort(s).len() == s.len(),
        vols_sorted(vol_isort(s)),
    decreases s.len(),
{
    broadcast use vstd::seq_lib::group_to_multiset_ensures;

    if s.len() > 0 {
        lemma_vol_isort(s.drop_last());
        let t = vol_isort(s.drop_last());
        let x = s.last();
        let p = vol_insert_pos(t, x.id);
        lemma_vol_insert_pos(t, x.id);
        assert(s =~= s.drop_last().push(x));
        let r = t.insert(p, x);
        assert forall|i: int, j: int| 0 <= i < j < r.len() implies #[trigger] r[i].id
            <= #[trigger] r[j].id by {
            if j < p {
                assert(r[i] == t[i] && r[j] == t[j]);
            } else if j == p {
                assert(r[j] == x);
                assert(r[i] == t[i]);
                if i < p - 1 {
                    assert(t[i].id <= t[p - 1].id);
                }
            } else if i < p {
                assert(r[i] == t[i] && r[j] == t[j - 1]);
            } else if i == p {
                assert(r[i] == x && r[j] == t[j - 1]);
            } else {
                assert(r[i] == t[i - 1] && r[j] == t[j - 1]);
            }
        }
    }
}

/// Sorting keeps every volume id below the maximum when all were.
pub proof fn lemma_vol_isort_ids(s: Seq<Volume>)
    requires
        forall|i: int| 0 <= i < s.len() ==> #[trigger] s[i].id < HAMMER2_MAX_VOLUMES,
    ensures
        forall|i: int|
            0 <= i < vol_isort(s).len() ==> #[trigger] vol_isort(s)[i].id < HAMMER2_MAX_VOLUMES,
{
    lemma_vol_isort(s);
    let t = vol_isort(s);
    assert forall|i: int| 0 <= i < t.len() implies #[trigger] t[i].id < HAMMER2_MAX_VOLUMES by {
        vstd::seq_lib::to_multiset_contains(t, t[i]);
        vstd::seq_lib::to_multiset_contains(s, t[i]);
        assert(t.contains(t[i]));
        assert(s.contains(t[i]));
        let j = choose|j: int| 0 <= j < s.len() && s[j] == t[i];
        assert(s[j].id < HAMMER2_MAX_VOLUMES);
    }
}

/// Sorts volumes by id, stably.
fn sort_volumes(v: Vec<Volume>) -> (r: Vec<Volume>)
    ensures
        r@ == vol_isort(v@),
{
    let ghost orig = v@;
    let mut v = v;
    let mut r: Vec<Volume> = Vec::new();
    let ghost mut k: int = 0;
    while v.len() > 0
        invariant
            0 <= k <= orig.len(),
            v@ == orig.subrange(k, orig.len() as int),
            r@ == vol_isort(orig.subrange(0, k)),
        decreases v@.len(),
    {
        let x = v.remove(0);
        proof {
            assert(x == orig[k]);
            assert(orig.subrange(0, k + 1).drop_last() =~= orig.subrange(0, k));
            assert(orig.subrange(0, k + 1).last() == x);
            k = k + 1;
            assert(v@ =~= orig.subrange(k, orig.len() as int));
        }
        let mut j: usize = r.len();
        assert(r@.subrange(0, j as int) =~= r@);
        while j > 0
            invariant
                j <= r@.len(),
                vol_insert_pos(r@.subrange(0, j as int), x.id) == vol_insert_pos(r@, x.id),
            ensures
                j <= r@.len(),
                vol_insert_pos(r@.subrange(0, j as int), x.id) == vol_insert_pos(r@, x.id),
                j == 0 || r@[j - 1].id <= x.id,
            decreases j,
        {
            if r[j - 1].id <= x.id {
                break;
            }
            proof {
                assert(r@.subrange(0, j as int).drop_last() =~= r@.subrange(0, j - 1));
                assert(r@.subrange(0, j as int).last() == r@[j - 1]);
            }
            j = j - 1;
        }
        proof {
            if j > 0 {
                assert(r@.subrange(0, j as int).last() == r@[j - 1]);
            } else {
                assert(r@.subrange(0, 0) =~= Seq::<Volume>::empty());
            }
        }
        r.insert(j, x);
    }
    assert(orig.subrange(0, orig.len() as int) =~= orig);
    r
}

/// The volume header agrees with the identifier.
pub open spec fn ident_matches(ident: VolumeIdentifier, v: Hammer2VolumeData) -> bool {
    &&& ident.version == v.version
    &&& ident.nvolumes == v.nvolumes
    &&& ident.fsid@ == v.fsid@
    &&& ident.fstype@ == v.fstype@
}

/// A volume with the given header can join the file system.
pub open spec fn add_volume_ok(od: Ondisk, v: Hammer2VolumeData) -> bool {
    &&& od.volumes@.len() < HAMMER2_MAX_VOLUMES
    &&& v.volu_id < HAMMER2_MAX_VOLUMES
    &&& (od.ident.nvolumes == 0 || ident_matches(od.ident, v))
}

/// The root volume header checks shared by all layouts.
pub open spec fn root_common_ok(rv: Hammer2VolumeData) -> bool {
    &&& rv.volu_id == fs::HAMMER2_ROOT_VOLUME
    &&& ascii_chars(uuid_text(rv.fstype@)) == fs::HAMMER2_UUID_STRING@
}

/// The device checks shared by all layouts: no device is given twice, no
/// volume is larger than its device, and none is empty.
pub open spec fn devices_ok(vols: Seq<Volume>, devs: Seq<DeviceStat>) -> bool {
    &&& forall|i: int, j: int|
        0 <= j < i < vols.len() ==> !(#[trigger] devs[i].ino == #[trigger] devs[j].ino && devs[i].dev
            == devs[j].dev)
    &&& forall|i: int|
        0 <= i < vols.len() ==> #[trigger] vols[i].size <= devs[i].size && vols[i].size != 0
}

/// The device checks accept exactly the volumes that are not empty and not
/// larger than their devices (a volume may fill its device), on devices
/// that are all different.
pub proof fn lemma_devices_ok(vols: Seq<Volume>, devs: Seq<DeviceStat>)
    requires
        devs.len() == vols.len(),
    ensures
        devices_ok(vols, devs) <==> (forall|i: int|
            0 <= i < vols.len() ==> 0 < #[trigger] vols[i].size && vols[i].size <= devs[i].size) && (
        forall|i: int, j: int|
            0 <= j < i < vols.len() ==> #[trigger] devs[i].dev != #[trigger] devs[j].dev || devs[i].ino
                != devs[j].ino),
{
}

/// The root volume header of a single-volume file system.
pub open spec fn root_ok_1(rv: Hammer2VolumeData) -> bool {
    &&& rv.nvolumes == 0
    &&& rv.total_size == 0
    &&& forall|i: int| 0 <= i < 64 ==> #[trigger] rv.volu_loff@[i] == 0
}

/// The only volume of a single-volume file system.
pub open spec fn vols_ok_1(vols: Seq<Volume>) -> bool {
    &&& vols.len() == 1
    &&& vols[0].id == 0
    &&& vols[0].offset == 0
    &&& vols[0].size & HAMMER2_VOLUME_ALIGNMASK == 0
}

/// The root volume header of a multi-volume file system with `n` volumes of
/// `total` bytes: offsets are set exactly for the volumes that exist.
pub open spec fn root_ok_2(rv: Hammer2VolumeData, n: int, total: u64) -> bool {
    &&& rv.nvolumes == n
    &&& rv.total_size == total
    &&& forall|i: int| 0 <= i < n ==> #[trigger] rv.volu_loff@[i] != u64::MAX
    &&& forall|i: int| n <= i < 64 ==> #[trigger] rv.volu_loff@[i] == u64::MAX
}

/// Volume `i` of a multi-volume file system: ids are consecutive, each
/// volume starts where the previous ends, the first at 0; the last is
/// aligned to the volume alignment, the others are at least one freemap
/// level-1 zone and aligned to it.
pub open spec fn vol_ok_2(vols: Seq<Volume>, i: int) -> bool {
    &&& i > 0 ==> vols[i].id == vols[i - 1].id + 1 && vols[i].offset == vols[i - 1].offset + vols[i
        - 1].size
    &&& i == 0 ==> vols[i].offset == 0
    &&& i == vols.len() - 1 ==> vols[i].size & HAMMER2_VOLUME_ALIGNMASK == 0
    &&& i != vols.len() - 1 ==> vols[i].size >= HAMMER2_FREEMAP_LEVEL1_SIZE && vols[i].size
        & HAMMER2_FREEMAP_LEVEL1_MASK == 0
}

pub open spec fn vols_ok_2(vols: Seq<Volume>) -> bool {
    forall|i: int| 0 <= i < vols.len() ==> #[trigger] vol_ok_2(vols, i)
}

/// Without a root header to check, a layout of a version before 5 (before
/// multiple volumes) passes exactly when it is one volume, with id 0 at
/// offset 0, whose size is a non-zero multiple of 8 MiB that its device
/// can hold (a volume may fill its whole device).
pub proof fn lemma_single_volume_layout(od: Ondisk, devs: Seq<DeviceStat>)
    requires
        od.ident.version < 5,
        devs.len() == od.volumes@.len(),
    ensures
        volumes_ok(od, None, devs) <==> ({
            let v = od.volumes@;
            &&& v.len() == 1 && v[0].id == 0 && v[0].offset == 0
            &&& v[0].size % 0x80_0000 == 0 && 0 < v[0].size <= devs[0].size
        }),
{
    let v = od.volumes@;
    if v.len() == 1 {
        let x = v[0].size;
        assert(x & 0x7F_FFFFu64 == 0 <==> x % 0x80_0000 == 0) by (bit_vector);
    }
}

/// Without a root header to check, a layout of version 5 or later passes
/// exactly when its volumes sit on different devices that hold them, none
/// empty, the first at offset 0, each next one with the next id and
/// starting where the one before ends; every volume but the last is a
/// multiple of 1 GiB (at least 1 GiB), the last a multiple of 8 MiB.
pub proof fn lemma_multi_volume_layout(od: Ondisk, devs: Seq<DeviceStat>)
    requires
        od.ident.version >= 5,
        devs.len() == od.volumes@.len(),
    ensures
        volumes_ok(od, None, devs) <==> ({
            let v = od.volumes@;
            &&& forall|i: int|
                0 <= i < v.len() ==> 0 < #[trigger] v[i].size && v[i].size <= devs[i].size
            &&& forall|i: int, j: int|
                0 <= j < i < v.len() ==> #[trigger] devs[i].dev != #[trigger] devs[j].dev
                    || devs[i].ino != devs[j].ino
            &&& v.len() > 0 ==> v[0].offset == 0
            &&& forall|i: int|
                0 < i < v.len() ==> #[trigger] v[i].id == v[i - 1].id + 1 && v[i].offset == v[i
                    - 1].offset + v[i - 1].size
            &&& forall|i: int|
                0 <= i < v.len() - 1 ==> #[trigger] v[i].size % 0x4000_0000 == 0 && v[i].size
                    >= 0x4000_0000
            &&& v.len() > 0 ==> v[v.len() - 1].size % 0x80_0000 == 0
        }),
{
    let v = od.volumes@;
    lemma_devices_ok(v, devs);
    assert forall|x: u64| #[trigger] (x & 0x3FFF_FFFFu64) == 0 <==> x % 0x4000_0000 == 0 by {
        assert(x & 0x3FFF_FFFFu64 == 0 <==> x % 0x4000_0000 == 0) by (bit_vector);
    }
    assert forall|x: u64| #[trigger] (x & 0x7F_FFFFu64) == 0 <==> x % 0x80_0000 == 0 by {
        assert(x & 0x7F_FFFFu64 == 0 <==> x % 0x80_0000 == 0) by (bit_vector);
    }
    let rhs = {
        &&& forall|i: int|
            0 <= i < v.len() ==> 0 < #[trigger] v[i].size && v[i].size <= devs[i].size
        &&& forall|i: int, j: int|
            0 <= j < i < v.len() ==> #[trigger] devs[i].dev != #[trigger] devs[j].dev
                || devs[i].ino != devs[j].ino
        &&& v.len() > 0 ==> v[0].offset == 0
        &&& forall|i: int|
            0 < i < v.len() ==> #[trigger] v[i].id == v[i - 1].id + 1 && v[i].offset == v[i
                - 1].offset + v[i - 1].size
        &&& forall|i: int|
            0 <= i < v.len() - 1 ==> #[trigger] v[i].size % 0x4000_0000 == 0 && v[i].size
                >= 0x4000_0000
        &&& v.len() > 0 ==> v[v.len() - 1].size % 0x80_0000 == 0
    };
    if vols_ok_2(v) {
        assert forall|i: int| 0 < i < v.len() implies #[trigger] v[i].id == v[i - 1].id + 1
            && v[i].offset == v[i - 1].offset + v[i - 1].size by {
            assert(vol_ok_2(v, i));
        }
        assert forall|i: int| 0 <= i < v.len() - 1 implies #[trigger] v[i].size % 0x4000_0000 == 0
            && v[i].size >= 0x4000_0000 by {
            assert(vol_ok_2(v, i));
            assert((v[i].size & 0x3FFF_FFFFu64) == 0);
        }
        if v.len() > 0 {
            assert(vol_ok_2(v, 0));
            assert(vol_ok_2(v, v.len() - 1));
            assert((v[v.len() - 1].size & 0x7F_FFFFu64) == 0);
        }
    }
    if rhs {
        assert forall|i: int| 0 <= i < v.len() implies #[trigger] vol_ok_2(v, i) by {
            if i > 0 {
                assert(v[i].id == v[i - 1].id + 1);
            }
            if i != v.len() - 1 {
                assert(v[i].size % 0x4000_0000 == 0);
                assert((v[i].size & 0x3FFF_FFFFu64) == 0);
            } else {
                assert((v[i].size & 0x7F_FFFFu64) == 0);
            }
        }
    }
}

/// Volumes laid end to end from `base`.
pub open spec fn end_to_end(s: Seq<Volume>, base: int) -> bool {
    &&& s.len() > 0 ==> s[0].offset == base
    &&& forall|i: int| 0 < i < s.len() ==> #[trigger] s[i].offset == s[i - 1].offset + s[i - 1].size
}

proof fn lemma_vol_size_sum_first(s: Seq<Volume>)
    requires
        s.len() > 0,
    ensures
        vol_size_sum(s) == s[0].size + vol_size_sum(s.drop_first()),
    decreases s.len(),
{
    if s.len() > 1 {
        lemma_vol_size_sum_first(s.drop_last());
        assert(s.drop_last().drop_first() =~= s.drop_first().drop_last());
        assert(s.drop_last()[0] == s[0]);
        assert(s.drop_first().last() == s.last());
        assert(vol_size_sum(s.drop_first()) == vol_size_sum(s.drop_first().drop_last())
            + s.drop_first().last().size);
        assert(vol_size_sum(s) == vol_size_sum(s.drop_last()) + s.last().size);
    } else {
        assert(s.drop_last().len() == 0);
        assert(s.drop_first().len() == 0);
        assert(vol_size_sum(s.drop_last()) == 0);
        assert(vol_size_sum(s.drop_first()) == 0);
        assert(s.last() == s[0]);
        assert(vol_size_sum(s) == vol_size_sum(s.drop_last()) + s.last().size);
    }
}

/// Volumes of nonzero size laid end to end from `base` hold exactly the
/// offsets from `base` up to `base` plus their total size.
proof fn lemma_end_to_end_holds(s: Seq<Volume>, base: int, x: u64)
    requires
        end_to_end(s, base),
        forall|i: int| 0 <= i < s.len() ==> #[trigger] s[i].size != 0,
    ensures
        first_volume_with(s, x) >= 0 <==> base <= x < base + vol_size_sum(s),
    decreases s.len(),
{
    if s.len() > 0 {
        lemma_vol_size_sum_first(s);
        let t = s.drop_first();
        assert forall|i: int| 0 < i < t.len() implies #[trigger] t[i].offset == t[i - 1].offset
            + t[i - 1].size by {
            assert(t[i] == s[i + 1] && t[i - 1] == s[i]);
        }
        if t.len() > 0 {
            assert(t[0] == s[1]);
        }
        lemma_end_to_end_holds(t, base + s[0].size, x);
    }
}

/// The volumes of a checked multi-volume set, none of them empty, tile the
/// offsets from 0 up to their total size: an offset lies in a volume
/// exactly when it is below the sum of the volume sizes (the total size,
/// which installing volumes keeps), and the ids count up from the first.
pub proof fn lemma_volume_set_tiles(vols: Seq<Volume>, x: u64)
    requires
        vols_ok_2(vols),
        forall|i: int| 0 <= i < vols.len() ==> #[trigger] vols[i].size != 0,
    ensures
        first_volume_with(vols, x) >= 0 <==> x < vol_size_sum(vols),
        forall|i: int| 0 <= i < vols.len() ==> #[trigger] vols[i].id == vols[0].id + i,
{
    if vols.len() > 0 {
        assert(vol_ok_2(vols, 0));
    }
    assert forall|i: int| 0 < i < vols.len() implies #[trigger] vols[i].offset == vols[i - 1].offset
        + vols[i - 1].size by {
        assert(vol_ok_2(vols, i));
    }
    lemma_end_to_end_holds(vols, 0, x);
    assert forall|i: int| 0 <= i < vols.len() implies #[trigger] vols[i].id == vols[0].id + i by {
        lemma_ids_count_up(vols, i);
    }
}

proof fn lemma_ids_count_up(vols: Seq<Volume>, i: int)
    requires
        vols_ok_2(vols),
        0 <= i < vols.len(),
    ensures
        vols[i].id == vols[0].id + i,
    decreases i,
{
    if i > 0 {
        assert(vol_ok_2(vols, i));
        lemma_ids_count_up(vols, i - 1);
    }
}

/// Ids are below the maximum, there are at most that many volumes, and
/// each volume lies within the offset space.
pub open spec fn ondisk_wf(od: Ondisk) -> bool {
    &&& od.volumes@.len() <= HAMMER2_MAX_VOLUMES
    &&& forall|i: int| 0 <= i < od.volumes@.len() ==> #[trigger] od.volumes@[i].id < HAMMER2_MAX_VOLUMES
    &&& vols_fit(od.volumes@)
}

/// What checking the volumes needs so that it does not panic: ids below
/// the maximum, and, where a root volume
/// header lists as many volumes as there are, no more than the header has
/// offsets for.
pub open spec fn verify_pre(od: Ondisk, rv: Option<&Hammer2VolumeData>) -> bool {
    &&& forall|i: int| 0 <= i < od.volumes@.len() ==> #[trigger] od.volumes@[i].id < HAMMER2_MAX_VOLUMES
    &&& (rv matches Some(h) && h.nvolumes as int == od.volumes@.len() ==> od.volumes@.len()
        <= HAMMER2_MAX_VOLUMES)
}

/// The layout of the volumes passes every check of its version; with a
/// root volume header, that header is checked too.
pub open spec fn volumes_ok(od: Ondisk, rv: Option<Hammer2VolumeData>, devs: Seq<DeviceStat>) -> bool {
    let vols = od.volumes@;
    &&& (rv matches Some(h) ==> root_common_ok(h))
    &&& devices_ok(vols, devs)
    &&& if od.ident.version >= HAMMER2_VOL_VERSION_MULTI_VOLUMES {
        &&& (rv matches Some(h) ==> root_ok_2(h, vols.len() as int, od.total_size))
        &&& vols_ok_2(vols)
    } else {
        &&& (rv matches Some(h) ==> root_ok_1(h))
        &&& vols_ok_1(vols)
    }
}

/// The index of the first volume that holds the raw offset `raw`, or -1.
pub open spec fn first_volume_with(s: Seq<Volume>, raw: u64) -> int
    decreases s.len(),
{
    if s.len() == 0 {
        -1
    } else if s[0].offset <= raw < s[0].offset + s[0].size {
        0
    } else {
        let r = first_volume_with(s.drop_first(), raw);
        if r < 0 {
            -1
        } else {
            r + 1
        }
    }
}

pub proof fn lemma_first_volume_with(s: Seq<Volume>, raw: u64)
    ensures
        -1 <= first_volume_with(s, raw) < s.len(),
        first_volume_with(s, raw) >= 0 ==> s[first_volume_with(s, raw)].offset <= raw < s[first_volume_with(
            s,
            raw,
        )].offset + s[first_volume_with(s, raw)].size,
        forall|k: int|
            0 <= k < s.len() && (first_volume_with(s, raw) < 0 || k < first_volume_with(s, raw))
                ==> !(#[trigger] s[k].offset <= raw < s[k].offset + s[k].size),
    decreases s.len(),
{
    if s.len() > 0 && !(s[0].offset <= raw < s[0].offset + s[0].size) {
        lemma_first_volume_with(s.drop_first(), raw);
        assert forall|k: int|
            0 <= k < s.len() && (first_volume_with(s, raw) < 0 || k < first_volume_with(s, raw))
                implies !(#[trigger] s[k].offset <= raw < s[k].offset + s[k].size) by {
            if k > 0 {
                assert(s[k] == s.drop_first()[k - 1]);
            }
        }
    }
}

impl Ondisk {
    pub fn new(version: Option<u32>) -> (r: Self)
        ensures
            r.volumes@.len() == 0,
            r.total_size == 0,
            r.ident.nvolumes == 0,
            r.ident.version == match version {
                Some(v) => v,
                None => HAMMER2_VOL_VERSION_DEFAULT,
            },
            !r.quiet,
    {
        Self { volumes: Vec::new(), total_size: 0, ident: VolumeIdentifier::new(version), quiet: false }
    }

    pub fn new_quiet(version: Option<u32>) -> (r: Self)
        ensures
            r.volumes@.len() == 0,
            r.total_size == 0,
            r.ident.nvolumes == 0,
            r.ident.version == match version {
                Some(v) => v,
                None => HAMMER2_VOL_VERSION_DEFAULT,
            },
            r.quiet,
    {
        Self { volumes: Vec::new(), total_size: 0, ident: VolumeIdentifier::new(version), quiet: true }
    }

    pub fn get_nvolumes(&self) -> (r: usize)
        ensures
            r == self.volumes@.len(),
    {
        self.volumes.len()
    }

    pub fn get_total_size(&self) -> (r: u64)
        ensures
            r == self.total_size,
    {
        self.total_size
    }

    /// Adds a volume, keeping the volumes sorted by id (stably), and adds
    /// its size to the total.
    pub fn install_volume(&mut self, id: u8, path: &str, readonly: bool, offset: u64, size: u64)
        requires
            old(self).total_size + size <= u64::MAX,
        ensures
            exists|x: Volume|
                {
                    &&& x.id == id && x.path@ == path@ && x.readonly == readonly
                    &&& x.offset == offset && x.size == size
                    &&& final(self).volumes@ == vol_isort(old(self).volumes@.push(x))
                },
            final(self).total_size == old(self).total_size + size,
            old(self).total_size == vol_size_sum(old(self).volumes@) ==> final(self).total_size
                == vol_size_sum(final(self).volumes@),
            final(self).ident == old(self).ident,
            final(self).quiet == old(self).quiet,
    {
        let vol = Volume::new(id, path, readonly, offset, size);
        let ghost x = vol;
        let mut vols: Vec<Volume> = Vec::new();
        std::mem::swap(&mut vols, &mut self.volumes);
        vols.push(vol);
        self.volumes = sort_volumes(vols);
        self.total_size = self.total_size + size;
        assert(self.volumes@ == vol_isort(old(self).volumes@.push(x)));
        proof {
            lemma_install_volume_total(old(self).volumes@, x);
        }
    }

    /// Adds the volume at `path` whose header is `voldata`: the volume count
    /// must stay within the maximum, the header's id must be valid, and
    /// every header must agree on version, volume count and UUIDs with the
    /// first one that recorded them; `EINVAL` otherwise.
    pub fn add_volume(&mut self, path: &str, readonly: bool, voldata: &Hammer2VolumeData) -> (r:
        Result<(), Errno>)
        requires
            add_volume_ok(*old(self), *voldata) ==> old(self).total_size + voldata.volu_size
                <= u64::MAX,
        ensures
            r is Ok <==> add_volume_ok(*old(self), *voldata),
            r is Err ==> r == Err::<(), Errno>(Errno::EINVAL) && final(self).volumes@ == old(
                self,
            ).volumes@ && final(self).total_size == old(self).total_size && final(self).ident
                == old(self).ident,
            r is Ok ==> {
                &&& final(self).ident == if old(self).ident.nvolumes == 0 {
                    VolumeIdentifier {
                        version: voldata.version,
                        nvolumes: voldata.nvolumes,
                        fsid: voldata.fsid,
                        fstype: voldata.fstype,
                    }
                } else {
                    old(self).ident
                }
                &&& final(self).total_size == old(self).total_size + voldata.volu_size
                &&& exists|x: Volume|
                    {
                        &&& x.id == voldata.volu_id && x.path@ == path@ && x.readonly == readonly
                        &&& x.offset == voldata.volu_loff@[voldata.volu_id as int]
                        &&& x.size == voldata.volu_size
                        &&& final(self).volumes@ == vol_isort(old(self).volumes@.push(x))
                    }
            },
            final(self).quiet == old(self).quiet,
    {
        if self.volumes.len() >= HAMMER2_MAX_VOLUMES as usize {
            return Err(Errno::EINVAL);
        }
        if voldata.volu_id >= HAMMER2_MAX_VOLUMES {
            return Err(Errno::EINVAL);
        }
        if self.ident.nvolumes == 0 {
            self.ident.version = voldata.version;
            self.ident.nvolumes = voldata.nvolumes;
            self.ident.fsid = voldata.fsid;
            self.ident.fstype = voldata.fstype;
        } else {
            if self.ident.version != voldata.version {
                return Err(Errno::EINVAL);
            }
            if self.ident.nvolumes != voldata.nvolumes {
                return Err(Errno::EINVAL);
            }
            let mut i: usize = 0;
            while i < 16
                invariant
                    i <= 16,
                    self.ident == old(self).ident,
                    old(self).ident.nvolumes != 0,
                    self.volumes@ == old(self).volumes@,
                    self.total_size == old(self).total_size,
                    forall|k: int| 0 <= k < i ==> self.ident.fsid@[k] == voldata.fsid@[k],
                decreases 16 - i,
            {
                if self.ident.fsid[i] != voldata.fsid[i] {
                    assert(self.ident.fsid@[i as int] != voldata.fsid@[i as int]);
                    assert(self.ident.fsid@ != voldata.fsid@);
                    return Err(Errno::EINVAL);
                }
                i = i + 1;
            }
            assert(self.ident.fsid@ =~= voldata.fsid@);
            let mut i: usize = 0;
            while i < 16
                invariant
                    i <= 16,
                    self.ident == old(self).ident,
                    old(self).ident.nvolumes != 0,
                    self.volumes@ == old(self).volumes@,
                    self.total_size == old(self).total_size,
                    forall|k: int| 0 <= k < i ==> self.ident.fstype@[k] == voldata.fstype@[k],
                decreases 16 - i,
            {
                if self.ident.fstype[i] != voldata.fstype[i] {
                    assert(self.ident.fstype@[i as int] != voldata.fstype@[i as int]);
                    assert(self.ident.fstype@ != voldata.fstype@);
                    return Err(Errno::EINVAL);
                }
                i = i + 1;
            }
            assert(self.ident.fstype@ =~= voldata.fstype@);
        }
        let id = voldata.volu_id;
        self.install_volume(
            id,
            path,
            readonly,
            voldata.volu_loff[id as usize],
            voldata.volu_size,
        );
        Ok(())
    }

    /// The checks shared by all layouts (root header id and type, device
    /// uniqueness and sizes), given the root volume header when it is to be
    /// checked and the device of each volume.
    pub fn verify_volumes_common(
        &self,
        rootvoldata: Option<&Hammer2VolumeData>,
        devs: &Vec<DeviceStat>,
    ) -> (r: Result<(), Errno>)
        requires
            devs@.len() == self.volumes@.len(),
        ensures
            r is Ok <==> (rootvoldata matches Some(h) ==> root_common_ok(*h)) && devices_ok(
                self.volumes@,
                devs@,
            ),
            r is Err ==> r == Err::<(), Errno>(Errno::EINVAL),
    {
        if let Some(rv) = rootvoldata {
            if rv.volu_id != fs::HAMMER2_ROOT_VOLUME {
                return Err(Errno::EINVAL);
            }
            let s = get_uuid_string_from_bytes(rv.fstype.as_slice());
            if !(s == fs::HAMMER2_UUID_STRING.to_string()) {
                return Err(Errno::EINVAL);
            }
        }
        let n = self.volumes.len();
        let mut i: usize = 0;
        while i < n
            invariant
                n == self.volumes@.len(),
                devs@.len() == n,
                i <= n,
                forall|a: int, b: int|
                    0 <= b < a < i ==> !(#[trigger] devs@[a].ino == #[trigger] devs@[b].ino
                        && devs@[a].dev == devs@[b].dev),
                forall|a: int|
                    0 <= a < i ==> #[trigger] self.volumes@[a].size <= devs@[a].size
                        && self.volumes@[a].size != 0,
            decreases n - i,
        {
            let mut j: usize = 0;
            while j < i
                invariant
                    n == devs@.len(),
                    n == self.volumes@.len(),
                    j <= i < n,
                    forall|b: int|
                        0 <= b < j ==> !(devs@[i as int].ino == #[trigger] devs@[b].ino
                            && devs@[i as int].dev == devs@[b].dev),
                decreases i - j,
            {
                if devs[i].ino == devs[j].ino && devs[i].dev == devs[j].dev {
                    assert(!devices_ok(self.volumes@, devs@)) by {
                        assert(devs@[i as int].ino == devs@[j as int].ino && devs@[i as int].dev
                            == devs@[j as int].dev);
                    }
                    return Err(Errno::EINVAL);
                }
                j = j + 1;
            }
            let vol = &self.volumes[i];
            if vol.size > devs[i].size {
                assert(!(self.volumes@[i as int].size <= devs@[i as int].size));
                return Err(Errno::EINVAL);
            }
            if vol.size == 0 {
                assert(!(self.volumes@[i as int].size != 0));
                return Err(Errno::EINVAL);
            }
            i = i + 1;
        }
        Ok(())
    }

    /// The checks of a single-volume layout.
    pub fn verify_volumes_1(&self, rootvoldata: Option<&Hammer2VolumeData>) -> (r: Result<(), Errno>)
        ensures
            r is Ok <==> (rootvoldata matches Some(h) ==> root_ok_1(*h)) && vols_ok_1(
                self.volumes@,
            ),
            r is Err ==> r == Err::<(), Errno>(Errno::EINVAL),
    {
        if self.volumes.len() != 1 {
            return Err(Errno::EINVAL);
        }
        if let Some(rv) = rootvoldata {
            if rv.nvolumes != 0 {
                return Err(Errno::EINVAL);
            }
            if rv.total_size != 0 {
                return Err(Errno::EINVAL);
            }
            let mut i: usize = 0;
            while i < 64
                invariant
                    i <= 64,
                    rootvoldata == Some(rv),
                    forall|k: int| 0 <= k < i ==> #[trigger] rv.volu_loff@[k] == 0,
                decreases 64 - i,
            {
                if rv.volu_loff[i] != 0 {
                    assert(rv.volu_loff@[i as int] != 0);
                    return Err(Errno::EINVAL);
                }
                i = i + 1;
            }
        }
        let vol = &self.volumes[0];
        if vol.id != 0 {
            return Err(Errno::EINVAL);
        }
        if vol.offset != 0 {
            return Err(Errno::EINVAL);
        }
        if vol.size & HAMMER2_VOLUME_ALIGNMASK != 0 {
            return Err(Errno::EINVAL);
        }
        Ok(())
    }

    /// The checks of a multi-volume layout.
    pub fn verify_volumes_2(&self, rootvoldata: Option<&Hammer2VolumeData>) -> (r: Result<(), Errno>)
        requires
            verify_pre(*self, rootvoldata),
        ensures
            r is Ok <==> (rootvoldata matches Some(h) ==> root_ok_2(
                *h,
                self.volumes@.len() as int,
                self.total_size,
            )) && vols_ok_2(self.volumes@),
            r is Err ==> r == Err::<(), Errno>(Errno::EINVAL),
    {
        let nvolumes = self.volumes.len();
        if let Some(rv) = rootvoldata {
            if rv.nvolumes as usize != nvolumes {
                return Err(Errno::EINVAL);
            }
            if rv.total_size != self.total_size {
                return Err(Errno::EINVAL);
            }
            let mut i: usize = 0;
            while i < nvolumes
                invariant
                    nvolumes <= 64,
                    nvolumes == self.volumes@.len(),
                    rootvoldata == Some(rv),
                    i <= nvolumes,
                    forall|k: int| 0 <= k < i ==> #[trigger] rv.volu_loff@[k] != u64::MAX,
                decreases nvolumes - i,
            {
                if rv.volu_loff[i] == u64::MAX {
                    assert(rv.volu_loff@[i as int] == u64::MAX);
                    return Err(Errno::EINVAL);
                }
                i = i + 1;
            }
            let mut i: usize = nvolumes;
            while i < 64
                invariant
                    nvolumes <= i <= 64,
                    nvolumes == self.volumes@.len(),
                    rootvoldata == Some(rv),
                    forall|k: int| nvolumes <= k < i ==> #[trigger] rv.volu_loff@[k] == u64::MAX,
                decreases 64 - i,
            {
                if rv.volu_loff[i] != u64::MAX {
                    assert(rv.volu_loff@[i as int] != u64::MAX);
                    return Err(Errno::EINVAL);
                }
                i = i + 1;
            }
        }
        let mut i: usize = 0;
        while i < nvolumes
            invariant
                nvolumes == self.volumes@.len(),
                verify_pre(*self, rootvoldata),
                i <= nvolumes,
                forall|k: int| 0 <= k < i ==> #[trigger] vol_ok_2(self.volumes@, k),
            decreases nvolumes - i,
        {
            let vol = &self.volumes[i];
            if i > 0 {
                let prev = &self.volumes[i - 1];
                assert(prev.id < 64);
                if vol.id != prev.id + 1 {
                    assert(!vol_ok_2(self.volumes@, i as int));
                    return Err(Errno::EINVAL);
                }
                if prev.size > u64::MAX - prev.offset || vol.offset != prev.offset + prev.size {
                    assert(!vol_ok_2(self.volumes@, i as int));
                    return Err(Errno::EINVAL);
                }
            } else {
                if vol.offset != 0 {
                    assert(!vol_ok_2(self.volumes@, i as int));
                    return Err(Errno::EINVAL);
                }
            }
            if i == nvolumes - 1 {
                if vol.size & HAMMER2_VOLUME_ALIGNMASK != 0 {
                    assert(!vol_ok_2(self.volumes@, i as int));
                    return Err(Errno::EINVAL);
                }
            } else {
                if vol.size < HAMMER2_FREEMAP_LEVEL1_SIZE {
                    assert(!vol_ok_2(self.volumes@, i as int));
                    return Err(Errno::EINVAL);
                }
                if vol.size & HAMMER2_FREEMAP_LEVEL1_MASK != 0 {
                    assert(!vol_ok_2(self.volumes@, i as int));
                    return Err(Errno::EINVAL);
                }
            }
            i = i + 1;
        }
        Ok(())
    }

    /// Checks the layout of the volumes: the common checks, then those of
    /// the layout version; `EINVAL` when one fails.
    pub fn verify_volumes(&self, rootvoldata: Option<&Hammer2VolumeData>, devs: &Vec<DeviceStat>) -> (r:
        Result<(), Errno>)
        requires
            devs@.len() == self.volumes@.len(),
            verify_pre(*self, rootvoldata),
        ensures
            r is Ok <==> volumes_ok(
                *self,
                match rootvoldata {
                    Some(h) => Some(*h),
                    None => None,
                },
                devs@,
            ),
            r is Err ==> r == Err::<(), Errno>(Errno::EINVAL),
    {
        self.verify_volumes_common(rootvoldata, devs)?;
        if self.ident.version >= HAMMER2_VOL_VERSION_MULTI_VOLUMES {
            self.verify_volumes_2(rootvoldata)
        } else {
            self.verify_volumes_1(rootvoldata)
        }
    }

    /// The first volume that holds the offset (radix bits ignored).
    pub fn get_volume(&self, offset: u64) -> (r: Option<&Volume>)
        requires
            vols_fit(self.volumes@),
        ensures
            ({
                let i = first_volume_with(self.volumes@, (offset - offset % 64) as u64);
                &&& i < 0 ==> r is None
                &&& i >= 0 ==> (r matches Some(v) && *v == self.volumes@[i])
            }),
    {
        let raw = crate::extra::conv_offset_to_raw_data_off(offset);
        assert(raw == (offset - offset % 64) as u64);
        let i = self.get_volume_index(raw);
        match i {
            Some(i) => {
                let v = &self.volumes[i];
                Some(v)
            },
            None => None,
        }
    }

    /// The index of the first volume that holds the raw offset.
    pub fn get_volume_index(&self, raw: u64) -> (r: Option<usize>)
        requires
            vols_fit(self.volumes@),
        ensures
            first_volume_with(self.volumes@, raw) < 0 ==> r is None,
            first_volume_with(self.volumes@, raw) >= 0 ==> r is Some,
            r matches Some(i) ==> i < self.volumes@.len() && i == first_volume_with(
                self.volumes@,
                raw,
            ),
            first_volume_with(self.volumes@, raw) < self.volumes@.len(),
    {
        proof {
            lemma_first_volume_with(self.volumes@, raw);
        }
        let mut i: usize = 0;
        while i < self.volumes.len()
            invariant
                i <= self.volumes@.len(),
                vols_fit(self.volumes@),
                forall|k: int|
                    0 <= k < i ==> !(#[trigger] self.volumes@[k].offset <= raw
                        < self.volumes@[k].offset + self.volumes@[k].size),
            decreases self.volumes@.len() - i,
        {
            let vol = &self.volumes[i];
            assert(vol.offset + vol.size <= u64::MAX);
            if raw >= vol.offset && raw < vol.offset + vol.size {
                proof {
                    lemma_first_volume_with(self.volumes@, raw);
                    let f = first_volume_with(self.volumes@, raw);
                    assert(self.volumes@[i as int].offset <= raw < self.volumes@[i as int].offset
                        + self.volumes@[i as int].size);
                    if f >= 0 && f < i {
                        assert(self.volumes@[f].offset <= raw);
                    }
                }
                return Some(i);
            }
            i = i + 1;
        }
        proof {
            lemma_first_volume_with(self.volumes@, raw);
            let f = first_volume_with(self.volumes@, raw);
            if f >= 0 {
                assert(self.volumes@[f].offset <= raw);
            }
        }
        None
    }

    /// The first volume that holds the offset, for update.
    pub fn get_volume_mut(&mut self, offset: u64) -> (r: Option<&mut Volume>)
        requires
            vols_fit(old(self).volumes@),
        ensures
            ({
                let i = first_volume_with(old(self).volumes@, (offset - offset % 64) as u64);
                &&& i < 0 ==> r is None && final(self).volumes@ == old(self).volumes@
                &&& i >= 0 ==> (r matches Some(v) && *v == old(self).volumes@[i]
                    && final(self).volumes@ == old(self).volumes@.update(i, *final(v)))
            }),
            final(self).total_size == old(self).total_size,
            final(self).ident == old(self).ident,
            final(self).quiet == old(self).quiet,
    {
        let raw = crate::extra::conv_offset_to_raw_data_off(offset);
        assert(raw == (offset - offset % 64) as u64);
        let i = self.get_volume_index(raw);
        match i {
            Some(i) => Some(&mut self.volumes[i]),
            None => None,
        }
    }

    /// The volume that holds offset 0.
    pub fn get_root_volume(&self) -> (r: Option<&Volume>)
        requires
            vols_fit(self.volumes@),
        ensures
            ({
                let i = first_volume_with(self.volumes@, 0);
                &&& i < 0 ==> r is None
                &&& i >= 0 ==> (r matches Some(v) && *v == self.volumes@[i])
            }),
    {
        self.get_volume(0)
    }

    /// The volume that holds offset 0, for update.
    pub fn get_root_volume_mut(&mut self) -> (r: Option<&mut Volume>)
        requires
            vols_fit(old(self).volumes@),
        ensures
            ({
                let i = first_volume_with(old(self).volumes@, 0);
                &&& i < 0 ==> r is None && final(self).volumes@ == old(self).volumes@
                &&& i >= 0 ==> (r matches Some(v) && *v == old(self).volumes@[i]
                    && final(self).volumes@ == old(self).volumes@.update(i, *final(v)))
            }),
            final(self).total_size == old(self).total_size,
            final(self).ident == old(self).ident,
            final(self).quiet == old(self).quiet,
    {
        self.get_volume_mut(0)
    }

    /// All volumes, in order.
    pub fn get_volumes(&self) -> (r: Vec<&Volume>)
        ensures
            r@.len() == self.volumes@.len(),
            forall|i: int| 0 <= i < r@.len() ==> *r@[i] == self.volumes@[i],
    {
        let mut v: Vec<&Volume> = Vec::new();
        let mut i: usize = 0;
        while i < self.volumes.len()
            invariant
                i <= self.volumes@.len(),
                v@.len() == i,
                forall|k: int| 0 <= k < i ==> *v@[k] == self.volumes@[k],
            decreases self.volumes@.len() - i,
        {
            v.push(&self.volumes[i]);
            i = i + 1;
        }
        v
    }
}

/// The contiguous layout a multi-volume check accepts leaves no gap: every
/// offset below the total size lies in exactly the volume that starts at or
/// before it and ends after it, and no offset at or beyond the total lies in
/// any volume.
pub proof fn lemma_contiguous_volumes_cover(vols: Seq<Volume>, total: u64, raw: u64)
    requires
        vols_ok_2(vols),
        vols.len() > 0,
        vols_fit(vols),
        total == vols.last().offset + vols.last().size,
    ensures
        raw < total <==> first_volume_with(vols, raw) >= 0,
    decreases vols.len(),
{
    lemma_first_volume_with(vols, raw);
    lemma_contiguous_offsets(vols, vols.len() as int);
    if raw < total {
        assert(exists|k: int|
            0 <= k < vols.len() && #[trigger] vols[k].offset <= raw < vols[k].offset + vols[k].size)
            by {
            lemma_contiguous_find(vols, raw, vols.len() - 1);
        }
    } else {
        assert forall|k: int| 0 <= k < vols.len() implies !(#[trigger] vols[k].offset <= raw
            < vols[k].offset + vols[k].size) by {
            lemma_contiguous_offsets(vols, k + 1);
            lemma_contiguous_end_below(vols, k);
        }
    }
}

/// In a contiguous layout, volume `k` starts where the previous ones end.
proof fn lemma_contiguous_offsets(vols: Seq<Volume>, n: int)
    requires
        vols_ok_2(vols),
        0 <= n <= vols.len(),
    ensures
        forall|k: int| 0 < k < n ==> #[trigger] vols[k].offset == vols[k - 1].offset + vols[k - 1].size,
        n > 0 ==> vols[0].offset == 0,
{
    if n > 0 {
        assert(vol_ok_2(vols, 0));
    }
    assert forall|k: int| 0 < k < n implies #[trigger] vols[k].offset == vols[k - 1].offset + vols[k
        - 1].size by {
        assert(vol_ok_2(vols, k));
    }
}

/// In a contiguous layout, some volume at or before `k` holds any offset
/// below the end of volume `k`.
proof fn lemma_contiguous_find(vols: Seq<Volume>, raw: u64, k: int)
    requires
        vols_ok_2(vols),
        0 <= k < vols.len(),
        raw < vols[k].offset + vols[k].size,
    ensures
        exists|j: int| 0 <= j <= k && #[trigger] vols[j].offset <= raw < vols[j].offset + vols[j].size,
    decreases k,
{
    assert(vol_ok_2(vols, k));
    if raw >= vols[k].offset {
        assert(vols[k].offset <= raw < vols[k].offset + vols[k].size);
    } else {
        lemma_contiguous_find(vols, raw, k - 1);
    }
}

/// In a contiguous layout, every volume ends at or before the last one.
proof fn lemma_contiguous_end_below(vols: Seq<Volume>, k: int)
    requires
        vols_ok_2(vols),
        0 <= k < vols.len(),
    ensures
        vols[k].offset + vols[k].size <= vols.last().offset + vols.last().size,
    decreases vols.len() - k,
{
    if k < vols.len() - 1 {
        assert(vol_ok_2(vols, k + 1));
        lemma_contiguous_end_below(vols, k + 1);
    }
}

/// The block reference decoded from the 128 bytes at `off` of `s`.
pub open spec fn bref_at(s: Seq<u8>, off: int) -> Hammer2Blockref {
    choose|r: Hammer2Blockref| blockref_decodes(r, s, off)
}

/// The `n` block references laid out one after another from `off`.
pub open spec fn brefs_at(s: Seq<u8>, off: int, n: nat) -> Seq<Hammer2Blockref> {
    Seq::new(n, |i: int| bref_at(s, off + 128 * i))
}

pub proof fn lemma_blockref_decodes_unique(r1: Hammer2Blockref, r2: Hammer2Blockref, s: Seq<u8>, off: int)
    requires
        blockref_decodes(r1, s, off),
        blockref_decodes(r2, s, off),
    ensures
        r1 == r2,
{
    assert(r1.embed =~= r2.embed);
    assert(r1.check =~= r2.check);
}

/// Decodes the block reference at `off`.
pub fn blockref_at(s: &[u8], off: usize) -> (r: Hammer2Blockref)
    requires
        off + 128 <= s@.len(),
    ensures
        r == bref_at(s@, off as int),
{
    let r = Hammer2Blockref::from_bytes(s, off);
    proof {
        let c = bref_at(s@, off as int);
        assert(blockref_decodes(c, s@, off as int));
        lemma_blockref_decodes_unique(r, c, s@, off as int);
    }
    r
}

/// Decodes `n` block references laid out one after another from `off`.
pub fn blockrefs_at(s: &[u8], off: usize, n: usize) -> (r: Vec<Hammer2Blockref>)
    requires
        off + 128 * n <= s@.len(),
    ensures
        r@ == brefs_at(s@, off as int, n as nat),
{
    let _len = s.len();
    let mut v: Vec<Hammer2Blockref> = Vec::new();
    let mut i: usize = 0;
    while i < n
        invariant
            off + 128 * n <= s@.len(),
            _len == s@.len(),
            i <= n,
            v@ == brefs_at(s@, off as int, i as nat),
        decreases n - i,
    {
        let b = blockref_at(s, off + 128 * i);
        v.push(b);
        i = i + 1;
        assert(v@ =~= brefs_at(s@, off as int, i as nat));
    }
    v
}

/// An inode's embedded area holds a block set (rather than direct data):
/// it is the super-root, or it does not hold direct data.
pub open spec fn inode_has_blockset(media: Seq<u8>) -> bool {
    media[0x89] == HAMMER2_PFSTYPE_SUPROOT || media[0x51] & HAMMER2_OPFLAG_DIRECTDATA == 0
}

/// The media of a block reference of type `typ` has the size that its
/// records need: an inode, a volume header, or whole block references.
pub open spec fn media_size_ok(typ: u8, media: Seq<u8>) -> bool {
    &&& typ == HAMMER2_BREF_TYPE_INODE ==> media.len() == 1024
    &&& (typ == HAMMER2_BREF_TYPE_FREEMAP || typ == HAMMER2_BREF_TYPE_VOLUME) ==> media.len() == 65536
    &&& (typ == HAMMER2_BREF_TYPE_INDIRECT || typ == HAMMER2_BREF_TYPE_FREEMAP_NODE) ==> media.len()
        % 128 == 0
}

/// The block references that the media of a block reference of type `typ`
/// holds: an inode's block set (none when it holds direct data), all
/// records of an indirect or freemap node, the freemap or super-root block
/// set of a volume header; `EINVAL` for other types.
pub open spec fn media_blockrefs(typ: u8, media: Seq<u8>) -> Result<Seq<Hammer2Blockref>, Errno> {
    if typ == HAMMER2_BREF_TYPE_INODE {
        if inode_has_blockset(media) {
            Ok(brefs_at(media, 0x200, 4))
        } else {
            Ok(Seq::empty())
        }
    } else if typ == HAMMER2_BREF_TYPE_INDIRECT || typ == HAMMER2_BREF_TYPE_FREEMAP_NODE {
        Ok(brefs_at(media, 0, media.len() / 128))
    } else if typ == HAMMER2_BREF_TYPE_FREEMAP {
        Ok(brefs_at(media, 0x800, 4))
    } else if typ == HAMMER2_BREF_TYPE_VOLUME {
        Ok(brefs_at(media, 0x200, 4))
    } else {
        Err(Errno::EINVAL)
    }
}

/// A media's block table holds at most one entry per 128 bytes, or four.
pub proof fn lemma_media_blockrefs_len(typ: u8, media: Seq<u8>)
    ensures
        media_blockrefs(typ, media) matches Ok(s) ==> s.len() <= 4 || s.len() <= media.len() / 128,
{
}

/// Decodes an inode from its media.
pub fn media_as_inode_data(media: &[u8]) -> (r: Hammer2InodeData)
    requires
        media@.len() == 1024,
    ensures
        fs::inode_data_decodes(r, media@),
{
    Hammer2InodeData::from_bytes(media)
}

/// Decodes a volume header from its media.
pub fn media_as_volume_data(media: &[u8]) -> (r: Hammer2VolumeData)
    requires
        media@.len() == 65536,
    ensures
        fs::volume_data_decodes(r, media@),
{
    Hammer2VolumeData::from_bytes(media)
}

/// The block references held by the media of `bref`.
pub fn media_as_blockref(bref: &Hammer2Blockref, media: &[u8]) -> (r: Result<
    Vec<Hammer2Blockref>,
    Errno,
>)
    requires
        media_size_ok(bref.typ, media@),
    ensures
        match media_blockrefs(bref.typ, media@) {
            Ok(s) => (r matches Ok(v) && v@ == s),
            Err(e) => r == Err::<Vec<Hammer2Blockref>, Errno>(e),
        },
{
    let typ = bref.typ;
    if typ == HAMMER2_BREF_TYPE_INODE {
        if media[0x89] == HAMMER2_PFSTYPE_SUPROOT || media[0x51] & HAMMER2_OPFLAG_DIRECTDATA == 0 {
            Ok(blockrefs_at(media, 0x200, 4))
        } else {
            Ok(Vec::new())
        }
    } else if typ == HAMMER2_BREF_TYPE_INDIRECT || typ == HAMMER2_BREF_TYPE_FREEMAP_NODE {
        Ok(blockrefs_at(media, 0, media.len() / 128))
    } else if typ == HAMMER2_BREF_TYPE_FREEMAP {
        Ok(blockrefs_at(media, 0x800, 4))
    } else if typ == HAMMER2_BREF_TYPE_VOLUME {
        Ok(blockrefs_at(media, 0x200, 4))
    } else {
        Err(Errno::EINVAL)
    }
}

/// The block references held by the media of `bref`, none for a type that
/// holds none.
pub fn media_as_blockref_safe(bref: &Hammer2Blockref, media: &[u8]) -> (r: Vec<Hammer2Blockref>)
    requires
        media_size_ok(bref.typ, media@),
    ensures
        match media_blockrefs(bref.typ, media@) {
            Ok(s) => r@ == s,
            Err(_) => r@.len() == 0,
        },
{
    match media_as_blockref(bref, media) {
        Ok(v) => v,
        Err(_) => Vec::new(),
    }
}

/// Whether media passes the check code of its block reference, by the
/// check method encoded in it: none and disabled always pass; iSCSI CRC32,
/// xxhash64, SHA-256 (for the sha192 method) and the freemap CRC compare
/// the code stored at the start of the check area; `EINVAL` for unknown
/// methods.
pub open spec fn verify_media_spec(bref: Hammer2Blockref, media: Seq<u8>) -> Result<bool, Errno> {
    let c = fs::spec_dec_level(bref.methods);
    if c == HAMMER2_CHECK_NONE || c == HAMMER2_CHECK_DISABLED {
        Ok(true)
    } else if c == HAMMER2_CHECK_ISCSI32 {
        Ok(le32(bref.check@, 0) == iscsi_crc32_spec(media))
    } else if c == HAMMER2_CHECK_XXHASH64 {
        Ok(le64(bref.check@, 0) == xxh64_spec(media))
    } else if c == HAMMER2_CHECK_SHA192 {
        Ok(bref.check@.subrange(0, 32) == sha256_spec(media))
    } else if c == HAMMER2_CHECK_FREEMAP {
        Ok(le32(bref.check@, 0) == iscsi_crc32_spec(media))
    } else {
        Err(Errno::EINVAL)
    }
}

/// Checks media against the check code of its block reference.
pub fn verify_media(bref: &Hammer2Blockref, media: &[u8]) -> (r: Result<bool, Errno>)
    ensures
        r == verify_media_spec(*bref, media@),
{
    let c = fs::dec_check(bref.methods);
    if c == HAMMER2_CHECK_NONE || c == HAMMER2_CHECK_DISABLED {
        Ok(true)
    } else if c == HAMMER2_CHECK_ISCSI32 {
        let v = fs::read_u32_le(bref.check.as_slice(), 0);
        Ok(v == iscsi_crc32(media))
    } else if c == HAMMER2_CHECK_XXHASH64 {
        let v = fs::read_u64_le(bref.check.as_slice(), 0);
        Ok(v == xxh64(media))
    } else if c == HAMMER2_CHECK_SHA192 {
        let d = sha256(media);
        let mut i: usize = 0;
        while i < 32
            invariant
                i <= 32,
                d@.len() == 32,
                d@ == sha256_spec(media@),
                fs::spec_dec_level(bref.methods) == HAMMER2_CHECK_SHA192,
                bref.check@.len() == 64,
                forall|k: int| 0 <= k < i ==> bref.check@[k] == d@[k],
            decreases 32 - i,
        {
            if bref.check[i] != d[i] {
                assert(bref.check@.subrange(0, 32)[i as int] != d@[i as int]);
                return Ok(false);
            }
            i = i + 1;
        }
        assert(bref.check@.subrange(0, 32) =~= d@);
        Ok(true)
    } else if c == HAMMER2_CHECK_FREEMAP {
        let v = fs::read_u32_le(bref.check.as_slice(), 0);
        Ok(v == iscsi_crc32(media))
    } else {
        Err(Errno::EINVAL)
    }
}

} // verus!
