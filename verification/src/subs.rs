//! Names of types and methods, the directory hash, UUID and time strings.
use vstd::prelude::*;
use vstd::string::StringExecFns;
use crate::fs::{self, spec_dec_algo, spec_dec_level};
use crate::icrc::{iscsi_crc32, iscsi_crc32_spec};
use crate::text::{ascii_chars, ascii_string, dec_ascii, decimal_string, hex_fixed, lemma_hex_fixed,
    push_hex_fixed, all_ascii};

verus! {

pub const DEBUFSIZE: usize = 65536;
pub const DEV_BSIZE: u64 = 512;

pub const K: usize = 1024;
pub const M: usize = 1048576;
pub const G: usize = 1073741824;

pub const K_U64: u64 = 1024;
pub const M_U64: u64 = 1048576;
pub const G_U64: u64 = 1073741824;
pub const T_U64: u64 = 1099511627776;

/// The date format of time strings, e.g. `01-Jan-1970 00:00:00`.
pub const TIME_FORMAT: &'static str = "[day]-[month repr:short]-[year] [hour]:[minute]:[second]";

pub const HAMMER2_CHECK_STRINGS: [&'static str; 6] = [
    "none",
    "disabled",
    "crc32",
    "xxhash64",
    "sha192",
    "freemap",
];

pub const HAMMER2_COMP_STRINGS: [&'static str; 4] = ["none", "autozero", "lz4", "zlib"];

/// The name of an inode object type.
pub open spec fn inode_type_name(typ: u8) -> Seq<char> {
    if typ == fs::HAMMER2_OBJTYPE_UNKNOWN {
        "UNKNOWN"@
    } else if typ == fs::HAMMER2_OBJTYPE_DIRECTORY {
        "DIR"@
    } else if typ == fs::HAMMER2_OBJTYPE_REGFILE {
        "FILE"@
    } else if typ == fs::HAMMER2_OBJTYPE_FIFO {
        "FIFO"@
    } else if typ == fs::HAMMER2_OBJTYPE_CDEV {
        "CDEV"@
    } else if typ == fs::HAMMER2_OBJTYPE_BDEV {
        "BDEV"@
    } else if typ == fs::HAMMER2_OBJTYPE_SOFTLINK {
        "SOFTLINK"@
    } else if typ == fs::HAMMER2_OBJTYPE_SOCKET {
        "SOCKET"@
    } else if typ == fs::HAMMER2_OBJTYPE_WHITEOUT {
        "WHITEOUT"@
    } else {
        "ILLEGAL"@
    }
}

pub fn get_inode_type_string(typ: u8) -> (r: &'static str)
    ensures
        r@ == inode_type_name(typ),
{
    if typ == fs::HAMMER2_OBJTYPE_UNKNOWN {
        "UNKNOWN"
    } else if typ == fs::HAMMER2_OBJTYPE_DIRECTORY {
        "DIR"
    } else if typ == fs::HAMMER2_OBJTYPE_REGFILE {
        "FILE"
    } else if typ == fs::HAMMER2_OBJTYPE_FIFO {
        "FIFO"
    } else if typ == fs::HAMMER2_OBJTYPE_CDEV {
        "CDEV"
    } else if typ == fs::HAMMER2_OBJTYPE_BDEV {
        "BDEV"
    } else if typ == fs::HAMMER2_OBJTYPE_SOFTLINK {
        "SOFTLINK"
    } else if typ == fs::HAMMER2_OBJTYPE_SOCKET {
        "SOCKET"
    } else if typ == fs::HAMMER2_OBJTYPE_WHITEOUT {
        "WHITEOUT"
    } else {
        "ILLEGAL"
    }
}

/// The name of a PFS type.
pub open spec fn pfs_type_name(typ: u8) -> Seq<char> {
    if typ == fs::HAMMER2_PFSTYPE_NONE {
        "NONE"@
    } else if typ == fs::HAMMER2_PFSTYPE_SUPROOT {
        "SUPROOT"@
    } else if typ == fs::HAMMER2_PFSTYPE_DUMMY {
        "DUMMY"@
    } else if typ == fs::HAMMER2_PFSTYPE_CACHE {
        "CACHE"@
    } else if typ == fs::HAMMER2_PFSTYPE_SLAVE {
        "SLAVE"@
    } else if typ == fs::HAMMER2_PFSTYPE_SOFT_SLAVE {
        "SOFT_SLAVE"@
    } else if typ == fs::HAMMER2_PFSTYPE_SOFT_MASTER {
        "SOFT_MASTER"@
    } else if typ == fs::HAMMER2_PFSTYPE_MASTER {
        "MASTER"@
    } else {
        "ILLEGAL"@
    }
}

pub fn get_pfs_type_string(typ: u8) -> (r: &'static str)
    ensures
        r@ == pfs_type_name(typ),
{
    if typ == fs::HAMMER2_PFSTYPE_NONE {
        "NONE"
    } else if typ == fs::HAMMER2_PFSTYPE_SUPROOT {
        "SUPROOT"
    } else if typ == fs::HAMMER2_PFSTYPE_DUMMY {
        "DUMMY"
    } else if typ == fs::HAMMER2_PFSTYPE_CACHE {
        "CACHE"
    } else if typ == fs::HAMMER2_PFSTYPE_SLAVE {
        "SLAVE"
    } else if typ == fs::HAMMER2_PFSTYPE_SOFT_SLAVE {
        "SOFT_SLAVE"
    } else if typ == fs::HAMMER2_PFSTYPE_SOFT_MASTER {
        "SOFT_MASTER"
    } else if typ == fs::HAMMER2_PFSTYPE_MASTER {
        "MASTER"
    } else {
        "ILLEGAL"
    }
}

/// The name of a PFS subtype.
pub open spec fn pfs_subtype_name(typ: u8) -> Seq<char> {
    if typ == fs::HAMMER2_PFSSUBTYPE_NONE {
        "NONE"@
    } else if typ == fs::HAMMER2_PFSSUBTYPE_SNAPSHOT {
        "SNAPSHOT"@
    } else if typ == fs::HAMMER2_PFSSUBTYPE_AUTOSNAP {
        "AUTOSNAP"@
    } else {
        "ILLEGAL"@
    }
}

pub fn get_pfs_subtype_string(typ: u8) -> (r: &'static str)
    ensures
        r@ == pfs_subtype_name(typ),
{
    if typ == fs::HAMMER2_PFSSUBTYPE_NONE {
        "NONE"
    } else if typ == fs::HAMMER2_PFSSUBTYPE_SNAPSHOT {
        "SNAPSHOT"
    } else if typ == fs::HAMMER2_PFSSUBTYPE_AUTOSNAP {
        "AUTOSNAP"
    } else {
        "ILLEGAL"
    }
}

/// The name of a block reference type.
pub open spec fn blockref_type_name(typ: u8) -> Seq<char> {
    if typ == fs::HAMMER2_BREF_TYPE_EMPTY {
        "empty"@
    } else if typ == fs::HAMMER2_BREF_TYPE_INODE {
        "inode"@
    } else if typ == fs::HAMMER2_BREF_TYPE_INDIRECT {
        "indirect"@
    } else if typ == fs::HAMMER2_BREF_TYPE_DATA {
        "data"@
    } else if typ == fs::HAMMER2_BREF_TYPE_DIRENT {
        "dirent"@
    } else if typ == fs::HAMMER2_BREF_TYPE_FREEMAP_NODE {
        "freemap_node"@
    } else if typ == fs::HAMMER2_BREF_TYPE_FREEMAP_LEAF {
        "freemap_leaf"@
    } else if typ == fs::HAMMER2_BREF_TYPE_INVALID {
        "invalid"@
    } else if typ == fs::HAMMER2_BREF_TYPE_FREEMAP {
        "freemap"@
    } else if typ == fs::HAMMER2_BREF_TYPE_VOLUME {
        "volume"@
    } else {
        "unknown"@
    }
}

pub fn get_blockref_type_string(typ: u8) -> (r: &'static str)
    ensures
        r@ == blockref_type_name(typ),
{
    if typ == fs::HAMMER2_BREF_TYPE_EMPTY {
        "empty"
    } else if typ == fs::HAMMER2_BREF_TYPE_INODE {
        "inode"
    } else if typ == fs::HAMMER2_BREF_TYPE_INDIRECT {
        "indirect"
    } else if typ == fs::HAMMER2_BREF_TYPE_DATA {
        "data"
    } else if typ == fs::HAMMER2_BREF_TYPE_DIRENT {
        "dirent"
    } else if typ == fs::HAMMER2_BREF_TYPE_FREEMAP_NODE {
        "freemap_node"
    } else if typ == fs::HAMMER2_BREF_TYPE_FREEMAP_LEAF {
        "freemap_leaf"
    } else if typ == fs::HAMMER2_BREF_TYPE_INVALID {
        "invalid"
    } else if typ == fs::HAMMER2_BREF_TYPE_FREEMAP {
        "freemap"
    } else if typ == fs::HAMMER2_BREF_TYPE_VOLUME {
        "volume"
    } else {
        "unknown"
    }
}

/// The name of a check algorithm (index into `HAMMER2_CHECK_STRINGS`).
pub open spec fn check_name(i: u8) -> Seq<char> {
    if i == 0 {
        "none"@
    } else if i == 1 {
        "disabled"@
    } else if i == 2 {
        "crc32"@
    } else if i == 3 {
        "xxhash64"@
    } else if i == 4 {
        "sha192"@
    } else {
        "freemap"@
    }
}

fn check_name_str(i: u8) -> (r: &'static str)
    requires
        i < 6,
    ensures
        r@ == check_name(i),
{
    if i == 0 {
        "none"
    } else if i == 1 {
        "disabled"
    } else if i == 2 {
        "crc32"
    } else if i == 3 {
        "xxhash64"
    } else if i == 4 {
        "sha192"
    } else {
        "freemap"
    }
}

/// The name of a compression algorithm (index into `HAMMER2_COMP_STRINGS`).
pub open spec fn comp_name(i: u8) -> Seq<char> {
    if i == 0 {
        "none"@
    } else if i == 1 {
        "autozero"@
    } else if i == 2 {
        "lz4"@
    } else {
        "zlib"@
    }
}

fn comp_name_str(i: u8) -> (r: &'static str)
    requires
        i < 4,
    ensures
        r@ == comp_name(i),
{
    if i == 0 {
        "none"
    } else if i == 1 {
        "autozero"
    } else if i == 2 {
        "lz4"
    } else {
        "zlib"
    }
}

/// The decimal digits of `n` as characters.
pub open spec fn dec_chars(n: nat) -> Seq<char> {
    ascii_chars(dec_ascii(n))
}

/// `name`, or `unknown(<algo>)` when the algorithm has no name.
pub open spec fn algo_label(algo: u8, count: u8, name: Seq<char>) -> Seq<char> {
    if algo < count {
        name
    } else {
        "unknown("@ + dec_chars(algo as nat) + ")"@
    }
}

/// The text for a check method byte: the algorithm's name (or
/// `unknown(<n>)`), followed by `:<level>` when a level is encoded.
pub open spec fn check_mode_text(x: u8) -> Seq<char> {
    let check = spec_dec_algo(x);
    let level = spec_dec_level(x);
    let label = algo_label(check, 6, check_name(check));
    if level != 0 {
        label + ":"@ + dec_chars(level as nat)
    } else {
        label
    }
}

/// The text for a compression method byte: the algorithm's name (or
/// `unknown(<n>)`), followed by `:<level>`, or `:default` when no level is
/// encoded.
pub open spec fn comp_mode_text(x: u8) -> Seq<char> {
    let comp = spec_dec_algo(x);
    let level = spec_dec_level(x);
    let label = algo_label(comp, 4, comp_name(comp));
    if level != 0 {
        label + ":"@ + dec_chars(level as nat)
    } else {
        label + ":default"@
    }
}

fn unknown_label(algo: u8) -> (r: String)
    ensures
        r@ == "unknown("@ + dec_chars(algo as nat) + ")"@,
{
    let mut s = "unknown(".to_string();
    let d = decimal_string(algo as u64);
    s.append(d.as_str());
    s.append(")");
    s
}

pub fn get_check_mode_string(x: u8) -> (r: String)
    ensures
        r@ == check_mode_text(x),
{
    let check = fs::dec_algo(x);
    let level = fs::dec_level(x);
    let mut s = if check < 6 {
        check_name_str(check).to_string()
    } else {
        unknown_label(check)
    };
    if level != 0 {
        s.append(":");
        let d = decimal_string(level as u64);
        s.append(d.as_str());
    }
    s
}

pub fn get_comp_mode_string(x: u8) -> (r: String)
    ensures
        r@ == comp_mode_text(x),
{
    let comp = fs::dec_algo(x);
    let level = fs::dec_level(x);
    let mut s = if comp < 4 {
        comp_name_str(comp).to_string()
    } else {
        unknown_label(comp)
    };
    if level != 0 {
        s.append(":");
        let d = decimal_string(level as u64);
        s.append(d.as_str());
    } else {
        s.append(":default");
    }
    s
}

/// Directory entry names are split into segments at these bytes.
pub open spec fn is_dirhash_sep(b: u8) -> bool {
    b == 46 || b == 45 || b == 95 || b == 126
}

/// The wrapping sum of the CRCs of the non-empty segments of `s` from the
/// segment that starts at `j`, scanning at `i`, added to `acc`.
pub open spec fn dirhash_segments(s: Seq<u8>, j: int, i: int, acc: u32) -> u32
    decreases s.len() - i,
{
    if i >= s.len() {
        if i != j {
            ((acc + iscsi_crc32_spec(s.subrange(j, i))) % 0x1_0000_0000) as u32
        } else {
            acc
        }
    } else if is_dirhash_sep(s[i]) {
        let acc2 = if i != j {
            ((acc + iscsi_crc32_spec(s.subrange(j, i))) % 0x1_0000_0000) as u32
        } else {
            acc
        };
        dirhash_segments(s, i + 1, i + 1, acc2)
    } else {
        dirhash_segments(s, j, i + 1, acc)
    }
}

/// The directory hash of a name: the top 32 bits are the sum of the
/// segment CRCs with bit 63 set, bits 16..31 come from the CRC of the whole
/// name, and bit 15 is set.
pub open spec fn dirhash_spec(s: Seq<u8>) -> u64 {
    let hi = dirhash_segments(s, 0, 0, 0) | 0x8000_0000u32;
    let c = iscsi_crc32_spec(s);
    let lo = c ^ (c << 16u32);
    ((hi as u64) << 32u64) | ((lo as u64) & 0xFFFF_0000u64) | 0x8000u64
}

/// A directory hash leaves room for its low 15 bits: they are 0 and the
/// bit above them is set.
pub proof fn lemma_dirhash_low(s: Seq<u8>)
    ensures
        dirhash_spec(s) % 0x10000 == 0x8000,
        dirhash_spec(s) + 0x7FFF <= u64::MAX,
{
    let hi = dirhash_segments(s, 0, 0, 0) | 0x8000_0000u32;
    let c = iscsi_crc32_spec(s);
    let lo = c ^ (c << 16u32);
    let a = hi as u64;
    let b = lo as u64;
    assert((((a << 32u64) | (b & 0xFFFF_0000u64) | 0x8000u64) & 0xFFFFu64) == 0x8000u64) by (bit_vector);
    let x = ((a << 32u64) | (b & 0xFFFF_0000u64) | 0x8000u64);
    assert(x & 0xFFFFu64 == x % 0x10000) by (bit_vector);
}

/// Whether a byte ends a segment of a name: '.', '-', '_' or '~'.
pub open spec fn segment_end(b: u8) -> bool {
    b == 0x2e || b == 0x2d || b == 0x5f || b == 0x7e
}

/// The index of the first segment end in `s`, or its length when there is
/// none.
pub open spec fn first_segment_end(s: Seq<u8>) -> int
    decreases s.len(),
{
    if s.len() == 0 || segment_end(s[0]) {
        0
    } else {
        1 + first_segment_end(s.drop_first())
    }
}

/// The CRC of a segment, counting nothing for an empty one.
pub open spec fn segment_crc(t: Seq<u8>) -> int {
    if t.len() == 0 {
        0
    } else {
        iscsi_crc32_spec(t) as int
    }
}

/// The sum, as an integer, of the CRCs of the segments of `s`: the pieces
/// between its segment ends, taken from the front.
pub open spec fn segment_crc_sum(s: Seq<u8>) -> int
    decreases s.len(),
{
    let k = first_segment_end(s);
    if 0 <= k < s.len() {
        segment_crc(s.take(k)) + segment_crc_sum(s.skip(k + 1))
    } else {
        segment_crc(s)
    }
}

/// The first segment end of `s` is where the name stops having none.
proof fn lemma_first_segment_end(s: Seq<u8>)
    ensures
        0 <= first_segment_end(s) <= s.len(),
        forall|m: int| 0 <= m < first_segment_end(s) ==> !segment_end(#[trigger] s[m]),
        first_segment_end(s) < s.len() ==> segment_end(s[first_segment_end(s)]),
    decreases s.len(),
{
    if s.len() > 0 && !segment_end(s[0]) {
        lemma_first_segment_end(s.drop_first());
        assert forall|m: int| 0 <= m < first_segment_end(s) implies !segment_end(#[trigger] s[m]) by {
            if m > 0 {
                assert(s[m] == s.drop_first()[m - 1]);
            }
        }
    }
}

/// Scanning the segments from `j`, with no segment end in `s[j..i]`, adds
/// the CRCs of the segments of the rest of the name to `acc`, modulo 2^32.
proof fn lemma_segments_sum(s: Seq<u8>, j: int, i: int, acc: u32)
    requires
        0 <= j <= i <= s.len(),
        forall|m: int| j <= m < i ==> !segment_end(#[trigger] s[m]),
    ensures
        dirhash_segments(s, j, i, acc) as int == (acc + segment_crc_sum(s.skip(j))) % 0x1_0000_0000,
    decreases s.len() - i,
{
    let t = s.skip(j);
    lemma_first_segment_end(t);
    if i >= s.len() {
        if first_segment_end(t) < t.len() {
            assert(t[first_segment_end(t)] == s[j + first_segment_end(t)]);
        }
        assert(t =~= s.subrange(j, i));
    } else if is_dirhash_sep(s[i]) {
        let acc2: u32 = if i != j {
            ((acc + iscsi_crc32_spec(s.subrange(j, i))) % 0x1_0000_0000) as u32
        } else {
            acc
        };
        lemma_segments_sum(s, i + 1, i + 1, acc2);
        let k = first_segment_end(t);
        assert(t[i - j] == s[i]);
        if k < i - j {
            assert(t[k] == s[j + k]);
        }
        assert(k == i - j);
        assert(t.take(k) =~= s.subrange(j, i));
        assert(t.skip(k + 1) =~= s.skip(i + 1));
        let x = segment_crc_sum(s.skip(i + 1));
        let c = segment_crc(s.subrange(j, i));
        vstd::arithmetic::div_mod::lemma_add_mod_noop_right(x, acc + c, 0x1_0000_0000);
    } else {
        lemma_segments_sum(s, j, i + 1, acc);
    }
}

/// The top 32 bits of the directory hash of a name are the sum, modulo
/// 2^32, of the CRCs of its non-empty segments (the pieces between '.',
/// '-', '_' and '~'), with the top bit set.
pub proof fn lemma_dirhash_high(s: Seq<u8>)
    ensures
        dirhash_spec(s) >> 32u64 == ((segment_crc_sum(s) % 0x1_0000_0000) as u64 | 0x8000_0000u64),
{
    lemma_segments_sum(s, 0, 0, 0);
    assert(s.skip(0) =~= s);
    let x = dirhash_segments(s, 0, 0, 0);
    let hi = x | 0x8000_0000u32;
    let c = iscsi_crc32_spec(s);
    let lo = c ^ (c << 16u32);
    assert(((hi as u64) << 32u64 | ((lo as u64) & 0xFFFF_0000u64) | 0x8000u64) >> 32u64 == hi as u64)
        by (bit_vector);
    assert(hi as u64 == (x as u64) | 0x8000_0000u64) by (bit_vector)
        requires
            hi == x | 0x8000_0000u32,
    ;
}

/// Bits 16 to 31 of the directory hash of a name are the two halves of the
/// CRC of the whole name XORed together.
pub proof fn lemma_dirhash_mid(s: Seq<u8>)
    ensures
        (dirhash_spec(s) >> 16u64) & 0xFFFFu64 == (((iscsi_crc32_spec(s) >> 16u32) ^ (iscsi_crc32_spec(s)
            & 0xFFFFu32)) as u64),
{
    let x = dirhash_segments(s, 0, 0, 0);
    let hi = x | 0x8000_0000u32;
    let c = iscsi_crc32_spec(s);
    let lo = c ^ (c << 16u32);
    assert((((hi as u64) << 32u64 | ((lo as u64) & 0xFFFF_0000u64) | 0x8000u64) >> 16u64) & 0xFFFFu64
        == (((c >> 16u32) ^ (c & 0xFFFFu32)) as u64)) by (bit_vector)
        requires
            lo == c ^ (c << 16u32),
    ;
}

/// A name of two segments around a '.': the top 32 bits of its directory
/// hash are the sum of the two CRCs, modulo 2^32, with the top bit set.
pub proof fn lemma_dirhash_two_segments(a: Seq<u8>, b: Seq<u8>)
    requires
        a.len() > 0 && b.len() > 0,
        forall|m: int| 0 <= m < a.len() ==> !segment_end(#[trigger] a[m]),
        forall|m: int| 0 <= m < b.len() ==> !segment_end(#[trigger] b[m]),
    ensures
        dirhash_spec(a + seq![0x2eu8] + b) >> 32u64 == (((iscsi_crc32_spec(a) as int
            + iscsi_crc32_spec(b) as int) % 0x1_0000_0000) as u64 | 0x8000_0000u64),
{
    let s = a + seq![0x2eu8] + b;
    lemma_dirhash_high(s);
    lemma_first_segment_end(s);
    let k = first_segment_end(s);
    assert(s[a.len() as int] == 0x2eu8);
    if k < a.len() {
        assert(s[k] == a[k]);
    }
    assert(k == a.len());
    assert(s.take(k) =~= a);
    assert(s.skip(k + 1) =~= b);
    lemma_first_segment_end(b);
    if first_segment_end(b) < b.len() {
        assert(segment_end(b[first_segment_end(b)]));
    }
    assert(first_segment_end(b) == b.len());
    assert(segment_crc_sum(b) == iscsi_crc32_spec(b) as int);
    assert(segment_crc_sum(s) == iscsi_crc32_spec(a) as int + iscsi_crc32_spec(b) as int);
}

/// The directory hash of a name.
pub fn dirhash(aname: &[u8]) -> (r: u64)
    ensures
        r == dirhash_spec(aname@),
{
    let n = aname.len();
    let mut crcx: u32 = 0;
    let mut i: usize = 0;
    let mut j: usize = 0;
    while i < n
        invariant
            n == aname@.len(),
            j <= i <= n,
            dirhash_segments(aname@, j as int, i as int, crcx) == dirhash_segments(
                aname@,
                0,
                0,
                0,
            ),
        decreases n - i,
    {
        let x = aname[i];
        if x == 46 || x == 45 || x == 95 || x == 126 {
            if i != j {
                let c = iscsi_crc32(vstd::slice::slice_subrange(aname, j, i));
                crcx = crcx.wrapping_add(c);
            }
            j = i + 1;
        }
        i = i + 1;
    }
    if i != j {
        let c = iscsi_crc32(vstd::slice::slice_subrange(aname, j, i));
        crcx = crcx.wrapping_add(c);
    }
    crcx = crcx | 0x8000_0000u32;
    let mut key: u64 = (crcx as u64) << 32u64;
    let mut crcx: u32 = iscsi_crc32(aname);
    crcx = crcx ^ (crcx << 16u32);
    key = key | ((crcx as u64) & 0xFFFF_0000u64);
    key | 0x8000u64
}

/// The canonical text of a UUID stored with its first three fields in
/// little-endian order.
pub open spec fn uuid_text(b: Seq<u8>) -> Seq<u8> {
    hex_fixed(b[3] as nat, 2) + hex_fixed(b[2] as nat, 2) + hex_fixed(b[1] as nat, 2) + hex_fixed(
        b[0] as nat,
        2,
    ) + seq![45u8] + hex_fixed(b[5] as nat, 2) + hex_fixed(b[4] as nat, 2) + seq![45u8]
        + hex_fixed(b[7] as nat, 2) + hex_fixed(b[6] as nat, 2) + seq![45u8] + hex_fixed(
        b[8] as nat,
        2,
    ) + hex_fixed(b[9] as nat, 2) + seq![45u8] + hex_fixed(b[10] as nat, 2) + hex_fixed(
        b[11] as nat,
        2,
    ) + hex_fixed(b[12] as nat, 2) + hex_fixed(b[13] as nat, 2) + hex_fixed(b[14] as nat, 2)
        + hex_fixed(b[15] as nat, 2)
}

/// The canonical text of a UUID whose first three fields are stored
/// little-endian, as on media.
pub fn get_uuid_string_from_bytes(b: &[u8]) -> (r: String)
    requires
        b@.len() >= 16,
    ensures
        r@ == ascii_chars(uuid_text(b@)),
{
    let mut v: Vec<u8> = Vec::new();
    push_hex_fixed(&mut v, b[3] as u64, 2);
    push_hex_fixed(&mut v, b[2] as u64, 2);
    push_hex_fixed(&mut v, b[1] as u64, 2);
    push_hex_fixed(&mut v, b[0] as u64, 2);
    v.push(45u8);
    push_hex_fixed(&mut v, b[5] as u64, 2);
    push_hex_fixed(&mut v, b[4] as u64, 2);
    v.push(45u8);
    push_hex_fixed(&mut v, b[7] as u64, 2);
    push_hex_fixed(&mut v, b[6] as u64, 2);
    v.push(45u8);
    push_hex_fixed(&mut v, b[8] as u64, 2);
    push_hex_fixed(&mut v, b[9] as u64, 2);
    v.push(45u8);
    push_hex_fixed(&mut v, b[10] as u64, 2);
    push_hex_fixed(&mut v, b[11] as u64, 2);
    push_hex_fixed(&mut v, b[12] as u64, 2);
    push_hex_fixed(&mut v, b[13] as u64, 2);
    push_hex_fixed(&mut v, b[14] as u64, 2);
    push_hex_fixed(&mut v, b[15] as u64, 2);
    proof {
        assert(v@ =~= uuid_text(b@));
        assert forall|k: int| 0 <= k < 16 implies all_ascii(#[trigger] hex_fixed(b@[k] as nat, 2))
            by {
            lemma_hex_fixed(b@[k] as nat, 2);
        }
        assert(all_ascii(seq![45u8]));
        assert(all_ascii(v@));
    }
    ascii_string(v)
}

/// The canonical text of a UUID held as media bytes.
pub fn get_uuid_string(u: &[u8; 16]) -> (r: String)
    ensures
        r@ == ascii_chars(uuid_text(u@)),
{
    get_uuid_string_from_bytes(u.as_slice())
}

/// The 16 bytes of the UUID that `s` denotes, in field order, or `None`
/// when `s` is not a UUID.
pub uninterp spec fn uuid_parse(s: Seq<char>) -> Option<Seq<u8>>;

/// Parses a UUID with `uuid::Uuid::parse_str` and hands back its bytes; the
/// result is a function of the text alone, and the bytes are 16.
#[verifier::external_body]
fn uuid_parse_bytes(s: &str) -> (r: Option<[u8; 16]>)
    ensures
        r is Some <==> uuid_parse(s@) is Some,
        r matches Some(b) ==> uuid_parse(s@) == Some(b@),
{
    match uuid::Uuid::parse_str(s) {
        Ok(u) => Some(*u.as_bytes()),
        Err(_) => None,
    }
}

/// The text is not a UUID.
#[derive(Debug, Clone, Copy, PartialEq, Eq, Structural)]
pub struct UuidError;

/// The field bytes of a UUID in media order: the first three fields
/// byte-swapped to little-endian.
pub open spec fn uuid_media_order(b: Seq<u8>) -> Seq<u8> {
    seq![b[3], b[2], b[1], b[0], b[5], b[4], b[7], b[6]] + b.subrange(8, 16)
}

/// Parses a UUID and stores its first three fields little-endian, as on
/// media.
pub fn get_uuid_from_str(s: &str) -> (r: Result<[u8; 16], UuidError>)
    ensures
        r is Ok <==> uuid_parse(s@) is Some,
        r matches Ok(u) ==> u@ == uuid_media_order(uuid_parse(s@)->0),
        r is Err ==> r == Err::<[u8; 16], UuidError>(UuidError),
{
    let src = match uuid_parse_bytes(s) {
        Some(b) => b,
        None => {
            return Err(UuidError);
        },
    };
    let mut dst = src;
    dst[0] = src[3];
    dst[1] = src[2];
    dst[2] = src[1];
    dst[3] = src[0];
    dst[4] = src[5];
    dst[5] = src[4];
    dst[6] = src[7];
    dst[7] = src[6];
    assert(dst@ =~= uuid_media_order(src@));
    Ok(dst)
}

/// Microseconds to whole seconds.
pub fn conv_time_to_timespec(t: u64) -> (r: u64)
    ensures
        r == t / 1_000_000,
{
    t / 1_000_000
}

/// Whole seconds to microseconds.
pub fn conv_timespec_to_time(t: u64) -> (r: u64)
    requires
        t * 1_000_000 <= u64::MAX,
    ensures
        r == t * 1_000_000,
{
    t * 1_000_000
}

/// The text of a Unix time in UTC formatted by the given `time` format
/// description, or `None` when the time is out of range or the description
/// does not parse.
pub uninterp spec fn utc_time_format(secs: int, description: Seq<char>) -> Option<Seq<char>>;

/// Formats the Unix time `secs` in UTC with `time`: the description is
/// parsed by `time::format_description::parse`, the date made by
/// `OffsetDateTime::from_unix_timestamp` and rendered by
/// `OffsetDateTime::format`; the result is a function of the two arguments.
#[verifier::external_body]
fn format_unix_time(secs: i64, description: &str) -> (r: Option<String>)
    ensures
        r is Some <==> utc_time_format(secs as int, description@) is Some,
        r matches Some(s) ==> utc_time_format(secs as int, description@) == Some(s@),
{
    let items = time::format_description::parse(description).ok()?;
    let dt = time::OffsetDateTime::from_unix_timestamp(secs).ok()?;
    dt.format(&items).ok()
}

/// The time cannot be shown: it is out of range.
#[derive(Debug, Clone, Copy, PartialEq, Eq, Structural)]
pub struct TimeError;

/// The whole seconds of `t` microseconds shifted by `d` seconds.
pub open spec fn shifted_secs(t: u64, d: i64) -> int {
    t / 1_000_000 + d
}

/// The time string of `t` microseconds since the epoch shifted by `d`
/// seconds, in the `TIME_FORMAT` layout.
pub fn get_time_string_impl(t: u64, d: i64) -> (r: Result<String, TimeError>)
    requires
        i64::MIN <= shifted_secs(t, d) <= i64::MAX,
    ensures
        r is Ok <==> utc_time_format(shifted_secs(t, d), TIME_FORMAT@) is Some,
        r matches Ok(s) ==> utc_time_format(shifted_secs(t, d), TIME_FORMAT@) == Some(s@),
        r is Err ==> r == Err::<String, TimeError>(TimeError),
{
    let secs: i64 = (t / 1_000_000) as i64 + d;
    match format_unix_time(secs, TIME_FORMAT) {
        Some(s) => Ok(s),
        None => Err(TimeError),
    }
}

/// The UTC time string of `t` microseconds since the epoch.
pub fn get_time_string(t: u64) -> (r: String)
    requires
        utc_time_format(shifted_secs(t, 0), TIME_FORMAT@) is Some,
    ensures
        utc_time_format(shifted_secs(t, 0), TIME_FORMAT@) == Some(r@),
{
    match get_time_string_impl(t, 0) {
        Ok(s) => s,
        Err(_) => {
            assert(false);
            String::new()
        },
    }
}

/// The UTC time string of `t` microseconds since the epoch, or `None` when
/// it cannot be shown.
pub fn try_get_time_string(t: u64) -> (r: Option<String>)
    ensures
        r is Some <==> utc_time_format(shifted_secs(t, 0), TIME_FORMAT@) is Some,
        r matches Some(s) ==> utc_time_format(shifted_secs(t, 0), TIME_FORMAT@) == Some(s@),
{
    match get_time_string_impl(t, 0) {
        Ok(_) => Some(get_time_string(t)),
        Err(_) => None,
    }
}

/// Reads a 32-bit value in the machine's byte order with
/// `byteorder::NativeEndian::read_u32`; which order that is depends on the
/// machine, so only that it is one of the two is stated.
#[verifier::external_body]
fn native_read_u32(b: &[u8]) -> (r: u32)
    requires
        b@.len() >= 4,
    ensures
        r == fs::le32(b@, 0) || r == be32(b@, 0),
{
    <byteorder::NativeEndian as byteorder::ByteOrder>::read_u32(b)
}

/// Big-endian 32-bit value at `off`.
pub open spec fn be32(s: Seq<u8>, off: int) -> u32 {
    (s[off] * 0x100_0000 + s[off + 1] * 0x1_0000 + s[off + 2] * 0x100 + s[off + 3]) as u32
}

/// Writes a 32-bit value in the machine's byte order with
/// `byteorder::NativeEndian::write_u32_into`; which order that is depends on
/// the machine, so only that it is one of the two is stated.
#[verifier::external_body]
fn native_write_u32(x: u32) -> (r: [u8; 4])
    ensures
        fs::le32(r@, 0) == x || be32(r@, 0) == x,
{
    let mut b = [0u8; 4];
    <byteorder::NativeEndian as byteorder::ByteOrder>::write_u32_into(&[x], &mut b);
    b
}

/// The Unix id held in the last four bytes of a UUID, in machine order.
pub fn conv_uuid_to_unix_xid_from_bytes(b: &[u8]) -> (r: u32)
    requires
        b@.len() >= 16,
    ensures
        r == fs::le32(b@, 12) || r == be32(b@, 12),
{
    let tail = vstd::slice::slice_subrange(b, 12, b.len());
    let r = native_read_u32(tail);
    proof {
        assert(tail@.subrange(0, 4) =~= b@.subrange(12, 16));
        assert(tail@[0] == b@[12] && tail@[1] == b@[13] && tail@[2] == b@[14] && tail@[3] == b@[15]);
    }
    r
}

/// The Unix id held in a UUID.
pub fn conv_uuid_to_unix_xid(u: &[u8; 16]) -> (r: u32)
    ensures
        r == fs::le32(u@, 12) || r == be32(u@, 12),
{
    conv_uuid_to_unix_xid_from_bytes(u.as_slice())
}

/// A UUID holding only a Unix id, in machine order, in its last four bytes.
pub fn conv_unix_xid_to_uuid_bytes(xid: u32) -> (r: [u8; 16])
    ensures
        forall|i: int| 0 <= i < 12 ==> r@[i] == 0,
        fs::le32(r@, 12) == xid || be32(r@, 12) == xid,
{
    let b = native_write_u32(xid);
    let mut uuid = [0u8; 16];
    uuid[12] = b[0];
    uuid[13] = b[1];
    uuid[14] = b[2];
    uuid[15] = b[3];
    assert(uuid@.subrange(12, 16) =~= b@.subrange(0, 4));
    uuid
}

/// A UUID holding only a Unix id.
pub fn conv_unix_xid_to_uuid(xid: u32) -> (r: [u8; 16])
    ensures
        forall|i: int| 0 <= i < 12 ==> r@[i] == 0,
        fs::le32(r@, 12) == xid || be32(r@, 12) == xid,
{
    conv_unix_xid_to_uuid_bytes(xid)
}

/// The mount points among `(fstypename, mntonname, from)` entries whose
/// file system type is `hammer2`, in order.
pub open spec fn hammer2_mounts(s: Seq<(String, String, String)>) -> Seq<Seq<char>>
    decreases s.len(),
{
    if s.len() == 0 {
        Seq::empty()
    } else if s.last().0@ == "hammer2"@ {
        hammer2_mounts(s.drop_last()).push(s.last().1@)
    } else {
        hammer2_mounts(s.drop_last())
    }
}

/// The mount points of the `hammer2` entries of a mount table.
pub fn get_hammer2_mounts(mnt_info: &Vec<(String, String, String)>) -> (r: Vec<String>)
    ensures
        r@.map_values(|s: String| s@) == hammer2_mounts(mnt_info@),
{
    let mut v: Vec<String> = Vec::new();
    let mut i: usize = 0;
    while i < mnt_info.len()
        invariant
            i <= mnt_info@.len(),
            v@.map_values(|s: String| s@) == hammer2_mounts(mnt_info@.subrange(0, i as int)),
        decreases mnt_info@.len() - i,
    {
        let ghost before = v@.map_values(|s: String| s@);
        proof {
            assert(mnt_info@.subrange(0, i + 1).drop_last() =~= mnt_info@.subrange(0, i as int));
            assert(mnt_info@.subrange(0, i + 1).last() == mnt_info@[i as int]);
        }
        if mnt_info[i].0 == "hammer2".to_string() {
            v.push(mnt_info[i].1.clone());
            assert(v@.map_values(|s: String| s@) =~= before.push(mnt_info@[i as int].1@));
        }
        i = i + 1;
    }
    assert(mnt_info@.subrange(0, mnt_info@.len() as int) =~= mnt_info@);
    v
}

/// Seconds turned into microseconds and back are the same seconds.
pub proof fn lemma_time_roundtrip(t: u64)
    requires
        t * 1_000_000 <= u64::MAX,
    ensures
        ((t * 1_000_000) as u64) / 1_000_000 == t,
{
}

} // verus!
