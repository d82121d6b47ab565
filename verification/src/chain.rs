//! In-memory chains: a block reference, the media it points at, and the
//! children that were loaded below it, ordered by key range.
use vstd::prelude::*;
use vstd::arithmetic::power2::pow2;
use crate::errno::Errno;
use crate::fs::{
    dec_comp, inode_data_decodes, le16, le32, le64, spec_dec_algo, volume_data_decodes,
    Hammer2Blockref, Hammer2DirentHead, Hammer2InodeData, Hammer2VolumeData,
    HAMMER2_BREF_TYPE_DATA, HAMMER2_BREF_TYPE_DIRENT, HAMMER2_BREF_TYPE_EMPTY,
    HAMMER2_BREF_TYPE_FREEMAP, HAMMER2_BREF_TYPE_FREEMAP_LEAF, HAMMER2_BREF_TYPE_FREEMAP_NODE,
    HAMMER2_BREF_TYPE_INDIRECT, HAMMER2_BREF_TYPE_INODE, HAMMER2_BREF_TYPE_VOLUME,
    HAMMER2_COMP_LZ4, HAMMER2_COMP_NONE, HAMMER2_COMP_ZLIB, HAMMER2_PBUFSIZE,
};
use crate::extra::{filename_bytes, Record};
use crate::keys::{
    chain_key_ok, key_order, key_order_exec, key_range_end, key_range_next, range_end, range_next,
    range_ok, range_order, range_order_exec, ChainKey, KeyOrder,
};
use crate::lz4::lz4_decompress_spec;
use crate::ondisk::{
    media_as_blockref, media_as_blockref_safe, media_as_inode_data, media_as_volume_data,
    media_blockrefs, media_size_ok, verify_media, verify_media_spec,
};
use crate::util::{bin_to_string, cstr_len};
use crate::zlib::zlib_decompress_spec;
use vstd::string::{StrSliceExecFns, StringSliceAdditionalSpecFns};
use vstd::utf8::{decode_utf8, valid_utf8};

verus! {

broadcast use vstd::seq_lib::group_to_multiset_ensures;

pub type Cid = u64;

pub const CID_NONE: Cid = 0;
pub const CID_VCHAIN: Cid = 1;
pub const CID_FCHAIN: Cid = 2;
pub const CID_CHAIN_OFFSET: Cid = 3;

/// The chain's media passed its check code.
pub const CHAIN_TESTED_GOOD: u32 = 0x0000_0100;
/// The chain's block table statistics were counted.
pub const CHAIN_COUNTED_BLOCKREF: u32 = 0x0000_2000;
pub const CHAIN_ALL_MASK: u32 = 0x0000_2100;

/// Where a key enters a child list: behind every element that does not lie
/// fully to its right, searching from the end.
pub open spec fn insert_pos(s: Seq<ChainKey>, x: ChainKey) -> int
    decreases s.len(),
{
    if s.len() == 0 {
        0
    } else if key_order(s.last(), x) == KeyOrder::Greater {
        insert_pos(s.drop_last(), x)
    } else {
        s.len() as int
    }
}

/// `s` with `x` inserted at `insert_pos`.
pub open spec fn sorted_insert(s: Seq<ChainKey>, x: ChainKey) -> Seq<ChainKey> {
    s.insert(insert_pos(s, x), x)
}

/// The stable insertion sort of `s` by key range.
pub open spec fn isort(s: Seq<ChainKey>) -> Seq<ChainKey>
    decreases s.len(),
{
    if s.len() == 0 {
        s
    } else {
        sorted_insert(isort(s.drop_last()), s.last())
    }
}

/// Every key of `s` describes a range that fits in 64 bits.
pub open spec fn keys_ok(s: Seq<ChainKey>) -> bool {
    forall|i: int| 0 <= i < s.len() ==> #[trigger] chain_key_ok(s[i])
}

/// The index of the first element of `s` with chain id `cid`, or -1.
pub open spec fn first_cid_index(s: Seq<ChainKey>, cid: Cid) -> int
    decreases s.len(),
{
    if s.len() == 0 {
        -1
    } else if s[0].cid == cid {
        0
    } else {
        let r = first_cid_index(s.drop_first(), cid);
        if r < 0 {
            -1
        } else {
            r + 1
        }
    }
}

/// `s` with element `i` replaced by the last element, and the last dropped.
pub open spec fn swap_remove_spec(s: Seq<ChainKey>, i: int) -> Seq<ChainKey> {
    s.update(i, s.last()).drop_last()
}


/// How the key range `[b, e]` lies relative to the range of `y`.
pub open spec fn elem_order(b: u64, e: u64, y: ChainKey) -> KeyOrder {
    range_order(b as int, e as int, y.key as int, range_end(y.key, y.keybits))
}

/// The index that a binary search for `[b, e]` among the entries `lo..=hi`
/// of `v` settles on: it probes the middle entry, stops there when that
/// entry's range overlaps, and goes on to the left of a range that lies
/// past `[b, e]` and to the right of one that lies before it; none when the
/// entries run out.
pub open spec fn bsearch(v: Seq<ChainKey>, b: u64, e: u64, lo: int, hi: int) -> Option<int>
    decreases hi + 1 - lo,
{
    if lo > hi || lo < 0 || hi >= v.len() {
        None
    } else {
        let i = lo + (hi - lo) / 2;
        match elem_order(b, e, v[i]) {
            KeyOrder::Less => if i == 0 {
                None
            } else {
                bsearch(v, b, e, lo, i - 1)
            },
            KeyOrder::Greater => bsearch(v, b, e, i + 1, hi),
            KeyOrder::Equal => Some(i),
        }
    }
}

/// The child list is sorted by both ends of the key ranges.
pub open spec fn sorted_by_bounds(s: Seq<ChainKey>) -> bool {
    forall|i: int, j: int|
        #![trigger s[i], s[j]]
        0 <= i < j < s.len() ==> s[i].key <= s[j].key && range_end(s[i].key, s[i].keybits)
            <= range_end(s[j].key, s[j].keybits)
}

/// Some child range overlaps `[b, e]`.
pub open spec fn has_equal(s: Seq<ChainKey>, b: u64, e: u64) -> bool {
    exists|k: int| 0 <= k < s.len() && elem_order(b, e, #[trigger] s[k]) == KeyOrder::Equal
}

/// The children overlapping `[b, e]` are exactly those at indices `lo..=hi`.
pub open spec fn equal_run(s: Seq<ChainKey>, b: u64, e: u64, lo: int, hi: int) -> bool {
    &&& 0 <= lo <= hi < s.len()
    &&& forall|k: int|
        0 <= k < s.len() ==> (elem_order(b, e, #[trigger] s[k]) == KeyOrder::Equal <==> lo <= k
            <= hi)
}

/// The scan over the overlapping children `i..=e` that selects the child with
/// the nearest key and narrows `key_next` to where the next child begins or
/// the selected range ends; `besti` is the best index so far, or -1.
pub open spec fn find_child_fold(
    v: Seq<ChainKey>,
    key_beg: u64,
    i: int,
    e: int,
    besti: int,
    key_next: u64,
) -> Result<(int, u64), Errno>
    decreases e + 1 - i,
{
    if i > e {
        Ok((besti, key_next))
    } else if besti < 0 {
        find_child_fold(v, key_beg, i + 1, e, i, key_next)
    } else {
        let best = v[besti];
        let child = v[i];
        if best.key <= key_beg && child.key <= key_beg {
            Err(Errno::EINVAL)
        } else if child.key == best.key {
            Err(Errno::EINVAL)
        } else {
            let nb = if child.key < best.key {
                i
            } else {
                besti
            };
            let kn1 = if child.key < best.key {
                if key_next > best.key || key_next == 0 {
                    best.key
                } else {
                    key_next
                }
            } else {
                if key_next > child.key || key_next == 0 {
                    child.key
                } else {
                    key_next
                }
            };
            let cend = range_next(child.key, child.keybits);
            let kn2 = if cend != 0 && (kn1 > cend || kn1 == 0) {
                cend
            } else {
                kn1
            };
            find_child_fold(v, key_beg, i + 1, e, nb, kn2)
        }
    }
}

/// The children `lo..=hi` have keys above that of child `lo` and above
/// `kb`, child `lo` aside.
pub open spec fn rises_from(v: Seq<ChainKey>, kb: u64, lo: int, hi: int) -> bool {
    forall|k: int| lo < k <= hi ==> (#[trigger] v[k]).key > v[lo].key && v[k].key > kb
}

/// A scan that holds child `lo` as its best keeps it past children with
/// greater keys that start past `kb`.
proof fn lemma_fold_keeps(v: Seq<ChainKey>, kb: u64, i: int, hi: int, lo: int, kn: u64)
    requires
        0 <= lo < i <= hi + 1,
        hi < v.len(),
        rises_from(v, kb, lo, hi),
    ensures
        find_child_fold(v, kb, i, hi, lo, kn) matches Ok((bi, _)) && bi == lo,
    decreases hi + 1 - i,
{
    if i <= hi {
        let best = v[lo];
        let child = v[i];
        assert(child.key > best.key && child.key > kb);
        let kn1 = if key_gt_or_zero(kn, child.key) {
            child.key
        } else {
            kn
        };
        let cend = range_next(child.key, child.keybits);
        let kn2 = if cend != 0 && (kn1 > cend || kn1 == 0) {
            cend
        } else {
            kn1
        };
        lemma_fold_keeps(v, kb, i + 1, hi, lo, kn2);
    }
}

spec fn key_gt_or_zero(kn: u64, k: u64) -> bool {
    kn > k || kn == 0
}

/// Among overlapping children `lo..=hi` whose keys rise past child `lo`,
/// the scan picks child `lo`.
pub proof fn lemma_fold_first(v: Seq<ChainKey>, kb: u64, lo: int, hi: int, kn: u64)
    requires
        0 <= lo <= hi < v.len(),
        rises_from(v, kb, lo, hi),
    ensures
        find_child_fold(v, kb, lo, hi, -1, kn) matches Ok((bi, _)) && bi == lo,
{
    lemma_fold_keeps(v, kb, lo + 1, hi, lo, kn);
}

/// What `find_child` answers when the overlapping children are `lo..=hi`.
pub open spec fn find_child_result(
    v: Seq<ChainKey>,
    key_beg: u64,
    lo: int,
    hi: int,
    key_next: u64,
) -> Result<Option<(ChainKey, u64)>, Errno> {
    match find_child_fold(v, key_beg, lo, hi, -1, key_next) {
        Ok((bi, kn)) => Ok(Some((v[bi], kn))),
        Err(x) => Err(x),
    }
}

pub proof fn lemma_find_child_fold_index(
    v: Seq<ChainKey>,
    key_beg: u64,
    i: int,
    e: int,
    besti: int,
    key_next: u64,
)
    requires
        0 <= i <= e + 1,
        e < v.len(),
        -1 <= besti < i,
        besti >= 0 || i <= e,
    ensures
        find_child_fold(v, key_beg, i, e, besti, key_next) matches Ok((bi, _)) ==> 0 <= bi <= e
            && (bi == besti || i <= bi),
    decreases e + 1 - i,
{
    if i <= e {
        if besti < 0 {
            lemma_find_child_fold_index(v, key_beg, i + 1, e, i, key_next);
        } else {
            let best = v[besti];
            let child = v[i];
            if !(best.key <= key_beg && child.key <= key_beg) && child.key != best.key {
                let nb = if child.key < best.key {
                    i
                } else {
                    besti
                };
                let kn1 = if child.key < best.key {
                    if key_next > best.key || key_next == 0 {
                        best.key
                    } else {
                        key_next
                    }
                } else {
                    if key_next > child.key || key_next == 0 {
                        child.key
                    } else {
                        key_next
                    }
                };
                let cend = range_next(child.key, child.keybits);
                let kn2 = if cend != 0 && (kn1 > cend || kn1 == 0) {
                    cend
                } else {
                    kn1
                };
                lemma_find_child_fold_index(v, key_beg, i + 1, e, nb, kn2);
            }
        }
    }
}

pub proof fn lemma_insert_pos_bounds(s: Seq<ChainKey>, x: ChainKey)
    ensures
        0 <= insert_pos(s, x) <= s.len(),
        forall|k: int| insert_pos(s, x) <= k < s.len() ==> key_order(#[trigger] s[k], x) == KeyOrder::Greater,
        insert_pos(s, x) > 0 ==> key_order(s[insert_pos(s, x) - 1], x) != KeyOrder::Greater,
    decreases s.len(),
{
    if s.len() > 0 && key_order(s.last(), x) == KeyOrder::Greater {
        lemma_insert_pos_bounds(s.drop_last(), x);
        if insert_pos(s, x) > 0 {
            assert(s[insert_pos(s, x) - 1] == s.drop_last()[insert_pos(s, x) - 1]);
        }
        assert forall|k: int| insert_pos(s, x) <= k < s.len() implies key_order(
            #[trigger] s[k],
            x,
        ) == KeyOrder::Greater by {
            if k < s.len() - 1 {
                assert(s[k] == s.drop_last()[k]);
            }
        }
    }
}

pub proof fn lemma_isort_multiset(s: Seq<ChainKey>)
    ensures
        isort(s).to_multiset() == s.to_multiset(),
        isort(s).len() == s.len(),
    decreases s.len(),
{
    if s.len() > 0 {
        lemma_isort_multiset(s.drop_last());
        let t = isort(s.drop_last());
        lemma_insert_pos_bounds(t, s.last());
        assert(s =~= s.drop_last().push(s.last()));
        assert(t.insert(insert_pos(t, s.last()), s.last()).to_multiset() == t.to_multiset().insert(
            s.last(),
        ));
    }
}

pub proof fn lemma_isort_keys_ok(s: Seq<ChainKey>)
    requires
        keys_ok(s),
    ensures
        keys_ok(isort(s)),
    decreases s.len(),
{
    if s.len() > 0 {
        lemma_isort_keys_ok(s.drop_last());
        let t = isort(s.drop_last());
        lemma_insert_pos_bounds(t, s.last());
        let p = insert_pos(t, s.last());
        assert forall|i: int| 0 <= i < isort(s).len() implies #[trigger] chain_key_ok(isort(s)[i]) by {
            if i < p {
                assert(isort(s)[i] == t[i]);
            } else if i == p {
                assert(isort(s)[i] == s.last());
            } else {
                assert(isort(s)[i] == t[i - 1]);
            }
        }
    }
}

pub proof fn lemma_first_cid_index(s: Seq<ChainKey>, cid: Cid)
    ensures
        -1 <= first_cid_index(s, cid) < s.len(),
        first_cid_index(s, cid) >= 0 ==> s[first_cid_index(s, cid)].cid == cid,
        first_cid_index(s, cid) >= 0 ==> forall|k: int|
            0 <= k < first_cid_index(s, cid) ==> (#[trigger] s[k]).cid != cid,
        first_cid_index(s, cid) < 0 <==> forall|k: int| 0 <= k < s.len() ==> (#[trigger] s[k]).cid
            != cid,
    decreases s.len(),
{
    if s.len() > 0 && s[0].cid != cid {
        lemma_first_cid_index(s.drop_first(), cid);
        let r = first_cid_index(s.drop_first(), cid);
        assert forall|k: int| 1 <= k < s.len() implies s[k] == s.drop_first()[k - 1] by {}
        if r < 0 {
            assert forall|k: int| 0 <= k < s.len() implies (#[trigger] s[k]).cid != cid by {
                if k > 0 {
                    assert(s[k] == s.drop_first()[k - 1]);
                }
            }
        } else {
            assert forall|k: int| 0 <= k < r + 1 implies (#[trigger] s[k]).cid != cid by {
                if k > 0 {
                    assert(s[k] == s.drop_first()[k - 1]);
                }
            }
        }
    }

}

/// The last key of a range is not below its first.
proof fn lemma_range_end_ge(key: u64, keybits: u8)
    ensures
        range_end(key, keybits) >= key,
{
    vstd::arithmetic::power2::lemma_pow2_pos(keybits as nat);
}

/// A child list sorted by both ends of its ranges is left as it is by the
/// stable sort.
pub proof fn lemma_isort_sorted_id(s: Seq<ChainKey>)
    requires
        sorted_by_bounds(s),
    ensures
        isort(s) == s,
    decreases s.len(),
{
    if s.len() > 0 {
        let t = s.drop_last();
        assert(sorted_by_bounds(t)) by {
            assert forall|i: int, j: int| 0 <= i < j < t.len() implies t[i].key <= t[j].key
                && range_end(t[i].key, t[i].keybits) <= range_end(t[j].key, t[j].keybits) by {
                assert(t[i] == s[i] && t[j] == s[j]);
            }
        }
        lemma_isort_sorted_id(t);
        if t.len() > 0 {
            let a = t.last();
            let b = s.last();
            assert(a == s[s.len() - 2]);
            assert(a.key <= b.key);
            lemma_range_end_ge(b.key, b.keybits);
            assert(key_order(a, b) != KeyOrder::Greater);
        }
        assert(t.insert(t.len() as int, s.last()) =~= s);
    }
}

/// Adding a child keeps a child list sorted by both ends of its ranges,
/// when the new range equals or does not overlap each range in the list.
pub proof fn lemma_add_child_sorted(s: Seq<ChainKey>, x: ChainKey)
    requires
        sorted_by_bounds(s),
        forall|i: int|
            0 <= i < s.len() ==> key_order(#[trigger] s[i], x) != KeyOrder::Equal || (s[i].key
                == x.key && range_end(s[i].key, s[i].keybits) == range_end(x.key, x.keybits)),
    ensures
        sorted_by_bounds(isort(s.push(x))),
{
    let u = s.push(x);
    assert(u.drop_last() =~= s);
    lemma_isort_sorted_id(s);
    let p = insert_pos(s, x);
    lemma_insert_pos_bounds(s, x);
    let r = s.insert(p, x);
    assert(isort(u) == r);
    lemma_range_end_ge(x.key, x.keybits);
    assert forall|i: int, j: int| 0 <= i < j < r.len() implies r[i].key <= r[j].key && range_end(
        r[i].key,
        r[i].keybits,
    ) <= range_end(r[j].key, r[j].keybits) by {
        if j < p {
            assert(r[i] == s[i] && r[j] == s[j]);
        } else if j == p {
            assert(r[i] == s[i] && r[j] == x);
            let q = s[p - 1];
            lemma_range_end_ge(q.key, q.keybits);
            if i < p - 1 {
                assert(s[i].key <= q.key && range_end(s[i].key, s[i].keybits) <= range_end(
                    q.key,
                    q.keybits,
                ));
            }
        } else if i == p {
            assert(r[i] == x && r[j] == s[j - 1]);
            assert(key_order(s[j - 1], x) == KeyOrder::Greater);
            lemma_range_end_ge(s[j - 1].key, s[j - 1].keybits);
        } else if i < p {
            assert(r[i] == s[i] && r[j] == s[j - 1]);
        } else {
            assert(r[i] == s[i - 1] && r[j] == s[j - 1]);
        }
    }
}

/// The ranges of a child list are pairwise equal or disjoint.
pub open spec fn ranges_equal_or_apart(s: Seq<ChainKey>) -> bool {
    forall|i: int, j: int|
        #![trigger s[i], s[j]]
        0 <= i < s.len() && 0 <= j < s.len() ==> key_order(s[i], s[j]) != KeyOrder::Equal || (
        s[i].key == s[j].key && range_end(s[i].key, s[i].keybits) == range_end(
            s[j].key,
            s[j].keybits,
        ))
}

/// The stable sort orders a child list whose ranges are pairwise equal or
/// disjoint by both ends of its ranges.
pub proof fn lemma_isort_sorted(s: Seq<ChainKey>)
    requires
        ranges_equal_or_apart(s),
    ensures
        sorted_by_bounds(isort(s)),
    decreases s.len(),
{
    if s.len() > 0 {
        let d = s.drop_last();
        let x = s.last();
        assert(ranges_equal_or_apart(d)) by {
            assert forall|i: int, j: int| 0 <= i < d.len() && 0 <= j < d.len() implies key_order(
                #[trigger] d[i],
                #[trigger] d[j],
            ) != KeyOrder::Equal || (d[i].key == d[j].key && range_end(d[i].key, d[i].keybits)
                == range_end(d[j].key, d[j].keybits)) by {
                assert(d[i] == s[i] && d[j] == s[j]);
            }
        }
        lemma_isort_sorted(d);
        let t = isort(d);
        lemma_isort_multiset(d);
        assert forall|i: int| 0 <= i < t.len() implies key_order(#[trigger] t[i], x)
            != KeyOrder::Equal || (t[i].key == x.key && range_end(t[i].key, t[i].keybits)
            == range_end(x.key, x.keybits)) by {
            vstd::seq_lib::to_multiset_contains(t, t[i]);
            vstd::seq_lib::to_multiset_contains(d, t[i]);
            assert(t.contains(t[i]));
            let k = choose|k: int| 0 <= k < d.len() && d[k] == t[i];
            assert(s[k] == t[i]);
            assert(s[s.len() - 1] == x);
        }
        lemma_add_child_sorted(t, x);
        lemma_isort_sorted_id(t);
        assert(t.push(x).drop_last() =~= t);
    }
}

/// Removing a child keeps a child list whose ranges are pairwise equal or
/// disjoint sorted by both ends of its ranges.
pub proof fn lemma_remove_child_sorted(s: Seq<ChainKey>, cid: Cid)
    requires
        ranges_equal_or_apart(s),
        first_cid_index(s, cid) >= 0,
    ensures
        sorted_by_bounds(isort(swap_remove_spec(s, first_cid_index(s, cid)))),
{
    lemma_first_cid_index(s, cid);
    let i = first_cid_index(s, cid);
    let u = swap_remove_spec(s, i);
    assert forall|a: int| 0 <= a < u.len() implies exists|k: int| 0 <= k < s.len() && s[k]
        == #[trigger] u[a] by {
        if a == i {
            assert(u[a] == s[s.len() - 1]);
        } else {
            assert(u[a] == s[a]);
        }
    }
    assert(ranges_equal_or_apart(u)) by {
        assert forall|a: int, b: int| 0 <= a < u.len() && 0 <= b < u.len() implies key_order(
            #[trigger] u[a],
            #[trigger] u[b],
        ) != KeyOrder::Equal || (u[a].key == u[b].key && range_end(u[a].key, u[a].keybits)
            == range_end(u[b].key, u[b].keybits)) by {
            let ka = choose|k: int| 0 <= k < s.len() && s[k] == u[a];
            let kb = choose|k: int| 0 <= k < s.len() && s[k] == u[b];
            assert(key_order(s[ka], s[kb]) != KeyOrder::Equal || (s[ka].key == s[kb].key
                && range_end(s[ka].key, s[ka].keybits) == range_end(s[kb].key, s[kb].keybits)));
        }
    }
    lemma_isort_sorted(u);
}

/// The key a child is added with is among the children afterwards.
/// Adding a child to a sorted child list whose ranges, with the new one,
/// are pairwise equal or disjoint gives a sorted permutation of the list
/// and the new key: the new key goes in after every entry that does not
/// sort after it, so among entries of the same range it comes last.
pub proof fn lemma_add_child_law(s: Seq<ChainKey>, x: ChainKey)
    requires
        sorted_by_bounds(s),
        ranges_equal_or_apart(s.push(x)),
    ensures
        isort(s.push(x)).to_multiset() == s.push(x).to_multiset(),
        sorted_by_bounds(isort(s.push(x))),
        isort(s.push(x)) == s.insert(insert_pos(s, x), x),
        forall|k: int|
            0 <= k < s.len() && key_order(#[trigger] s[k], x) != KeyOrder::Greater ==> k < insert_pos(
                s,
                x,
            ),
{
    lemma_isort_multiset(s.push(x));
    lemma_isort_sorted(s.push(x));
    lemma_isort_sorted_id(s);
    lemma_insert_pos_bounds(s, x);
    assert(s.push(x).drop_last() =~= s);
}

pub proof fn lemma_isort_push_contains(s: Seq<ChainKey>, x: ChainKey)
    ensures
        isort(s.push(x)).contains(x),
{
    lemma_isort_multiset(s.push(x));
    vstd::seq_lib::to_multiset_build(s, x);
    vstd::seq_lib::to_multiset_contains(isort(s.push(x)), x);
}

/// Adding a child whose chain id no other child has, and then removing that
/// chain id, leaves the same children (as a multiset) as before.
pub proof fn lemma_add_then_remove_child(s: Seq<ChainKey>, x: ChainKey)
    requires
        first_cid_index(s, x.cid) < 0,
    ensures
        first_cid_index(isort(s.push(x)), x.cid) >= 0,
        isort(
            swap_remove_spec(isort(s.push(x)), first_cid_index(isort(s.push(x)), x.cid)),
        ).to_multiset() == s.to_multiset(),
{
    let t = isort(s.push(x));
    lemma_isort_multiset(s.push(x));
    vstd::seq_lib::to_multiset_build(s, x);
    assert(t.to_multiset() == s.to_multiset().insert(x));
    vstd::seq_lib::to_multiset_contains(t, x);
    assert(t.to_multiset().count(x) > 0);
    assert(t.contains(x));
    let k = choose|k: int| 0 <= k < t.len() && t[k] == x;
    lemma_first_cid_index(t, x.cid);
    lemma_first_cid_index(s, x.cid);
    assert(t[k].cid == x.cid);
    let i = first_cid_index(t, x.cid);
    assert(i >= 0);
    let y = t[i];
    vstd::seq_lib::to_multiset_contains(t, y);
    vstd::seq_lib::to_multiset_contains(s, y);
    assert(t.to_multiset().count(y) > 0);
    if y != x {
        assert(s.to_multiset().count(y) > 0);
        assert(s.contains(y));
        let j = choose|j: int| 0 <= j < s.len() && s[j] == y;
        assert(s[j].cid == x.cid);
    }
    assert(y == x);
    let w = t.update(i, t.last());
    let u = swap_remove_spec(t, i);
    assert(u == w.drop_last());
    assert(w =~= u.push(w.last()));
    assert(w.last() == t.last());
    vstd::seq_lib::to_multiset_update(t, i, t.last());
    vstd::seq_lib::to_multiset_build(u, w.last());
    assert(w.to_multiset() == t.to_multiset().insert(t.last()).remove(x));
    assert(u.push(w.last()).to_multiset() == u.to_multiset().insert(t.last()));
    assert forall|a: ChainKey| u.to_multiset().count(a) == s.to_multiset().count(a) by {
        assert(u.to_multiset().insert(t.last()).count(a) == t.to_multiset().insert(
            t.last(),
        ).remove(x).count(a));
    }
    assert(u.to_multiset() =~= s.to_multiset());
    lemma_isort_multiset(u);
}

/// Sorts a child list by key range, stably: each key goes behind every key
/// that does not lie fully to its right.
fn sort_child_keys(v: &Vec<ChainKey>) -> (r: Vec<ChainKey>)
    requires
        keys_ok(v@),
    ensures
        r@ == isort(v@),
{
    let mut r: Vec<ChainKey> = Vec::new();
    let mut i: usize = 0;
    while i < v.len()
        invariant
            keys_ok(v@),
            i <= v@.len(),
            r@ == isort(v@.subrange(0, i as int)),
            keys_ok(r@),
        decreases v@.len() - i,
    {
        let x = v[i];
        proof {
            assert(v@.subrange(0, i + 1).drop_last() =~= v@.subrange(0, i as int));
            assert(v@.subrange(0, i + 1).last() == x);
            assert(chain_key_ok(v@[i as int]));
        }
        let mut j: usize = r.len();
        assert(r@.subrange(0, j as int) =~= r@);
        while j > 0
            invariant
                j <= r@.len(),
                keys_ok(r@),
                chain_key_ok(x),
                insert_pos(r@.subrange(0, j as int), x) == insert_pos(r@, x),
            ensures
                j <= r@.len(),
                insert_pos(r@.subrange(0, j as int), x) == insert_pos(r@, x),
                j == 0 || key_order(r@[j - 1], x) != KeyOrder::Greater,
            decreases j,
        {
            let y = r[j - 1];
            assert(chain_key_ok(r@[j - 1]));
            if key_order_exec(&y, &x) != KeyOrder::Greater {
                break;
            }
            proof {
                assert(r@.subrange(0, j as int).drop_last() =~= r@.subrange(0, j - 1));
                assert(r@.subrange(0, j as int).last() == y);
            }
            j = j - 1;
        }
        proof {
            if j > 0 {
                assert(r@.subrange(0, j as int).last() == r@[j - 1]);
            } else {
                assert(r@.subrange(0, 0) =~= Seq::<ChainKey>::empty());
            }
            assert(insert_pos(r@, x) == j);
            lemma_isort_keys_ok(v@.subrange(0, i + 1));
        }
        r.insert(j, x);
        i = i + 1;
    }
    assert(v@.subrange(0, v@.len() as int) =~= v@);
    r
}

/// A chain: a block reference, its media and the children loaded below it.
#[derive(Debug)]
pub struct Chain {
    pub bref: Hammer2Blockref,
    pub flags: u32,
    pub bytes: u64,
    pub live_zero: usize,
    pub live_count: usize,
    pub cache_index: usize,
    pub data: Vec<u8>,
    pub udata: Vec<u8>,
    pub cid: Cid,
    pub pcid: Cid,
    pub ccids: Vec<ChainKey>,
}

/// The block reference types a chain can be made of.
pub open spec fn chain_type_ok(typ: u8) -> bool {
    typ == HAMMER2_BREF_TYPE_INODE || typ == HAMMER2_BREF_TYPE_INDIRECT || typ
        == HAMMER2_BREF_TYPE_DATA || typ == HAMMER2_BREF_TYPE_DIRENT || typ
        == HAMMER2_BREF_TYPE_FREEMAP_NODE || typ == HAMMER2_BREF_TYPE_FREEMAP_LEAF || typ
        == HAMMER2_BREF_TYPE_FREEMAP || typ == HAMMER2_BREF_TYPE_VOLUME
}

/// The physical size of the media a data offset describes: 2 to the power
/// of its low six bits, or 0 when they are 0.
pub open spec fn radix_bytes(data_off: u64) -> nat {
    let radix = data_off % 64;
    if radix == 0 {
        0
    } else {
        pow2(radix as nat)
    }
}

impl ChainKey {
    /// The key under which `chain` is recorded in its parent.
    pub fn new_from_chain(chain: &Chain) -> (r: ChainKey)
        ensures
            r == chain.key_of(),
    {
        ChainKey::new(chain.cid, chain.bref.key, chain.bref.keybits)
    }
}

impl Chain {
    /// The key of this chain as it is recorded in a parent's child list.
    pub open spec fn key_of(&self) -> ChainKey {
        ChainKey { cid: self.cid, key: self.bref.key, keybits: self.bref.keybits }
    }

    /// Creates a chain without media or children for a block reference.
    pub fn new(bref: &Hammer2Blockref, cid: Cid) -> (r: Result<Self, Errno>)
        ensures
            r is Err <==> !chain_type_ok(bref.typ),
            r is Err ==> r == Err::<Self, Errno>(Errno::EINVAL),
            r matches Ok(c) ==> {
                &&& c.bref == *bref
                &&& c.cid == cid
                &&& c.pcid == CID_NONE
                &&& c.flags == 0
                &&& c.bytes == radix_bytes(bref.data_off)
                &&& c.data@.len() == 0 && c.udata@.len() == 0 && c.ccids@.len() == 0
                &&& c.live_zero == 0 && c.live_count == 0 && c.cache_index == 0
            },
    {
        let radix = crate::extra::conv_offset_to_radix(bref.data_off);
        let bytes: u64 = if radix != 0 {
            proof {
                vstd::bits::lemma_u64_pow2_no_overflow(radix as nat);
                vstd::bits::lemma_u64_shl_is_mul(1u64, radix as u64);
            }
            1u64 << (radix as u64)
        } else {
            0
        };
        let typ = bref.typ;
        if typ == HAMMER2_BREF_TYPE_INODE || typ == HAMMER2_BREF_TYPE_INDIRECT || typ
            == HAMMER2_BREF_TYPE_DATA || typ == HAMMER2_BREF_TYPE_DIRENT || typ
            == HAMMER2_BREF_TYPE_FREEMAP_NODE || typ == HAMMER2_BREF_TYPE_FREEMAP_LEAF || typ
            == HAMMER2_BREF_TYPE_FREEMAP || typ == HAMMER2_BREF_TYPE_VOLUME {
            Ok(Self {
                bref: *bref,
                flags: 0,
                bytes,
                live_zero: 0,
                live_count: 0,
                cache_index: 0,
                data: Vec::new(),
                udata: Vec::new(),
                cid,
                pcid: CID_NONE,
                ccids: Vec::new(),
            })
        } else {
            Err(Errno::EINVAL)
        }
    }

    pub fn get_blockref(&self) -> (r: &Hammer2Blockref)
        ensures
            *r == self.bref,
    {
        &self.bref
    }

    pub fn get_flags(&self) -> (r: u32)
        ensures
            r == self.flags,
    {
        self.flags
    }

    /// Sets the given chain flags.
    pub fn set_flags(&mut self, flags: u32)
        requires
            flags & !CHAIN_ALL_MASK == 0,
        ensures
            final(self).flags == old(self).flags | flags,
            final(self).bref == old(self).bref && final(self).cid == old(self).cid,
            final(self).pcid == old(self).pcid && final(self).ccids@ == old(self).ccids@,
            final(self).data@ == old(self).data@ && final(self).udata@ == old(self).udata@,
            final(self).bytes == old(self).bytes && final(self).live_zero == old(self).live_zero,
            final(self).live_count == old(self).live_count,
            final(self).cache_index == old(self).cache_index,
    {
        self.flags = self.flags | flags;
    }

    /// Clears the given chain flags.
    pub fn clear_flags(&mut self, flags: u32)
        requires
            flags & !CHAIN_ALL_MASK == 0,
        ensures
            final(self).flags == old(self).flags & !flags,
            final(self).bref == old(self).bref && final(self).cid == old(self).cid,
            final(self).pcid == old(self).pcid && final(self).ccids@ == old(self).ccids@,
            final(self).data@ == old(self).data@ && final(self).udata@ == old(self).udata@,
            final(self).bytes == old(self).bytes && final(self).live_zero == old(self).live_zero,
            final(self).live_count == old(self).live_count,
            final(self).cache_index == old(self).cache_index,
    {
        self.flags = self.flags & !flags;
    }

    /// Whether any of the given chain flags is set.
    pub fn has_flags(&self, flags: u32) -> (r: bool)
        requires
            flags & !CHAIN_ALL_MASK == 0,
        ensures
            r == (self.flags & flags != 0),
    {
        (self.flags & flags) != 0
    }

    pub fn get_bytes(&self) -> (r: u64)
        ensures
            r == self.bytes,
    {
        self.bytes
    }

    pub fn get_data(&self) -> (r: &Vec<u8>)
        ensures
            r@ == self.data@,
    {
        &self.data
    }

    pub fn set_data(&mut self, data: Vec<u8>)
        ensures
            final(self).data@ == data@,
            final(self).bref == old(self).bref && final(self).cid == old(self).cid,
            final(self).pcid == old(self).pcid && final(self).ccids@ == old(self).ccids@,
            final(self).flags == old(self).flags && final(self).udata@ == old(self).udata@,
            final(self).bytes == old(self).bytes && final(self).live_zero == old(self).live_zero,
            final(self).live_count == old(self).live_count,
            final(self).cache_index == old(self).cache_index,
    {
        self.data = data;
    }

    pub fn has_data(&self) -> (r: bool)
        ensures
            r == (self.data@.len() > 0),
    {
        self.data.len() != 0
    }

    pub fn has_udata(&self) -> (r: bool)
        ensures
            r == (self.udata@.len() > 0),
    {
        self.udata.len() != 0
    }

    pub fn get_data_size(&self) -> (r: usize)
        ensures
            r == self.data@.len(),
    {
        self.data.len()
    }

    pub fn get_udata_size(&self) -> (r: usize)
        ensures
            r == self.udata@.len(),
    {
        self.udata.len()
    }

    /// The keys of the children, in list order.
    pub fn child_keys(&self) -> (r: &Vec<ChainKey>)
        ensures
            r@ == self.ccids@,
    {
        &self.ccids
    }

    pub fn has_child(&self) -> (r: bool)
        ensures
            r == (self.ccids@.len() > 0),
    {
        self.ccids.len() != 0
    }

    /// The chain id of the first child, if there is a child.
    pub fn get_first_child(&self) -> (r: Option<Cid>)
        ensures
            self.ccids@.len() == 0 ==> r is None,
            self.ccids@.len() > 0 ==> r == Some(self.ccids@[0].cid),
    {
        if self.has_child() {
            Some(self.ccids[0].cid)
        } else {
            None
        }
    }

    /// The chain ids of all children, in list order.
    pub fn get_child(&self) -> (r: Vec<Cid>)
        ensures
            r@.len() == self.ccids@.len(),
            forall|i: int| 0 <= i < r@.len() ==> r@[i] == (#[trigger] self.ccids@[i]).cid,
    {
        let mut r: Vec<Cid> = Vec::new();
        let mut i: usize = 0;
        while i < self.ccids.len()
            invariant
                i <= self.ccids@.len(),
                r@.len() == i,
                forall|k: int| 0 <= k < i ==> r@[k] == (#[trigger] self.ccids@[k]).cid,
            decreases self.ccids@.len() - i,
        {
            r.push(self.ccids[i].cid);
            i = i + 1;
        }
        r
    }

    /// Records `chain` as a child, keeping the list sorted by key range: the
    /// list becomes the stable sort of the old list with the new key behind it.
    pub fn add_child(&mut self, chain: &Chain)
        requires
            keys_ok(old(self).ccids@),
            chain_key_ok(chain.key_of()),
        ensures
            final(self).ccids@ == isort(old(self).ccids@.push(chain.key_of())),
            keys_ok(final(self).ccids@),
            final(self).bref == old(self).bref && final(self).cid == old(self).cid,
            final(self).pcid == old(self).pcid && final(self).flags == old(self).flags,
            final(self).data@ == old(self).data@ && final(self).udata@ == old(self).udata@,
            final(self).bytes == old(self).bytes && final(self).live_zero == old(self).live_zero,
            final(self).live_count == old(self).live_count,
            final(self).cache_index == old(self).cache_index,
    {
        let x = ChainKey::new_from_chain(chain);
        self.ccids.push(x);
        proof {
            assert forall|i: int| 0 <= i < self.ccids@.len() implies #[trigger] chain_key_ok(
                self.ccids@[i],
            ) by {
                if i < old(self).ccids@.len() {
                    assert(self.ccids@[i] == old(self).ccids@[i]);
                }
            }
        }
        let sorted = sort_child_keys(&self.ccids);
        self.ccids = sorted;
        proof {
            lemma_isort_keys_ok(old(self).ccids@.push(chain.key_of()));
        }
    }

    /// Removes the first child with chain id `cid`: that element is replaced
    /// by the last one and the list is sorted again.
    pub fn remove_child(&mut self, cid: Cid) -> (r: Result<(), Errno>)
        requires
            keys_ok(old(self).ccids@),
        ensures
            r is Err <==> first_cid_index(old(self).ccids@, cid) < 0,
            r is Err ==> r == Err::<(), Errno>(Errno::ENOENT) && final(self).ccids@ == old(self).ccids@,
            r is Ok ==> final(self).ccids@ == isort(
                swap_remove_spec(old(self).ccids@, first_cid_index(old(self).ccids@, cid)),
            ),
            keys_ok(final(self).ccids@),
            final(self).bref == old(self).bref && final(self).cid == old(self).cid,
            final(self).pcid == old(self).pcid && final(self).flags == old(self).flags,
            final(self).data@ == old(self).data@ && final(self).udata@ == old(self).udata@,
            final(self).bytes == old(self).bytes && final(self).live_zero == old(self).live_zero,
            final(self).live_count == old(self).live_count,
            final(self).cache_index == old(self).cache_index,
    {
        proof {
            lemma_first_cid_index(self.ccids@, cid);
        }
        let mut i: usize = 0;
        while i < self.ccids.len()
            invariant
                i <= self.ccids@.len(),
                self.ccids@ == old(self).ccids@,
                forall|k: int| 0 <= k < i ==> (#[trigger] self.ccids@[k]).cid != cid,
            ensures
                i <= self.ccids@.len(),
                forall|k: int| 0 <= k < i ==> (#[trigger] self.ccids@[k]).cid != cid,
                i < self.ccids@.len() ==> self.ccids@[i as int].cid == cid,
            decreases self.ccids@.len() - i,
        {
            if self.ccids[i].cid == cid {
                break;
            }
            i = i + 1;
        }
        if i == self.ccids.len() {
            return Err(Errno::ENOENT);
        }
        assert(i == first_cid_index(old(self).ccids@, cid));
        self.ccids.swap_remove(i);
        proof {
            assert(self.ccids@ =~= swap_remove_spec(old(self).ccids@, i as int));
            assert forall|k: int| 0 <= k < self.ccids@.len() implies #[trigger] chain_key_ok(
                self.ccids@[k],
            ) by {
                if k == i {
                    assert(self.ccids@[k] == old(self).ccids@.last());
                } else {
                    assert(self.ccids@[k] == old(self).ccids@[k]);
                }
            }
            lemma_isort_keys_ok(self.ccids@);
        }
        let sorted = sort_child_keys(&self.ccids);
        self.ccids = sorted;
        Ok(())
    }

    /// Binary search for a child whose key range overlaps `[x1_beg, x1_end]`.
    pub fn find_child_index_impl(&self, x1_beg: u64, x1_end: u64) -> (r: Option<usize>)
        requires
            keys_ok(self.ccids@),
        ensures
            r matches Some(i) ==> i < self.ccids@.len() && elem_order(
                x1_beg,
                x1_end,
                self.ccids@[i as int],
            ) == KeyOrder::Equal,
            sorted_by_bounds(self.ccids@) ==> (r is Some <==> has_equal(
                self.ccids@,
                x1_beg,
                x1_end,
            )),
            match bsearch(self.ccids@, x1_beg, x1_end, 0, self.ccids@.len() - 1) {
                Some(i) => r == Some(i as usize),
                None => r is None,
            },
    {
        if !self.has_child() {
            return None;
        }
        let ghost v = self.ccids@;
        let n = self.ccids.len();
        let mut beg: usize = 0;
        let mut end: usize = n - 1;
        while beg <= end
            invariant
                v == self.ccids@,
                n == v.len(),
                keys_ok(v),
                end < v.len(),
                beg <= end + 1,
                sorted_by_bounds(v) ==> forall|k: int|
                    0 <= k < v.len() && (k < beg || k > end) ==> elem_order(
                        x1_beg,
                        x1_end,
                        #[trigger] v[k],
                    ) != KeyOrder::Equal,
                bsearch(v, x1_beg, x1_end, beg as int, end as int) == bsearch(
                    v,
                    x1_beg,
                    x1_end,
                    0,
                    v.len() - 1,
                ),
            decreases end + 1 - beg,
        {
            let i = beg + (end - beg) / 2;
            let y = self.ccids[i];
            assert(chain_key_ok(v[i as int]));
            let ye = key_range_end(y.key, y.keybits);
            match range_order_exec(x1_beg, x1_end, y.key, ye) {
                KeyOrder::Less => {
                    proof {
                        if sorted_by_bounds(v) {
                            assert forall|k: int| i <= k < v.len() implies elem_order(
                                x1_beg,
                                x1_end,
                                #[trigger] v[k],
                            ) != KeyOrder::Equal by {
                                if k > i {
                                    assert(v[i as int].key <= v[k].key);
                                }
                            }
                        }
                    }
                    if i == 0 {
                        return None;
                    }
                    end = i - 1;
                },
                KeyOrder::Greater => {
                    proof {
                        if sorted_by_bounds(v) {
                            assert forall|k: int| 0 <= k <= i implies elem_order(
                                x1_beg,
                                x1_end,
                                #[trigger] v[k],
                            ) != KeyOrder::Equal by {
                                if k < i {
                                    assert(range_end(v[k].key, v[k].keybits) <= range_end(
                                        v[i as int].key,
                                        v[i as int].keybits,
                                    ));
                                }
                            }
                        }
                    }
                    beg = i + 1;
                },
                KeyOrder::Equal => {
                    return Some(i);
                },
            }
        }
        None
    }

    /// Binary search for a child whose key range overlaps that of `x`.
    pub fn find_child_index(&self, x: &ChainKey) -> (r: Option<usize>)
        requires
            keys_ok(self.ccids@),
            chain_key_ok(*x),
        ensures
            r matches Some(i) ==> i < self.ccids@.len() && key_order(*x, self.ccids@[i as int])
                == KeyOrder::Equal,
            match bsearch(
                self.ccids@,
                x.key,
                crate::keys::range_end(x.key, x.keybits) as u64,
                0,
                self.ccids@.len() - 1,
            ) {
                Some(i) => r == Some(i as usize),
                None => r is None,
            },
            sorted_by_bounds(self.ccids@) ==> (r is Some <==> exists|k: int|
                0 <= k < self.ccids@.len() && key_order(*x, #[trigger] self.ccids@[k])
                    == KeyOrder::Equal),
    {
        let x_end = key_range_end(x.key, x.keybits);
        self.find_child_index_impl(x.key, x_end)
    }

    /// The run of children whose key ranges overlap `[x1_beg, x1_end]`,
    /// grown in both directions from the child the binary search found;
    /// `EINVAL` when a neighbour of that run lies on the wrong side.
    pub fn find_child_range_impl(&self, x1_beg: u64, x1_end: u64) -> (r: Result<
        Option<(usize, usize)>,
        Errno,
    >)
        requires
            keys_ok(self.ccids@),
        ensures
            r is Err ==> r == Err::<Option<(usize, usize)>, Errno>(Errno::EINVAL) && !sorted_by_bounds(
                self.ccids@,
            ),
            r matches Ok(Some((b, e))) ==> {
                &&& b <= e < self.ccids@.len()
                &&& forall|k: int|
                    b <= k <= e ==> elem_order(x1_beg, x1_end, #[trigger] self.ccids@[k])
                        == KeyOrder::Equal
                &&& b == 0 || elem_order(x1_beg, x1_end, self.ccids@[b - 1]) == KeyOrder::Greater
                &&& e + 1 == self.ccids@.len() || elem_order(x1_beg, x1_end, self.ccids@[e + 1])
                    == KeyOrder::Less
            },
            r matches Ok(None) ==> !has_equal(self.ccids@, x1_beg, x1_end) || !sorted_by_bounds(
                self.ccids@,
            ),
            sorted_by_bounds(self.ccids@) ==> (r matches Ok(None) <==> !has_equal(
                self.ccids@,
                x1_beg,
                x1_end,
            )),
            sorted_by_bounds(self.ccids@) ==> (r matches Ok(Some((b, e))) ==> equal_run(
                self.ccids@,
                x1_beg,
                x1_end,
                b as int,
                e as int,
            )),
    {
        let ghost v = self.ccids@;
        let i = match self.find_child_index_impl(x1_beg, x1_end) {
            Some(i) => i,
            None => {
                return Ok(None);
            },
        };
        let mut beg: usize = i;
        let mut j: usize = i;
        while j > 0
            invariant
                v == self.ccids@,
                keys_ok(v),
                i < v.len(),
                j <= i,
                beg == j,
                elem_order(x1_beg, x1_end, v[i as int]) == KeyOrder::Equal,
                forall|k: int| j <= k <= i ==> elem_order(x1_beg, x1_end, #[trigger] v[k])
                    == KeyOrder::Equal,
            ensures
                beg <= i,
                forall|k: int| beg <= k <= i ==> elem_order(x1_beg, x1_end, #[trigger] v[k])
                    == KeyOrder::Equal,
                beg == 0 || elem_order(x1_beg, x1_end, v[beg - 1]) == KeyOrder::Greater,
            decreases j,
        {
            let jj = j - 1;
            let y = self.ccids[jj];
            assert(chain_key_ok(v[jj as int]));
            let ye = key_range_end(y.key, y.keybits);
            match range_order_exec(x1_beg, x1_end, y.key, ye) {
                KeyOrder::Less => {
                    proof {
                        if sorted_by_bounds(v) {
                            assert(v[jj as int].key <= v[i as int].key);
                        }
                    }
                    return Err(Errno::EINVAL);
                },
                KeyOrder::Greater => {
                    break;
                },
                KeyOrder::Equal => {
                    beg = jj;
                },
            }
            j = jj;
        }
        let n = self.ccids.len();
        let mut end: usize = i;
        let mut j: usize = i + 1;
        while j < self.ccids.len()
            invariant
                v == self.ccids@,
                keys_ok(v),
                i < v.len(),
                i < j <= v.len(),
                n == v.len(),
                end + 1 == j,
                elem_order(x1_beg, x1_end, v[i as int]) == KeyOrder::Equal,
                forall|k: int| i <= k < j ==> elem_order(x1_beg, x1_end, #[trigger] v[k])
                    == KeyOrder::Equal,
            ensures
                i <= end < v.len(),
                forall|k: int| i <= k <= end ==> elem_order(x1_beg, x1_end, #[trigger] v[k])
                    == KeyOrder::Equal,
                end + 1 == v.len() || elem_order(x1_beg, x1_end, v[end + 1]) == KeyOrder::Less,
            decreases v.len() - j,
        {
            let y = self.ccids[j];
            assert(chain_key_ok(v[j as int]));
            let ye = key_range_end(y.key, y.keybits);
            match range_order_exec(x1_beg, x1_end, y.key, ye) {
                KeyOrder::Less => {
                    break;
                },
                KeyOrder::Greater => {
                    proof {
                        if sorted_by_bounds(v) {
                            assert(range_end(v[i as int].key, v[i as int].keybits) <= range_end(
                                v[j as int].key,
                                v[j as int].keybits,
                            ));
                        }
                    }
                    return Err(Errno::EINVAL);
                },
                KeyOrder::Equal => {
                    end = j;
                },
            }
            j = j + 1;
        }
        proof {
            if sorted_by_bounds(v) {
                assert forall|k: int| 0 <= k < v.len() implies (elem_order(
                    x1_beg,
                    x1_end,
                    #[trigger] v[k],
                ) == KeyOrder::Equal <==> beg <= k <= end) by {
                    if k < beg {
                        assert(range_end(v[k].key, v[k].keybits) <= range_end(
                            v[beg - 1].key,
                            v[beg - 1].keybits,
                        )) by {
                            if k < beg - 1 {
                                assert(range_end(v[k].key, v[k].keybits) <= range_end(
                                    v[beg - 1].key,
                                    v[beg - 1].keybits,
                                ));
                            }
                        }
                    } else if k > end {
                        if k > end + 1 {
                            assert(v[end + 1].key <= v[k].key);
                        }
                    }
                }
            }
        }
        Ok(Some((beg, end)))
    }

    /// `find_child_range_impl` for the key range of `x`.
    pub fn find_child_range(&self, x: &ChainKey) -> (r: Result<Option<(usize, usize)>, Errno>)
        requires
            keys_ok(self.ccids@),
            chain_key_ok(*x),
        ensures
            sorted_by_bounds(self.ccids@) ==> r is Ok,
            r matches Ok(Some((b, e))) ==> b <= e < self.ccids@.len() && forall|k: int|
                b <= k <= e ==> key_order(*x, #[trigger] self.ccids@[k]) == KeyOrder::Equal,
            sorted_by_bounds(self.ccids@) ==> (r matches Ok(Some((b, e))) ==> forall|k: int|
                0 <= k < self.ccids@.len() ==> (key_order(*x, #[trigger] self.ccids@[k])
                    == KeyOrder::Equal <==> b <= k <= e)),
            sorted_by_bounds(self.ccids@) ==> (r matches Ok(None) <==> forall|k: int|
                0 <= k < self.ccids@.len() ==> key_order(*x, #[trigger] self.ccids@[k])
                    != KeyOrder::Equal),
    {
        let x_end = key_range_end(x.key, x.keybits);
        let r = self.find_child_range_impl(x.key, x_end);
        proof {
            let v = self.ccids@;
            assert forall|k: int| 0 <= k < v.len() implies key_order(*x, #[trigger] v[k]) == elem_order(
                x.key,
                x_end,
                v[k],
            ) by {}
        }
        r
    }

    /// Among the children overlapping `[key_beg, key_end]`, the one with the
    /// nearest key, and `key_next` narrowed to where the next child begins or
    /// the chosen range ends (0 meaning no bound); `EINVAL` on overlapping
    /// children that both start at or before `key_beg`, or share a key.
    pub fn find_child(&self, key_next: u64, key_beg: u64, key_end: u64) -> (r: Result<
        Option<(ChainKey, u64)>,
        Errno,
    >)
        requires
            keys_ok(self.ccids@),
        ensures
            r matches Ok(Some((x, _))) ==> self.ccids@.contains(x) && elem_order(
                key_beg,
                key_end,
                x,
            ) == KeyOrder::Equal,
            r is Err ==> r->Err_0 == Errno::EINVAL,
            sorted_by_bounds(self.ccids@) ==> ((r matches Ok(None)) <==> !has_equal(
                self.ccids@,
                key_beg,
                key_end,
            )),
            sorted_by_bounds(self.ccids@) ==> forall|lo: int, hi: int|
                #[trigger] equal_run(self.ccids@, key_beg, key_end, lo, hi) ==> r == find_child_result(
                    self.ccids@,
                    key_beg,
                    lo,
                    hi,
                    key_next,
                ),
    {
        let ghost v = self.ccids@;
        let (beg, end) = match self.find_child_range_impl(key_beg, key_end)? {
            Some(t) => t,
            None => {
                return Ok(None);
            },
        };
        proof {
            if sorted_by_bounds(v) {
                assert forall|lo: int, hi: int| #[trigger]
                    equal_run(v, key_beg, key_end, lo, hi) implies lo == beg && hi == end by {
                    assert(elem_order(key_beg, key_end, v[lo]) == KeyOrder::Equal);
                    assert(elem_order(key_beg, key_end, v[hi]) == KeyOrder::Equal);
                    assert(elem_order(key_beg, key_end, v[beg as int]) == KeyOrder::Equal);
                    assert(elem_order(key_beg, key_end, v[end as int]) == KeyOrder::Equal);
                }
            }
        }
        assert(elem_order(key_beg, key_end, v[beg as int]) == KeyOrder::Equal);
        let n = self.ccids.len();
        let ghost kn0 = key_next;
        let mut kn = key_next;
        let mut besti: usize = usize::MAX;
        let mut i: usize = beg;
        while i <= end
            invariant
                v == self.ccids@,
                keys_ok(v),
                beg <= i <= end + 1,
                end < v.len(),
                n == v.len(),
                kn0 == key_next,
                has_equal(v, key_beg, key_end),
                sorted_by_bounds(v) ==> forall|lo: int, hi: int| #[trigger]
                    equal_run(v, key_beg, key_end, lo, hi) ==> lo == beg && hi == end,
                besti == usize::MAX <==> i == beg,
                besti != usize::MAX ==> beg <= besti < i,
                find_child_fold(v, key_beg, beg as int, end as int, -1, kn0)
                    == find_child_fold(
                    v,
                    key_beg,
                    i as int,
                    end as int,
                    if besti == usize::MAX {
                        -1
                    } else {
                        besti as int
                    },
                    kn,
                ),
            decreases end + 1 - i,
        {
            if besti == usize::MAX {
                besti = i;
                i = i + 1;
                continue;
            }
            let best = self.ccids[besti];
            let child = self.ccids[i];
            if best.key <= key_beg && child.key <= key_beg {
                assert(find_child_fold(v, key_beg, i as int, end as int, besti as int, kn)
                    == Err::<(int, u64), Errno>(Errno::EINVAL));
                proof {
                    if sorted_by_bounds(v) {
                        assert forall|lo: int, hi: int| #[trigger]
                            equal_run(v, key_beg, key_end, lo, hi) implies find_child_fold(
                            v,
                            key_beg,
                            lo,
                            hi,
                            -1,
                            kn0,
                        ) == Err::<(int, u64), Errno>(Errno::EINVAL) && find_child_result(
                            v,
                            key_beg,
                            lo,
                            hi,
                            kn0,
                        ) == Err::<Option<(ChainKey, u64)>, Errno>(Errno::EINVAL) by {}
                    }
                }
                return Err(Errno::EINVAL);
            } else if child.key < best.key {
                besti = i;
                if kn > best.key || kn == 0 {
                    kn = best.key;
                }
            } else if child.key == best.key {
                assert(find_child_fold(v, key_beg, i as int, end as int, besti as int, kn)
                    == Err::<(int, u64), Errno>(Errno::EINVAL));
                proof {
                    if sorted_by_bounds(v) {
                        assert forall|lo: int, hi: int| #[trigger]
                            equal_run(v, key_beg, key_end, lo, hi) implies find_child_fold(
                            v,
                            key_beg,
                            lo,
                            hi,
                            -1,
                            kn0,
                        ) == Err::<(int, u64), Errno>(Errno::EINVAL) && find_child_result(
                            v,
                            key_beg,
                            lo,
                            hi,
                            kn0,
                        ) == Err::<Option<(ChainKey, u64)>, Errno>(Errno::EINVAL) by {}
                    }
                }
                return Err(Errno::EINVAL);
            } else {
                if kn > child.key || kn == 0 {
                    kn = child.key;
                }
            }
            assert(chain_key_ok(v[i as int]));
            let child_end = key_range_next(child.key, child.keybits);
            if child_end != 0 && (kn > child_end || kn == 0) {
                kn = child_end;
            }
            i = i + 1;
        }
        proof {
            lemma_find_child_fold_index(v, key_beg, beg as int, end as int, -1, kn0);
        }
        Ok(Some((self.ccids[besti], kn)))
    }
}

/// The index of the last non-empty entry among indices `1..=i` of a block
/// table, 0 when there is none.
pub open spec fn last_live(s: Seq<Hammer2Blockref>, i: int) -> int
    decreases i,
{
    if i <= 0 {
        0
    } else if s[i].typ != HAMMER2_BREF_TYPE_EMPTY {
        i
    } else {
        last_live(s, i - 1)
    }
}

/// The number of non-empty entries among indices `1..=i` of a block table.
pub open spec fn live_between(s: Seq<Hammer2Blockref>, i: int) -> nat
    decreases i,
{
    if i <= 0 {
        0
    } else {
        live_between(s, i - 1) + if s[i].typ != HAMMER2_BREF_TYPE_EMPTY {
            1nat
        } else {
            0nat
        }
    }
}

/// The live limit that counting gives a block table: one past its last
/// non-empty entry (the first entry counts as live), 0 for an empty table.
pub open spec fn counted_live_zero(s: Seq<Hammer2Blockref>) -> nat {
    if s.len() == 0 {
        0
    } else {
        (last_live(s, s.len() - 1) + 1) as nat
    }
}

/// The live entries that counting adds: the non-empty entries after the
/// first one.
pub open spec fn counted_live(s: Seq<Hammer2Blockref>) -> nat {
    if s.len() == 0 {
        0
    } else {
        live_between(s, s.len() - 1)
    }
}

pub proof fn lemma_last_live(s: Seq<Hammer2Blockref>, i: int)
    requires
        0 <= i < s.len(),
    ensures
        0 <= last_live(s, i) <= i,
        live_between(s, last_live(s, i)) == live_between(s, i),
        live_between(s, i) <= i,
        last_live(s, i) > 0 ==> s[last_live(s, i)].typ != HAMMER2_BREF_TYPE_EMPTY,
    decreases i,
{
    if i > 0 {
        lemma_last_live(s, i - 1);
    }
}

/// The chain's block reference, media, cached data, children and ids agree.
pub open spec fn same_content(a: Chain, b: Chain) -> bool {
    &&& a.bref == b.bref
    &&& a.data@ == b.data@
    &&& a.udata@ == b.udata@
    &&& a.ccids@ == b.ccids@
    &&& a.cid == b.cid
    &&& a.pcid == b.pcid
    &&& a.bytes == b.bytes
}

/// Where a search in a block table starts: the cached index, pulled back
/// below the live limit.
pub open spec fn start_index(cache_index: usize, live_zero: usize) -> int {
    if cache_index >= live_zero {
        if live_zero >= 1 {
            live_zero - 1
        } else {
            0
        }
    } else {
        cache_index as int
    }
}

/// Stepping back from `i` over empty entries and entries whose key lies
/// beyond `key_beg`, stopping at the first entry.
pub open spec fn bwd_stop(s: Seq<Hammer2Blockref>, i: int, key_beg: u64) -> int
    decreases i,
{
    if i > 0 && (s[i].typ == HAMMER2_BREF_TYPE_EMPTY || s[i].key > key_beg) {
        bwd_stop(s, i - 1, key_beg)
    } else {
        i
    }
}

/// A non-empty entry whose range encloses `key_beg` or lies beyond it.
pub open spec fn bref_hit(b: Hammer2Blockref, key_beg: u64) -> bool {
    &&& b.typ != HAMMER2_BREF_TYPE_EMPTY
    &&& (b.key > key_beg || range_end(b.key, b.keybits) >= key_beg)
}

/// Scanning forward from `i` for a hit; the table length when the scan
/// passes the live limit or the end of the table first.
pub open spec fn fwd_scan(s: Seq<Hammer2Blockref>, i: int, limit: int, key_beg: u64) -> int
    decreases s.len() - i,
{
    if i < 0 || i >= s.len() {
        s.len() as int
    } else if bref_hit(s[i], key_beg) {
        i
    } else if i >= limit {
        s.len() as int
    } else {
        fwd_scan(s, i + 1, limit, key_beg)
    }
}

/// What a search of the block table `s` for `key_beg` returns, given where
/// the forward scan stopped: the index of the hit (the table length when
/// there is none, or it lies at or beyond the live limit) and the next key
/// to look at, cut back to one past the hit's range unless that range ends
/// the key space.
pub open spec fn blockref_search_result(
    s: Seq<Hammer2Blockref>,
    f: int,
    live_zero: int,
    key_next: u64,
) -> (int, u64) {
    if f >= s.len() || f >= live_zero {
        (s.len() as int, key_next)
    } else {
        let e = range_next(s[f].key, s[f].keybits);
        if e != 0 && (key_next > e || key_next == 0) {
            (f, e)
        } else {
            (f, key_next)
        }
    }
}

/// The non-empty entries of a block table describe key ranges that fit in
/// 64 bits.
pub open spec fn live_ranges_ok(s: Seq<Hammer2Blockref>) -> bool {
    forall|k: int|
        0 <= k < s.len() && (#[trigger] s[k]).typ != HAMMER2_BREF_TYPE_EMPTY ==> range_ok(
            s[k].key,
            s[k].keybits,
        )
}

/// Where stepping back from `i` stops: the greatest index at most `i` that
/// is the first entry or holds a live entry whose key does not lie beyond
/// `key_beg`.
pub proof fn lemma_bwd_stop(s: Seq<Hammer2Blockref>, i: int, key_beg: u64)
    requires
        0 <= i < s.len(),
    ensures
        0 <= bwd_stop(s, i, key_beg) <= i,
        bwd_stop(s, i, key_beg) > 0 ==> s[bwd_stop(s, i, key_beg)].typ != HAMMER2_BREF_TYPE_EMPTY
            && s[bwd_stop(s, i, key_beg)].key <= key_beg,
        forall|m: int|
            bwd_stop(s, i, key_beg) < m <= i ==> (#[trigger] s[m]).typ == HAMMER2_BREF_TYPE_EMPTY
                || s[m].key > key_beg,
    decreases i,
{
    if i > 0 {
        lemma_bwd_stop(s, i - 1, key_beg);
    }
}

/// Where the forward scan from `i` stops: the least index from `i` on, up
/// to the live limit (or `i` itself when that lies past it) and within the
/// table, that holds a hit; the table length when there is none.
pub proof fn lemma_fwd_scan(s: Seq<Hammer2Blockref>, i: int, limit: int, key_beg: u64)
    requires
        0 <= i,
    ensures
        fwd_scan(s, i, limit, key_beg) == s.len() || (i <= fwd_scan(s, i, limit, key_beg) < s.len()
            && bref_hit(s[fwd_scan(s, i, limit, key_beg)], key_beg)
            && (fwd_scan(s, i, limit, key_beg) == i || fwd_scan(s, i, limit, key_beg) <= limit)),
        forall|m: int|
            i <= m < fwd_scan(s, i, limit, key_beg) && m < s.len() && (m == i || m <= limit)
                ==> !bref_hit(#[trigger] s[m], key_beg),
    decreases s.len() - i,
{
    if i < s.len() && !bref_hit(s[i], key_beg) && i < limit {
        lemma_fwd_scan(s, i + 1, limit, key_beg);
    }
}

/// Searches a block table for the entry that encloses `key_beg` or follows
/// it, starting from a cached index: returns the new cached index, the
/// index found and the next key.
fn search_blockref(
    base: &Vec<Hammer2Blockref>,
    cache_index: usize,
    limit: usize,
    key_next: u64,
    key_beg: u64,
) -> (r: (usize, usize, u64))
    requires
        base@.len() > 0,
        limit <= base@.len(),
        live_ranges_ok(base@),
    ensures
        ({
            let s = base@;
            let ib = bwd_stop(s, start_index(cache_index, limit), key_beg);
            let f = fwd_scan(s, ib, limit as int, key_beg);
            &&& r.0 == (if f < s.len() {
                f
            } else {
                ib
            })
            &&& (r.1 as int, r.2) == blockref_search_result(s, f, limit as int, key_next)
        }),
{
    let ghost s = base@;
    let mut i = cache_index;
    if i >= limit {
        if limit >= 1 {
            i = limit - 1;
        } else {
            i = 0;
        }
    }
    let ghost i0 = i as int;
    assert(i0 == start_index(cache_index, limit));
    while i > 0 && (base[i].typ == HAMMER2_BREF_TYPE_EMPTY || base[i].key > key_beg)
        invariant
            i < base@.len(),
            0 <= i0 < base@.len(),
            bwd_stop(base@, i0, key_beg) == bwd_stop(base@, i as int, key_beg),
        decreases i,
    {
        i = i - 1;
    }
    let ib = i;
    assert(bwd_stop(s, ib as int, key_beg) == ib);
    proof {
        lemma_bwd_stop(s, i0, key_beg);
    }
    let ghost f = fwd_scan(s, ib as int, limit as int, key_beg);
    proof {
        lemma_fwd_scan(s, ib as int, limit as int, key_beg);
    }
    while i < base.len()
        invariant
            ib == bwd_stop(base@, start_index(cache_index, limit), key_beg),
            f == fwd_scan(base@, ib as int, limit as int, key_beg),
            f == base@.len() || (ib <= f < base@.len() && bref_hit(base@[f], key_beg)),
            ib <= i <= base@.len(),
            ib <= start_index(cache_index, limit),
            limit <= base@.len(),
            live_ranges_ok(base@),
            s == base@,
            i <= limit || i == ib,
            f == fwd_scan(base@, i as int, limit as int, key_beg),
        ensures
            i < base@.len() ==> f == i,
            i >= base@.len() ==> f == base@.len(),
        decreases base@.len() - i,
    {
        if base[i].typ != HAMMER2_BREF_TYPE_EMPTY {
            assert(range_ok(s[i as int].key, s[i as int].keybits));
            let scan_end = key_range_end(base[i].key, base[i].keybits);
            if base[i].key > key_beg || scan_end >= key_beg {
                break;
            }
        }
        if i >= limit {
            return (ib, base.len(), key_next);
        }
        i = i + 1;
    }
    if i != base.len() {
        if i >= limit {
            return (i, base.len(), key_next);
        }
        assert(range_ok(s[i as int].key, s[i as int].keybits));
        let scan_end = key_range_next(base[i].key, base[i].keybits);
        if scan_end != 0 && (key_next > scan_end || key_next == 0) {
            return (i, i, scan_end);
        }
        (i, i, key_next)
    } else {
        (ib, i, key_next)
    }
}

/// A byte-wise comparison of two byte strings.
fn bytes_eq(a: &[u8], b: &[u8]) -> (r: bool)
    ensures
        r == (a@ == b@),
{
    if a.len() != b.len() {
        return false;
    }
    let mut i: usize = 0;
    while i < a.len()
        invariant
            a@.len() == b@.len(),
            i <= a@.len(),
            forall|k: int| 0 <= k < i ==> a@[k] == b@[k],
        decreases a@.len() - i,
    {
        if a[i] != b[i] {
            return false;
        }
        i = i + 1;
    }
    assert(a@ =~= b@);
    true
}

/// The name length recorded in a directory entry's embedded head.
pub open spec fn dirent_namlen(b: Hammer2Blockref) -> u16 {
    le16(b.embed@, 8)
}

/// An inode's name length, read from its media.
pub open spec fn inode_name_len(media: Seq<u8>) -> u16 {
    le16(media, 0x80)
}

/// Whether a chain (an inode or a directory entry) bears the name `name`:
/// an inode by its name length and filename field; a directory entry by
/// the name length in its head and the name kept in its media (longer
/// names) or check area (names of up to 64 bytes).
pub open spec fn name_matches(c: Chain, name: Seq<u8>) -> bool {
    let n = name.len();
    if c.bref.typ == HAMMER2_BREF_TYPE_INODE {
        inode_name_len(c.data@) == n && c.data@.subrange(0x100, 0x100 + n as int) == name
    } else if c.bref.typ == HAMMER2_BREF_TYPE_DIRENT {
        &&& dirent_namlen(c.bref) == n
        &&& if n > 64 {
            c.data@.take(n as int) == name
        } else {
            c.bref.check@.take(n as int) == name
        }
    } else {
        false
    }
}

/// The chain's media can be read for a name of length `n`.
pub open spec fn name_readable(c: Chain, n: nat) -> bool {
    &&& c.bref.typ == HAMMER2_BREF_TYPE_INODE ==> c.data@.len() == 1024 && (inode_name_len(c.data@)
        == n ==> n <= 256)
    &&& c.bref.typ == HAMMER2_BREF_TYPE_DIRENT && dirent_namlen(c.bref) == n && n > 64 ==> n
        <= c.data@.len()
}

/// A string made of bytes: their UTF-8 decoding, `None` when invalid.
pub open spec fn utf8_string(b: Seq<u8>) -> Option<Seq<char>> {
    if valid_utf8(b) {
        Some(decode_utf8(b))
    } else {
        None
    }
}

/// The filename an inode's media holds: as many bytes as its name length
/// says (at most 256), when they are valid UTF-8.
pub open spec fn inode_name(media: Seq<u8>) -> Option<Seq<char>> {
    let n = inode_name_len(media) as int;
    let m = if n < 256 {
        n
    } else {
        256
    };
    utf8_string(media.subrange(0x100, 0x100 + m))
}

/// The name of a chain: an inode's filename (none without media), or the
/// NUL-terminated name kept in a directory entry's check area (names of up
/// to 64 bytes) or media; none for other chains and for names that are not
/// valid UTF-8.
pub open spec fn chain_name(c: Chain) -> Option<Seq<char>> {
    if c.bref.typ == HAMMER2_BREF_TYPE_INODE {
        if c.data@.len() > 0 {
            inode_name(c.data@)
        } else {
            None
        }
    } else if c.bref.typ == HAMMER2_BREF_TYPE_DIRENT {
        let s = if dirent_namlen(c.bref) <= 64 {
            c.bref.check@
        } else {
            c.data@
        };
        utf8_string(s.take(cstr_len(s)))
    } else {
        None
    }
}

/// A directory entry is listed under the name it is looked up by: when a
/// directory entry chain bears `name` (as a lookup matches it), the name
/// has no NUL byte, is valid UTF-8, and is followed in the area that holds
/// it (the media for a name over 64 bytes, the check area otherwise) by a
/// NUL byte or the end of that area, the chain's name is `name`.
pub proof fn lemma_dirent_name(c: Chain, name: Seq<u8>)
    requires
        c.bref.typ == HAMMER2_BREF_TYPE_DIRENT,
        name_matches(c, name),
        forall|k: int| 0 <= k < name.len() ==> #[trigger] name[k] != 0,
        valid_utf8(name),
        name.len() > 64 ==> name.len() == c.data@.len() || (name.len() < c.data@.len()
            && c.data@[name.len() as int] == 0),
        name.len() <= 64 ==> name.len() == c.bref.check@.len() || (name.len() < c.bref.check@.len()
            && c.bref.check@[name.len() as int] == 0),
    ensures
        chain_name(c) == Some(decode_utf8(name)),
{
    let n = name.len() as int;
    let src = if n > 64 {
        c.data@
    } else {
        c.bref.check@
    };
    assert(src.take(n) == name);
    crate::util::lemma_cstr_len(src);
    let k = cstr_len(src);
    if k < n {
        assert(src[k] == name[k]);
    }
    assert(k == n);
}

/// An inode is listed under the name it is looked up by: when an inode
/// chain with a whole image bears `name` (at most 256 bytes, valid UTF-8),
/// the chain's name is `name`.
pub proof fn lemma_inode_chain_name(c: Chain, name: Seq<u8>)
    requires
        c.bref.typ == HAMMER2_BREF_TYPE_INODE,
        c.data@.len() == 1024,
        name_matches(c, name),
        name.len() <= 256,
        valid_utf8(name),
    ensures
        chain_name(c) == Some(decode_utf8(name)),
{
}

/// What decompressing a data chain's media gives, by the compression
/// method of its block reference: the first `bytes` bytes when it is not
/// compressed, the LZ4 or zlib decoding into at most one physical buffer
/// (`EIO` when that fails), `EINVAL` for other methods.
pub open spec fn decompressed(c: Chain) -> Result<Seq<u8>, Errno> {
    let comp = spec_dec_algo(c.bref.methods);
    let max = HAMMER2_PBUFSIZE as int;
    if comp == HAMMER2_COMP_NONE {
        Ok(c.data@.take(c.bytes as int))
    } else if comp == HAMMER2_COMP_LZ4 {
        match lz4_decompress_spec(c.data@, max) {
            Ok(v) => Ok(v),
            Err(_) => Err(Errno::EIO),
        }
    } else if comp == HAMMER2_COMP_ZLIB {
        match zlib_decompress_spec(c.data@, max) {
            Ok(v) => Ok(v),
            Err(_) => Err(Errno::EIO),
        }
    } else {
        Err(Errno::EINVAL)
    }
}

/// The data a chain holds: an inode's direct data (as many bytes as its
/// size says), a data block's decompressed media; `EINVAL` for other types.
pub open spec fn chain_data(c: Chain) -> Result<Seq<u8>, Errno> {
    if c.bref.typ == HAMMER2_BREF_TYPE_INODE {
        Ok(c.data@.subrange(0x200, 0x200 + le64(c.data@, 0x60)))
    } else if c.bref.typ == HAMMER2_BREF_TYPE_DATA {
        decompressed(c)
    } else {
        Err(Errno::EINVAL)
    }
}

/// The chain's media can be read as its data.
pub open spec fn data_readable(c: Chain) -> bool {
    &&& c.bref.typ == HAMMER2_BREF_TYPE_INODE ==> c.data@.len() == 1024 && le64(c.data@, 0x60)
        <= 512
    &&& c.bref.typ == HAMMER2_BREF_TYPE_DATA ==> {
        let comp = spec_dec_algo(c.bref.methods);
        &&& comp == HAMMER2_COMP_NONE ==> c.bytes <= c.data@.len()
        &&& comp == HAMMER2_COMP_LZ4 ==> c.data@.len() >= 4 && (le32(c.data@, 0) < 0x8000_0000
            ==> le32(c.data@, 0) <= c.data@.len())
    }
}

impl Chain {
    /// The chain's media decoded as an inode.
    pub fn as_inode_data(&self) -> (r: Hammer2InodeData)
        requires
            self.data@.len() == 1024,
        ensures
            inode_data_decodes(r, self.data@),
    {
        media_as_inode_data(self.data.as_slice())
    }

    /// The chain's media decoded as a volume header.
    pub fn as_volume_data(&self) -> (r: Hammer2VolumeData)
        requires
            self.data@.len() == 65536,
        ensures
            volume_data_decodes(r, self.data@),
    {
        media_as_volume_data(self.data.as_slice())
    }

    /// The block references held in the chain's media.
    pub fn as_blockref(&self) -> (r: Result<Vec<Hammer2Blockref>, Errno>)
        requires
            media_size_ok(self.bref.typ, self.data@),
        ensures
            match media_blockrefs(self.bref.typ, self.data@) {
                Ok(s) => (r matches Ok(v) && v@ == s),
                Err(e) => r == Err::<Vec<Hammer2Blockref>, Errno>(e),
            },
    {
        media_as_blockref(&self.bref, self.data.as_slice())
    }

    /// The block references held in the chain's media, none for a type that
    /// holds none.
    pub fn as_blockref_safe(&self) -> (r: Vec<Hammer2Blockref>)
        requires
            media_size_ok(self.bref.typ, self.data@),
        ensures
            match media_blockrefs(self.bref.typ, self.data@) {
                Ok(s) => r@ == s,
                Err(_) => r@.len() == 0,
            },
    {
        media_as_blockref_safe(&self.bref, self.data.as_slice())
    }

    /// Counts the block table once: sets the live limit to one past the
    /// last non-empty entry, adds the non-empty entries after the first to
    /// the live count and marks the chain counted. A counted chain is left
    /// as it is.
    pub fn count_blockref(&mut self) -> (r: Result<(), Errno>)
        requires
            media_size_ok(old(self).bref.typ, old(self).data@),
            old(self).flags & CHAIN_COUNTED_BLOCKREF == 0 ==> (media_blockrefs(old(self).bref.typ, old(self).data@) matches Ok(s) ==> old(self).live_count + counted_live(s) <= usize::MAX),
        ensures
            old(self).flags & CHAIN_COUNTED_BLOCKREF != 0 ==> r == Ok::<(), Errno>(()) && *final(self) == *old(self),
            old(self).flags & CHAIN_COUNTED_BLOCKREF == 0 ==> match media_blockrefs(
                old(self).bref.typ,
                old(self).data@,
            ) {
                Err(e) => r == Err::<(), Errno>(e) && *final(self) == *old(self),
                Ok(s) => {
                    &&& r == Ok::<(), Errno>(())
                    &&& final(self).live_zero == counted_live_zero(s)
                    &&& final(self).live_count == old(self).live_count + counted_live(s)
                    &&& final(self).flags == old(self).flags | CHAIN_COUNTED_BLOCKREF
                    &&& final(self).cache_index == old(self).cache_index
                    &&& same_content(*final(self), *old(self))
                },
            },
    {
        assert(CHAIN_COUNTED_BLOCKREF & !CHAIN_ALL_MASK == 0) by (bit_vector);
        if self.has_flags(CHAIN_COUNTED_BLOCKREF) {
            return Ok(());
        }
        let base = self.as_blockref()?;
        let ghost s = base@;
        if base.len() == 0 {
            self.live_zero = 0;
        } else {
            let mut count = base.len() - 1;
            while count != 0 && base[count].typ == HAMMER2_BREF_TYPE_EMPTY
                invariant
                    count < base@.len(),
                    last_live(base@, base@.len() - 1) == last_live(base@, count as int),
                decreases count,
            {
                count = count - 1;
            }
            assert(last_live(s, count as int) == count);
            self.live_zero = count + 1;
            let ghost c0 = count as int;
            proof {
                lemma_last_live(s, s.len() - 1);
                lemma_last_live(s, c0);
            }
            let mut added: usize = 0;
            while count != 0
                invariant
                    count <= c0 < base@.len(),
                    s == base@,
                    added + live_between(s, count as int) == live_between(s, c0),
                    live_between(s, c0) == counted_live(s),
                    live_between(s, c0) <= usize::MAX,
                decreases count,
            {
                if base[count].typ != HAMMER2_BREF_TYPE_EMPTY {
                    added = added + 1;
                }
                count = count - 1;
            }
            self.live_count = self.live_count + added;
        }
        self.set_flags(CHAIN_COUNTED_BLOCKREF);
        Ok(())
    }

    /// Finds, in the counted block table, the entry that encloses `key_beg`
    /// or follows it, searching back and then forward from the cached index,
    /// which it updates. Returns the entry's index (the table length when
    /// there is none before the live limit) and the next key to look at.
    pub fn find_blockref(&mut self, key_next: u64, key_beg: u64) -> (r: Result<(usize, u64), Errno>)
        requires
            old(self).flags & CHAIN_COUNTED_BLOCKREF != 0,
            media_size_ok(old(self).bref.typ, old(self).data@),
            media_blockrefs(old(self).bref.typ, old(self).data@) matches Ok(s) ==> old(self).live_zero <= s.len() && live_ranges_ok(s),
        ensures
            match media_blockrefs(old(self).bref.typ, old(self).data@) {
                Err(e) => r == Err::<(usize, u64), Errno>(e) && *final(self) == *old(self),
                Ok(s) => if s.len() == 0 {
                    r == Ok::<(usize, u64), Errno>((0, key_next)) && *final(self) == *old(self)
                } else {
                    let ib = bwd_stop(s, start_index(old(self).cache_index, old(self).live_zero), key_beg);
                    let f = fwd_scan(s, ib, old(self).live_zero as int, key_beg);
                    &&& r matches Ok(p) && (p.0 as int, p.1) == blockref_search_result(
                        s,
                        f,
                        old(self).live_zero as int,
                        key_next,
                    )
                    &&& final(self).cache_index == (if f < s.len() {
                        f
                    } else {
                        ib
                    })
                    &&& same_content(*final(self), *old(self))
                    &&& final(self).flags == old(self).flags
                    &&& final(self).live_zero == old(self).live_zero
                    &&& final(self).live_count == old(self).live_count
                },
            },
            r matches Ok(p) ==> (p.0 < media_blockrefs(old(self).bref.typ, old(self).data@)->Ok_0.len()
                ==> bref_hit(media_blockrefs(old(self).bref.typ, old(self).data@)->Ok_0[p.0 as int], key_beg)
                && p.0 < old(self).live_zero),
    {
        let base = self.as_blockref()?;
        if base.len() == 0 {
            return Ok((0, key_next));
        }
        let (ci, i, kn) = search_blockref(&base, self.cache_index, self.live_zero, key_next, key_beg);
        proof {
            let s = base@;
            let ib = bwd_stop(s, start_index(self.cache_index, self.live_zero), key_beg);
            lemma_bwd_stop(s, start_index(self.cache_index, self.live_zero), key_beg);
            lemma_fwd_scan(s, ib, self.live_zero as int, key_beg);
        }
        self.cache_index = ci;
        Ok((i, kn))
    }

    /// Checks the media `bdata` against the chain's check code, once: a
    /// chain that passed before passes again; one that passes now is marked.
    pub fn test_check(&mut self, bdata: &[u8]) -> (r: Result<bool, Errno>)
        ensures
            old(self).flags & CHAIN_TESTED_GOOD != 0 ==> r == Ok::<bool, Errno>(true) && *final(self)
                == *old(self),
            old(self).flags & CHAIN_TESTED_GOOD == 0 ==> {
                &&& r == verify_media_spec(old(self).bref, bdata@)
                &&& final(self).flags == (if r == Ok::<bool, Errno>(true) {
                    old(self).flags | CHAIN_TESTED_GOOD
                } else {
                    old(self).flags
                })
                &&& same_content(*final(self), *old(self))
                &&& final(self).live_zero == old(self).live_zero
                &&& final(self).live_count == old(self).live_count
                &&& final(self).cache_index == old(self).cache_index
            },
    {
        assert(CHAIN_TESTED_GOOD & !CHAIN_ALL_MASK == 0) by (bit_vector);
        if self.has_flags(CHAIN_TESTED_GOOD) {
            return Ok(true);
        }
        let r = verify_media(&self.bref, bdata)?;
        if r {
            self.set_flags(CHAIN_TESTED_GOOD);
        }
        Ok(r)
    }

    /// Whether the chain bears the name `name`.
    pub fn match_name(&self, name: &str) -> (r: bool)
        requires
            name_readable(*self, name.spec_bytes().len()),
        ensures
            r == name_matches(*self, name.spec_bytes()),
    {
        let b = name.as_bytes_vec();
        self.match_name_from_bytes(b.as_slice())
    }

    /// Whether the chain bears the name made of the bytes `name`.
    pub fn match_name_from_bytes(&self, name: &[u8]) -> (r: bool)
        requires
            name_readable(*self, name@.len()),
        ensures
            r == name_matches(*self, name@),
    {
        let n = name.len();
        if self.bref.typ == HAMMER2_BREF_TYPE_INODE {
            let ipdata = self.as_inode_data();
            if ipdata.meta.name_len as usize != n {
                return false;
            }
            let f = vstd::slice::slice_subrange(ipdata.filename.as_slice(), 0, n);
            assert(f@ =~= self.data@.subrange(0x100, 0x100 + n));
            bytes_eq(f, name)
        } else if self.bref.typ == HAMMER2_BREF_TYPE_DIRENT {
            let head: Hammer2DirentHead = self.bref.embed_as();
            if head.namlen as usize == n {
                if n > 64 {
                    let d = vstd::slice::slice_subrange(self.data.as_slice(), 0, n);
                    assert(d@ =~= self.data@.take(n as int));
                    if bytes_eq(d, name) {
                        return true;
                    }
                }
                if n <= 64 {
                    let c = vstd::slice::slice_subrange(self.bref.check.as_slice(), 0, n);
                    assert(c@ =~= self.bref.check@.take(n as int));
                    if bytes_eq(c, name) {
                        return true;
                    }
                }
            }
            false
        } else {
            false
        }
    }

    /// The chain's name, if it has one that is valid UTF-8.
    pub fn get_name(&self) -> (r: Option<String>)
        requires
            self.bref.typ == HAMMER2_BREF_TYPE_INODE && self.data@.len() > 0 ==> self.data@.len()
                == 1024,
        ensures
            match chain_name(*self) {
                Some(n) => r matches Some(s) && s@ == n,
                None => r is None,
            },
    {
        if self.bref.typ == HAMMER2_BREF_TYPE_INODE {
            if self.has_data() {
                let d = self.as_inode_data();
                assert(filename_bytes(d) =~= {
                    let n = inode_name_len(self.data@) as int;
                    self.data@.subrange(0x100, 0x100 + if n < 256 { n } else { 256 })
                });
                d.get_filename_string().ok()
            } else {
                None
            }
        } else if self.bref.typ == HAMMER2_BREF_TYPE_DIRENT {
            let head: Hammer2DirentHead = self.bref.embed_as();
            if head.namlen <= 64 {
                bin_to_string(self.bref.check.as_slice()).ok()
            } else {
                bin_to_string(self.data.as_slice()).ok()
            }
        } else {
            None
        }
    }

    /// The data the chain holds: an inode's direct data or a data block's
    /// decompressed media.
    pub fn read_data(&mut self) -> (r: Result<Vec<u8>, Errno>)
        requires
            data_readable(*old(self)),
        ensures
            *final(self) == *old(self),
            match chain_data(*old(self)) {
                Ok(d) => r matches Ok(v) && v@ == d,
                Err(e) => r == Err::<Vec<u8>, Errno>(e),
            },
    {
        if self.bref.typ == HAMMER2_BREF_TYPE_INODE {
            let ipdata = self.as_inode_data();
            let n = ipdata.meta.size as usize;
            let u = vstd::slice::slice_subrange(ipdata.u.as_slice(), 0, n);
            let v = vstd::slice::slice_to_vec(u);
            assert(v@ =~= self.data@.subrange(0x200, 0x200 + le64(self.data@, 0x60)));
            Ok(v)
        } else if self.bref.typ == HAMMER2_BREF_TYPE_DATA {
            self.decompress_data()
        } else {
            Err(Errno::EINVAL)
        }
    }

    /// Decompresses the chain's media by the compression method of its
    /// block reference.
    fn decompress_data(&self) -> (r: Result<Vec<u8>, Errno>)
        requires
            self.bref.typ == HAMMER2_BREF_TYPE_DATA,
            data_readable(*self),
        ensures
            match decompressed(*self) {
                Ok(d) => r matches Ok(v) && v@ == d,
                Err(e) => r == Err::<Vec<u8>, Errno>(e),
            },
    {
        let max_size: usize = 65536;
        let comp = dec_comp(self.bref.methods);
        if comp == HAMMER2_COMP_NONE {
            let dl = self.data.len();
            assert(self.bytes <= dl);
            let n = self.bytes as usize;
            let d = vstd::slice::slice_subrange(self.data.as_slice(), 0, n);
            let v = vstd::slice::slice_to_vec(d);
            assert(v@ =~= self.data@.take(self.bytes as int));
            Ok(v)
        } else if comp == HAMMER2_COMP_LZ4 {
            match crate::lz4::decompress(self.data.as_slice(), max_size) {
                Ok(v) => Ok(v),
                Err(_) => Err(Errno::EIO),
            }
        } else if comp == HAMMER2_COMP_ZLIB {
            match crate::zlib::decompress(self.data.as_slice(), max_size) {
                Ok(v) => Ok(v),
                Err(_) => Err(Errno::EIO),
            }
        } else {
            Err(Errno::EINVAL)
        }
    }

    /// The chain's data through its cache: the cached data when there is
    /// some, otherwise the data read now, which is kept in the cache.
    pub fn read_cache_data(&mut self) -> (r: Result<Vec<u8>, Errno>)
        requires
            old(self).udata@.len() == 0 ==> data_readable(*old(self)),
        ensures
            old(self).udata@.len() > 0 ==> *final(self) == *old(self) && (r matches Ok(v) && v@
                == old(self).udata@),
            old(self).udata@.len() == 0 ==> match chain_data(*old(self)) {
                Ok(d) => {
                    &&& r matches Ok(v) && v@ == d
                    &&& final(self).udata@ == if old(self).data@.len() > 0 {
                        d
                    } else {
                        old(self).udata@
                    }
                    &&& final(self).bref == old(self).bref && final(self).data@ == old(self).data@
                    &&& final(self).flags == old(self).flags && final(self).ccids@ == old(self).ccids@
                    &&& final(self).cid == old(self).cid && final(self).pcid == old(self).pcid
                    &&& final(self).bytes == old(self).bytes && final(self).live_zero == old(self).live_zero
                    &&& final(self).live_count == old(self).live_count
                    &&& final(self).cache_index == old(self).cache_index
                },
                Err(e) => r == Err::<Vec<u8>, Errno>(e) && *final(self) == *old(self),
            },
    {
        if self.has_udata() {
            return Ok(vstd::slice::slice_to_vec(self.udata.as_slice()));
        }
        let d = self.read_data()?;
        if self.has_data() {
            self.udata = vstd::slice::slice_to_vec(d.as_slice());
        }
        Ok(d)
    }
}

impl Chain {
    /// Whether the chain's media can be read for a name of `n` bytes.
    pub fn name_readable_exec(&self, n: usize) -> (r: bool)
        ensures
            r == name_readable(*self, n as nat),
    {
        if self.bref.typ == HAMMER2_BREF_TYPE_INODE {
            if self.data.len() != 1024 {
                return false;
            }
            let ipdata = self.as_inode_data();
            if ipdata.meta.name_len as usize == n && n > 256 {
                return false;
            }
            true
        } else if self.bref.typ == HAMMER2_BREF_TYPE_DIRENT {
            let head: Hammer2DirentHead = self.bref.embed_as();
            !(head.namlen as usize == n && n > 64 && n > self.data.len())
        } else {
            true
        }
    }

    /// Whether the chain's media can be read as its data.
    pub fn data_readable_exec(&self) -> (r: bool)
        ensures
            r == data_readable(*self),
    {
        if self.bref.typ == HAMMER2_BREF_TYPE_INODE {
            if self.data.len() != 1024 {
                return false;
            }
            let size = crate::fs::read_u64_le(self.data.as_slice(), 0x60);
            size <= 512
        } else if self.bref.typ == HAMMER2_BREF_TYPE_DATA {
            let comp = dec_comp(self.bref.methods);
            if comp == HAMMER2_COMP_NONE {
                self.bytes <= self.data.len() as u64
            } else if comp == HAMMER2_COMP_LZ4 {
                if self.data.len() < 4 {
                    return false;
                }
                let c = crate::fs::read_u32_le(self.data.as_slice(), 0);
                !(c < 0x8000_0000 && c as usize > self.data.len())
            } else {
                true
            }
        } else {
            true
        }
    }
}

} // verus!
