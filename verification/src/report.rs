//! Text that describes block references, inodes and the volumes of a file
//! system.
use vstd::prelude::*;
use vstd::string::{StrSliceExecFns, StringExecFns, StringSliceAdditionalSpecFns};
use vstd::utf8::encode_utf8;
use crate::extra::filename_bytes;
use crate::fs::{Hammer2Blockref, Hammer2InodeData};
use crate::ondisk::Ondisk;
use crate::subs::{
    blockref_type_name, dec_chars, get_blockref_type_string, get_uuid_string_from_bytes, uuid_text,
};
use crate::text::{
    ascii_chars, ascii_string, decimal_string, hex_fixed, hex_u64_prefixed, lemma_dec_ascii,
    lemma_hex_fixed, push_hex_fixed, push_hex_u64_prefixed,
};
use crate::volume::Volume;

verus! {

/// `n` as `w` lowercase hexadecimal digits.
pub open spec fn hex_chars(n: nat, w: nat) -> Seq<char> {
    ascii_chars(hex_fixed(n, w))
}

/// `n` as `0x` and sixteen hexadecimal digits.
pub open spec fn hex0x_chars(n: u64) -> Seq<char> {
    ascii_chars(hex_u64_prefixed(n))
}

/// `n` as `w` hexadecimal digits, as a string.
pub fn hex_string(n: u64, w: usize) -> (r: String)
    ensures
        r@ == hex_chars(n as nat, w as nat),
{
    let mut v: Vec<u8> = Vec::new();
    push_hex_fixed(&mut v, n, w);
    proof {
        lemma_hex_fixed(n as nat, w as nat);
        assert(v@ =~= hex_fixed(n as nat, w as nat));
    }
    ascii_string(v)
}

/// `n` as `0x` and sixteen hexadecimal digits, as a string.
pub fn hex0x_string(n: u64) -> (r: String)
    ensures
        r@ == hex0x_chars(n),
{
    let mut v: Vec<u8> = Vec::new();
    push_hex_u64_prefixed(&mut v, n);
    proof {
        lemma_hex_fixed(n as nat, 16);
        assert(v@ =~= hex_u64_prefixed(n));
        assert forall|i: int| 0 <= i < v@.len() implies #[trigger] v@[i] < 128 by {
            if i >= 2 {
                assert(v@[i] == hex_fixed(n as nat, 16)[i - 2]);
            }
        }
    }
    ascii_string(v)
}

/// The one-line description of a block reference: its type, data offset,
/// key and key bits, methods, leaf count and transaction ids.
pub open spec fn blockref_text(b: Hammer2Blockref) -> Seq<char> {
    blockref_type_name(b.typ) + " "@ + hex_chars(b.data_off as nat, 16) + " "@ + hex_chars(
        b.key as nat,
        16,
    ) + "/"@ + dec_chars(b.keybits as nat) + " meth "@ + hex_chars(b.methods as nat, 2)
        + " leaf "@ + dec_chars(b.leaf_count as nat) + " mir "@ + hex_chars(b.mirror_tid as nat, 16)
        + " mod "@ + hex_chars(b.modify_tid as nat, 16)
}

impl Hammer2Blockref {
    /// The one-line description of the block reference.
    pub fn to_string(&self) -> (r: String)
        ensures
            r@ == blockref_text(*self),
    {
        let mut s = get_blockref_type_string(self.typ).to_string();
        s.append(" ");
        let t = hex_string(self.data_off, 16);
        s.append(t.as_str());
        s.append(" ");
        let t = hex_string(self.key, 16);
        s.append(t.as_str());
        s.append("/");
        let t = decimal_string(self.keybits as u64);
        s.append(t.as_str());
        s.append(" meth ");
        let t = hex_string(self.methods as u64, 2);
        s.append(t.as_str());
        s.append(" leaf ");
        let t = decimal_string(self.leaf_count as u64);
        s.append(t.as_str());
        s.append(" mir ");
        let t = hex_string(self.mirror_tid, 16);
        s.append(t.as_str());
        s.append(" mod ");
        let t = hex_string(self.modify_tid, 16);
        s.append(t.as_str());
        s
    }
}

/// The one-line description of an inode: its name (`???` when it is not
/// UTF-8), then its cluster and file system ids.
pub open spec fn inode_text(d: Hammer2InodeData) -> Seq<char> {
    (match crate::chain::utf8_string(filename_bytes(d)) {
        Some(n) => n,
        None => "???"@,
    }) + " clid "@ + ascii_chars(uuid_text(d.meta.pfs_clid@)) + " fsid "@ + ascii_chars(
        uuid_text(d.meta.pfs_fsid@),
    )
}

impl Hammer2InodeData {
    /// The one-line description of the inode.
    pub fn to_string(&self) -> (r: String)
        ensures
            r@ == inode_text(*self),
    {
        let mut s = match self.get_filename_string() {
            Ok(v) => v,
            Err(_) => {
                proof {
                    reveal_strlit("???");
                }
                "???".to_string()
            },
        };
        s.append(" clid ");
        let t = get_uuid_string_from_bytes(self.meta.pfs_clid.as_slice());
        s.append(t.as_str());
        s.append(" fsid ");
        let t = get_uuid_string_from_bytes(self.meta.pfs_fsid.as_slice());
        s.append(t.as_str());
        s
    }
}

/// `s` padded with spaces on the right to `w` characters.
pub open spec fn pad_right(s: Seq<char>, w: nat) -> Seq<char> {
    if s.len() >= w {
        s
    } else {
        s + Seq::new((w - s.len()) as nat, |i: int| ' ')
    }
}

/// Appends spaces to `s` until it is `w` characters long.
fn pad_string(s: &mut String, w: usize)
    ensures
        final(s)@ == pad_right(old(s)@, w as nat),
{
    let n = s.as_str().unicode_len();
    if n >= w {
        return;
    }
    let ghost s0 = old(s)@;
    let mut i: usize = n;
    while i < w
        invariant
            n == s0.len(),
            n <= i <= w,
            s@ == s0 + Seq::new((i - n) as nat, |k: int| ' '),
        decreases w - i,
    {
        s.append(" ");
        proof {
            reveal_strlit(" ");
        }
        i = i + 1;
        assert(s@ =~= s0 + Seq::new((i - n) as nat, |k: int| ' '));
    }
}

/// The width of the path column: the longest path, counted in bytes.
pub open spec fn path_width(vols: Seq<Volume>) -> nat
    decreases vols.len(),
{
    if vols.len() == 0 {
        0
    } else {
        let w = path_width(vols.drop_last());
        let n = encode_utf8(vols.last().path@).len();
        if n > w {
            n
        } else {
            w
        }
    }
}

/// The first line of the volume table: the whole offset space.
pub open spec fn total_line(w: nat, total: u64) -> Seq<char> {
    "total    "@ + Seq::new(w, |i: int| ' ') + " "@ + hex0x_chars(0) + " "@ + hex0x_chars(total)
}

/// The line of the volume table for a volume: id, path, offset, size, and a
/// mark on the root volume.
pub open spec fn volume_line(v: Volume, w: nat) -> Seq<char> {
    "volume"@ + pad_right(dec_chars(v.id as nat), 2) + " "@ + pad_right(v.path@, w) + " "@
        + hex0x_chars(v.offset) + " "@ + hex0x_chars(v.size) + if v.id == 0 {
        " (root volume)"@
    } else {
        Seq::empty()
    }
}

impl Ondisk {
    /// The volume table: a line for the whole offset space, then a line per
    /// volume, with the path column as wide as the longest path.
    pub fn fmt_volumes(&self) -> (r: Vec<String>)
        ensures
            r@.len() == self.volumes@.len() + 1,
            r@[0]@ == total_line(path_width(self.volumes@), self.total_size),
            forall|i: int|
                0 <= i < self.volumes@.len() ==> (#[trigger] r@[i + 1])@ == volume_line(
                    self.volumes@[i],
                    path_width(self.volumes@),
                ),
    {
        let mut w: usize = 0;
        let mut i: usize = 0;
        while i < self.volumes.len()
            invariant
                i <= self.volumes@.len(),
                w == path_width(self.volumes@.take(i as int)),
            decreases self.volumes@.len() - i,
        {
            let b = self.volumes[i].path.as_str().as_bytes_vec();
            let n = b.len();
            proof {
                assert(self.volumes@.take(i + 1).drop_last() =~= self.volumes@.take(i as int));
            }
            if n > w {
                w = n;
            }
            i = i + 1;
        }
        assert(self.volumes@.take(self.volumes@.len() as int) =~= self.volumes@);
        let mut v: Vec<String> = Vec::new();
        let mut s = "total    ".to_string();
        let mut k: usize = 0;
        while k < w
            invariant
                k <= w,
                s@ == "total    "@ + Seq::new(k as nat, |i: int| ' '),
            decreases w - k,
        {
            s.append(" ");
            proof {
                reveal_strlit(" ");
            }
            k = k + 1;
            assert(s@ =~= "total    "@ + Seq::new(k as nat, |i: int| ' '));
        }
        s.append(" ");
        let t = hex0x_string(0);
        s.append(t.as_str());
        s.append(" ");
        let t = hex0x_string(self.total_size);
        s.append(t.as_str());
        v.push(s);
        let mut i: usize = 0;
        while i < self.volumes.len()
            invariant
                i <= self.volumes@.len(),
                w == path_width(self.volumes@),
                v@.len() == i + 1,
                v@[0]@ == total_line(path_width(self.volumes@), self.total_size),
                forall|j: int|
                    0 <= j < i ==> (#[trigger] v@[j + 1])@ == volume_line(
                        self.volumes@[j],
                        path_width(self.volumes@),
                    ),
            decreases self.volumes@.len() - i,
        {
            let vol = &self.volumes[i];
            let mut s = "volume".to_string();
            let mut d = decimal_string(vol.id as u64);
            pad_string(&mut d, 2);
            s.append(d.as_str());
            s.append(" ");
            let mut p = vol.path.as_str().to_string();
            pad_string(&mut p, w);
            s.append(p.as_str());
            s.append(" ");
            let t = hex0x_string(vol.offset);
            s.append(t.as_str());
            s.append(" ");
            let t = hex0x_string(vol.size);
            s.append(t.as_str());
            if vol.id == 0 {
                s.append(" (root volume)");
            }
            v.push(s);
            i = i + 1;
        }
        v
    }
}

} // verus!
