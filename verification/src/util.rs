//! Small helpers: NUL-terminated names, path splitting, the host system
//! and the clock.
use vstd::prelude::*;
use vstd::string::StrSliceExecFns;
use vstd::utf8::{decode_utf8, valid_utf8};
use crate::text::string_from_utf8;

verus! {

/// Bytes that are not valid UTF-8.
#[derive(Debug, Clone, Copy, PartialEq, Eq, Structural)]
pub struct Utf8Error;

/// The clock was set before the Unix epoch.
#[derive(Debug, Clone, Copy, PartialEq, Eq, Structural)]
pub struct SystemTimeError;

/// The length of the NUL-terminated string at the start of `b`: the index
/// of the first 0 byte, or the length of `b` when there is none.
pub open spec fn cstr_len(b: Seq<u8>) -> int
    decreases b.len(),
{
    if b.len() == 0 {
        0
    } else if b[0] == 0 {
        0
    } else {
        1 + cstr_len(b.drop_first())
    }
}

pub proof fn lemma_cstr_len(b: Seq<u8>)
    ensures
        0 <= cstr_len(b) <= b.len(),
        forall|k: int| 0 <= k < cstr_len(b) ==> #[trigger] b[k] != 0,
        cstr_len(b) < b.len() ==> b[cstr_len(b)] == 0,
    decreases b.len(),
{
    if b.len() > 0 && b[0] != 0 {
        lemma_cstr_len(b.drop_first());
        assert forall|k: int| 0 <= k < cstr_len(b) implies #[trigger] b[k] != 0 by {
            if k > 0 {
                assert(b[k] == b.drop_first()[k - 1]);
            }
        }
    }
}

/// The index of the first 0 byte of `b`, or its length.
pub fn cstr_len_exec(b: &[u8]) -> (r: usize)
    ensures
        r == cstr_len(b@),
{
    proof {
        lemma_cstr_len(b@);
    }
    let mut i: usize = 0;
    while i < b.len()
        invariant
            i <= b@.len(),
            forall|k: int| 0 <= k < i ==> #[trigger] b@[k] != 0,
        ensures
            i <= b@.len(),
            forall|k: int| 0 <= k < i ==> #[trigger] b@[k] != 0,
            i < b@.len() ==> b@[i as int] == 0,
        decreases b@.len() - i,
    {
        if b[i] == 0 {
            break;
        }
        i = i + 1;
    }
    proof {
        if i < cstr_len(b@) {
            assert(b@[i as int] != 0);
        }
        if cstr_len(b@) < i {
            assert(b@[cstr_len(b@)] != 0);
        }
    }
    i
}

/// The string before the first 0 byte of `b` (all of `b` when there is
/// none); `Utf8Error` when those bytes are not valid UTF-8.
pub fn bin_to_string(b: &[u8]) -> (r: Result<String, Utf8Error>)
    ensures
        r is Ok <==> valid_utf8(b@.take(cstr_len(b@))),
        r matches Ok(s) ==> s@ == decode_utf8(b@.take(cstr_len(b@))),
        r is Err ==> r == Err::<String, Utf8Error>(Utf8Error),
{
    let n = cstr_len_exec(b);
    proof {
        lemma_cstr_len(b@);
    }
    let head = vstd::slice::slice_subrange(b, 0, n);
    let v = vstd::slice::slice_to_vec(head);
    assert(v@ =~= b@.take(n as int));
    match string_from_utf8(v) {
        Some(s) => Ok(s),
        None => Err(Utf8Error),
    }
}

/// A path component is kept unless it is empty or `.`.
pub open spec fn keep_component(seg: Seq<char>) -> Seq<Seq<char>> {
    if seg.len() == 0 || seg == seq!['.'] {
        Seq::empty()
    } else {
        seq![seg]
    }
}

/// The components of `s` from the one that starts at `j`, scanning at `i`.
pub open spec fn path_components_from(s: Seq<char>, j: int, i: int) -> Seq<Seq<char>>
    decreases s.len() - i,
{
    if i >= s.len() {
        keep_component(s.subrange(j, s.len() as int))
    } else if s[i] == '/' {
        keep_component(s.subrange(j, i)) + path_components_from(s, i + 1, i + 1)
    } else {
        path_components_from(s, j, i + 1)
    }
}

/// The components of a path: the pieces between slashes, without empty
/// pieces and without `.`.
pub open spec fn path_components(s: Seq<char>) -> Seq<Seq<char>> {
    path_components_from(s, 0, 0)
}

fn push_component<'a>(v: &mut Vec<&'a str>, path: &'a str, j: usize, i: usize)
    requires
        j <= i <= path@.len(),
    ensures
        final(v)@.map_values(|s: &str| s@) == old(v)@.map_values(|s: &str| s@) + keep_component(
            path@.subrange(j as int, i as int),
        ),
{
    let ghost seg = path@.subrange(j as int, i as int);
    if i > j && !(i == j + 1 && path.get_char(j) == '.') {
        proof {
            assert(seg.len() > 0);
            if seg == seq!['.'] {
                assert(seg[0] == path@[j as int]);
            }
        }
        let c = path.substring_char(j, i);
        v.push(c);
        assert(v@.map_values(|s: &str| s@) =~= old(v)@.map_values(|s: &str| s@) + seq![seg]);
    } else {
        proof {
            if i == j + 1 {
                assert(seg =~= seq!['.']);
            }
        }
        assert(v@.map_values(|s: &str| s@) =~= old(v)@.map_values(|s: &str| s@) + Seq::<
            Seq<char>,
        >::empty());
    }
}

/// Splits a path into its components: the pieces between slashes, leaving
/// out empty pieces and `.`.
pub fn split_path<'a>(path: &'a str) -> (r: Vec<&'a str>)
    ensures
        r@.map_values(|s: &str| s@) == path_components(path@),
{
    let n = path.unicode_len();
    let mut v: Vec<&'a str> = Vec::new();
    let mut j: usize = 0;
    let mut i: usize = 0;
    while i < n
        invariant
            n == path@.len(),
            j <= i <= n,
            v@.map_values(|s: &str| s@) + path_components_from(path@, j as int, i as int)
                == path_components(path@),
        decreases n - i,
    {
        let c = path.get_char(i);
        if c == '/' {
            let ghost before = v@.map_values(|s: &str| s@);
            push_component(&mut v, path, j, i);
            proof {
                assert(path_components_from(path@, j as int, i as int) == keep_component(
                    path@.subrange(j as int, i as int),
                ) + path_components_from(path@, i + 1, i + 1));
                assert(before + path_components_from(path@, j as int, i as int) =~= v@.map_values(
                    |s: &str| s@,
                ) + path_components_from(path@, i + 1, i + 1));
            }
            j = i + 1;
        }
        i = i + 1;
    }
    let ghost before = v@.map_values(|s: &str| s@);
    push_component(&mut v, path, j, n);
    assert(v@.map_values(|s: &str| s@) =~= before + path_components_from(
        path@,
        j as int,
        n as int,
    ));
    v
}

/// A component never is empty or `.`, and never holds a slash.
pub proof fn lemma_path_components_from(s: Seq<char>, j: int, i: int)
    requires
        0 <= j <= i <= s.len(),
        forall|k: int| j <= k < i ==> s[k] != '/',
    ensures
        forall|c: int|
            0 <= c < path_components_from(s, j, i).len() ==> {
                let comp = #[trigger] path_components_from(s, j, i)[c];
                &&& comp.len() > 0
                &&& comp != seq!['.']
                &&& forall|k: int| 0 <= k < comp.len() ==> comp[k] != '/'
            },
    decreases s.len() - i,
{
    if i >= s.len() {
        let seg = s.subrange(j, s.len() as int);
        assert forall|k: int| 0 <= k < seg.len() implies seg[k] != '/' by {
            assert(seg[k] == s[j + k]);
        }
        if keep_component(seg).len() > 0 {
            assert(keep_component(seg)[0] == seg);
        }
        assert(path_components_from(s, j, i) == keep_component(seg));
    } else if s[i] == '/' {
        let seg = s.subrange(j, i);
        assert forall|k: int| 0 <= k < seg.len() implies seg[k] != '/' by {
            assert(seg[k] == s[j + k]);
        }
        lemma_path_components_from(s, i + 1, i + 1);
        let a = keep_component(seg);
        let b = path_components_from(s, i + 1, i + 1);
        assert(path_components_from(s, j, i) == a + b);
        assert forall|c: int| 0 <= c < (a + b).len() implies {
            let comp = #[trigger] (a + b)[c];
            &&& comp.len() > 0
            &&& comp != seq!['.']
            &&& forall|k: int| 0 <= k < comp.len() ==> comp[k] != '/'
        } by {
            if c < a.len() {
                assert((a + b)[c] == seg);
            } else {
                assert((a + b)[c] == b[c - a.len()]);
            }
        }
    } else {
        lemma_path_components_from(s, j, i + 1);
        assert(path_components_from(s, j, i) == path_components_from(s, j, i + 1));
    }
}

/// No component of a split path is empty, `.`, or holds a slash.
pub proof fn lemma_path_components(s: Seq<char>)
    ensures
        forall|c: int|
            0 <= c < path_components(s).len() ==> {
                let comp = #[trigger] path_components(s)[c];
                &&& comp.len() > 0
                &&& comp != seq!['.']
                &&& forall|k: int| 0 <= k < comp.len() ==> comp[k] != '/'
            },
{
    lemma_path_components_from(s, 0, 0);
}

/// Whether `os` names Linux.
pub fn is_linux(os: &str) -> (r: bool)
    ensures
        r == (os@ == "linux"@),
{
    os.to_string() == "linux".to_string()
}

/// Whether `os` names FreeBSD.
pub fn is_freebsd(os: &str) -> (r: bool)
    ensures
        r == (os@ == "freebsd"@),
{
    os.to_string() == "freebsd".to_string()
}

/// Whether `os` names Solaris.
pub fn is_solaris(os: &str) -> (r: bool)
    ensures
        r == (os@ == "solaris"@),
{
    os.to_string() == "solaris".to_string()
}

/// Whether the library supports the system `os` names: Linux or FreeBSD.
pub fn is_os_supported(os: &str) -> (r: bool)
    ensures
        r == (os@ == "linux"@ || os@ == "freebsd"@),
{
    is_linux(os) || is_freebsd(os)
}

/// Whole seconds since the Unix epoch by the system clock; `None` when the
/// clock is set before the epoch.
#[verifier::external_body]
fn system_time_secs() -> (r: Option<u64>)
{
    match std::time::SystemTime::now().duration_since(std::time::UNIX_EPOCH) {
        Ok(d) => Some(d.as_secs()),
        Err(_) => None,
    }
}

/// Whole seconds since the Unix epoch; `SystemTimeError` when the clock is
/// set before the epoch.
pub fn get_current_time() -> (r: Result<u64, SystemTimeError>)
    ensures
        r is Err ==> r == Err::<u64, SystemTimeError>(SystemTimeError),
{
    match system_time_secs() {
        Some(t) => Ok(t),
        None => Err(SystemTimeError),
    }
}

} // verus!
