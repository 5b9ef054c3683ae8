//! Paths and file names: joining a directory and a name as `Path::join`
//! does on Unix, and testing how a name begins and ends.
use vstd::prelude::*;
use vstd::string::{StrSliceExecFns, StringExecFns};

verus! {

/// `dir` joined with the relative name `name`: the separator is added only
/// when `dir` is non-empty and does not already end with one.
pub open spec fn join_spec(dir: Seq<char>, name: Seq<char>) -> Seq<char> {
    if dir.len() == 0 {
        name
    } else if dir.last() == '/' {
        dir + name
    } else {
        dir + seq!['/'] + name
    }
}

/// `Path::new(dir).join(name)` for a relative file name `name`.
pub fn join(dir: &str, name: &str) -> (r: String)
    ensures
        r@ == join_spec(dir@, name@),
{
    let n = dir.unicode_len();
    if n == 0 {
        return String::from_str(name);
    }
    let last = dir.get_char(n - 1);
    if last == '/' {
        String::from_str(dir).concat(name)
    } else {
        proof {
            reveal_strlit("/");
        }
        String::from_str(dir).concat("/").concat(name)
    }
}

/// Whether `s` begins with `p`, as `str::starts_with` tells.
pub fn starts_with(s: &str, p: &str) -> (r: bool)
    ensures
        r == p@.is_prefix_of(s@),
{
    let n = s.unicode_len();
    let m = p.unicode_len();
    if m > n {
        return false;
    }
    let mut i: usize = 0;
    while i < m
        invariant
            i <= m <= n,
            n == s@.len(),
            m == p@.len(),
            forall|k: int| 0 <= k < i ==> p@[k] == s@[k],
        decreases m - i,
    {
        if s.get_char(i) != p.get_char(i) {
            return false;
        }
        i = i + 1;
    }
    assert(p@ =~= s@.subrange(0, m as int));
    true
}

/// Whether `s` ends with `p`, as `str::ends_with` tells.
pub fn ends_with(s: &str, p: &str) -> (r: bool)
    ensures
        r == p@.is_suffix_of(s@),
{
    let n = s.unicode_len();
    let m = p.unicode_len();
    if m > n {
        return false;
    }
    let d = n - m;
    let mut i: usize = 0;
    while i < m
        invariant
            i <= m <= n,
            d == n - m,
            n == s@.len(),
            m == p@.len(),
            forall|k: int| 0 <= k < i ==> p@[k] == s@[d + k],
        decreases m - i,
    {
        if s.get_char(d + i) != p.get_char(i) {
            assert(p@[i as int] != s@.subrange(d as int, n as int)[i as int]);
            return false;
        }
        i = i + 1;
    }
    assert(p@ =~= s@.subrange(d as int, n as int));
    true
}

} // verus!
