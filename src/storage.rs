//! Helpers of the package store: file path splitting, search patterns and
//! the general search filter.
use crate::text::char_vec;
use vstd::prelude::*;
use vstd::string::{StrSliceExecFns, StringExecFns};

verus! {

/// Version of the database layout.
pub const SCHEMA_VERSION: i32 = 3;

/// The database layout.
pub struct Schema;

/// Filter of a general package search; all given fields must match.
pub struct FindFilter {
    /// Name pattern (`*` and `?` are wildcards).
    pub name: Option<String>,
    /// Summary pattern.
    pub summary: Option<String>,
    /// Description pattern.
    pub description: Option<String>,
    /// Provided capability pattern.
    pub provides: Option<String>,
    /// Required capability pattern.
    pub requires: Option<String>,
    /// File path pattern.
    pub file: Option<String>,
    /// Exact architecture.
    pub arch: Option<String>,
    /// Exact repository.
    pub repo: Option<String>,
    /// Most results returned.
    pub limit: usize,
}

impl Default for FindFilter {
    fn default() -> (r: FindFilter)
        ensures
            r.name is None,
            r.summary is None,
            r.description is None,
            r.provides is None,
            r.requires is None,
            r.file is None,
            r.arch is None,
            r.repo is None,
            r.limit == 50,
    {
        FindFilter {
            name: None,
            summary: None,
            description: None,
            provides: None, requires: None,
            file: None,
            arch: None,
            repo: None,
            limit: 50,
        }
    }
}

/// The last position of `c` in `s`.
pub open spec fn last_index_of(s: Seq<char>, c: char) -> Option<int>
    decreases s.len(),
{
    if s.len() == 0 {
        None
    } else if s.last() == c {
        Some(s.len() - 1)
    } else {
        last_index_of(s.drop_last(), c)
    }
}

/// Directory and file name of a path: a directory entry (or the root) is
/// all directory; otherwise the path splits at its last slash, and a path
/// without one lies in the root.
pub open spec fn split_path_spec(path: Seq<char>, is_dir: bool) -> (Seq<char>, Seq<char>) {
    if is_dir || path == seq!['/'] {
        (path, Seq::empty())
    } else {
        match last_index_of(path, '/') {
            Some(pos) => if pos == 0 {
                (seq!['/'], path.skip(1))
            } else {
                (path.take(pos), path.skip(pos + 1))
            },
            None => (seq!['/'], path),
        }
    }
}

/// Splits a file path into directory and file name.
pub fn split_path(path: &str, is_dir: bool) -> (r: (&str, &str))
    ensures
        (r.0@, r.1@) == split_path_spec(path@, is_dir),
{
    proof {
        reveal_strlit("/");
        reveal_strlit("");
    }
    let v = char_vec(path);
    let n = v.len();
    let root = n == 1 && v[0] == '/';
    if root {
        assert(path@ =~= seq!['/']);
    }
    if is_dir || root {
        return (path, "");
    }
    assert(path@ != seq!['/']);
    let mut k = n;
    assert(v@.take(n as int) =~= v@);
    while k > 0 && v[k - 1] != '/'
        invariant
            k <= n == v@.len(),
            v@ == path@,
            last_index_of(path@, '/') == last_index_of(v@.take(k as int), '/'),
        decreases k,
    {
        assert(v@.take(k as int).drop_last() =~= v@.take(k - 1));
        k = k - 1;
    }
    if k == 0 {
        assert(v@.take(0) =~= Seq::<char>::empty());
        return ("/", path);
    }
    let pos = k - 1;
    if pos == 0 {
        let tail = path.substring_char(1, n);
        return ("/", tail);
    }
    (path.substring_char(0, pos), path.substring_char(pos + 1, n))
}

/// What one character of a user pattern becomes in a SQL LIKE pattern:
/// `%` and `_` are escaped, and where `wild` holds `*` and `?` become `%`
/// and `_`.
pub open spec fn like_piece(c: char, wild: bool) -> Seq<char> {
    if c == '%' {
        seq!['\\', '%']
    } else if c == '_' {
        seq!['\\', '_']
    } else if wild && c == '*' {
        seq!['%']
    } else if wild && c == '?' {
        seq!['_']
    } else {
        seq![c]
    }
}

pub open spec fn like_body(s: Seq<char>, wild: bool) -> Seq<char>
    decreases s.len(),
{
    if s.len() == 0 {
        Seq::empty()
    } else {
        like_body(s.drop_last(), wild) + like_piece(s.last(), wild)
    }
}

pub open spec fn has_wildcard(s: Seq<char>) -> bool {
    exists|i: int| 0 <= i < s.len() && (s[i] == '*' || s[i] == '?')
}

/// The LIKE pattern of a user pattern: with wildcards, the pattern
/// rewritten; without, a match of the escaped text anywhere.
pub open spec fn like_pattern(s: Seq<char>) -> Seq<char> {
    if has_wildcard(s) {
        like_body(s, true)
    } else {
        seq!['%'] + like_body(s, false) + seq!['%']
    }
}

fn has_wildcard_chars(v: &Vec<char>) -> (r: bool)
    ensures
        r == has_wildcard(v@),
{
    let mut i: usize = 0;
    while i < v.len()
        invariant
            i <= v@.len(),
            forall|k: int| 0 <= k < i ==> !(v@[k] == '*' || v@[k] == '?'),
        decreases v@.len() - i,
    {
        if v[i] == '*' || v[i] == '?' {
            return true;
        }
        i = i + 1;
    }
    false
}

fn append_like_body(out: &mut String, pattern: &str, v: &Vec<char>, wild: bool)
    requires
        v@ == pattern@,
    ensures
        final(out)@ == old(out)@ + like_body(pattern@, wild),
{
    let ghost start = out@;
    let mut i: usize = 0;
    assert(v@.take(0) =~= Seq::<char>::empty());
    assert(start + like_body(v@.take(0), wild) =~= start);
    while i < v.len()
        invariant
            i <= v@.len(),
            v@ == pattern@,
            out@ == start + like_body(v@.take(i as int), wild),
        decreases v@.len() - i,
    {
        proof {
            reveal_strlit("\\%");
            reveal_strlit("\\_");
            reveal_strlit("%");
            reveal_strlit("_");
            assert("\\%"@ =~= seq!['\\', '%']);
            assert("\\_"@ =~= seq!['\\', '_']);
            assert("%"@ =~= seq!['%']);
            assert("_"@ =~= seq!['_']);
        }
        let c = v[i];
        assert(v@.take(i + 1).drop_last() =~= v@.take(i as int));
        let ghost before = out@;
        if c == '%' {
            out.append("\\%");
        } else if c == '_' {
            out.append("\\_");
        } else if wild && c == '*' {
            out.append("%");
        } else if wild && c == '?' {
            out.append("_");
        } else {
            let one = pattern.substring_char(i, i + 1);
            assert(one@ =~= seq![c]);
            out.append(one);
        }
        assert(out@ =~= before + like_piece(c, wild));
        i = i + 1;
        assert(out@ =~= start + like_body(v@.take(i as int), wild));
    }
    assert(v@.take(i as int) =~= v@);
}

/// Turns a user pattern into a SQL LIKE pattern.
pub fn wildcard_to_like(pattern: &str) -> (r: String)
    ensures
        r@ == like_pattern(pattern@),
{
    proof {
        reveal_strlit("%");
    }
    let v = char_vec(pattern);
    let mut out = String::new();
    if has_wildcard_chars(&v) {
        append_like_body(&mut out, pattern, &v, true);
    } else {
        out.append("%");
        append_like_body(&mut out, pattern, &v, false);
        out.append("%");
    }
    out
}

} // verus!
