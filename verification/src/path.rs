//! Path resolution: deriving a target file path from an edit block and
//! sanitizing it so that, joined to the working directory, it can never
//! escape it. A path that is absolute or carries a parent-directory
//! component is reduced to its bare file name; a path that cannot be
//! made safe (empty, or nothing but a parent component) is rejected.

use vstd::prelude::*;
use vstd::string::*;

use crate::text::{
    contains_char, has_prefix, seq_views, starts_with_str, str_content_eq, trim_matching,
    trim_matching_exec, trim_ws, trim_ws_exec,
};

verus! {

/// A path separator character.
pub open spec fn is_sep(c: char) -> bool {
    c == '/' || c == '\\'
}

/// The position right after the last separator of `p` (0 when `p` has
/// none).
pub open spec fn last_sep_end(p: Seq<char>) -> int
    decreases p.len(),
{
    if p.len() == 0 {
        0
    } else if is_sep(p[p.len() - 1]) {
        p.len() as int
    } else {
        last_sep_end(p.take(p.len() - 1))
    }
}

/// The bare file name of `p`: everything after its last separator.
pub open spec fn basename(p: Seq<char>) -> Seq<char> {
    p.skip(last_sep_end(p))
}

pub proof fn lemma_last_sep_end(p: Seq<char>)
    ensures
        0 <= last_sep_end(p) <= p.len(),
        forall|j: int| last_sep_end(p) <= j < p.len() ==> !is_sep(#[trigger] p[j]),
    decreases p.len(),
{
    if p.len() > 0 && !is_sep(p[p.len() - 1]) {
        lemma_last_sep_end(p.take(p.len() - 1));
        assert(forall|j: int|
            0 <= j < p.len() - 1 ==> p.take(p.len() - 1)[j] == #[trigger] p[j]);
    }
}

/// `p` holds `..` as a whole path component.
pub open spec fn has_dotdot(p: Seq<char>) -> bool {
    exists|i: int|
        0 <= i && i + 2 <= p.len() && #[trigger] p[i] == '.' && p[i + 1] == '.' && (i == 0
            || is_sep(p[i - 1])) && (i + 2 == p.len() || is_sep(p[i + 2]))
}

/// A path that must not be used as given: absolute (beginning with a
/// separator) or carrying a parent-directory component.
pub open spec fn path_suspicious(p: Seq<char>) -> bool {
    (p.len() > 0 && is_sep(p[0])) || has_dotdot(p)
}

/// The sanitized form of a candidate path: the path itself when it is
/// harmless, its bare file name otherwise.
pub open spec fn spec_sanitize(p: Seq<char>) -> Seq<char> {
    if path_suspicious(p) {
        basename(p)
    } else {
        p
    }
}

/// Whether sanitization yields a usable path: non-empty and not itself a
/// parent-directory component.
pub open spec fn spec_sanitize_ok(p: Seq<char>) -> bool {
    spec_sanitize(p).len() > 0 && spec_sanitize(p) != ".."@
}

/// A suspicious input path is neutralized: what sanitization accepts is
/// the bare file name — never empty, never absolute, free of separators
/// and of any parent-directory component.
pub proof fn lemma_sanitize_neutralizes(p: Seq<char>)
    requires
        path_suspicious(p),
        spec_sanitize_ok(p),
    ensures
        spec_sanitize(p) == basename(p),
        spec_sanitize(p).len() > 0,
        forall|i: int|
            0 <= i < spec_sanitize(p).len() ==> !is_sep(#[trigger] spec_sanitize(p)[i]),
        !has_dotdot(spec_sanitize(p)),
{
    lemma_last_sep_end(p);
    let r = spec_sanitize(p);
    assert(forall|i: int| 0 <= i < r.len() ==> !is_sep(#[trigger] r[i])) by {
        assert(forall|i: int|
            0 <= i < r.len() ==> r[i] == #[trigger] p[last_sep_end(p) + i]);
    }
    if has_dotdot(r) {
        let i = choose|i: int|
            0 <= i && i + 2 <= r.len() && #[trigger] r[i] == '.' && r[i + 1] == '.' && (i == 0
                || is_sep(r[i - 1])) && (i + 2 == r.len() || is_sep(r[i + 2]));
        assert(i == 0);
        assert(i + 2 == r.len());
        reveal_strlit("..");
        assert(r =~= ".."@);
        assert(false);
    }
}

/// Exec mirror of `last_sep_end`.
fn last_sep_end_exec(p: &str) -> (r: usize)
    ensures
        r as int == last_sep_end(p@),
        r <= p@.len(),
{
    let n = p.unicode_len();
    let mut j: usize = n;
    proof {
        assert(p@.take(n as int) =~= p@);
    }
    while j > 0
        invariant
            n == p@.len(),
            j <= n,
            last_sep_end(p@) == last_sep_end(p@.take(j as int)),
        decreases j,
    {
        let c = p.get_char(j - 1);
        if c == '/' || c == '\\' {
            proof {
                assert(p@.take(j as int)[j - 1] == p@[j - 1]);
            }
            return j;
        }
        proof {
            assert(p@.take(j as int).take(j - 1) =~= p@.take(j - 1));
        }
        j -= 1;
    }
    proof {
        assert(p@.take(0) =~= Seq::<char>::empty());
    }
    0
}

/// Exec mirror of `has_dotdot`.
fn has_dotdot_exec(p: &str) -> (r: bool)
    ensures
        r == has_dotdot(p@),
{
    let n = p.unicode_len();
    if n < 2 {
        return false;
    }
    let mut i: usize = 0;
    while i <= n - 2
        invariant
            n == p@.len(),
            2 <= n,
            i <= n - 1,
            forall|t: int|
                0 <= t < i ==> !(t + 2 <= p@.len() && #[trigger] p@[t] == '.' && p@[t + 1] == '.'
                    && (t == 0 || is_sep(p@[t - 1])) && (t + 2 == p@.len() || is_sep(p@[t + 2]))),
        decreases n - i,
    {
        if p.get_char(i) == '.' && p.get_char(i + 1) == '.' {
            let left_ok = if i == 0 {
                true
            } else {
                let c = p.get_char(i - 1);
                c == '/' || c == '\\'
            };
            let right_ok = if i + 2 == n {
                true
            } else {
                let c = p.get_char(i + 2);
                c == '/' || c == '\\'
            };
            if left_ok && right_ok {
                return true;
            }
        }
        i += 1;
    }
    false
}

/// Sanitize a candidate path: keep a harmless path as it is; reduce an
/// absolute path, or one with a parent-directory component, to its bare
/// file name. `None` when no usable path remains.
pub fn sanitize_path(p: &str) -> (r: Option<String>)
    ensures
        match r {
            Some(s) => spec_sanitize_ok(p@) && s@ == spec_sanitize(p@),
            None => !spec_sanitize_ok(p@),
        },
{
    let n = p.unicode_len();
    let first_sep = if n == 0 {
        false
    } else {
        let c = p.get_char(0);
        c == '/' || c == '\\'
    };
    let suspicious = first_sep || has_dotdot_exec(p);
    let cand: String;
    if suspicious {
        let e = last_sep_end_exec(p);
        cand = p.substring_char(e, n).to_owned();
        proof {
            assert(cand@ =~= p@.skip(last_sep_end(p@)));
        }
    } else {
        cand = p.to_owned();
    }
    let cn = cand.as_str().unicode_len();
    if cn == 0 {
        return None;
    }
    if cn == 2 && cand.as_str().get_char(0) == '.' && cand.as_str().get_char(1) == '.' {
        proof {
            reveal_strlit("..");
            assert(cand@ =~= ".."@);
        }
        return None;
    }
    proof {
        reveal_strlit("..");
        if cand@ == ".."@ {
            assert(cand@.len() == 2 && cand@[0] == '.' && cand@[1] == '.');
        }
    }
    Some(cand)
}

/// The bare file name of a path.
pub fn basename_of(p: &str) -> (r: String)
    ensures
        r@ == basename(p@),
{
    let n = p.unicode_len();
    let e = last_sep_end_exec(p);
    p.substring_char(e, n).to_owned()
}

/// The old-file side of a unified diff names the new-file sentinel.
pub open spec fn is_devnull_minus(l: Seq<char>) -> bool {
    l == "--- /dev/null"@
}

/// Some line of the block is the `--- /dev/null` sentinel.
pub open spec fn spec_has_devnull(ls: Seq<Seq<char>>) -> bool {
    exists|i: int| 0 <= i < ls.len() && is_devnull_minus(#[trigger] ls[i])
}

/// Whether some line of the block is the `--- /dev/null` sentinel.
pub fn block_has_devnull(lines: &Vec<String>) -> (r: bool)
    ensures
        r == spec_has_devnull(seq_views(lines@)),
{
    let n = lines.len();
    let mut i: usize = 0;
    while i < n
        invariant
            n == lines@.len(),
            i <= n,
            forall|t: int| 0 <= t < i ==> !is_devnull_minus(#[trigger] seq_views(lines@)[t]),
        decreases n - i,
    {
        if str_content_eq(lines[i].as_str(), "--- /dev/null") {
            proof {
                assert(seq_views(lines@)[i as int] == lines@[i as int]@);
                assert(is_devnull_minus(seq_views(lines@)[i as int]));
            }
            return true;
        }
        i += 1;
    }
    false
}

/// A `+++ ` header value made clean: whitespace trimmed, surrounding
/// double and single quotes dropped, and the remainder trimmed again.
pub open spec fn clean_header_value(v: Seq<char>) -> Seq<char> {
    trim_ws(trim_matching(trim_matching(trim_ws(v), '"'), '\''))
}

/// The first line carrying a `+++ ` header whose cleaned value is not
/// the sentinel, or -1.
pub open spec fn first_plus_path(ls: Seq<Seq<char>>, i: int) -> int
    decreases ls.len() - i,
{
    if i < 0 || i >= ls.len() {
        -1
    } else if has_prefix(ls[i], "+++ "@) && clean_header_value(ls[i].skip(4)) != "/dev/null"@ {
        i
    } else {
        first_plus_path(ls, i + 1)
    }
}

/// Exec mirror of `clean_header_value`.
fn clean_header_value_exec(v: &str) -> (r: String)
    ensures
        r@ == clean_header_value(v@),
{
    let t1 = trim_ws_exec(v);
    let t2 = trim_matching_exec(t1.as_str(), '"');
    let t3 = trim_matching_exec(t2.as_str(), '\'');
    trim_ws_exec(t3.as_str())
}

/// A `+++ ` header value with a leading `a/`, `b/` or `./` prefix
/// stripped.
pub open spec fn strip_vcs_prefix(p: Seq<char>) -> Seq<char> {
    let p1 = if has_prefix(p, "a/"@) {
        p.skip(2)
    } else {
        p
    };
    let p2 = if has_prefix(p1, "b/"@) {
        p1.skip(2)
    } else {
        p1
    };
    if has_prefix(p2, "./"@) {
        p2.skip(2)
    } else {
        p2
    }
}

/// A block's first line with its edit and comment markers stripped: one
/// leading `+` or `-`, a `// `, `/* ` or `* ` comment opener, and one
/// leading separator.
pub open spec fn strip_markers(l: Seq<char>) -> Seq<char> {
    let s1 = if l.len() > 0 && (l[0] == '+' || l[0] == '-') {
        l.skip(1)
    } else {
        l
    };
    let s2 = if has_prefix(s1, "// "@) {
        s1.skip(3)
    } else if has_prefix(s1, "/* "@) {
        s1.skip(3)
    } else if has_prefix(s1, "* "@) {
        s1.skip(2)
    } else {
        s1
    };
    if s2.len() > 0 && is_sep(s2[0]) {
        s2.skip(1)
    } else {
        s2
    }
}

/// A stripped first line usable as a path: non-empty, without spaces,
/// and not a hunk header.
pub open spec fn plausible_first(p: Seq<char>) -> bool {
    p.len() > 0 && !p.contains(' ') && p[0] != '@'
}

/// A line that looks like a bare file path: it carries a dot or a
/// slash, holds no space, and is no edit or header line.
pub open spec fn pathlike_hint(l: Seq<char>) -> bool {
    &&& l.len() > 0
    &&& (l.contains('.') || l.contains('/'))
    &&& l[0] != '+'
    &&& l[0] != '-'
    &&& l[0] != '@'
    &&& !l.contains(' ')
}

/// The first path-like line among the first five, or -1.
pub open spec fn first_hint(ls: Seq<Seq<char>>, i: int) -> int
    decreases ls.len() - i,
{
    if i < 0 || i >= ls.len() || i >= 5 {
        -1
    } else if pathlike_hint(ls[i]) {
        i
    } else {
        first_hint(ls, i + 1)
    }
}

/// The raw target path of a block, before sanitization: the first
/// usable `+++ ` header value, cleaned of whitespace and quotes; failing
/// that, the first line stripped of its markers; failing that, a
/// path-like line among the first five.
pub open spec fn spec_raw_path(ls: Seq<Seq<char>>) -> Option<Seq<char>> {
    if first_plus_path(ls, 0) >= 0 {
        Some(strip_vcs_prefix(clean_header_value(ls[first_plus_path(ls, 0)].skip(4))))
    } else if ls.len() > 0 && plausible_first(strip_markers(ls[0])) {
        Some(strip_markers(ls[0]))
    } else if first_hint(ls, 0) >= 0 {
        Some(ls[first_hint(ls, 0)])
    } else {
        None
    }
}

/// The sanitized target path of a block, when one can be derived.
pub open spec fn spec_resolve_path(ls: Seq<Seq<char>>) -> Option<Seq<char>> {
    match spec_raw_path(ls) {
        Some(p) => if spec_sanitize_ok(p) {
            Some(spec_sanitize(p))
        } else {
            None
        },
        None => None,
    }
}

/// Exec mirror of `strip_vcs_prefix`.
fn strip_vcs_prefix_exec(p: &str) -> (r: String)
    ensures
        r@ == strip_vcs_prefix(p@),
{
    let n0 = p.unicode_len();
    let s1 = if starts_with_str(p, "a/") {
        proof {
            reveal_strlit("a/");
        }
        p.substring_char(2, n0)
    } else {
        p
    };
    proof {
        assert(s1@ =~= if has_prefix(p@, "a/"@) {
            p@.skip(2)
        } else {
            p@
        });
    }
    let n1 = s1.unicode_len();
    let s2 = if starts_with_str(s1, "b/") {
        proof {
            reveal_strlit("b/");
        }
        s1.substring_char(2, n1)
    } else {
        s1
    };
    proof {
        assert(s2@ =~= if has_prefix(s1@, "b/"@) {
            s1@.skip(2)
        } else {
            s1@
        });
    }
    let n2 = s2.unicode_len();
    let s3 = if starts_with_str(s2, "./") {
        proof {
            reveal_strlit("./");
        }
        s2.substring_char(2, n2)
    } else {
        s2
    };
    proof {
        assert(s3@ =~= if has_prefix(s2@, "./"@) {
            s2@.skip(2)
        } else {
            s2@
        });
    }
    s3.to_owned()
}

/// Exec mirror of `strip_markers`.
fn strip_markers_exec(l: &str) -> (r: String)
    ensures
        r@ == strip_markers(l@),
{
    let n0 = l.unicode_len();
    let s1 = if n0 > 0 && (l.get_char(0) == '+' || l.get_char(0) == '-') {
        l.substring_char(1, n0)
    } else {
        l
    };
    proof {
        assert(s1@ =~= if l@.len() > 0 && (l@[0] == '+' || l@[0] == '-') {
            l@.skip(1)
        } else {
            l@
        });
    }
    let n1 = s1.unicode_len();
    let s2 = if starts_with_str(s1, "// ") {
        proof {
            reveal_strlit("// ");
        }
        s1.substring_char(3, n1)
    } else if starts_with_str(s1, "/* ") {
        proof {
            reveal_strlit("/* ");
        }
        s1.substring_char(3, n1)
    } else if starts_with_str(s1, "* ") {
        proof {
            reveal_strlit("* ");
        }
        s1.substring_char(2, n1)
    } else {
        s1
    };
    proof {
        assert(s2@ =~= if has_prefix(s1@, "// "@) {
            s1@.skip(3)
        } else if has_prefix(s1@, "/* "@) {
            s1@.skip(3)
        } else if has_prefix(s1@, "* "@) {
            s1@.skip(2)
        } else {
            s1@
        });
    }
    let n2 = s2.unicode_len();
    let s3 = if n2 > 0 {
        let c = s2.get_char(0);
        if c == '/' || c == '\\' {
            s2.substring_char(1, n2)
        } else {
            s2
        }
    } else {
        s2
    };
    proof {
        assert(s3@ =~= if s2@.len() > 0 && is_sep(s2@[0]) {
            s2@.skip(1)
        } else {
            s2@
        });
    }
    s3.to_owned()
}

/// Whether the line is usable as a bare path hint.
fn pathlike_hint_exec(l: &str) -> (r: bool)
    ensures
        r == pathlike_hint(l@),
{
    let n = l.unicode_len();
    if n == 0 {
        return false;
    }
    let c = l.get_char(0);
    if c == '+' || c == '-' || c == '@' {
        return false;
    }
    if !(contains_char(l, '.') || contains_char(l, '/')) {
        return false;
    }
    !contains_char(l, ' ')
}

/// The raw target path of a block, before sanitization.
fn derive_raw_path(lines: &Vec<String>) -> (r: Option<String>)
    ensures
        match r {
            Some(s) => spec_raw_path(seq_views(lines@)) == Some(s@),
            None => spec_raw_path(seq_views(lines@)) is None,
        },
{
    let ghost lsv = seq_views(lines@);
    let n = lines.len();
    // first: a usable +++ header
    let mut i: usize = 0;
    while i < n
        invariant
            n == lines@.len(),
            lsv == seq_views(lines@),
            i <= n,
            first_plus_path(lsv, 0) == first_plus_path(lsv, i as int),
        decreases n - i,
    {
        let l = lines[i].as_str();
        if starts_with_str(l, "+++ ") {
            proof {
                reveal_strlit("+++ ");
            }
            let ln = l.unicode_len();
            let value = l.substring_char(4, ln);
            proof {
                assert(value@ =~= lsv[i as int].skip(4));
            }
            let cleaned = clean_header_value_exec(value);
            if !str_content_eq(cleaned.as_str(), "/dev/null") {
                return Some(strip_vcs_prefix_exec(cleaned.as_str()));
            }
        }
        i += 1;
    }
    proof {
        assert(first_plus_path(lsv, n as int) == -1);
    }
    // second: the first line, stripped of its markers
    if n > 0 {
        let stripped = strip_markers_exec(lines[0].as_str());
        let sn = stripped.as_str().unicode_len();
        if sn > 0 && !contains_char(stripped.as_str(), ' ') && stripped.as_str().get_char(0)
            != '@' {
            return Some(stripped);
        }
    }
    // third: a path-like line among the first five
    let lim = if n < 5 {
        n
    } else {
        5
    };
    let mut j: usize = 0;
    while j < lim
        invariant
            n == lines@.len(),
            lsv == seq_views(lines@),
            lim == if n < 5 {
                n as int
            } else {
                5
            },
            j <= lim,
            first_hint(lsv, 0) == first_hint(lsv, j as int),
            first_plus_path(lsv, 0) == -1,
            !(lsv.len() > 0 && plausible_first(strip_markers(lsv[0]))),
        decreases lim - j,
    {
        if pathlike_hint_exec(lines[j].as_str()) {
            proof {
                assert(seq_views(lines@)[j as int] == lines@[j as int]@);
                assert(first_hint(lsv, j as int) == j as int);
            }
            return Some(lines[j].clone());
        }
        j += 1;
    }
    proof {
        assert(first_hint(lsv, lim as int) == -1);
    }
    None
}

/// Derive and sanitize the target path of a block: `None` when the
/// block yields no usable path.
pub fn resolve_target_path(lines: &Vec<String>) -> (r: Option<String>)
    ensures
        match r {
            Some(s) => spec_resolve_path(seq_views(lines@)) == Some(s@),
            None => spec_resolve_path(seq_views(lines@)) is None,
        },
{
    match derive_raw_path(lines) {
        Some(p) => sanitize_path(p.as_str()),
        None => None,
    }
}

} // verus!
