//! The edit classifier: an ordered list of named predicates, evaluated
//! first-match-wins, that decide whether a candidate block is a genuine
//! file edit or incidental code or prose.

use vstd::prelude::*;
use vstd::string::*;

use crate::hunks::{is_hunk_header, parse_hunk_header};
use crate::text::{contains_char, first_char_is, has_prefix, seq_views, starts_with_str};

verus! {

/// An edit line: starts with `+` or `-` and is not a `+++ `/`--- `
/// file header.
pub open spec fn is_pm_content_line(l: Seq<char>) -> bool {
    l.len() > 0 && (l[0] == '+' || l[0] == '-') && !has_prefix(l, "+++ "@) && !has_prefix(
        l,
        "--- "@,
    )
}

/// Rule: the block came from a fence explicitly tagged as a diff, and
/// at least one of its lines, file headers aside, is an edit line.
pub open spec fn spec_rule_diff_tagged(ls: Seq<Seq<char>>, diff_tagged: bool) -> bool {
    diff_tagged && exists|i: int| 0 <= i < ls.len() && is_pm_content_line(#[trigger] ls[i])
}

/// Rule: the block carries unified-diff structure — a `--- ` or `+++ `
/// file header, or a hunk header.
pub open spec fn spec_rule_unified(ls: Seq<Seq<char>>) -> bool {
    exists|i: int|
        0 <= i < ls.len() && (has_prefix(#[trigger] ls[i], "--- "@) || has_prefix(ls[i], "+++ "@)
            || is_hunk_header(ls[i]))
}

/// `s` is a final segment of `l`.
pub open spec fn has_suffix(l: Seq<char>, s: Seq<char>) -> bool {
    s.len() <= l.len() && l.subrange(l.len() - s.len(), l.len() as int) == s
}

/// Whether `l` ends with `s`, character for character.
pub fn ends_with_str(l: &str, s: &str) -> (r: bool)
    ensures
        r == has_suffix(l@, s@),
{
    let sl = s.unicode_len();
    let ll = l.unicode_len();
    if sl > ll {
        return false;
    }
    let base = ll - sl;
    let mut i: usize = 0;
    while i < sl
        invariant
            sl == s@.len(),
            ll == l@.len(),
            sl <= ll,
            base == ll - sl,
            i <= sl,
            forall|j: int| 0 <= j < i ==> l@[base + j] == s@[j],
        decreases sl - i,
    {
        if l.get_char(base + i) != s.get_char(i) {
            proof {
                assert(l@.subrange(l@.len() - s@.len(), l@.len() as int)[i as int] == l@[base + i]);
            }
            return false;
        }
        i += 1;
    }
    proof {
        assert(l@.subrange(l@.len() - s@.len(), l@.len() as int) =~= s@);
    }
    true
}

/// The line ends with a recognized source-file extension.
pub open spec fn spec_has_source_ext(l: Seq<char>) -> bool {
    ||| has_suffix(l, ".rs"@)
    ||| has_suffix(l, ".py"@)
    ||| has_suffix(l, ".js"@)
    ||| has_suffix(l, ".ts"@)
    ||| has_suffix(l, ".jsx"@)
    ||| has_suffix(l, ".tsx"@)
    ||| has_suffix(l, ".java"@)
    ||| has_suffix(l, ".c"@)
    ||| has_suffix(l, ".h"@)
    ||| has_suffix(l, ".cpp"@)
    ||| has_suffix(l, ".hpp"@)
    ||| has_suffix(l, ".cc"@)
    ||| has_suffix(l, ".go"@)
    ||| has_suffix(l, ".rb"@)
    ||| has_suffix(l, ".php"@)
    ||| has_suffix(l, ".cs"@)
    ||| has_suffix(l, ".swift"@)
    ||| has_suffix(l, ".kt"@)
    ||| has_suffix(l, ".sh"@)
    ||| has_suffix(l, ".html"@)
    ||| has_suffix(l, ".css"@)
    ||| has_suffix(l, ".json"@)
    ||| has_suffix(l, ".yaml"@)
    ||| has_suffix(l, ".yml"@)
    ||| has_suffix(l, ".toml"@)
    ||| has_suffix(l, ".xml"@)
    ||| has_suffix(l, ".md"@)
    ||| has_suffix(l, ".txt"@)
    ||| has_suffix(l, ".sql"@)
}

/// Exec mirror of `spec_has_source_ext`.
pub fn has_source_extension(l: &str) -> (r: bool)
    ensures
        r == spec_has_source_ext(l@),
{
    ends_with_str(l, ".rs") || ends_with_str(l, ".py") || ends_with_str(l, ".js")
        || ends_with_str(l, ".ts") || ends_with_str(l, ".jsx") || ends_with_str(l, ".tsx")
        || ends_with_str(l, ".java") || ends_with_str(l, ".c") || ends_with_str(l, ".h")
        || ends_with_str(l, ".cpp") || ends_with_str(l, ".hpp") || ends_with_str(l, ".cc")
        || ends_with_str(l, ".go") || ends_with_str(l, ".rb") || ends_with_str(l, ".php")
        || ends_with_str(l, ".cs") || ends_with_str(l, ".swift") || ends_with_str(l, ".kt")
        || ends_with_str(l, ".sh") || ends_with_str(l, ".html") || ends_with_str(l, ".css")
        || ends_with_str(l, ".json") || ends_with_str(l, ".yaml") || ends_with_str(l, ".yml")
        || ends_with_str(l, ".toml") || ends_with_str(l, ".xml") || ends_with_str(l, ".md")
        || ends_with_str(l, ".txt") || ends_with_str(l, ".sql")
}

/// The first non-empty line, or -1.
pub open spec fn first_nonempty(ls: Seq<Seq<char>>, i: int) -> int
    decreases ls.len() - i,
{
    if i < 0 || i >= ls.len() {
        -1
    } else if ls[i].len() > 0 {
        i
    } else {
        first_nonempty(ls, i + 1)
    }
}

/// The line looks like a file path: a recognized source extension, or a
/// path separator somewhere.
pub open spec fn spec_pathlike_line(l: Seq<char>) -> bool {
    spec_has_source_ext(l) || l.contains('/') || l.contains('\\')
}

/// How many lines start with the character `c`.
pub open spec fn count_starting_with(ls: Seq<Seq<char>>, c: char) -> int
    decreases ls.len(),
{
    if ls.len() == 0 {
        0
    } else {
        (if ls[0].len() > 0 && ls[0][0] == c {
            1int
        } else {
            0int
        }) + count_starting_with(ls.skip(1), c)
    }
}

/// Rule: the first non-empty line looks like a file path, and the block
/// carries at least one `+` or `-` line.
pub open spec fn spec_rule_pathlike(ls: Seq<Seq<char>>) -> bool {
    &&& first_nonempty(ls, 0) >= 0
    &&& spec_pathlike_line(ls[first_nonempty(ls, 0)])
    &&& count_starting_with(ls, '+') + count_starting_with(ls, '-') >= 1
}

/// Rule: the line counts alone make an edit likely — two or more `+`
/// lines, two or more `-` lines, or at least one of each.
pub open spec fn spec_rule_line_counts(ls: Seq<Seq<char>>) -> bool {
    ||| count_starting_with(ls, '+') >= 2
    ||| count_starting_with(ls, '-') >= 2
    ||| (count_starting_with(ls, '+') >= 1 && count_starting_with(ls, '-') >= 1)
}

/// The line carries a code-structure token: a brace, a semicolon or an
/// equals sign.
pub open spec fn spec_code_token_line(l: Seq<char>) -> bool {
    l.contains('{') || l.contains('}') || l.contains(';') || l.contains('=')
}

/// How many lines carry a code-structure token.
pub open spec fn count_code_lines(ls: Seq<Seq<char>>) -> int
    decreases ls.len(),
{
    if ls.len() == 0 {
        0
    } else {
        (if spec_code_token_line(ls[0]) {
            1int
        } else {
            0int
        }) + count_code_lines(ls.skip(1))
    }
}

/// Rule: the block looks like pasted code — more than three lines, with
/// code-structure tokens on more than a quarter of them; such a block is
/// kept as an implicit full-file replacement candidate.
pub open spec fn spec_rule_code_block(ls: Seq<Seq<char>>) -> bool {
    ls.len() > 3 && 4 * count_code_lines(ls) > ls.len()
}

/// A candidate block is an edit: the classification rules in priority
/// order, first match deciding.
pub open spec fn spec_is_edit(ls: Seq<Seq<char>>, diff_tagged: bool) -> bool {
    ||| spec_rule_diff_tagged(ls, diff_tagged)
    ||| spec_rule_unified(ls)
    ||| spec_rule_pathlike(ls)
    ||| spec_rule_line_counts(ls)
    ||| spec_rule_code_block(ls)
}

/// Rule 1 of the classifier, on a block's lines.
pub fn rule_diff_tagged(lines: &Vec<String>, diff_tagged: bool) -> (r: bool)
    ensures
        r == spec_rule_diff_tagged(seq_views(lines@), diff_tagged),
{
    if !diff_tagged {
        return false;
    }
    let n = lines.len();
    let mut i: usize = 0;
    while i < n
        invariant
            diff_tagged,
            n == lines@.len(),
            i <= n,
            forall|t: int| 0 <= t < i ==> !is_pm_content_line(#[trigger] seq_views(lines@)[t]),
        decreases n - i,
    {
        let l = lines[i].as_str();
        let ln = l.unicode_len();
        if ln > 0 {
            let c = l.get_char(0);
            if (c == '+' || c == '-') && !starts_with_str(l, "+++ ") && !starts_with_str(
                l,
                "--- ",
            ) {
                proof {
                    assert(seq_views(lines@)[i as int] == lines@[i as int]@);
                    assert(is_pm_content_line(seq_views(lines@)[i as int]));
                }
                return true;
            }
        }
        i += 1;
    }
    false
}

/// Rule 2 of the classifier, on a block's lines.
pub fn rule_unified(lines: &Vec<String>) -> (r: bool)
    ensures
        r == spec_rule_unified(seq_views(lines@)),
{
    let n = lines.len();
    let mut i: usize = 0;
    while i < n
        invariant
            n == lines@.len(),
            i <= n,
            forall|t: int|
                0 <= t < i ==> !(has_prefix(#[trigger] seq_views(lines@)[t], "--- "@) || has_prefix(
                    seq_views(lines@)[t],
                    "+++ "@,
                ) || is_hunk_header(seq_views(lines@)[t])),
        decreases n - i,
    {
        let l = lines[i].as_str();
        if starts_with_str(l, "--- ") || starts_with_str(l, "+++ ") {
            proof {
                assert(seq_views(lines@)[i as int] == lines@[i as int]@);
            }
            return true;
        }
        if parse_hunk_header(l).is_some() {
            proof {
                assert(is_hunk_header(seq_views(lines@)[i as int]));
            }
            return true;
        }
        i += 1;
    }
    false
}

/// How many lines start with `c`.
fn count_starting_exec(lines: &Vec<String>, c: char) -> (r: usize)
    ensures
        r as int == count_starting_with(seq_views(lines@), c),
{
    let ghost lsv = seq_views(lines@);
    let n = lines.len();
    let mut acc: usize = 0;
    let mut i: usize = 0;
    proof {
        assert(lsv.skip(0) =~= lsv);
    }
    while i < n
        invariant
            n == lines@.len(),
            lsv == seq_views(lines@),
            i <= n,
            acc <= i,
            count_starting_with(lsv, c) == acc + count_starting_with(lsv.skip(i as int), c),
        decreases n - i,
    {
        let l = lines[i].as_str();
        proof {
            assert(lsv.skip(i as int)[0] == lsv[i as int]);
            assert(lsv.skip(i as int).skip(1) =~= lsv.skip(i + 1));
        }
        if first_char_is(l, c) {
            acc += 1;
        }
        i += 1;
    }
    proof {
        assert(count_starting_with(lsv.skip(n as int), c) == 0);
    }
    acc
}

/// Rule 3 of the classifier, on a block's lines.
pub fn rule_pathlike(lines: &Vec<String>) -> (r: bool)
    ensures
        r == spec_rule_pathlike(seq_views(lines@)),
{
    let ghost lsv = seq_views(lines@);
    match first_nonempty_exec(lines) {
        None => false,
        Some(f) => {
            let l = lines[f].as_str();
            proof {
                assert(lsv[f as int] == lines@[f as int]@);
            }
            let pathlike = has_source_extension(l) || contains_char(l, '/') || contains_char(
                l,
                '\\',
            );
            if !pathlike {
                return false;
            }
            let plus = count_starting_exec(lines, '+');
            let minus = count_starting_exec(lines, '-');
            plus >= 1 || minus >= 1
        },
    }
}

/// The first non-empty line of the block.
fn first_nonempty_exec(lines: &Vec<String>) -> (r: Option<usize>)
    ensures
        match r {
            Some(f) => f as int == first_nonempty(seq_views(lines@), 0) && f < lines@.len(),
            None => first_nonempty(seq_views(lines@), 0) == -1,
        },
{
    let ghost lsv = seq_views(lines@);
    let n = lines.len();
    let mut i: usize = 0;
    while i < n
        invariant
            n == lines@.len(),
            lsv == seq_views(lines@),
            i <= n,
            first_nonempty(lsv, 0) == first_nonempty(lsv, i as int),
        decreases n - i,
    {
        if lines[i].as_str().unicode_len() > 0 {
            return Some(i);
        }
        i += 1;
    }
    proof {
        assert(first_nonempty(lsv, n as int) == -1);
    }
    None
}

/// Rule 4 of the classifier, on a block's lines.
pub fn rule_line_counts(lines: &Vec<String>) -> (r: bool)
    ensures
        r == spec_rule_line_counts(seq_views(lines@)),
{
    let plus = count_starting_exec(lines, '+');
    let minus = count_starting_exec(lines, '-');
    plus >= 2 || minus >= 2 || (plus >= 1 && minus >= 1)
}

/// How many lines carry a code-structure token.
fn count_code_exec(lines: &Vec<String>) -> (r: usize)
    ensures
        r as int == count_code_lines(seq_views(lines@)),
{
    let ghost lsv = seq_views(lines@);
    let n = lines.len();
    let mut acc: usize = 0;
    let mut i: usize = 0;
    proof {
        assert(lsv.skip(0) =~= lsv);
    }
    while i < n
        invariant
            n == lines@.len(),
            lsv == seq_views(lines@),
            i <= n,
            acc <= i,
            count_code_lines(lsv) == acc + count_code_lines(lsv.skip(i as int)),
        decreases n - i,
    {
        let l = lines[i].as_str();
        proof {
            assert(lsv.skip(i as int)[0] == lsv[i as int]);
            assert(lsv.skip(i as int).skip(1) =~= lsv.skip(i + 1));
        }
        if contains_char(l, '{') || contains_char(l, '}') || contains_char(l, ';')
            || contains_char(l, '=') {
            acc += 1;
        }
        i += 1;
    }
    proof {
        assert(count_code_lines(lsv.skip(n as int)) == 0);
    }
    acc
}

/// Rule 5 of the classifier, on a block's lines.
pub fn rule_code_block(lines: &Vec<String>) -> (r: bool)
    ensures
        r == spec_rule_code_block(seq_views(lines@)),
{
    let n = lines.len();
    if n <= 3 {
        return false;
    }
    let code = count_code_exec(lines);
    // compare through division so the product cannot overflow
    let r = code > n / 4;
    proof {
        assert(r == (4 * count_code_lines(seq_views(lines@)) > seq_views(lines@).len()))
            by (nonlinear_arith)
            requires
                r == (code > n / 4),
                code as int == count_code_lines(seq_views(lines@)),
                n as int == seq_views(lines@).len(),
        ;
    }
    r
}

/// Classify a candidate block's lines: the five rules in priority
/// order, first match deciding; a block matching none is no edit.
pub fn classify_lines(lines: &Vec<String>, diff_tagged: bool) -> (r: bool)
    ensures
        r == spec_is_edit(seq_views(lines@), diff_tagged),
{
    if rule_diff_tagged(lines, diff_tagged) {
        return true;
    }
    if rule_unified(lines) {
        return true;
    }
    if rule_pathlike(lines) {
        return true;
    }
    if rule_line_counts(lines) {
        return true;
    }
    rule_code_block(lines)
}

} // verus!
