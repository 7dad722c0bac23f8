//! The block extractor: scanning a response for candidate edit regions.
//! Fenced regions — lines between a ``` delimiter line and the next —
//! come first; when the text has no complete fence at all, maximal runs
//! of `+`/`-` lines (blank lines tolerated inside a run) are taken as
//! candidates instead, each prefixed with the nearest preceding line
//! that looks like a bare file name, so the path resolver has a hint.

use vstd::prelude::*;
use vstd::string::*;

use crate::text::{
    contains_char, copy_range, first_char_is, has_prefix, line_seq, seq_views, split_lines,
    starts_with_str,
};

verus! {

/// A candidate edit region: its lines, and whether its fence was
/// explicitly tagged as a diff.
pub struct CandidateBlock {
    pub lines: Vec<String>,
    pub diff_tagged: bool,
}

/// The mathematical model of a candidate block.
pub ghost struct GBlock {
    pub lines: Seq<Seq<char>>,
    pub diff_tagged: bool,
}

impl View for CandidateBlock {
    type V = GBlock;

    open spec fn view(&self) -> GBlock {
        GBlock { lines: seq_views(self.lines@), diff_tagged: self.diff_tagged }
    }
}

pub open spec fn block_views(s: Seq<CandidateBlock>) -> Seq<GBlock> {
    Seq::new(s.len(), |i: int| s[i]@)
}

pub proof fn lemma_block_views_push(s: Seq<CandidateBlock>, x: CandidateBlock)
    ensures
        block_views(s.push(x)) =~= block_views(s) + seq![x@],
{
}

/// A fence delimiter line: three backticks, optionally followed by a
/// language tag.
pub open spec fn is_fence(l: Seq<char>) -> bool {
    has_prefix(l, "```"@)
}

/// The fence's language tag marks the block as a diff.
pub open spec fn fence_diff_tagged(l: Seq<char>) -> bool {
    has_prefix(l.skip(3), "diff"@)
}

/// The first fence line at or after `i`, or the line count when none.
pub open spec fn next_fence(ls: Seq<Seq<char>>, i: int) -> int
    decreases ls.len() - i,
{
    if i < 0 || i >= ls.len() {
        ls.len() as int
    } else if is_fence(ls[i]) {
        i
    } else {
        next_fence(ls, i + 1)
    }
}

/// The fenced candidate blocks, scanning from line `i`: each complete
/// fence yields the lines strictly between its delimiters; a fence with
/// no closing delimiter yields nothing.
pub open spec fn spec_fenced_blocks(ls: Seq<Seq<char>>, i: int) -> Seq<GBlock>
    decreases ls.len() - i,
{
    if i < 0 || i >= ls.len() {
        Seq::empty()
    } else if is_fence(ls[i]) {
        let j0 = next_fence(ls, i + 1);
        let j = if j0 < i + 1 {
            i + 1
        } else if j0 > ls.len() {
            ls.len() as int
        } else {
            j0
        };
        if j >= ls.len() {
            Seq::empty()
        } else {
            seq![
                GBlock { lines: ls.subrange(i + 1, j), diff_tagged: fence_diff_tagged(ls[i]) },
            ] + spec_fenced_blocks(ls, j + 1)
        }
    } else {
        spec_fenced_blocks(ls, i + 1)
    }
}

/// A `+` or `-` line.
pub open spec fn is_pm_line(l: Seq<char>) -> bool {
    l.len() > 0 && (l[0] == '+' || l[0] == '-')
}

/// How far a run of `+`/`-` lines extends from `i`: the first line that
/// is neither a `+`/`-` line nor blank.
pub open spec fn pm_extent(ls: Seq<Seq<char>>, i: int) -> int
    decreases ls.len() - i,
{
    if i < 0 || i >= ls.len() {
        i
    } else if is_pm_line(ls[i]) || ls[i].len() == 0 {
        pm_extent(ls, i + 1)
    } else {
        i
    }
}

/// The last `+`/`-` line strictly before `e`, at or after `i`; `i - 1`
/// when there is none.
pub open spec fn last_pm(ls: Seq<Seq<char>>, i: int, e: int) -> int
    decreases e - i,
{
    if e <= i || e < 1 || e > ls.len() {
        i - 1
    } else if is_pm_line(ls[e - 1]) {
        e - 1
    } else {
        last_pm(ls, i, e - 1)
    }
}

/// A line that looks like a bare file name: it carries a dot, no space,
/// and is no edit or header line.
pub open spec fn bare_filename_line(l: Seq<char>) -> bool {
    &&& l.len() > 0
    &&& l.contains('.')
    &&& !l.contains(' ')
    &&& l[0] != '+'
    &&& l[0] != '-'
    &&& l[0] != '@'
}

/// The nearest line before `i` that looks like a bare file name, or -1.
pub open spec fn prev_hint(ls: Seq<Seq<char>>, i: int) -> int
    decreases i,
{
    if i <= 0 || i > ls.len() {
        -1
    } else if bare_filename_line(ls[i - 1]) {
        i - 1
    } else {
        prev_hint(ls, i - 1)
    }
}

/// The `+`/`-` run candidates, scanning from line `i`: each maximal run
/// of `+`/`-` lines (blank lines tolerated inside, trailing blanks
/// trimmed) is one candidate, prefixed with the nearest preceding bare
/// file name line when one exists.
pub open spec fn spec_run_blocks(ls: Seq<Seq<char>>, i: int) -> Seq<GBlock>
    decreases ls.len() - i,
{
    if i < 0 || i >= ls.len() {
        Seq::empty()
    } else if is_pm_line(ls[i]) {
        let e0 = pm_extent(ls, i + 1);
        let e = if e0 < i + 1 {
            i + 1
        } else if e0 > ls.len() {
            ls.len() as int
        } else {
            e0
        };
        let last = last_pm(ls, i, e);
        let stop = if last < i {
            i + 1
        } else {
            last + 1
        };
        let body = ls.subrange(i, stop);
        let h = prev_hint(ls, i);
        let blines = if h >= 0 {
            seq![ls[h]] + body
        } else {
            body
        };
        seq![GBlock { lines: blines, diff_tagged: false }] + spec_run_blocks(ls, e)
    } else {
        spec_run_blocks(ls, i + 1)
    }
}

/// The candidate blocks of a response: its fenced blocks; when it has
/// none, its `+`/`-` runs.
pub open spec fn spec_candidate_blocks(text: Seq<char>) -> Seq<GBlock> {
    let ls = line_seq(text);
    let fenced = spec_fenced_blocks(ls, 0);
    if fenced.len() > 0 {
        fenced
    } else {
        spec_run_blocks(ls, 0)
    }
}

/// Exec mirror of `next_fence`.
fn next_fence_exec(lines: &Vec<String>, i: usize) -> (r: usize)
    requires
        i <= lines@.len(),
    ensures
        r as int == next_fence(seq_views(lines@), i as int),
        i <= r <= lines@.len(),
{
    let n = lines.len();
    let mut j: usize = i;
    while j < n
        invariant
            n == lines@.len(),
            i <= j <= n,
            next_fence(seq_views(lines@), i as int) == next_fence(seq_views(lines@), j as int),
        decreases n - j,
    {
        if starts_with_str(lines[j].as_str(), "```") {
            return j;
        }
        j += 1;
    }
    j
}

/// Exec mirror of `pm_extent`.
fn pm_extent_exec(lines: &Vec<String>, i: usize) -> (r: usize)
    requires
        i <= lines@.len(),
    ensures
        r as int == pm_extent(seq_views(lines@), i as int),
        i <= r <= lines@.len(),
{
    let n = lines.len();
    let mut j: usize = i;
    while j < n
        invariant
            n == lines@.len(),
            i <= j <= n,
            pm_extent(seq_views(lines@), i as int) == pm_extent(seq_views(lines@), j as int),
        decreases n - j,
    {
        let l = lines[j].as_str();
        let ln = l.unicode_len();
        if ln == 0 {
            j += 1;
        } else {
            let c = l.get_char(0);
            if c == '+' || c == '-' {
                j += 1;
            } else {
                return j;
            }
        }
    }
    j
}

/// Exec mirror of `last_pm`.
fn last_pm_exec(lines: &Vec<String>, i: usize, e: usize) -> (r: Option<usize>)
    requires
        i <= e <= lines@.len(),
    ensures
        match r {
            Some(k) => k as int == last_pm(seq_views(lines@), i as int, e as int) && i <= k < e,
            None => last_pm(seq_views(lines@), i as int, e as int) == i as int - 1,
        },
{
    let mut j: usize = e;
    while j > i
        invariant
            e <= lines@.len(),
            i <= j <= e,
            last_pm(seq_views(lines@), i as int, e as int) == last_pm(
                seq_views(lines@),
                i as int,
                j as int,
            ),
        decreases j,
    {
        let l = lines[j - 1].as_str();
        if first_char_is(l, '+') || first_char_is(l, '-') {
            return Some(j - 1);
        }
        j -= 1;
    }
    None
}

/// Exec mirror of `prev_hint`.
fn prev_hint_exec(lines: &Vec<String>, i: usize) -> (r: Option<usize>)
    requires
        i <= lines@.len(),
    ensures
        match r {
            Some(k) => k as int == prev_hint(seq_views(lines@), i as int) && k < i,
            None => prev_hint(seq_views(lines@), i as int) == -1,
        },
{
    let mut j: usize = i;
    while j > 0
        invariant
            i <= lines@.len(),
            j <= i,
            prev_hint(seq_views(lines@), i as int) == prev_hint(seq_views(lines@), j as int),
        decreases j,
    {
        let l = lines[j - 1].as_str();
        let ln = l.unicode_len();
        if ln > 0 && contains_char(l, '.') && !contains_char(l, ' ') {
            let c = l.get_char(0);
            if c != '+' && c != '-' && c != '@' {
                proof {
                    assert(bare_filename_line(seq_views(lines@)[j - 1]));
                }
                return Some(j - 1);
            }
        }
        j -= 1;
    }
    None
}

/// Scan a response for its candidate edit blocks, in order of
/// appearance: the fenced regions; when the response holds no complete
/// fence, its `+`/`-` runs.
pub fn extract_candidate_blocks(text: &str) -> (r: Vec<CandidateBlock>)
    ensures
        block_views(r@) == spec_candidate_blocks(text@),
{
    let lines = split_lines(text);
    let ghost lsv = seq_views(lines@);
    let n = lines.len();
    let mut fenced: Vec<CandidateBlock> = Vec::new();
    let mut i: usize = 0;
    proof {
        assert(block_views(fenced@) + spec_fenced_blocks(lsv, 0) =~= spec_fenced_blocks(lsv, 0));
    }
    while i < n
        invariant
            n == lines@.len(),
            lsv == seq_views(lines@),
            i <= n,
            spec_fenced_blocks(lsv, 0) == block_views(fenced@) + spec_fenced_blocks(lsv, i as int),
        decreases n - i,
    {
        let l = lines[i].as_str();
        if starts_with_str(l, "```") {
            let j = next_fence_exec(&lines, i + 1);
            if j >= n {
                // an unclosed fence produces no block
                i = n;
            } else {
                let mut body: Vec<String> = Vec::new();
                copy_range(&lines, i + 1, j, &mut body);
                proof {
                    assert(seq_views(body@) =~= lsv.subrange(i + 1, j as int));
                }
                let ln = l.unicode_len();
                proof {
                    reveal_strlit("```");
                }
                let tag = l.substring_char(3, ln);
                proof {
                    assert(tag@ =~= lsv[i as int].skip(3));
                }
                let tagged = starts_with_str(tag, "diff");
                let ghost prev = fenced@;
                fenced.push(CandidateBlock { lines: body, diff_tagged: tagged });
                proof {
                    lemma_block_views_push(prev, fenced@[prev.len() as int]);
                    assert(fenced@[prev.len() as int]@ == GBlock {
                        lines: lsv.subrange(i + 1, j as int),
                        diff_tagged: fence_diff_tagged(lsv[i as int]),
                    });
                    assert(block_views(prev) + (seq![fenced@[prev.len() as int]@]
                        + spec_fenced_blocks(lsv, j + 1)) =~= (block_views(prev) + seq![
                        fenced@[prev.len() as int]@,
                    ]) + spec_fenced_blocks(lsv, j + 1));
                }
                i = j + 1;
            }
        } else {
            i += 1;
        }
    }
    proof {
        assert(spec_fenced_blocks(lsv, n as int) =~= Seq::<GBlock>::empty());
        assert(block_views(fenced@) + Seq::<GBlock>::empty() =~= block_views(fenced@));
    }
    if fenced.len() > 0 {
        return fenced;
    }
    // no complete fence anywhere: collect the +/- runs
    let mut runs: Vec<CandidateBlock> = Vec::new();
    let mut k: usize = 0;
    proof {
        assert(block_views(runs@) + spec_run_blocks(lsv, 0) =~= spec_run_blocks(lsv, 0));
    }
    while k < n
        invariant
            n == lines@.len(),
            lsv == seq_views(lines@),
            k <= n,
            spec_run_blocks(lsv, 0) == block_views(runs@) + spec_run_blocks(lsv, k as int),
        decreases n - k,
    {
        let l = lines[k].as_str();
        let is_pm = {
            let ln = l.unicode_len();
            if ln == 0 {
                false
            } else {
                let c = l.get_char(0);
                c == '+' || c == '-'
            }
        };
        if is_pm {
            let e = pm_extent_exec(&lines, k + 1);
            let stop = match last_pm_exec(&lines, k, e) {
                Some(last) => last + 1,
                None => k + 1,
            };
            proof {
                assert(stop <= n);
            }
            let mut body: Vec<String> = Vec::new();
            let hint = prev_hint_exec(&lines, k);
            match hint {
                Some(h) => {
                    body.push(lines[h].clone());
                },
                None => {},
            }
            let ghost base = seq_views(body@);
            copy_range(&lines, k, stop, &mut body);
            proof {
                assert(seq_views(body@) =~= base + lsv.subrange(k as int, stop as int));
                match hint {
                    Some(h) => {
                        assert(base =~= seq![lsv[h as int]]);
                    },
                    None => {
                        assert(base =~= Seq::<Seq<char>>::empty());
                        assert(seq_views(body@) =~= lsv.subrange(k as int, stop as int));
                    },
                }
            }
            let ghost prev = runs@;
            runs.push(CandidateBlock { lines: body, diff_tagged: false });
            proof {
                lemma_block_views_push(prev, runs@[prev.len() as int]);
                assert(block_views(prev) + (seq![runs@[prev.len() as int]@] + spec_run_blocks(
                    lsv,
                    e as int,
                )) =~= (block_views(prev) + seq![runs@[prev.len() as int]@]) + spec_run_blocks(
                    lsv,
                    e as int,
                ));
            }
            k = e;
        } else {
            k += 1;
        }
    }
    proof {
        assert(spec_run_blocks(lsv, n as int) =~= Seq::<GBlock>::empty());
        assert(block_views(runs@) + Seq::<GBlock>::empty() =~= block_views(runs@));
    }
    runs
}

} // verus!
