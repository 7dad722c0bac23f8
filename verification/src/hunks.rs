//! Unified-diff hunks: recognising `@@ -start,count +start,count @@`
//! headers, collecting each hunk's replacement lines, and splicing the
//! hunks into a file's line array.

use vstd::prelude::*;
use vstd::string::*;

use crate::text::{
    all_digits, append_lines, copy_range, dec_val, has_prefix, is_digit, lemma_seq_views_push,
    parse_dec_saturating, seq_views, starts_with_str,
};

verus! {

/// A value clamped to what a usize can hold.
pub open spec fn clamp_usize(v: int) -> int {
    if v > usize::MAX as int {
        usize::MAX as int
    } else {
        v
    }
}

/// The first position at or after `i` that is not a decimal digit.
pub open spec fn digit_run_end(l: Seq<char>, i: int) -> int
    decreases l.len() - i,
{
    if i < 0 || i >= l.len() {
        i
    } else if is_digit(l[i]) {
        digit_run_end(l, i + 1)
    } else {
        i
    }
}

pub proof fn lemma_digit_run_end(l: Seq<char>, i: int)
    requires
        0 <= i <= l.len(),
    ensures
        i <= digit_run_end(l, i) <= l.len(),
        forall|j: int| i <= j < digit_run_end(l, i) ==> is_digit(#[trigger] l[j]),
    decreases l.len() - i,
{
    if i < l.len() && is_digit(l[i]) {
        lemma_digit_run_end(l, i + 1);
    }
}

/// The end of a `NUM[,NUM]` group starting at `i`, or -1 when there is no
/// digit at `i`, or none after a comma.
pub open spec fn num_pair_end(l: Seq<char>, i: int) -> int {
    let e = digit_run_end(l, i);
    if e == i {
        -1
    } else if e < l.len() && l[e] == ',' {
        let e2 = digit_run_end(l, e + 1);
        if e2 == e + 1 {
            -1
        } else {
            e2
        }
    } else {
        e
    }
}

/// The line is a unified-diff hunk header:
/// `@@ -NUM[,NUM] +NUM[,NUM] @@`, possibly followed by more text.
pub open spec fn is_hunk_header(l: Seq<char>) -> bool {
    &&& has_prefix(l, "@@ -"@)
    &&& num_pair_end(l, 4) >= 0
    &&& {
        let p = num_pair_end(l, 4);
        &&& p + 2 <= l.len()
        &&& l[p] == ' '
        &&& l[p + 1] == '+'
        &&& num_pair_end(l, p + 2) >= 0
        &&& has_prefix(l.skip(num_pair_end(l, p + 2)), " @@"@)
    }
}

/// The old-side start line declared by a hunk header (unclamped).
pub open spec fn header_old_start(l: Seq<char>) -> int {
    dec_val(l.subrange(4, digit_run_end(l, 4)))
}

/// The old-side line count declared by a hunk header; 1 when omitted.
pub open spec fn header_old_count(l: Seq<char>) -> int {
    let e = digit_run_end(l, 4);
    if e < l.len() && l[e] == ',' {
        dec_val(l.subrange(e + 1, digit_run_end(l, e + 1)))
    } else {
        1
    }
}

/// The new-side line count declared by a hunk header; 1 when omitted.
pub open spec fn header_new_count(l: Seq<char>) -> int {
    let p = num_pair_end(l, 4);
    let e = digit_run_end(l, p + 2);
    if e < l.len() && l[e] == ',' {
        dec_val(l.subrange(e + 1, digit_run_end(l, e + 1)))
    } else {
        1
    }
}

/// Exec mirror of `digit_run_end`.
fn digit_run_end_exec(l: &str, i: usize) -> (r: usize)
    requires
        i <= l@.len(),
    ensures
        r as int == digit_run_end(l@, i as int),
        i <= r <= l@.len(),
{
    let n = l.unicode_len();
    let mut j: usize = i;
    while j < n
        invariant
            n == l@.len(),
            i <= j <= n,
            digit_run_end(l@, i as int) == digit_run_end(l@, j as int),
        decreases n - j,
    {
        let c = l.get_char(j);
        let u = c as u32;
        if !(48 <= u && u <= 57) {
            return j;
        }
        j += 1;
    }
    j
}

/// Exec mirror of `num_pair_end`; `None` stands for -1.
fn num_pair_end_exec(l: &str, i: usize) -> (r: Option<usize>)
    requires
        i <= l@.len(),
    ensures
        match r {
            Some(e) => e as int == num_pair_end(l@, i as int) && i <= e <= l@.len(),
            None => num_pair_end(l@, i as int) == -1,
        },
{
    let n = l.unicode_len();
    let e = digit_run_end_exec(l, i);
    if e == i {
        return None;
    }
    if e < n && l.get_char(e) == ',' {
        let e2 = digit_run_end_exec(l, e + 1);
        if e2 == e + 1 {
            return None;
        }
        return Some(e2);
    }
    Some(e)
}

/// Parse a hunk header, returning the old-side start and count and the
/// new-side count, clamped to `usize`; a count is 1 when the header
/// omits it.
pub fn parse_hunk_header(l: &str) -> (r: Option<(usize, usize, usize)>)
    ensures
        r is Some <==> is_hunk_header(l@),
        match r {
            Some((a, b, c)) => a as int == clamp_usize(header_old_start(l@)) && b as int
                == clamp_usize(header_old_count(l@)) && c as int == clamp_usize(
                header_new_count(l@),
            ),
            None => true,
        },
{
    let n = l.unicode_len();
    if !starts_with_str(l, "@@ -") {
        return None;
    }
    proof {
        reveal_strlit("@@ -");
        assert(l@.len() >= 4);
    }
    let p_opt = num_pair_end_exec(l, 4);
    let p = match p_opt {
        Some(p) => p,
        None => {
            return None;
        },
    };
    if !(p < n && p + 1 < n && l.get_char(p) == ' ' && l.get_char(p + 1) == '+') {
        return None;
    }
    let q_opt = num_pair_end_exec(l, p + 2);
    let q = match q_opt {
        Some(q) => q,
        None => {
            return None;
        },
    };
    let rest = l.substring_char(q, n);
    proof {
        assert(rest@ =~= l@.skip(q as int));
    }
    if !starts_with_str(rest, " @@") {
        return None;
    }
    // the header shape holds; read the numbers
    let a_end = digit_run_end_exec(l, 4);
    proof {
        lemma_digit_run_end(l@, 4);
        assert(all_digits(l@.subrange(4, a_end as int)));
    }
    let a_str = l.substring_char(4, a_end);
    let a = parse_dec_saturating(a_str);
    let b: usize;
    if a_end < n && l.get_char(a_end) == ',' {
        let b_end = digit_run_end_exec(l, a_end + 1);
        proof {
            lemma_digit_run_end(l@, a_end + 1);
            assert(all_digits(l@.subrange(a_end + 1, b_end as int)));
        }
        let b_str = l.substring_char(a_end + 1, b_end);
        b = parse_dec_saturating(b_str);
    } else {
        b = 1;
    }
    // the new-side count, after the " +" at position p
    let c_end = digit_run_end_exec(l, p + 2);
    let c: usize;
    if c_end < n && l.get_char(c_end) == ',' {
        let d_end = digit_run_end_exec(l, c_end + 1);
        proof {
            lemma_digit_run_end(l@, c_end + 1);
            assert(all_digits(l@.subrange(c_end + 1, d_end as int)));
        }
        let d_str = l.substring_char(c_end + 1, d_end);
        c = parse_dec_saturating(d_str);
    } else {
        c = 1;
    }
    Some((a, b, c))
}

/// One parsed hunk: the old-side range and new-side count declared by
/// its header, and the replacement lines (context and additions, in
/// hunk order, with their one-character prefix stripped).
pub struct Hunk {
    pub old_start: usize,
    pub old_count: usize,
    pub new_count: usize,
    pub new_lines: Vec<String>,
}

/// The mathematical model of a hunk.
pub ghost struct GHunk {
    pub start: int,
    pub count: int,
    pub new_count: int,
    pub new_lines: Seq<Seq<char>>,
}

impl View for Hunk {
    type V = GHunk;

    open spec fn view(&self) -> GHunk {
        GHunk {
            start: self.old_start as int,
            count: self.old_count as int,
            new_count: self.new_count as int,
            new_lines: seq_views(self.new_lines@),
        }
    }
}

pub open spec fn hunk_views(s: Seq<Hunk>) -> Seq<GHunk> {
    Seq::new(s.len(), |i: int| s[i]@)
}

pub proof fn lemma_hunk_views_push(s: Seq<Hunk>, x: Hunk)
    ensures
        hunk_views(s.push(x)) =~= hunk_views(s) + seq![x@],
{
}

/// Start of the hunk's replacement range in a file of `len` lines: the
/// header's 1-based start made 0-based, clamped into the file.
pub open spec fn hunk_lo(h: GHunk, len: int) -> int {
    let s = if h.start >= 1 {
        h.start - 1
    } else {
        0
    };
    if s > len {
        len
    } else {
        s
    }
}

/// End of the replacement range: its start plus the declared count,
/// clamped to the file length.
pub open spec fn hunk_hi(h: GHunk, len: int) -> int {
    let c = if h.count >= 0 {
        h.count
    } else {
        0
    };
    let e = hunk_lo(h, len) + c;
    if e > len {
        len
    } else {
        e
    }
}

/// Splice hunks into `old`, scanning from cursor `pos`: each hunk
/// replaces its clamped range with its replacement lines; a hunk whose
/// range starts inside the part already consumed is skipped, so every
/// range is taken against the original line array, never a shifted one.
pub open spec fn spec_apply_hunks_from(old: Seq<Seq<char>>, hs: Seq<GHunk>, pos: int) -> Seq<
    Seq<char>,
>
    decreases hs.len(),
{
    if hs.len() == 0 {
        old.subrange(pos, old.len() as int)
    } else {
        let s = hunk_lo(hs[0], old.len() as int);
        let e = hunk_hi(hs[0], old.len() as int);
        if s < pos {
            spec_apply_hunks_from(old, hs.skip(1), pos)
        } else {
            old.subrange(pos, s) + hs[0].new_lines + spec_apply_hunks_from(old, hs.skip(1), e)
        }
    }
}

pub open spec fn spec_apply_hunks(old: Seq<Seq<char>>, hs: Seq<GHunk>) -> Seq<Seq<char>> {
    spec_apply_hunks_from(old, hs, 0)
}

/// Replace, in the old line array, each hunk's declared range by its
/// replacement lines. Ranges are read against the original array; a
/// range reaching past the end is clamped, and a hunk overlapping an
/// earlier one is skipped.
pub fn apply_hunks(old_lines: &Vec<String>, hunks: &Vec<Hunk>) -> (r: Vec<String>)
    ensures
        seq_views(r@) == spec_apply_hunks(seq_views(old_lines@), hunk_views(hunks@)),
{
    let ghost ov = seq_views(old_lines@);
    let ghost hv = hunk_views(hunks@);
    let len = old_lines.len();
    let mut out: Vec<String> = Vec::new();
    let mut pos: usize = 0;
    let mut k: usize = 0;
    proof {
        assert(hv.skip(0) =~= hv);
        assert(seq_views(out@) + spec_apply_hunks_from(ov, hv, 0) =~= spec_apply_hunks_from(
            ov,
            hv,
            0,
        ));
    }
    while k < hunks.len()
        invariant
            len == old_lines@.len(),
            ov == seq_views(old_lines@),
            hv == hunk_views(hunks@),
            pos <= len,
            k <= hunks@.len(),
            spec_apply_hunks(ov, hv) == seq_views(out@) + spec_apply_hunks_from(
                ov,
                hv.skip(k as int),
                pos as int,
            ),
        decreases hunks@.len() - k,
    {
        let h = &hunks[k];
        let s0 = if h.old_start >= 1 {
            h.old_start - 1
        } else {
            0
        };
        let s = if s0 > len {
            len
        } else {
            s0
        };
        let e = if h.old_count > len - s {
            len
        } else {
            s + h.old_count
        };
        proof {
            assert(hv.skip(k as int)[0] == hv[k as int]);
            assert(s as int == hunk_lo(hv[k as int], len as int));
            assert(e as int == hunk_hi(hv[k as int], len as int));
            assert(hv.skip(k as int).skip(1) =~= hv.skip(k + 1));
        }
        if s >= pos {
            let ghost o0 = seq_views(out@);
            let ghost pos0 = pos as int;
            copy_range(old_lines, pos, s, &mut out);
            let ghost o1 = seq_views(out@);
            append_lines(&mut out, &h.new_lines);
            proof {
                assert(seq_views(out@) =~= o0 + ov.subrange(pos0, s as int)
                    + hv[k as int].new_lines);
                assert(o0 + (ov.subrange(pos0, s as int) + hv[k as int].new_lines
                    + spec_apply_hunks_from(ov, hv.skip(k + 1), e as int)) =~= (o0 + ov.subrange(
                    pos0,
                    s as int,
                ) + hv[k as int].new_lines) + spec_apply_hunks_from(ov, hv.skip(k + 1), e as int));
            }
            pos = e;
        }
        k += 1;
    }
    proof {
        assert(hv.skip(k as int) =~= Seq::<GHunk>::empty());
    }
    copy_range(old_lines, pos, len, &mut out);
    proof {
        assert(ov.subrange(pos as int, len as int) == spec_apply_hunks_from(
            ov,
            hv.skip(k as int),
            pos as int,
        ));
    }
    out
}

/// Where a hunk's body, beginning at line `i`, ends: at the next hunk
/// header, at the first line that carries none of the `-`, `+`, space
/// prefixes and is not blank, or at the end of the block.
pub open spec fn hunk_body_end(ls: Seq<Seq<char>>, i: int) -> int
    decreases ls.len() - i,
{
    if i < 0 || i >= ls.len() {
        i
    } else {
        let l = ls[i];
        if l.len() == 0 {
            hunk_body_end(ls, i + 1)
        } else if has_prefix(l, "@@ "@) {
            i
        } else if l[0] == '-' || l[0] == '+' || l[0] == ' ' {
            hunk_body_end(ls, i + 1)
        } else {
            i
        }
    }
}

/// The new-side lines of a hunk body: the context and addition lines in
/// order, each with its prefix character stripped; removals and blank
/// lines contribute nothing.
pub open spec fn hunk_new_lines(ls: Seq<Seq<char>>, i: int, e: int) -> Seq<Seq<char>>
    decreases e - i,
{
    if i < 0 || i >= e || i >= ls.len() {
        Seq::empty()
    } else {
        let l = ls[i];
        if l.len() > 0 && (l[0] == '+' || l[0] == ' ') {
            seq![l.skip(1)] + hunk_new_lines(ls, i + 1, e)
        } else {
            hunk_new_lines(ls, i + 1, e)
        }
    }
}

/// The hunks of a block, scanning from line `i`: each hunk header opens
/// a hunk whose body runs to `hunk_body_end`; scanning resumes there.
pub open spec fn spec_scan_hunks(ls: Seq<Seq<char>>, i: int) -> Seq<GHunk>
    decreases ls.len() - i,
{
    if i < 0 || i >= ls.len() {
        Seq::empty()
    } else if is_hunk_header(ls[i]) {
        let e0 = hunk_body_end(ls, i + 1);
        let e1 = if e0 < i + 1 {
            i + 1
        } else {
            e0
        };
        let e = if e1 > ls.len() {
            ls.len() as int
        } else {
            e1
        };
        seq![
            GHunk {
                start: clamp_usize(header_old_start(ls[i])),
                count: clamp_usize(header_old_count(ls[i])),
                new_count: clamp_usize(header_new_count(ls[i])),
                new_lines: hunk_new_lines(ls, i + 1, e),
            },
        ] + spec_scan_hunks(ls, e)
    } else {
        spec_scan_hunks(ls, i + 1)
    }
}

/// Exec mirror of `hunk_body_end`.
fn hunk_body_end_exec(lines: &Vec<String>, i: usize) -> (r: usize)
    requires
        i <= lines@.len(),
    ensures
        r as int == hunk_body_end(seq_views(lines@), i as int),
        i <= r <= lines@.len(),
{
    let n = lines.len();
    let mut j: usize = i;
    while j < n
        invariant
            n == lines@.len(),
            i <= j <= n,
            hunk_body_end(seq_views(lines@), i as int) == hunk_body_end(
                seq_views(lines@),
                j as int,
            ),
        decreases n - j,
    {
        let l = lines[j].as_str();
        if l.unicode_len() == 0 {
            j += 1;
        } else if starts_with_str(l, "@@ ") {
            return j;
        } else {
            let c = l.get_char(0);
            if c == '-' || c == '+' || c == ' ' {
                j += 1;
            } else {
                return j;
            }
        }
    }
    j
}

/// Exec mirror of `hunk_new_lines`: collect the new-side lines of a
/// hunk body.
fn collect_hunk_new_lines(lines: &Vec<String>, i: usize, e: usize) -> (r: Vec<String>)
    requires
        i <= e <= lines@.len(),
    ensures
        seq_views(r@) == hunk_new_lines(seq_views(lines@), i as int, e as int),
{
    let ghost lsv = seq_views(lines@);
    let mut out: Vec<String> = Vec::new();
    let mut j: usize = i;
    proof {
        assert(seq_views(out@) + hunk_new_lines(lsv, i as int, e as int) =~= hunk_new_lines(
            lsv,
            i as int,
            e as int,
        ));
    }
    while j < e
        invariant
            i <= j <= e <= lines@.len(),
            lsv == seq_views(lines@),
            hunk_new_lines(lsv, i as int, e as int) == seq_views(out@) + hunk_new_lines(
                lsv,
                j as int,
                e as int,
            ),
        decreases e - j,
    {
        let l = lines[j].as_str();
        let n = l.unicode_len();
        if n > 0 {
            let c = l.get_char(0);
            if c == '+' || c == ' ' {
                let stripped = l.substring_char(1, n);
                let ghost prev = out@;
                out.push(stripped.to_owned());
                proof {
                    lemma_seq_views_push(prev, out@[prev.len() as int]);
                    assert(out@[prev.len() as int]@ =~= lsv[j as int].skip(1));
                    assert(seq_views(prev) + (seq![lsv[j as int].skip(1)] + hunk_new_lines(
                        lsv,
                        j + 1,
                        e as int,
                    )) =~= (seq_views(prev) + seq![lsv[j as int].skip(1)]) + hunk_new_lines(
                        lsv,
                        j + 1,
                        e as int,
                    ));
                }
            }
        }
        j += 1;
    }
    out
}

/// Parse every hunk of a block: scan for hunk headers and collect each
/// header's body.
pub fn parse_hunks(lines: &Vec<String>) -> (r: Vec<Hunk>)
    ensures
        hunk_views(r@) == spec_scan_hunks(seq_views(lines@), 0),
{
    let ghost lsv = seq_views(lines@);
    let n = lines.len();
    let mut out: Vec<Hunk> = Vec::new();
    let mut i: usize = 0;
    proof {
        assert(hunk_views(out@) + spec_scan_hunks(lsv, 0) =~= spec_scan_hunks(lsv, 0));
    }
    while i < n
        invariant
            n == lines@.len(),
            lsv == seq_views(lines@),
            i <= n,
            spec_scan_hunks(lsv, 0) == hunk_views(out@) + spec_scan_hunks(lsv, i as int),
        decreases n - i,
    {
        let header = parse_hunk_header(lines[i].as_str());
        match header {
            Some((a, b, c)) => {
                let e = hunk_body_end_exec(lines, i + 1);
                let new_lines = collect_hunk_new_lines(lines, i + 1, e);
                let ghost prev = out@;
                let h = Hunk { old_start: a, old_count: b, new_count: c, new_lines };
                out.push(h);
                proof {
                    lemma_hunk_views_push(prev, out@[prev.len() as int]);
                    assert(hunk_views(prev) + (seq![out@[prev.len() as int]@] + spec_scan_hunks(
                        lsv,
                        e as int,
                    )) =~= (hunk_views(prev) + seq![out@[prev.len() as int]@]) + spec_scan_hunks(
                        lsv,
                        e as int,
                    ));
                }
                i = e;
            },
            None => {
                i += 1;
            },
        }
    }
    proof {
        assert(spec_scan_hunks(lsv, n as int) =~= Seq::<GHunk>::empty());
        assert(hunk_views(out@) + Seq::<GHunk>::empty() =~= hunk_views(out@));
    }
    out
}

pub(crate) proof fn lemma_skip_one_newline_free(l: Seq<char>)
    requires
        l.len() >= 1,
        !l.contains('\n'),
    ensures
        !l.skip(1).contains('\n'),
{
    assert forall|j: int| 0 <= j < l.skip(1).len() implies l.skip(1)[j] != '\n' by {
        assert(l.skip(1)[j] == l[j + 1]);
        assert(l[j + 1] != '\n');
    }
}

proof fn lemma_hunk_new_lines_nf(ls: Seq<Seq<char>>, i: int, e: int)
    requires
        crate::text::lines_newline_free(ls),
    ensures
        crate::text::lines_newline_free(hunk_new_lines(ls, i, e)),
    decreases e - i,
{
    if !(i < 0 || i >= e || i >= ls.len()) {
        lemma_hunk_new_lines_nf(ls, i + 1, e);
        let l = ls[i];
        if l.len() > 0 && (l[0] == '+' || l[0] == ' ') {
            lemma_skip_one_newline_free(l);
            let tail = hunk_new_lines(ls, i + 1, e);
            assert forall|k: int| 0 <= k < (seq![l.skip(1)] + tail).len() implies !(
            #[trigger] (seq![l.skip(1)] + tail)[k]).contains('\n') by {
                if k >= 1 {
                    assert((seq![l.skip(1)] + tail)[k] == tail[k - 1]);
                }
            }
        }
    }
}

/// Scanning a block whose lines are newline-free yields hunks whose
/// replacement lines are newline-free too.
pub proof fn lemma_scan_hunks_nf(ls: Seq<Seq<char>>, i: int)
    requires
        crate::text::lines_newline_free(ls),
    ensures
        forall|k: int|
            0 <= k < spec_scan_hunks(ls, i).len() ==> crate::text::lines_newline_free(
                (#[trigger] spec_scan_hunks(ls, i)[k]).new_lines,
            ),
    decreases ls.len() - i,
{
    if i < 0 || i >= ls.len() {
    } else if is_hunk_header(ls[i]) {
        let e0 = hunk_body_end(ls, i + 1);
        let e1 = if e0 < i + 1 {
            i + 1
        } else {
            e0
        };
        let e = if e1 > ls.len() {
            ls.len() as int
        } else {
            e1
        };
        lemma_hunk_new_lines_nf(ls, i + 1, e);
        lemma_scan_hunks_nf(ls, e);
        let head = GHunk {
            start: clamp_usize(header_old_start(ls[i])),
            count: clamp_usize(header_old_count(ls[i])),
            new_count: clamp_usize(header_new_count(ls[i])),
            new_lines: hunk_new_lines(ls, i + 1, e),
        };
        let tail = spec_scan_hunks(ls, e);
        assert(spec_scan_hunks(ls, i) == seq![head] + tail);
        assert forall|k: int| 0 <= k < spec_scan_hunks(ls, i).len() implies
            crate::text::lines_newline_free((#[trigger] spec_scan_hunks(ls, i)[k]).new_lines) by {
            if k == 0 {
                assert(spec_scan_hunks(ls, i)[k] == head);
            } else {
                assert(spec_scan_hunks(ls, i)[k] == tail[k - 1]);
            }
        }
    } else {
        lemma_scan_hunks_nf(ls, i + 1);
        assert forall|k: int| 0 <= k < spec_scan_hunks(ls, i).len() implies
            crate::text::lines_newline_free((#[trigger] spec_scan_hunks(ls, i)[k]).new_lines) by {
            assert(spec_scan_hunks(ls, i) == spec_scan_hunks(ls, i + 1));
            assert(spec_scan_hunks(ls, i)[k] == spec_scan_hunks(ls, i + 1)[k]);
        }
    }
}

/// Splicing newline-free replacement lines into a newline-free line
/// array yields a newline-free line array.
pub proof fn lemma_apply_hunks_nf(old: Seq<Seq<char>>, hs: Seq<GHunk>, pos: int)
    requires
        crate::text::lines_newline_free(old),
        forall|k: int|
            0 <= k < hs.len() ==> crate::text::lines_newline_free(
                (#[trigger] hs[k]).new_lines,
            ),
        0 <= pos <= old.len(),
    ensures
        crate::text::lines_newline_free(spec_apply_hunks_from(old, hs, pos)),
    decreases hs.len(),
{
    if hs.len() == 0 {
        let r = old.subrange(pos, old.len() as int);
        assert forall|k: int| 0 <= k < r.len() implies !(#[trigger] r[k]).contains('\n') by {
            assert(r[k] == old[pos + k]);
        }
    } else {
        let s = hunk_lo(hs[0], old.len() as int);
        let e = hunk_hi(hs[0], old.len() as int);
        assert(forall|k: int|
            0 <= k < hs.skip(1).len() ==> hs.skip(1)[k] == #[trigger] hs[k + 1]);
        if s < pos {
            lemma_apply_hunks_nf(old, hs.skip(1), pos);
        } else {
            lemma_apply_hunks_nf(old, hs.skip(1), e);
            let mid = hs[0].new_lines;
            let pre = old.subrange(pos, s);
            let tail = spec_apply_hunks_from(old, hs.skip(1), e);
            let r = pre + mid + tail;
            assert forall|k: int| 0 <= k < r.len() implies !(#[trigger] r[k]).contains('\n') by {
                if k < pre.len() {
                    assert(r[k] == old[pos + k]);
                } else if k < pre.len() + mid.len() {
                    assert(r[k] == mid[k - pre.len()]);
                } else {
                    assert(r[k] == tail[k - pre.len() - mid.len()]);
                }
            }
        }
    }
}

/// The hunks lie in order within a file of `old_len` lines, starting at
/// or after `pos`, without overlapping: each hunk's declared range fits
/// between the previous hunk's end and the end of the file.
pub open spec fn hunks_in_order(old_len: int, hs: Seq<GHunk>, pos: int) -> bool
    decreases hs.len(),
{
    if hs.len() == 0 {
        true
    } else {
        &&& hs[0].start >= 1
        &&& hs[0].count >= 0
        &&& pos <= hs[0].start - 1
        &&& hs[0].start - 1 + hs[0].count <= old_len
        &&& hunks_in_order(old_len, hs.skip(1), hs[0].start - 1 + hs[0].count)
    }
}

/// The total line-count change declared by a sequence of hunks: the sum
/// over the hunks of (replacement lines) - (old-side count).
pub open spec fn hunks_len_delta(hs: Seq<GHunk>) -> int
    decreases hs.len(),
{
    if hs.len() == 0 {
        0
    } else {
        hs[0].new_lines.len() - hs[0].count + hunks_len_delta(hs.skip(1))
    }
}

/// For hunks that lie in order within the old file and do not overlap,
/// splicing changes the line count by exactly the sum over the hunks of
/// the difference between each hunk's replacement-line count and the
/// old-side count its header declares.
pub proof fn lemma_apply_hunks_line_count(old: Seq<Seq<char>>, hs: Seq<GHunk>, pos: int)
    requires
        0 <= pos <= old.len(),
        hunks_in_order(old.len() as int, hs, pos),
    ensures
        spec_apply_hunks_from(old, hs, pos).len() == old.len() - pos + hunks_len_delta(hs),
    decreases hs.len(),
{
    if hs.len() > 0 {
        let s = hunk_lo(hs[0], old.len() as int);
        let e = hunk_hi(hs[0], old.len() as int);
        assert(s == hs[0].start - 1);
        assert(e == hs[0].start - 1 + hs[0].count);
        lemma_apply_hunks_line_count(old, hs.skip(1), e);
    }
}

/// The total line-count change the headers declare: the sum over the
/// hunks of (new-side count) - (old-side count).
pub open spec fn hunks_declared_delta(hs: Seq<GHunk>) -> int
    decreases hs.len(),
{
    if hs.len() == 0 {
        0
    } else {
        hs[0].new_count - hs[0].count + hunks_declared_delta(hs.skip(1))
    }
}

proof fn lemma_delta_matches_declared(hs: Seq<GHunk>)
    requires
        forall|k: int|
            0 <= k < hs.len() ==> (#[trigger] hs[k]).new_lines.len() == hs[k].new_count,
    ensures
        hunks_len_delta(hs) == hunks_declared_delta(hs),
    decreases hs.len(),
{
    if hs.len() > 0 {
        assert(forall|k: int|
            0 <= k < hs.skip(1).len() ==> hs.skip(1)[k] == #[trigger] hs[k + 1]);
        lemma_delta_matches_declared(hs.skip(1));
    }
}

/// For in-order, non-overlapping hunks whose bodies carry exactly as
/// many replacement lines as their headers declare on the new side,
/// splicing changes the line count by exactly the sum over the hunks of
/// the headers' (new-side count) - (old-side count).
pub proof fn lemma_apply_hunks_declared_count(old: Seq<Seq<char>>, hs: Seq<GHunk>, pos: int)
    requires
        0 <= pos <= old.len(),
        hunks_in_order(old.len() as int, hs, pos),
        forall|k: int|
            0 <= k < hs.len() ==> (#[trigger] hs[k]).new_lines.len() == hs[k].new_count,
    ensures
        spec_apply_hunks_from(old, hs, pos).len() == old.len() - pos + hunks_declared_delta(hs),
{
    lemma_apply_hunks_line_count(old, hs, pos);
    lemma_delta_matches_declared(hs);
}

} // verus!
