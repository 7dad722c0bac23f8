//! Content synthesis: reconstructing a file's new content from an edit
//! block — for new files from its addition lines, for existing files
//! either by splicing unified-diff hunks or, when no hunk structure is
//! present, by the line-list fallback that substitutes the block's
//! removed lines with its added lines at their first occurrence.

use vstd::prelude::*;
use vstd::string::*;

use crate::hunks::{
    apply_hunks, lemma_apply_hunks_nf, lemma_scan_hunks_nf, lemma_skip_one_newline_free,
    parse_hunks, spec_apply_hunks, spec_scan_hunks,
};
use crate::text::{
    append_lines, content_of, copy_range, ends_with_newline, has_prefix, join_text,
    lemma_content_line_seq, lemma_join_last_char, lemma_line_seq_last_nonempty,
    lemma_line_seq_newline_free, lemma_seq_views_push, line_seq, lines_newline_free, seq_views,
    split_lines, starts_with_str,
};

verus! {

/// The text of an addition line: the `+` stripped, and at most one
/// further leading space stripped, to tolerate `+ code` spacing.
pub open spec fn strip_plus(l: Seq<char>) -> Seq<char> {
    let t = l.skip(1);
    if t.len() > 0 && t[0] == ' ' {
        t.skip(1)
    } else {
        t
    }
}

/// An addition line: starts with `+` but is not a `+++ ` header.
pub open spec fn is_addition_line(l: Seq<char>) -> bool {
    l.len() > 0 && l[0] == '+' && !has_prefix(l, "+++ "@)
}

/// A removal line: starts with `-` but is not a `--- ` header.
pub open spec fn is_removal_line(l: Seq<char>) -> bool {
    l.len() > 0 && l[0] == '-' && !has_prefix(l, "--- "@)
}

/// The content of a new file: every addition line's text, in block
/// order, each terminated by a newline.
pub open spec fn new_file_content(ls: Seq<Seq<char>>) -> Seq<char>
    decreases ls.len(),
{
    if ls.len() == 0 {
        Seq::empty()
    } else if is_addition_line(ls[0]) {
        strip_plus(ls[0]).push('\n') + new_file_content(ls.skip(1))
    } else {
        new_file_content(ls.skip(1))
    }
}

/// Strip the `+` and at most one further leading space from an addition
/// line.
fn strip_plus_exec(l: &str) -> (r: String)
    requires
        l@.len() > 0,
    ensures
        r@ == strip_plus(l@),
{
    let n = l.unicode_len();
    let r;
    if n >= 2 && l.get_char(1) == ' ' {
        r = l.substring_char(2, n).to_owned();
        proof {
            assert(l@.subrange(2, n as int) =~= l@.skip(1).skip(1));
        }
    } else {
        r = l.substring_char(1, n).to_owned();
        proof {
            assert(l@.subrange(1, n as int) =~= l@.skip(1));
        }
    }
    r
}

/// Build a new file's content from the block's addition lines.
pub fn synthesize_new_content(lines: &Vec<String>) -> (r: String)
    ensures
        r@ == new_file_content(seq_views(lines@)),
{
    let ghost lsv = seq_views(lines@);
    let n = lines.len();
    let mut acc: String = String::new();
    let mut i: usize = 0;
    proof {
        assert(lsv.skip(0) =~= lsv);
        assert(acc@ + new_file_content(lsv) =~= new_file_content(lsv));
    }
    while i < n
        invariant
            n == lines@.len(),
            lsv == seq_views(lines@),
            i <= n,
            new_file_content(lsv) == acc@ + new_file_content(lsv.skip(i as int)),
        decreases n - i,
    {
        let l = lines[i].as_str();
        if first_is_plus(l) && !starts_with_str(l, "+++ ") {
            let ghost a0 = acc@;
            let s = strip_plus_exec(l);
            acc.append(s.as_str());
            crate::text::push_char(&mut acc, '\n');
            proof {
                assert(lsv.skip(i as int)[0] == lsv[i as int]);
                assert(lsv.skip(i as int).skip(1) =~= lsv.skip(i + 1));
                assert(acc@ =~= a0 + strip_plus(lsv[i as int]).push('\n'));
                assert((a0 + strip_plus(lsv[i as int]).push('\n')) + new_file_content(
                    lsv.skip(i + 1),
                ) =~= a0 + (strip_plus(lsv[i as int]).push('\n') + new_file_content(
                    lsv.skip(i + 1),
                )));
            }
        } else {
            proof {
                assert(lsv.skip(i as int)[0] == lsv[i as int]);
                assert(lsv.skip(i as int).skip(1) =~= lsv.skip(i + 1));
            }
        }
        i += 1;
    }
    proof {
        assert(new_file_content(lsv.skip(n as int)) =~= Seq::<char>::empty());
        assert(acc@ + Seq::<char>::empty() =~= acc@);
    }
    acc
}

/// A new file's content is empty or newline-terminated: it is built
/// from whole lines, each with its own final newline.
pub proof fn lemma_new_file_content_shape(ls: Seq<Seq<char>>)
    ensures
        new_file_content(ls).len() == 0 || ends_with_newline(new_file_content(ls)),
    decreases ls.len(),
{
    if ls.len() > 0 {
        lemma_new_file_content_shape(ls.skip(1));
        if is_addition_line(ls[0]) {
            let head = strip_plus(ls[0]).push('\n');
            let rest = new_file_content(ls.skip(1));
            if rest.len() == 0 {
                assert(head + rest =~= head);
            } else {
                assert((head + rest)[(head + rest).len() - 1] == rest[rest.len() - 1]);
            }
        }
    }
}

/// Whether the line's first character is `+`.
fn first_is_plus(l: &str) -> (r: bool)
    ensures
        r == (l@.len() > 0 && l@[0] == '+'),
{
    crate::text::first_char_is(l, '+')
}

/// The removed lines of a block: every removal line's text, verbatim
/// after the `-`.
pub open spec fn removed_of(ls: Seq<Seq<char>>) -> Seq<Seq<char>>
    decreases ls.len(),
{
    if ls.len() == 0 {
        Seq::empty()
    } else if is_removal_line(ls[0]) {
        seq![ls[0].skip(1)] + removed_of(ls.skip(1))
    } else {
        removed_of(ls.skip(1))
    }
}

/// The added lines of a block: every addition line's text, with one
/// leading space stripped when present.
pub open spec fn added_of(ls: Seq<Seq<char>>) -> Seq<Seq<char>>
    decreases ls.len(),
{
    if ls.len() == 0 {
        Seq::empty()
    } else if is_addition_line(ls[0]) {
        seq![strip_plus(ls[0])] + added_of(ls.skip(1))
    } else {
        added_of(ls.skip(1))
    }
}

/// Collect the removed and added line lists of a block.
pub fn collect_line_edit(lines: &Vec<String>) -> (r: (Vec<String>, Vec<String>))
    ensures
        seq_views(r.0@) == removed_of(seq_views(lines@)),
        seq_views(r.1@) == added_of(seq_views(lines@)),
{
    let ghost lsv = seq_views(lines@);
    let n = lines.len();
    let mut removed: Vec<String> = Vec::new();
    let mut added: Vec<String> = Vec::new();
    let mut i: usize = 0;
    proof {
        assert(lsv.skip(0) =~= lsv);
        assert(seq_views(removed@) + removed_of(lsv) =~= removed_of(lsv));
        assert(seq_views(added@) + added_of(lsv) =~= added_of(lsv));
    }
    while i < n
        invariant
            n == lines@.len(),
            lsv == seq_views(lines@),
            i <= n,
            removed_of(lsv) == seq_views(removed@) + removed_of(lsv.skip(i as int)),
            added_of(lsv) == seq_views(added@) + added_of(lsv.skip(i as int)),
        decreases n - i,
    {
        let l = lines[i].as_str();
        let ln = l.unicode_len();
        proof {
            assert(lsv.skip(i as int)[0] == lsv[i as int]);
            assert(lsv.skip(i as int).skip(1) =~= lsv.skip(i + 1));
        }
        if ln > 0 && l.get_char(0) == '-' && !starts_with_str(l, "--- ") {
            let stripped = l.substring_char(1, ln);
            let ghost prev = removed@;
            removed.push(stripped.to_owned());
            proof {
                lemma_seq_views_push(prev, removed@[prev.len() as int]);
                assert(removed@[prev.len() as int]@ =~= lsv[i as int].skip(1));
                assert(seq_views(prev) + (seq![lsv[i as int].skip(1)] + removed_of(
                    lsv.skip(i + 1),
                )) =~= (seq_views(prev) + seq![lsv[i as int].skip(1)]) + removed_of(
                    lsv.skip(i + 1),
                ));
            }
        } else if ln > 0 && l.get_char(0) == '+' && !starts_with_str(l, "+++ ") {
            let stripped = strip_plus_exec(l);
            let ghost prev = added@;
            added.push(stripped);
            proof {
                lemma_seq_views_push(prev, added@[prev.len() as int]);
                assert(seq_views(prev) + (seq![strip_plus(lsv[i as int])] + added_of(
                    lsv.skip(i + 1),
                )) =~= (seq_views(prev) + seq![strip_plus(lsv[i as int])]) + added_of(
                    lsv.skip(i + 1),
                ));
            }
        }
        i += 1;
    }
    proof {
        assert(removed_of(lsv.skip(n as int)) =~= Seq::<Seq<char>>::empty());
        assert(added_of(lsv.skip(n as int)) =~= Seq::<Seq<char>>::empty());
        assert(seq_views(removed@) + Seq::<Seq<char>>::empty() =~= seq_views(removed@));
        assert(seq_views(added@) + Seq::<Seq<char>>::empty() =~= seq_views(added@));
    }
    (removed, added)
}

/// The pattern occurs in `old` as a contiguous run starting at `i`.
pub open spec fn run_matches_at(old: Seq<Seq<char>>, pat: Seq<Seq<char>>, i: int) -> bool {
    &&& 0 <= i
    &&& i + pat.len() <= old.len()
    &&& forall|j: int| 0 <= j < pat.len() ==> old[i + j] == pat[j]
}

/// The first position at or after `i` where the pattern occurs as a
/// contiguous run, or -1 when it occurs nowhere.
pub open spec fn first_match_from(old: Seq<Seq<char>>, pat: Seq<Seq<char>>, i: int) -> int
    decreases old.len() - i,
{
    if i < 0 || i + pat.len() > old.len() {
        -1
    } else if run_matches_at(old, pat, i) {
        i
    } else {
        first_match_from(old, pat, i + 1)
    }
}

/// The line-list fallback: replace the first contiguous occurrence of
/// `removed` in `old` by `added`; when `removed` occurs nowhere, the
/// lines stay unchanged.
pub open spec fn spec_apply_line_edit(
    old: Seq<Seq<char>>,
    removed: Seq<Seq<char>>,
    added: Seq<Seq<char>>,
) -> Seq<Seq<char>> {
    let i = first_match_from(old, removed, 0);
    if i < 0 {
        old
    } else {
        old.subrange(0, i) + added + old.subrange(i + removed.len(), old.len() as int)
    }
}

/// Whether `pat` occurs as a contiguous run of `old` starting at `i`.
fn run_matches_exec(old: &Vec<String>, pat: &Vec<String>, i: usize) -> (r: bool)
    requires
        i + pat@.len() <= old@.len(),
    ensures
        r == run_matches_at(seq_views(old@), seq_views(pat@), i as int),
{
    let n = old.len();
    let m = pat.len();
    let mut j: usize = 0;
    while j < m
        invariant
            n == old@.len(),
            m == pat@.len(),
            i + m <= old@.len(),
            j <= m,
            forall|t: int| 0 <= t < j ==> seq_views(old@)[i + t] == seq_views(pat@)[t],
        decreases m - j,
    {
        if !(old[i + j] == pat[j]) {
            proof {
                assert(seq_views(old@)[i + j] == old@[i + j as int]@);
                assert(seq_views(pat@)[j as int] == pat@[j as int]@);
            }
            return false;
        }
        j += 1;
    }
    true
}

/// The first position where `pat` occurs as a contiguous run of `old`.
fn find_first_match(old: &Vec<String>, pat: &Vec<String>) -> (r: Option<usize>)
    ensures
        match r {
            Some(i) => i as int == first_match_from(seq_views(old@), seq_views(pat@), 0)
                && run_matches_at(seq_views(old@), seq_views(pat@), i as int),
            None => first_match_from(seq_views(old@), seq_views(pat@), 0) == -1,
        },
{
    let ghost ov = seq_views(old@);
    let ghost pv = seq_views(pat@);
    let n = old.len();
    let m = pat.len();
    if m > n {
        return None;
    }
    if m == 0 {
        return Some(0);
    }
    let mut i: usize = 0;
    while i <= n - m
        invariant
            n == old@.len(),
            m == pat@.len(),
            1 <= m <= n,
            ov == seq_views(old@),
            pv == seq_views(pat@),
            i <= n - m + 1,
            first_match_from(ov, pv, 0) == first_match_from(ov, pv, i as int),
        decreases n - i,
    {
        if run_matches_exec(old, pat, i) {
            return Some(i);
        }
        i += 1;
    }
    None
}

/// Apply the line-list fallback; the second component reports whether
/// the removed run was found (when it was not, the lines come back
/// unchanged).
pub fn apply_line_edit(old_lines: &Vec<String>, removed: &Vec<String>, added: &Vec<String>) -> (r:
    (Vec<String>, bool))
    ensures
        seq_views(r.0@) == spec_apply_line_edit(
            seq_views(old_lines@),
            seq_views(removed@),
            seq_views(added@),
        ),
        r.1 == (first_match_from(seq_views(old_lines@), seq_views(removed@), 0) >= 0),
{
    let ghost ov = seq_views(old_lines@);
    let ghost rv = seq_views(removed@);
    let ghost av = seq_views(added@);
    match find_first_match(old_lines, removed) {
        Some(i) => {
            let len = old_lines.len();
            proof {
                assert(i + removed@.len() <= old_lines@.len());
            }
            let mut out: Vec<String> = Vec::new();
            copy_range(old_lines, 0, i, &mut out);
            append_lines(&mut out, added);
            copy_range(old_lines, i + removed.len(), len, &mut out);
            proof {
                assert(seq_views(out@) =~= ov.subrange(0, i as int) + av + ov.subrange(
                    i + removed@.len(),
                    old_lines@.len() as int,
                ));
            }
            (out, true)
        },
        None => {
            let mut out: Vec<String> = Vec::new();
            append_lines(&mut out, old_lines);
            proof {
                assert(seq_views(out@) =~= ov);
            }
            (out, false)
        },
    }
}

/// The lines with their trailing run of empty lines removed.
pub open spec fn drop_blank_tail(ls: Seq<Seq<char>>) -> Seq<Seq<char>>
    decreases ls.len(),
{
    if ls.len() > 0 && ls[ls.len() - 1].len() == 0 {
        drop_blank_tail(ls.take(ls.len() - 1))
    } else {
        ls
    }
}

proof fn lemma_drop_blank_tail(ls: Seq<Seq<char>>)
    ensures
        drop_blank_tail(ls).len() <= ls.len(),
        drop_blank_tail(ls) == ls.take(drop_blank_tail(ls).len() as int),
        drop_blank_tail(ls).len() == 0 || drop_blank_tail(ls).last().len() > 0,
    decreases ls.len(),
{
    if ls.len() > 0 && ls[ls.len() - 1].len() == 0 {
        lemma_drop_blank_tail(ls.take(ls.len() - 1));
        assert(ls.take(ls.len() - 1).take(drop_blank_tail(ls).len() as int) =~= ls.take(
            drop_blank_tail(ls).len() as int,
        ));
    } else {
        assert(ls.take(ls.len() as int) =~= ls);
    }
}

/// The new content of an existing file, synthesized from the block's
/// lines against the old content: hunks are spliced when the block has
/// hunk structure; otherwise the line-list fallback runs. The result
/// keeps the old content's trailing-newline convention: when the old
/// content lacks a final newline, trailing empty replacement lines are
/// dropped, so joining cannot smuggle one in.
pub open spec fn spec_new_content_existing(ls: Seq<Seq<char>>, old: Seq<char>) -> Seq<char> {
    let ol = line_seq(old);
    let hs = spec_scan_hunks(ls, 0);
    let out = if hs.len() > 0 {
        spec_apply_hunks(ol, hs)
    } else {
        spec_apply_line_edit(ol, removed_of(ls), added_of(ls))
    };
    let kept = if ends_with_newline(old) {
        out
    } else {
        drop_blank_tail(out)
    };
    content_of(kept, ends_with_newline(old))
}

/// When a block carries no hunk structure and its removed lines occur
/// nowhere in the old content, synthesis is a deliberate no-op: the new
/// content equals the old content, character for character.
pub proof fn lemma_no_match_keeps_content(ls: Seq<Seq<char>>, old: Seq<char>)
    requires
        spec_scan_hunks(ls, 0).len() == 0,
        first_match_from(line_seq(old), removed_of(ls), 0) == -1,
    ensures
        spec_new_content_existing(ls, old) == old,
{
    let ol = line_seq(old);
    if !ends_with_newline(old) {
        if old.len() > 0 {
            lemma_line_seq_last_nonempty(old);
        }
        assert(drop_blank_tail(ol) == ol);
    }
    lemma_content_line_seq(old);
}

/// Synthesize the new content of an existing file from a block's lines.
/// When the block's lines hold no newline character — true of the lines
/// of any split text — the result ends with a newline exactly when the
/// old content does.
pub fn synthesize_existing_content(lines: &Vec<String>, old_content: &str) -> (r: String)
    ensures
        r@ == spec_new_content_existing(seq_views(lines@), old_content@),
        lines_newline_free(seq_views(lines@)) ==> ends_with_newline(r@) == ends_with_newline(
            old_content@,
        ),
{
    let old_lines = split_lines(old_content);
    let hunks = parse_hunks(lines);
    let mut new_lines: Vec<String>;
    if hunks.len() > 0 {
        new_lines = apply_hunks(&old_lines, &hunks);
    } else {
        let (removed, added) = collect_line_edit(lines);
        let (out, _found) = apply_line_edit(&old_lines, &removed, &added);
        new_lines = out;
    }
    let n = old_content.unicode_len();
    let trailing = n > 0 && old_content.get_char(n - 1) == '\n';
    if !trailing {
        let ghost base = seq_views(new_lines@);
        loop
            invariant
                drop_blank_tail(base) == drop_blank_tail(seq_views(new_lines@)),
            ensures
                drop_blank_tail(base) == seq_views(new_lines@),
            decreases new_lines@.len(),
        {
            let m = new_lines.len();
            if m == 0 {
                break ;
            }
            if new_lines[m - 1].as_str().unicode_len() > 0 {
                proof {
                    assert(seq_views(new_lines@)[m - 1].len() > 0);
                }
                break ;
            }
            let ghost prev = new_lines@;
            new_lines.pop();
            proof {
                assert(seq_views(prev)[prev.len() - 1].len() == 0);
                assert(seq_views(new_lines@) =~= seq_views(prev).take(prev.len() - 1));
            }
        }
    }
    let r = join_text(&new_lines, trailing);
    proof {
        if lines_newline_free(seq_views(lines@)) {
            lemma_trailing_newline_follows_old(seq_views(lines@), old_content@);
        }
    }
    r
}

/// The pattern's first occurrence, when there is one, really is a match
/// inside the old lines.
proof fn lemma_first_match_valid(old: Seq<Seq<char>>, pat: Seq<Seq<char>>, i: int)
    requires
        0 <= i,
    ensures
        first_match_from(old, pat, i) >= 0 ==> run_matches_at(
            old,
            pat,
            first_match_from(old, pat, i),
        ) && first_match_from(old, pat, i) + pat.len() <= old.len(),
    decreases old.len() - i,
{
    if !(i + pat.len() > old.len()) && !run_matches_at(old, pat, i) {
        lemma_first_match_valid(old, pat, i + 1);
    }
}

proof fn lemma_strip_plus_nf(l: Seq<char>)
    requires
        l.len() >= 1,
        !l.contains('\n'),
    ensures
        !strip_plus(l).contains('\n'),
{
    lemma_skip_one_newline_free(l);
    let t = l.skip(1);
    if t.len() > 0 && t[0] == ' ' {
        lemma_skip_one_newline_free(t);
    }
}

proof fn lemma_removed_added_nf(ls: Seq<Seq<char>>)
    requires
        lines_newline_free(ls),
    ensures
        lines_newline_free(removed_of(ls)),
        lines_newline_free(added_of(ls)),
    decreases ls.len(),
{
    if ls.len() > 0 {
        assert(lines_newline_free(ls.skip(1))) by {
            assert(forall|k: int| 0 <= k < ls.skip(1).len() ==> ls.skip(1)[k] == #[trigger] ls[k
                + 1]);
        }
        lemma_removed_added_nf(ls.skip(1));
        if is_removal_line(ls[0]) {
            lemma_skip_one_newline_free(ls[0]);
            let tail = removed_of(ls.skip(1));
            assert forall|k: int| 0 <= k < (seq![ls[0].skip(1)] + tail).len() implies !(
            #[trigger] (seq![ls[0].skip(1)] + tail)[k]).contains('\n') by {
                if k >= 1 {
                    assert((seq![ls[0].skip(1)] + tail)[k] == tail[k - 1]);
                }
            }
        }
        if is_addition_line(ls[0]) {
            lemma_strip_plus_nf(ls[0]);
            let tail = added_of(ls.skip(1));
            assert forall|k: int| 0 <= k < (seq![strip_plus(ls[0])] + tail).len() implies !(
            #[trigger] (seq![strip_plus(ls[0])] + tail)[k]).contains('\n') by {
                if k >= 1 {
                    assert((seq![strip_plus(ls[0])] + tail)[k] == tail[k - 1]);
                }
            }
        }
    }
}

proof fn lemma_line_edit_nf(old: Seq<Seq<char>>, removed: Seq<Seq<char>>, added: Seq<Seq<char>>)
    requires
        lines_newline_free(old),
        lines_newline_free(added),
    ensures
        lines_newline_free(spec_apply_line_edit(old, removed, added)),
{
    let i = first_match_from(old, removed, 0);
    if i >= 0 {
        lemma_first_match_valid(old, removed, 0);
        let pre = old.subrange(0, i);
        let post = old.subrange(i + removed.len(), old.len() as int);
        let r = pre + added + post;
        assert forall|k: int| 0 <= k < r.len() implies !(#[trigger] r[k]).contains('\n') by {
            if k < pre.len() {
                assert(r[k] == old[k]);
            } else if k < pre.len() + added.len() {
                assert(r[k] == added[k - pre.len()]);
            } else {
                assert(r[k] == old[i + removed.len() + k - pre.len() - added.len()]);
            }
        }
    }
}

/// For a block whose lines hold no newline character — as the lines of
/// any split text do — the synthesized content of an existing file ends
/// with a newline exactly when the old content does.
pub proof fn lemma_trailing_newline_follows_old(ls: Seq<Seq<char>>, old: Seq<char>)
    requires
        lines_newline_free(ls),
    ensures
        ends_with_newline(spec_new_content_existing(ls, old)) == ends_with_newline(old),
{
    let ol = line_seq(old);
    lemma_line_seq_newline_free(old);
    let hs = spec_scan_hunks(ls, 0);
    let out = if hs.len() > 0 {
        spec_apply_hunks(ol, hs)
    } else {
        spec_apply_line_edit(ol, removed_of(ls), added_of(ls))
    };
    if hs.len() > 0 {
        lemma_scan_hunks_nf(ls, 0);
        lemma_apply_hunks_nf(ol, hs, 0);
    } else {
        lemma_removed_added_nf(ls);
        lemma_line_edit_nf(ol, removed_of(ls), added_of(ls));
    }
    if ends_with_newline(old) {
        assert(ends_with_newline(content_of(out, true)));
    } else {
        let kept = drop_blank_tail(out);
        lemma_drop_blank_tail(out);
        assert(lines_newline_free(kept)) by {
            assert(forall|k: int| 0 <= k < kept.len() ==> kept[k] == #[trigger] out[k]);
        }
        if kept.len() == 0 {
            assert(content_of(kept, false).len() == 0);
        } else {
            lemma_join_last_char(kept);
        }
    }
}

} // verus!
