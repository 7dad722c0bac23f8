//! The renderer: a human-auditable preview of a `FileDiff`. The preview
//! is always recomputed as a fresh line-level diff between the old and
//! the new content — never echoed from the model's own hunk text — so it
//! reflects the true resulting change. The line-level diff itself comes
//! from the `similar` crate behind one trusted wrapper; everything built
//! on top of its rows is verified.

use vstd::prelude::*;
use vstd::string::*;

use crate::diff::FileDiff;
use crate::hunks::clamp_usize;
use crate::text::{dec_str, line_seq, push_char, seq_views, split_lines, usize_to_string};

verus! {

/// One row of a recomputed line diff.
pub enum DiffRow {
    /// The line is present in both the old and the new content.
    Equal(String),
    /// The line is present only in the old content.
    Delete(String),
    /// The line is present only in the new content.
    Insert(String),
}

/// The old-side projection of a row sequence: the lines of the Equal and
/// Delete rows, in order.
pub open spec fn rows_old_side(rows: Seq<DiffRow>) -> Seq<Seq<char>>
    decreases rows.len(),
{
    if rows.len() == 0 {
        Seq::empty()
    } else {
        match rows[0] {
            DiffRow::Equal(s) => seq![s@] + rows_old_side(rows.skip(1)),
            DiffRow::Delete(s) => seq![s@] + rows_old_side(rows.skip(1)),
            DiffRow::Insert(_) => rows_old_side(rows.skip(1)),
        }
    }
}

/// The new-side projection of a row sequence: the lines of the Equal and
/// Insert rows, in order.
pub open spec fn rows_new_side(rows: Seq<DiffRow>) -> Seq<Seq<char>>
    decreases rows.len(),
{
    if rows.len() == 0 {
        Seq::empty()
    } else {
        match rows[0] {
            DiffRow::Equal(s) => seq![s@] + rows_new_side(rows.skip(1)),
            DiffRow::Insert(s) => seq![s@] + rows_new_side(rows.skip(1)),
            DiffRow::Delete(_) => rows_new_side(rows.skip(1)),
        }
    }
}

/// Relies on similar's TextDiff::from_slices and iter_all_changes: a
/// diff's changes, iterated in order, carry every old token once on the
/// Equal and Delete rows and every new token once on the Equal and
/// Insert rows, in their original order.
#[verifier::external_body]
pub fn diff_rows(old_lines: &Vec<String>, new_lines: &Vec<String>) -> (r: Vec<DiffRow>)
    ensures
        rows_old_side(r@) == seq_views(old_lines@),
        rows_new_side(r@) == seq_views(new_lines@),
{
    let old: Vec<&str> = old_lines.iter().map(|s| s.as_str()).collect();
    let new: Vec<&str> = new_lines.iter().map(|s| s.as_str()).collect();
    let diff = similar::TextDiff::from_slices(&old, &new);
    let mut rows: Vec<DiffRow> = Vec::new();
    for change in diff.iter_all_changes() {
        let text = change.value().to_string();
        match change.tag() {
            similar::ChangeTag::Equal => rows.push(DiffRow::Equal(text)),
            similar::ChangeTag::Delete => rows.push(DiffRow::Delete(text)),
            similar::ChangeTag::Insert => rows.push(DiffRow::Insert(text)),
        }
    }
    rows
}

/// What a preview line is, for presentation purposes: the application
/// may color each kind differently.
#[derive(Clone, Copy, PartialEq, Eq, Structural, Debug)]
pub enum RenderKind {
    /// A `--- `/`+++ ` file header line.
    FileHeader,
    /// A `@@ -a,c +b,d @@` hunk header line.
    HunkHeader,
    /// An unchanged line, prefixed with a space.
    Context,
    /// An added line, prefixed with `+`.
    Added,
    /// A removed line, prefixed with `-`.
    Removed,
}

/// One display line of a preview.
pub struct RenderLine {
    pub kind: RenderKind,
    pub text: String,
}

/// The mathematical model of a preview line.
pub ghost struct GRender {
    pub kind: RenderKind,
    pub text: Seq<char>,
}

impl View for RenderLine {
    type V = GRender;

    open spec fn view(&self) -> GRender {
        GRender { kind: self.kind, text: self.text@ }
    }
}

pub open spec fn render_views(s: Seq<RenderLine>) -> Seq<GRender> {
    Seq::new(s.len(), |i: int| s[i]@)
}

pub proof fn lemma_render_views_push(s: Seq<RenderLine>, x: RenderLine)
    ensures
        render_views(s.push(x)) =~= render_views(s) + seq![x@],
{
}

/// The display form of one diff row: its line behind the usual one
/// character prefix.
pub open spec fn grender_of(row: DiffRow) -> GRender {
    match row {
        DiffRow::Equal(s) => GRender { kind: RenderKind::Context, text: seq![' '] + s@ },
        DiffRow::Delete(s) => GRender { kind: RenderKind::Removed, text: seq!['-'] + s@ },
        DiffRow::Insert(s) => GRender { kind: RenderKind::Added, text: seq!['+'] + s@ },
    }
}

/// The display rows for `rows[i..e]`, in order.
pub open spec fn prefixed_rows(rows: Seq<DiffRow>, i: int, e: int) -> Seq<GRender>
    decreases e - i,
{
    if i < 0 || i >= e || i >= rows.len() {
        Seq::empty()
    } else {
        seq![grender_of(rows[i])] + prefixed_rows(rows, i + 1, e)
    }
}

/// The first row at or after `i` that is not an Equal row.
pub open spec fn equal_run_end(rows: Seq<DiffRow>, i: int) -> int
    decreases rows.len() - i,
{
    if i < 0 || i >= rows.len() {
        i
    } else if rows[i] is Equal {
        equal_run_end(rows, i + 1)
    } else {
        i
    }
}

/// The first row at or after `i` that is an Equal row.
pub open spec fn change_run_end(rows: Seq<DiffRow>, i: int) -> int
    decreases rows.len() - i,
{
    if i < 0 || i >= rows.len() {
        i
    } else if rows[i] is Equal {
        i
    } else {
        change_run_end(rows, i + 1)
    }
}

/// How many rows of `rows[i..e]` are Delete rows.
pub open spec fn count_deletes(rows: Seq<DiffRow>, i: int, e: int) -> int
    decreases e - i,
{
    if i < 0 || i >= e || i >= rows.len() {
        0
    } else {
        (if rows[i] is Delete {
            1int
        } else {
            0int
        }) + count_deletes(rows, i + 1, e)
    }
}

/// How many rows of `rows[i..e]` are Insert rows.
pub open spec fn count_inserts(rows: Seq<DiffRow>, i: int, e: int) -> int
    decreases e - i,
{
    if i < 0 || i >= e || i >= rows.len() {
        0
    } else {
        (if rows[i] is Insert {
            1int
        } else {
            0int
        }) + count_inserts(rows, i + 1, e)
    }
}

/// The text of a `@@ -a,c +b,d @@` hunk header.
pub open spec fn hunk_header_text(a: int, c: int, b: int, d: int) -> Seq<char> {
    "@@ -"@ + dec_str(a) + ","@ + dec_str(c) + " +"@ + dec_str(b) + ","@ + dec_str(d) + " @@"@
}

pub open spec fn hunk_header_row(a: int, c: int, b: int, d: int) -> GRender {
    GRender { kind: RenderKind::HunkHeader, text: hunk_header_text(a, c, b, d) }
}

/// The display rows of a recomputed diff, scanning from row `i` with the
/// given 1-based line positions: each maximal run of context rows, and
/// each maximal run of changed rows, becomes one hunk under a header
/// carrying the positions and the run's old- and new-side line counts.
pub open spec fn spec_render_from(rows: Seq<DiffRow>, i: int, old_ln: int, new_ln: int) -> Seq<
    GRender,
>
    decreases rows.len() - i,
{
    if i < 0 || i >= rows.len() {
        Seq::empty()
    } else if rows[i] is Equal {
        let e0 = equal_run_end(rows, i + 1);
        let e = if e0 < i + 1 {
            i + 1
        } else if e0 > rows.len() {
            rows.len() as int
        } else {
            e0
        };
        let c = e - i;
        seq![hunk_header_row(old_ln, c, new_ln, c)] + prefixed_rows(rows, i, e)
            + spec_render_from(rows, e, clamp_usize(old_ln + c), clamp_usize(new_ln + c))
    } else {
        let e0 = change_run_end(rows, i + 1);
        let e = if e0 < i + 1 {
            i + 1
        } else if e0 > rows.len() {
            rows.len() as int
        } else {
            e0
        };
        let d = count_deletes(rows, i, e);
        let a = count_inserts(rows, i, e);
        seq![hunk_header_row(old_ln, d, new_ln, a)] + prefixed_rows(rows, i, e)
            + spec_render_from(rows, e, clamp_usize(old_ln + d), clamp_usize(new_ln + a))
    }
}

/// The preview of an existing file's change: the two file header lines,
/// then the display rows of the recomputed diff.
pub open spec fn spec_preview_existing(path: Seq<char>, rows: Seq<DiffRow>) -> Seq<GRender> {
    seq![
        GRender { kind: RenderKind::FileHeader, text: "--- "@ + path },
        GRender { kind: RenderKind::FileHeader, text: "+++ "@ + path },
    ] + spec_render_from(rows, 0, 1, 1)
}

/// The display rows of a new file's lines: every line added.
pub open spec fn added_rows(ls: Seq<Seq<char>>) -> Seq<GRender>
    decreases ls.len(),
{
    if ls.len() == 0 {
        Seq::empty()
    } else {
        seq![GRender { kind: RenderKind::Added, text: seq!['+'] + ls[0] }] + added_rows(ls.skip(1))
    }
}

/// The preview of a new file: the sentinel header, the path, one hunk
/// header for the whole file, and every line added.
pub open spec fn spec_preview_new(path: Seq<char>, new_content: Seq<char>) -> Seq<GRender> {
    let ls = line_seq(new_content);
    seq![
        GRender { kind: RenderKind::FileHeader, text: "--- /dev/null"@ },
        GRender { kind: RenderKind::FileHeader, text: "+++ "@ + path },
        GRender {
            kind: RenderKind::HunkHeader,
            text: "@@ -0,0 +1,"@ + dec_str(ls.len() as int) + " @@"@,
        },
    ] + added_rows(ls)
}

/// The preview's display text: each row's line, newline-terminated.
pub open spec fn render_text(rs: Seq<GRender>) -> Seq<char>
    decreases rs.len(),
{
    if rs.len() == 0 {
        Seq::empty()
    } else {
        rs[0].text.push('\n') + render_text(rs.skip(1))
    }
}

/// Prefix a line with a marker character.
fn prefix_line(c: char, s: &str) -> (r: String)
    ensures
        r@ == seq![c] + s@,
{
    let mut t = String::new();
    push_char(&mut t, c);
    t.append(s);
    proof {
        assert(t@ =~= seq![c] + s@);
    }
    t
}

/// Build the text of a `@@ -a,c +b,d @@` hunk header.
fn hunk_header_exec(a: usize, c: usize, b: usize, d: usize) -> (r: String)
    ensures
        r@ == hunk_header_text(a as int, c as int, b as int, d as int),
{
    let mut s: String = "@@ -".to_owned();
    let sa = usize_to_string(a);
    s.append(sa.as_str());
    s.append(",");
    let sc = usize_to_string(c);
    s.append(sc.as_str());
    s.append(" +");
    let sb = usize_to_string(b);
    s.append(sb.as_str());
    s.append(",");
    let sd = usize_to_string(d);
    s.append(sd.as_str());
    s.append(" @@");
    proof {
        assert(s@ =~= hunk_header_text(a as int, c as int, b as int, d as int));
    }
    s
}

/// Exec mirror of `equal_run_end` and `change_run_end`: the end of the
/// run starting at `i`, where `want_equal` says which kind of run.
fn run_end_exec(rows: &Vec<DiffRow>, i: usize, want_equal: bool) -> (r: usize)
    requires
        i <= rows@.len(),
    ensures
        want_equal ==> r as int == equal_run_end(rows@, i as int),
        !want_equal ==> r as int == change_run_end(rows@, i as int),
        i <= r <= rows@.len(),
{
    let n = rows.len();
    let mut j: usize = i;
    while j < n
        invariant
            n == rows@.len(),
            i <= j <= n,
            want_equal ==> equal_run_end(rows@, i as int) == equal_run_end(rows@, j as int),
            !want_equal ==> change_run_end(rows@, i as int) == change_run_end(rows@, j as int),
        decreases n - j,
    {
        let is_eq = match &rows[j] {
            DiffRow::Equal(_) => true,
            _ => false,
        };
        if is_eq != want_equal {
            return j;
        }
        j += 1;
    }
    j
}

/// Count the Delete and Insert rows of `rows[i..e]`.
fn count_changes_exec(rows: &Vec<DiffRow>, i: usize, e: usize) -> (r: (usize, usize))
    requires
        i <= e <= rows@.len(),
    ensures
        r.0 as int == count_deletes(rows@, i as int, e as int),
        r.1 as int == count_inserts(rows@, i as int, e as int),
{
    let mut dels: usize = 0;
    let mut ins: usize = 0;
    let mut j: usize = i;
    while j < e
        invariant
            i <= j <= e <= rows@.len(),
            dels <= j - i,
            ins <= j - i,
            count_deletes(rows@, i as int, e as int) == dels + count_deletes(
                rows@,
                j as int,
                e as int,
            ),
            count_inserts(rows@, i as int, e as int) == ins + count_inserts(
                rows@,
                j as int,
                e as int,
            ),
        decreases e - j,
    {
        match &rows[j] {
            DiffRow::Delete(_) => {
                dels += 1;
            },
            DiffRow::Insert(_) => {
                ins += 1;
            },
            DiffRow::Equal(_) => {},
        }
        j += 1;
    }
    (dels, ins)
}

/// Append the display rows for `rows[i..e]`.
fn append_prefixed(out: &mut Vec<RenderLine>, rows: &Vec<DiffRow>, i: usize, e: usize)
    requires
        i <= e <= rows@.len(),
    ensures
        render_views(final(out)@) == render_views(old(out)@) + prefixed_rows(
            rows@,
            i as int,
            e as int,
        ),
{
    let ghost base = render_views(out@);
    let mut j: usize = i;
    proof {
        assert(base + prefixed_rows(rows@, i as int, i as int) =~= base);
    }
    while j < e
        invariant
            i <= j <= e <= rows@.len(),
            base == render_views(old(out)@),
            render_views(out@) + prefixed_rows(rows@, j as int, e as int) == base + prefixed_rows(
                rows@,
                i as int,
                e as int,
            ),
        decreases e - j,
    {
        let line: RenderLine = match &rows[j] {
            DiffRow::Equal(s) => RenderLine { kind: RenderKind::Context, text: prefix_line(' ', s.as_str()) },
            DiffRow::Delete(s) => RenderLine { kind: RenderKind::Removed, text: prefix_line('-', s.as_str()) },
            DiffRow::Insert(s) => RenderLine { kind: RenderKind::Added, text: prefix_line('+', s.as_str()) },
        };
        let ghost prev = out@;
        out.push(line);
        proof {
            lemma_render_views_push(prev, out@[prev.len() as int]);
            assert(out@[prev.len() as int]@ == grender_of(rows@[j as int]));
            assert(prefixed_rows(rows@, j as int, e as int) =~= seq![grender_of(rows@[j as int])]
                + prefixed_rows(rows@, j + 1, e as int));
            assert((render_views(prev) + seq![grender_of(rows@[j as int])]) + prefixed_rows(
                rows@,
                j + 1,
                e as int,
            ) =~= render_views(prev) + (seq![grender_of(rows@[j as int])] + prefixed_rows(
                rows@,
                j + 1,
                e as int,
            )));
        }
        j += 1;
    }
    proof {
        assert(prefixed_rows(rows@, e as int, e as int) =~= Seq::<GRender>::empty());
        assert(render_views(out@) + Seq::<GRender>::empty() =~= render_views(out@));
    }
}

/// Saturating addition on line counters.
fn sat_add(a: usize, b: usize) -> (r: usize)
    ensures
        r as int == clamp_usize(a + b),
{
    if b > usize::MAX - a {
        usize::MAX
    } else {
        a + b
    }
}

/// Render the preview of an existing file's change from its recomputed
/// diff rows: the file headers, then one hunk per maximal run of
/// context or changed rows, with accurate line positions.
pub fn render_preview(path: &str, rows: &Vec<DiffRow>) -> (r: Vec<RenderLine>)
    ensures
        render_views(r@) == spec_preview_existing(path@, rows@),
{
    let mut out: Vec<RenderLine> = Vec::new();
    out.push(RenderLine { kind: RenderKind::FileHeader, text: prefix_header("--- ", path) });
    out.push(RenderLine { kind: RenderKind::FileHeader, text: prefix_header("+++ ", path) });
    let ghost two = render_views(out@);
    proof {
        assert(two =~= seq![
            GRender { kind: RenderKind::FileHeader, text: "--- "@ + path@ },
            GRender { kind: RenderKind::FileHeader, text: "+++ "@ + path@ },
        ]);
        assert(two + spec_render_from(rows@, 0, 1, 1) =~= spec_preview_existing(path@, rows@));
    }
    let n = rows.len();
    let mut i: usize = 0;
    let mut old_ln: usize = 1;
    let mut new_ln: usize = 1;
    while i < n
        invariant
            n == rows@.len(),
            i <= n,
            spec_preview_existing(path@, rows@) == render_views(out@) + spec_render_from(
                rows@,
                i as int,
                old_ln as int,
                new_ln as int,
            ),
        decreases n - i,
    {
        let is_eq = match &rows[i] {
            DiffRow::Equal(_) => true,
            _ => false,
        };
        let e = run_end_exec(rows, i + 1, is_eq);
        let d: usize;
        let a: usize;
        if is_eq {
            d = e - i;
            a = e - i;
        } else {
            let (dd, aa) = count_changes_exec(rows, i, e);
            d = dd;
            a = aa;
        }
        let header = hunk_header_exec(old_ln, d, new_ln, a);
        let ghost prev = out@;
        out.push(RenderLine { kind: RenderKind::HunkHeader, text: header });
        proof {
            lemma_render_views_push(prev, out@[prev.len() as int]);
        }
        append_prefixed(&mut out, rows, i, e);
        proof {
            assert(render_views(out@) =~= render_views(prev) + seq![
                hunk_header_row(old_ln as int, d as int, new_ln as int, a as int),
            ] + prefixed_rows(rows@, i as int, e as int));
            assert(render_views(prev) + (seq![
                hunk_header_row(old_ln as int, d as int, new_ln as int, a as int),
            ] + prefixed_rows(rows@, i as int, e as int) + spec_render_from(
                rows@,
                e as int,
                clamp_usize(old_ln + d),
                clamp_usize(new_ln + a),
            )) =~= (render_views(prev) + seq![
                hunk_header_row(old_ln as int, d as int, new_ln as int, a as int),
            ] + prefixed_rows(rows@, i as int, e as int)) + spec_render_from(
                rows@,
                e as int,
                clamp_usize(old_ln + d),
                clamp_usize(new_ln + a),
            ));
        }
        old_ln = sat_add(old_ln, d);
        new_ln = sat_add(new_ln, a);
        i = e;
    }
    proof {
        assert(spec_render_from(rows@, n as int, old_ln as int, new_ln as int) =~= Seq::<
            GRender,
        >::empty());
        assert(render_views(out@) + Seq::<GRender>::empty() =~= render_views(out@));
    }
    out
}

/// A file header line: the marker followed by the path.
fn prefix_header(marker: &str, path: &str) -> (r: String)
    ensures
        r@ == marker@ + path@,
{
    let mut s: String = marker.to_owned();
    s.append(path);
    s
}

/// Render the preview of a new file: the sentinel header, the path, one
/// hunk header for the whole file, and every line added.
pub fn render_new_file_preview(path: &str, new_content: &str) -> (r: Vec<RenderLine>)
    ensures
        render_views(r@) == spec_preview_new(path@, new_content@),
{
    let lines = split_lines(new_content);
    let ghost ls = line_seq(new_content@);
    let mut out: Vec<RenderLine> = Vec::new();
    out.push(RenderLine { kind: RenderKind::FileHeader, text: "--- /dev/null".to_owned() });
    out.push(RenderLine { kind: RenderKind::FileHeader, text: prefix_header("+++ ", path) });
    let count = lines.len();
    let mut header: String = "@@ -0,0 +1,".to_owned();
    let sc = usize_to_string(count);
    header.append(sc.as_str());
    header.append(" @@");
    out.push(RenderLine { kind: RenderKind::HunkHeader, text: header });
    let ghost three = render_views(out@);
    proof {
        assert(three =~= seq![
            GRender { kind: RenderKind::FileHeader, text: "--- /dev/null"@ },
            GRender { kind: RenderKind::FileHeader, text: "+++ "@ + path@ },
            GRender {
                kind: RenderKind::HunkHeader,
                text: "@@ -0,0 +1,"@ + dec_str(ls.len() as int) + " @@"@,
            },
        ]);
        assert(three + added_rows(ls) =~= spec_preview_new(path@, new_content@));
        assert(seq_views(lines@).skip(0) =~= seq_views(lines@));
    }
    let n = lines.len();
    let mut i: usize = 0;
    while i < n
        invariant
            n == lines@.len(),
            ls == seq_views(lines@),
            i <= n,
            spec_preview_new(path@, new_content@) == render_views(out@) + added_rows(
                ls.skip(i as int),
            ),
        decreases n - i,
    {
        let t = prefix_line('+', lines[i].as_str());
        let ghost prev = out@;
        out.push(RenderLine { kind: RenderKind::Added, text: t });
        proof {
            lemma_render_views_push(prev, out@[prev.len() as int]);
            assert(ls.skip(i as int)[0] == ls[i as int]);
            assert(ls.skip(i as int).skip(1) =~= ls.skip(i + 1));
            assert((render_views(prev) + seq![
                GRender { kind: RenderKind::Added, text: seq!['+'] + ls[i as int] },
            ]) + added_rows(ls.skip(i + 1)) =~= render_views(prev) + (seq![
                GRender { kind: RenderKind::Added, text: seq!['+'] + ls[i as int] },
            ] + added_rows(ls.skip(i + 1))));
        }
        i += 1;
    }
    proof {
        assert(added_rows(ls.skip(n as int)) =~= Seq::<GRender>::empty());
        assert(render_views(out@) + Seq::<GRender>::empty() =~= render_views(out@));
    }
    out
}

impl FileDiff {
    /// The preview of this edit, row by row: computed afresh from the
    /// old and new content for an existing file; all-insert for a new
    /// file.
    pub fn preview_rows(&self) -> (r: Vec<RenderLine>)
        ensures
            self.is_new_file ==> render_views(r@) == spec_preview_new(self@.path, self@.new),
            !self.is_new_file ==> exists|rows: Seq<DiffRow>|
                #[trigger] rows_old_side(rows) == line_seq(self@.old) && rows_new_side(rows)
                    == line_seq(self@.new) && render_views(r@) == spec_preview_existing(
                    self@.path,
                    rows,
                ),
    {
        if self.is_new_file {
            render_new_file_preview(self.file_path.as_str(), self.new_content.as_str())
        } else {
            let old_lines = split_lines(self.old_content.as_str());
            let new_lines = split_lines(self.new_content.as_str());
            let rows = diff_rows(&old_lines, &new_lines);
            let out = render_preview(self.file_path.as_str(), &rows);
            proof {
                assert(rows_old_side(rows@) == line_seq(self@.old));
            }
            out
        }
    }

    /// The preview of this edit as one display string, each row's line
    /// newline-terminated.
    pub fn display_string(&self) -> (r: String)
        ensures
            self.is_new_file ==> r@ == render_text(spec_preview_new(self@.path, self@.new)),
            !self.is_new_file ==> exists|rows: Seq<DiffRow>|
                #[trigger] rows_old_side(rows) == line_seq(self@.old) && rows_new_side(rows)
                    == line_seq(self@.new) && r@ == render_text(
                    spec_preview_existing(self@.path, rows),
                ),
    {
        let rows = self.preview_rows();
        let ghost rv = render_views(rows@);
        let n = rows.len();
        let mut acc = String::new();
        let mut i: usize = 0;
        proof {
            assert(rv.skip(0) =~= rv);
            assert(acc@ + render_text(rv) =~= render_text(rv));
        }
        while i < n
            invariant
                n == rows@.len(),
                rv == render_views(rows@),
                i <= n,
                render_text(rv) == acc@ + render_text(rv.skip(i as int)),
            decreases n - i,
        {
            let ghost a0 = acc@;
            acc.append(rows[i].text.as_str());
            push_char(&mut acc, '\n');
            proof {
                assert(rv.skip(i as int)[0] == rv[i as int]);
                assert(rv.skip(i as int).skip(1) =~= rv.skip(i + 1));
                assert(acc@ =~= a0 + rv[i as int].text.push('\n'));
                assert((a0 + rv[i as int].text.push('\n')) + render_text(rv.skip(i + 1)) =~= a0 + (
                rv[i as int].text.push('\n') + render_text(rv.skip(i + 1))));
            }
            i += 1;
        }
        proof {
            assert(render_text(rv.skip(n as int)) =~= Seq::<char>::empty());
            assert(acc@ + Seq::<char>::empty() =~= acc@);
        }
        acc
    }
}

/// What the engine can do with an accepted edit; the application
/// performs the write itself, after showing the preview.
pub trait DiffAction {
    /// A human-auditable preview of the change.
    fn display_diff(&self) -> String;
}

impl DiffAction for FileDiff {
    fn display_diff(&self) -> (r: String)
        ensures
            self.is_new_file ==> r@ == render_text(spec_preview_new(self@.path, self@.new)),
            !self.is_new_file ==> exists|rows: Seq<DiffRow>|
                #[trigger] rows_old_side(rows) == line_seq(self@.old) && rows_new_side(rows)
                    == line_seq(self@.new) && r@ == render_text(
                    spec_preview_existing(self@.path, rows),
                ),
    {
        self.display_string()
    }
}

} // verus!
