//! The diff engine's entry points: parsing one candidate block into a
//! `FileDiff` against a snapshot of the files that exist, and extracting
//! every diff from a whole response. The engine never touches the file
//! system: the surrounding application hands it a `DirView` of the
//! files it consulted and receives `FileDiff` values back.

use vstd::prelude::*;
use vstd::string::*;

use crate::classify::{classify_lines, spec_is_edit};
use crate::extract::{
    block_views, extract_candidate_blocks, spec_candidate_blocks, GBlock,
};
use crate::path::{
    basename, basename_of, block_has_devnull, resolve_target_path, spec_has_devnull,
    spec_resolve_path,
};
use crate::synth::{
    lemma_new_file_content_shape, new_file_content, spec_new_content_existing,
    synthesize_existing_content, synthesize_new_content,
};
use crate::text::{
    ends_with_newline, lemma_line_seq_newline_free, line_seq, lines_newline_free, seq_views,
    split_lines,
};

verus! {

/// The error conditions of the engine: a block with no content or no
/// derivable path, and an existing file that could not be read.
#[derive(Debug)]
pub enum DiffError {
    InvalidFormat(String),
    FileNotFound(String),
}

impl DiffError {
    /// A human-readable description of the error.
    pub fn message<'a>(&'a self) -> (r: &'a String)
        ensures
            match self {
                DiffError::InvalidFormat(m) => r == m,
                DiffError::FileNotFound(m) => r == m,
            },
    {
        match self {
            DiffError::InvalidFormat(m) => m,
            DiffError::FileNotFound(m) => m,
        }
    }
}

/// One applicable edit: the sanitized target path, a snapshot of the
/// file's content at parse time (empty for a new file), the synthesized
/// replacement content, and whether the target is a new file.
pub struct FileDiff {
    pub file_path: String,
    pub old_content: String,
    pub new_content: String,
    pub is_new_file: bool,
}

/// The mathematical model of a `FileDiff`.
pub ghost struct GFileDiff {
    pub path: Seq<char>,
    pub old: Seq<char>,
    pub new: Seq<char>,
    pub is_new: bool,
}

impl View for FileDiff {
    type V = GFileDiff;

    open spec fn view(&self) -> GFileDiff {
        GFileDiff {
            path: self.file_path@,
            old: self.old_content@,
            new: self.new_content@,
            is_new: self.is_new_file,
        }
    }
}

impl FileDiff {
    /// The sanitized path the edit applies to.
    pub fn get_file_path<'a>(&'a self) -> (r: &'a String)
        ensures
            r@ == self@.path,
    {
        &self.file_path
    }
}

pub open spec fn fd_views(s: Seq<FileDiff>) -> Seq<GFileDiff> {
    Seq::new(s.len(), |i: int| s[i]@)
}

pub proof fn lemma_fd_views_push(s: Seq<FileDiff>, x: FileDiff)
    ensures
        fd_views(s.push(x)) =~= fd_views(s) + seq![x@],
{
}

/// A snapshot of the files the application consulted: for each path, the
/// file's content, or `None` when the file exists but could not be read.
/// A path that is absent from the snapshot does not exist. Paths are
/// unique.
pub struct DirView {
    pub entries: Vec<(String, Option<String>)>,
}

impl DirView {
    /// No path occurs twice.
    pub open spec fn wf(&self) -> bool {
        forall|i: int, j: int|
            0 <= i < j < self.entries@.len() ==> self.entries@[i].0@ != self.entries@[j].0@
    }

    /// What the snapshot holds at `path`: `None` when no such file
    /// exists, `Some(None)` when it exists but is unreadable,
    /// `Some(Some(c))` for its content.
    pub open spec fn spec_lookup(&self, path: Seq<char>) -> Option<Option<Seq<char>>> {
        if exists|i: int|
            0 <= i < self.entries@.len() && (#[trigger] self.entries@[i]).0@ == path {
            let i = choose|i: int|
                0 <= i < self.entries@.len() && (#[trigger] self.entries@[i]).0@ == path;
            match self.entries@[i].1 {
                Some(c) => Some(Some(c@)),
                None => Some(None),
            }
        } else {
            None
        }
    }

    /// An empty snapshot: no file exists.
    pub fn new() -> (r: DirView)
        ensures
            r.entries@.len() == 0,
            r.wf(),
    {
        DirView { entries: Vec::new() }
    }

    /// Record that the file at `path` exists with the given content
    /// (`None`: it exists but cannot be read).
    pub fn push_entry(&mut self, path: String, content: Option<String>)
        ensures
            final(self).entries@ == old(self).entries@.push((path, content)),
    {
        self.entries.push((path, content));
    }

    /// Look a path up in the snapshot.
    pub fn lookup(&self, path: &str) -> (r: Option<Option<String>>)
        requires
            self.wf(),
        ensures
            match r {
                Some(Some(c)) => self.spec_lookup(path@) == Some(Some(c@)),
                Some(None) => self.spec_lookup(path@) == Some(None::<Seq<char>>),
                None => self.spec_lookup(path@) is None,
            },
    {
        let m: String = path.to_owned();
        let n = self.entries.len();
        let mut k: usize = 0;
        while k < n
            invariant
                m@ == path@,
                n == self.entries@.len(),
                k <= n,
                self.wf(),
                forall|i: int| 0 <= i < k ==> (#[trigger] self.entries@[i]).0@ != path@,
            decreases n - k,
        {
            if self.entries[k].0 == m {
                match &self.entries[k].1 {
                    Some(c) => {
                        return Some(Some(c.clone()));
                    },
                    None => {
                        return Some(None);
                    },
                }
            }
            k += 1;
        }
        None
    }
}

/// The outcome of parsing one block.
pub ghost enum GParse {
    /// The block has no content or no derivable path; it is skipped.
    Invalid,
    /// The block names an existing file whose content is not available.
    Missing,
    /// The block parsed into an applicable edit.
    Parsed(GFileDiff),
}

/// Parse one block's lines against a snapshot: derive and sanitize the
/// target path; decide whether the target is a new file (the sentinel
/// says so, or neither the path nor its bare name exists); take the old
/// content from the snapshot; synthesize the new content.
pub open spec fn spec_parse_lines(ls: Seq<Seq<char>>, dir: DirView) -> GParse {
    if ls.len() == 0 {
        GParse::Invalid
    } else {
        match spec_resolve_path(ls) {
            None => GParse::Invalid,
            Some(path) => {
                let c1 = dir.spec_lookup(path);
                let c2 = dir.spec_lookup(basename(path));
                let is_new = spec_has_devnull(ls) || (c1 is None && c2 is None);
                if is_new {
                    GParse::Parsed(
                        GFileDiff {
                            path,
                            old: Seq::empty(),
                            new: new_file_content(ls),
                            is_new: true,
                        },
                    )
                } else {
                    match c1 {
                        Some(Some(old)) => GParse::Parsed(
                            GFileDiff {
                                path,
                                old,
                                new: spec_new_content_existing(ls, old),
                                is_new: false,
                            },
                        ),
                        _ => match c2 {
                            Some(Some(old)) => GParse::Parsed(
                                GFileDiff {
                                    path,
                                    old,
                                    new: spec_new_content_existing(ls, old),
                                    is_new: false,
                                },
                            ),
                            _ => GParse::Missing,
                        },
                    }
                }
            },
        }
    }
}

/// Parse a whole block text: its lines, parsed against the snapshot.
pub open spec fn spec_parse_diff(text: Seq<char>, dir: DirView) -> GParse {
    spec_parse_lines(line_seq(text), dir)
}

/// The diffs of a response: each candidate block that classifies as an
/// edit and parses into a `FileDiff`, in order; blocks that fail are
/// skipped.
pub open spec fn spec_extract_diffs(bs: Seq<GBlock>, dir: DirView) -> Seq<GFileDiff>
    decreases bs.len(),
{
    if bs.len() == 0 {
        Seq::empty()
    } else {
        let rest = spec_extract_diffs(bs.skip(1), dir);
        if spec_is_edit(bs[0].lines, bs[0].diff_tagged) {
            match spec_parse_lines(bs[0].lines, dir) {
                GParse::Parsed(fd) => seq![fd] + rest,
                _ => rest,
            }
        } else {
            rest
        }
    }
}

/// The diff engine: detection, parsing and synthesis of edits from
/// free-form text.
pub struct DiffGenerator {}

impl DiffGenerator {
    pub fn new() -> (r: DiffGenerator) {
        DiffGenerator {  }
    }

    /// Whether a raw block of text looks like a diff: the classifier on
    /// its lines, with no fence tag.
    pub fn is_likely_diff(&self, text: &str) -> (r: bool)
        ensures
            r == spec_is_edit(line_seq(text@), false),
    {
        let lines = split_lines(text);
        classify_lines(&lines, false)
    }

    /// Parse one block's lines against a snapshot.
    fn parse_block_lines(&self, lines: &Vec<String>, dir: &DirView) -> (r: Result<
        FileDiff,
        DiffError,
    >)
        requires
            dir.wf(),
        ensures
            match r {
                Ok(fd) => spec_parse_lines(seq_views(lines@), *dir) == GParse::Parsed(fd@) && (
                fd.is_new_file ==> fd@.old == Seq::<char>::empty() && (fd@.new.len() == 0
                    || ends_with_newline(fd@.new))) && (!fd.is_new_file && lines_newline_free(
                    seq_views(lines@),
                ) ==> ends_with_newline(fd@.new) == ends_with_newline(fd@.old)),
                Err(e) => match e {
                    DiffError::InvalidFormat(_) => spec_parse_lines(seq_views(lines@), *dir)
                        is Invalid,
                    DiffError::FileNotFound(_) => spec_parse_lines(seq_views(lines@), *dir)
                        is Missing,
                },
            },
    {
        if lines.len() == 0 {
            return Err(DiffError::InvalidFormat("the block is empty".to_owned()));
        }
        let path = match resolve_target_path(lines) {
            Some(p) => p,
            None => {
                return Err(
                    DiffError::InvalidFormat("no target path could be derived".to_owned()),
                );
            },
        };
        let devnull = block_has_devnull(lines);
        let c1 = dir.lookup(path.as_str());
        let base = basename_of(path.as_str());
        let c2 = dir.lookup(base.as_str());
        let is_new = devnull || (c1.is_none() && c2.is_none());
        if is_new {
            let new_content = synthesize_new_content(lines);
            proof {
                lemma_new_file_content_shape(seq_views(lines@));
            }
            return Ok(
                FileDiff {
                    file_path: path,
                    old_content: String::new(),
                    new_content,
                    is_new_file: true,
                },
            );
        }
        let old: String = match c1 {
            Some(Some(c)) => c,
            _ => match c2 {
                Some(Some(c)) => c,
                _ => {
                    return Err(DiffError::FileNotFound(path));
                },
            },
        };
        let new_content = synthesize_existing_content(lines, old.as_str());
        Ok(FileDiff { file_path: path, old_content: old, new_content, is_new_file: false })
    }

    /// Parse one block of text into a `FileDiff` against a snapshot of
    /// the files that exist. A new file's old content is empty and its
    /// new content is empty or newline-terminated; an existing file's
    /// new content ends with a newline exactly when its old content
    /// does.
    pub fn parse_diff(&self, diff_text: &str, dir: &DirView) -> (r: Result<FileDiff, DiffError>)
        requires
            dir.wf(),
        ensures
            match r {
                Ok(fd) => spec_parse_diff(diff_text@, *dir) == GParse::Parsed(fd@) && (
                fd.is_new_file ==> fd@.old == Seq::<char>::empty() && (fd@.new.len() == 0
                    || ends_with_newline(fd@.new))) && (!fd.is_new_file ==> ends_with_newline(
                    fd@.new,
                ) == ends_with_newline(fd@.old)),
                Err(e) => match e {
                    DiffError::InvalidFormat(_) => spec_parse_diff(diff_text@, *dir) is Invalid,
                    DiffError::FileNotFound(_) => spec_parse_diff(diff_text@, *dir) is Missing,
                },
            },
    {
        let lines = split_lines(diff_text);
        proof {
            lemma_line_seq_newline_free(diff_text@);
        }
        self.parse_block_lines(&lines, dir)
    }

    /// The texts of the candidate blocks that classify as edits, in
    /// order of appearance.
    pub fn extract_raw_diff_blocks(&self, text: &str) -> (r: Vec<String>)
        ensures
            seq_views(r@) == spec_edit_block_texts(spec_candidate_blocks(text@)),
    {
        let blocks = extract_candidate_blocks(text);
        let ghost bv = spec_candidate_blocks(text@);
        let n = blocks.len();
        let mut out: Vec<String> = Vec::new();
        let mut i: usize = 0;
        proof {
            assert(bv.skip(0) =~= bv);
            assert(seq_views(out@) + spec_edit_block_texts(bv) =~= spec_edit_block_texts(bv));
        }
        while i < n
            invariant
                n == blocks@.len(),
                block_views(blocks@) == bv,
                i <= n,
                spec_edit_block_texts(bv) == seq_views(out@) + spec_edit_block_texts(
                    bv.skip(i as int),
                ),
            decreases n - i,
        {
            let b = &blocks[i];
            proof {
                assert(bv.skip(i as int)[0] == bv[i as int]);
                assert(bv.skip(i as int).skip(1) =~= bv.skip(i + 1));
                assert(bv[i as int] == blocks@[i as int]@);
            }
            if classify_lines(&b.lines, b.diff_tagged) {
                let text_of_block = if b.lines.len() == 0 {
                    String::new()
                } else {
                    crate::text::join_text(&b.lines, true)
                };
                let ghost prev = out@;
                out.push(text_of_block);
                proof {
                    crate::text::lemma_seq_views_push(prev, out@[prev.len() as int]);
                    assert(seq_views(prev) + (seq![spec_block_text(bv[i as int].lines)]
                        + spec_edit_block_texts(bv.skip(i + 1))) =~= (seq_views(prev) + seq![
                        spec_block_text(bv[i as int].lines),
                    ]) + spec_edit_block_texts(bv.skip(i + 1)));
                }
            }
            i += 1;
        }
        proof {
            assert(spec_edit_block_texts(bv.skip(n as int)) =~= Seq::<Seq<char>>::empty());
            assert(seq_views(out@) + Seq::<Seq<char>>::empty() =~= seq_views(out@));
        }
        out
    }

    /// Extract every diff from a response: classify each candidate
    /// block, parse those that are edits against the snapshot, and
    /// return the `FileDiff`s in order; blocks that fail to parse are
    /// skipped.
    pub fn extract_diffs(&self, text: &str, dir: &DirView) -> (r: Vec<FileDiff>)
        requires
            dir.wf(),
        ensures
            fd_views(r@) == spec_extract_diffs(spec_candidate_blocks(text@), *dir),
    {
        let blocks = extract_candidate_blocks(text);
        let ghost bv = spec_candidate_blocks(text@);
        let n = blocks.len();
        let mut out: Vec<FileDiff> = Vec::new();
        let mut i: usize = 0;
        proof {
            assert(bv.skip(0) =~= bv);
            assert(fd_views(out@) + spec_extract_diffs(bv, *dir) =~= spec_extract_diffs(
                bv,
                *dir,
            ));
        }
        while i < n
            invariant
                n == blocks@.len(),
                block_views(blocks@) == bv,
                dir.wf(),
                i <= n,
                spec_extract_diffs(bv, *dir) == fd_views(out@) + spec_extract_diffs(
                    bv.skip(i as int),
                    *dir,
                ),
            decreases n - i,
        {
            let b = &blocks[i];
            proof {
                assert(bv.skip(i as int)[0] == bv[i as int]);
                assert(bv.skip(i as int).skip(1) =~= bv.skip(i + 1));
                assert(bv[i as int] == blocks@[i as int]@);
            }
            if classify_lines(&b.lines, b.diff_tagged) {
                match self.parse_block_lines(&b.lines, dir) {
                    Ok(fd) => {
                        let ghost prev = out@;
                        out.push(fd);
                        proof {
                            lemma_fd_views_push(prev, out@[prev.len() as int]);
                            assert(fd_views(prev) + (seq![out@[prev.len() as int]@]
                                + spec_extract_diffs(bv.skip(i + 1), *dir)) =~= (fd_views(prev)
                                + seq![out@[prev.len() as int]@]) + spec_extract_diffs(
                                bv.skip(i + 1),
                                *dir,
                            ));
                        }
                    },
                    Err(_) => {},
                }
            }
            i += 1;
        }
        proof {
            assert(spec_extract_diffs(bv.skip(n as int), *dir) =~= Seq::<GFileDiff>::empty());
            assert(fd_views(out@) + Seq::<GFileDiff>::empty() =~= fd_views(out@));
        }
        out
    }
}

/// The text of one block: its lines, each newline-terminated; an empty
/// block is the empty text.
pub open spec fn spec_block_text(ls: Seq<Seq<char>>) -> Seq<char> {
    if ls.len() == 0 {
        Seq::empty()
    } else {
        crate::text::content_of(ls, true)
    }
}

/// The texts of the blocks that classify as edits.
pub open spec fn spec_edit_block_texts(bs: Seq<GBlock>) -> Seq<Seq<char>>
    decreases bs.len(),
{
    if bs.len() == 0 {
        Seq::empty()
    } else {
        let rest = spec_edit_block_texts(bs.skip(1));
        if spec_is_edit(bs[0].lines, bs[0].diff_tagged) {
            seq![spec_block_text(bs[0].lines)] + rest
        } else {
            rest
        }
    }
}

} // verus!
