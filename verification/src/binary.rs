//! Deciding whether a file is binary: by its name's extension, and by a
//! null byte early in its content. Reading the file is the surrounding
//! application's business; these are the pure judgements.

use vstd::prelude::*;
use vstd::string::*;

use crate::text::{push_char, str_content_eq};

verus! {

/// How many leading bytes of a file are examined for a null byte.
pub const NULL_CHECK_SIZE: usize = 8192;

/// ASCII lowercase of one character.
pub open spec fn lower_char(c: char) -> char {
    if 'A' <= c && c <= 'Z' {
        ((c as u32 + 32) as u8) as char
    } else {
        c
    }
}

pub open spec fn spec_ascii_lower(s: Seq<char>) -> Seq<char> {
    Seq::new(s.len(), |i: int| lower_char(s[i]))
}

/// ASCII-lowercase a string.
pub fn ascii_lowercase(s: &str) -> (r: String)
    ensures
        r@ == spec_ascii_lower(s@),
{
    let n = s.unicode_len();
    let mut out = String::new();
    let mut i: usize = 0;
    while i < n
        invariant
            n == s@.len(),
            i <= n,
            out@ =~= spec_ascii_lower(s@).take(i as int),
        decreases n - i,
    {
        let c = s.get_char(i);
        let u = c as u32;
        let lc: char;
        if 65 <= u && u <= 90 {
            lc = ((u + 32) as u8) as char;
        } else {
            lc = c;
        }
        proof {
            assert('A' as u32 == 65 && 'Z' as u32 == 90);
            assert(lc == lower_char(s@[i as int]));
        }
        push_char(&mut out, lc);
        proof {
            assert(out@ =~= spec_ascii_lower(s@).take(i + 1));
        }
        i += 1;
    }
    proof {
        assert(spec_ascii_lower(s@).take(n as int) =~= spec_ascii_lower(s@));
    }
    out
}

/// A file extension that names a binary format.
pub open spec fn spec_binary_ext(e: Seq<char>) -> bool {
    ||| e == "png"@
    ||| e == "jpg"@
    ||| e == "jpeg"@
    ||| e == "gif"@
    ||| e == "bmp"@
    ||| e == "ico"@
    ||| e == "svg"@
    ||| e == "pdf"@
    ||| e == "doc"@
    ||| e == "docx"@
    ||| e == "xls"@
    ||| e == "xlsx"@
    ||| e == "ppt"@
    ||| e == "pptx"@
    ||| e == "zip"@
    ||| e == "tar"@
    ||| e == "gz"@
    ||| e == "rar"@
    ||| e == "7z"@
    ||| e == "exe"@
    ||| e == "dll"@
    ||| e == "so"@
    ||| e == "dylib"@
    ||| e == "mp3"@
    ||| e == "mp4"@
    ||| e == "avi"@
    ||| e == "mov"@
    ||| e == "webm"@
    ||| e == "woff"@
    ||| e == "woff2"@
    ||| e == "ttf"@
    ||| e == "eot"@
}

/// The position right after the last `.` of `p`, or -1 when it has none.
pub open spec fn last_dot_end(p: Seq<char>) -> int
    decreases p.len(),
{
    if p.len() == 0 {
        -1
    } else if p[p.len() - 1] == '.' {
        p.len() as int
    } else {
        last_dot_end(p.take(p.len() - 1))
    }
}

/// A file name whose extension, lowercased, names a binary format.
pub open spec fn spec_is_binary_name(p: Seq<char>) -> bool {
    last_dot_end(p) >= 0 && spec_binary_ext(spec_ascii_lower(p.skip(last_dot_end(p))))
}

/// Exec mirror of `last_dot_end`; `None` stands for -1.
fn last_dot_end_exec(p: &str) -> (r: Option<usize>)
    ensures
        match r {
            Some(e) => e as int == last_dot_end(p@) && e <= p@.len(),
            None => last_dot_end(p@) == -1,
        },
{
    let n = p.unicode_len();
    let mut j: usize = n;
    proof {
        assert(p@.take(n as int) =~= p@);
    }
    while j > 0
        invariant
            n == p@.len(),
            j <= n,
            last_dot_end(p@) == last_dot_end(p@.take(j as int)),
        decreases j,
    {
        let c = p.get_char(j - 1);
        if c == '.' {
            proof {
                assert(p@.take(j as int)[j - 1] == p@[j - 1]);
            }
            return Some(j);
        }
        proof {
            assert(p@.take(j as int).take(j - 1) =~= p@.take(j - 1));
        }
        j -= 1;
    }
    None
}

/// Whether the file name's extension, lowercased, names a binary format.
pub fn is_binary_name(name: &str) -> (r: bool)
    ensures
        r == spec_is_binary_name(name@),
{
    let e = match last_dot_end_exec(name) {
        Some(e) => e,
        None => {
            return false;
        },
    };
    let n = name.unicode_len();
    let ext = ascii_lowercase(name.substring_char(e, n));
    proof {
        assert(name@.subrange(e as int, n as int) =~= name@.skip(last_dot_end(name@)));
    }
    str_content_eq(ext.as_str(), "png") || str_content_eq(ext.as_str(), "jpg")
        || str_content_eq(ext.as_str(), "jpeg") || str_content_eq(ext.as_str(), "gif")
        || str_content_eq(ext.as_str(), "bmp") || str_content_eq(ext.as_str(), "ico")
        || str_content_eq(ext.as_str(), "svg") || str_content_eq(ext.as_str(), "pdf")
        || str_content_eq(ext.as_str(), "doc") || str_content_eq(ext.as_str(), "docx")
        || str_content_eq(ext.as_str(), "xls") || str_content_eq(ext.as_str(), "xlsx")
        || str_content_eq(ext.as_str(), "ppt") || str_content_eq(ext.as_str(), "pptx")
        || str_content_eq(ext.as_str(), "zip") || str_content_eq(ext.as_str(), "tar")
        || str_content_eq(ext.as_str(), "gz") || str_content_eq(ext.as_str(), "rar")
        || str_content_eq(ext.as_str(), "7z") || str_content_eq(ext.as_str(), "exe")
        || str_content_eq(ext.as_str(), "dll") || str_content_eq(ext.as_str(), "so")
        || str_content_eq(ext.as_str(), "dylib") || str_content_eq(ext.as_str(), "mp3")
        || str_content_eq(ext.as_str(), "mp4") || str_content_eq(ext.as_str(), "avi")
        || str_content_eq(ext.as_str(), "mov") || str_content_eq(ext.as_str(), "webm")
        || str_content_eq(ext.as_str(), "woff") || str_content_eq(ext.as_str(), "woff2")
        || str_content_eq(ext.as_str(), "ttf") || str_content_eq(ext.as_str(), "eot")
}

/// A null byte occurs among the first `NULL_CHECK_SIZE` bytes.
pub open spec fn spec_has_null_byte(data: Seq<u8>) -> bool {
    exists|i: int|
        0 <= i < data.len() && i < NULL_CHECK_SIZE as int && #[trigger] data[i] == 0
}

/// Whether a null byte occurs among the first `NULL_CHECK_SIZE` bytes of
/// the content — the usual sign of a binary file.
pub fn has_null_byte(data: &Vec<u8>) -> (r: bool)
    ensures
        r == spec_has_null_byte(data@),
{
    let n = data.len();
    let limit = if n < NULL_CHECK_SIZE {
        n
    } else {
        NULL_CHECK_SIZE
    };
    let mut i: usize = 0;
    while i < limit
        invariant
            n == data@.len(),
            limit == if n < NULL_CHECK_SIZE {
                n as int
            } else {
                NULL_CHECK_SIZE as int
            },
            i <= limit,
            forall|t: int| 0 <= t < i ==> #[trigger] data@[t] != 0,
        decreases limit - i,
    {
        if data[i] == 0 {
            return true;
        }
        i += 1;
    }
    false
}

} // verus!
