//! The line model: splitting text into lines, joining lines back into
//! text, and small character-level helpers (prefix tests, decimal
//! parsing and printing) that the rest of the engine is built on.
//!
//! A text is modelled as a sequence of characters; its lines are the
//! maximal runs between `'\n'` characters. A final run is a line even
//! when the text does not end with a newline; a text ending in `'\n'`
//! has no trailing empty line.

use vstd::prelude::*;
use vstd::string::*;

verus! {

/// Relies on String::push: appends exactly the given character.
#[verifier::external_body]
pub fn push_char(s: &mut String, c: char)
    ensures
        final(s)@ == old(s)@.push(c),
{
    s.push(c);
}

/// The lines of `s`, with `cur` the (reversed-in, already read) prefix of
/// the line currently being accumulated.
pub open spec fn line_seq_from(s: Seq<char>, cur: Seq<char>) -> Seq<Seq<char>>
    decreases s.len(),
{
    if s.len() == 0 {
        if cur.len() == 0 {
            Seq::empty()
        } else {
            seq![cur]
        }
    } else if s[0] == '\n' {
        seq![cur] + line_seq_from(s.skip(1), Seq::empty())
    } else {
        line_seq_from(s.skip(1), cur.push(s[0]))
    }
}

/// The lines of `s`: maximal runs of characters between newlines.
pub open spec fn line_seq(s: Seq<char>) -> Seq<Seq<char>> {
    line_seq_from(s, Seq::empty())
}

/// Lines joined with single `'\n'` separators, no trailing newline.
pub open spec fn join_lines(ls: Seq<Seq<char>>) -> Seq<char>
    decreases ls.len(),
{
    if ls.len() == 0 {
        Seq::empty()
    } else if ls.len() == 1 {
        ls[0]
    } else {
        ls[0].push('\n') + join_lines(ls.skip(1))
    }
}

pub open spec fn ends_with_newline(s: Seq<char>) -> bool {
    s.len() > 0 && s[s.len() - 1] == '\n'
}

/// A file content assembled from its lines: joined with newlines, with a
/// final newline exactly when `trailing` holds.
pub open spec fn content_of(ls: Seq<Seq<char>>, trailing: bool) -> Seq<char> {
    if trailing {
        join_lines(ls).push('\n')
    } else {
        join_lines(ls)
    }
}

/// The views of a sequence of strings: each string as its characters.
pub open spec fn seq_views(s: Seq<String>) -> Seq<Seq<char>> {
    Seq::new(s.len(), |i: int| s[i]@)
}

pub proof fn lemma_seq_views_push(s: Seq<String>, x: String)
    ensures
        seq_views(s.push(x)) =~= seq_views(s) + seq![x@],
{
}

/// Split a text into its lines.
pub fn split_lines(text: &str) -> (r: Vec<String>)
    ensures
        seq_views(r@) == line_seq(text@),
{
    let n = text.unicode_len();
    let mut res: Vec<String> = Vec::new();
    let mut cur: String = String::new();
    let mut i: usize = 0;
    proof {
        assert(text@.skip(0) =~= text@);
        assert(seq_views(res@) =~= Seq::<Seq<char>>::empty());
        assert(seq_views(res@) + line_seq_from(text@, cur@) =~= line_seq_from(text@, cur@));
    }
    while i < n
        invariant
            n == text@.len(),
            i <= n,
            line_seq(text@) == seq_views(res@) + line_seq_from(text@.skip(i as int), cur@),
        decreases n - i,
    {
        let c = text.get_char(i);
        let ghost prev_res = res@;
        if c == '\n' {
            res.push(cur);
            cur = String::new();
            proof {
                lemma_seq_views_push(prev_res, res@[prev_res.len() as int]);
            }
        } else {
            push_char(&mut cur, c);
        }
        i += 1;
        proof {
            assert(text@.skip(i - 1).skip(1) =~= text@.skip(i as int));
        }
    }
    proof {
        assert(text@.skip(n as int) =~= Seq::<char>::empty());
    }
    if cur.unicode_len() > 0 {
        let ghost prev_res = res@;
        res.push(cur);
        proof {
            lemma_seq_views_push(prev_res, res@[prev_res.len() as int]);
        }
    }
    res
}

proof fn lemma_join_push(s: Seq<Seq<char>>, x: Seq<char>)
    ensures
        join_lines(s.push(x)) =~= if s.len() == 0 {
            x
        } else {
            join_lines(s).push('\n') + x
        },
    decreases s.len(),
{
    if s.len() > 0 {
        lemma_join_push(s.skip(1), x);
        assert(s.push(x).skip(1) =~= s.skip(1).push(x));
        if s.len() == 1 {
            assert(join_lines(s) == s[0]);
        }
    }
}

/// Join lines with `'\n'` separators, appending a final newline exactly
/// when `trailing` holds.
pub fn join_text(ls: &Vec<String>, trailing: bool) -> (r: String)
    ensures
        r@ == content_of(seq_views(ls@), trailing),
{
    let mut acc: String = String::new();
    let n = ls.len();
    let mut k: usize = 0;
    while k < n
        invariant
            n == ls@.len(),
            k <= n,
            acc@ == join_lines(seq_views(ls@).take(k as int)),
        decreases n - k,
    {
        if k > 0 {
            push_char(&mut acc, '\n');
        }
        acc.append(ls[k].as_str());
        k += 1;
        proof {
            assert(seq_views(ls@).take(k as int) =~= seq_views(ls@).take(k - 1).push(
                seq_views(ls@)[k - 1],
            ));
            lemma_join_push(seq_views(ls@).take(k - 1), seq_views(ls@)[k - 1]);
        }
    }
    proof {
        assert(seq_views(ls@).take(n as int) =~= seq_views(ls@));
    }
    if trailing {
        push_char(&mut acc, '\n');
    }
    acc
}

proof fn lemma_line_seq_from_nonempty(s: Seq<char>, cur: Seq<char>)
    requires
        s.len() > 0 || cur.len() > 0,
    ensures
        line_seq_from(s, cur).len() >= 1,
    decreases s.len(),
{
    if s.len() > 0 && s[0] != '\n' {
        lemma_line_seq_from_nonempty(s.skip(1), cur.push(s[0]));
    }
}

proof fn lemma_content_line_seq_from(s: Seq<char>, cur: Seq<char>)
    ensures
        content_of(line_seq_from(s, cur), s.len() > 0 && s[s.len() - 1] == '\n') =~= cur + s,
    decreases s.len(),
{
    if s.len() == 0 {
    } else if s[0] == '\n' {
        let rest = s.skip(1);
        if rest.len() == 0 {
            assert(line_seq_from(rest, Seq::empty()) =~= Seq::<Seq<char>>::empty());
            assert(line_seq_from(s, cur) =~= seq![cur] + line_seq_from(rest, Seq::empty()));
            assert(line_seq_from(s, cur) =~= seq![cur]);
        } else {
            lemma_content_line_seq_from(rest, Seq::empty());
            lemma_line_seq_from_nonempty(rest, Seq::empty());
            let tail = line_seq_from(rest, Seq::empty());
            assert((seq![cur] + tail).skip(1) =~= tail);
            assert(join_lines(seq![cur] + tail) =~= cur.push('\n') + join_lines(tail));
            assert(rest[rest.len() - 1] == s[s.len() - 1]);
        }
    } else {
        lemma_content_line_seq_from(s.skip(1), cur.push(s[0]));
        assert(cur.push(s[0]) + s.skip(1) =~= cur + s);
        if s.skip(1).len() > 0 {
            assert(s.skip(1)[s.skip(1).len() - 1] == s[s.len() - 1]);
        }
    }
}

/// Splitting a text into its lines and reassembling them, keeping the
/// text's own trailing-newline convention, gives the text back unchanged.
pub proof fn lemma_content_line_seq(s: Seq<char>)
    ensures
        content_of(line_seq(s), ends_with_newline(s)) == s,
{
    lemma_content_line_seq_from(s, Seq::empty());
    assert(Seq::<char>::empty() + s =~= s);
}

/// No line of the sequence holds a newline character — true of every
/// sequence that splitting a text produces.
pub open spec fn lines_newline_free(ls: Seq<Seq<char>>) -> bool {
    forall|k: int| 0 <= k < ls.len() ==> !(#[trigger] ls[k]).contains('\n')
}

proof fn lemma_line_seq_from_newline_free(s: Seq<char>, cur: Seq<char>)
    requires
        !cur.contains('\n'),
    ensures
        lines_newline_free(line_seq_from(s, cur)),
    decreases s.len(),
{
    if s.len() == 0 {
    } else if s[0] == '\n' {
        lemma_line_seq_from_newline_free(s.skip(1), Seq::empty());
        let tail = line_seq_from(s.skip(1), Seq::empty());
        assert forall|k: int| 0 <= k < (seq![cur] + tail).len() implies !(#[trigger] (seq![cur]
            + tail)[k]).contains('\n') by {
            if k >= 1 {
                assert((seq![cur] + tail)[k] == tail[k - 1]);
            }
        }
    } else {
        assert(!cur.push(s[0]).contains('\n')) by {
            if cur.push(s[0]).contains('\n') {
                let j = choose|j: int|
                    0 <= j < cur.push(s[0]).len() && cur.push(s[0])[j] == '\n';
                if j < cur.len() {
                    assert(cur[j] == '\n');
                }
            }
        }
        lemma_line_seq_from_newline_free(s.skip(1), cur.push(s[0]));
    }
}

/// The lines a split produces never hold a newline character.
pub proof fn lemma_line_seq_newline_free(s: Seq<char>)
    ensures
        lines_newline_free(line_seq(s)),
{
    lemma_line_seq_from_newline_free(s, Seq::empty());
}

proof fn lemma_line_seq_from_last_nonempty(s: Seq<char>, cur: Seq<char>)
    requires
        s.len() > 0,
        s[s.len() - 1] != '\n',
    ensures
        line_seq_from(s, cur).len() >= 1,
        line_seq_from(s, cur).last().len() > 0,
    decreases s.len(),
{
    if s[0] == '\n' {
        let rest = s.skip(1);
        assert(rest.len() > 0 && rest[rest.len() - 1] == s[s.len() - 1]);
        lemma_line_seq_from_last_nonempty(rest, Seq::empty());
        let tail = line_seq_from(rest, Seq::empty());
        assert((seq![cur] + tail).last() == tail.last());
    } else if s.len() == 1 {
        assert(line_seq_from(s.skip(1), cur.push(s[0])) =~= seq![cur.push(s[0])]);
    } else {
        assert(s.skip(1)[s.skip(1).len() - 1] == s[s.len() - 1]);
        lemma_line_seq_from_last_nonempty(s.skip(1), cur.push(s[0]));
    }
}

/// A text that does not end with a newline splits into lines whose last
/// line is non-empty (when there are any lines at all).
pub proof fn lemma_line_seq_last_nonempty(s: Seq<char>)
    requires
        s.len() > 0,
        !ends_with_newline(s),
    ensures
        line_seq(s).len() >= 1,
        line_seq(s).last().len() > 0,
{
    lemma_line_seq_from_last_nonempty(s, Seq::empty());
}

/// Joining newline-free lines whose last line is non-empty gives a text
/// whose last character is the last line's last character.
pub proof fn lemma_join_last_char(ls: Seq<Seq<char>>)
    requires
        ls.len() > 0,
        ls.last().len() > 0,
        lines_newline_free(ls),
    ensures
        join_lines(ls).len() > 0,
        join_lines(ls).last() == ls.last().last(),
        !ends_with_newline(join_lines(ls)),
    decreases ls.len(),
{
    if ls.len() == 1 {
        assert(join_lines(ls) == ls[0]);
    } else {
        let rest = ls.skip(1);
        assert(rest.last() == ls.last());
        assert(lines_newline_free(rest)) by {
            assert(forall|k: int| 0 <= k < rest.len() ==> rest[k] == #[trigger] ls[k + 1]);
        }
        lemma_join_last_char(rest);
        assert(join_lines(ls).last() == join_lines(rest).last());
    }
    assert(ls.last().last() != '\n') by {
        if ls.last().last() == '\n' {
            assert(ls.last()[ls.last().len() - 1] == '\n');
            assert(ls.last().contains('\n'));
            assert(ls[ls.len() - 1].contains('\n'));
        }
    }
}

/// Append copies of `src[from..to]` to `out`.
pub fn copy_range(src: &Vec<String>, from: usize, to: usize, out: &mut Vec<String>)
    requires
        from <= to <= src@.len(),
    ensures
        seq_views(final(out)@) == seq_views(old(out)@) + seq_views(src@).subrange(
            from as int,
            to as int,
        ),
{
    let ghost base = seq_views(out@);
    let mut p: usize = from;
    proof {
        assert(base + seq_views(src@).subrange(from as int, from as int) =~= base);
    }
    while p < to
        invariant
            from <= p <= to <= src@.len(),
            seq_views(out@) == base + seq_views(src@).subrange(from as int, p as int),
        decreases to - p,
    {
        let x = src[p].clone();
        let ghost prev = out@;
        out.push(x);
        proof {
            lemma_seq_views_push(prev, out@[prev.len() as int]);
            assert(seq_views(src@).subrange(from as int, p + 1) =~= seq_views(src@).subrange(
                from as int,
                p as int,
            ).push(seq_views(src@)[p as int]));
            assert(base + seq_views(src@).subrange(from as int, p + 1) =~= (base + seq_views(
                src@,
            ).subrange(from as int, p as int)) + seq![src@[p as int]@]);
        }
        p += 1;
    }
}

/// Append copies of all of `src` to `out`.
pub fn append_lines(out: &mut Vec<String>, src: &Vec<String>)
    ensures
        seq_views(final(out)@) == seq_views(old(out)@) + seq_views(src@),
{
    let n = src.len();
    copy_range(src, 0, n, out);
    proof {
        assert(seq_views(src@).subrange(0, n as int) =~= seq_views(src@));
    }
}

/// `p` is an initial segment of `l`.
pub open spec fn has_prefix(l: Seq<char>, p: Seq<char>) -> bool {
    p.len() <= l.len() && l.subrange(0, p.len() as int) == p
}

/// Whether `l` starts with `p`, character for character.
pub fn starts_with_str(l: &str, p: &str) -> (r: bool)
    ensures
        r == has_prefix(l@, p@),
{
    let pl = p.unicode_len();
    let ll = l.unicode_len();
    if pl > ll {
        return false;
    }
    let mut i: usize = 0;
    while i < pl
        invariant
            pl == p@.len(),
            ll == l@.len(),
            pl <= ll,
            i <= pl,
            forall|j: int| 0 <= j < i ==> l@[j] == p@[j],
        decreases pl - i,
    {
        if l.get_char(i) != p.get_char(i) {
            proof {
                assert(l@.subrange(0, pl as int)[i as int] == l@[i as int]);
            }
            return false;
        }
        i += 1;
    }
    proof {
        assert(l@.subrange(0, pl as int) =~= p@);
    }
    true
}

/// Whether two string slices hold the same characters.
pub fn str_content_eq(a: &str, b: &str) -> (r: bool)
    ensures
        r == (a@ == b@),
{
    let an = a.unicode_len();
    let bn = b.unicode_len();
    if an != bn {
        return false;
    }
    let mut i: usize = 0;
    while i < an
        invariant
            an == a@.len(),
            bn == b@.len(),
            an == bn,
            i <= an,
            forall|j: int| 0 <= j < i ==> a@[j] == b@[j],
        decreases an - i,
    {
        if a.get_char(i) != b.get_char(i) {
            return false;
        }
        i += 1;
    }
    proof {
        assert(a@ =~= b@);
    }
    true
}

/// Whether the first character of `l` is `c`.
pub fn first_char_is(l: &str, c: char) -> (r: bool)
    ensures
        r == (l@.len() > 0 && l@[0] == c),
{
    let n = l.unicode_len();
    if n == 0 {
        false
    } else {
        l.get_char(0) == c
    }
}

/// A whitespace character as trimmed from header values: space, tab or
/// carriage return (a line never holds a line feed).
pub open spec fn is_trim_ws(c: char) -> bool {
    c == ' ' || c == '\t' || c == '\r'
}

pub open spec fn drop_leading_ws(s: Seq<char>) -> Seq<char>
    decreases s.len(),
{
    if s.len() > 0 && is_trim_ws(s[0]) {
        drop_leading_ws(s.skip(1))
    } else {
        s
    }
}

pub open spec fn drop_trailing_ws(s: Seq<char>) -> Seq<char>
    decreases s.len(),
{
    if s.len() > 0 && is_trim_ws(s[s.len() - 1]) {
        drop_trailing_ws(s.take(s.len() - 1))
    } else {
        s
    }
}

/// `s` with its leading and trailing whitespace dropped.
pub open spec fn trim_ws(s: Seq<char>) -> Seq<char> {
    drop_trailing_ws(drop_leading_ws(s))
}

pub open spec fn drop_leading_char(s: Seq<char>, c: char) -> Seq<char>
    decreases s.len(),
{
    if s.len() > 0 && s[0] == c {
        drop_leading_char(s.skip(1), c)
    } else {
        s
    }
}

pub open spec fn drop_trailing_char(s: Seq<char>, c: char) -> Seq<char>
    decreases s.len(),
{
    if s.len() > 0 && s[s.len() - 1] == c {
        drop_trailing_char(s.take(s.len() - 1), c)
    } else {
        s
    }
}

/// `s` with every leading and trailing occurrence of `c` dropped.
pub open spec fn trim_matching(s: Seq<char>, c: char) -> Seq<char> {
    drop_trailing_char(drop_leading_char(s, c), c)
}

/// Trim leading and trailing whitespace from a string.
pub fn trim_ws_exec(s: &str) -> (r: String)
    ensures
        r@ == trim_ws(s@),
{
    let n = s.unicode_len();
    let mut a: usize = 0;
    proof {
        assert(s@.skip(0) =~= s@);
    }
    while a < n
        invariant
            n == s@.len(),
            a <= n,
            drop_leading_ws(s@) == drop_leading_ws(s@.skip(a as int)),
        ensures
            a <= n,
            drop_leading_ws(s@) == drop_leading_ws(s@.skip(a as int)),
            a == n || !is_trim_ws(s@[a as int]),
        decreases n - a,
    {
        let c = s.get_char(a);
        if !(c == ' ' || c == '\t' || c == '\r') {
            break ;
        }
        proof {
            assert(s@.skip(a as int).skip(1) =~= s@.skip(a + 1));
        }
        a += 1;
    }
    proof {
        assert(drop_leading_ws(s@.skip(a as int)) == s@.skip(a as int));
        assert(s@.skip(a as int) =~= s@.subrange(a as int, n as int));
    }
    let mut b: usize = n;
    proof {
        assert(s@.subrange(a as int, n as int).take(n - a) =~= s@.subrange(a as int, n as int));
    }
    while b > a
        invariant
            n == s@.len(),
            a <= b <= n,
            drop_trailing_ws(s@.subrange(a as int, n as int)) == drop_trailing_ws(
                s@.subrange(a as int, b as int),
            ),
        ensures
            a <= b <= n,
            drop_trailing_ws(s@.subrange(a as int, n as int)) == drop_trailing_ws(
                s@.subrange(a as int, b as int),
            ),
            b == a || !is_trim_ws(s@[b - 1]),
        decreases b,
    {
        let c = s.get_char(b - 1);
        if !(c == ' ' || c == '\t' || c == '\r') {
            break ;
        }
        proof {
            assert(s@.subrange(a as int, b as int)[b - 1 - a] == s@[b - 1]);
            assert(s@.subrange(a as int, b as int).take(b - 1 - a) =~= s@.subrange(
                a as int,
                b - 1,
            ));
        }
        b -= 1;
    }
    proof {
        if b > a {
            assert(s@.subrange(a as int, b as int)[b - 1 - a] == s@[b - 1]);
        }
    }
    proof {
        assert(drop_trailing_ws(s@.subrange(a as int, b as int)) == s@.subrange(
            a as int,
            b as int,
        ));
    }
    s.substring_char(a, b).to_owned()
}

/// Trim every leading and trailing occurrence of `c` from a string.
pub fn trim_matching_exec(s: &str, c: char) -> (r: String)
    ensures
        r@ == trim_matching(s@, c),
{
    let n = s.unicode_len();
    let mut a: usize = 0;
    proof {
        assert(s@.skip(0) =~= s@);
    }
    while a < n
        invariant
            n == s@.len(),
            a <= n,
            drop_leading_char(s@, c) == drop_leading_char(s@.skip(a as int), c),
        ensures
            a <= n,
            drop_leading_char(s@, c) == drop_leading_char(s@.skip(a as int), c),
            a == n || s@[a as int] != c,
        decreases n - a,
    {
        if s.get_char(a) != c {
            break ;
        }
        proof {
            assert(s@.skip(a as int).skip(1) =~= s@.skip(a + 1));
        }
        a += 1;
    }
    proof {
        assert(drop_leading_char(s@.skip(a as int), c) == s@.skip(a as int));
        assert(s@.skip(a as int) =~= s@.subrange(a as int, n as int));
    }
    let mut b: usize = n;
    proof {
        assert(s@.subrange(a as int, n as int).take(n - a) =~= s@.subrange(a as int, n as int));
    }
    while b > a
        invariant
            n == s@.len(),
            a <= b <= n,
            drop_trailing_char(s@.subrange(a as int, n as int), c) == drop_trailing_char(
                s@.subrange(a as int, b as int),
                c,
            ),
        ensures
            a <= b <= n,
            drop_trailing_char(s@.subrange(a as int, n as int), c) == drop_trailing_char(
                s@.subrange(a as int, b as int),
                c,
            ),
            b == a || s@[b - 1] != c,
        decreases b,
    {
        if s.get_char(b - 1) != c {
            break ;
        }
        proof {
            assert(s@.subrange(a as int, b as int)[b - 1 - a] == s@[b - 1]);
            assert(s@.subrange(a as int, b as int).take(b - 1 - a) =~= s@.subrange(
                a as int,
                b - 1,
            ));
        }
        b -= 1;
    }
    proof {
        if b > a {
            assert(s@.subrange(a as int, b as int)[b - 1 - a] == s@[b - 1]);
        }
    }
    proof {
        assert(drop_trailing_char(s@.subrange(a as int, b as int), c) == s@.subrange(
            a as int,
            b as int,
        ));
    }
    s.substring_char(a, b).to_owned()
}

/// `c` is an ASCII decimal digit.
pub open spec fn is_digit(c: char) -> bool {
    48 <= c as u32 <= 57
}

pub open spec fn all_digits(s: Seq<char>) -> bool {
    forall|i: int| 0 <= i < s.len() ==> is_digit(#[trigger] s[i])
}

pub open spec fn digit_val(c: char) -> int {
    c as u32 - 48
}

/// The value of a digit string read as a decimal number.
pub open spec fn dec_val(s: Seq<char>) -> int
    decreases s.len(),
{
    if s.len() == 0 {
        0
    } else {
        dec_val(s.take(s.len() - 1)) * 10 + digit_val(s[s.len() - 1])
    }
}

/// The value of a digit string, clamped to what a usize can hold.
pub open spec fn sat_dec_val(s: Seq<char>) -> int {
    if dec_val(s) > usize::MAX as int {
        usize::MAX as int
    } else {
        dec_val(s)
    }
}

proof fn lemma_dec_val_nonneg(s: Seq<char>)
    requires
        all_digits(s),
    ensures
        dec_val(s) >= 0,
    decreases s.len(),
{
    if s.len() > 0 {
        assert(all_digits(s.take(s.len() - 1)));
        lemma_dec_val_nonneg(s.take(s.len() - 1));
    }
}

/// Parse a digit string as a decimal number, clamping to `usize::MAX`
/// when the value does not fit.
pub fn parse_dec_saturating(s: &str) -> (r: usize)
    requires
        all_digits(s@),
    ensures
        r as int == sat_dec_val(s@),
{
    let limit: usize = usize::MAX / 10;
    let n = s.unicode_len();
    let mut acc: usize = 0;
    let mut i: usize = 0;
    while i < n
        invariant
            n == s@.len(),
            i <= n,
            all_digits(s@),
            limit == usize::MAX / 10,
            acc as int == sat_dec_val(s@.take(i as int)),
        decreases n - i,
    {
        let c = s.get_char(i);
        let d: usize = (c as u32 - 48) as usize;
        proof {
            assert(s@.take(i + 1).take(i as int) =~= s@.take(i as int));
            assert(s@.take(i + 1)[i as int] == s@[i as int]);
            assert(all_digits(s@.take(i as int)));
            lemma_dec_val_nonneg(s@.take(i as int));
            assert(usize::MAX / 10 * 10 + 5 == usize::MAX) by (nonlinear_arith);
        }
        if acc > limit || (acc == limit && d > 5) {
            acc = usize::MAX;
        } else {
            acc = acc * 10 + d;
        }
        i += 1;
    }
    proof {
        assert(s@.take(n as int) =~= s@);
    }
    acc
}

pub open spec fn digit_chr(d: int) -> char {
    ((48 + d) as u8) as char
}

/// The decimal notation of a non-negative number.
pub open spec fn dec_str(n: int) -> Seq<char>
    decreases n,
{
    if n < 10 {
        seq![digit_chr(n)]
    } else {
        dec_str(n / 10).push(digit_chr(n % 10))
    }
}

/// Print a number in decimal notation.
pub fn usize_to_string(n: usize) -> (r: String)
    ensures
        r@ == dec_str(n as int),
    decreases n,
{
    if n < 10 {
        let mut s = String::new();
        let c = (48 + n as u8) as char;
        push_char(&mut s, c);
        s
    } else {
        let mut s = usize_to_string(n / 10);
        let c = (48 + (n % 10) as u8) as char;
        push_char(&mut s, c);
        s
    }
}

/// Whether some character of `l` is `c`.
pub fn contains_char(l: &str, c: char) -> (r: bool)
    ensures
        r == l@.contains(c),
{
    let n = l.unicode_len();
    let mut i: usize = 0;
    while i < n
        invariant
            n == l@.len(),
            i <= n,
            forall|j: int| 0 <= j < i ==> l@[j] != c,
        decreases n - i,
    {
        if l.get_char(i) == c {
            return true;
        }
        i += 1;
    }
    false
}

} // verus!
