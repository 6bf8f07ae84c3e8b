//! Splitting text into lines, as `str::lines` does: lines end at `\n` or
//! `\r\n`, and a final line ending does not start another line.

use vstd::prelude::*;
use vstd::string::*;

verus! {

/// The position of the first `\n` at or after `i`, or the end of the text.
pub open spec fn line_end(s: Seq<char>, i: int) -> int
    decreases s.len() - i,
{
    if 0 <= i < s.len() && s[i] != '\n' {
        line_end(s, i + 1)
    } else {
        i
    }
}

/// A line without the `\r` that ends it, if one does.
pub open spec fn strip_cr(l: Seq<char>) -> Seq<char> {
    if l.len() > 0 && l.last() == '\r' {
        l.drop_last()
    } else {
        l
    }
}

/// The lines of `s` from position `i` on.
pub open spec fn lines_from(s: Seq<char>, i: int) -> Seq<Seq<char>>
    decreases s.len() - i,
{
    if i < 0 || i >= s.len() {
        Seq::empty()
    } else {
        proof {
            lemma_line_end(s, i);
        }
        let k = line_end(s, i);
        if k == s.len() {
            seq![s.subrange(i, s.len() as int)]
        } else {
            seq![strip_cr(s.subrange(i, k))] + lines_from(s, k + 1)
        }
    }
}

/// The lines of `s`.
pub open spec fn lines_of(s: Seq<char>) -> Seq<Seq<char>> {
    lines_from(s, 0)
}

/// A line ends at or after its start, within the text.
pub proof fn lemma_line_end(s: Seq<char>, i: int)
    requires
        0 <= i <= s.len(),
    ensures
        i <= line_end(s, i) <= s.len(),
        line_end(s, i) < s.len() ==> s[line_end(s, i)] == '\n',
    decreases s.len() - i,
{
    if i < s.len() && s[i] != '\n' {
        lemma_line_end(s, i + 1);
    }
}

/// The position of the first `\n` at or after `i`, or `n`.
fn find_line_end(s: &str, n: usize, i: usize) -> (r: usize)
    requires
        n == s@.len(),
        i <= n,
    ensures
        r == line_end(s@, i as int),
    decreases n - i,
{
    if i < n && s.get_char(i) != '\n' {
        find_line_end(s, n, i + 1)
    } else {
        i
    }
}

/// The views of a list of strings.
pub open spec fn str_views(v: Seq<&str>) -> Seq<Seq<char>> {
    v.map_values(|l: &str| l@)
}

/// Splits `s` into its lines.
pub fn split_lines<'a>(s: &'a str) -> (r: Vec<&'a str>)
    ensures
        str_views(r@) == lines_of(s@),
{
    let n = s.unicode_len();
    let mut out: Vec<&'a str> = Vec::new();
    let mut i: usize = 0;
    while i < n
        invariant
            n == s@.len(),
            i <= n,
            lines_of(s@) == str_views(out@) + lines_from(s@, i as int),
        decreases n - i,
    {
        proof {
            lemma_line_end(s@, i as int);
        }
        let k = find_line_end(s, n, i);
        let ghost prev = out@;
        if k == n {
            out.push(s.substring_char(i, n));
            assert(str_views(out@) =~= str_views(prev) + lines_from(s@, i as int));
            i = n;
        } else {
            let mut e = k;
            if e > i && s.get_char(e - 1) == '\r' {
                e = e - 1;
            }
            let line = s.substring_char(i, e);
            assert(line@ == strip_cr(s@.subrange(i as int, k as int)));
            out.push(line);
            assert(str_views(out@) + lines_from(s@, k + 1) =~= str_views(prev) + lines_from(
                s@,
                i as int,
            ));
            i = k + 1;
        }
    }
    assert(str_views(out@) =~= lines_of(s@));
    out
}

} // verus!
