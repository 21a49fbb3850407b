//! Text with a margin, as it is written in source code: each line is indented
//! and begins with a mark, and what counts starts after the mark.

use vstd::prelude::*;

use crate::grammar::{has_word, skip_spaces, spaces_end, word_at};
use crate::text::{chars_of, find_char, index_of_char, string_of};

verus! {

/// A line without the spaces it begins with.
pub open spec fn trim_start(line: Seq<char>) -> Seq<char> {
    line.skip(skip_spaces(line, 0))
}

/// A line without the spaces it begins with and, where `prefix` follows
/// them, without the prefix.
pub open spec fn strip_line(line: Seq<char>, prefix: Seq<char>) -> Seq<char> {
    let t = trim_start(line);
    if word_at(t, 0, prefix) {
        t.skip(prefix.len() as int)
    } else {
        t
    }
}

/// A line without the carriage return that it ends with, if it ends with one.
pub open spec fn without_return(line: Seq<char>) -> Seq<char> {
    if line.len() > 0 && line.last() == '\r' {
        line.drop_last()
    } else {
        line
    }
}

/// The lines of `text`, each stripped, with a line feed between them. A line
/// ends at a line feed, or at a carriage return and a line feed; what follows
/// the last line feed is a line too, also where it is empty.
pub open spec fn strip_lines(text: Seq<char>, prefix: Seq<char>) -> Seq<char>
    decreases text.len(),
{
    let n = find_char(text, '\n', 0);
    if 0 <= n < text.len() {
        strip_line(without_return(text.take(n)), prefix) + seq!['\n'] + strip_lines(
            text.skip(n + 1),
            prefix,
        )
    } else {
        strip_line(text, prefix)
    }
}

/// What [`trim_margin`] gives: the stripped lines, without the line feed that
/// they begin with, if they begin with one.
pub open spec fn trim_margin_spec(text: Seq<char>, prefix: Seq<char>) -> Seq<char> {
    let t = strip_lines(text, prefix);
    if t.len() > 0 && t[0] == '\n' {
        t.skip(1)
    } else {
        t
    }
}

/// The prefix that counts: the one given, or `|`.
pub open spec fn margin_of(margin_prefix: Option<&str>) -> Seq<char> {
    match margin_prefix {
        Some(p) => p@,
        None => "|"@,
    }
}

/// Appends a line, stripped, to `out`.
fn append_stripped(out: &mut Vec<char>, line: &Vec<char>, prefix: &Vec<char>)
    ensures
        final(out)@ == old(out)@ + strip_line(line@, prefix@),
{
    let a = spaces_end(line, 0);
    let mut rest: Vec<char> = Vec::new();
    let mut i: usize = a;
    while i < line.len()
        invariant
            a <= i <= line@.len(),
            rest@ == line@.subrange(a as int, i as int),
        decreases line@.len() - i,
    {
        rest.push(line[i]);
        assert(rest@ =~= line@.subrange(a as int, i + 1));
        i = i + 1;
    }
    assert(rest@ =~= trim_start(line@));
    let from: usize = if has_word(&rest, 0, prefix) {
        prefix.len()
    } else {
        0
    };
    let mut j: usize = from;
    while j < rest.len()
        invariant
            from <= j <= rest@.len(),
            out@ == old(out)@ + rest@.subrange(from as int, j as int),
        decreases rest@.len() - j,
    {
        out.push(rest[j]);
        assert(out@ =~= old(out)@ + rest@.subrange(from as int, j + 1));
        j = j + 1;
    }
    assert(rest@.subrange(from as int, rest@.len() as int) =~= rest@.skip(from as int));
}

/// Strips the margin from a text: each line loses the spaces it begins with
/// and then, if it begins with it, the prefix (`|` where none is given). The
/// lines are joined by line feeds again, and the text loses the line feed
/// that it begins with, if it begins with one.
pub fn trim_margin(text: &str, margin_prefix: Option<&str>) -> (r: String)
    ensures
        r@ == trim_margin_spec(text@, margin_of(margin_prefix)),
{
    let prefix = match margin_prefix {
        Some(p) => chars_of(p),
        None => chars_of("|"),
    };
    let chars = chars_of(text);
    let mut out: Vec<char> = Vec::new();
    let mut i: usize = 0;
    let mut done = false;
    assert(chars@.skip(0) =~= chars@);
    assert(out@ + strip_lines(chars@, prefix@) =~= strip_lines(chars@, prefix@));
    while !done
        invariant
            i <= chars@.len(),
            done ==> out@ == strip_lines(chars@, prefix@),
            !done ==> out@ + strip_lines(chars@.skip(i as int), prefix@) == strip_lines(
                chars@,
                prefix@,
            ),
        decreases chars@.len() - i, if done { 0int } else { 1int },
    {
        let ghost tail = chars@.skip(i as int);
        let ghost before = out@;
        let n = index_of_char(&chars, '\n', i);
        proof {
            lemma_find_char_skip(chars@, '\n', i as int, i as int);
        }
        let mut line: Vec<char> = Vec::new();
        let ended = n < chars.len();
        let stop: usize = if ended && i < n && chars[n - 1] == '\r' {
            n - 1
        } else {
            n
        };
        let mut k: usize = i;
        while k < stop
            invariant
                i <= k <= stop <= chars@.len(),
                line@ == chars@.subrange(i as int, k as int),
            decreases stop - k,
        {
            line.push(chars[k]);
            assert(line@ =~= chars@.subrange(i as int, k + 1));
            k = k + 1;
        }
        if ended {
            assert(tail.take(n - i) =~= chars@.subrange(i as int, n as int));
            assert(line@ =~= without_return(tail.take(n - i)));
            append_stripped(&mut out, &line, &prefix);
            out.push('\n');
            assert(tail.skip(n - i + 1) =~= chars@.skip(n + 1));
            assert(out@ =~= before + (strip_line(line@, prefix@) + seq!['\n']));
            assert(out@ + strip_lines(chars@.skip(n + 1), prefix@) =~= before + strip_lines(
                tail,
                prefix@,
            ));
            i = n + 1;
        } else {
            assert(line@ =~= tail);
            append_stripped(&mut out, &line, &prefix);
            done = true;
        }
    }
    let from: usize = if out.len() > 0 && out[0] == '\n' {
        1
    } else {
        0
    };
    let r = string_of(&out, from, out.len());
    assert(out@.subrange(from as int, out@.len() as int) =~= out@.skip(from as int));
    r
}

/// Looking for a character in what is left of a text after `k` characters is
/// looking for it in the text from `k` on.
pub proof fn lemma_find_char_skip(s: Seq<char>, c: char, k: int, i: int)
    requires
        0 <= k <= i <= s.len(),
    ensures
        find_char(s.skip(k), c, i - k) == find_char(s, c, i) - k,
    decreases s.len() - i,
{
    if i < s.len() && s[i] != c {
        lemma_find_char_skip(s, c, k, i + 1);
    }
}

} // verus!
