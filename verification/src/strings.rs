//! Quoted-string helpers for DBC lines.
//!
//! DBC strings are delimited by `"`; a quote preceded by an odd number of
//! backslashes is escaped. Comments (`CM_`) may span several physical lines,
//! so a decoder keeps reading until two unescaped quotes have been seen.
use vstd::prelude::*;
use crate::text::{
    chars_of, chars_of_string, find_char, lemma_find_char, lemma_find_char_at, push_char, slice_of, string_of, trim_start_by, trim_start_exec,
    views, CharClass,
};

verus! {

/// Scans `s` from left to right and returns the number of unescaped quotes
/// together with the length of the run of backslashes that ends `s`.
/// A quote counts when the backslash run right before it has even length.
pub open spec fn quote_scan(s: Seq<char>) -> (nat, nat)
    decreases s.len(),
{
    if s.len() == 0 {
        (0, 0)
    } else {
        let (cnt, bs) = quote_scan(s.drop_last());
        let c = s.last();
        if c == '\\' {
            (cnt, bs + 1)
        } else if c == '"' && bs % 2 == 0 {
            (cnt + 1, 0)
        } else {
            (cnt, 0)
        }
    }
}

/// Number of unescaped double quotes in `s`.
pub open spec fn unescaped_quotes(s: Seq<char>) -> nat {
    quote_scan(s).0
}

/// Counts unescaped double quotes in a string.
///
/// A quote is escaped when immediately preceded by an odd number of backslashes.
pub fn count_unescaped_quotes(s: &str) -> (r: usize)
    ensures
        r == unescaped_quotes(s@),
{
    let v: Vec<char> = chars_of(s);
    count_unescaped_chars(&v)
}

/// [`count_unescaped_quotes`] on a character vector.
pub fn count_unescaped_chars(v: &Vec<char>) -> (r: usize)
    ensures
        r == unescaped_quotes(v@),
{
    let mut count: usize = 0;
    let mut backslashes: usize = 0;
    let mut i: usize = 0;
    while i < v.len()
        invariant
            i <= v.len(),
            quote_scan(v@.take(i as int)) == (count as nat, backslashes as nat),
            count <= i,
            backslashes <= i,
        decreases v.len() - i,
    {
        let ch: char = v[i];
        assert(v@.take(i + 1).drop_last() =~= v@.take(i as int));
        assert(v@.take(i + 1).last() == ch);
        if ch == '\\' {
            backslashes = backslashes + 1;
        } else {
            if ch == '"' && backslashes % 2 == 0 {
                count = count + 1;
            }
            backslashes = 0;
        }
        i = i + 1;
    }
    assert(v@.take(v.len() as int) =~= v@);
    count
}

/// Returns `true` if the string contains at least two unescaped quotes.
pub fn has_complete_quoted_segment(s: &str) -> (r: bool)
    ensures
        r == (unescaped_quotes(s@) >= 2),
{
    count_unescaped_quotes(s) >= 2
}

/// The quoted segments of `s`: for every `"`, the text up to the next `"`;
/// collection stops at the first `"` that no closing quote follows.
pub open spec fn quoted_segments(s: Seq<char>) -> Seq<Seq<char>>
    decreases s.len(),
{
    proof {
        lemma_find_char(s, '"');
    }
    match find_char(s, '"') {
        None => seq![],
        Some(i) => {
            let rest = s.skip(i + 1);
            proof {
                lemma_find_char(rest, '"');
            }
            match find_char(rest, '"') {
                None => seq![],
                Some(j) => seq![rest.take(j)] + quoted_segments(rest.skip(j + 1)),
            }
        },
    }
}

proof fn lemma_find_char_skip(s: Seq<char>, p: int, e: int, c: char)
    requires
        0 <= p <= e <= s.len(),
        forall|k: int| p <= k < e ==> s[k] != c,
    ensures
        e < s.len() && s[e] == c ==> find_char(s.skip(p), c) == Some(e - p),
        e == s.len() ==> find_char(s.skip(p), c) is None,
{
    let t = s.skip(p);
    assert forall|j: int| 0 <= j < e - p implies t[j] != c by {
        assert(t[j] == s[p + j]);
    }
    lemma_find_char_at(t, c, e - p);
}

/// Collects every quoted segment (`"..."`) of the provided string.
///
/// Tolerant to unclosed quotes: collection stops at the first unmatched `"`.
pub fn collect_all_quoted(s: &str) -> (r: Vec<String>)
    ensures
        r@.map_values(|x: String| x@) == quoted_segments(s@),
{
    let v: Vec<char> = chars_of(s);
    let segs: Vec<Vec<char>> = quoted_chars(&v);
    let mut out: Vec<String> = Vec::new();
    let mut k: usize = 0;
    while k < segs.len()
        invariant
            k <= segs.len(),
            out@.map_values(|x: String| x@) == views(segs@).take(k as int),
        decreases segs.len() - k,
    {
        let t: String = string_of(&segs[k]);
        let ghost before = out@.map_values(|x: String| x@);
        out.push(t);
        assert(out@.map_values(|x: String| x@) =~= before.push(segs@[k as int]@));
        assert(views(segs@).take(k + 1) =~= views(segs@).take(k as int).push(segs@[k as int]@));
        k = k + 1;
    }
    assert(views(segs@).take(segs.len() as int) =~= views(segs@));
    out
}

/// [`collect_all_quoted`] on a character vector.
pub fn quoted_chars(v: &Vec<char>) -> (r: Vec<Vec<char>>)
    ensures
        views(r@) == quoted_segments(v@),
{
    let n: usize = v.len();
    let mut out: Vec<Vec<char>> = Vec::new();
    let mut p: usize = 0;
    assert(v@.skip(0) =~= v@);
    while p < n
        invariant
            n == v.len(),
            p <= n,
            views(out@) + quoted_segments(v@.skip(p as int)) == quoted_segments(v@),
        decreases n - p,
    {
        // look for the opening quote
        let mut i: usize = p;
        while i < n && v[i] != '"'
            invariant
                p <= i <= n,
                n == v.len(),
                forall|k: int| p <= k < i ==> v@[k] != '"',
            decreases n - i,
        {
            i = i + 1;
        }
        proof {
            lemma_find_char_skip(v@, p as int, i as int, '"');
        }
        if i == n {
            assert(quoted_segments(v@.skip(p as int)) == Seq::<Seq<char>>::empty());
            p = n;
        } else {
            let start: usize = i + 1;
            let mut j: usize = start;
            while j < n && v[j] != '"'
                invariant
                    start <= j <= n,
                    n == v.len(),
                    forall|k: int| start <= k < j ==> v@[k] != '"',
                decreases n - j,
            {
                j = j + 1;
            }
            proof {
                let t = v@.skip(p as int);
                assert(t.skip(i - p + 1) =~= v@.skip(start as int));
                lemma_find_char_skip(v@, start as int, j as int, '"');
            }
            if j < n {
                let seg: Vec<char> = slice_of(v, start, j);
                proof {
                    assert(v@.skip(start as int).take(j - start) =~= seg@);
                    assert(v@.skip(start as int).skip(j - start + 1) =~= v@.skip(j + 1));
                }
                let ghost before = views(out@);
                out.push(seg);
                assert(views(out@) =~= before.push(seg@));
                assert(before.push(seg@) + quoted_segments(v@.skip(j + 1)) =~= before + (seq![seg@]
                    + quoted_segments(v@.skip(j + 1))));
                p = j + 1;
            } else {
                assert(quoted_segments(v@.skip(p as int)) == Seq::<Seq<char>>::empty());
                p = n;
            }
        }
    }
    assert(v@.skip(n as int) =~= Seq::<char>::empty());
    assert(quoted_segments(Seq::<char>::empty()) == Seq::<Seq<char>>::empty());
    assert(views(out@) + Seq::<Seq<char>>::empty() =~= views(out@));
    out
}

/// The character sequences of a list of lines.
pub open spec fn line_views(lines: Seq<String>) -> Seq<Seq<char>> {
    lines.map_values(|l: String| l@)
}

/// The buffer obtained from `acc` by appending, for each line index in
/// `from + 1 ..= to`, a newline and that line with leading whitespace removed.
pub open spec fn accumulated(acc: Seq<char>, lines: Seq<Seq<char>>, from: int, to: int) -> Seq<char>
    decreases to - from,
{
    if to <= from {
        acc
    } else {
        accumulated(acc, lines, from, to - 1).push('\n') + trim_start_by(
            lines[to],
            CharClass::Ws(true),
        )
    }
}

/// Accumulate subsequent lines until the buffer contains at least two unescaped quotes.
///
/// - `acc` starts with the current line content.
/// - `lines` is the whole file.
/// - `i` is the current line index; it is advanced as lines are consumed.
///
/// Newlines are inserted between the concatenated physical lines.
pub fn accumulate_until_two_unescaped_quotes(acc: &mut String, lines: &[String], i: &mut usize)
    requires
        unescaped_quotes(old(acc)@) >= 2 || *old(i) < usize::MAX,
    ensures
        *old(i) <= *final(i),
        *old(i) < lines.len() ==> *final(i) < lines.len(),
        final(acc)@ == accumulated(
            old(acc)@,
            line_views(lines@),
            *old(i) as int,
            *final(i) as int,
        ),
        unescaped_quotes(final(acc)@) >= 2 || *final(i) + 1 >= lines.len(),
        forall|j: int|
            *old(i) <= j < *final(i) ==> unescaped_quotes(
                #[trigger] accumulated(old(acc)@, line_views(lines@), *old(i) as int, j),
            ) < 2,
{
    let ghost ls = line_views(lines@);
    let ghost start = *i;
    let ghost acc0 = acc@;
    loop
        invariant_except_break
            start <= *i,
            start < lines.len() ==> *i < lines.len(),
            ls == line_views(lines@),
            acc@ == accumulated(acc0, ls, start as int, *i as int),
            unescaped_quotes(acc0) >= 2 || start < usize::MAX,
            forall|j: int| start <= j < *i ==> unescaped_quotes(#[trigger] accumulated(acc0, ls, start as int, j)) < 2,
        ensures
            start <= *i,
            start < lines.len() ==> *i < lines.len(),
            acc@ == accumulated(acc0, ls, start as int, *i as int),
            forall|j: int| start <= j < *i ==> unescaped_quotes(#[trigger] accumulated(acc0, ls, start as int, j)) < 2,
            unescaped_quotes(acc@) >= 2 || *i == usize::MAX || *i + 1 >= lines.len(),
        decreases lines.len() - *i,
    {
        let cur: Vec<char> = chars_of_string(acc);
        if count_unescaped_chars(&cur) >= 2 {
            break;
        }
        if !(*i < usize::MAX && *i + 1 < lines.len()) {
            break;
        }
        let ghost prev = *i;
        *i = *i + 1;
        let line: Vec<char> = chars_of_string(&lines[*i]);
        let t: Vec<char> = trim_start_exec(&line, CharClass::Ws(true));
        push_char(acc, '\n');
        let mut k: usize = 0;
        let ghost base = acc@;
        while k < t.len()
            invariant
                k <= t.len(),
                acc@ == base + t@.take(k as int),
            decreases t.len() - k,
        {
            push_char(acc, t[k]);
            assert(t@.take(k + 1) =~= t@.take(k as int).push(t@[k as int]));
            k = k + 1;
        }
        assert(t@.take(t.len() as int) =~= t@);
        assert(ls[*i as int] == lines@[*i as int]@);
    }
    proof {
        if unescaped_quotes(acc@) < 2 {
            assert(*i == usize::MAX || *i + 1 >= lines.len());
            if *i == usize::MAX {
                assert(*i + 1 >= lines.len());
            }
        }
    }
}

} // verus!
