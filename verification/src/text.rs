//! Character-level primitives shared by the line decoders.
//!
//! Every routine works on the characters of a line (`Seq<char>` in specs,
//! `Vec<char>` at run time) and is specified by a short spec function that
//! states what the corresponding `str` operation computes.
use vstd::prelude::*;

verus! {

// ---------------------------------------------------------------------------
// Whitespace
// ---------------------------------------------------------------------------

/// ASCII whitespace as `char::is_ascii_whitespace` defines it.
pub open spec fn is_ascii_ws(c: char) -> bool {
    c == ' ' || c == '\t' || c == '\n' || c == '\x0C' || c == '\r'
}

/// Unicode `White_Space`, as `char::is_whitespace` defines it.
pub open spec fn is_unicode_ws(c: char) -> bool {
    ||| ('\t' <= c && c <= '\r')
    ||| c == ' '
    ||| c == '\u{85}'
    ||| c == '\u{A0}'
    ||| c == '\u{1680}'
    ||| ('\u{2000}' <= c && c <= '\u{200A}')
    ||| c == '\u{2028}'
    ||| c == '\u{2029}'
    ||| c == '\u{202F}'
    ||| c == '\u{205F}'
    ||| c == '\u{3000}'
}

/// The whitespace class selected by `unicode`.
pub open spec fn is_ws(c: char, unicode: bool) -> bool {
    if unicode {
        is_unicode_ws(c)
    } else {
        is_ascii_ws(c)
    }
}

/// Run-time test for [`is_ws`].
pub fn ws_exec(c: char, unicode: bool) -> (r: bool)
    ensures
        r == is_ws(c, unicode),
{
    if unicode {
        ('\t' <= c && c <= '\r') || c == ' ' || c == '\u{85}' || c == '\u{A0}' || c == '\u{1680}'
            || ('\u{2000}' <= c && c <= '\u{200A}') || c == '\u{2028}' || c == '\u{2029}'
            || c == '\u{202F}' || c == '\u{205F}' || c == '\u{3000}'
    } else {
        c == ' ' || c == '\t' || c == '\n' || c == '\x0C' || c == '\r'
    }
}

// ---------------------------------------------------------------------------
// Tokens (split_whitespace / split_ascii_whitespace)
// ---------------------------------------------------------------------------

/// Length of the maximal run of non-whitespace characters at the start of `s`.
pub open spec fn word_len(s: Seq<char>, unicode: bool) -> nat
    decreases s.len(),
{
    if s.len() == 0 || is_ws(s[0], unicode) {
        0
    } else {
        1 + word_len(s.drop_first(), unicode)
    }
}

/// The whitespace-separated words of `s`, in order (what `split_ascii_whitespace`
/// yields when `unicode` is false and what `split_whitespace` yields otherwise).
pub open spec fn tokens(s: Seq<char>, unicode: bool) -> Seq<Seq<char>>
    decreases s.len(),
{
    if s.len() == 0 {
        seq![]
    } else if is_ws(s[0], unicode) {
        tokens(s.drop_first(), unicode)
    } else {
        let n = word_len(s, unicode);
        proof {
            lemma_word_len_bounds(s, unicode);
        }
        seq![s.take(n as int)] + tokens(s.skip(n as int), unicode)
    }
}

pub proof fn lemma_word_len_bounds(s: Seq<char>, unicode: bool)
    ensures
        word_len(s, unicode) <= s.len(),
        s.len() > 0 && !is_ws(s[0], unicode) ==> word_len(s, unicode) > 0,
    decreases s.len(),
{
    if s.len() > 0 && !is_ws(s[0], unicode) {
        lemma_word_len_bounds(s.drop_first(), unicode);
    }
}

/// A string has no more whitespace-separated words than characters.
pub proof fn lemma_tokens_len(s: Seq<char>, unicode: bool)
    ensures
        tokens(s, unicode).len() <= s.len(),
    decreases s.len(),
{
    if s.len() > 0 {
        if is_ws(s[0], unicode) {
            lemma_tokens_len(s.drop_first(), unicode);
        } else {
            lemma_word_len_bounds(s, unicode);
            lemma_tokens_len(s.skip(word_len(s, unicode) as int), unicode);
        }
    }
}

proof fn lemma_word_scan(s: Seq<char>, i: int, j: int, unicode: bool)
    requires
        0 <= i <= j <= s.len(),
        forall|k: int| i <= k < j ==> !is_ws(#[trigger] s[k], unicode),
    ensures
        word_len(s.skip(i), unicode) == (j - i) + word_len(s.skip(j), unicode),
    decreases j - i,
{
    if i < j {
        assert(s.skip(i).drop_first() =~= s.skip(i + 1));
        lemma_word_scan(s, i + 1, j, unicode);
    }
}

proof fn lemma_word_len_zero(s: Seq<char>, j: int, unicode: bool)
    requires
        0 <= j <= s.len(),
        j == s.len() || is_ws(s[j], unicode),
    ensures
        word_len(s.skip(j), unicode) == 0,
{
}

/// Run-time [`word_len`]: the length of the leading run of non-whitespace.
pub fn word_len_exec(v: &Vec<char>, unicode: bool) -> (r: usize)
    ensures
        r == word_len(v@, unicode),
        r <= v.len(),
{
    let mut j: usize = 0;
    while j < v.len() && !ws_exec(v[j], unicode)
        invariant
            j <= v.len(),
            forall|k: int| 0 <= k < j ==> !is_ws(#[trigger] v@[k], unicode),
        decreases v.len() - j,
    {
        j = j + 1;
    }
    proof {
        lemma_word_scan(v@, 0, j as int, unicode);
        lemma_word_len_zero(v@, j as int, unicode);
        assert(v@.skip(0) =~= v@);
    }
    j
}

/// The character sequences held by a vector of character vectors.
pub open spec fn views(s: Seq<Vec<char>>) -> Seq<Seq<char>> {
    s.map_values(|w: Vec<char>| w@)
}

/// Splits `v` into its whitespace-separated words.
pub fn split_ws(v: &Vec<char>, unicode: bool) -> (r: Vec<Vec<char>>)
    ensures
        views(r@) == tokens(v@, unicode),
{
    let n: usize = v.len();
    let mut out: Vec<Vec<char>> = Vec::new();
    let mut i: usize = 0;
    assert(v@.skip(0) =~= v@);
    while i < n
        invariant
            n == v.len(),
            i <= n,
            views(out@) + tokens(v@.skip(i as int), unicode) == tokens(v@, unicode),
        decreases n - i,
    {
        if ws_exec(v[i], unicode) {
            assert(v@.skip(i as int).drop_first() =~= v@.skip(i + 1));
            i = i + 1;
        } else {
            let start: usize = i;
            let mut word: Vec<char> = Vec::new();
            while i < n && !ws_exec(v[i], unicode)
                invariant
                    n == v.len(),
                    start <= i <= n,
                    word@ == v@.subrange(start as int, i as int),
                    forall|k: int| start <= k < i ==> !is_ws(#[trigger] v@[k], unicode),
                decreases n - i,
            {
                word.push(v[i]);
                i = i + 1;
            }
            proof {
                let s = v@;
                lemma_word_scan(s, start as int, i as int, unicode);
                lemma_word_len_zero(s, i as int, unicode);
                let t = s.skip(start as int);
                assert(word_len(t, unicode) == i - start);
                assert(t.take(i - start) =~= word@);
                assert(t.skip(i - start) =~= s.skip(i as int));
                assert(tokens(t, unicode) == seq![word@] + tokens(s.skip(i as int), unicode));
                let old_dv = views(out@);
                assert(old_dv.push(word@) + tokens(s.skip(i as int), unicode) =~= old_dv + (
                seq![word@] + tokens(s.skip(i as int), unicode)));
            }
            let ghost old_dv = views(out@);
            let ghost w = word@;
            out.push(word);
            assert(views(out@) =~= old_dv.push(w));
        }
    }
    assert(v@.skip(n as int) =~= Seq::<char>::empty());
    assert(views(out@) + Seq::<Seq<char>>::empty() =~= views(out@));
    out
}


// ---------------------------------------------------------------------------
// Trimming
// ---------------------------------------------------------------------------

/// A character class used by the trimming routines.
#[derive(Clone, Copy)]
pub enum CharClass {
    /// Whitespace (Unicode when the flag is set, ASCII otherwise).
    Ws(bool),
    /// One given character.
    Is(char),
    /// Either of two given characters.
    Either(char, char),
}

/// Membership in a character class.
pub open spec fn in_class(k: CharClass, c: char) -> bool {
    match k {
        CharClass::Ws(u) => is_ws(c, u),
        CharClass::Is(d) => c == d,
        CharClass::Either(d, e) => c == d || c == e,
    }
}

/// Run-time test for [`in_class`].
pub fn in_class_exec(k: CharClass, c: char) -> (r: bool)
    ensures
        r == in_class(k, c),
{
    match k {
        CharClass::Ws(u) => ws_exec(c, u),
        CharClass::Is(d) => c == d,
        CharClass::Either(d, e) => c == d || c == e,
    }
}

/// Number of leading characters of `s` in class `k`.
pub open spec fn lead_count(s: Seq<char>, k: CharClass) -> nat
    decreases s.len(),
{
    if s.len() > 0 && in_class(k, s[0]) {
        1 + lead_count(s.drop_first(), k)
    } else {
        0
    }
}

/// Number of trailing characters of `s` in class `k`.
pub open spec fn trail_count(s: Seq<char>, k: CharClass) -> nat
    decreases s.len(),
{
    if s.len() > 0 && in_class(k, s.last()) {
        1 + trail_count(s.drop_last(), k)
    } else {
        0
    }
}

/// `s` without its leading characters of class `k` (`trim_start_matches`).
pub open spec fn trim_start_by(s: Seq<char>, k: CharClass) -> Seq<char> {
    s.skip(lead_count(s, k) as int)
}

/// `s` without its trailing characters of class `k` (`trim_end_matches`).
pub open spec fn trim_end_by(s: Seq<char>, k: CharClass) -> Seq<char> {
    s.take(s.len() - trail_count(s, k))
}

/// `s` without leading and trailing characters of class `k` (`trim_matches`).
pub open spec fn trim_by(s: Seq<char>, k: CharClass) -> Seq<char> {
    trim_end_by(trim_start_by(s, k), k)
}

/// `str::trim`: both ends stripped of Unicode whitespace.
pub open spec fn trim(s: Seq<char>) -> Seq<char> {
    trim_by(s, CharClass::Ws(true))
}

pub proof fn lemma_lead_count(s: Seq<char>, i: int, k: CharClass)
    requires
        0 <= i <= s.len(),
        forall|j: int| 0 <= j < i ==> in_class(k, #[trigger] s[j]),
    ensures
        lead_count(s, k) == i + lead_count(s.skip(i), k),
        lead_count(s, k) <= s.len(),
    decreases i,
{
    if i > 0 {
        assert(in_class(k, s[0]));
        assert(s.drop_first().skip(i - 1) =~= s.skip(i));
        assert forall|j: int| 0 <= j < i - 1 implies in_class(k, #[trigger] s.drop_first()[j]) by {
            assert(s.drop_first()[j] == s[j + 1]);
        }
        lemma_lead_count(s.drop_first(), i - 1, k);
    } else {
        assert(s.skip(0) =~= s);
        lemma_lead_count_bound(s, k);
    }
}

pub proof fn lemma_lead_count_bound(s: Seq<char>, k: CharClass)
    ensures
        lead_count(s, k) <= s.len(),
    decreases s.len(),
{
    if s.len() > 0 {
        lemma_lead_count_bound(s.drop_first(), k);
    }
}

pub proof fn lemma_trail_count(s: Seq<char>, e: int, k: CharClass)
    requires
        0 <= e <= s.len(),
        forall|j: int| e <= j < s.len() ==> in_class(k, #[trigger] s[j]),
    ensures
        trail_count(s, k) == (s.len() - e) + trail_count(s.take(e), k),
        trail_count(s, k) <= s.len(),
    decreases s.len() - e,
{
    if e < s.len() {
        assert(in_class(k, s[s.len() - 1]));
        assert(s.drop_last().take(e) =~= s.take(e));
        assert forall|j: int| e <= j < s.drop_last().len() implies in_class(k, #[trigger] s.drop_last()[j]) by {
            assert(s.drop_last()[j] == s[j]);
        }
        lemma_trail_count(s.drop_last(), e, k);
    } else {
        assert(s.take(e) =~= s);
        lemma_trail_count_bound(s, k);
    }
}

pub proof fn lemma_trail_count_bound(s: Seq<char>, k: CharClass)
    ensures
        trail_count(s, k) <= s.len(),
    decreases s.len(),
{
    if s.len() > 0 {
        lemma_trail_count_bound(s.drop_last(), k);
    }
}

/// Copies `v[from..to]`.
pub fn slice_of(v: &Vec<char>, from: usize, to: usize) -> (r: Vec<char>)
    requires
        from <= to <= v.len(),
    ensures
        r@ == v@.subrange(from as int, to as int),
{
    let mut r: Vec<char> = Vec::new();
    let mut i: usize = from;
    while i < to
        invariant
            from <= i <= to <= v.len(),
            r@ == v@.subrange(from as int, i as int),
        decreases to - i,
    {
        r.push(v[i]);
        i = i + 1;
    }
    r
}

/// `trim_start_matches` for a character class.
pub fn trim_start_exec(v: &Vec<char>, k: CharClass) -> (r: Vec<char>)
    ensures
        r@ == trim_start_by(v@, k),
{
    let mut i: usize = 0;
    while i < v.len() && in_class_exec(k, v[i])
        invariant
            i <= v.len(),
            forall|j: int| 0 <= j < i ==> in_class(k, #[trigger] v@[j]),
        decreases v.len() - i,
    {
        i = i + 1;
    }
    proof {
        lemma_lead_count(v@, i as int, k);
    }
    slice_of(v, i, v.len())
}

/// `trim_end_matches` for a character class.
pub fn trim_end_exec(v: &Vec<char>, k: CharClass) -> (r: Vec<char>)
    ensures
        r@ == trim_end_by(v@, k),
{
    let mut e: usize = v.len();
    while e > 0 && in_class_exec(k, v[e - 1])
        invariant
            e <= v.len(),
            forall|j: int| e <= j < v.len() ==> in_class(k, #[trigger] v@[j]),
        decreases e,
    {
        e = e - 1;
    }
    proof {
        lemma_trail_count(v@, e as int, k);
    }
    slice_of(v, 0, e)
}

/// `trim_matches` for a character class.
pub fn trim_exec(v: &Vec<char>, k: CharClass) -> (r: Vec<char>)
    ensures
        r@ == trim_by(v@, k),
{
    let a = trim_start_exec(v, k);
    trim_end_exec(&a, k)
}

// ---------------------------------------------------------------------------
// Prefixes, searching, comparing
// ---------------------------------------------------------------------------

/// `s` begins with `p`.
pub open spec fn starts_with(s: Seq<char>, p: Seq<char>) -> bool {
    p.len() <= s.len() && s.take(p.len() as int) == p
}

/// `s` ends with `p`.
pub open spec fn ends_with(s: Seq<char>, p: Seq<char>) -> bool {
    p.len() <= s.len() && s.skip(s.len() - p.len()) == p
}

/// `str::strip_prefix`.
pub open spec fn strip_prefix(s: Seq<char>, p: Seq<char>) -> Option<Seq<char>> {
    if starts_with(s, p) {
        Some(s.skip(p.len() as int))
    } else {
        None
    }
}

/// `str::trim_start_matches` with a string pattern: every repetition of `p` at
/// the front is removed.
pub open spec fn trim_start_pat(s: Seq<char>, p: Seq<char>) -> Seq<char>
    decreases s.len(),
{
    if p.len() > 0 && starts_with(s, p) {
        trim_start_pat(s.skip(p.len() as int), p)
    } else {
        s
    }
}

/// Character-wise equality of two vectors.
pub fn eq_vec(a: &Vec<char>, b: &Vec<char>) -> (r: bool)
    ensures
        r == (a@ == b@),
{
    if a.len() != b.len() {
        return false;
    }
    let mut i: usize = 0;
    while i < a.len()
        invariant
            a.len() == b.len(),
            i <= a.len(),
            forall|j: int| 0 <= j < i ==> a@[j] == b@[j],
        decreases a.len() - i,
    {
        if a[i] != b[i] {
            return false;
        }
        i = i + 1;
    }
    assert(a@ =~= b@);
    true
}

/// Does `v` begin with `p`?
pub fn starts_with_exec(v: &Vec<char>, p: &Vec<char>) -> (r: bool)
    ensures
        r == starts_with(v@, p@),
{
    if p.len() > v.len() {
        return false;
    }
    let mut i: usize = 0;
    while i < p.len()
        invariant
            p.len() <= v.len(),
            i <= p.len(),
            forall|j: int| 0 <= j < i ==> v@[j] == p@[j],
        decreases p.len() - i,
    {
        if v[i] != p[i] {
            assert(v@.take(p.len() as int)[i as int] != p@[i as int]);
            return false;
        }
        i = i + 1;
    }
    assert(v@.take(p.len() as int) =~= p@);
    true
}

/// Does `v` end with `p`?
pub fn ends_with_exec(v: &Vec<char>, p: &Vec<char>) -> (r: bool)
    ensures
        r == ends_with(v@, p@),
{
    if p.len() > v.len() {
        return false;
    }
    let off: usize = v.len() - p.len();
    let mut i: usize = 0;
    while i < p.len()
        invariant
            p.len() <= v.len(),
            off == v.len() - p.len(),
            i <= p.len(),
            forall|j: int| 0 <= j < i ==> v@[off + j] == p@[j],
        decreases p.len() - i,
    {
        if v[off + i] != p[i] {
            assert(v@.skip(off as int)[i as int] != p@[i as int]);
            return false;
        }
        i = i + 1;
    }
    assert(v@.skip(off as int) =~= p@);
    true
}

/// `str::strip_prefix`.
pub fn strip_prefix_exec(v: &Vec<char>, p: &Vec<char>) -> (r: Option<Vec<char>>)
    ensures
        r matches Some(t) ==> strip_prefix(v@, p@) == Some(t@),
        r is None ==> strip_prefix(v@, p@) is None,
{
    if starts_with_exec(v, p) {
        Some(slice_of(v, p.len(), v.len()))
    } else {
        None
    }
}

/// `str::trim_start_matches` with a string pattern.
pub fn trim_start_pat_exec(v: &Vec<char>, p: &Vec<char>) -> (r: Vec<char>)
    ensures
        r@ == trim_start_pat(v@, p@),
{
    let mut cur: Vec<char> = slice_of(v, 0, v.len());
    assert(cur@ =~= v@);
    while p.len() > 0 && starts_with_exec(&cur, p)
        invariant
            trim_start_pat(cur@, p@) == trim_start_pat(v@, p@),
        decreases cur.len(),
    {
        cur = slice_of(&cur, p.len(), cur.len());
    }
    cur
}

/// Index of the first occurrence of `c` in `s`.
pub open spec fn find_char(s: Seq<char>, c: char) -> Option<int>
    decreases s.len(),
{
    if s.len() == 0 {
        None
    } else if s[0] == c {
        Some(0)
    } else {
        match find_char(s.drop_first(), c) {
            Some(i) => Some(i + 1),
            None => None,
        }
    }
}

/// Index of the last occurrence of `c` in `s`.
pub open spec fn rfind_char(s: Seq<char>, c: char) -> Option<int>
    decreases s.len(),
{
    if s.len() == 0 {
        None
    } else if s.last() == c {
        Some(s.len() - 1)
    } else {
        rfind_char(s.drop_last(), c)
    }
}

/// [`find_char`] is the first index holding `c`.
pub proof fn lemma_find_char(s: Seq<char>, c: char)
    ensures
        find_char(s, c) matches Some(i) ==> 0 <= i < s.len() && s[i] == c && forall|j: int|
            0 <= j < i ==> s[j] != c,
        find_char(s, c) is None ==> forall|j: int| 0 <= j < s.len() ==> s[j] != c,
    decreases s.len(),
{
    if s.len() > 0 && s[0] != c {
        lemma_find_char(s.drop_first(), c);
        if let Some(i) = find_char(s.drop_first(), c) {
            assert forall|j: int| 0 <= j < i + 1 implies s[j] != c by {
                if j > 0 {
                    assert(s[j] == s.drop_first()[j - 1]);
                }
            }
        } else {
            assert forall|j: int| 0 <= j < s.len() implies s[j] != c by {
                if j > 0 {
                    assert(s[j] == s.drop_first()[j - 1]);
                }
            }
        }
    }
}

/// The first index holding `c` is what [`find_char`] gives.
pub proof fn lemma_find_char_at(s: Seq<char>, c: char, i: int)
    requires
        0 <= i <= s.len(),
        forall|j: int| 0 <= j < i ==> s[j] != c,
    ensures
        i < s.len() && s[i] == c ==> find_char(s, c) == Some(i),
        i == s.len() ==> find_char(s, c) is None,
    decreases i,
{
    if i > 0 {
        assert forall|j: int| 0 <= j < i - 1 implies s.drop_first()[j] != c by {
            assert(s.drop_first()[j] == s[j + 1]);
        }
        lemma_find_char_at(s.drop_first(), c, i - 1);
        if i < s.len() {
            assert(s.drop_first()[i - 1] == s[i]);
        }
    }
}

/// [`rfind_char`] is the last index holding `c`.
pub proof fn lemma_rfind_char(s: Seq<char>, c: char)
    ensures
        rfind_char(s, c) matches Some(i) ==> 0 <= i < s.len() && s[i] == c && forall|j: int|
            i < j < s.len() ==> s[j] != c,
        rfind_char(s, c) is None ==> forall|j: int| 0 <= j < s.len() ==> s[j] != c,
    decreases s.len(),
{
    if s.len() > 0 && s.last() != c {
        lemma_rfind_char(s.drop_last(), c);
        assert forall|j: int| 0 <= j < s.len() - 1 implies s[j] == s.drop_last()[j] by {}
        if let Some(i) = rfind_char(s, c) {
            assert(s[i] == s.drop_last()[i]);
            assert forall|j: int| i < j < s.len() implies s[j] != c by {
                if j < s.len() - 1 {
                    assert(s[j] == s.drop_last()[j]);
                }
            }
        } else {
            assert forall|j: int| 0 <= j < s.len() implies s[j] != c by {
                if j < s.len() - 1 {
                    assert(s[j] == s.drop_last()[j]);
                }
            }
        }
    }
}

/// The last index holding `c` is what [`rfind_char`] gives.
pub proof fn lemma_rfind_char_at(s: Seq<char>, c: char, e: int)
    requires
        0 <= e <= s.len(),
        forall|j: int| e <= j < s.len() ==> s[j] != c,
    ensures
        e > 0 && s[e - 1] == c ==> rfind_char(s, c) == Some(e - 1),
        e == 0 ==> rfind_char(s, c) is None,
    decreases s.len() - e,
{
    if e < s.len() {
        assert forall|j: int| e <= j < s.drop_last().len() implies s.drop_last()[j] != c by {
            assert(s.drop_last()[j] == s[j]);
        }
        lemma_rfind_char_at(s.drop_last(), c, e);
    }
}

/// `str::find` for one character.
pub fn find_exec(v: &Vec<char>, c: char) -> (r: Option<usize>)
    ensures
        r matches Some(i) ==> i < v.len() && find_char(v@, c) == Some(i as int),
        r is None ==> find_char(v@, c) is None,
{
    let mut i: usize = 0;
    while i < v.len() && v[i] != c
        invariant
            i <= v.len(),
            forall|j: int| 0 <= j < i ==> v@[j] != c,
        decreases v.len() - i,
    {
        i = i + 1;
    }
    proof {
        lemma_find_char_at(v@, c, i as int);
    }
    if i < v.len() {
        Some(i)
    } else {
        None
    }
}

/// `str::rfind` for one character.
pub fn rfind_exec(v: &Vec<char>, c: char) -> (r: Option<usize>)
    ensures
        r matches Some(i) ==> i < v.len() && rfind_char(v@, c) == Some(i as int),
        r is None ==> rfind_char(v@, c) is None,
{
    let mut e: usize = v.len();
    while e > 0 && v[e - 1] != c
        invariant
            e <= v.len(),
            forall|j: int| e <= j < v.len() ==> v@[j] != c,
        decreases e,
    {
        e = e - 1;
    }
    proof {
        lemma_rfind_char_at(v@, c, e as int);
    }
    if e > 0 {
        Some(e - 1)
    } else {
        None
    }
}

/// `s` contains `p` as a contiguous piece.
pub open spec fn contains_seq(s: Seq<char>, p: Seq<char>) -> bool {
    exists|i: int| 0 <= i && i + p.len() <= s.len() && #[trigger] s.subrange(i, i + p.len()) == p
}

/// `str::contains` with a string pattern.
pub fn contains_exec(v: &Vec<char>, p: &Vec<char>) -> (r: bool)
    ensures
        r == contains_seq(v@, p@),
{
    if p.len() > v.len() {
        return false;
    }
    let last: usize = v.len() - p.len();
    let mut i: usize = 0;
    while i <= last
        invariant
            last == v.len() - p.len(),
            p.len() <= v.len(),
            i <= last + 1,
            forall|k: int| 0 <= k < i ==> #[trigger] v@.subrange(k, k + p.len()) != p@,
        decreases last + 1 - i,
    {
        let mut j: usize = 0;
        let mut ok: bool = true;
        while j < p.len()
            invariant
                i <= last,
                last == v.len() - p.len(),
                j <= p.len(),
                ok ==> forall|t: int| 0 <= t < j ==> v@[i + t] == p@[t],
                !ok ==> v@.subrange(i as int, i + p.len()) != p@,
            decreases p.len() - j,
        {
            if ok && v[i + j] != p[j] {
                assert(v@.subrange(i as int, i + p.len())[j as int] != p@[j as int]);
                ok = false;
            }
            j = j + 1;
        }
        if ok {
            assert(v@.subrange(i as int, i + p.len()) =~= p@);
            return true;
        }
        if i == last {
            return false;
        }
        i = i + 1;
    }
    false
}

// ---------------------------------------------------------------------------
// Splitting on a character, lines, joining
// ---------------------------------------------------------------------------

/// `str::split` on one character: the pieces between occurrences of `c`
/// (there is always at least one piece).
pub open spec fn split_char(s: Seq<char>, c: char) -> Seq<Seq<char>>
    decreases s.len(),
{
    proof {
        lemma_find_char(s, c);
    }
    match find_char(s, c) {
        None => seq![s],
        Some(i) => seq![s.take(i)] + split_char(s.skip(i + 1), c),
    }
}

/// Position of the first occurrence of `p` in `s` (`str::find` with a
/// string pattern).
pub open spec fn find_seq(s: Seq<char>, p: Seq<char>) -> Option<int>
    decreases s.len(),
{
    if s.len() < p.len() {
        None
    } else if s.take(p.len() as int) == p {
        Some(0)
    } else if s.len() == 0 {
        None
    } else {
        match find_seq(s.drop_first(), p) {
            Some(i) => Some(i + 1),
            None => None,
        }
    }
}

pub proof fn lemma_find_seq(s: Seq<char>, p: Seq<char>)
    ensures
        find_seq(s, p) matches Some(i) ==> 0 <= i && i + p.len() <= s.len() && s.subrange(i, i + p.len()) == p,
    decreases s.len(),
{
    if s.len() >= p.len() && s.take(p.len() as int) != p && s.len() > 0 {
        lemma_find_seq(s.drop_first(), p);
        if let Some(i) = find_seq(s.drop_first(), p) {
            assert(s.subrange(i + 1, i + 1 + p.len()) =~= s.drop_first().subrange(i, i + p.len()));
        }
    }
}

/// Run-time [`find_seq`].
pub fn find_seq_exec(v: &Vec<char>, p: &Vec<char>) -> (r: Option<usize>)
    ensures
        r matches Some(i) ==> find_seq(v@, p@) == Some(i as int),
        r is None ==> find_seq(v@, p@) is None,
{
    let mut i: usize = 0;
    assert(v@.skip(0) =~= v@);
    while i <= v.len()
        invariant
            i <= v.len() + 1,
            i <= v.len() ==> find_seq(v@, p@) == (match find_seq(v@.skip(i as int), p@) {
                Some(j) => Some(j + i),
                None => None,
            }),
            i > v.len() ==> find_seq(v@, p@) is None,
        decreases v.len() + 1 - i,
    {
        let rest: Vec<char> = slice_of(v, i, v.len());
        assert(rest@ =~= v@.skip(i as int));
        if rest.len() < p.len() {
            return None;
        }
        let head: Vec<char> = slice_of(&rest, 0, p.len());
        assert(head@ =~= rest@.take(p.len() as int));
        if eq_vec(&head, p) {
            return Some(i);
        }
        if rest.len() == 0 {
            return None;
        }
        assert(v@.skip(i as int).drop_first() =~= v@.skip(i + 1));
        i = i + 1;
    }
    None
}

/// The pieces of `s` between occurrences of `a` or `b`
/// (`str::split([a, b])`).
pub open spec fn split_either(s: Seq<char>, a: char, b: char) -> Seq<Seq<char>> {
    flatten_splits(split_char(s, a), b)
}

/// Every piece split on `b`, the results concatenated.
pub open spec fn flatten_splits(ps: Seq<Seq<char>>, b: char) -> Seq<Seq<char>>
    decreases ps.len(),
{
    if ps.len() == 0 {
        seq![]
    } else {
        flatten_splits(ps.drop_last(), b) + split_char(ps.last(), b)
    }
}

/// Run-time [`split_either`].
pub fn split_either_exec(v: &Vec<char>, a: char, b: char) -> (r: Vec<Vec<char>>)
    ensures
        views(r@) == split_either(v@, a, b),
{
    let first: Vec<Vec<char>> = split_char_exec(v, a);
    let mut out: Vec<Vec<char>> = Vec::new();
    let mut i: usize = 0;
    while i < first.len()
        invariant
            i <= first.len(),
            views(out@) == flatten_splits(views(first@).take(i as int), b),
        decreases first.len() - i,
    {
        let pieces: Vec<Vec<char>> = split_char_exec(&first[i], b);
        let mut k: usize = 0;
        let ghost base = views(out@);
        while k < pieces.len()
            invariant
                k <= pieces.len(),
                views(out@) == base + views(pieces@).take(k as int),
            decreases pieces.len() - k,
        {
            let w: Vec<char> = slice_of(&pieces[k], 0, pieces[k].len());
            assert(w@ =~= pieces@[k as int]@);
            let ghost before = views(out@);
            out.push(w);
            assert(views(out@) =~= before.push(w@));
            assert(views(pieces@).take(k + 1) =~= views(pieces@).take(k as int).push(w@));
            assert(base + views(pieces@).take(k + 1) =~= (base + views(pieces@).take(k as int)).push(w@));
            k = k + 1;
        }
        assert(views(pieces@).take(pieces.len() as int) =~= views(pieces@));
        assert(views(first@).take(i + 1).drop_last() =~= views(first@).take(i as int));
        i = i + 1;
    }
    assert(views(first@).take(first.len() as int) =~= views(first@));
    out
}

/// `s` without one trailing carriage return.
pub open spec fn strip_cr(s: Seq<char>) -> Seq<char> {
    if s.len() > 0 && s.last() == '\r' {
        s.drop_last()
    } else {
        s
    }
}

/// `str::lines`: pieces ended by `\n` (a `\r` right before it is dropped
/// too); a final line ending does not start an empty line.
pub open spec fn lines_of(s: Seq<char>) -> Seq<Seq<char>>
    decreases s.len(),
{
    proof {
        lemma_find_char(s, '\n');
    }
    if s.len() == 0 {
        seq![]
    } else {
        match find_char(s, '\n') {
            None => seq![s],
            Some(i) => seq![strip_cr(s.take(i))] + lines_of(s.skip(i + 1)),
        }
    }
}

/// The pieces joined with `sep` between consecutive ones (`join`).
pub open spec fn join_with(ps: Seq<Seq<char>>, sep: Seq<char>) -> Seq<char>
    decreases ps.len(),
{
    if ps.len() == 0 {
        seq![]
    } else if ps.len() == 1 {
        ps[0]
    } else {
        join_with(ps.drop_last(), sep) + sep + ps.last()
    }
}

/// Leading Unicode whitespace removed from each piece.
pub open spec fn trim_start_each(ps: Seq<Seq<char>>) -> Seq<Seq<char>> {
    ps.map_values(|p: Seq<char>| trim_start_by(p, CharClass::Ws(true)))
}

proof fn lemma_scan_to(s: Seq<char>, p: int, e: int, c: char)
    requires
        0 <= p <= e <= s.len(),
        forall|k: int| p <= k < e ==> s[k] != c,
    ensures
        e < s.len() && s[e] == c ==> find_char(s.skip(p), c) == Some(e - p),
        e == s.len() ==> find_char(s.skip(p), c) is None,
{
    let t = s.skip(p);
    assert forall|j: int| 0 <= j < e - p implies t[j] != c by {
        assert(t[j] == s[p + j]);
    }
    lemma_find_char_at(t, c, e - p);
}

/// `str::split` on one character.
pub fn split_char_exec(v: &Vec<char>, c: char) -> (r: Vec<Vec<char>>)
    ensures
        views(r@) == split_char(v@, c),
        r.len() >= 1,
{
    let n: usize = v.len();
    let mut out: Vec<Vec<char>> = Vec::new();
    let mut p: usize = 0;
    assert(v@.skip(0) =~= v@);
    loop
        invariant
            n == v.len(),
            p <= n,
            views(out@) + split_char(v@.skip(p as int), c) == split_char(v@, c),
        decreases n - p,
    {
        let mut e: usize = p;
        while e < n && v[e] != c
            invariant
                p <= e <= n,
                n == v.len(),
                forall|k: int| p <= k < e ==> v@[k] != c,
            decreases n - e,
        {
            e = e + 1;
        }
        proof {
            lemma_scan_to(v@, p as int, e as int, c);
        }
        let piece: Vec<char> = slice_of(v, p, e);
        assert(v@.skip(p as int).take(e - p) =~= piece@);
        let ghost before = views(out@);
        out.push(piece);
        assert(views(out@) =~= before.push(piece@));
        if e == n {
            assert(v@.skip(p as int) =~= piece@);
            assert(before.push(piece@) =~= before + seq![piece@]);
            return out;
        }
        assert(v@.skip(p as int).skip(e - p + 1) =~= v@.skip(e + 1));
        assert(before.push(piece@) + split_char(v@.skip(e + 1), c) =~= before + (seq![piece@]
            + split_char(v@.skip(e + 1), c)));
        p = e + 1;
    }
}

/// `str::lines`.
pub fn lines_exec(v: &Vec<char>) -> (r: Vec<Vec<char>>)
    ensures
        views(r@) == lines_of(v@),
{
    let n: usize = v.len();
    let mut out: Vec<Vec<char>> = Vec::new();
    let mut p: usize = 0;
    assert(v@.skip(0) =~= v@);
    while p < n
        invariant
            n == v.len(),
            p <= n,
            views(out@) + lines_of(v@.skip(p as int)) == lines_of(v@),
        decreases n - p,
    {
        let mut e: usize = p;
        while e < n && v[e] != '\n'
            invariant
                p <= e <= n,
                n == v.len(),
                forall|k: int| p <= k < e ==> v@[k] != '\n',
            decreases n - e,
        {
            e = e + 1;
        }
        proof {
            lemma_scan_to(v@, p as int, e as int, '\n');
        }
        let ghost before = views(out@);
        if e == n {
            let piece: Vec<char> = slice_of(v, p, e);
            assert(v@.skip(p as int) =~= piece@);
            out.push(piece);
            assert(views(out@) =~= before.push(piece@));
            assert(v@.skip(n as int) =~= Seq::<char>::empty());
            assert(before.push(piece@) + Seq::<Seq<char>>::empty() =~= before + seq![piece@]);
            p = n;
        } else {
            let end: usize = if e > p && v[e - 1] == '\r' { e - 1 } else { e };
            let piece: Vec<char> = slice_of(v, p, end);
            assert(strip_cr(v@.skip(p as int).take(e - p)) =~= piece@);
            out.push(piece);
            assert(views(out@) =~= before.push(piece@));
            assert(v@.skip(p as int).skip(e - p + 1) =~= v@.skip(e + 1));
            assert(before.push(piece@) + lines_of(v@.skip(e + 1)) =~= before + (seq![piece@]
                + lines_of(v@.skip(e + 1))));
            p = e + 1;
        }
    }
    assert(v@.skip(n as int) =~= Seq::<char>::empty());
    assert(views(out@) + Seq::<Seq<char>>::empty() =~= views(out@));
    out
}

/// Joins the pieces with `sep`.
pub fn join_exec(ps: &Vec<Vec<char>>, sep: &Vec<char>) -> (r: Vec<char>)
    ensures
        r@ == join_with(views(ps@), sep@),
{
    let mut r: Vec<char> = Vec::new();
    let mut k: usize = 0;
    while k < ps.len()
        invariant
            k <= ps.len(),
            r@ == join_with(views(ps@).take(k as int), sep@),
        decreases ps.len() - k,
    {
        let ghost pre = views(ps@).take(k as int);
        assert(views(ps@).take(k + 1).drop_last() =~= pre);
        if k > 0 {
            extend_chars(&mut r, sep);
        } else {
            assert(views(ps@).take(1) =~= seq![ps@[0]@]);
        }
        extend_chars(&mut r, &ps[k]);
        k = k + 1;
    }
    assert(views(ps@).take(ps.len() as int) =~= views(ps@));
    r
}

/// The words of `v` from position `from` on.
pub fn words_from(v: &Vec<Vec<char>>, from: usize) -> (r: Vec<Vec<char>>)
    requires
        from <= v.len(),
    ensures
        views(r@) == views(v@).skip(from as int),
{
    let mut out: Vec<Vec<char>> = Vec::new();
    let mut k: usize = from;
    while k < v.len()
        invariant
            from <= k <= v.len(),
            views(out@) == views(v@).subrange(from as int, k as int),
        decreases v.len() - k,
    {
        let ghost before = views(out@);
        let w: Vec<char> = slice_of(&v[k], 0, v[k].len());
        assert(w@ =~= v@[k as int]@);
        out.push(w);
        assert(views(out@) =~= before.push(w@));
        assert(views(out@) =~= views(v@).subrange(from as int, k + 1));
        k = k + 1;
    }
    assert(views(v@).skip(from as int) =~= views(v@).subrange(from as int, v.len() as int));
    out
}

/// Leading Unicode whitespace removed from each piece.
pub fn trim_start_each_exec(ps: &Vec<Vec<char>>) -> (r: Vec<Vec<char>>)
    ensures
        views(r@) == trim_start_each(views(ps@)),
{
    let mut r: Vec<Vec<char>> = Vec::new();
    let mut k: usize = 0;
    while k < ps.len()
        invariant
            k <= ps.len(),
            views(r@) == trim_start_each(views(ps@)).take(k as int),
        decreases ps.len() - k,
    {
        let t: Vec<char> = trim_start_exec(&ps[k], CharClass::Ws(true));
        let ghost before = views(r@);
        r.push(t);
        assert(views(r@) =~= before.push(t@));
        assert(trim_start_each(views(ps@)).take(k + 1) =~= trim_start_each(views(ps@)).take(k as int).push(t@));
        k = k + 1;
    }
    assert(trim_start_each(views(ps@)).take(ps.len() as int) =~= trim_start_each(views(ps@)));
    r
}

/// `s.lines().map(str::trim_start).collect::<Vec<_>>().join("\n")`.
pub open spec fn normalize_lines(s: Seq<char>) -> Seq<char> {
    join_with(trim_start_each(lines_of(s)), seq!['\n'])
}

/// Run-time [`normalize_lines`].
pub fn normalize_lines_exec(v: &Vec<char>) -> (r: Vec<char>)
    ensures
        r@ == normalize_lines(v@),
{
    let ls: Vec<Vec<char>> = lines_exec(v);
    let ts: Vec<Vec<char>> = trim_start_each_exec(&ls);
    let mut sep: Vec<char> = Vec::new();
    sep.push('\n');
    assert(sep@ =~= seq!['\n']);
    join_exec(&ts, &sep)
}

// ---------------------------------------------------------------------------
// Replacing, lower-casing
// ---------------------------------------------------------------------------

/// `s.replace(p, "")`: every non-overlapping occurrence of `p`, scanning from
/// the left, is removed.
pub open spec fn remove_all(s: Seq<char>, p: Seq<char>) -> Seq<char>
    decreases s.len(),
{
    if p.len() > 0 && starts_with(s, p) {
        remove_all(s.skip(p.len() as int), p)
    } else if s.len() == 0 {
        seq![]
    } else {
        seq![s[0]] + remove_all(s.drop_first(), p)
    }
}

fn starts_with_at(v: &Vec<char>, i: usize, p: &Vec<char>) -> (r: bool)
    requires
        i <= v.len(),
    ensures
        r == starts_with(v@.skip(i as int), p@),
{
    let t: Vec<char> = slice_of(v, i, v.len());
    assert(t@ =~= v@.skip(i as int));
    starts_with_exec(&t, p)
}

/// Run-time [`remove_all`].
pub fn remove_all_exec(v: &Vec<char>, p: &Vec<char>) -> (r: Vec<char>)
    ensures
        r@ == remove_all(v@, p@),
{
    let mut out: Vec<char> = Vec::new();
    let mut i: usize = 0;
    assert(v@.skip(0) =~= v@);
    while i < v.len()
        invariant
            i <= v.len(),
            out@ + remove_all(v@.skip(i as int), p@) == remove_all(v@, p@),
        decreases v.len() - i,
    {
        if p.len() > 0 && starts_with_at(v, i, p) {
            assert(v@.skip(i as int).skip(p.len() as int) =~= v@.skip(i + p.len()));
            i = i + p.len();
        } else {
            let ghost before = out@;
            out.push(v[i]);
            assert(v@.skip(i as int).drop_first() =~= v@.skip(i + 1));
            assert(before.push(v@[i as int]) + remove_all(v@.skip(i + 1), p@) =~= before + (seq![v@[i as int]]
                + remove_all(v@.skip(i + 1), p@)));
            i = i + 1;
        }
    }
    assert(v@.skip(i as int) =~= Seq::<char>::empty());
    assert(out@ + Seq::<char>::empty() =~= out@);
    out
}

/// What `str::to_lowercase` returns (full Unicode lower-case mapping).
pub uninterp spec fn unicode_lowercase(s: Seq<char>) -> Seq<char>;

/// `str::to_lowercase`: the Unicode lower-case form of `s`, a function of
/// `s` alone.
#[verifier::external_body]
pub(crate) fn to_lowercase(s: &str) -> (r: String)
    ensures
        r@ == unicode_lowercase(s@),
{
    s.to_lowercase()
}

// ---------------------------------------------------------------------------
// Floating-point literals (`str::parse::<f64>` acceptance)
// ---------------------------------------------------------------------------

/// ASCII lower-casing of one character.
pub open spec fn ascii_lower(c: char) -> char {
    if 'A' <= c && c <= 'Z' {
        ((c as int) + 32) as char
    } else {
        c
    }
}

/// ASCII lower-casing of a sequence (`to_ascii_lowercase`).
pub open spec fn ascii_lower_seq(s: Seq<char>) -> Seq<char> {
    s.map_values(|c: char| ascii_lower(c))
}

/// The number of leading decimal digits of `s`.
pub open spec fn digit_run(s: Seq<char>) -> nat
    decreases s.len(),
{
    if s.len() > 0 && is_digit(s[0]) {
        1 + digit_run(s.drop_first())
    } else {
        0
    }
}

/// `Exp ::= 'e' Sign? Digit+` (on lower-cased text).
pub open spec fn is_exponent(s: Seq<char>) -> bool {
    s.len() >= 2 && s[0] == 'e' && {
        let t = if s[1] == '+' || s[1] == '-' {
            s.skip(2)
        } else {
            s.skip(1)
        };
        t.len() > 0 && all_digits(t)
    }
}

/// `Number ::= (Digit+ | Digit+ '.' Digit* | Digit* '.' Digit+) Exp?`
/// (on lower-cased text).
pub open spec fn is_decimal_number(s: Seq<char>) -> bool {
    let a = digit_run(s);
    let rest = s.skip(a as int);
    if rest.len() > 0 && rest[0] == '.' {
        let b = digit_run(rest.skip(1));
        let tail = rest.skip(1 + b as int);
        (a > 0 || b > 0) && (tail.len() == 0 || is_exponent(tail))
    } else {
        a > 0 && (rest.len() == 0 || is_exponent(rest))
    }
}

/// The text is accepted by `str::parse::<f64>`: after lower-casing it matches
/// `Sign? ('inf' | 'infinity' | 'nan' | Number)`.
pub open spec fn is_float_literal(s: Seq<char>) -> bool {
    let l = ascii_lower_seq(s);
    let body = if l.len() > 0 && (l[0] == '+' || l[0] == '-') {
        l.drop_first()
    } else {
        l
    };
    body == seq!['i', 'n', 'f'] || body == seq!['i', 'n', 'f', 'i', 'n', 'i', 't', 'y'] || body
        == seq!['n', 'a', 'n'] || is_decimal_number(body)
}

fn lower_exec(v: &Vec<char>) -> (r: Vec<char>)
    ensures
        r@ == ascii_lower_seq(v@),
{
    let mut r: Vec<char> = Vec::new();
    let mut i: usize = 0;
    while i < v.len()
        invariant
            i <= v.len(),
            r@ == ascii_lower_seq(v@).take(i as int),
        decreases v.len() - i,
    {
        let c: char = v[i];
        let l: char = if 'A' <= c && c <= 'Z' {
            char_add_32(c)
        } else {
            c
        };
        r.push(l);
        assert(ascii_lower_seq(v@).take(i + 1) =~= ascii_lower_seq(v@).take(i as int).push(l));
        i = i + 1;
    }
    assert(ascii_lower_seq(v@).take(v.len() as int) =~= ascii_lower_seq(v@));
    r
}

/// ASCII upper-casing of one character.
pub open spec fn ascii_upper(c: char) -> char {
    if 'a' <= c && c <= 'z' {
        ((c as int) - 32) as char
    } else {
        c
    }
}

/// ASCII upper-casing of a sequence (`to_ascii_uppercase`).
pub open spec fn ascii_upper_seq(s: Seq<char>) -> Seq<char> {
    s.map_values(|c: char| ascii_upper(c))
}

fn char_sub_32(c: char) -> (r: char)
    requires
        'a' <= c <= 'z',
    ensures
        r == ascii_upper(c),
{
    if c == 'a' { 'A' } else if c == 'b' { 'B' } else if c == 'c' { 'C' } else if c == 'd' { 'D' } else if c == 'e' { 'E' } else if c == 'f' { 'F' } else if c == 'g' { 'G' } else if c == 'h' { 'H' } else if c == 'i' { 'I' } else if c == 'j' { 'J' } else if c == 'k' { 'K' } else if c == 'l' { 'L' } else if c == 'm' { 'M' } else if c == 'n' { 'N' } else if c == 'o' { 'O' } else if c == 'p' { 'P' } else if c == 'q' { 'Q' } else if c == 'r' { 'R' } else if c == 's' { 'S' } else if c == 't' { 'T' } else if c == 'u' { 'U' } else if c == 'v' { 'V' } else if c == 'w' { 'W' } else if c == 'x' { 'X' } else if c == 'y' { 'Y' } else { 'Z' }
}

/// ASCII upper-casing (`to_ascii_uppercase`).
pub fn ascii_upper_exec(v: &Vec<char>) -> (r: Vec<char>)
    ensures
        r@ == ascii_upper_seq(v@),
{
    let mut r: Vec<char> = Vec::new();
    let mut i: usize = 0;
    while i < v.len()
        invariant
            i <= v.len(),
            r@ == ascii_upper_seq(v@).take(i as int),
        decreases v.len() - i,
    {
        let c: char = v[i];
        let u: char = if 'a' <= c && c <= 'z' {
            char_sub_32(c)
        } else {
            c
        };
        r.push(u);
        assert(ascii_upper_seq(v@).take(i + 1) =~= ascii_upper_seq(v@).take(i as int).push(u));
        i = i + 1;
    }
    assert(ascii_upper_seq(v@).take(v.len() as int) =~= ascii_upper_seq(v@));
    r
}

fn char_add_32(c: char) -> (r: char)
    requires
        'A' <= c <= 'Z',
    ensures
        r == ascii_lower(c),
{
    if c == 'A' { 'a' } else if c == 'B' { 'b' } else if c == 'C' { 'c' } else if c == 'D' { 'd' }
    else if c == 'E' { 'e' } else if c == 'F' { 'f' } else if c == 'G' { 'g' } else if c == 'H' { 'h' }
    else if c == 'I' { 'i' } else if c == 'J' { 'j' } else if c == 'K' { 'k' } else if c == 'L' { 'l' }
    else if c == 'M' { 'm' } else if c == 'N' { 'n' } else if c == 'O' { 'o' } else if c == 'P' { 'p' }
    else if c == 'Q' { 'q' } else if c == 'R' { 'r' } else if c == 'S' { 's' } else if c == 'T' { 't' }
    else if c == 'U' { 'u' } else if c == 'V' { 'v' } else if c == 'W' { 'w' } else if c == 'X' { 'x' }
    else if c == 'Y' { 'y' } else { 'z' }
}

/// ASCII lower-casing (`to_ascii_lowercase`).
pub fn ascii_lower_exec(v: &Vec<char>) -> (r: Vec<char>)
    ensures
        r@ == ascii_lower_seq(v@),
{
    lower_exec(v)
}

proof fn lemma_digit_run(s: Seq<char>, i: int)
    requires
        0 <= i <= s.len(),
        forall|k: int| 0 <= k < i ==> is_digit(#[trigger] s[k]),
        i == s.len() || !is_digit(s[i]),
    ensures
        digit_run(s) == i,
    decreases i,
{
    if i > 0 {
        assert forall|k: int| 0 <= k < i - 1 implies is_digit(#[trigger] s.drop_first()[k]) by {
            assert(s.drop_first()[k] == s[k + 1]);
        }
        if i < s.len() {
            assert(s.drop_first()[i - 1] == s[i]);
        }
        lemma_digit_run(s.drop_first(), i - 1);
    }
}

fn digit_run_exec(v: &Vec<char>, from: usize) -> (r: usize)
    requires
        from <= v.len(),
    ensures
        from <= r <= v.len(),
        r - from == digit_run(v@.skip(from as int)),
{
    let mut i: usize = from;
    while i < v.len() && '0' <= v[i] && v[i] <= '9'
        invariant
            from <= i <= v.len(),
            forall|k: int| from <= k < i ==> is_digit(#[trigger] v@[k]),
        decreases v.len() - i,
    {
        i = i + 1;
    }
    proof {
        let t = v@.skip(from as int);
        assert forall|k: int| 0 <= k < i - from implies is_digit(#[trigger] t[k]) by {
            assert(t[k] == v@[from + k]);
        }
        if i < v.len() {
            assert(t[i - from] == v@[i as int]);
        }
        lemma_digit_run(t, i - from);
    }
    i
}

fn all_digits_from(v: &Vec<char>, from: usize) -> (r: bool)
    requires
        from <= v.len(),
    ensures
        r == (v@.skip(from as int).len() > 0 && all_digits(v@.skip(from as int))),
{
    let e: usize = digit_run_exec(v, from);
    proof {
        let t = v@.skip(from as int);
        if e < v.len() {
            assert(t[e - from] == v@[e as int]);
            assert(!is_digit(v@[e as int])) by {
                lemma_digit_run_stop(t);
            }
        } else {
            lemma_digit_run_prefix(t);
        }
    }
    e == v.len() && e > from
}

proof fn lemma_digit_run_stop(s: Seq<char>)
    ensures
        digit_run(s) <= s.len(),
        digit_run(s) < s.len() ==> !is_digit(s[digit_run(s) as int]),
        forall|k: int| 0 <= k < digit_run(s) ==> is_digit(#[trigger] s[k]),
    decreases s.len(),
{
    if s.len() > 0 && is_digit(s[0]) {
        lemma_digit_run_stop(s.drop_first());
        assert forall|k: int| 0 <= k < digit_run(s) implies is_digit(#[trigger] s[k]) by {
            if k > 0 {
                assert(s[k] == s.drop_first()[k - 1]);
            }
        }
    }
}

proof fn lemma_digit_run_prefix(s: Seq<char>)
    ensures
        digit_run(s) == s.len() ==> all_digits(s),
{
    lemma_digit_run_stop(s);
}

fn is_exponent_from(v: &Vec<char>, from: usize) -> (r: bool)
    requires
        from <= v.len(),
    ensures
        r == is_exponent(v@.skip(from as int)),
{
    let ghost t = v@.skip(from as int);
    if v.len() - from < 2 || v[from] != 'e' {
        return false;
    }
    assert(t[0] == v@[from as int] && t[1] == v@[from + 1]);
    let start: usize = if v[from + 1] == '+' || v[from + 1] == '-' { from + 2 } else { from + 1 };
    assert(t.skip(start - from) =~= v@.skip(start as int));
    all_digits_from(v, start)
}

/// Run-time [`is_float_literal`].
pub fn is_float_literal_exec(v: &Vec<char>) -> (r: bool)
    ensures
        r == is_float_literal(v@),
{
    let l: Vec<char> = lower_exec(v);
    let from: usize = if l.len() > 0 && (l[0] == '+' || l[0] == '-') { 1 } else { 0 };
    let body: Vec<char> = slice_of(&l, from, l.len());
    assert(body@ =~= (if l@.len() > 0 && (l@[0] == '+' || l@[0] == '-') { l@.drop_first() } else { l@ }));
    let mut inf: Vec<char> = Vec::new();
    inf.push('i');
    inf.push('n');
    inf.push('f');
    let mut infinity: Vec<char> = Vec::new();
    infinity.push('i');
    infinity.push('n');
    infinity.push('f');
    infinity.push('i');
    infinity.push('n');
    infinity.push('i');
    infinity.push('t');
    infinity.push('y');
    let mut nan: Vec<char> = Vec::new();
    nan.push('n');
    nan.push('a');
    nan.push('n');
    assert(inf@ =~= seq!['i', 'n', 'f']);
    assert(infinity@ =~= seq!['i', 'n', 'f', 'i', 'n', 'i', 't', 'y']);
    assert(nan@ =~= seq!['n', 'a', 'n']);
    if eq_vec(&body, &inf) || eq_vec(&body, &infinity) || eq_vec(&body, &nan) {
        return true;
    }
    let a: usize = digit_run_exec(&body, 0);
    assert(body@.skip(0) =~= body@);
    let ghost rest = body@.skip(a as int);
    if a < body.len() && body[a] == '.' {
        assert(rest[0] == body@[a as int]);
        let e: usize = digit_run_exec(&body, a + 1);
        assert(rest.skip(1) =~= body@.skip(a + 1));
        assert(rest.skip(1 + (e - a - 1)) =~= body@.skip(e as int));
        let tail_ok: bool = e == body.len() || is_exponent_from(&body, e);
        (a > 0 || e > a + 1) && tail_ok
    } else {
        a > 0 && (a == body.len() || is_exponent_from(&body, a))
    }
}

// ---------------------------------------------------------------------------
// Integers (`str::parse` for the integer types)
// ---------------------------------------------------------------------------

/// A decimal digit.
pub open spec fn is_digit(c: char) -> bool {
    '0' <= c && c <= '9'
}

/// The value of a decimal digit.
pub open spec fn digit_val(c: char) -> nat {
    (c as int - '0' as int) as nat
}

/// Every character of `s` is a decimal digit.
pub open spec fn all_digits(s: Seq<char>) -> bool {
    forall|i: int| 0 <= i < s.len() ==> is_digit(#[trigger] s[i])
}

/// The number written by the decimal digits `s`.
pub open spec fn dec_value(s: Seq<char>) -> nat
    decreases s.len(),
{
    if s.len() == 0 {
        0
    } else {
        dec_value(s.drop_last()) * 10 + digit_val(s.last())
    }
}

/// The digits of an unsigned literal: `s` after one optional leading `+`.
pub open spec fn unsigned_digits(s: Seq<char>) -> Seq<char> {
    if s.len() > 0 && s[0] == '+' {
        s.drop_first()
    } else {
        s
    }
}

/// The value of an unsigned integer literal (optional `+`, then at least one
/// decimal digit), or `None` when `s` is not one.
pub open spec fn parse_nat(s: Seq<char>) -> Option<nat> {
    let d = unsigned_digits(s);
    if d.len() > 0 && all_digits(d) {
        Some(dec_value(d))
    } else {
        None
    }
}

/// The value of a signed integer literal (optional `+` or `-`, then at least
/// one decimal digit), or `None` when `s` is not one.
pub open spec fn parse_int(s: Seq<char>) -> Option<int> {
    if s.len() > 0 && s[0] == '-' {
        let d = s.drop_first();
        if d.len() > 0 && all_digits(d) {
            Some(-(dec_value(d) as int))
        } else {
            None
        }
    } else {
        match parse_nat(s) {
            Some(v) => Some(v as int),
            None => None,
        }
    }
}

/// What `str::parse` gives for an unsigned type whose largest value is `max`.
pub open spec fn parse_unsigned(s: Seq<char>, max: nat) -> Option<nat> {
    match parse_nat(s) {
        Some(v) => if v <= max {
            Some(v)
        } else {
            None
        },
        None => None,
    }
}

/// What `str::parse` gives for a signed type with range `min..=max`.
pub open spec fn parse_signed(s: Seq<char>, min: int, max: int) -> Option<int> {
    match parse_int(s) {
        Some(v) => if min <= v <= max {
            Some(v)
        } else {
            None
        },
        None => None,
    }
}

proof fn lemma_dec_value_prefix(s: Seq<char>, i: int)
    requires
        0 <= i <= s.len(),
    ensures
        dec_value(s.take(i)) <= dec_value(s),
    decreases s.len(),
{
    if i < s.len() {
        assert(s.drop_last().take(i) =~= s.take(i));
        lemma_dec_value_prefix(s.drop_last(), i);
    } else {
        assert(s.take(i) =~= s);
    }
}

/// The value of the all-digit sequence `d`, when it is at most `u64::MAX`.
fn digits_u64(v: &Vec<char>, from: usize) -> (r: Option<u64>)
    requires
        from <= v.len(),
    ensures
        ({
            let d = v@.skip(from as int);
            &&& r matches Some(x) ==> d.len() > 0 && all_digits(d) && dec_value(d) == x
            &&& r is None ==> !(d.len() > 0 && all_digits(d) && dec_value(d) <= u64::MAX)
        }),
{
    let ghost d = v@.skip(from as int);
    if from == v.len() {
        return None;
    }
    let mut acc: u64 = 0;
    let mut i: usize = from;
    while i < v.len()
        invariant
            from <= i <= v.len(),
            d == v@.skip(from as int),
            all_digits(d.take(i - from)),
            dec_value(d.take(i - from)) == acc,
        decreases v.len() - i,
    {
        let c: char = v[i];
        if !('0' <= c && c <= '9') {
            assert(d[i - from] == c);
            return None;
        }
        let dv: u64 = (c as u32 - '0' as u32) as u64;
        assert(d.take(i + 1 - from).drop_last() =~= d.take(i - from));
        assert(d.take(i + 1 - from).last() == c);
        if acc > (u64::MAX - dv) / 10 {
            proof {
                assert(dec_value(d.take(i + 1 - from)) == acc * 10 + dv);
                if all_digits(d) {
                    lemma_dec_value_prefix(d, i + 1 - from);
                }
            }
            return None;
        }
        acc = acc * 10 + dv;
        assert(all_digits(d.take(i + 1 - from))) by {
            assert forall|j: int| 0 <= j < i + 1 - from implies is_digit(#[trigger] d.take(i + 1 - from)[j]) by {
                if j < i - from {
                    assert(d.take(i + 1 - from)[j] == d.take(i - from)[j]);
                }
            }
        }
        i = i + 1;
    }
    assert(d.take(v.len() - from) =~= d);
    Some(acc)
}

/// `str::parse::<u64>` on the characters of `v`.
pub fn parse_u64(v: &Vec<char>) -> (r: Option<u64>)
    ensures
        r matches Some(x) ==> parse_unsigned(v@, u64::MAX as nat) == Some(x as nat),
        r is None ==> parse_unsigned(v@, u64::MAX as nat) is None,
{
    let from: usize = if v.len() > 0 && v[0] == '+' { 1 } else { 0 };
    assert(v@.skip(from as int) =~= unsigned_digits(v@));
    digits_u64(v, from)
}

/// `str::parse::<u32>` on the characters of `v`.
pub fn parse_u32(v: &Vec<char>) -> (r: Option<u32>)
    ensures
        r matches Some(x) ==> parse_unsigned(v@, u32::MAX as nat) == Some(x as nat),
        r is None ==> parse_unsigned(v@, u32::MAX as nat) is None,
{
    match parse_u64(v) {
        Some(x) => if x <= u32::MAX as u64 {
            Some(x as u32)
        } else {
            None
        },
        None => None,
    }
}

/// `str::parse::<u16>` on the characters of `v`.
pub fn parse_u16(v: &Vec<char>) -> (r: Option<u16>)
    ensures
        r matches Some(x) ==> parse_unsigned(v@, u16::MAX as nat) == Some(x as nat),
        r is None ==> parse_unsigned(v@, u16::MAX as nat) is None,
{
    match parse_u64(v) {
        Some(x) => if x <= u16::MAX as u64 {
            Some(x as u16)
        } else {
            None
        },
        None => None,
    }
}

/// `str::parse::<u8>` on the characters of `v`.
pub fn parse_u8(v: &Vec<char>) -> (r: Option<u8>)
    ensures
        r matches Some(x) ==> parse_unsigned(v@, u8::MAX as nat) == Some(x as nat),
        r is None ==> parse_unsigned(v@, u8::MAX as nat) is None,
{
    match parse_u64(v) {
        Some(x) => if x <= u8::MAX as u64 {
            Some(x as u8)
        } else {
            None
        },
        None => None,
    }
}

/// `str::parse::<usize>` on the characters of `v`.
pub fn parse_usize(v: &Vec<char>) -> (r: Option<usize>)
    ensures
        r matches Some(x) ==> parse_unsigned(v@, usize::MAX as nat) == Some(x as nat),
        r is None ==> parse_unsigned(v@, usize::MAX as nat) is None,
{
    match parse_u64(v) {
        Some(x) => if x <= usize::MAX as u64 {
            Some(x as usize)
        } else {
            None
        },
        None => None,
    }
}

/// `str::parse::<i64>` on the characters of `v`.
pub fn parse_i64(v: &Vec<char>) -> (r: Option<i64>)
    ensures
        r matches Some(x) ==> parse_signed(v@, i64::MIN as int, i64::MAX as int) == Some(x as int),
        r is None ==> parse_signed(v@, i64::MIN as int, i64::MAX as int) is None,
{
    if v.len() > 0 && v[0] == '-' {
        assert(v@.skip(1) =~= v@.drop_first());
        match digits_u64(v, 1) {
            Some(m) => if m <= 9223372036854775808u64 {
                if m == 9223372036854775808u64 {
                    Some(i64::MIN)
                } else {
                    Some(-(m as i64))
                }
            } else {
                None
            },
            None => None,
        }
    } else {
        match parse_u64(v) {
            Some(x) => if x <= i64::MAX as u64 {
                Some(x as i64)
            } else {
                None
            },
            None => None,
        }
    }
}

/// `str::parse::<i32>` on the characters of `v`.
pub fn parse_i32(v: &Vec<char>) -> (r: Option<i32>)
    ensures
        r matches Some(x) ==> parse_signed(v@, i32::MIN as int, i32::MAX as int) == Some(x as int),
        r is None ==> parse_signed(v@, i32::MIN as int, i32::MAX as int) is None,
{
    match parse_i64(v) {
        Some(x) => if i32::MIN as i64 <= x && x <= i32::MAX as i64 {
            Some(x as i32)
        } else {
            None
        },
        None => None,
    }
}

// ---------------------------------------------------------------------------
// Building strings
// ---------------------------------------------------------------------------

/// Appends one character to a `String` (`String::push`).
#[verifier::external_body]
pub(crate) fn push_char(s: &mut String, c: char)
    ensures
        final(s)@ == old(s)@.push(c),
{
    s.push(c);
}

/// A `String` holding exactly the characters of `v`.
pub fn string_of(v: &Vec<char>) -> (r: String)
    ensures
        r@ == v@,
{
    let mut r: String = String::new();
    let mut i: usize = 0;
    while i < v.len()
        invariant
            i <= v.len(),
            r@ == v@.take(i as int),
        decreases v.len() - i,
    {
        push_char(&mut r, v[i]);
        assert(v@.take(i + 1) =~= v@.take(i as int).push(v@[i as int]));
        i = i + 1;
    }
    assert(v@.take(v.len() as int) =~= v@);
    r
}

/// Appends the characters of `w` to `v`.
pub fn extend_chars(v: &mut Vec<char>, w: &Vec<char>)
    ensures
        final(v)@ == old(v)@ + w@,
{
    let mut k: usize = 0;
    let ghost base = v@;
    while k < w.len()
        invariant
            k <= w.len(),
            v@ == base + w@.take(k as int),
        decreases w.len() - k,
    {
        v.push(w[k]);
        assert(w@.take(k + 1) =~= w@.take(k as int).push(w@[k as int]));
        k = k + 1;
    }
    assert(w@.take(w.len() as int) =~= w@);
}

// ---------------------------------------------------------------------------
// Formatting numbers
// ---------------------------------------------------------------------------

/// The character of a decimal digit.
pub open spec fn dec_char(d: nat) -> char {
    (d + '0' as nat) as char
}

/// The character of an upper-case hexadecimal digit.
pub open spec fn hex_char(d: nat) -> char {
    if d < 10 {
        (d + '0' as nat) as char
    } else {
        (d - 10 + 'A' as nat) as char
    }
}

/// Decimal representation of `n` (no leading zeros), as `{}` prints it.
pub open spec fn dec_string(n: nat) -> Seq<char>
    decreases n,
{
    if n < 10 {
        seq![dec_char(n)]
    } else {
        dec_string(n / 10).push(dec_char(n % 10))
    }
}

/// Upper-case hexadecimal representation of `n`, as `{:X}` prints it.
pub open spec fn hex_string(n: nat) -> Seq<char>
    decreases n,
{
    if n < 16 {
        seq![hex_char(n)]
    } else {
        hex_string(n / 16).push(hex_char(n % 16))
    }
}

/// `s` padded on the left with `c` up to width `w` (`{:0w}`-style padding).
pub open spec fn pad_left(s: Seq<char>, w: nat, c: char) -> Seq<char> {
    if s.len() >= w {
        s
    } else {
        Seq::new((w - s.len()) as nat, |i: int| c) + s
    }
}

/// Decimal representation of a signed integer, as `{}` prints it.
pub open spec fn signed_dec_string(i: int) -> Seq<char> {
    if i < 0 {
        seq!['-'] + dec_string((-i) as nat)
    } else {
        dec_string(i as nat)
    }
}

/// Decimal digits of `n`.
pub fn fmt_dec(n: u64) -> (r: Vec<char>)
    ensures
        r@ == dec_string(n as nat),
    decreases n,
{
    let d: char = char_of_digit((n % 10) as u32);
    if n < 10 {
        let mut r: Vec<char> = Vec::new();
        r.push(d);
        r
    } else {
        let mut r: Vec<char> = fmt_dec(n / 10);
        r.push(d);
        r
    }
}

/// Decimal digits of a signed number.
pub fn fmt_signed(i: i64) -> (r: Vec<char>)
    ensures
        r@ == signed_dec_string(i as int),
{
    if i < 0 {
        let m: u64 = if i == i64::MIN {
            9223372036854775808u64
        } else {
            (-i) as u64
        };
        let mut r: Vec<char> = Vec::new();
        r.push('-');
        let d: Vec<char> = fmt_dec(m);
        extend_chars(&mut r, &d);
        r
    } else {
        fmt_dec(i as u64)
    }
}

fn char_of_digit(d: u32) -> (c: char)
    requires
        d < 10,
    ensures
        c == dec_char(d as nat),
{
    if d == 0 { '0' } else if d == 1 { '1' } else if d == 2 { '2' } else if d == 3 { '3' }
    else if d == 4 { '4' } else if d == 5 { '5' } else if d == 6 { '6' } else if d == 7 { '7' }
    else if d == 8 { '8' } else { '9' }
}

fn char_of_hex(d: u64) -> (c: char)
    requires
        d < 16,
    ensures
        c == hex_char(d as nat),
{
    if d < 10 {
        char_of_digit(d as u32)
    } else if d == 10 { 'A' } else if d == 11 { 'B' } else if d == 12 { 'C' } else if d == 13 { 'D' }
    else if d == 14 { 'E' } else { 'F' }
}

/// Upper-case hexadecimal digits of `n`.
pub fn fmt_hex(n: u64) -> (r: Vec<char>)
    ensures
        r@ == hex_string(n as nat),
    decreases n,
{
    let d: char = char_of_hex(n % 16);
    if n < 16 {
        let mut r: Vec<char> = Vec::new();
        r.push(d);
        r
    } else {
        let mut r: Vec<char> = fmt_hex(n / 16);
        r.push(d);
        r
    }
}

/// Pads `v` on the left with `c` up to width `w`.
pub fn pad_left_exec(v: &Vec<char>, w: usize, c: char) -> (r: Vec<char>)
    ensures
        r@ == pad_left(v@, w as nat, c),
{
    if v.len() >= w {
        return slice_of(v, 0, v.len());
    }
    let mut r: Vec<char> = Vec::new();
    let k: usize = w - v.len();
    while r.len() < k
        invariant
            r.len() <= k,
            forall|i: int| 0 <= i < r.len() ==> r@[i] == c,
        decreases k - r.len(),
    {
        r.push(c);
    }
    let ghost pre = r@;
    assert(pre =~= Seq::new((w - v@.len()) as nat, |i: int| c));
    extend_chars(&mut r, v);
    r
}

/// The characters of a string slice.
pub fn chars_of(s: &str) -> (v: Vec<char>)
    ensures
        v@ == s@,
{
    let mut v: Vec<char> = Vec::new();
    for c in it: s.chars()
        invariant
            v@ == it.seq().take(it.index() as int),
            it.seq() == s@,
    {
        v.push(c);
        assert(it.seq().take(it.index() + 1) == it.seq().take(it.index() as int).push(c));
    }
    v
}

/// The characters of a `String`.
pub fn chars_of_string(s: &String) -> (v: Vec<char>)
    ensures
        v@ == s@,
{
    chars_of(s.as_str())
}

/// Decimal text reads back as the number it was written from: `dec_string(n)`
/// is a non-empty run of decimal digits, without a sign, whose value is `n`.
pub proof fn law_dec_string_reads_back(n: nat)
    ensures
        dec_string(n).len() > 0,
        all_digits(dec_string(n)),
        dec_string(n)[0] != '+' && dec_string(n)[0] != '-',
        dec_value(dec_string(n)) == n,
        parse_nat(dec_string(n)) == Some(n),
        forall|max: nat| n <= max ==> #[trigger] parse_unsigned(dec_string(n), max) == Some(n),
        forall|min: int, max: int| min <= n <= max ==> #[trigger] parse_signed(dec_string(n), min, max) == Some(n as int),
    decreases n,
{
    let s = dec_string(n);
    if n < 10 {
        assert(s == seq![dec_char(n)]);
        assert(s.drop_last() =~= Seq::<char>::empty());
        assert(dec_value(Seq::<char>::empty()) == 0);
        assert(digit_val(dec_char(n)) == n);
        assert(dec_value(s) == dec_value(s.drop_last()) * 10 + digit_val(s.last()));
    } else {
        law_dec_string_reads_back(n / 10);
        let t = dec_string(n / 10);
        assert(s == t.push(dec_char(n % 10)));
        assert(s.drop_last() =~= t);
        assert(s.last() == dec_char(n % 10));
        assert(digit_val(dec_char(n % 10)) == n % 10);
        assert(s[0] == t[0]);
        assert forall|i: int| 0 <= i < s.len() implies is_digit(#[trigger] s[i]) by {
            if i < t.len() {
                assert(s[i] == t[i]);
            }
        }
        assert(dec_value(s) == dec_value(s.drop_last()) * 10 + digit_val(s.last()));
        assert(dec_value(s) == dec_value(t) * 10 + n % 10);
        assert(n == (n / 10) * 10 + n % 10);
    }
    assert(unsigned_digits(s) == s);
    assert(!(s.len() > 0 && s[0] == '-'));
}

proof fn lemma_digit_run_all(s: Seq<char>)
    requires
        all_digits(s),
    ensures
        digit_run(s) == s.len(),
    decreases s.len(),
{
    if s.len() > 0 {
        assert forall|i: int| 0 <= i < s.drop_first().len() implies is_digit(#[trigger] s.drop_first()[i]) by {
            assert(s.drop_first()[i] == s[i + 1]);
        }
        lemma_digit_run_all(s.drop_first());
    }
}

/// A non-empty run of decimal digits is a floating-point literal.
pub proof fn lemma_digits_float_literal(s: Seq<char>)
    requires
        s.len() > 0,
        all_digits(s),
    ensures
        is_float_literal(s),
{
    assert(ascii_lower_seq(s) =~= s) by {
        assert forall|i: int| 0 <= i < s.len() implies ascii_lower_seq(s)[i] == s[i] by {
            assert(is_digit(s[i]));
        }
    }
    assert(!(s[0] == '+' || s[0] == '-')) by {
        assert(is_digit(s[0]));
    }
    lemma_digit_run_all(s);
    assert(s.skip(s.len() as int) =~= Seq::<char>::empty());
}

} // verus!
