//! Verified text utilities over `&str` / `String`, specified against the
//! `Seq<char>` view: substring search, extraction between markers, trimming,
//! replacement, and case folding.

use vstd::prelude::*;

verus! {

/// `pat` occurs as a contiguous substring of `s` starting at index `i`.
pub open spec fn occurs_at(s: Seq<char>, pat: Seq<char>, i: int) -> bool {
    0 <= i && i + pat.len() <= s.len() && s.subrange(i, i + pat.len()) == pat
}

/// Index of the leftmost occurrence of `pat` in `s` at or after `from`,
/// or `None` when there is none.
pub open spec fn spec_find(s: Seq<char>, pat: Seq<char>, from: int) -> Option<int>
    decreases s.len() - from,
{
    if pat.len() == 0 {
        if 0 <= from && from <= s.len() {
            Some(from)
        } else {
            None
        }
    } else if from < 0 || from + pat.len() > s.len() {
        None
    } else if occurs_at(s, pat, from) {
        Some(from)
    } else {
        spec_find(s, pat, from + 1)
    }
}

/// What `spec_find` returns: the least occurrence at or after `from`, or a
/// guarantee that no occurrence exists there.
pub proof fn lemma_find_props(s: Seq<char>, pat: Seq<char>, from: int)
    requires
        0 <= from,
    ensures
        match spec_find(s, pat, from) {
            Some(i) => from <= i && occurs_at(s, pat, i) && forall|j: int|
                from <= j < i ==> !occurs_at(s, pat, j),
            None => forall|j: int| from <= j ==> !occurs_at(s, pat, j),
        },
    decreases s.len() - from,
{
    if pat.len() == 0 {
        if from <= s.len() {
            assert(s.subrange(from, from + pat.len()) =~= pat);
        }
    } else if from + pat.len() > s.len() {
    } else if occurs_at(s, pat, from) {
    } else {
        lemma_find_props(s, pat, from + 1);
    }
}

/// Converse direction: an occurrence with none before it is exactly what
/// `spec_find` returns.
pub proof fn lemma_find_exact(s: Seq<char>, pat: Seq<char>, from: int, i: int)
    requires
        0 <= from <= i,
        occurs_at(s, pat, i),
        forall|j: int| from <= j < i ==> !occurs_at(s, pat, j),
    ensures
        spec_find(s, pat, from) == Some(i),
{
    lemma_find_props(s, pat, from);
    match spec_find(s, pat, from) {
        Some(k) => {
            if k < i {
                assert(occurs_at(s, pat, k));
                assert(false);
            } else if k > i {
                assert(!occurs_at(s, pat, i));
                assert(false);
            }
        },
        None => {
            assert(!occurs_at(s, pat, i));
            assert(false);
        },
    }
}

/// Occurrences transfer between a string and a subrange of it.
pub proof fn lemma_occurs_subrange(s: Seq<char>, pat: Seq<char>, lo: int, hi: int, i: int)
    requires
        0 <= lo <= i,
        i + pat.len() <= hi <= s.len(),
    ensures
        occurs_at(s, pat, i) == occurs_at(s.subrange(lo, hi), pat, i - lo),
{
    let sub = s.subrange(lo, hi);
    assert(sub.subrange(i - lo, i - lo + pat.len()) =~= s.subrange(i, i + pat.len()));
    if occurs_at(s, pat, i) {
        assert(occurs_at(sub, pat, i - lo));
    }
    if occurs_at(sub, pat, i - lo) {
        assert(occurs_at(s, pat, i));
    }
}

fn matches_at(s: &str, pat: &str, i: usize) -> (b: bool)
    requires
        i + pat@.len() <= s@.len(),
    ensures
        b == occurs_at(s@, pat@, i as int),
{
    let n = s.unicode_len();
    let m = pat.unicode_len();
    let mut j: usize = 0;
    while j < m
        invariant
            j <= m,
            n == s@.len(),
            m == pat@.len(),
            i + m <= n,
            forall|k: int| 0 <= k < j ==> s@[i + k] == pat@[k],
        decreases m - j,
    {
        if s.get_char(i + j) != pat.get_char(j) {
            proof {
                assert(s@.subrange(i as int, i + m) != pat@) by {
                    if s@.subrange(i as int, i + m) == pat@ {
                        assert(s@.subrange(i as int, i + m)[j as int] == s@[i + j]);
                    }
                }
            }
            return false;
        }
        j += 1;
    }
    proof {
        assert(s@.subrange(i as int, i + m) =~= pat@);
    }
    true
}

/// Leftmost occurrence of `pat` in `s` at or after `from`, as `spec_find`
/// describes it.
pub fn find_from(s: &str, pat: &str, from: usize) -> (r: Option<usize>)
    ensures
        match r {
            Some(i) => spec_find(s@, pat@, from as int) == Some(i as int),
            None => spec_find(s@, pat@, from as int) is None,
        },
{
    let n = s.unicode_len();
    let m = pat.unicode_len();
    if m == 0 {
        if from <= n {
            return Some(from);
        } else {
            return None;
        }
    }
    if m > n || from > n - m {
        return None;
    }
    let mut i: usize = from;
    while i <= n - m
        invariant
            from <= i,
            0 < m <= n,
            n == s@.len(),
            m == pat@.len(),
            i <= n - m + 1,
            spec_find(s@, pat@, from as int) == spec_find(s@, pat@, i as int),
        decreases n - i,
    {
        if matches_at(s, pat, i) {
            return Some(i);
        }
        proof {
            assert(spec_find(s@, pat@, i as int) == spec_find(s@, pat@, i + 1));
        }
        i += 1;
    }
    None
}

/// Relies on String::push: appends exactly the one character at the end.
#[verifier::external_body]
fn push_char(s: &mut String, c: char)
    ensures
        final(s)@ == old(s)@.push(c),
{
    s.push(c);
}

/// The whitespace characters that trimming removes: the Unicode white
/// space set, as `char::is_whitespace` defines it.
pub open spec fn is_space(c: char) -> bool {
    let u = c as u32;
    (9 <= u && u <= 13) || u == 32 || u == 0x85 || u == 0xa0 || u == 0x1680 || (0x2000 <= u && u
        <= 0x200a) || u == 0x2028 || u == 0x2029 || u == 0x202f || u == 0x205f || u == 0x3000
}

/// First index at or after `i` whose character is not whitespace.
pub open spec fn ltrim_idx(s: Seq<char>, i: int) -> int
    decreases s.len() - i,
{
    if 0 <= i < s.len() && is_space(s[i]) {
        ltrim_idx(s, i + 1)
    } else {
        i
    }
}

/// Last bound at or before `j` such that the character just before it is not
/// whitespace.
pub open spec fn rtrim_idx(s: Seq<char>, j: int) -> int
    decreases j,
{
    if 0 < j <= s.len() && is_space(s[j - 1]) {
        rtrim_idx(s, j - 1)
    } else {
        j
    }
}

/// `s` with leading and trailing whitespace removed.
pub open spec fn spec_trim(s: Seq<char>) -> Seq<char> {
    let a = ltrim_idx(s, 0);
    let b = rtrim_idx(s, s.len() as int);
    if a <= b {
        s.subrange(a, b)
    } else {
        Seq::empty()
    }
}

pub proof fn lemma_rtrim_bounds(s: Seq<char>, j: int)
    requires
        0 <= j <= s.len(),
    ensures
        0 <= rtrim_idx(s, j) <= j,
    decreases j,
{
    if 0 < j <= s.len() && is_space(s[j - 1]) {
        lemma_rtrim_bounds(s, j - 1);
    }
}

/// Every character skipped on the left is whitespace, and the left trim
/// stops at the end or on a non-whitespace character.
pub proof fn lemma_ltrim_chars(s: Seq<char>, i: int)
    requires
        0 <= i,
    ensures
        i <= ltrim_idx(s, i),
        forall|k: int| i <= k < ltrim_idx(s, i) ==> is_space(s[k]),
        ltrim_idx(s, i) < s.len() ==> !is_space(s[ltrim_idx(s, i)]),
    decreases s.len() - i,
{
    if 0 <= i < s.len() && is_space(s[i]) {
        lemma_ltrim_chars(s, i + 1);
    }
}

/// A whitespace prefix followed by the string's end or a non-whitespace
/// character is exactly what the left trim skips.
pub proof fn lemma_ltrim_exact(s: Seq<char>, i: int, a: int)
    requires
        0 <= i <= a <= s.len(),
        forall|k: int| i <= k < a ==> is_space(s[k]),
        a == s.len() || !is_space(s[a]),
    ensures
        ltrim_idx(s, i) == a,
    decreases a - i,
{
    if i < a {
        lemma_ltrim_exact(s, i + 1, a);
    }
}

/// The right trim never passes a non-whitespace character.
pub proof fn lemma_rtrim_above(s: Seq<char>, j: int, a: int)
    requires
        0 <= a < j <= s.len(),
        !is_space(s[a]),
    ensures
        rtrim_idx(s, j) >= a + 1,
    decreases j,
{
    if is_space(s[j - 1]) {
        lemma_rtrim_above(s, j - 1, a);
    }
}

/// The right trim of a suffix mirrors the right trim of the whole, as long
/// as the cut stays left of the trimming.
pub proof fn lemma_rtrim_suffix(s: Seq<char>, a: int, j: int)
    requires
        0 <= a <= j <= s.len(),
        rtrim_idx(s, j) >= a,
    ensures
        rtrim_idx(s.subrange(a, s.len() as int), j - a) == rtrim_idx(s, j) - a,
    decreases j,
{
    let t = s.subrange(a, s.len() as int);
    if j == a {
        lemma_rtrim_bounds(s, j);
    } else {
        assert(t[j - a - 1] == s[j - 1]);
        if is_space(s[j - 1]) {
            lemma_rtrim_suffix(s, a, j - 1);
        }
    }
}

/// Dropping a whitespace prefix does not change the trimmed text.
pub proof fn lemma_trim_drop_prefix(s: Seq<char>, a: int)
    requires
        0 <= a <= s.len(),
        a == ltrim_idx(s, 0),
    ensures
        spec_trim(s.subrange(a, s.len() as int)) == spec_trim(s),
{
    let n = s.len() as int;
    let t = s.subrange(a, n);
    lemma_rtrim_bounds(s, n);
    if a == n {
        assert(t =~= Seq::<char>::empty());
        assert(spec_trim(t) =~= Seq::<char>::empty());
        assert(spec_trim(s) =~= Seq::<char>::empty());
    } else {
        // the left trim stopped on a non-whitespace character
        lemma_ltrim_chars(s, 0);
        assert(!is_space(s[a]));
        assert(t[0] == s[a]);
        assert(ltrim_idx(t, 0) == 0);
        lemma_rtrim_above(s, n, a);
        let b = rtrim_idx(s, n);
        lemma_rtrim_suffix(s, a, n);
        assert(t.subrange(0, b - a) =~= s.subrange(a, b));
    }
}

fn is_space_char(c: char) -> (b: bool)
    ensures
        b == is_space(c),
{
    let u: u32 = c as u32;
    (9 <= u && u <= 13) || u == 32 || u == 0x85 || u == 0xa0 || u == 0x1680 || (0x2000 <= u && u
        <= 0x200a) || u == 0x2028 || u == 0x2029 || u == 0x202f || u == 0x205f || u == 0x3000
}

/// Copy of `s` with surrounding whitespace removed.
pub fn trim(s: &str) -> (r: String)
    ensures
        r@ == spec_trim(s@),
{
    let n = s.unicode_len();
    let mut a: usize = 0;
    while a < n && is_space_char(s.get_char(a))
        invariant
            a <= n,
            n == s@.len(),
            ltrim_idx(s@, 0) == ltrim_idx(s@, a as int),
        decreases n - a,
    {
        a += 1;
    }
    let mut b: usize = n;
    while b > a && is_space_char(s.get_char(b - 1))
        invariant
            a <= b <= n,
            n == s@.len(),
            a < n ==> !is_space(s@[a as int]),
            a < n ==> a < b,
            rtrim_idx(s@, n as int) == rtrim_idx(s@, b as int),
        decreases b,
    {
        b -= 1;
    }
    let r = String::from_str(s.substring_char(a, b));
    proof {
        lemma_rtrim_bounds(s@, n as int);
        let sa = ltrim_idx(s@, 0);
        let sb = rtrim_idx(s@, s@.len() as int);
        assert(sa == a);
        if a == n {
            // every character is whitespace, so both sides are empty
            if sa <= sb {
                assert(s@.subrange(sa, sb) =~= r@);
            } else {
                assert(r@ =~= Seq::<char>::empty());
            }
        } else {
            assert(sb == b);
        }
    }
    r
}

/// First index at or after `i` whose character is not a double quote.
pub open spec fn lquote_idx(s: Seq<char>, i: int) -> int
    decreases s.len() - i,
{
    if 0 <= i < s.len() && s[i] == '"' {
        lquote_idx(s, i + 1)
    } else {
        i
    }
}

/// Last bound at or before `j` such that the character just before it is not
/// a double quote.
pub open spec fn rquote_idx(s: Seq<char>, j: int) -> int
    decreases j,
{
    if 0 < j <= s.len() && s[j - 1] == '"' {
        rquote_idx(s, j - 1)
    } else {
        j
    }
}

/// `s` with all leading and trailing double quotes removed.
pub open spec fn spec_trim_quotes(s: Seq<char>) -> Seq<char> {
    let a = lquote_idx(s, 0);
    let b = rquote_idx(s, s.len() as int);
    if a <= b {
        s.subrange(a, b)
    } else {
        Seq::empty()
    }
}

pub proof fn lemma_rquote_bounds(s: Seq<char>, j: int)
    requires
        0 <= j <= s.len(),
    ensures
        0 <= rquote_idx(s, j) <= j,
    decreases j,
{
    if 0 < j <= s.len() && s[j - 1] == '"' {
        lemma_rquote_bounds(s, j - 1);
    }
}

/// Copy of `s` with surrounding double quotes removed.
pub fn trim_quotes(s: &str) -> (r: String)
    ensures
        r@ == spec_trim_quotes(s@),
{
    let n = s.unicode_len();
    let mut a: usize = 0;
    while a < n && s.get_char(a) == '"'
        invariant
            a <= n,
            n == s@.len(),
            lquote_idx(s@, 0) == lquote_idx(s@, a as int),
        decreases n - a,
    {
        a += 1;
    }
    let mut b: usize = n;
    while b > a && s.get_char(b - 1) == '"'
        invariant
            a <= b <= n,
            n == s@.len(),
            a < n ==> s@[a as int] != '"',
            a < n ==> a < b,
            rquote_idx(s@, n as int) == rquote_idx(s@, b as int),
        decreases b,
    {
        b -= 1;
    }
    let r = String::from_str(s.substring_char(a, b));
    proof {
        lemma_rquote_bounds(s@, n as int);
        let sa = lquote_idx(s@, 0);
        let sb = rquote_idx(s@, s@.len() as int);
        assert(sa == a);
        if a == n {
            if sa <= sb {
                assert(s@.subrange(sa, sb) =~= r@);
            } else {
                assert(r@ =~= Seq::<char>::empty());
            }
        } else {
            assert(sb == b);
        }
    }
    r
}

/// ASCII lower-casing of one character; anything but `A`..`Z` is
/// unchanged. Folding is deliberately ASCII-only, so that the mapping is
/// fully stated here: a character outside ASCII keeps its case.
pub open spec fn lower_char(c: char) -> char {
    match c {
        'A' => 'a',
        'B' => 'b',
        'C' => 'c',
        'D' => 'd',
        'E' => 'e',
        'F' => 'f',
        'G' => 'g',
        'H' => 'h',
        'I' => 'i',
        'J' => 'j',
        'K' => 'k',
        'L' => 'l',
        'M' => 'm',
        'N' => 'n',
        'O' => 'o',
        'P' => 'p',
        'Q' => 'q',
        'R' => 'r',
        'S' => 's',
        'T' => 't',
        'U' => 'u',
        'V' => 'v',
        'W' => 'w',
        'X' => 'x',
        'Y' => 'y',
        'Z' => 'z',
        _ => c,
    }
}

/// ASCII lower-casing of a whole string.
pub open spec fn spec_lower(s: Seq<char>) -> Seq<char> {
    s.map_values(|c: char| lower_char(c))
}

/// Character mapping of filename slugs: lower-cased (ASCII-only, as
/// `lower_char` says), with spaces turned into hyphens.
pub open spec fn slug_char(c: char) -> char {
    if c == ' ' {
        '-'
    } else {
        lower_char(c)
    }
}

/// Filename slug of a string: each character lower-cased, spaces turned into
/// hyphens.
pub open spec fn spec_slug(s: Seq<char>) -> Seq<char> {
    s.map_values(|c: char| slug_char(c))
}

fn lower_char_x(c: char) -> (r: char)
    ensures
        r == lower_char(c),
{
    match c {
        'A' => 'a',
        'B' => 'b',
        'C' => 'c',
        'D' => 'd',
        'E' => 'e',
        'F' => 'f',
        'G' => 'g',
        'H' => 'h',
        'I' => 'i',
        'J' => 'j',
        'K' => 'k',
        'L' => 'l',
        'M' => 'm',
        'N' => 'n',
        'O' => 'o',
        'P' => 'p',
        'Q' => 'q',
        'R' => 'r',
        'S' => 's',
        'T' => 't',
        'U' => 'u',
        'V' => 'v',
        'W' => 'w',
        'X' => 'x',
        'Y' => 'y',
        'Z' => 'z',
        _ => c,
    }
}

/// ASCII lower-cased copy of `s`.
pub fn lower(s: &str) -> (r: String)
    ensures
        r@ == spec_lower(s@),
{
    let n = s.unicode_len();
    let mut out = String::new();
    let mut i: usize = 0;
    while i < n
        invariant
            i <= n,
            n == s@.len(),
            out@ == spec_lower(s@.subrange(0, i as int)),
        decreases n - i,
    {
        let c = lower_char_x(s.get_char(i));
        push_char(&mut out, c);
        proof {
            assert(spec_lower(s@.subrange(0, i + 1)) =~= spec_lower(
                s@.subrange(0, i as int),
            ).push(lower_char(s@[i as int])));
        }
        i += 1;
    }
    proof {
        assert(s@.subrange(0, n as int) =~= s@);
    }
    out
}

/// Filename slug of `s`: lower-cased, spaces turned into hyphens.
pub fn slug(s: &str) -> (r: String)
    ensures
        r@ == spec_slug(s@),
{
    let n = s.unicode_len();
    let mut out = String::new();
    let mut i: usize = 0;
    while i < n
        invariant
            i <= n,
            n == s@.len(),
            out@ == spec_slug(s@.subrange(0, i as int)),
        decreases n - i,
    {
        let c0 = s.get_char(i);
        let c = if c0 == ' ' {
            '-'
        } else {
            lower_char_x(c0)
        };
        push_char(&mut out, c);
        proof {
            assert(spec_slug(s@.subrange(0, i + 1)) =~= spec_slug(
                s@.subrange(0, i as int),
            ).push(slug_char(s@[i as int])));
        }
        i += 1;
    }
    proof {
        assert(s@.subrange(0, n as int) =~= s@);
    }
    out
}

/// Whether the views of two strings are the same character sequence.
pub fn str_eq(a: &str, b: &str) -> (r: bool)
    ensures
        r == (a@ == b@),
{
    let n = a.unicode_len();
    let m = b.unicode_len();
    if n != m {
        return false;
    }
    let mut i: usize = 0;
    while i < n
        invariant
            i <= n,
            n == a@.len(),
            n == b@.len(),
            forall|k: int| 0 <= k < i ==> a@[k] == b@[k],
        decreases n - i,
    {
        if a.get_char(i) != b.get_char(i) {
            return false;
        }
        i += 1;
    }
    proof {
        assert(a@ =~= b@);
    }
    true
}

/// The text strictly between the first occurrence of `pre` and the next
/// occurrence of `post` after it; all of the remainder when `post` does not
/// occur there; `None` when `pre` does not occur.
pub open spec fn spec_extract(s: Seq<char>, pre: Seq<char>, post: Seq<char>) -> Option<
    Seq<char>,
> {
    match spec_find(s, pre, 0) {
        None => None,
        Some(i) => {
            let start = i + pre.len();
            match spec_find(s, post, start) {
                None => Some(s.subrange(start, s.len() as int)),
                Some(j) => Some(s.subrange(start, j)),
            }
        },
    }
}

/// Text between the first `pre` and the following `post`, as `spec_extract`
/// describes it.
pub fn extract(s: &str, pre: &str, post: &str) -> (r: Option<String>)
    ensures
        match r {
            Some(t) => spec_extract(s@, pre@, post@) == Some(t@),
            None => spec_extract(s@, pre@, post@) is None,
        },
{
    let n = s.unicode_len();
    let m = pre.unicode_len();
    match find_from(s, pre, 0) {
        None => None,
        Some(i) => {
            proof {
                lemma_find_props(s@, pre@, 0);
            }
            let start = i + m;
            match find_from(s, post, start) {
                None => Some(String::from_str(s.substring_char(start, n))),
                Some(j) => {
                    proof {
                        lemma_find_props(s@, post@, start as int);
                    }
                    Some(String::from_str(s.substring_char(start, j)))
                },
            }
        },
    }
}

/// `s` with every occurrence of `pat` replaced by `to`, scanning left to
/// right over non-overlapping occurrences; `s` itself when `pat` is empty.
pub open spec fn spec_replace(s: Seq<char>, pat: Seq<char>, to: Seq<char>) -> Seq<char>
    decreases s.len(),
{
    if pat.len() == 0 {
        s
    } else {
        match spec_find(s, pat, 0) {
            None => s,
            Some(i) => if 0 <= i && i + pat.len() <= s.len() {
                s.subrange(0, i) + to + spec_replace(
                    s.subrange(i + pat.len(), s.len() as int),
                    pat,
                    to,
                )
            } else {
                s
            },
        }
    }
}

/// Copy of `s` with every occurrence of `pat` replaced by `to`.
pub fn replace_all(s: &str, pat: &str, to: &str) -> (r: String)
    ensures
        r@ == spec_replace(s@, pat@, to@),
    decreases s@.len(),
{
    let n = s.unicode_len();
    let m = pat.unicode_len();
    if m == 0 {
        return String::from_str(s);
    }
    match find_from(s, pat, 0) {
        None => String::from_str(s),
        Some(i) => {
            proof {
                lemma_find_props(s@, pat@, 0);
            }
            let mut out = String::from_str(s.substring_char(0, i));
            out.append(to);
            let tail = replace_all(s.substring_char(i + m, n), pat, to);
            out.append(tail.as_str());
            out
        },
    }
}

} // verus!

