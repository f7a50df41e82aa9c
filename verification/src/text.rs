//! Character-sequence utilities shared by the whole crate: whitespace
//! trimming, substring search, line splitting and joining, and conversions
//! between `&str`, `Vec<char>` and `String`.

use vstd::prelude::*;
use vstd::string::{StrSliceExecFns, StringExecFns};

verus! {

/// The characters Rust's `char::is_whitespace` accepts: the Unicode
/// `White_Space` set.
pub open spec fn is_space(c: char) -> bool {
    ||| c == ' '
    ||| c == '\t'
    ||| c == '\n'
    ||| c == '\r'
    ||| c == '\u{0b}'
    ||| c == '\u{0c}'
    ||| c == '\u{85}'
    ||| c == '\u{a0}'
    ||| c == '\u{1680}'
    ||| c == '\u{2000}'
    ||| c == '\u{2001}'
    ||| c == '\u{2002}'
    ||| c == '\u{2003}'
    ||| c == '\u{2004}'
    ||| c == '\u{2005}'
    ||| c == '\u{2006}'
    ||| c == '\u{2007}'
    ||| c == '\u{2008}'
    ||| c == '\u{2009}'
    ||| c == '\u{200a}'
    ||| c == '\u{2028}'
    ||| c == '\u{2029}'
    ||| c == '\u{202f}'
    ||| c == '\u{205f}'
    ||| c == '\u{3000}'
}

pub fn is_space_char(c: char) -> (b: bool)
    ensures
        b == is_space(c),
{
    c == ' ' || c == '\t' || c == '\n' || c == '\r' || c == '\u{0b}' || c == '\u{0c}'
        || c == '\u{85}' || c == '\u{a0}' || c == '\u{1680}' || c == '\u{2000}' || c == '\u{2001}'
        || c == '\u{2002}' || c == '\u{2003}' || c == '\u{2004}' || c == '\u{2005}'
        || c == '\u{2006}' || c == '\u{2007}' || c == '\u{2008}' || c == '\u{2009}'
        || c == '\u{200a}' || c == '\u{2028}' || c == '\u{2029}' || c == '\u{202f}'
        || c == '\u{205f}' || c == '\u{3000}'
}

/// `s` with every leading white-space character removed.
pub open spec fn trim_start_spec(s: Seq<char>) -> Seq<char>
    decreases s.len(),
{
    if s.len() > 0 && is_space(s[0]) {
        trim_start_spec(s.drop_first())
    } else {
        s
    }
}

/// `s` with every trailing white-space character removed.
pub open spec fn trim_end_spec(s: Seq<char>) -> Seq<char>
    decreases s.len(),
{
    if s.len() > 0 && is_space(s[s.len() - 1]) {
        trim_end_spec(s.drop_last())
    } else {
        s
    }
}

/// `s` with leading and trailing white space removed, as `str::trim` returns
/// it.
pub open spec fn trim_spec(s: Seq<char>) -> Seq<char> {
    trim_start_spec(trim_end_spec(s))
}

/// A trimmed-at-the-start sequence starts with a non-white-space character.
pub proof fn lemma_trim_start_first(s: Seq<char>)
    ensures
        trim_start_spec(s).len() > 0 ==> !is_space(trim_start_spec(s)[0]),
    decreases s.len(),
{
    if s.len() > 0 && is_space(s[0]) {
        lemma_trim_start_first(s.drop_first());
    }
}

/// A trimmed-at-the-end sequence ends with a non-white-space character.
pub proof fn lemma_trim_end_last(s: Seq<char>)
    ensures
        trim_end_spec(s).len() > 0 ==> !is_space(trim_end_spec(s)[trim_end_spec(s).len() - 1]),
    decreases s.len(),
{
    if s.len() > 0 && is_space(s[s.len() - 1]) {
        lemma_trim_end_last(s.drop_last());
    }
}

/// Trimming the start leaves the last character in place.
pub proof fn lemma_trim_start_keeps_last(s: Seq<char>)
    ensures
        trim_start_spec(s).len() > 0 ==> trim_start_spec(s)[trim_start_spec(s).len() - 1] == s[s.len() - 1],
    decreases s.len(),
{
    if s.len() > 0 && is_space(s[0]) {
        lemma_trim_start_keeps_last(s.drop_first());
    }
}

/// Trimming what is already trimmed changes nothing.
pub proof fn lemma_trim_idempotent(s: Seq<char>)
    ensures
        trim_spec(trim_spec(s)) == trim_spec(s),
{
    let u = trim_end_spec(s);
    let t = trim_start_spec(u);
    if t.len() == 0 {
    } else {
        lemma_trim_end_last(s);
        lemma_trim_start_keeps_last(u);
        lemma_trim_start_first(u);
        assert(trim_end_spec(t) == t);
        assert(trim_start_spec(t) == t);
    }
}

/// Trimming the start yields a suffix of the sequence.
pub proof fn lemma_trim_start_is_suffix(s: Seq<char>)
    ensures
        exists|k: int| 0 <= k <= s.len() && trim_start_spec(s) == s.skip(k),
    decreases s.len(),
{
    if s.len() > 0 && is_space(s[0]) {
        lemma_trim_start_is_suffix(s.drop_first());
        let k = choose|k: int|
            0 <= k <= s.drop_first().len() && trim_start_spec(s.drop_first()) == s.drop_first().skip(
                k,
            );
        assert(s.drop_first().skip(k) =~= s.skip(k + 1));
        assert(trim_start_spec(s) == s.skip(k + 1));
    } else {
        assert(s.skip(0) =~= s);
        assert(trim_start_spec(s) == s.skip(0));
    }
}

/// Trimming the end yields a prefix of the sequence.
pub proof fn lemma_trim_end_is_prefix(s: Seq<char>)
    ensures
        exists|k: int| 0 <= k <= s.len() && trim_end_spec(s) == s.take(k),
    decreases s.len(),
{
    if s.len() > 0 && is_space(s[s.len() - 1]) {
        lemma_trim_end_is_prefix(s.drop_last());
        let k = choose|k: int|
            0 <= k <= s.drop_last().len() && trim_end_spec(s.drop_last()) == s.drop_last().take(k);
        assert(s.drop_last().take(k) =~= s.take(k));
        assert(trim_end_spec(s) == s.take(k));
    } else {
        assert(s.take(s.len() as int) =~= s);
        assert(trim_end_spec(s) == s.take(s.len() as int));
    }
}

/// What a trimmed sequence holds, the sequence held: trimming introduces no
/// occurrence of a pattern.
pub proof fn lemma_trim_keeps_absence(s: Seq<char>, p: Seq<char>)
    requires
        !contains_sub(s, p),
    ensures
        !contains_sub(trim_spec(s), p),
{
    let u = trim_end_spec(s);
    let t = trim_start_spec(u);
    lemma_trim_end_is_prefix(s);
    lemma_trim_start_is_suffix(u);
    let ke = choose|k: int| 0 <= k <= s.len() && trim_end_spec(s) == s.take(k);
    let ks = choose|k: int| 0 <= k <= u.len() && trim_start_spec(u) == u.skip(k);
    if contains_sub(t, p) {
        let m = choose|m: int| match_at(t, p, m);
        assert(t.subrange(m, m + p.len()) =~= s.subrange(ks + m, ks + m + p.len()));
        assert(match_at(s, p, ks + m));
    }
}

/// The pattern `p` occurs in `s` at position `i`.
pub open spec fn match_at(s: Seq<char>, p: Seq<char>, i: int) -> bool {
    0 <= i && i + p.len() <= s.len() && s.subrange(i, i + p.len()) == p
}

/// The first position at or after `i` where `p` occurs in `s`, as `str::find`
/// reports it on the remainder of the string.
pub open spec fn first_match_from(s: Seq<char>, p: Seq<char>, i: int) -> Option<int>
    decreases s.len() + 1 - i,
{
    if i + p.len() > s.len() {
        None
    } else if match_at(s, p, i) {
        Some(i)
    } else {
        first_match_from(s, p, i + 1)
    }
}

/// A found match lies between the start of the search and the end of the
/// string, and no earlier position matches.
pub proof fn lemma_first_match_bounds(s: Seq<char>, p: Seq<char>, i: int)
    requires
        first_match_from(s, p, i) is Some,
    ensures
        ({
            let k = first_match_from(s, p, i)->0;
            &&& i <= k
            &&& 0 <= k
            &&& k + p.len() <= s.len()
            &&& match_at(s, p, k)
            &&& forall|m: int| i <= m < k ==> !match_at(s, p, m)
        }),
    decreases s.len() + 1 - i,
{
    if i + p.len() > s.len() {
    } else if match_at(s, p, i) {
    } else {
        lemma_first_match_bounds(s, p, i + 1);
    }
}

/// A position that matches, with no match before it, is the first match.
pub proof fn lemma_first_match_is(s: Seq<char>, p: Seq<char>, from: int, k: int)
    requires
        from <= k,
        match_at(s, p, k),
        forall|m: int| from <= m < k ==> !match_at(s, p, m),
    ensures
        first_match_from(s, p, from) == Some(k),
    decreases k - from,
{
    if from < k {
        lemma_first_match_is(s, p, from + 1, k);
    }
}

/// Where no position at or after `from` matches, the search fails.
pub proof fn lemma_first_match_none(s: Seq<char>, p: Seq<char>, from: int)
    requires
        forall|m: int| from <= m ==> !match_at(s, p, m),
    ensures
        first_match_from(s, p, from) is None,
    decreases s.len() + 1 - from,
{
    if from + p.len() > s.len() {
    } else {
        lemma_first_match_none(s, p, from + 1);
    }
}

/// A match in the tail of `s` is a match in `s`, shifted.
pub proof fn lemma_match_at_skip(s: Seq<char>, p: Seq<char>, pos: int, k: int)
    requires
        0 <= pos <= s.len(),
        0 <= k,
    ensures
        match_at(s.skip(pos), p, k) <==> match_at(s, p, pos + k),
{
    if k + p.len() <= s.skip(pos).len() {
        assert(s.skip(pos).subrange(k, k + p.len()) =~= s.subrange(pos + k, pos + k + p.len()));
    }
}

/// `p` occurs somewhere in `s`.
pub open spec fn contains_sub(s: Seq<char>, p: Seq<char>) -> bool {
    exists|i: int| match_at(s, p, i)
}

/// A position that matches guarantees that the search from any point at or
/// before it succeeds.
pub proof fn lemma_match_implies_found(s: Seq<char>, p: Seq<char>, from: int, k: int)
    requires
        from <= k,
        match_at(s, p, k),
    ensures
        first_match_from(s, p, from) is Some,
    decreases k - from,
{
    if !match_at(s, p, from) {
        lemma_match_implies_found(s, p, from + 1, k);
    }
}

/// `p` is a prefix of `s`.
pub open spec fn starts_with(s: Seq<char>, p: Seq<char>) -> bool {
    match_at(s, p, 0)
}

/// The character `c` occurs in `s`.
pub open spec fn contains_char(s: Seq<char>, c: char) -> bool {
    exists|i: int| 0 <= i < s.len() && s[i] == c
}

/// Trimming leading white space cannot remove a non-white-space character.
pub proof fn lemma_trim_start_contains(s: Seq<char>, c: char)
    requires
        contains_char(s, c),
        !is_space(c),
    ensures
        contains_char(trim_start_spec(s), c),
    decreases s.len(),
{
    if s.len() > 0 && is_space(s[0]) {
        let i = choose|i: int| 0 <= i < s.len() && s[i] == c;
        assert(s.drop_first()[i - 1] == c);
        lemma_trim_start_contains(s.drop_first(), c);
    }
}

pub(crate) fn matches_at(v: &Vec<char>, pat: &Vec<char>, k: usize) -> (b: bool)
    requires
        k + pat@.len() <= v@.len(),
    ensures
        b == match_at(v@, pat@, k as int),
{
    let n = v.len();
    let m = pat.len();
    let mut j: usize = 0;
    while j < m
        invariant
            j <= m,
            m == pat@.len(),
            n == v@.len(),
            k + m <= n,
            forall|t: int| 0 <= t < j ==> v@[k + t] == pat@[t],
        decreases m - j,
    {
        if v[k + j] != pat[j] {
            proof {
                if match_at(v@, pat@, k as int) {
                    assert(v@.subrange(k as int, k + pat@.len()) =~= pat@);
                    assert(v@[k + j] == pat@[j as int]);
                }
            }
            return false;
        }
        j += 1;
    }
    proof {
        assert(v@.subrange(k as int, k + pat@.len()) =~= pat@);
    }
    true
}

/// The first position at or after `from` where `pat` occurs in `v`.
pub fn find_from(v: &Vec<char>, from: usize, pat: &Vec<char>) -> (r: Option<usize>)
    ensures
        match r {
            Some(k) => from <= k && first_match_from(v@, pat@, from as int) == Some(k as int),
            None => first_match_from(v@, pat@, from as int) is None,
        },
{
    let mut k = from;
    while k <= v.len() && pat.len() <= v.len() - k
        invariant
            from <= k,
            first_match_from(v@, pat@, from as int) == first_match_from(v@, pat@, k as int),
        decreases v@.len() + 1 - k,
    {
        if matches_at(v, pat, k) {
            return Some(k);
        }
        proof {
            if pat@.len() == 0 {
                assert(v@.subrange(k as int, k as int) =~= pat@);
            }
        }
        k += 1;
    }
    None
}

/// Whether the characters of `v` from position `lo` on begin with the pattern
/// `pat`.
pub fn has_prefix_str(v: &Vec<char>, lo: usize, pat: &str) -> (b: bool)
    requires
        lo <= v@.len(),
    ensures
        b == starts_with(v@.skip(lo as int), pat@),
{
    let p = str_chars(pat);
    if p.len() > v.len() - lo {
        false
    } else {
        let r = matches_at(v, &p, lo);
        proof {
            assert(v@.subrange(lo as int, lo + pat@.len()) =~= v@.skip(lo as int).subrange(
                0,
                pat@.len() as int,
            ));
        }
        r
    }
}

/// Whether the character `c` occurs in `v` at or after position `lo`.
pub fn contains_char_from(v: &Vec<char>, lo: usize, c: char) -> (b: bool)
    requires
        lo <= v@.len(),
    ensures
        b == contains_char(v@.skip(lo as int), c),
{
    let mut i = lo;
    while i < v.len()
        invariant
            lo <= i <= v@.len(),
            forall|t: int| lo <= t < i ==> v@[t] != c,
        decreases v@.len() - i,
    {
        if v[i] == c {
            proof {
                assert(v@.skip(lo as int)[i - lo] == c);
            }
            return true;
        }
        i += 1;
    }
    proof {
        assert forall|j: int| 0 <= j < v@.skip(lo as int).len() implies v@.skip(lo as int)[j]
            != c by {
            assert(v@.skip(lo as int)[j] == v@[lo + j]);
        }
    }
    false
}

/// The position where the leading white space of `v` ends.
pub fn trim_start_bound(v: &Vec<char>) -> (lo: usize)
    ensures
        lo <= v@.len(),
        trim_start_spec(v@) == v@.skip(lo as int),
{
    let mut lo: usize = 0;
    proof {
        assert(v@.skip(0) =~= v@);
    }
    while lo < v.len() && is_space_char(v[lo])
        invariant
            lo <= v@.len(),
            trim_start_spec(v@) == trim_start_spec(v@.skip(lo as int)),
        decreases v@.len() - lo,
    {
        proof {
            assert(v@.skip(lo as int).drop_first() =~= v@.skip(lo + 1));
        }
        lo += 1;
    }
    proof {
        assert(trim_start_spec(v@.skip(lo as int)) == v@.skip(lo as int));
    }
    lo
}

/// The characters of `s`, in order.
pub fn str_chars(s: &str) -> (v: Vec<char>)
    ensures
        v@ == s@,
{
    let n = s.unicode_len();
    let mut v: Vec<char> = Vec::new();
    let mut i: usize = 0;
    while i < n
        invariant
            i <= n,
            n == s@.len(),
            v@ == s@.subrange(0, i as int),
        decreases n - i,
    {
        let c = s.get_char(i);
        v.push(c);
        proof {
            assert(s@.subrange(0, i + 1) =~= s@.subrange(0, i as int).push(s@[i as int]));
        }
        i += 1;
    }
    proof {
        assert(s@.subrange(0, n as int) =~= s@);
    }
    v
}

/// Relies on `String::push`: appends the given character to the end of the
/// string.
#[verifier::external_body]
pub(crate) fn push_char(s: &mut String, c: char)
    ensures
        final(s)@ == old(s)@.push(c),
{
    s.push(c);
}

/// The characters `v[from..to]`, collected into a `String`.
pub fn chars_to_string(v: &Vec<char>, from: usize, to: usize) -> (r: String)
    requires
        from <= to <= v@.len(),
    ensures
        r@ == v@.subrange(from as int, to as int),
{
    let mut r = String::new();
    let mut i = from;
    while i < to
        invariant
            from <= i <= to <= v@.len(),
            r@ == v@.subrange(from as int, i as int),
        decreases to - i,
    {
        push_char(&mut r, v[i]);
        proof {
            assert(v@.subrange(from as int, i + 1) =~= v@.subrange(from as int, i as int).push(
                v@[i as int],
            ));
        }
        i += 1;
    }
    r
}

/// The bounds of `v[from..to]` once leading and trailing white space is
/// dropped.
pub fn trimmed_bounds(v: &Vec<char>, from: usize, to: usize) -> (r: (usize, usize))
    requires
        from <= to <= v@.len(),
    ensures
        from <= r.0 <= r.1 <= to,
        v@.subrange(r.0 as int, r.1 as int) == trim_spec(v@.subrange(from as int, to as int)),
{
    let mut hi = to;
    while hi > from && is_space_char(v[hi - 1])
        invariant
            from <= hi <= to <= v@.len(),
            trim_end_spec(v@.subrange(from as int, to as int)) == trim_end_spec(
                v@.subrange(from as int, hi as int),
            ),
        decreases hi,
    {
        proof {
            assert(v@.subrange(from as int, hi as int).drop_last() =~= v@.subrange(
                from as int,
                hi - 1,
            ));
        }
        hi -= 1;
    }
    proof {
        assert(trim_end_spec(v@.subrange(from as int, hi as int)) == v@.subrange(
            from as int,
            hi as int,
        ));
    }
    let mut lo = from;
    while lo < hi && is_space_char(v[lo])
        invariant
            from <= lo <= hi <= v@.len(),
            trim_start_spec(v@.subrange(from as int, hi as int)) == trim_start_spec(
                v@.subrange(lo as int, hi as int),
            ),
        decreases hi - lo,
    {
        proof {
            assert(v@.subrange(lo as int, hi as int).drop_first() =~= v@.subrange(
                lo + 1,
                hi as int,
            ));
        }
        lo += 1;
    }
    proof {
        assert(trim_start_spec(v@.subrange(lo as int, hi as int)) == v@.subrange(
            lo as int,
            hi as int,
        ));
    }
    (lo, hi)
}

/// `s` with leading and trailing white space removed.
pub fn trim_text(s: &str) -> (r: String)
    ensures
        r@ == trim_spec(s@),
{
    let v = str_chars(s);
    let (lo, hi) = trimmed_bounds(&v, 0, v.len());
    proof {
        assert(v@.subrange(0, v@.len() as int) =~= v@);
    }
    chars_to_string(&v, lo, hi)
}

/// The position where the trailing white space of `v` begins.
pub fn trim_end_bound(v: &Vec<char>) -> (hi: usize)
    ensures
        hi <= v@.len(),
        trim_end_spec(v@) == v@.subrange(0, hi as int),
{
    let mut hi = v.len();
    proof {
        assert(v@.subrange(0, v@.len() as int) =~= v@);
    }
    while hi > 0 && is_space_char(v[hi - 1])
        invariant
            hi <= v@.len(),
            trim_end_spec(v@) == trim_end_spec(v@.subrange(0, hi as int)),
        decreases hi,
    {
        proof {
            assert(v@.subrange(0, hi as int).drop_last() =~= v@.subrange(0, hi - 1));
        }
        hi -= 1;
    }
    proof {
        assert(trim_end_spec(v@.subrange(0, hi as int)) == v@.subrange(0, hi as int));
    }
    hi
}

/// The characters `v[from..to]`, as their own vector.
pub fn sub_vec(v: &Vec<char>, from: usize, to: usize) -> (r: Vec<char>)
    requires
        from <= to <= v@.len(),
    ensures
        r@ == v@.subrange(from as int, to as int),
{
    let mut r: Vec<char> = Vec::new();
    let mut i = from;
    while i < to
        invariant
            from <= i <= to <= v@.len(),
            r@ == v@.subrange(from as int, i as int),
        decreases to - i,
    {
        r.push(v[i]);
        proof {
            assert(v@.subrange(from as int, i + 1) =~= v@.subrange(from as int, i as int).push(
                v@[i as int],
            ));
        }
        i += 1;
    }
    r
}

/// Appending a white-space character does not change a trailing trim.
pub proof fn lemma_trim_end_push_space(s: Seq<char>, c: char)
    requires
        is_space(c),
    ensures
        trim_end_spec(s.push(c)) == trim_end_spec(s),
{
    assert(s.push(c).drop_last() =~= s);
}

/// Appending a non-white-space character pins the trailing trim.
pub proof fn lemma_trim_end_push_solid(s: Seq<char>, c: char)
    requires
        !is_space(c),
    ensures
        trim_end_spec(s.push(c)) == s.push(c),
{
}

/// The given sequences joined with a single newline between neighbours.
pub open spec fn join_lines(ls: Seq<Seq<char>>) -> Seq<char>
    decreases ls.len(),
{
    if ls.len() == 0 {
        Seq::empty()
    } else if ls.len() == 1 {
        ls[0]
    } else {
        ls[0] + seq!['\n'] + join_lines(ls.drop_first())
    }
}

/// Joining one more line appends a separator exactly when lines came before
/// it.
pub proof fn lemma_join_lines_push(ls: Seq<Seq<char>>, x: Seq<char>)
    ensures
        join_lines(ls.push(x)) == if ls.len() == 0 {
            x
        } else {
            join_lines(ls) + seq!['\n'] + x
        },
    decreases ls.len(),
{
    if ls.len() == 0 {
        assert(ls.push(x)[0] =~= x);
    } else if ls.len() == 1 {
        assert(ls.push(x).drop_first() =~= seq![x]);
        assert(join_lines(seq![x]) == x);
        assert(join_lines(ls.push(x)) == ls[0] + seq!['\n'] + x);
    } else {
        let df = ls.drop_first();
        lemma_join_lines_push(df, x);
        assert(ls.push(x).drop_first() =~= df.push(x));
        assert(join_lines(ls.push(x)) == ls[0] + seq!['\n'] + join_lines(df.push(x)));
        assert(ls[0] + seq!['\n'] + (join_lines(df) + seq!['\n'] + x) =~= (ls[0] + seq!['\n']
            + join_lines(df)) + seq!['\n'] + x);
        assert(join_lines(ls) == ls[0] + seq!['\n'] + join_lines(df));
    }
}

/// Joins the given strings with a single newline between neighbours.
pub fn join_text(v: &Vec<String>) -> (r: String)
    ensures
        r@ == join_lines(v.deep_view()),
{
    let mut r = String::new();
    let mut i: usize = 0;
    let n = v.len();
    while i < n
        invariant
            n == v@.len(),
            i <= n,
            r@ == join_lines(v.deep_view().take(i as int)),
        decreases n - i,
    {
        let ghost prev = r@;
        if i > 0 {
            push_char(&mut r, '\n');
        }
        r.append(v[i].as_str());
        proof {
            let dv = v.deep_view();
            lemma_join_lines_push(dv.take(i as int), dv[i as int]);
            assert(dv.take(i + 1) =~= dv.take(i as int).push(dv[i as int]));
            if i > 0 {
                assert(r@ =~= join_lines(dv.take(i as int)) + seq!['\n'] + dv[i as int]);
            } else {
                assert(dv.take(0) =~= Seq::<Seq<char>>::empty());
                assert(r@ =~= dv[0]);
            }
        }
        i += 1;
    }
    proof {
        assert(v.deep_view().take(n as int) =~= v.deep_view());
    }
    r
}

} // verus!
