//! Character-level text model shared by the rest of the library.
//!
//! Strings are viewed as `Seq<char>`. The spec functions here say what the
//! usual `str` operations (trim, prefix, containment, replacement, ASCII
//! case folding) mean on that view; the executable functions compute them
//! and are proved against those definitions.
use vstd::prelude::*;

verus! {

/// Unicode `White_Space`, the property `char::is_whitespace` tests.
pub open spec fn is_whitespace(c: char) -> bool {
    ||| ('\u{9}' <= c && c <= '\u{d}')
    ||| c == ' '
    ||| c == '\u{85}'
    ||| c == '\u{a0}'
    ||| c == '\u{1680}'
    ||| ('\u{2000}' <= c && c <= '\u{200a}')
    ||| c == '\u{2028}'
    ||| c == '\u{2029}'
    ||| c == '\u{202f}'
    ||| c == '\u{205f}'
    ||| c == '\u{3000}'
}

/// The text with its leading whitespace removed.
pub open spec fn trim_start(s: Seq<char>) -> Seq<char>
    decreases s.len(),
{
    if s.len() > 0 && is_whitespace(s[0]) {
        trim_start(s.drop_first())
    } else {
        s
    }
}

/// The text with its trailing whitespace removed.
pub open spec fn trim_end(s: Seq<char>) -> Seq<char>
    decreases s.len(),
{
    if s.len() > 0 && is_whitespace(s.last()) {
        trim_end(s.drop_last())
    } else {
        s
    }
}

/// The text with whitespace removed at both ends (`str::trim`).
pub open spec fn trim(s: Seq<char>) -> Seq<char> {
    trim_end(trim_start(s))
}

/// A text that is empty or consists of whitespace only.
pub open spec fn is_blank(s: Seq<char>) -> bool {
    trim(s).len() == 0
}

/// ASCII lower-case of one character; other characters are unchanged.
pub open spec fn ascii_lower(c: char) -> char {
    if 'A' <= c && c <= 'Z' {
        ((c as u32) + 32) as char
    } else {
        c
    }
}

/// `str::eq_ignore_ascii_case`: equal after ASCII lower-casing both sides.
pub open spec fn eq_ignore_ascii_case(a: Seq<char>, b: Seq<char>) -> bool {
    &&& a.len() == b.len()
    &&& forall|i: int| 0 <= i < a.len() ==> ascii_lower(#[trigger] a[i]) == ascii_lower(b[i])
}

/// `p` is a prefix of `s`.
pub open spec fn has_prefix(s: Seq<char>, p: Seq<char>) -> bool {
    p.len() <= s.len() && s.take(p.len() as int) == p
}

/// `p` is a suffix of `s`.
pub open spec fn has_suffix(s: Seq<char>, p: Seq<char>) -> bool {
    p.len() <= s.len() && s.skip(s.len() - p.len()) == p
}

/// `p` occurs in `s` starting at position `i`.
pub open spec fn occurs_at(s: Seq<char>, p: Seq<char>, i: int) -> bool {
    0 <= i && i + p.len() <= s.len() && s.subrange(i, i + p.len()) == p
}

/// `p` occurs somewhere in `s` (`str::contains` with a string pattern).
pub open spec fn contains_text(s: Seq<char>, p: Seq<char>) -> bool {
    exists|i: int| occurs_at(s, p, i)
}

/// Whether `c` occurs in `s`.
pub open spec fn has_char(s: Seq<char>, c: char) -> bool {
    exists|i: int| 0 <= i < s.len() && s[i] == c
}

/// `str::replace`: every non-overlapping occurrence of `from`, scanned left
/// to right, replaced by `to`. An empty pattern leaves the text unchanged
/// here; the library only replaces non-empty placeholders.
pub open spec fn replace_all(s: Seq<char>, from: Seq<char>, to: Seq<char>) -> Seq<char>
    decreases s.len(),
{
    if from.len() == 0 || s.len() == 0 {
        s
    } else if has_prefix(s, from) {
        to + replace_all(s.skip(from.len() as int), from, to)
    } else {
        seq![s[0]] + replace_all(s.drop_first(), from, to)
    }
}

/// What `str::to_lowercase` returns for text that is not all ASCII: the
/// Unicode lower-case mapping, which depends on the characters alone.
pub uninterp spec fn unicode_lowercase(s: Seq<char>) -> Seq<char>;

/// Every character is ASCII.
pub open spec fn all_ascii(s: Seq<char>) -> bool {
    forall|i: int| 0 <= i < s.len() ==> (#[trigger] s[i] as u32) < 128
}

/// Each character lower-cased the ASCII way.
pub open spec fn ascii_lowercase(s: Seq<char>) -> Seq<char> {
    Seq::new(s.len(), |i: int| ascii_lower(s[i]))
}

/// What `str::to_lowercase` returns: on ASCII text the Unicode mapping
/// turns `A`–`Z` into `a`–`z` and keeps every other character; other text
/// gets the full Unicode mapping, which is only named.
pub open spec fn lowercase(s: Seq<char>) -> Seq<char> {
    if all_ascii(s) {
        ascii_lowercase(s)
    } else {
        unicode_lowercase(s)
    }
}

/// `str::to_lowercase` from std, as `lowercase` states it.
#[verifier::external_body]
pub(crate) fn to_lowercase(s: &str) -> (r: String)
    ensures
        r@ == lowercase(s@),
        !all_ascii(s@) ==> r@ == unicode_lowercase(s@),
{
    s.to_lowercase()
}

/// The character sequences of a list of strings.
pub open spec fn texts(v: Seq<String>) -> Seq<Seq<char>> {
    Seq::new(v.len(), |i: int| v[i]@)
}

/// The characters of `s` in order.
pub fn chars_of(s: &str) -> (v: Vec<char>)
    ensures
        v@ == s@,
{
    let mut v: Vec<char> = Vec::new();
    for c in it: s.chars()
        invariant
            v@ == it.seq().take(it.index() as int),
    {
        v.push(c);
    }
    proof {
        broadcast use vstd::string::group_string_axioms;
    }
    assert(v@ =~= s@);
    v
}

/// `String::push`: append one character.
#[verifier::external_body]
fn push_char(s: &mut String, c: char)
    ensures
        final(s)@ == old(s)@.push(c),
{
    s.push(c)
}

/// Appends a string slice.
pub(crate) fn push_text(s: &mut String, t: &str)
    ensures
        final(s)@ == old(s)@ + t@,
{
    s.append(t);
}

/// The string whose characters are `v[from..to]`.
pub fn string_of_range(v: &Vec<char>, from: usize, to: usize) -> (r: String)
    requires
        from <= to <= v.len(),
    ensures
        r@ == v@.subrange(from as int, to as int),
{
    let mut r = String::new();
    let mut i = from;
    while i < to
        invariant
            from <= i <= to <= v.len(),
            r@ == v@.subrange(from as int, i as int),
        decreases to - i,
    {
        push_char(&mut r, v[i]);
        assert(v@.subrange(from as int, i + 1) =~= v@.subrange(from as int, i as int).push(v@[i as int]));
        i += 1;
    }
    r
}

/// The string whose characters are `v`.
pub fn string_of(v: &Vec<char>) -> (r: String)
    ensures
        r@ == v@,
{
    let r = string_of_range(v, 0, v.len());
    assert(v@.subrange(0, v@.len() as int) =~= v@);
    r
}

/// An owned copy of a string slice.
pub fn owned(s: &str) -> (r: String)
    ensures
        r@ == s@,
{
    s.to_owned()
}

/// Whether `c` is Unicode whitespace (`char::is_whitespace`).
pub fn is_whitespace_char(c: char) -> (b: bool)
    ensures
        b == is_whitespace(c),
{
    ('\u{9}' <= c && c <= '\u{d}') || c == ' ' || c == '\u{85}' || c == '\u{a0}' || c == '\u{1680}'
        || ('\u{2000}' <= c && c <= '\u{200a}') || c == '\u{2028}' || c == '\u{2029}' || c
        == '\u{202f}' || c == '\u{205f}' || c == '\u{3000}'
}

proof fn lemma_trim_start_step(s: Seq<char>, i: int)
    requires
        0 <= i < s.len(),
    ensures
        is_whitespace(s[i]) ==> trim_start(s.skip(i)) == trim_start(s.skip(i + 1)),
        !is_whitespace(s[i]) ==> trim_start(s.skip(i)) == s.skip(i),
{
    assert(s.skip(i).drop_first() =~= s.skip(i + 1));
}

proof fn lemma_trim_end_step(s: Seq<char>, j: int)
    requires
        0 < j <= s.len(),
    ensures
        is_whitespace(s[j - 1]) ==> trim_end(s.take(j)) == trim_end(s.take(j - 1)),
        !is_whitespace(s[j - 1]) ==> trim_end(s.take(j)) == s.take(j),
{
    assert(s.take(j).drop_last() =~= s.take(j - 1));
}

/// Bounds `(i, j)` such that `trim(v) == v[i..j]`.
pub fn trim_bounds(v: &Vec<char>) -> (r: (usize, usize))
    ensures
        r.0 <= r.1 <= v.len(),
        trim(v@) == v@.subrange(r.0 as int, r.1 as int),
        trim_start(v@) == v@.skip(r.0 as int),
{
    let mut i: usize = 0;
    assert(v@.skip(0) =~= v@);
    while i < v.len() && is_whitespace_char(v[i])
        invariant
            i <= v.len(),
            trim_start(v@) == trim_start(v@.skip(i as int)),
        decreases v.len() - i,
    {
        proof {
            lemma_trim_start_step(v@, i as int);
        }
        i += 1;
    }
    proof {
        if i < v.len() {
            lemma_trim_start_step(v@, i as int);
        } else {
            assert(v@.skip(i as int).len() == 0);
        }
    }
    let ghost rest = v@.skip(i as int);
    let mut j: usize = v.len();
    assert(rest.take(rest.len() as int) =~= rest);
    while j > i && is_whitespace_char(v[j - 1])
        invariant
            i <= j <= v.len(),
            rest == v@.skip(i as int),
            trim_end(rest) == trim_end(rest.take(j - i)),
        decreases j - i,
    {
        proof {
            lemma_trim_end_step(rest, j - i);
        }
        j -= 1;
    }
    proof {
        if j > i {
            lemma_trim_end_step(rest, j - i);
        } else {
            assert(rest.take(0).len() == 0);
        }
        assert(rest.take(j - i) =~= v@.subrange(i as int, j as int));
    }
    (i, j)
}

/// `str::trim` on a character vector.
pub fn trim_chars(v: &Vec<char>) -> (r: Vec<char>)
    ensures
        r@ == trim(v@),
{
    let (i, j) = trim_bounds(v);
    let mut r: Vec<char> = Vec::new();
    let mut k = i;
    while k < j
        invariant
            i <= k <= j <= v.len(),
            r@ == v@.subrange(i as int, k as int),
        decreases j - k,
    {
        r.push(v[k]);
        assert(v@.subrange(i as int, k + 1) =~= v@.subrange(i as int, k as int).push(v@[k as int]));
        k += 1;
    }
    r
}

/// `str::trim`, as an owned string.
pub fn trimmed(s: &str) -> (r: String)
    ensures
        r@ == trim(s@),
{
    let v = chars_of(s);
    let (i, j) = trim_bounds(&v);
    string_of_range(&v, i, j)
}

/// `s.trim().is_empty()`.
pub fn blank(s: &str) -> (b: bool)
    ensures
        b == is_blank(s@),
{
    let v = chars_of(s);
    let (i, j) = trim_bounds(&v);
    i == j
}

/// Whether two strings hold the same characters.
pub fn same_text(a: &str, b: &str) -> (r: bool)
    ensures
        r == (a@ == b@),
{
    let x = chars_of(a);
    let y = chars_of(b);
    seq_equal(&x, &y)
}

/// Whether two character vectors are equal.
pub fn seq_equal(x: &Vec<char>, y: &Vec<char>) -> (r: bool)
    ensures
        r == (x@ == y@),
{
    if x.len() != y.len() {
        return false;
    }
    let mut i: usize = 0;
    while i < x.len()
        invariant
            x.len() == y.len(),
            i <= x.len(),
            forall|k: int| 0 <= k < i ==> x@[k] == y@[k],
        decreases x.len() - i,
    {
        if x[i] != y[i] {
            return false;
        }
        i += 1;
    }
    assert(x@ =~= y@);
    true
}

/// Whether `p` occurs in `v` at position `i`.
pub fn matches_at(v: &Vec<char>, p: &Vec<char>, i: usize) -> (r: bool)
    ensures
        r == occurs_at(v@, p@, i as int),
{
    if i > v.len() || p.len() > v.len() - i {
        return false;
    }
    let mut k: usize = 0;
    while k < p.len()
        invariant
            i + p.len() <= v.len(),
            k <= p.len(),
            forall|m: int| 0 <= m < k ==> v@[i + m] == p@[m],
        decreases p.len() - k,
    {
        if v[i + k] != p[k] {
            assert(v@.subrange(i as int, i + p.len())[k as int] != p@[k as int]);
            return false;
        }
        k += 1;
    }
    assert(v@.subrange(i as int, i + p.len()) =~= p@);
    true
}

/// `str::starts_with` with a string pattern.
pub fn starts_with(v: &Vec<char>, p: &Vec<char>) -> (r: bool)
    ensures
        r == has_prefix(v@, p@),
{
    let r = matches_at(v, p, 0);
    assert(v@.subrange(0, p@.len() as int) =~= v@.take(p@.len() as int));
    r
}

/// `str::ends_with` with a string pattern.
pub fn ends_with(v: &Vec<char>, p: &Vec<char>) -> (r: bool)
    ensures
        r == has_suffix(v@, p@),
{
    if p.len() > v.len() {
        return false;
    }
    let r = matches_at(v, p, v.len() - p.len());
    assert(v@.subrange(v@.len() - p@.len(), v@.len() as int) =~= v@.skip(v@.len() - p@.len()));
    r
}

/// `str::contains` with a string pattern.
pub fn contains(v: &Vec<char>, p: &Vec<char>) -> (r: bool)
    ensures
        r == contains_text(v@, p@),
{
    if p.len() > v.len() {
        return false;
    }
    let last = v.len() - p.len();
    let mut i: usize = 0;
    while i < last
        invariant
            p.len() <= v.len(),
            last == v.len() - p.len(),
            i <= last,
            forall|k: int| 0 <= k < i ==> !occurs_at(v@, p@, k),
        decreases last - i,
    {
        if matches_at(v, p, i) {
            return true;
        }
        i += 1;
    }
    if matches_at(v, p, last) {
        return true;
    }
    assert forall|k: int| !occurs_at(v@, p@, k) by {
        if 0 <= k < i {
        }
    }
    false
}

/// `str::contains` with a character pattern.
pub fn contains_char(v: &Vec<char>, c: char) -> (r: bool)
    ensures
        r == has_char(v@, c),
{
    let mut i: usize = 0;
    while i < v.len()
        invariant
            i <= v.len(),
            forall|k: int| 0 <= k < i ==> v@[k] != c,
        decreases v.len() - i,
    {
        if v[i] == c {
            return true;
        }
        i += 1;
    }
    false
}

/// ASCII lower-case of one character.
pub fn to_ascii_lower(c: char) -> (r: char)
    ensures
        r == ascii_lower(c),
{
    if 'A' <= c && c <= 'Z' {
        let n: u8 = c as u8;
        assert(n == c as u32);
        ((n + 32) as char)
    } else {
        c
    }
}

/// `str::eq_ignore_ascii_case`.
pub fn equal_ignoring_ascii_case(a: &Vec<char>, b: &Vec<char>) -> (r: bool)
    ensures
        r == eq_ignore_ascii_case(a@, b@),
{
    if a.len() != b.len() {
        return false;
    }
    let mut i: usize = 0;
    while i < a.len()
        invariant
            a.len() == b.len(),
            i <= a.len(),
            forall|k: int| 0 <= k < i ==> ascii_lower(#[trigger] a@[k]) == ascii_lower(b@[k]),
        decreases a.len() - i,
    {
        if to_ascii_lower(a[i]) != to_ascii_lower(b[i]) {
            return false;
        }
        i += 1;
    }
    true
}

proof fn lemma_replace_step(s: Seq<char>, from: Seq<char>, to: Seq<char>, i: int)
    requires
        from.len() > 0,
        0 <= i < s.len(),
    ensures
        occurs_at(s, from, i) ==> replace_all(s.skip(i), from, to) == to + replace_all(
            s.skip(i + from.len()),
            from,
            to,
        ),
        !occurs_at(s, from, i) ==> replace_all(s.skip(i), from, to) == seq![s[i]] + replace_all(
            s.skip(i + 1),
            from,
            to,
        ),
{
    let t = s.skip(i);
    assert(t.drop_first() =~= s.skip(i + 1));
    if i + from.len() <= s.len() {
        assert(t.take(from.len() as int) =~= s.subrange(i, i + from.len()));
        assert(t.skip(from.len() as int) =~= s.skip(i + from.len()));
    }
}

/// Appends the characters of `w` to `out`.
pub fn extend_chars(out: &mut Vec<char>, w: &Vec<char>)
    ensures
        final(out)@ == old(out)@ + w@,
{
    let mut k: usize = 0;
    while k < w.len()
        invariant
            k <= w.len(),
            out@ == old(out)@ + w@.take(k as int),
        decreases w.len() - k,
    {
        out.push(w[k]);
        assert(w@.take(k + 1) =~= w@.take(k as int).push(w@[k as int]));
        k += 1;
    }
    assert(w@.take(w@.len() as int) =~= w@);
}

/// `str::replace` for a non-empty or empty pattern (an empty pattern
/// leaves the text unchanged here, see `replace_all`).
pub fn replace_chars(s: &Vec<char>, from: &Vec<char>, to: &Vec<char>) -> (r: Vec<char>)
    ensures
        r@ == replace_all(s@, from@, to@),
{
    let mut out: Vec<char> = Vec::new();
    if from.len() == 0 {
        extend_chars(&mut out, s);
        assert(out@ =~= s@);
        return out;
    }
    let mut i: usize = 0;
    assert(s@.skip(0) =~= s@);
    while i < s.len()
        invariant
            from@.len() > 0,
            i <= s.len(),
            out@ + replace_all(s@.skip(i as int), from@, to@) == replace_all(s@, from@, to@),
        decreases s.len() - i,
    {
        proof {
            lemma_replace_step(s@, from@, to@, i as int);
        }
        if matches_at(s, from, i) {
            let ghost before = out@;
            extend_chars(&mut out, to);
            assert(before + (to@ + replace_all(s@.skip(i + from@.len()), from@, to@)) =~= out@
                + replace_all(s@.skip(i + from@.len()), from@, to@));
            i += from.len();
        } else {
            let ghost before = out@;
            out.push(s[i]);
            assert(before + (seq![s@[i as int]] + replace_all(s@.skip(i + 1), from@, to@)) =~= out@
                + replace_all(s@.skip(i + 1), from@, to@));
            i += 1;
        }
    }
    assert(s@.skip(i as int) =~= Seq::<char>::empty());
    assert(out@ + Seq::<char>::empty() =~= out@);
    out
}

/// `str::replace` on string slices.
pub fn replace_text(s: &str, from: &str, to: &str) -> (r: String)
    ensures
        r@ == replace_all(s@, from@, to@),
{
    let v = chars_of(s);
    let f = chars_of(from);
    let t = chars_of(to);
    let r = replace_chars(&v, &f, &t);
    string_of(&r)
}

// ------------------------------------------------------------ replacement

proof fn lemma_occurs_shift(s: Seq<char>, p: Seq<char>, j: int)
    requires
        s.len() > 0,
    ensures
        occurs_at(s.drop_first(), p, j) <==> (j >= 0 && occurs_at(s, p, j + 1)),
{
    if j >= 0 && j + p.len() <= s.len() - 1 {
        assert(s.drop_first().subrange(j, j + p.len()) =~= s.subrange(j + 1, j + 1 + p.len()));
    }
}

proof fn lemma_occurs_skip(s: Seq<char>, p: Seq<char>, n: int, j: int)
    requires
        0 <= n <= s.len(),
    ensures
        occurs_at(s.skip(n), p, j) <==> (j >= 0 && occurs_at(s, p, j + n)),
{
    if j >= 0 && j + p.len() <= s.len() - n {
        assert(s.skip(n).subrange(j, j + p.len()) =~= s.subrange(j + n, j + n + p.len()));
    }
}

/// A text that contains `p` still does after something is put before it.
pub proof fn lemma_contains_after(y: Seq<char>, x: Seq<char>, p: Seq<char>)
    requires
        contains_text(x, p),
    ensures
        contains_text(y + x, p),
{
    let m = choose|m: int| occurs_at(x, p, m);
    assert((y + x).subrange(y.len() + m, y.len() + m + p.len()) =~= x.subrange(m, m + p.len()));
    assert(occurs_at(y + x, p, y.len() + m));
}

proof fn lemma_replace_keeps_prefix(s: Seq<char>, from: Seq<char>, to: Seq<char>, k: int)
    requires
        from.len() > 0,
        0 <= k <= s.len(),
        forall|j: int| 0 <= j < k ==> !occurs_at(s, from, j),
    ensures
        replace_all(s, from, to) == s.take(k) + replace_all(s.skip(k), from, to),
    decreases k,
{
    if k == 0 {
        assert(s.skip(0) =~= s);
        assert(s.take(0) + replace_all(s, from, to) =~= replace_all(s, from, to));
    } else {
        if has_prefix(s, from) {
            assert(s.take(from.len() as int) =~= s.subrange(0, from.len() as int));
            assert(occurs_at(s, from, 0));
        }
        let t = s.drop_first();
        assert forall|j: int| 0 <= j < k - 1 implies !occurs_at(t, from, j) by {
            lemma_occurs_shift(s, from, j);
        }
        lemma_replace_keeps_prefix(t, from, to, k - 1);
        assert(s.take(k) =~= seq![s[0]] + t.take(k - 1));
        assert(s.skip(k) =~= t.skip(k - 1));
    }
}

/// An occurrence of `p` that no occurrence of `from` overlaps is still
/// there after `from` is replaced.
pub proof fn lemma_replace_keeps_occurrence(s: Seq<char>, from: Seq<char>, to: Seq<char>, p: Seq<char>, i: int)
    requires
        from.len() > 0,
        p.len() > 0,
        occurs_at(s, p, i),
        forall|j: int| #[trigger] occurs_at(s, from, j) ==> j + from.len() <= i || i + p.len() <= j,
    ensures
        contains_text(replace_all(s, from, to), p),
    decreases s.len(),
{
    if has_prefix(s, from) {
        assert(s.take(from.len() as int) =~= s.subrange(0, from.len() as int));
        assert(occurs_at(s, from, 0));
        let rest = s.skip(from.len() as int);
        lemma_occurs_skip(s, p, from.len() as int, i - from.len());
        assert forall|j: int| #[trigger] occurs_at(rest, from, j) implies j + from.len() <= i - from.len() || i
            - from.len() + p.len() <= j by {
            lemma_occurs_skip(s, from, from.len() as int, j);
            assert(occurs_at(s, from, j + from.len()));
        }
        lemma_replace_keeps_occurrence(rest, from, to, p, i - from.len());
        lemma_contains_after(to, replace_all(rest, from, to), p);
    } else if i == 0 {
        assert forall|j: int| 0 <= j < p.len() implies !occurs_at(s, from, j) by {}
        lemma_replace_keeps_prefix(s, from, to, p.len() as int);
        let rest = replace_all(s.skip(p.len() as int), from, to);
        assert(s.take(p.len() as int) =~= p);
        assert((p + rest).subrange(0, p.len() as int) =~= p);
        assert(occurs_at(p + rest, p, 0));
    } else {
        let t = s.drop_first();
        lemma_occurs_shift(s, p, i - 1);
        assert forall|j: int| #[trigger] occurs_at(t, from, j) implies j + from.len() <= i - 1 || i - 1 + p.len()
            <= j by {
            lemma_occurs_shift(s, from, j);
            assert(occurs_at(s, from, j + 1));
        }
        lemma_replace_keeps_occurrence(t, from, to, p, i - 1);
        lemma_contains_after(seq![s[0]], replace_all(t, from, to), p);
    }
}

/// Replacing an occurring pattern puts the replacement into the text.
pub proof fn lemma_replace_inserts(s: Seq<char>, from: Seq<char>, to: Seq<char>, i: int)
    requires
        from.len() > 0,
        occurs_at(s, from, i),
    ensures
        contains_text(replace_all(s, from, to), to),
    decreases s.len(),
{
    if has_prefix(s, from) {
        let r = to + replace_all(s.skip(from.len() as int), from, to);
        assert(r.subrange(0, to.len() as int) =~= to);
        assert(occurs_at(r, to, 0));
    } else {
        if i == 0 {
            assert(s.take(from.len() as int) =~= s.subrange(0, from.len() as int));
        }
        let t = s.drop_first();
        lemma_occurs_shift(s, from, i - 1);
        lemma_replace_inserts(t, from, to, i - 1);
        lemma_contains_after(seq![s[0]], replace_all(t, from, to), to);
    }
}

/// A placeholder: `{`, then characters other than braces, then `}`.
pub open spec fn brace_token(t: Seq<char>) -> bool {
    &&& t.len() >= 2
    &&& t[0] == '{'
    &&& t[t.len() - 1] == '}'
    &&& forall|k: int| 0 < k < t.len() ==> t[k] != '{'
    &&& forall|k: int| 0 <= k < t.len() - 1 ==> t[k] != '}'
}

/// Occurrences of two different placeholders never overlap.
pub proof fn lemma_tokens_disjoint(s: Seq<char>, a: Seq<char>, b: Seq<char>, j: int, i: int)
    requires
        brace_token(a),
        brace_token(b),
        a != b,
        occurs_at(s, a, j),
        occurs_at(s, b, i),
    ensures
        j + a.len() <= i || i + b.len() <= j,
{
    assert(forall|k: int| 0 <= k < a.len() ==> s[j + k] == #[trigger] a[k]) by {
        assert forall|k: int| 0 <= k < a.len() implies s[j + k] == #[trigger] a[k] by {
            assert(s.subrange(j, j + a.len())[k] == a[k]);
        }
    }
    assert(forall|k: int| 0 <= k < b.len() ==> s[i + k] == #[trigger] b[k]) by {
        assert forall|k: int| 0 <= k < b.len() implies s[i + k] == #[trigger] b[k] by {
            assert(s.subrange(i, i + b.len())[k] == b[k]);
        }
    }
    if !(j + a.len() <= i || i + b.len() <= j) {
        if j < i {
            assert(a[i - j] == s[i]);
            assert(b[0] == s[i]);
        } else if i < j {
            assert(b[j - i] == s[j]);
            assert(a[0] == s[j]);
        } else if a.len() < b.len() {
            assert(a[a.len() - 1] == s[i + a.len() - 1]);
            assert(b[a.len() - 1] == s[i + a.len() - 1]);
        } else if b.len() < a.len() {
            assert(b[b.len() - 1] == s[i + b.len() - 1]);
            assert(a[b.len() - 1] == s[i + b.len() - 1]);
        } else {
            assert(a =~= b);
        }
    }
}

/// Replacing one placeholder keeps every other placeholder in the text.
pub proof fn lemma_replace_keeps_token(s: Seq<char>, from: Seq<char>, to: Seq<char>, p: Seq<char>)
    requires
        brace_token(from),
        brace_token(p),
        from != p,
        contains_text(s, p),
    ensures
        contains_text(replace_all(s, from, to), p),
{
    let i = choose|i: int| occurs_at(s, p, i);
    assert forall|j: int| #[trigger] occurs_at(s, from, j) implies j + from.len() <= i || i + p.len() <= j by {
        lemma_tokens_disjoint(s, from, p, j, i);
    }
    lemma_replace_keeps_occurrence(s, from, to, p, i);
}

} // verus!
