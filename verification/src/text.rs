//! Character-level text helpers shared by the parsers and renderers.
//!
//! Text is handled as vectors of `char`; the specifications speak of the
//! character sequences (`Seq<char>`), which is also how vstd views `str` and
//! `String`.
use unicode_width::UnicodeWidthStr;
use vstd::prelude::*;

verus! {

/// The Unicode `White_Space` property, the set of characters that
/// `char::is_whitespace` and `str::trim` treat as whitespace.
pub open spec fn is_space(c: char) -> bool {
    let u = c as u32;
    ||| 0x09 <= u <= 0x0D
    ||| u == 0x20
    ||| u == 0x85
    ||| u == 0xA0
    ||| u == 0x1680
    ||| 0x2000 <= u <= 0x200A
    ||| u == 0x2028
    ||| u == 0x2029
    ||| u == 0x202F
    ||| u == 0x205F
    ||| u == 0x3000
}

/// Whether `c` is a whitespace character.
pub fn is_whitespace(c: char) -> (r: bool)
    ensures
        r == is_space(c),
{
    let u = c as u32;
    (0x09 <= u && u <= 0x0D) || u == 0x20 || u == 0x85 || u == 0xA0 || u == 0x1680 || (0x2000 <= u
        && u <= 0x200A) || u == 0x2028 || u == 0x2029 || u == 0x202F || u == 0x205F || u == 0x3000
}

/// The result of `char::is_alphanumeric` (Unicode `Alphabetic` or `Numeric`).
pub uninterp spec fn alnum(c: char) -> bool;

/// Calls `char::is_alphanumeric`; the result is named `alnum(c)`.
#[verifier::external_body]
pub fn is_alphanumeric(c: char) -> (r: bool)
    ensures
        r == alnum(c),
{
    c.is_alphanumeric()
}

/// The result of `str::to_lowercase` on the given characters.
pub uninterp spec fn lowercase(s: Seq<char>) -> Seq<char>;

/// Calls `str::to_lowercase`; the result is named `lowercase(s)`.
#[verifier::external_body]
pub fn to_lowercase(s: &Vec<char>) -> (r: Vec<char>)
    ensures
        r@ == lowercase(s@),
{
    let text: String = s.iter().collect();
    text.to_lowercase().chars().collect()
}

/// The display width that `unicode_width::UnicodeWidthStr::width` gives the
/// characters `s`.
pub uninterp spec fn text_width(s: Seq<char>) -> usize;

/// Calls `unicode_width::UnicodeWidthStr::width`; the result is named
/// `text_width(s)`.
#[verifier::external_body]
pub fn display_width(s: &Vec<char>) -> (r: usize)
    ensures
        r == text_width(s@),
{
    let text: String = s.iter().collect();
    UnicodeWidthStr::width(text.as_str())
}

/// `String::push` appends one character.
pub assume_specification[ String::push ](string: &mut String, ch: char)
    ensures
        final(string)@ == old(string)@.push(ch),
;

/// The characters of a string slice, in order.
pub fn to_chars(s: &str) -> (r: Vec<char>)
    ensures
        r@ == s@,
{
    broadcast use vstd::string::group_string_axioms;

    let mut v: Vec<char> = Vec::new();
    for c in it: s.chars()
        invariant
            v@ == it.seq().take(it.index() as int),
            it.seq() == s@,
    {
        v.push(c);
    }
    v
}

/// A `String` holding the characters `v`.
pub fn from_chars(v: &Vec<char>) -> (r: String)
    ensures
        r@ == v@,
{
    let mut s = String::new();
    let mut i: usize = 0;
    while i < v.len()
        invariant
            i <= v.len(),
            s@ == v@.take(i as int),
        decreases v.len() - i,
    {
        s.push(v[i]);
        i += 1;
        assert(v@.take(i as int) == v@.take(i - 1).push(v@[i - 1]));
    }
    assert(v@.take(v.len() as int) == v@);
    s
}

/// The characters `v[lo..hi]`.
pub fn slice(v: &Vec<char>, lo: usize, hi: usize) -> (r: Vec<char>)
    requires
        lo <= hi <= v.len(),
    ensures
        r@ == v@.subrange(lo as int, hi as int),
{
    let mut r: Vec<char> = Vec::new();
    let mut i = lo;
    while i < hi
        invariant
            lo <= i <= hi <= v.len(),
            r@ == v@.subrange(lo as int, i as int),
        decreases hi - i,
    {
        r.push(v[i]);
        i += 1;
        assert(v@.subrange(lo as int, i as int) == v@.subrange(lo as int, i - 1).push(v@[i - 1]));
    }
    r
}

/// Number of leading whitespace characters.
pub open spec fn lead(s: Seq<char>) -> nat
    decreases s.len(),
{
    if s.len() > 0 && is_space(s[0]) {
        1 + lead(s.drop_first())
    } else {
        0
    }
}

/// Number of trailing whitespace characters.
pub open spec fn trail(s: Seq<char>) -> nat
    decreases s.len(),
{
    if s.len() > 0 && is_space(s.last()) {
        1 + trail(s.drop_last())
    } else {
        0
    }
}

/// `s` without leading whitespace (`str::trim_start`).
pub open spec fn trim_start(s: Seq<char>) -> Seq<char> {
    s.skip(lead(s) as int)
}

/// `s` without trailing whitespace (`str::trim_end`).
pub open spec fn trim_end(s: Seq<char>) -> Seq<char> {
    s.take(s.len() - trail(s))
}

/// `s` without leading and trailing whitespace (`str::trim`).
pub open spec fn trim(s: Seq<char>) -> Seq<char> {
    trim_end(trim_start(s))
}

pub proof fn lemma_lead_bound(s: Seq<char>)
    ensures
        lead(s) <= s.len(),
        forall|j: int| 0 <= j < lead(s) ==> is_space(#[trigger] s[j]),
        lead(s) < s.len() ==> !is_space(s[lead(s) as int]),
    decreases s.len(),
{
    if s.len() > 0 && is_space(s[0]) {
        lemma_lead_bound(s.drop_first());
        assert forall|j: int| 0 <= j < lead(s) implies is_space(#[trigger] s[j]) by {
            if j > 0 {
                assert(s[j] == s.drop_first()[j - 1]);
            }
        }
    }
}

pub proof fn lemma_trail_bound(s: Seq<char>)
    ensures
        trail(s) <= s.len(),
        trail(s) < s.len() ==> !is_space(s[s.len() - trail(s) - 1]),
    decreases s.len(),
{
    if s.len() > 0 && is_space(s.last()) {
        lemma_trail_bound(s.drop_last());
        if trail(s) < s.len() {
            assert(s[s.len() - trail(s) - 1] == s.drop_last()[s.drop_last().len() - trail(s.drop_last()) - 1]);
        }
    }
}

/// Trimming twice is trimming once.
pub proof fn lemma_trim_idem(s: Seq<char>)
    ensures
        trim(trim(s)) == trim(s),
{
    let u = trim_start(s);
    lemma_lead_bound(s);
    lemma_trail_bound(u);
    let t = trim(s);
    if t.len() > 0 {
        assert(t[0] == u[0]);
        assert(u[0] == s[lead(s) as int]);
        assert(t[t.len() - 1] == u[u.len() - trail(u) - 1]);
    }
    lemma_lead_is(t, 0);
    lemma_trail_is(t, 0);
    assert(trim(t) =~= t);
}

pub proof fn lemma_lead_is(s: Seq<char>, k: int)
    requires
        0 <= k <= s.len(),
        forall|j: int| 0 <= j < k ==> is_space(#[trigger] s[j]),
        k < s.len() ==> !is_space(s[k]),
    ensures
        lead(s) == k,
    decreases s.len(),
{
    if k > 0 {
        assert(is_space(s[0]));
        assert forall|j: int| 0 <= j < k - 1 implies is_space(#[trigger] s.drop_first()[j]) by {
            assert(s.drop_first()[j] == s[j + 1]);
        }
        if k - 1 < s.drop_first().len() {
            assert(s.drop_first()[k - 1] == s[k]);
        }
        lemma_lead_is(s.drop_first(), k - 1);
    }
}

pub proof fn lemma_trail_is(s: Seq<char>, k: int)
    requires
        0 <= k <= s.len(),
        forall|j: int| s.len() - k <= j < s.len() ==> is_space(#[trigger] s[j]),
        k < s.len() ==> !is_space(s[s.len() - k - 1]),
    ensures
        trail(s) == k,
    decreases s.len(),
{
    if k > 0 {
        assert(is_space(s[s.len() - 1]));
        let t = s.drop_last();
        assert forall|j: int| t.len() - (k - 1) <= j < t.len() implies is_space(#[trigger] t[j]) by {
            assert(t[j] == s[j]);
        }
        if k - 1 < t.len() {
            assert(t[t.len() - (k - 1) - 1] == s[s.len() - k - 1]);
        }
        lemma_trail_is(t, k - 1);
    }
}

/// Index of the first non-whitespace character of `v[lo..hi]` (or `hi`).
fn skip_spaces_forward(v: &Vec<char>, lo: usize, hi: usize) -> (r: usize)
    requires
        lo <= hi <= v.len(),
    ensures
        lo <= r <= hi,
        r - lo == lead(v@.subrange(lo as int, hi as int)),
{
    let mut i = lo;
    while i < hi && is_whitespace(v[i])
        invariant
            lo <= i <= hi <= v.len(),
            forall|j: int| lo <= j < i ==> is_space(#[trigger] v@[j]),
        decreases hi - i,
    {
        i += 1;
    }
    let ghost s = v@.subrange(lo as int, hi as int);
    assert forall|j: int| 0 <= j < i - lo implies is_space(#[trigger] s[j]) by {
        assert(s[j] == v@[lo + j]);
    }
    if i < hi {
        assert(s[i - lo] == v@[i as int]);
    }
    proof {
        lemma_lead_is(s, i - lo);
    }
    i
}

/// One past the last non-whitespace character of `v[lo..hi]` (or `lo`).
fn skip_spaces_backward(v: &Vec<char>, lo: usize, hi: usize) -> (r: usize)
    requires
        lo <= hi <= v.len(),
    ensures
        lo <= r <= hi,
        hi - r == trail(v@.subrange(lo as int, hi as int)),
{
    let mut i = hi;
    while i > lo && is_whitespace(v[i - 1])
        invariant
            lo <= i <= hi <= v.len(),
            forall|j: int| i <= j < hi ==> is_space(#[trigger] v@[j]),
        decreases i - lo,
    {
        i -= 1;
    }
    let ghost s = v@.subrange(lo as int, hi as int);
    assert forall|j: int| s.len() - (hi - i) <= j < s.len() implies is_space(#[trigger] s[j]) by {
        assert(s[j] == v@[lo + j]);
    }
    if i > lo {
        assert(s[s.len() - (hi - i) - 1] == v@[i - 1]);
    }
    proof {
        lemma_trail_is(s, hi - i);
    }
    i
}

/// The bounds `(a, b)` such that `v[a..b]` is `v[lo..hi]` trimmed.
pub fn trim_bounds(v: &Vec<char>, lo: usize, hi: usize) -> (r: (usize, usize))
    requires
        lo <= hi <= v.len(),
    ensures
        lo <= r.0 <= r.1 <= hi,
        v@.subrange(r.0 as int, r.1 as int) == trim(v@.subrange(lo as int, hi as int)),
{
    let a = skip_spaces_forward(v, lo, hi);
    let b = skip_spaces_backward(v, a, hi);
    let ghost s = v@.subrange(lo as int, hi as int);
    assert(trim_start(s) == v@.subrange(a as int, hi as int));
    assert(trim(s) == v@.subrange(a as int, b as int));
    (a, b)
}

/// `v` trimmed of leading and trailing whitespace.
pub fn trimmed(v: &Vec<char>) -> (r: Vec<char>)
    ensures
        r@ == trim(v@),
{
    let (a, b) = trim_bounds(v, 0, v.len());
    assert(v@.subrange(0, v@.len() as int) == v@);
    slice(v, a, b)
}

/// `v` without leading whitespace.
pub fn trimmed_start(v: &Vec<char>) -> (r: Vec<char>)
    ensures
        r@ == trim_start(v@),
{
    let a = skip_spaces_forward(v, 0, v.len());
    assert(v@.subrange(0, v@.len() as int) == v@);
    slice(v, a, v.len())
}

/// `v` without trailing whitespace.
pub fn trimmed_end(v: &Vec<char>) -> (r: Vec<char>)
    ensures
        r@ == trim_end(v@),
{
    let b = skip_spaces_backward(v, 0, v.len());
    assert(v@.subrange(0, v@.len() as int) == v@);
    slice(v, 0, b)
}

/// Whether `p` is a prefix of `s`.
pub open spec fn has_prefix(s: Seq<char>, p: Seq<char>) -> bool {
    p.len() <= s.len() && s.take(p.len() as int) == p
}

/// Whether `p` occurs in `s` at position `i`.
pub open spec fn occurs_at(s: Seq<char>, p: Seq<char>, i: int) -> bool {
    0 <= i && i + p.len() <= s.len() && s.subrange(i, i + p.len()) == p
}

/// Whether `p` occurs somewhere in `s` (`str::contains`).
pub open spec fn contains_seq(s: Seq<char>, p: Seq<char>) -> bool {
    exists|i: int| occurs_at(s, p, i)
}

/// Whether `v[at..]` starts with `p`.
pub fn matches_at(v: &Vec<char>, at: usize, p: &Vec<char>) -> (r: bool)
    requires
        at <= v.len(),
    ensures
        r == occurs_at(v@, p@, at as int),
{
    if p.len() > v.len() - at {
        return false;
    }
    let mut i: usize = 0;
    while i < p.len()
        invariant
            at + p.len() <= v.len(),
            i <= p.len(),
            forall|j: int| 0 <= j < i ==> v@[at + j] == p@[j],
        decreases p.len() - i,
    {
        if v[at + i] != p[i] {
            assert(v@.subrange(at as int, at + p.len())[i as int] != p@[i as int]);
            return false;
        }
        i += 1;
    }
    assert(v@.subrange(at as int, at + p.len()) =~= p@);
    true
}

/// Whether `v` starts with `p` (`str::starts_with`).
pub fn starts_with(v: &Vec<char>, p: &Vec<char>) -> (r: bool)
    ensures
        r == has_prefix(v@, p@),
{
    let r = matches_at(v, 0, p);
    assert(r ==> v@.take(p@.len() as int) == v@.subrange(0, p@.len() as int));
    r
}

/// Whether `p` occurs in `v` (`str::contains`).
pub fn contains(v: &Vec<char>, p: &Vec<char>) -> (r: bool)
    ensures
        r == contains_seq(v@, p@),
{
    let mut i: usize = 0;
    while i < v.len()
        invariant
            i <= v.len(),
            forall|j: int| 0 <= j < i ==> !occurs_at(v@, p@, j),
        decreases v.len() - i,
    {
        if matches_at(v, i, p) {
            return true;
        }
        i += 1;
    }
    if matches_at(v, i, p) {
        return true;
    }
    assert forall|j: int| !occurs_at(v@, p@, j) by {
        if 0 <= j <= i {
        }
    }
    false
}

/// Index of the first occurrence of `c` in `v`, if any.
pub fn find_char(v: &Vec<char>, c: char) -> (r: Option<usize>)
    ensures
        r matches Some(i) ==> i < v.len() && v@[i as int] == c && forall|j: int|
            0 <= j < i ==> v@[j] != c,
        r is None ==> forall|j: int| 0 <= j < v.len() ==> v@[j] != c,
{
    let mut i: usize = 0;
    while i < v.len()
        invariant
            i <= v.len(),
            forall|j: int| 0 <= j < i ==> v@[j] != c,
        decreases v.len() - i,
    {
        if v[i] == c {
            return Some(i);
        }
        i += 1;
    }
    None
}

/// Index of the last occurrence of `c` in `v`, if any.
pub fn rfind_char(v: &Vec<char>, c: char) -> (r: Option<usize>)
    ensures
        r matches Some(i) ==> i < v.len() && v@[i as int] == c && forall|j: int|
            i < j < v.len() ==> v@[j] != c,
        r is None ==> forall|j: int| 0 <= j < v.len() ==> v@[j] != c,
{
    let mut i: usize = v.len();
    while i > 0
        invariant
            i <= v.len(),
            forall|j: int| i <= j < v.len() ==> v@[j] != c,
        decreases i,
    {
        if v[i - 1] == c {
            return Some(i - 1);
        }
        i -= 1;
    }
    None
}

/// The characters of a string slice, trimmed.
pub fn chars_trimmed(s: &str) -> (r: Vec<char>)
    ensures
        r@ == trim(s@),
{
    let v = to_chars(s);
    trimmed(&v)
}

/// Whether two character vectors are equal.
pub fn same_chars(a: &Vec<char>, b: &Vec<char>) -> (r: bool)
    ensures
        r == (a@ == b@),
{
    if a.len() != b.len() {
        return false;
    }
    let mut i: usize = 0;
    while i < a.len()
        invariant
            a.len() == b.len(),
            i <= a.len(),
            forall|j: int| 0 <= j < i ==> a@[j] == b@[j],
        decreases a.len() - i,
    {
        if a[i] != b[i] {
            return false;
        }
        i += 1;
    }
    assert(a@ =~= b@);
    true
}

/// A copy of the characters `v`.
pub fn copy_chars(v: &Vec<char>) -> (r: Vec<char>)
    ensures
        r@ == v@,
{
    let r = slice(v, 0, v.len());
    assert(v@.subrange(0, v@.len() as int) == v@);
    r
}

/// `a` followed by `b`.
pub fn concat(a: &Vec<char>, b: &Vec<char>) -> (r: Vec<char>)
    ensures
        r@ == a@ + b@,
{
    let mut r = copy_chars(a);
    let mut i: usize = 0;
    while i < b.len()
        invariant
            i <= b.len(),
            r@ == a@ + b@.take(i as int),
        decreases b.len() - i,
    {
        r.push(b[i]);
        i += 1;
        assert(b@.take(i as int) == b@.take(i - 1).push(b@[i - 1]));
    }
    assert(b@.take(b.len() as int) == b@);
    r
}


/// The first position at or after `i` where `p` occurs in `s`.
pub open spec fn first_occ(s: Seq<char>, p: Seq<char>, i: int) -> Option<int>
    decreases s.len() + 1 - i,
{
    if i < 0 || i + p.len() > s.len() {
        None
    } else if occurs_at(s, p, i) {
        Some(i)
    } else {
        first_occ(s, p, i + 1)
    }
}

pub proof fn lemma_first_occ(s: Seq<char>, p: Seq<char>, i: int)
    requires
        0 <= i,
    ensures
        first_occ(s, p, i) matches Some(j) ==> i <= j && j + p.len() <= s.len() && occurs_at(s, p, j)
            && forall|k: int| i <= k < j ==> !occurs_at(s, p, k),
        first_occ(s, p, i) is None ==> forall|k: int| i <= k ==> !occurs_at(s, p, k),
    decreases s.len() + 1 - i,
{
    if i + p.len() <= s.len() && !occurs_at(s, p, i) {
        lemma_first_occ(s, p, i + 1);
    }
}

/// Position of the first occurrence of `p` in `v` (`str::find`).
pub fn find_seq(v: &Vec<char>, p: &Vec<char>) -> (r: Option<usize>)
    ensures
        r matches Some(i) ==> first_occ(v@, p@, 0) == Some(i as int),
        r is None ==> first_occ(v@, p@, 0) is None,
{
    if p.len() > v.len() {
        return None;
    }
    let last = v.len() - p.len();
    let mut i: usize = 0;
    while i < last
        invariant
            p.len() <= v.len(),
            last == v.len() - p.len(),
            i <= last,
            first_occ(v@, p@, 0) == first_occ(v@, p@, i as int),
        decreases last - i,
    {
        if matches_at(v, i, p) {
            return Some(i);
        }
        i += 1;
    }
    if matches_at(v, last, p) {
        return Some(last);
    }
    assert(first_occ(v@, p@, last + 1) is None);
    None
}

/// Whether `p` is a suffix of `s`.
pub open spec fn has_suffix(s: Seq<char>, p: Seq<char>) -> bool {
    p.len() <= s.len() && s.skip(s.len() - p.len()) == p
}

/// Whether `v` ends with `p` (`str::ends_with`).
pub fn ends_with(v: &Vec<char>, p: &Vec<char>) -> (r: bool)
    ensures
        r == has_suffix(v@, p@),
{
    if p.len() > v.len() {
        return false;
    }
    let at = v.len() - p.len();
    let r = matches_at(v, at, p);
    assert(v@.skip(at as int) =~= v@.subrange(at as int, at + p@.len()));
    r
}
} // verus!
