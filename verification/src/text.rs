//! Character-level helpers shared by the parsers: a sequence-of-characters
//! model of strings, searching, trimming and splitting.
use vstd::prelude::*;

verus! {

// ---------------------------------------------------------------------------
// Specifications
// ---------------------------------------------------------------------------

/// The Unicode `White_Space` property (the set `char::is_whitespace` tests).
pub open spec fn is_white_space(c: char) -> bool {
    let v = c as u32;
    ||| 0x09 <= v <= 0x0D
    ||| v == 0x20
    ||| v == 0x85
    ||| v == 0xA0
    ||| v == 0x1680
    ||| 0x2000 <= v <= 0x200A
    ||| v == 0x2028
    ||| v == 0x2029
    ||| v == 0x202F
    ||| v == 0x205F
    ||| v == 0x3000
}

/// The five bytes that `u8::is_ascii_whitespace` accepts.
pub open spec fn is_ascii_ws(c: char) -> bool {
    c == ' ' || c == '\t' || c == '\n' || c == '\x0C' || c == '\r'
}

pub open spec fn is_ascii_char(c: char) -> bool {
    (c as u32) < 128
}

pub open spec fn all_ascii(s: Seq<char>) -> bool {
    forall|i: int| 0 <= i < s.len() ==> is_ascii_char(#[trigger] s[i])
}

pub open spec fn ascii_lower(c: char) -> char {
    if 'A' <= c && c <= 'Z' {
        ((c as u32) + 32) as char
    } else {
        c
    }
}

pub open spec fn ascii_lower_seq(s: Seq<char>) -> Seq<char> {
    Seq::new(s.len(), |i: int| ascii_lower(s[i]))
}

/// Unicode lowercase mapping of a whole string, as `str::to_lowercase` computes it.
pub uninterp spec fn lowercase(s: Seq<char>) -> Seq<char>;

/// The Unicode `Alphabetic` or `Numeric` property, as `char::is_alphanumeric` tests it.
pub uninterp spec fn unicode_alphanumeric(c: char) -> bool;

pub open spec fn is_ascii_alnum(c: char) -> bool {
    ('a' <= c && c <= 'z') || ('A' <= c && c <= 'Z') || ('0' <= c && c <= '9')
}

pub open spec fn is_ascii_digit(c: char) -> bool {
    '0' <= c && c <= '9'
}

/// `pat` occurs in `s` at position `i`.
pub open spec fn matches_at(s: Seq<char>, i: int, pat: Seq<char>) -> bool {
    &&& 0 <= i
    &&& i + pat.len() <= s.len()
    &&& s.subrange(i, i + pat.len()) == pat
}

/// Position of the first occurrence of `pat` in `s` at or after `start`.
pub open spec fn find_from(s: Seq<char>, start: int, pat: Seq<char>) -> Option<int>
    decreases s.len() + 1 - start,
{
    if start < 0 || start + pat.len() > s.len() {
        None
    } else if matches_at(s, start, pat) {
        Some(start)
    } else {
        find_from(s, start + 1, pat)
    }
}

/// Position of the first occurrence of character `c` in `s` at or after `start`.
pub open spec fn find_char_from(s: Seq<char>, start: int, c: char) -> Option<int>
    decreases s.len() - start,
{
    if start < 0 || start >= s.len() {
        None
    } else if s[start] == c {
        Some(start)
    } else {
        find_char_from(s, start + 1, c)
    }
}

pub open spec fn starts_with(s: Seq<char>, pat: Seq<char>) -> bool {
    pat.len() <= s.len() && s.take(pat.len() as int) == pat
}

pub open spec fn ends_with(s: Seq<char>, pat: Seq<char>) -> bool {
    pat.len() <= s.len() && s.skip(s.len() - pat.len()) == pat
}

/// Number of leading characters of `s` that satisfy `is_white_space`.
pub open spec fn leading_ws(s: Seq<char>) -> nat
    decreases s.len(),
{
    if s.len() > 0 && is_white_space(s[0]) {
        1 + leading_ws(s.skip(1))
    } else {
        0
    }
}

/// Number of trailing characters of `s` that satisfy `is_white_space`.
pub open spec fn trailing_ws(s: Seq<char>) -> nat
    decreases s.len(),
{
    if s.len() > 0 && is_white_space(s.last()) {
        1 + trailing_ws(s.drop_last())
    } else {
        0
    }
}

pub open spec fn trim_start(s: Seq<char>) -> Seq<char> {
    s.skip(leading_ws(s) as int)
}

pub open spec fn trim_end(s: Seq<char>) -> Seq<char> {
    s.take(s.len() - trailing_ws(s))
}

/// `str::trim`: drop leading and trailing white space.
pub open spec fn trim(s: Seq<char>) -> Seq<char> {
    trim_end(trim_start(s))
}

/// `s` with every occurrence of `from` replaced by `to`.
pub open spec fn replace_char(s: Seq<char>, from: char, to: char) -> Seq<char> {
    Seq::new(s.len(), |i: int| if s[i] == from { to } else { s[i] })
}

/// `s` without any occurrence of character `c`.
pub open spec fn remove_char(s: Seq<char>, c: char) -> Seq<char>
    decreases s.len(),
{
    if s.len() == 0 {
        s
    } else if s[0] == c {
        remove_char(s.skip(1), c)
    } else {
        seq![s[0]] + remove_char(s.skip(1), c)
    }
}

/// Non-overlapping, left-to-right replacement of `pat` by `rep` (as `str::replace`).
pub open spec fn replace_all(s: Seq<char>, pat: Seq<char>, rep: Seq<char>) -> Seq<char>
    recommends
        pat.len() > 0,
    decreases s.len(),
{
    if pat.len() == 0 || s.len() == 0 {
        s
    } else if matches_at(s, 0, pat) {
        rep + replace_all(s.skip(pat.len() as int), pat, rep)
    } else {
        seq![s[0]] + replace_all(s.skip(1), pat, rep)
    }
}

/// The words of `s`: maximal runs of non-white-space characters, in order
/// (as `str::split_whitespace`).
pub open spec fn words(s: Seq<char>) -> Seq<Seq<char>>
    decreases s.len(),
{
    if s.len() == 0 {
        seq![]
    } else if is_white_space(s[0]) {
        words(s.skip(1))
    } else {
        let w = word_len(s);
        proof {
            lemma_word_len(s);
        }
        seq![s.take(w as int)] + words(s.skip(w as int))
    }
}

pub proof fn lemma_word_len(s: Seq<char>)
    ensures
        word_len(s) <= s.len(),
        s.len() > 0 && !is_white_space(s[0]) ==> word_len(s) >= 1,
        forall|i: int| 0 <= i < word_len(s) ==> !is_white_space(#[trigger] s[i]),
        word_len(s) < s.len() ==> is_white_space(s[word_len(s) as int]),
    decreases s.len(),
{
    if s.len() > 0 && !is_white_space(s[0]) {
        lemma_word_len(s.skip(1));
        assert forall|i: int| 0 <= i < word_len(s) implies !is_white_space(#[trigger] s[i]) by {
            if i > 0 {
                assert(s[i] == s.skip(1)[i - 1]);
            }
        }
    }
}

/// Length of the leading run of non-white-space characters.
pub open spec fn word_len(s: Seq<char>) -> nat
    decreases s.len(),
{
    if s.len() > 0 && !is_white_space(s[0]) {
        1 + word_len(s.skip(1))
    } else {
        0
    }
}

/// The pieces of `s` between occurrences of separator `sep` (as `str::split`).
pub open spec fn split_char(s: Seq<char>, sep: char) -> Seq<Seq<char>>
    decreases s.len(),
{
    match find_char_from(s, 0, sep) {
        Some(i) => {
            proof {
                lemma_find_char_from_result(s, 0, sep);
            }
            seq![s.take(i)] + split_char(s.skip(i + 1), sep)
        },
        None => seq![s],
    }
}

/// The pieces joined with `sep` between them (as `[String]::join`).
pub open spec fn join(parts: Seq<Seq<char>>, sep: Seq<char>) -> Seq<char>
    decreases parts.len(),
{
    if parts.len() == 0 {
        seq![]
    } else if parts.len() == 1 {
        parts[0]
    } else {
        join(parts.drop_last(), sep) + sep + parts.last()
    }
}

// ---------------------------------------------------------------------------
// Lemmas
// ---------------------------------------------------------------------------

pub proof fn lemma_leading_ws_bound(s: Seq<char>)
    ensures
        leading_ws(s) <= s.len(),
        forall|i: int| 0 <= i < leading_ws(s) ==> is_white_space(#[trigger] s[i]),
        leading_ws(s) < s.len() ==> !is_white_space(s[leading_ws(s) as int]),
    decreases s.len(),
{
    if s.len() > 0 && is_white_space(s[0]) {
        lemma_leading_ws_bound(s.skip(1));
        assert forall|i: int| 0 <= i < leading_ws(s) implies is_white_space(#[trigger] s[i]) by {
            if i > 0 {
                assert(s[i] == s.skip(1)[i - 1]);
            }
        }
    }
}

pub proof fn lemma_trailing_ws_bound(s: Seq<char>)
    ensures
        trailing_ws(s) <= s.len(),
        forall|i: int|
            s.len() - trailing_ws(s) <= i < s.len() ==> is_white_space(#[trigger] s[i]),
        trailing_ws(s) < s.len() ==> !is_white_space(s[s.len() - trailing_ws(s) - 1]),
    decreases s.len(),
{
    if s.len() > 0 && is_white_space(s.last()) {
        lemma_trailing_ws_bound(s.drop_last());
        assert forall|i: int|
            s.len() - trailing_ws(s) <= i < s.len() implies is_white_space(#[trigger] s[i]) by {
            if i < s.len() - 1 {
                assert(s[i] == s.drop_last()[i]);
            }
        }
    }
}

/// Stepping over one non-matching position keeps the first match the same.
pub proof fn lemma_find_from_step(s: Seq<char>, start: int, pat: Seq<char>)
    requires
        0 <= start,
        start + pat.len() <= s.len(),
        !matches_at(s, start, pat),
    ensures
        find_from(s, start, pat) == find_from(s, start + 1, pat),
{
}

pub proof fn lemma_find_from_result(s: Seq<char>, start: int, pat: Seq<char>)
    requires
        0 <= start,
    ensures
        find_from(s, start, pat) matches Some(i) ==> start <= i && matches_at(s, i, pat)
            && forall|j: int| start <= j < i ==> !matches_at(s, j, pat),
        find_from(s, start, pat) is None ==> forall|j: int|
            start <= j ==> !matches_at(s, j, pat),
    decreases s.len() + 1 - start,
{
    if start + pat.len() <= s.len() && !matches_at(s, start, pat) {
        lemma_find_from_result(s, start + 1, pat);
    }
}

pub proof fn lemma_find_char_from_result(s: Seq<char>, start: int, c: char)
    requires
        0 <= start,
    ensures
        find_char_from(s, start, c) matches Some(i) ==> start <= i < s.len() && s[i] == c
            && forall|j: int| start <= j < i ==> s[j] != c,
        find_char_from(s, start, c) is None ==> forall|j: int|
            start <= j < s.len() ==> s[j] != c,
    decreases s.len() - start,
{
    if start < s.len() && s[start] != c {
        lemma_find_char_from_result(s, start + 1, c);
    }
}

// ---------------------------------------------------------------------------
// Trusted items (std)
// ---------------------------------------------------------------------------

/// Appends one character to a string (`String::push`): the string's characters
/// gain `c` at the end.
#[verifier::external_body]
pub(crate) fn push_char(s: &mut String, c: char)
    ensures
        final(s)@ == old(s)@.push(c),
{
    s.push(c)
}

/// `str::to_lowercase`. The result is named `lowercase`; on ASCII text the
/// documented mapping is stated: each `A`..`Z` becomes `a`..`z`, all else stays.
/// Nothing is stated of non-ASCII text beyond the name.
#[verifier::external_body]
pub(crate) fn to_lowercase(s: &str) -> (r: String)
    ensures
        r@ == lowercase(s@),
        all_ascii(s@) ==> r@ == ascii_lower_seq(s@),
{
    s.to_lowercase()
}

/// `char::is_alphanumeric`. The result is named `unicode_alphanumeric`; for
/// ASCII characters the documented answer is stated: letters and digits only.
#[verifier::external_body]
pub(crate) fn char_is_alphanumeric(c: char) -> (b: bool)
    ensures
        b == unicode_alphanumeric(c),
        is_ascii_char(c) ==> (b == is_ascii_alnum(c)),
{
    c.is_alphanumeric()
}

/// `char::from_u32`: a character exactly when the value is a Unicode scalar
/// value (at most 0x10FFFF and not a surrogate), and then that character.
#[verifier::external_body]
pub(crate) fn char_from_u32(v: u32) -> (r: Option<char>)
    ensures
        r is Some <==> (v <= 0x10FFFF && !(0xD800 <= v <= 0xDFFF)),
        r matches Some(c) ==> c as u32 == v && c == v as char,
{
    char::from_u32(v)
}

// ---------------------------------------------------------------------------
// Executable helpers
// ---------------------------------------------------------------------------

/// `char::is_whitespace`, the Unicode `White_Space` property.
pub fn is_whitespace(c: char) -> (b: bool)
    ensures
        b == is_white_space(c),
{
    let v = c as u32;
    (0x09 <= v && v <= 0x0D) || v == 0x20 || v == 0x85 || v == 0xA0 || v == 0x1680 || (0x2000
        <= v && v <= 0x200A) || v == 0x2028 || v == 0x2029 || v == 0x202F || v == 0x205F || v
        == 0x3000
}

/// `u8::is_ascii_whitespace` on a character.
pub fn is_ascii_whitespace(c: char) -> (b: bool)
    ensures
        b == is_ascii_ws(c),
{
    c == ' ' || c == '\t' || c == '\n' || c == '\x0C' || c == '\r'
}

pub fn is_digit(c: char) -> (b: bool)
    ensures
        b == is_ascii_digit(c),
{
    '0' <= c && c <= '9'
}

pub fn to_ascii_lower(c: char) -> (r: char)
    ensures
        r == ascii_lower(c),
{
    if 'A' <= c && c <= 'Z' {
        let v = (c as u32) + 32;
        assert(v <= 0x7f);
        let r = char_from_u32(v);
        match r {
            Some(l) => l,
            None => c,
        }
    } else {
        c
    }
}

/// The characters of a string slice, in order.
pub fn chars_of(s: &str) -> (v: Vec<char>)
    ensures
        v@ == s@,
{
    let mut v: Vec<char> = Vec::new();
    for c in it: s.chars()
        invariant
            it.seq() == s@,
            v@ == s@.take(it.index() as int),
    {
        v.push(c);
    }
    assert(s@.take(s@.len() as int) =~= s@);
    v
}

/// A string holding the characters `v[start..end]`.
pub fn string_from_range(v: &Vec<char>, start: usize, end: usize) -> (s: String)
    requires
        start <= end <= v.len(),
    ensures
        s@ == v@.subrange(start as int, end as int),
{
    let mut s = String::new();
    let mut i = start;
    while i < end
        invariant
            start <= i <= end <= v.len(),
            s@ == v@.subrange(start as int, i as int),
        decreases end - i,
    {
        push_char(&mut s, v[i]);
        i += 1;
        assert(s@ =~= v@.subrange(start as int, i as int));
    }
    s
}

/// A string holding the characters of `v`.
pub fn string_from(v: &Vec<char>) -> (s: String)
    ensures
        s@ == v@,
{
    let s = string_from_range(v, 0, v.len());
    assert(v@.subrange(0, v@.len() as int) =~= v@);
    s
}

/// Appends the characters `v[start..end]` to `s`.
pub fn push_range(s: &mut String, v: &Vec<char>, start: usize, end: usize)
    requires
        start <= end <= v.len(),
    ensures
        final(s)@ == old(s)@ + v@.subrange(start as int, end as int),
{
    let mut i = start;
    while i < end
        invariant
            start <= i <= end <= v.len(),
            s@ == old(s)@ + v@.subrange(start as int, i as int),
        decreases end - i,
    {
        push_char(s, v[i]);
        i += 1;
        assert(s@ =~= old(s)@ + v@.subrange(start as int, i as int));
    }
}

/// Appends a string slice to `s`.
pub fn push_str(s: &mut String, t: &str)
    ensures
        final(s)@ == old(s)@ + t@,
{
    let v = chars_of(t);
    push_range(s, &v, 0, v.len());
    assert(v@.subrange(0, v@.len() as int) =~= t@);
}

/// Whether `pat` occurs in `s` at position `i`.
pub fn matches_at_exec(s: &Vec<char>, i: usize, pat: &Vec<char>) -> (b: bool)
    ensures
        b == matches_at(s@, i as int, pat@),
{
    if i > s.len() || pat.len() > s.len() - i {
        return false;
    }
    let mut k: usize = 0;
    while k < pat.len()
        invariant
            i + pat.len() <= s.len(),
            k <= pat.len(),
            forall|j: int| 0 <= j < k ==> s@[i + j] == pat@[j],
        decreases pat.len() - k,
    {
        if s[i + k] != pat[k] {
            assert(s@.subrange(i as int, i + pat.len())[k as int] != pat@[k as int]);
            return false;
        }
        k += 1;
    }
    assert(s@.subrange(i as int, i + pat.len()) =~= pat@);
    true
}

/// First occurrence of `pat` in `s` at or after `start`.
pub fn find_exec(s: &Vec<char>, start: usize, pat: &Vec<char>) -> (r: Option<usize>)
    ensures
        r matches Some(i) ==> find_from(s@, start as int, pat@) == Some(i as int),
        r is None ==> find_from(s@, start as int, pat@) is None,
{
    let mut i = start;
    while i <= s.len() && pat.len() <= s.len() - i
        invariant
            start <= i,
            find_from(s@, start as int, pat@) == find_from(s@, i as int, pat@),
        decreases s.len() + 1 - i,
    {
        if matches_at_exec(s, i, pat) {
            return Some(i);
        }
        if i == s.len() {
            assert(s@.subrange(i as int, i as int) =~= pat@);
            return None;
        }
        proof {
            lemma_find_from_step(s@, i as int, pat@);
        }
        i += 1;
    }
    None
}

/// First occurrence of character `c` in `s` at or after `start`.
pub fn find_char_exec(s: &Vec<char>, start: usize, c: char) -> (r: Option<usize>)
    ensures
        r matches Some(i) ==> find_char_from(s@, start as int, c) == Some(i as int),
        r is None ==> find_char_from(s@, start as int, c) is None,
{
    let mut i = start;
    while i < s.len()
        invariant
            start <= i,
            find_char_from(s@, start as int, c) == find_char_from(s@, i as int, c),
        decreases s.len() - i,
    {
        if s[i] == c {
            return Some(i);
        }
        i += 1;
    }
    None
}

/// Bounds of `s[start..end]` once leading and trailing white space are dropped.
pub fn trim_bounds(s: &Vec<char>, start: usize, end: usize) -> (r: (usize, usize))
    requires
        start <= end <= s.len(),
    ensures
        start <= r.0 <= r.1 <= end,
        s@.subrange(r.0 as int, r.1 as int) == trim(s@.subrange(start as int, end as int)),
{
    let ghost t = s@.subrange(start as int, end as int);
    let mut a = start;
    while a < end && is_whitespace(s[a])
        invariant
            start <= a <= end <= s.len(),
            t == s@.subrange(start as int, end as int),
            leading_ws(t) == (a - start) + leading_ws(s@.subrange(a as int, end as int)),
        decreases end - a,
    {
        assert(s@.subrange(a as int, end as int).skip(1) =~= s@.subrange(a + 1, end as int));
        a += 1;
    }
    assert(trim_start(t) =~= s@.subrange(a as int, end as int));
    let ghost u = s@.subrange(a as int, end as int);
    let mut b = end;
    while b > a && is_whitespace(s[b - 1])
        invariant
            start <= a <= b <= end <= s.len(),
            u == s@.subrange(a as int, end as int),
            trailing_ws(u) == (end - b) + trailing_ws(s@.subrange(a as int, b as int)),
        decreases b - a,
    {
        assert(s@.subrange(a as int, b as int).drop_last() =~= s@.subrange(a as int, b - 1));
        b -= 1;
    }
    assert(trim_end(u) =~= s@.subrange(a as int, b as int));
    (a, b)
}

/// `str::trim` on a string slice.
pub fn trim_str(s: &str) -> (r: String)
    ensures
        r@ == trim(s@),
{
    let v = chars_of(s);
    let (a, b) = trim_bounds(&v, 0, v.len());
    assert(v@.subrange(0, v@.len() as int) =~= v@);
    string_from_range(&v, a, b)
}

/// Whether two character ranges hold the same characters.
pub fn range_eq(s: &Vec<char>, a: usize, b: usize, pat: &Vec<char>) -> (r: bool)
    requires
        a <= b <= s.len(),
    ensures
        r == (s@.subrange(a as int, b as int) == pat@),
{
    if b - a != pat.len() {
        return false;
    }
    let r = matches_at_exec(s, a, pat);
    r
}

/// Whether two strings hold the same characters.
pub fn str_eq(a: &str, b: &str) -> (r: bool)
    ensures
        r == (a@ == b@),
{
    let x = chars_of(a);
    let y = chars_of(b);
    let r = range_eq(&x, 0, x.len(), &y);
    assert(x@.subrange(0, x@.len() as int) =~= x@);
    r
}


/// The characters `s[b.0..b.1]` for each pair of bounds.
pub open spec fn pieces(s: Seq<char>, bounds: Seq<(usize, usize)>) -> Seq<Seq<char>> {
    bounds.map_values(|b: (usize, usize)| s.subrange(b.0 as int, b.1 as int))
}

/// Bounds of the words of `s[start..end]` (the runs that `str::split_whitespace` yields).
pub fn word_bounds(s: &Vec<char>, start: usize, end: usize) -> (r: Vec<(usize, usize)>)
    requires
        start <= end <= s.len(),
    ensures
        pieces(s@, r@) == words(s@.subrange(start as int, end as int)),
        forall|k: int|
            0 <= k < r.len() ==> start <= (#[trigger] r@[k]).0 < r@[k].1 <= end,
{
    let ghost t = s@.subrange(start as int, end as int);
    let mut r: Vec<(usize, usize)> = Vec::new();
    let mut i = start;
    assert(t.skip(0) =~= t);
    while i < end
        invariant
            start <= i <= end <= s.len(),
            t == s@.subrange(start as int, end as int),
            words(t) == pieces(s@, r@) + words(t.skip(i - start)),
            forall|k: int| 0 <= k < r.len() ==> start <= (#[trigger] r@[k]).0 < r@[k].1 <= i,
        decreases end - i,
    {
        let ghost u = t.skip(i - start);
        if is_whitespace(s[i]) {
            proof {
                assert(u[0] == s@[i as int]);
                assert(u.skip(1) =~= t.skip(i + 1 - start));
            }
            i += 1;
        } else {
            let mut j = i;
            while j < end && !is_whitespace(s[j])
                invariant
                    i <= j <= end <= s.len(),
                    forall|k: int| i <= k < j ==> !is_white_space(#[trigger] s@[k]),
                decreases end - j,
            {
                j += 1;
            }
            proof {
                lemma_word_len(u);
                let w = word_len(u);
                assert(u[0] == s@[i as int]);
                if w < j - i {
                    assert(u[w as int] == s@[i + w]);
                }
                if w > j - i {
                    assert(u[j - i] == s@[j as int]);
                }
                assert(w == j - i);
                assert(u.take(w as int) =~= s@.subrange(i as int, j as int));
                assert(u.skip(w as int) =~= t.skip(j - start));
                assert(words(u) == seq![u.take(w as int)] + words(u.skip(w as int)));
            }
            let ghost old_r = r@;
            r.push((i, j));
            proof {
                assert(pieces(s@, r@) =~= pieces(s@, old_r) + seq![s@.subrange(i as int, j as int)]);
            }
            i = j;
        }
    }
    proof {
        assert(t.skip(end - start) =~= Seq::<char>::empty());
        assert(words(Seq::<char>::empty()) == Seq::<Seq<char>>::empty());
        assert(pieces(s@, r@) + Seq::<Seq<char>>::empty() =~= pieces(s@, r@));
    }
    r
}

/// The pieces `s[b.0..b.1]` joined with `sep`.
pub fn join_pieces(s: &Vec<char>, bounds: &Vec<(usize, usize)>, sep: &Vec<char>) -> (r: String)
    requires
        forall|k: int|
            0 <= k < bounds.len() ==> (#[trigger] bounds@[k]).0 <= bounds@[k].1 <= s.len(),
    ensures
        r@ == join(pieces(s@, bounds@), sep@),
{
    let mut r = String::new();
    let mut k: usize = 0;
    while k < bounds.len()
        invariant
            k <= bounds.len(),
            forall|m: int|
                0 <= m < bounds.len() ==> (#[trigger] bounds@[m]).0 <= bounds@[m].1 <= s.len(),
            r@ == join(pieces(s@, bounds@.take(k as int)), sep@),
        decreases bounds.len() - k,
    {
        let (a, b) = bounds[k];
        if k > 0 {
            push_range(&mut r, sep, 0, sep.len());
            assert(sep@.subrange(0, sep@.len() as int) =~= sep@);
        }
        push_range(&mut r, s, a, b);
        proof {
            let p = pieces(s@, bounds@.take(k + 1));
            assert(p.drop_last() =~= pieces(s@, bounds@.take(k as int)));
            assert(p.last() == s@.subrange(a as int, b as int));
            if k == 0 {
                assert(p.len() == 1);
            }
        }
        k += 1;
    }
    assert(bounds@.take(bounds.len() as int) =~= bounds@);
    r
}

pub proof fn lemma_find_char_skip(s: Seq<char>, a: int, c: char)
    requires
        0 <= a <= s.len(),
    ensures
        find_char_from(s.skip(a), 0, c) == (match find_char_from(s, a, c) {
            Some(i) => Some(i - a),
            None => None,
        }),
{
    lemma_find_char_shift(s, a, 0, c);
}

proof fn lemma_find_char_shift(s: Seq<char>, a: int, k: int, c: char)
    requires
        0 <= a <= s.len(),
        0 <= k,
    ensures
        find_char_from(s.skip(a), k, c) == (match find_char_from(s, a + k, c) {
            Some(i) => Some(i - a),
            None => None,
        }),
    decreases s.len() - a - k,
{
    if a + k < s.len() {
        assert(s.skip(a)[k] == s[a + k]);
        lemma_find_char_shift(s, a, k + 1, c);
    }
}

/// A copy of the characters `v[start..end]`.
pub fn sub_vec(v: &Vec<char>, start: usize, end: usize) -> (r: Vec<char>)
    requires
        start <= end <= v.len(),
    ensures
        r@ == v@.subrange(start as int, end as int),
{
    let mut r: Vec<char> = Vec::new();
    let mut i = start;
    while i < end
        invariant
            start <= i <= end <= v.len(),
            r@ == v@.subrange(start as int, i as int),
        decreases end - i,
    {
        r.push(v[i]);
        i += 1;
        assert(r@ =~= v@.subrange(start as int, i as int));
    }
    r
}

/// ASCII case-insensitive equality (as `str::eq_ignore_ascii_case`).
pub open spec fn eq_ignore_ascii_case(a: Seq<char>, b: Seq<char>) -> bool {
    ascii_lower_seq(a) == ascii_lower_seq(b)
}

pub fn eq_ignore_ascii_case_exec(a: &Vec<char>, b: &str) -> (r: bool)
    ensures
        r == eq_ignore_ascii_case(a@, b@),
{
    let bv = chars_of(b);
    if a.len() != bv.len() {
        proof {
            assert(ascii_lower_seq(a@).len() != ascii_lower_seq(bv@).len());
        }
        return false;
    }
    let mut i: usize = 0;
    while i < a.len()
        invariant
            a.len() == bv.len(),
            bv@ == b@,
            i <= a.len(),
            forall|j: int| 0 <= j < i ==> ascii_lower(a@[j]) == ascii_lower(bv@[j]),
        decreases a.len() - i,
    {
        if to_ascii_lower(a[i]) != to_ascii_lower(bv[i]) {
            proof {
                assert(ascii_lower_seq(a@)[i as int] == ascii_lower(a@[i as int]));
                assert(ascii_lower_seq(bv@)[i as int] == ascii_lower(bv@[i as int]));
                assert(ascii_lower_seq(a@)[i as int] != ascii_lower_seq(bv@)[i as int]);
            }
            return false;
        }
        i += 1;
    }
    assert(ascii_lower_seq(a@) =~= ascii_lower_seq(bv@));
    true
}

/// Whether a list of strings holds one equal to `name`.
pub open spec fn has_name(list: Seq<Seq<char>>, name: Seq<char>) -> bool {
    exists|i: int| 0 <= i < list.len() && list[i] == name
}

pub open spec fn views_of(list: Seq<String>) -> Seq<Seq<char>> {
    list.map_values(|s: String| s@)
}

/// Whether `list` holds a string equal to `s[start..end]`.
pub fn contains_range(list: &[String], s: &Vec<char>, start: usize, end: usize) -> (r: bool)
    requires
        start <= end <= s.len(),
    ensures
        r == has_name(views_of(list@), s@.subrange(start as int, end as int)),
{
    let mut i: usize = 0;
    while i < list.len()
        invariant
            i <= list.len(),
            start <= end <= s.len(),
            forall|j: int| 0 <= j < i ==> list@[j]@ != s@.subrange(start as int, end as int),
        decreases list.len() - i,
    {
        let c = chars_of(list[i].as_str());
        if range_eq(s, start, end, &c) {
            proof {
                assert(views_of(list@)[i as int] == list@[i as int]@);
            }
            return true;
        }
        i += 1;
    }
    proof {
        assert forall|j: int| 0 <= j < views_of(list@).len() implies views_of(list@)[j] != s@.subrange(start as int, end as int) by {
            assert(views_of(list@)[j] == list@[j]@);
        }
    }
    false
}

/// Whether `list` holds a string equal to `name`.
pub fn contains_str(list: &[String], name: &str) -> (r: bool)
    ensures
        r == has_name(views_of(list@), name@),
{
    let v = chars_of(name);
    let r = contains_range(list, &v, 0, v.len());
    assert(v@.subrange(0, v@.len() as int) =~= v@);
    r
}

pub open spec fn is_quote(c: char) -> bool {
    c == '\'' || c == '"'
}

pub open spec fn leading_quotes(s: Seq<char>) -> nat
    decreases s.len(),
{
    if s.len() > 0 && is_quote(s[0]) {
        1 + leading_quotes(s.skip(1))
    } else {
        0
    }
}

pub open spec fn trailing_quotes(s: Seq<char>) -> nat
    decreases s.len(),
{
    if s.len() > 0 && is_quote(s.last()) {
        1 + trailing_quotes(s.drop_last())
    } else {
        0
    }
}

/// `s` with all leading and trailing quote characters removed (`trim_matches`).
pub open spec fn trim_quotes(s: Seq<char>) -> Seq<char> {
    let t = s.skip(leading_quotes(s) as int);
    t.take(t.len() - trailing_quotes(t))
}

pub proof fn lemma_leading_quotes(s: Seq<char>)
    ensures
        leading_quotes(s) <= s.len(),
    decreases s.len(),
{
    if s.len() > 0 && is_quote(s[0]) {
        lemma_leading_quotes(s.skip(1));
    }
}

pub proof fn lemma_trailing_quotes(s: Seq<char>)
    ensures
        trailing_quotes(s) <= s.len(),
    decreases s.len(),
{
    if s.len() > 0 && is_quote(s.last()) {
        lemma_trailing_quotes(s.drop_last());
    }
}

/// Bounds of `s[start..end]` with quotes trimmed from both ends.
pub fn trim_quote_bounds(s: &Vec<char>, start: usize, end: usize) -> (r: (usize, usize))
    requires
        start <= end <= s.len(),
    ensures
        start <= r.0 <= r.1 <= end,
        s@.subrange(r.0 as int, r.1 as int) == trim_quotes(s@.subrange(start as int, end as int)),
{
    let ghost t = s@.subrange(start as int, end as int);
    let mut a = start;
    while a < end && (s[a] == '\'' || s[a] == '"')
        invariant
            start <= a <= end <= s.len(),
            t == s@.subrange(start as int, end as int),
            leading_quotes(t) == (a - start) + leading_quotes(s@.subrange(a as int, end as int)),
        decreases end - a,
    {
        assert(s@.subrange(a as int, end as int).skip(1) =~= s@.subrange(a + 1, end as int));
        a += 1;
    }
    assert(t.skip(leading_quotes(t) as int) =~= s@.subrange(a as int, end as int));
    let ghost u = s@.subrange(a as int, end as int);
    let mut b = end;
    while b > a && (s[b - 1] == '\'' || s[b - 1] == '"')
        invariant
            start <= a <= b <= end <= s.len(),
            u == s@.subrange(a as int, end as int),
            trailing_quotes(u) == (end - b) + trailing_quotes(s@.subrange(a as int, b as int)),
        decreases b - a,
    {
        assert(s@.subrange(a as int, b as int).drop_last() =~= s@.subrange(a as int, b - 1));
        b -= 1;
    }
    assert(u.take(u.len() - trailing_quotes(u)) =~= s@.subrange(a as int, b as int));
    (a, b)
}


/// Bounds of the pieces of `v` between occurrences of `sep` (as `str::split`).
pub fn split_bounds(v: &Vec<char>, sep: char) -> (r: Vec<(usize, usize)>)
    ensures
        pieces(v@, r@) == split_char(v@, sep),
        forall|k: int| 0 <= k < r.len() ==> (#[trigger] r@[k]).0 <= r@[k].1 <= v.len(),
{
    let mut r: Vec<(usize, usize)> = Vec::new();
    let mut a: usize = 0;
    assert(v@.skip(0) =~= v@);
    loop
        invariant
            a <= v.len(),
            pieces(v@, r@) + split_char(v@.skip(a as int), sep) == split_char(v@, sep),
            forall|k: int| 0 <= k < r.len() ==> (#[trigger] r@[k]).0 <= r@[k].1 <= v.len(),
        decreases v.len() - a,
    {
        proof {
            lemma_find_char_skip(v@, a as int, sep);
            lemma_find_char_from_result(v@, a as int, sep);
        }
        let end = match find_char_exec(v, a, sep) {
            Some(i) => i,
            None => v.len(),
        };
        let ghost t = v@.skip(a as int);
        let ghost piece = v@.subrange(a as int, end as int);
        let ghost before = pieces(v@, r@);
        r.push((a, end));
        proof {
            assert(pieces(v@, r@) =~= before.push(piece));
            if end < v.len() {
                assert(t.take(end - a) =~= piece);
                assert(t.skip(end - a + 1) =~= v@.skip(end + 1));
                assert(split_char(t, sep) =~= seq![piece] + split_char(v@.skip(end + 1), sep));
                assert(before.push(piece) + split_char(v@.skip(end + 1), sep) =~= before + (seq![piece]
                    + split_char(v@.skip(end + 1), sep)));
            } else {
                assert(t =~= piece);
                assert(split_char(t, sep) =~= seq![piece]);
                assert(before.push(piece) =~= before + seq![piece]);
            }
        }
        if end == v.len() {
            return r;
        }
        a = end + 1;
    }
}
} // verus!
