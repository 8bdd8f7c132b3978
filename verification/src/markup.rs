//! Reading and rewriting the attributes of (X)HTML tags, and collecting the
//! CSS that a chapter carries in `<style>` elements and `style` attributes.
use vstd::prelude::*;

use crate::css::{
    parse_css, parse_declarations, declarations_of, rule_views, stylesheet, CssRule, RuleView,
};
use crate::text::{
    ascii_lower, ascii_lower_seq, chars_of, find_char_exec, find_char_from, find_exec, find_from,
    is_ascii_alnum, is_ascii_whitespace, is_ascii_ws, lemma_find_char_from_result,
    lemma_find_from_result, matches_at, matches_at_exec, push_char, push_range, push_str,
    string_from, string_from_range, sub_vec, to_ascii_lower, word_bounds, words,
};

verus! {

// ---------------------------------------------------------------------------
// Decimal numbers
// ---------------------------------------------------------------------------

/// Decimal digits of `n`, most significant first.
pub open spec fn decimal(n: nat) -> Seq<char>
    decreases n,
{
    if n < 10 {
        seq![(('0' as nat) + n) as char]
    } else {
        decimal(n / 10) + seq![(('0' as nat) + n % 10) as char]
    }
}

/// `n` written in decimal (as `format!("{n}")`).
pub fn decimal_string(n: usize) -> (s: String)
    ensures
        s@ == decimal(n as nat),
    decreases n,
{
    if n < 10 {
        let mut s = String::new();
        let c = crate::text::char_from_u32(('0' as u32) + (n as u32));
        match c {
            Some(c) => push_char(&mut s, c),
            None => {},
        }
        assert(s@ =~= decimal(n as nat));
        s
    } else {
        let mut s = decimal_string(n / 10);
        let c = crate::text::char_from_u32(('0' as u32) + ((n % 10) as u32));
        match c {
            Some(c) => push_char(&mut s, c),
            None => {},
        }
        assert(s@ =~= decimal(n as nat));
        s
    }
}

// ---------------------------------------------------------------------------
// Attribute scanning
// ---------------------------------------------------------------------------

/// Characters that end an attribute name.
pub open spec fn ends_name(c: char) -> bool {
    c == '=' || c == ' ' || c == '>' || c == '/'
}

pub open spec fn skip_ascii_ws_from(s: Seq<char>, i: int) -> int
    decreases s.len() - i,
{
    if 0 <= i < s.len() && is_ascii_ws(s[i]) {
        skip_ascii_ws_from(s, i + 1)
    } else {
        i
    }
}

pub open spec fn name_end(s: Seq<char>, i: int) -> int
    decreases s.len() - i,
{
    if 0 <= i < s.len() && !ends_name(s[i]) {
        name_end(s, i + 1)
    } else {
        i
    }
}

pub open spec fn skip_eq_space(s: Seq<char>, i: int) -> int
    decreases s.len() - i,
{
    if 0 <= i < s.len() && (s[i] == ' ' || s[i] == '=') {
        skip_eq_space(s, i + 1)
    } else {
        i
    }
}

/// End of a quoted value whose first character is at `i`: the closing quote or the end.
pub open spec fn quote_end(s: Seq<char>, i: int, q: char) -> int
    decreases s.len() - i,
{
    if 0 <= i < s.len() && s[i] != q {
        quote_end(s, i + 1, q)
    } else {
        i
    }
}

pub proof fn lemma_scans(s: Seq<char>, i: int, q: char)
    requires
        0 <= i <= s.len(),
    ensures
        i <= skip_ascii_ws_from(s, i) <= s.len(),
        i <= name_end(s, i) <= s.len(),
        i <= skip_eq_space(s, i) <= s.len(),
        i <= quote_end(s, i, q) <= s.len(),
        skip_ascii_ws_from(s, i) < s.len() ==> !is_ascii_ws(s[skip_ascii_ws_from(s, i)]),
        name_end(s, i) < s.len() ==> ends_name(s[name_end(s, i)]),
    decreases s.len() - i,
{
    if i < s.len() {
        lemma_scans(s, i + 1, q);
    }
}

/// One step of the attribute scanner at `i`: `None` when the tag ends there;
/// else the lower-cased attribute name, its quoted value if it has one, and
/// where scanning continues.
pub open spec fn attribute_step(s: Seq<char>, i: int) -> Option<(Seq<char>, Option<Seq<char>>, int)> {
    let j = skip_ascii_ws_from(s, i);
    if j >= s.len() || s[j] == '>' || s[j] == '/' {
        None
    } else {
        let ne = name_end(s, j);
        let name = ascii_lower_seq(s.subrange(j, ne));
        let k = skip_eq_space(s, ne);
        if k < s.len() && (s[k] == '"' || s[k] == '\'') {
            let e = quote_end(s, k + 1, s[k]);
            Some((name, Some(s.subrange(k + 1, e)), if e < s.len() { e + 1 } else { e }))
        } else {
            Some((name, None, k))
        }
    }
}

pub proof fn lemma_attribute_step(s: Seq<char>, i: int)
    requires
        0 <= i <= s.len(),
    ensures
        attribute_step(s, i) matches Some((n, v, next)) ==> i < next <= s.len(),
{
    lemma_scans(s, i, ' ');
    let j = skip_ascii_ws_from(s, i);
    if j < s.len() && s[j] != '>' && s[j] != '/' {
        lemma_scans(s, j, ' ');
        let ne = name_end(s, j);
        lemma_scans(s, ne, ' ');
        let k = skip_eq_space(s, ne);
        if ne == j {
            assert(s[j] == '=');
            assert(skip_eq_space(s, ne) == skip_eq_space(s, ne + 1));
            lemma_scans(s, ne + 1, ' ');
        }
        if k < s.len() && (s[k] == '"' || s[k] == '\'') {
            lemma_scans(s, k + 1, s[k]);
        }
    }
}

fn attribute_step_exec(s: &Vec<char>, i: usize) -> (r: Option<(usize, usize, Option<(usize, usize)>, usize)>)
    requires
        i <= s.len(),
    ensures
        match r {
            None => attribute_step(s@, i as int) is None,
            Some((na, nb, v, next)) => na <= nb <= s.len() && attribute_step(s@, i as int) == Some(
                (
                    ascii_lower_seq(s@.subrange(na as int, nb as int)),
                    match v {
                        Some((va, vb)) => Some(s@.subrange(va as int, vb as int)),
                        None => None,
                    },
                    next as int,
                ),
            ) && (v matches Some((va, vb)) ==> va <= vb <= s.len()),
        },
{
    let mut j = i;
    while j < s.len() && is_ascii_whitespace(s[j])
        invariant
            i <= j <= s.len(),
            skip_ascii_ws_from(s@, i as int) == skip_ascii_ws_from(s@, j as int),
        decreases s.len() - j,
    {
        j += 1;
    }
    if j >= s.len() || s[j] == '>' || s[j] == '/' {
        return None;
    }
    let mut ne = j;
    while ne < s.len() && !(s[ne] == '=' || s[ne] == ' ' || s[ne] == '>' || s[ne] == '/')
        invariant
            j <= ne <= s.len(),
            name_end(s@, j as int) == name_end(s@, ne as int),
        decreases s.len() - ne,
    {
        ne += 1;
    }
    let mut k = ne;
    while k < s.len() && (s[k] == ' ' || s[k] == '=')
        invariant
            ne <= k <= s.len(),
            skip_eq_space(s@, ne as int) == skip_eq_space(s@, k as int),
        decreases s.len() - k,
    {
        k += 1;
    }
    if k < s.len() && (s[k] == '"' || s[k] == '\'') {
        let q = s[k];
        let mut e = k + 1;
        while e < s.len() && s[e] != q
            invariant
                k < e <= s.len(),
                quote_end(s@, k + 1, q) == quote_end(s@, e as int, q),
            decreases s.len() - e,
        {
            e += 1;
        }
        let next = if e < s.len() {
            e + 1
        } else {
            e
        };
        Some((j, ne, Some((k + 1, e)), next))
    } else {
        Some((j, ne, None, k))
    }
}

/// The `src` and `alt` values of an `<img>` tag, scanning attributes left to
/// right from `i`; a later occurrence overrides an earlier one.
pub open spec fn img_attributes_from(s: Seq<char>, i: int, src: Seq<char>, alt: Seq<char>) -> (
    Seq<char>,
    Seq<char>,
)
    decreases s.len() - i,
{
    if i < 0 || i >= s.len() {
        (src, alt)
    } else {
        let j = skip_ascii_ws_from(s, i);
        proof {
            lemma_scans(s, i, ' ');
            lemma_scans(s, j, ' ');
        }
        if j < s.len() && s[j] != '>' && s[j] != '/' && name_end(s, j) == j {
            img_attributes_from(s, j + 1, src, alt)
        } else {
            proof {
                lemma_attribute_step(s, i);
            }
            match attribute_step(s, i) {
                None => (src, alt),
                Some((name, value, next)) => match value {
                    Some(v) => if name == "src"@ {
                        img_attributes_from(s, next, v, alt)
                    } else if name == "alt"@ {
                        img_attributes_from(s, next, src, v)
                    } else {
                        img_attributes_from(s, next, src, alt)
                    },
                    None => img_attributes_from(s, next, src, alt),
                },
            }
        }
    }
}

/// `src` and `alt` of an `<img>` tag, given the text after the tag name.
pub fn parse_img_attributes(tail: &str) -> (r: (String, String))
    ensures
        (r.0@, r.1@) == img_attributes_from(tail@, 0, seq![], seq![]),
{
    let s = chars_of(tail);
    img_attributes_at(&s, 0)
}

/// `src` and `alt` of the `<img>` tag whose attributes start at `start` in `s`.
pub fn img_attributes_at(s: &Vec<char>, start: usize) -> (r: (String, String))
    ensures
        (r.0@, r.1@) == img_attributes_from(s@, start as int, seq![], seq![]),
{
    let mut src = String::new();
    let mut alt = String::new();
    let mut i: usize = start;
    let src_name = chars_of("src");
    let alt_name = chars_of("alt");
    while i < s.len()
        invariant
            src_name@ == "src"@,
            alt_name@ == "alt"@,
            img_attributes_from(s@, i as int, src@, alt@) == img_attributes_from(
                s@,
                start as int,
                seq![],
                seq![],
            ),
        decreases s.len() - i,
    {
        let mut j = i;
        while j < s.len() && is_ascii_whitespace(s[j])
            invariant
                i <= j <= s.len(),
                skip_ascii_ws_from(s@, i as int) == skip_ascii_ws_from(s@, j as int),
            decreases s.len() - j,
        {
            j += 1;
        }
        proof {
            lemma_scans(s@, i as int, ' ');
        }
        if j < s.len() && s[j] != '>' && s[j] != '/' && (s[j] == '=' || s[j] == ' ') {
            proof {
                assert(name_end(s@, j as int) == j);
            }
            i = j + 1;
            continue;
        }
        proof {
            if j < s.len() && s[j as int] != '>' && s[j as int] != '/' {
                lemma_scans(s@, j + 1, ' ');
                assert(name_end(s@, j as int) != j);
            }
            lemma_attribute_step(s@, i as int);
        }
        match attribute_step_exec(s, i) {
            None => {
                return (src, alt);
            },
            Some((na, nb, value, next)) => {
                if let Some((va, vb)) = value {
                    let name = lower_range(s, na, nb);
                    if crate::text::range_eq(&name, 0, name.len(), &src_name) {
                        assert(name@.subrange(0, name@.len() as int) =~= name@);
                        src = string_from_range(s, va, vb);
                    } else if crate::text::range_eq(&name, 0, name.len(), &alt_name) {
                        assert(name@.subrange(0, name@.len() as int) =~= name@);
                        alt = string_from_range(s, va, vb);
                    } else {
                        assert(name@.subrange(0, name@.len() as int) =~= name@);
                    }
                }
                i = next;
            },
        }
    }
    (src, alt)
}

/// ASCII lower-casing of `v[a..b]`.
fn lower_range(v: &Vec<char>, a: usize, b: usize) -> (r: Vec<char>)
    requires
        a <= b <= v.len(),
    ensures
        r@ == ascii_lower_seq(v@.subrange(a as int, b as int)),
{
    let mut r: Vec<char> = Vec::new();
    let mut i = a;
    while i < b
        invariant
            a <= i <= b <= v.len(),
            r@ == ascii_lower_seq(v@.subrange(a as int, i as int)),
        decreases b - i,
    {
        r.push(to_ascii_lower(v[i]));
        i += 1;
        assert(r@ =~= ascii_lower_seq(v@.subrange(a as int, i as int)));
    }
    r
}

/// The words of the first `class` attribute that has a quoted value, scanning from `i`.
pub open spec fn class_attribute_from(s: Seq<char>, i: int) -> Seq<Seq<char>>
    decreases s.len() - i,
{
    if i < 0 || i >= s.len() {
        seq![]
    } else {
        proof {
            lemma_attribute_step(s, i);
        }
        match attribute_step(s, i) {
            None => seq![],
            Some((name, value, next)) => match value {
                Some(v) => if name == "class"@ {
                    words(v)
                } else {
                    class_attribute_from(s, next)
                },
                None => class_attribute_from(s, next),
            },
        }
    }
}

/// The class names of a tag, given the text after the tag name.
pub fn parse_class_attr(tail: &str) -> (r: Vec<String>)
    ensures
        crate::text::views_of(r@) == class_attribute_from(tail@, 0),
{
    let s = chars_of(tail);
    class_attr_at(&s, 0)
}

/// The class names of the tag whose attributes start at `start` in `s`.
pub fn class_attr_at(s: &Vec<char>, start: usize) -> (r: Vec<String>)
    ensures
        crate::text::views_of(r@) == class_attribute_from(s@, start as int),
{
    let class_name = chars_of("class");
    let mut i: usize = start;
    while i < s.len()
        invariant
            class_name@ == "class"@,
            class_attribute_from(s@, i as int) == class_attribute_from(s@, start as int),
        decreases s.len() - i,
    {
        proof {
            lemma_attribute_step(s@, i as int);
        }
        match attribute_step_exec(s, i) {
            None => {
                let r: Vec<String> = Vec::new();
                assert(crate::text::views_of(r@) =~= Seq::<Seq<char>>::empty());
                return r;
            },
            Some((na, nb, value, next)) => {
                if let Some((va, vb)) = value {
                    let name = lower_range(s, na, nb);
                    assert(name@.subrange(0, name@.len() as int) =~= name@);
                    if crate::text::range_eq(&name, 0, name.len(), &class_name) {
                        let bounds = word_bounds(s, va, vb);
                        return strings_of(s, &bounds);
                    }
                }
                i = next;
            },
        }
    }
    let r: Vec<String> = Vec::new();
    assert(crate::text::views_of(r@) =~= Seq::<Seq<char>>::empty());
    r
}

/// The strings `s[b.0..b.1]` for each pair of bounds.
pub fn strings_of(s: &Vec<char>, bounds: &Vec<(usize, usize)>) -> (r: Vec<String>)
    requires
        forall|k: int|
            0 <= k < bounds.len() ==> (#[trigger] bounds@[k]).0 <= bounds@[k].1 <= s.len(),
    ensures
        crate::text::views_of(r@) == crate::text::pieces(s@, bounds@),
{
    let mut r: Vec<String> = Vec::new();
    let mut k: usize = 0;
    while k < bounds.len()
        invariant
            k <= bounds.len(),
            forall|m: int|
                0 <= m < bounds.len() ==> (#[trigger] bounds@[m]).0 <= bounds@[m].1 <= s.len(),
            crate::text::views_of(r@) == crate::text::pieces(s@, bounds@.take(k as int)),
        decreases bounds.len() - k,
    {
        let (a, b) = bounds[k];
        let ghost before = r@;
        let piece = string_from_range(s, a, b);
        r.push(piece);
        proof {
            assert(r@ =~= before.push(piece));
            assert(crate::text::views_of(r@) =~= crate::text::views_of(before).push(piece@));
            assert(bounds@.take(k + 1) =~= bounds@.take(k as int).push((a, b)));
            assert(crate::text::pieces(s@, bounds@.take(k + 1)) =~= crate::text::pieces(
                s@,
                bounds@.take(k as int),
            ).push(s@.subrange(a as int, b as int)));
        }
        k += 1;
    }
    assert(bounds@.take(bounds.len() as int) =~= bounds@);
    r
}


// ---------------------------------------------------------------------------
// Attribute values and class injection
// ---------------------------------------------------------------------------

/// The quoted value of attribute `name` in tag text `t`. The name is searched
/// case-insensitively (ASCII), must not follow a letter or digit, and must be
/// followed, after optional white space, by `=`; occurrences that fail this are
/// skipped. Unquoted or unterminated values give nothing.
pub open spec fn attribute_value_from(t: Seq<char>, name: Seq<char>, search: int) -> Option<
    Seq<char>,
>
    decreases t.len() + 1 - search,
{
    let l = ascii_lower_seq(t);
    if search < 0 || name.len() == 0 {
        None
    } else {
        match find_from(l, search, name) {
            None => None,
            Some(start) => {
                proof {
                    lemma_find_from_result(l, search, name);
                }
                let before_ok = start == 0 || !is_ascii_alnum(l[start - 1]);
                let c1 = skip_ascii_ws_from(t, start + name.len());
                if before_ok && c1 < t.len() && t[c1] == '=' {
                    let c2 = skip_ascii_ws_from(t, c1 + 1);
                    if c2 >= t.len() {
                        None
                    } else if t[c2] == '\'' || t[c2] == '"' {
                        match find_char_from(t, c2 + 1, t[c2]) {
                            Some(e) => Some(t.subrange(c2 + 1, e)),
                            None => None,
                        }
                    } else {
                        attribute_value_from(t, name, start + name.len())
                    }
                } else {
                    attribute_value_from(t, name, start + name.len())
                }
            },
        }
    }
}

fn skip_ws_exec(s: &Vec<char>, i: usize) -> (r: usize)
    requires
        i <= s.len(),
    ensures
        r == skip_ascii_ws_from(s@, i as int),
        i <= r <= s.len(),
{
    let mut j = i;
    while j < s.len() && is_ascii_whitespace(s[j])
        invariant
            i <= j <= s.len(),
            skip_ascii_ws_from(s@, i as int) == skip_ascii_ws_from(s@, j as int),
        decreases s.len() - j,
    {
        j += 1;
    }
    j
}

/// The value of attribute `name` (non-empty) in the text of a tag.
pub fn attribute_value(tag: &str, name: &str) -> (r: Option<String>)
    requires
        name@.len() > 0,
    ensures
        r matches Some(v) ==> attribute_value_from(tag@, name@, 0) == Some(v@),
        r is None ==> attribute_value_from(tag@, name@, 0) is None,
{
    let t = chars_of(tag);
    let n = chars_of(name);
    let l = lower_range(&t, 0, t.len());
    assert(t@.subrange(0, t@.len() as int) =~= t@);
    let mut search: usize = 0;
    while search <= l.len()
        invariant
            t@ == tag@,
            n@ == name@,
            n@.len() > 0,
            l@ == ascii_lower_seq(t@),
            l@.len() == t@.len(),
            attribute_value_from(t@, n@, search as int) == attribute_value_from(t@, n@, 0),
        decreases l.len() + 1 - search,
    {
        proof {
            lemma_find_from_result(l@, search as int, n@);
        }
        let start = match find_exec(&l, search, &n) {
            Some(st) => st,
            None => {
                return None;
            },
        };
        let before_ok = start == 0 || {
            let c = l[start - 1];
            !(('a' <= c && c <= 'z') || ('A' <= c && c <= 'Z') || ('0' <= c && c <= '9'))
        };
        let c1 = skip_ws_exec(&t, start + n.len());
        if before_ok && c1 < t.len() && t[c1] == '=' {
            let c2 = skip_ws_exec(&t, c1 + 1);
            if c2 >= t.len() {
                return None;
            }
            let q = t[c2];
            if q == '\'' || q == '"' {
                match find_char_exec(&t, c2 + 1, q) {
                    Some(e) => {
                        proof {
                            lemma_find_char_from_result(t@, c2 + 1, q);
                        }
                        return Some(string_from_range(&t, c2 + 1, e));
                    },
                    None => {
                        return None;
                    },
                }
            }
        }
        search = start + n.len();
    }
    None
}

/// Position of the last occurrence of `pat` in `s` at or below `i`.
pub open spec fn rfind_at_or_below(s: Seq<char>, pat: Seq<char>, i: int) -> Option<int>
    decreases i + 1,
{
    if i < 0 {
        None
    } else if matches_at(s, i, pat) {
        Some(i)
    } else {
        rfind_at_or_below(s, pat, i - 1)
    }
}

/// Position of the last occurrence of `pat` in `s` (as `str::rfind`).
pub open spec fn rfind(s: Seq<char>, pat: Seq<char>) -> Option<int> {
    rfind_at_or_below(s, pat, s.len() - pat.len())
}

fn rfind_exec(s: &Vec<char>, pat: &Vec<char>) -> (r: Option<usize>)
    ensures
        r matches Some(i) ==> rfind(s@, pat@) == Some(i as int) && i + pat.len() <= s.len(),
        r is None ==> rfind(s@, pat@) is None,
{
    if pat.len() > s.len() {
        return None;
    }
    let mut i = s.len() - pat.len();
    loop
        invariant
            i + pat.len() <= s.len(),
            rfind(s@, pat@) == rfind_at_or_below(s@, pat@, i as int),
        decreases i,
    {
        if matches_at_exec(s, i, pat) {
            return Some(i);
        }
        if i == 0 {
            assert(rfind_at_or_below(s@, pat@, -1) is None);
            return None;
        }
        i -= 1;
    }
}

/// Where `inject_class` puts a new attribute: before the last `/>`, else the
/// last `>`, else at the end.
pub open spec fn insertion_point(t: Seq<char>) -> int {
    match rfind(t, "/>"@) {
        Some(i) => i,
        None => match rfind(t, ">"@) {
            Some(i) => i,
            None => t.len() as int,
        },
    }
}

/// `t` with its first occurrence of `pat` replaced by `rep`, if any.
pub open spec fn replace_first(t: Seq<char>, pat: Seq<char>, rep: Seq<char>) -> Option<Seq<char>> {
    match find_from(t, 0, pat) {
        Some(i) => Some(t.take(i) + rep + t.skip(i + pat.len())),
        None => None,
    }
}

/// The tag text with `class` added to its class list.
pub open spec fn with_class(t: Seq<char>, class: Seq<char>) -> Seq<char> {
    let appended = t.take(insertion_point(t)) + " class=\""@ + class + "\""@ + t.skip(
        insertion_point(t),
    );
    match attribute_value_from(t, "class"@, 0) {
        Some(ex) => match replace_first(
            t,
            "class=\""@ + ex + "\""@,
            "class=\""@ + ex + " "@ + class + "\""@,
        ) {
            Some(r) => r,
            None => match replace_first(
                t,
                "class='"@ + ex + "'"@,
                "class='"@ + ex + " "@ + class + "'"@,
            ) {
                Some(r) => r,
                None => appended,
            },
        },
        None => appended,
    }
}

fn concat_vec(a: &Vec<char>, b: &Vec<char>) -> (r: Vec<char>)
    ensures
        r@ == a@ + b@,
{
    let mut r = sub_vec(a, 0, a.len());
    let mut i: usize = 0;
    assert(a@.subrange(0, a@.len() as int) =~= a@);
    while i < b.len()
        invariant
            i <= b.len(),
            r@ == a@ + b@.take(i as int),
        decreases b.len() - i,
    {
        r.push(b[i]);
        i += 1;
        assert(r@ =~= a@ + b@.take(i as int));
    }
    assert(b@.take(b.len() as int) =~= b@);
    r
}

fn replace_first_exec(t: &Vec<char>, pat: &Vec<char>, rep: &Vec<char>) -> (r: Option<String>)
    ensures
        r matches Some(s) ==> replace_first(t@, pat@, rep@) == Some(s@),
        r is None ==> replace_first(t@, pat@, rep@) is None,
{
    match find_exec(t, 0, pat) {
        Some(i) => {
            proof {
                lemma_find_from_result(t@, 0, pat@);
                assert(matches_at(t@, i as int, pat@));
                assert(i + pat@.len() <= t@.len());
                assert(i + pat.len() <= t.len());
            }
            let mut out = string_from_range(t, 0, i);
            push_range(&mut out, rep, 0, rep.len());
            push_range(&mut out, t, i + pat.len(), t.len());
            assert(rep@.subrange(0, rep@.len() as int) =~= rep@);
            assert(out@ =~= t@.take(i as int) + rep@ + t@.skip(i + pat@.len()));
            Some(out)
        },
        None => None,
    }
}

/// Adds `class` to the tag's class list: appended to an existing quoted
/// `class` attribute, or as a new attribute before the tag's end.
pub fn inject_class(tag: &str, class: &str) -> (r: String)
    ensures
        r@ == with_class(tag@, class@),
{
    let t = chars_of(tag);
    let c = chars_of(class);
    proof {
        reveal_strlit("class");
    }
    if let Some(existing) = attribute_value(tag, "class") {
        let ex = chars_of(existing.as_str());
        let open_d = chars_of("class=\"");
        let close_d = chars_of("\"");
        let open_s = chars_of("class='");
        let close_s = chars_of("'");
        let space = chars_of(" ");
        let nd = concat_vec(&concat_vec(&open_d, &ex), &close_d);
        let rd = concat_vec(
            &concat_vec(&concat_vec(&concat_vec(&open_d, &ex), &space), &c),
            &close_d,
        );
        if let Some(r) = replace_first_exec(&t, &nd, &rd) {
            return r;
        }
        let ns = concat_vec(&concat_vec(&open_s, &ex), &close_s);
        let rs = concat_vec(
            &concat_vec(&concat_vec(&concat_vec(&open_s, &ex), &space), &c),
            &close_s,
        );
        if let Some(r) = replace_first_exec(&t, &ns, &rs) {
            return r;
        }
    }
    let slash_gt = chars_of("/>");
    let gt = chars_of(">");
    let ins = match rfind_exec(&t, &slash_gt) {
        Some(i) => i,
        None => match rfind_exec(&t, &gt) {
            Some(i) => i,
            None => t.len(),
        },
    };
    let mut out = string_from_range(&t, 0, ins);
    push_str(&mut out, " class=\"");
    push_range(&mut out, &c, 0, c.len());
    push_str(&mut out, "\"");
    push_range(&mut out, &t, ins, t.len());
    assert(c@.subrange(0, c@.len() as int) =~= c@);
    assert(out@ =~= with_class(tag@, class@));
    out
}

// ---------------------------------------------------------------------------
// CSS carried by the chapter itself
// ---------------------------------------------------------------------------

pub open spec fn inline_class_name(index: nat) -> Seq<char> {
    "__folio_inline_"@ + decimal(index)
}

/// Rewrites `h[offset..]`: each opening tag with a `style` attribute gets the
/// class `__folio_inline_N` (numbered from `index`), and a rule `.__folio_inline_N`
/// with the attribute's declarations is produced for it.
pub open spec fn inline_styles_from(h: Seq<char>, offset: int, index: nat) -> (Seq<char>, Seq<RuleView>)
    decreases h.len() - offset,
{
    if offset < 0 || offset > h.len() {
        (seq![], seq![])
    } else {
        match find_char_from(h, offset, '<') {
            None => (h.skip(offset), seq![]),
            Some(start) => {
                proof {
                    lemma_find_char_from_result(h, offset, '<');
                    lemma_find_char_from_result(h, start, '>');
                }
                match find_char_from(h, start, '>') {
                    None => (h.skip(offset), seq![]),
                    Some(e) => {
                        let tag = h.subrange(start, e + 1);
                        let special = crate::text::starts_with(tag, "</"@)
                            || crate::text::starts_with(tag, "<!--"@)
                            || crate::text::starts_with(tag, "<?"@);
                        if !special && attribute_value_from(tag, "style"@, 0) is Some {
                            let class = inline_class_name(index);
                            let (o, r) = inline_styles_from(h, e + 1, index + 1);
                            (
                                h.subrange(offset, start) + with_class(tag, class) + o,
                                seq![
                                    ("."@ + class, declarations_of(
                                        attribute_value_from(tag, "style"@, 0).unwrap(),
                                    )),
                                ] + r,
                            )
                        } else {
                            let (o, r) = inline_styles_from(h, e + 1, index);
                            (h.subrange(offset, start) + tag + o, r)
                        }
                    },
                }
            },
        }
    }
}

fn starts_with_range(s: &Vec<char>, a: usize, b: usize, pat: &str) -> (r: bool)
    requires
        a <= b <= s.len(),
    ensures
        r == crate::text::starts_with(s@.subrange(a as int, b as int), pat@),
{
    let p = chars_of(pat);
    if p.len() > b - a {
        return false;
    }
    let r = crate::text::range_eq(s, a, a + p.len(), &p);
    assert(s@.subrange(a as int, b as int).take(p@.len() as int) =~= s@.subrange(
        a as int,
        a + p@.len(),
    ));
    r
}

/// Moves `style` attributes into generated classes: the rewritten HTML and one
/// rule per styled tag.
pub fn inject_inline_style_classes(html: &str) -> (r: (String, Vec<CssRule>))
    ensures
        (r.0@, rule_views(r.1@)) == inline_styles_from(html@, 0, 0),
{
    let h = chars_of(html);
    let mut output = String::new();
    let mut rules: Vec<CssRule> = Vec::new();
    let mut offset: usize = 0;
    let mut index: usize = 0;
    proof {
        reveal_strlit("style");
    }
    loop
        invariant
            offset <= h.len(),
            h@ == html@,
            index <= offset,
            "style"@.len() > 0,
            ({
                let (o, r) = inline_styles_from(h@, offset as int, index as nat);
                (output@ + o, rule_views(rules@) + r) == inline_styles_from(h@, 0, 0)
            }),
        decreases h.len() - offset,
    {
        proof {
            lemma_find_char_from_result(h@, offset as int, '<');
        }
        let start = match find_char_exec(&h, offset, '<') {
            Some(st) => st,
            None => {
                push_range(&mut output, &h, offset, h.len());
                proof {
                    assert(h@.subrange(offset as int, h@.len() as int) =~= h@.skip(offset as int));
                    assert(rule_views(rules@) + Seq::<RuleView>::empty() =~= rule_views(rules@));
                }
                return (output, rules);
            },
        };
        proof {
            lemma_find_char_from_result(h@, start as int, '>');
        }
        let e = match find_char_exec(&h, start, '>') {
            Some(e) => e,
            None => {
                push_range(&mut output, &h, offset, h.len());
                proof {
                    assert(h@.subrange(offset as int, h@.len() as int) =~= h@.skip(offset as int));
                    assert(rule_views(rules@) + Seq::<RuleView>::empty() =~= rule_views(rules@));
                }
                return (output, rules);
            },
        };
        let ghost before_o = output@;
        let ghost before_r = rule_views(rules@);
        push_range(&mut output, &h, offset, start);
        let tag = string_from_range(&h, start, e + 1);
        let special = starts_with_range(&h, start, e + 1, "</") || starts_with_range(
            &h,
            start,
            e + 1,
            "<!--",
        ) || starts_with_range(&h, start, e + 1, "<?");
        let style = if special {
            None
        } else {
            attribute_value(tag.as_str(), "style")
        };
        match style {
            Some(st) => {
                let mut class = String::new();
                push_str(&mut class, "__folio_inline_");
                let digits = decimal_string(index);
                push_str(&mut class, digits.as_str());
                let injected = inject_class(tag.as_str(), class.as_str());
                push_str(&mut output, injected.as_str());
                let mut selector = String::new();
                push_char(&mut selector, '.');
                push_str(&mut selector, class.as_str());
                let properties = parse_declarations(st.as_str());
                let rule = CssRule { selector, properties };
                let ghost rv = rule.view_rule();
                rules.push(rule);
                proof {
                    reveal_strlit(".");
                    assert(selector@ =~= "."@ + class@);
                    assert(class@ == inline_class_name(index as nat));
                    assert(rv == ("."@ + inline_class_name(index as nat), declarations_of(st@)));
                    assert(rule_views(rules@) =~= before_r.push(rv));
                    let (o, r) = inline_styles_from(h@, e + 1, (index + 1) as nat);
                    assert(output@ + o =~= before_o + (h@.subrange(offset as int, start as int)
                        + with_class(tag@, inline_class_name(index as nat)) + o));
                    assert(before_r.push(rv) + r =~= before_r + (seq![rv] + r));
                }
                index += 1;
            },
            None => {
                push_str(&mut output, tag.as_str());
                proof {
                    let (o, r) = inline_styles_from(h@, e + 1, index as nat);
                    assert(output@ + o =~= before_o + (h@.subrange(offset as int, start as int)
                        + tag@ + o));
                }
            },
        }
        offset = e + 1;
    }
}

/// Style rules of the `<style>` elements of `h` from `offset` on (element
/// names matched case-insensitively); stops at an unterminated element.
pub open spec fn embedded_css_from(h: Seq<char>, offset: int) -> Seq<RuleView>
    decreases h.len() + 1 - offset,
{
    let l = ascii_lower_seq(h);
    if offset < 0 {
        seq![]
    } else {
        match find_from(l, offset, "<style"@) {
            None => seq![],
            Some(start) => {
                proof {
                    lemma_find_from_result(l, offset, "<style"@);
                    lemma_find_char_from_result(l, start, '>');
                }
                match find_char_from(l, start, '>') {
                    None => seq![],
                    Some(oe) => {
                        proof {
                            lemma_find_from_result(l, oe + 1, "</style>"@);
                            reveal_strlit("</style>");
                        }
                        match find_from(l, oe + 1, "</style>"@) {
                            None => seq![],
                            Some(ce) => stylesheet(h.subrange(oe + 1, ce)).0 + embedded_css_from(
                                h,
                                ce + 8,
                            ),
                        }
                    },
                }
            },
        }
    }
}

/// The style rules written in the chapter's `<style>` elements.
pub fn extract_embedded_css(html: &str) -> (r: Vec<CssRule>)
    ensures
        rule_views(r@) == embedded_css_from(html@, 0),
{
    let h = chars_of(html);
    let l = lower_range(&h, 0, h.len());
    assert(h@.subrange(0, h@.len() as int) =~= h@);
    let open_tag = chars_of("<style");
    let close_tag = chars_of("</style>");
    proof {
        reveal_strlit("</style>");
    }
    let mut rules: Vec<CssRule> = Vec::new();
    let mut offset: usize = 0;
    loop
        invariant
            h@ == html@,
            l@ == ascii_lower_seq(h@),
            l@.len() == h@.len(),
            open_tag@ == "<style"@,
            close_tag@ == "</style>"@,
            close_tag@.len() == 8,
            offset <= h.len() + 8,
            rule_views(rules@) + embedded_css_from(h@, offset as int) == embedded_css_from(h@, 0),
        decreases h.len() + 9 - offset,
    {
        proof {
            lemma_find_from_result(l@, offset as int, open_tag@);
        }
        let start = match find_exec(&l, offset, &open_tag) {
            Some(st) => st,
            None => {
                assert(rule_views(rules@) + Seq::<RuleView>::empty() =~= rule_views(rules@));
                return rules;
            },
        };
        proof {
            lemma_find_char_from_result(l@, start as int, '>');
        }
        let oe = match find_char_exec(&l, start, '>') {
            Some(oe) => oe,
            None => {
                assert(rule_views(rules@) + Seq::<RuleView>::empty() =~= rule_views(rules@));
                return rules;
            },
        };
        proof {
            lemma_find_from_result(l@, oe + 1, close_tag@);
        }
        let ce = match find_exec(&l, oe + 1, &close_tag) {
            Some(ce) => ce,
            None => {
                assert(rule_views(rules@) + Seq::<RuleView>::empty() =~= rule_views(rules@));
                return rules;
            },
        };
        let css_text = string_from_range(&h, oe + 1, ce);
        let (found, _faces) = parse_css(css_text.as_str());
        let ghost before = rule_views(rules@);
        let mut found = found;
        let ghost fv = rule_views(found@);
        rules.append(&mut found);
        proof {
            assert(rule_views(rules@) =~= before + fv);
            assert(rule_views(rules@) + embedded_css_from(h@, ce + 8) =~= before + (fv
                + embedded_css_from(h@, ce + 8)));
        }
        offset = ce + 8;
    }
}
} // verus!
