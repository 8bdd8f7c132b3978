//! Character references in (X)HTML text: numeric and named entity decoding,
//! white-space collapsing, and the entity normalisation done before XML parsing.
use vstd::prelude::*;

use crate::numbers::{parse_unsigned, parse_unsigned_range};
use crate::text::{
    starts_with,
    char_from_u32, char_is_alphanumeric, chars_of, find_char_exec, find_char_from, find_exec,
    find_from, is_white_space, is_whitespace, join, join_pieces, lemma_find_char_from_result,
    matches_at, matches_at_exec, push_char, push_range, push_str, range_eq, replace_all,
    string_from, string_from_range, unicode_alphanumeric, word_bounds, words,
};

verus! {

// ---------------------------------------------------------------------------
// Numeric character references
// ---------------------------------------------------------------------------

/// Code point written inside `&#...;`: hexadecimal after `x`/`X`, else decimal.
pub open spec fn reference_value(value: Seq<char>) -> Option<int> {
    let hex = if value.len() > 0 && (value[0] == 'x' || value[0] == 'X') {
        parse_unsigned(value.skip(1), 16, u32::MAX as int)
    } else {
        None
    };
    match hex {
        Some(v) => Some(v),
        None => parse_unsigned(value, 10, u32::MAX as int),
    }
}

pub open spec fn is_scalar_value(v: int) -> bool {
    0 <= v <= 0x10FFFF && !(0xD800 <= v <= 0xDFFF)
}

/// The numeric reference starting at `i`, if any: the character it decodes to
/// (a no-break space decodes to a plain space) and the number of characters it spans.
pub open spec fn numeric_reference_at(s: Seq<char>, i: int) -> Option<(char, int)> {
    if matches_at(s, i, seq!['&', '#']) {
        match find_char_from(s, i + 2, ';') {
            Some(e) => match reference_value(s.subrange(i + 2, e)) {
                Some(v) => if is_scalar_value(v) {
                    let c = v as char;
                    Some((if c == '\u{a0}' { ' ' } else { c }, e + 1 - i))
                } else {
                    None
                },
                None => None,
            },
            None => None,
        }
    } else {
        None
    }
}

/// `s[i..]` with every numeric character reference decoded.
pub open spec fn decode_numeric_from(s: Seq<char>, i: int) -> Seq<char>
    decreases s.len() - i,
{
    if i < 0 || i >= s.len() {
        seq![]
    } else {
        match numeric_reference_at(s, i) {
            Some((c, n)) => if n >= 1 {
                proof {
                    lemma_numeric_reference_len(s, i);
                }
                seq![c] + decode_numeric_from(s, i + n)
            } else {
                seq![]
            },
            None => seq![s[i]] + decode_numeric_from(s, i + 1),
        }
    }
}

pub open spec fn decode_numeric(s: Seq<char>) -> Seq<char> {
    decode_numeric_from(s, 0)
}

pub proof fn lemma_numeric_reference_len(s: Seq<char>, i: int)
    requires
        0 <= i,
    ensures
        numeric_reference_at(s, i) matches Some((c, n)) ==> 3 <= n && i + n <= s.len(),
{
    if matches_at(s, i, seq!['&', '#']) {
        lemma_find_char_from_result(s, i + 2, ';');
    }
}

/// `&#N;` with `N` in decimal, as a sequence of characters.
pub open spec fn decimal_reference(n: nat) -> Seq<char> {
    seq!['&', '#'] + crate::numbers::decimal_digits(n) + seq![';']
}

/// What a character reference to `n` decodes to: the character `n`, or a
/// plain space for the no-break space.
pub open spec fn referenced_char(n: nat) -> char {
    if n == 0xA0 {
        ' '
    } else {
        n as char
    }
}

/// A decimal reference to a Unicode scalar value decodes to that character.
pub proof fn lemma_decimal_reference_decodes(n: nat)
    requires
        is_scalar_value(n as int),
    ensures
        decode_numeric(decimal_reference(n)) == seq![referenced_char(n)],
{
    let d = crate::numbers::decimal_digits(n);
    crate::numbers::lemma_decimal_digits_value(n);
    let s = decimal_reference(n);
    let e: int = 2 + d.len() as int;
    assert(s.subrange(0, 2) =~= seq!['&', '#']);
    assert(matches_at(s, 0, seq!['&', '#']));
    assert forall|k: int| 2 <= k < e implies s[k] != ';' by {
        assert(s[k] == d[k - 2]);
        assert(crate::numbers::digit_value(d[k - 2], 10) is Some);
    }
    assert(s[e] == ';');
    lemma_find_char_from_result(s, 2, ';');
    let f = find_char_from(s, 2, ';');
    assert(f == Some(e)) by {
        if f is None {
            assert(s[e] != ';');
        } else {
            let k = f->0;
            if k > e {
                assert(s[e] != ';');
            }
        }
    }
    assert(s.subrange(2, e) =~= d);
    assert(crate::numbers::digit_value(d[0], 10) is Some);
    assert(d[0] != 'x' && d[0] != 'X' && d[0] != '+');
    assert(crate::numbers::unsigned_body(d) == d);
    assert(reference_value(d) == Some(n as int));
    assert(numeric_reference_at(s, 0) == Some((referenced_char(n), e + 1)));
    assert(s.len() == e + 1);
    assert(decode_numeric_from(s, e + 1) == Seq::<char>::empty());
    assert(decode_numeric(s) =~= seq![referenced_char(n)]);
}

/// Decodes `&#NNN;` and `&#xHH;` references; a reference to U+00A0 becomes a space.
pub fn decode_numeric_entities(text: &str) -> (r: String)
    ensures
        r@ == decode_numeric(text@),
{
    let s = chars_of(text);
    let mut out = String::new();
    let mut i: usize = 0;
    let amp_hash: Vec<char> = vec!['&', '#'];
    assert(amp_hash@ =~= seq!['&', '#']);
    while i < s.len()
        invariant
            i <= s.len(),
            amp_hash@ == seq!['&', '#'],
            out@ + decode_numeric_from(s@, i as int) == decode_numeric(s@),
        decreases s.len() - i,
    {
        proof {
            lemma_numeric_reference_len(s@, i as int);
        }
        if matches_at_exec(&s, i, &amp_hash) {
            if let Some(e) = find_char_exec(&s, i + 2, ';') {
                proof {
                    lemma_find_char_from_result(s@, i + 2, ';');
                }
                let mut code: Option<u64> = None;
                if e > i + 2 && (s[i + 2] == 'x' || s[i + 2] == 'X') {
                    code = parse_unsigned_range(&s, i + 3, e, 16, 0xFFFF_FFFF);
                    proof {
                        assert(s@.subrange(i + 2, e as int).skip(1) =~= s@.subrange(
                            i + 3,
                            e as int,
                        ));
                    }
                }
                if code.is_none() {
                    code = parse_unsigned_range(&s, i + 2, e, 10, 0xFFFF_FFFF);
                }
                if let Some(v) = code {
                    let ch = char_from_u32(v as u32);
                    if let Some(c) = ch {
                        if c == '\u{a0}' {
                            push_char(&mut out, ' ');
                        } else {
                            push_char(&mut out, c);
                        }
                        proof {
                            assert(numeric_reference_at(s@, i as int) == Some(
                                (if c == '\u{a0}' { ' ' } else { c }, e + 1 - i),
                            ));
                        }
                        i = e + 1;
                        continue;
                    }
                }
            }
        }
        push_char(&mut out, s[i]);
        i += 1;
    }
    out
}

// ---------------------------------------------------------------------------
// Replacement of substrings
// ---------------------------------------------------------------------------

pub proof fn lemma_replace_all_step(s: Seq<char>, i: int, pat: Seq<char>, rep: Seq<char>)
    requires
        pat.len() > 0,
        0 <= i < s.len(),
    ensures
        matches_at(s, i, pat) ==> replace_all(s.skip(i), pat, rep) == rep + replace_all(
            s.skip(i + pat.len()),
            pat,
            rep,
        ),
        !matches_at(s, i, pat) ==> replace_all(s.skip(i), pat, rep) == seq![s[i]] + replace_all(
            s.skip(i + 1),
            pat,
            rep,
        ),
{
    let t = s.skip(i);
    assert(t.skip(1) =~= s.skip(i + 1));
    if i + pat.len() <= s.len() {
        assert(t.skip(pat.len() as int) =~= s.skip(i + pat.len()));
        assert(t.subrange(0, pat.len() as int) =~= s.subrange(i, i + pat.len()));
    }
}

/// `s` with each occurrence of `pat` replaced by `rep`, scanning left to right.
pub(crate) fn replace_all_exec(s: &Vec<char>, pat: &Vec<char>, rep: &Vec<char>) -> (r: Vec<char>)
    requires
        pat.len() > 0,
    ensures
        r@ == replace_all(s@, pat@, rep@),
{
    let mut out: Vec<char> = Vec::new();
    let mut i: usize = 0;
    assert(s@.skip(0) =~= s@);
    while i < s.len()
        invariant
            i <= s.len(),
            pat.len() > 0,
            out@ + replace_all(s@.skip(i as int), pat@, rep@) == replace_all(s@, pat@, rep@),
        decreases s.len() - i,
    {
        proof {
            lemma_replace_all_step(s@, i as int, pat@, rep@);
        }
        if matches_at_exec(s, i, pat) {
            let mut k: usize = 0;
            let ghost before = out@;
            while k < rep.len()
                invariant
                    k <= rep.len(),
                    out@ == before + rep@.take(k as int),
                decreases rep.len() - k,
            {
                out.push(rep[k]);
                k += 1;
                assert(out@ =~= before + rep@.take(k as int));
            }
            assert(rep@.take(rep.len() as int) =~= rep@);
            assert(out@ + replace_all(s@.skip(i + pat.len()), pat@, rep@) =~= before + (rep@
                + replace_all(s@.skip(i + pat.len()), pat@, rep@)));
            i += pat.len();
        } else {
            let ghost before = out@;
            out.push(s[i]);
            assert(out@ + replace_all(s@.skip(i + 1), pat@, rep@) =~= before + (seq![s@[i as int]]
                + replace_all(s@.skip(i + 1), pat@, rep@)));
            i += 1;
        }
    }
    assert(s@.skip(s.len() as int) =~= Seq::<char>::empty());
    assert(out@ + Seq::<char>::empty() =~= out@);
    out
}

/// The named references that `decode_entities` rewrites, in the order it rewrites them.
pub open spec fn named_references() -> Seq<(Seq<char>, Seq<char>)> {
    seq![
        ("&amp;"@, "&"@),
        ("&lt;"@, "<"@),
        ("&gt;"@, ">"@),
        ("&quot;"@, "\""@),
        ("&apos;"@, "'"@),
        ("&nbsp;"@, " "@),
        ("&iexcl;"@, "\u{00a1}"@),
        ("&iquest;"@, "\u{00bf}"@),
        ("&aacute;"@, "\u{00e1}"@),
        ("&eacute;"@, "\u{00e9}"@),
        ("&iacute;"@, "\u{00ed}"@),
        ("&oacute;"@, "\u{00f3}"@),
        ("&uacute;"@, "\u{00fa}"@),
        ("&ntilde;"@, "\u{00f1}"@),
        ("&Aacute;"@, "\u{00c1}"@),
        ("&Eacute;"@, "\u{00c9}"@),
        ("&Iacute;"@, "\u{00cd}"@),
        ("&Oacute;"@, "\u{00d3}"@),
        ("&Uacute;"@, "\u{00da}"@),
        ("&Ntilde;"@, "\u{00d1}"@),
        ("&uuml;"@, "\u{00fc}"@),
        ("&Uuml;"@, "\u{00dc}"@),
        ("&ordm;"@, "\u{00ba}"@),
        ("&ordf;"@, "\u{00aa}"@),
        ("&ldquo;"@, "\u{201c}"@),
        ("&rdquo;"@, "\u{201d}"@),
        ("&lsquo;"@, "\u{2018}"@),
        ("&rsquo;"@, "\u{2019}"@),
        ("&laquo;"@, "\u{00ab}"@),
        ("&raquo;"@, "\u{00bb}"@),
        ("&mdash;"@, "\u{2014}"@),
        ("&ndash;"@, "\u{2013}"@),
        ("&hellip;"@, "\u{2026}"@),
        ("&bull;"@, "\u{2022}"@),
        ("&copy;"@, "\u{00a9}"@),
        ("&reg;"@, "\u{00ae}"@),
        ("&trade;"@, "\u{2122}"@),
        ("&euro;"@, "\u{20ac}"@),
    ]
}

/// Applies each `(pattern, replacement)` of `table`, in order, to the whole text.
pub open spec fn replace_each(s: Seq<char>, table: Seq<(Seq<char>, Seq<char>)>) -> Seq<char>
    decreases table.len(),
{
    if table.len() == 0 {
        s
    } else {
        replace_all(replace_each(s, table.drop_last()), table.last().0, table.last().1)
    }
}

/// The exec table that mirrors `named_references`.
fn named_reference_table() -> (t: Vec<(&'static str, &'static str)>)
    ensures
        t@.map_values(|p: (&str, &str)| (p.0@, p.1@)) == named_references(),
{
    let t = vec![
        ("&amp;", "&"),
        ("&lt;", "<"),
        ("&gt;", ">"),
        ("&quot;", "\""),
        ("&apos;", "'"),
        ("&nbsp;", " "),
        ("&iexcl;", "\u{00a1}"),
        ("&iquest;", "\u{00bf}"),
        ("&aacute;", "\u{00e1}"),
        ("&eacute;", "\u{00e9}"),
        ("&iacute;", "\u{00ed}"),
        ("&oacute;", "\u{00f3}"),
        ("&uacute;", "\u{00fa}"),
        ("&ntilde;", "\u{00f1}"),
        ("&Aacute;", "\u{00c1}"),
        ("&Eacute;", "\u{00c9}"),
        ("&Iacute;", "\u{00cd}"),
        ("&Oacute;", "\u{00d3}"),
        ("&Uacute;", "\u{00da}"),
        ("&Ntilde;", "\u{00d1}"),
        ("&uuml;", "\u{00fc}"),
        ("&Uuml;", "\u{00dc}"),
        ("&ordm;", "\u{00ba}"),
        ("&ordf;", "\u{00aa}"),
        ("&ldquo;", "\u{201c}"),
        ("&rdquo;", "\u{201d}"),
        ("&lsquo;", "\u{2018}"),
        ("&rsquo;", "\u{2019}"),
        ("&laquo;", "\u{00ab}"),
        ("&raquo;", "\u{00bb}"),
        ("&mdash;", "\u{2014}"),
        ("&ndash;", "\u{2013}"),
        ("&hellip;", "\u{2026}"),
        ("&bull;", "\u{2022}"),
        ("&copy;", "\u{00a9}"),
        ("&reg;", "\u{00ae}"),
        ("&trade;", "\u{2122}"),
        ("&euro;", "\u{20ac}"),
    ];
    assert(t@.map_values(|p: (&str, &str)| (p.0@, p.1@)) =~= named_references());
    t
}

/// Decodes numeric references, then the named references of `named_references`,
/// each replaced throughout the text in table order.
pub fn decode_entities(text: &str) -> (r: String)
    ensures
        r@ == replace_each(decode_numeric(text@), named_references()),
{
    let decoded = decode_numeric_entities(text);
    let table = named_reference_table();
    let mut cur = chars_of(decoded.as_str());
    let mut k: usize = 0;
    while k < table.len()
        invariant
            k <= table.len(),
            table@.map_values(|p: (&str, &str)| (p.0@, p.1@)) == named_references(),
            cur@ == replace_each(decode_numeric(text@), named_references().take(k as int)),
        decreases table.len() - k,
    {
        let (pat, rep) = table[k];
        let p = chars_of(pat);
        let q = chars_of(rep);
        proof {
            let t = named_references();
            assert(t.take(k + 1).drop_last() =~= t.take(k as int));
            assert(t[k as int] == (pat@, rep@));
        }
        if p.len() > 0 {
            cur = replace_all_exec(&cur, &p, &q);
        }
        k += 1;
    }
    assert(named_references().take(table.len() as int) =~= named_references());
    string_from(&cur)
}


// ---------------------------------------------------------------------------
// White space
// ---------------------------------------------------------------------------

/// HTML white-space collapsing of a text run: each run of white space becomes a
/// single space, and a leading or trailing run is kept as one space.
pub open spec fn collapse_ws(s: Seq<char>) -> Seq<char> {
    let ws = words(s);
    let starts = s.len() > 0 && is_white_space(s[0]);
    let ends = s.len() > 0 && is_white_space(s.last());
    if ws.len() == 0 {
        if starts {
            seq![' ']
        } else {
            seq![]
        }
    } else {
        (if starts {
            seq![' ']
        } else {
            seq![]
        }) + join(ws, seq![' ']) + (if ends {
            seq![' ']
        } else {
            seq![]
        })
    }
}

/// Collapses white space the way HTML renders a text run.
pub fn collapse_html_whitespace(text: &str) -> (r: String)
    ensures
        r@ == collapse_ws(text@),
{
    let v = chars_of(text);
    let starts = v.len() > 0 && is_whitespace(v[0]);
    let ends = v.len() > 0 && is_whitespace(v[v.len() - 1]);
    let bounds = word_bounds(&v, 0, v.len());
    assert(v@.subrange(0, v@.len() as int) =~= v@);
    let mut out = String::new();
    if bounds.len() == 0 {
        if starts {
            push_char(&mut out, ' ');
        }
        assert(out@ =~= collapse_ws(text@));
        return out;
    }
    if starts {
        push_char(&mut out, ' ');
    }
    let space: Vec<char> = vec![' '];
    assert(space@ =~= seq![' ']);
    let joined = join_pieces(&v, &bounds, &space);
    push_str(&mut out, joined.as_str());
    if ends {
        push_char(&mut out, ' ');
    }
    assert(out@ =~= collapse_ws(text@));
    out
}

/// Text as white-space collapsing leaves it: every white-space character is
/// a plain space, and no two spaces stand side by side.
pub open spec fn collapsed(t: Seq<char>) -> bool {
    &&& forall|i: int| 0 <= i < t.len() ==> #[trigger] t[i] == ' ' || !is_white_space(t[i])
    &&& forall|i: int, j: int|
        0 <= i && j == i + 1 && j < t.len() ==> !(#[trigger] t[i] == ' ' && #[trigger] t[j] == ' ')
}

pub open spec fn free_of_white_space(t: Seq<char>) -> bool {
    forall|i: int| 0 <= i < t.len() ==> !is_white_space(#[trigger] t[i])
}

pub proof fn lemma_collapsed_concat(a: Seq<char>, b: Seq<char>)
    requires
        collapsed(a),
        collapsed(b),
        a.len() > 0 && b.len() > 0 ==> !(a.last() == ' ' && b[0] == ' '),
    ensures
        collapsed(a + b),
{
    let c = a + b;
    assert forall|i: int| 0 <= i < c.len() implies #[trigger] c[i] == ' ' || !is_white_space(c[i]) by {
        if i < a.len() {
            assert(c[i] == a[i]);
        } else {
            assert(c[i] == b[i - a.len()]);
        }
    }
    assert forall|i: int, j: int| 0 <= i && j == i + 1 && j < c.len() implies !(#[trigger] c[i] == ' '
        && #[trigger] c[j] == ' ') by {
        if j < a.len() {
            assert(c[i] == a[i] && c[j] == a[j]);
        } else if i >= a.len() {
            assert(c[i] == b[i - a.len()] && c[j] == b[j - a.len()]);
        } else {
            assert(c[i] == a.last() && c[j] == b[0]);
        }
    }
}

pub proof fn lemma_collapsed_subrange(t: Seq<char>, a: int, b: int)
    requires
        collapsed(t),
        0 <= a <= b <= t.len(),
    ensures
        collapsed(t.subrange(a, b)),
{
    let s = t.subrange(a, b);
    assert forall|i: int| 0 <= i < s.len() implies #[trigger] s[i] == ' ' || !is_white_space(s[i]) by {
        assert(s[i] == t[a + i]);
    }
    assert forall|i: int, j: int| 0 <= i && j == i + 1 && j < s.len() implies !(#[trigger] s[i] == ' '
        && #[trigger] s[j] == ' ') by {
        assert(s[i] == t[a + i] && s[j] == t[a + j]);
    }
}

proof fn lemma_free_is_collapsed(t: Seq<char>)
    requires
        free_of_white_space(t),
    ensures
        collapsed(t),
{
    assert forall|i: int, j: int| 0 <= i && j == i + 1 && j < t.len() implies !(#[trigger] t[i] == ' '
        && #[trigger] t[j] == ' ') by {
        assert(!is_white_space(t[i]));
    }
}

proof fn lemma_words_clean(s: Seq<char>)
    ensures
        forall|i: int| 0 <= i < words(s).len() ==> (#[trigger] words(s)[i]).len() > 0
            && free_of_white_space(words(s)[i]),
    decreases s.len(),
{
    if s.len() > 0 {
        if is_white_space(s[0]) {
            lemma_words_clean(s.skip(1));
            assert(words(s) == words(s.skip(1)));
        } else {
            let w = crate::text::word_len(s);
            crate::text::lemma_word_len(s);
            lemma_words_clean(s.skip(w as int));
            let ws = words(s);
            assert(ws == seq![s.take(w as int)] + words(s.skip(w as int)));
            assert forall|i: int| 0 <= i < ws.len() implies (#[trigger] ws[i]).len() > 0
                && free_of_white_space(ws[i]) by {
                if i == 0 {
                    let h = s.take(w as int);
                    assert(ws[0] == h);
                    assert forall|k: int| 0 <= k < h.len() implies !is_white_space(#[trigger] h[k]) by {
                        assert(h[k] == s[k]);
                    }
                } else {
                    assert(ws[i] == words(s.skip(w as int))[i - 1]);
                }
            }
        }
    }
}

proof fn lemma_join_collapsed(parts: Seq<Seq<char>>)
    requires
        forall|i: int| 0 <= i < parts.len() ==> (#[trigger] parts[i]).len() > 0
            && free_of_white_space(parts[i]),
    ensures
        parts.len() > 0 ==> {
            let j = join(parts, seq![' ']);
            &&& collapsed(j)
            &&& j.len() > 0
            &&& !is_white_space(j[0])
            &&& !is_white_space(j.last())
        },
    decreases parts.len(),
{
    if parts.len() == 1 {
        assert(parts[0].len() > 0 && free_of_white_space(parts[0]));
        lemma_free_is_collapsed(parts[0]);
    } else if parts.len() > 1 {
        let dl = parts.drop_last();
        assert forall|i: int| 0 <= i < dl.len() implies (#[trigger] dl[i]).len() > 0
            && free_of_white_space(dl[i]) by {
            assert(dl[i] == parts[i]);
        }
        lemma_join_collapsed(dl);
        let a = join(dl, seq![' ']);
        let l = parts.last();
        assert(l == parts[parts.len() - 1]);
        assert(l.len() > 0 && free_of_white_space(l));
        lemma_free_is_collapsed(l);
        let sp = seq![' '];
        assert(collapsed(sp)) by {
            assert forall|i: int| 0 <= i < sp.len() implies #[trigger] sp[i] == ' ' || !is_white_space(sp[i]) by {}
        }
        assert(!is_white_space(l[0]));
        lemma_collapsed_concat(a, sp);
        lemma_collapsed_concat(a + sp, l);
        let j = a + sp + l;
        assert(join(parts, sp) == j);
        assert(j[0] == a[0]);
        assert(j.last() == l.last());
    }
}

/// What `collapse_ws` gives is collapsed text.
pub proof fn lemma_collapse_ws_collapsed(s: Seq<char>)
    ensures
        collapsed(collapse_ws(s)),
{
    let ws = words(s);
    lemma_words_clean(s);
    let sp: Seq<char> = seq![' '];
    let e: Seq<char> = seq![];
    assert(collapsed(sp)) by {
        assert forall|i: int| 0 <= i < sp.len() implies #[trigger] sp[i] == ' ' || !is_white_space(sp[i]) by {}
    }
    assert(collapsed(e));
    if ws.len() > 0 {
        lemma_join_collapsed(ws);
        let j = join(ws, sp);
        let starts = s.len() > 0 && is_white_space(s[0]);
        let ends = s.len() > 0 && is_white_space(s.last());
        let pre = if starts { sp } else { e };
        let post = if ends { sp } else { e };
        lemma_collapsed_concat(pre, j);
        lemma_collapsed_concat(pre + j, post);
        assert((pre + j).last() == j.last());
    }
}

/// Length of the leading run of characters whose white-space-ness is `ws`.
pub open spec fn run_len(s: Seq<char>, ws: bool) -> nat
    decreases s.len(),
{
    if s.len() > 0 && is_white_space(s[0]) == ws {
        1 + run_len(s.skip(1), ws)
    } else {
        0
    }
}

pub proof fn lemma_run_len(s: Seq<char>, ws: bool)
    ensures
        run_len(s, ws) <= s.len(),
        s.len() > 0 && is_white_space(s[0]) == ws ==> run_len(s, ws) >= 1,
        forall|i: int| 0 <= i < run_len(s, ws) ==> is_white_space(#[trigger] s[i]) == ws,
        run_len(s, ws) < s.len() ==> is_white_space(s[run_len(s, ws) as int]) != ws,
    decreases s.len(),
{
    if s.len() > 0 && is_white_space(s[0]) == ws {
        lemma_run_len(s.skip(1), ws);
        assert forall|i: int| 0 <= i < run_len(s, ws) implies is_white_space(#[trigger] s[i])
            == ws by {
            if i > 0 {
                assert(s[i] == s.skip(1)[i - 1]);
            }
        }
    }
}

/// Alternating runs of white space and of other characters, in order.
pub open spec fn runs(s: Seq<char>) -> Seq<Seq<char>>
    decreases s.len(),
{
    if s.len() == 0 {
        seq![]
    } else {
        let r = run_len(s, is_white_space(s[0]));
        proof {
            lemma_run_len(s, is_white_space(s[0]));
        }
        seq![s.take(r as int)] + runs(s.skip(r as int))
    }
}

/// Splits text into words and the white-space runs between them, keeping both.
pub fn split_preserving_spaces(text: &str) -> (r: Vec<String>)
    ensures
        r@.map_values(|t: String| t@) == runs(text@),
{
    let v = chars_of(text);
    let mut out: Vec<String> = Vec::new();
    let mut i: usize = 0;
    assert(v@.skip(0) =~= v@);
    while i < v.len()
        invariant
            i <= v.len(),
            out@.map_values(|t: String| t@) + runs(v@.skip(i as int)) == runs(v@),
        decreases v.len() - i,
    {
        let ws = is_whitespace(v[i]);
        let mut j = i + 1;
        while j < v.len() && is_whitespace(v[j]) == ws
            invariant
                i < j <= v.len(),
                is_white_space(v@[i as int]) == ws,
                forall|k: int| i <= k < j ==> is_white_space(#[trigger] v@[k]) == ws,
            decreases v.len() - j,
        {
            j += 1;
        }
        let ghost u = v@.skip(i as int);
        proof {
            lemma_run_len(u, ws);
            let w = run_len(u, ws);
            assert(u[0] == v@[i as int]);
            if w < j - i {
                assert(u[w as int] == v@[i + w]);
            }
            if w > j - i {
                assert(u[j - i] == v@[j as int]);
            }
            assert(w == j - i);
            assert(u.take(w as int) =~= v@.subrange(i as int, j as int));
            assert(u.skip(w as int) =~= v@.skip(j as int));
        }
        let piece = string_from_range(&v, i, j);
        let ghost before = out@.map_values(|t: String| t@);
        out.push(piece);
        assert(out@.map_values(|t: String| t@) =~= before.push(v@.subrange(i as int, j as int)));
        assert(before.push(v@.subrange(i as int, j as int)) + runs(v@.skip(j as int)) =~= before
            + (seq![v@.subrange(i as int, j as int)] + runs(v@.skip(j as int))));
        i = j;
    }
    assert(v@.skip(v.len() as int) =~= Seq::<char>::empty());
    assert(out@.map_values(|t: String| t@) + Seq::<Seq<char>>::empty() =~= out@.map_values(
        |t: String| t@,
    ));
    out
}

/// A run as `split_preserving_spaces` hands it out: not empty, and all white
/// space or free of white space.
pub open spec fn uniform_run(t: Seq<char>) -> bool {
    &&& t.len() > 0
    &&& forall|k: int| 0 <= k < t.len() ==> is_white_space(#[trigger] t[k]) == is_white_space(t[0])
}

/// The runs of a text put back together give the text; every run is a whole
/// word or a whole stretch of white space, and words and spaces take turns.
pub proof fn law_runs_rebuild_the_text(s: Seq<char>)
    ensures
        runs(s).flatten() == s,
        forall|i: int| 0 <= i < runs(s).len() ==> uniform_run(#[trigger] runs(s)[i]),
        forall|i: int|
            0 <= i < runs(s).len() - 1 ==> is_white_space(#[trigger] runs(s)[i][0])
                != is_white_space(runs(s)[i + 1][0]),
    decreases s.len(),
{
    if s.len() > 0 {
        let ws = is_white_space(s[0]);
        let r = run_len(s, ws);
        lemma_run_len(s, ws);
        let head = s.take(r as int);
        let tail = s.skip(r as int);
        law_runs_rebuild_the_text(tail);
        let rs = runs(s);
        assert(rs == seq![head] + runs(tail));
        assert(rs.drop_first() =~= runs(tail));
        assert(head + tail =~= s);
        assert(uniform_run(head)) by {
            assert forall|k: int| 0 <= k < head.len() implies is_white_space(#[trigger] head[k])
                == is_white_space(head[0]) by {
                assert(head[k] == s[k]);
            }
        }
        assert forall|i: int| 0 <= i < rs.len() implies uniform_run(#[trigger] rs[i]) by {
            if i > 0 {
                assert(rs[i] == runs(tail)[i - 1]);
            }
        }
        assert forall|i: int| 0 <= i < rs.len() - 1 implies is_white_space(#[trigger] rs[i][0])
            != is_white_space(rs[i + 1][0]) by {
            if i == 0 {
                assert(rs[1] == runs(tail)[0]);
                assert(tail.len() > 0);
                let t0 = runs(tail)[0];
                assert(uniform_run(t0));
                lemma_run_len(tail, is_white_space(tail[0]));
                assert(t0[0] == tail[0]);
                assert(tail[0] == s[r as int]);
            } else {
                assert(rs[i] == runs(tail)[i - 1]);
                assert(rs[i + 1] == runs(tail)[i]);
            }
        }
    } else {
        assert(runs(s).flatten() =~= s);
    }
}

// ---------------------------------------------------------------------------
// Entity normalisation ahead of XML parsing
// ---------------------------------------------------------------------------

/// HTML named entities and what they are rewritten to so that an XML parser
/// accepts them; the five XML entities are kept as they are.
pub open spec fn xml_entity_table() -> Seq<(Seq<char>, Seq<char>)> {
    seq![
        ("amp"@, "&amp;"@),
        ("lt"@, "&lt;"@),
        ("gt"@, "&gt;"@),
        ("quot"@, "&quot;"@),
        ("apos"@, "&apos;"@),
        ("nbsp"@, "&#160;"@),
        ("copy"@, "&#169;"@),
        ("reg"@, "&#174;"@),
        ("trade"@, "&#8482;"@),
        ("ndash"@, "&#8211;"@),
        ("mdash"@, "&#8212;"@),
        ("lsquo"@, "&#8216;"@),
        ("rsquo"@, "&#8217;"@),
        ("ldquo"@, "&#8220;"@),
        ("rdquo"@, "&#8221;"@),
        ("laquo"@, "&#171;"@),
        ("raquo"@, "&#187;"@),
        ("hellip"@, "&#8230;"@),
        ("bull"@, "&#8226;"@),
        ("middot"@, "&#183;"@),
        ("eacute"@, "&#233;"@),
        ("Eacute"@, "&#201;"@),
        ("iacute"@, "&#237;"@),
        ("Iacute"@, "&#205;"@),
        ("oacute"@, "&#243;"@),
        ("Oacute"@, "&#211;"@),
        ("uacute"@, "&#250;"@),
        ("Uacute"@, "&#218;"@),
        ("aacute"@, "&#225;"@),
        ("Aacute"@, "&#193;"@),
        ("ntilde"@, "&#241;"@),
        ("Ntilde"@, "&#209;"@),
        ("iquest"@, "&#191;"@),
        ("iexcl"@, "&#161;"@),
        ("ordf"@, "&#170;"@),
        ("ordm"@, "&#186;"@),
        ("deg"@, "&#176;"@),
        ("plusmn"@, "&#177;"@),
        ("para"@, "&#182;"@),
        ("sect"@, "&#167;"@),
        ("cent"@, "&#162;"@),
        ("pound"@, "&#163;"@),
        ("yen"@, "&#165;"@),
        ("euro"@, "&#8364;"@),
    ]
}

fn xml_entity_table_exec() -> (t: Vec<(&'static str, &'static str)>)
    ensures
        t@.map_values(|p: (&str, &str)| (p.0@, p.1@)) == xml_entity_table(),
{
    let t = vec![
        ("amp", "&amp;"),
        ("lt", "&lt;"),
        ("gt", "&gt;"),
        ("quot", "&quot;"),
        ("apos", "&apos;"),
        ("nbsp", "&#160;"),
        ("copy", "&#169;"),
        ("reg", "&#174;"),
        ("trade", "&#8482;"),
        ("ndash", "&#8211;"),
        ("mdash", "&#8212;"),
        ("lsquo", "&#8216;"),
        ("rsquo", "&#8217;"),
        ("ldquo", "&#8220;"),
        ("rdquo", "&#8221;"),
        ("laquo", "&#171;"),
        ("raquo", "&#187;"),
        ("hellip", "&#8230;"),
        ("bull", "&#8226;"),
        ("middot", "&#183;"),
        ("eacute", "&#233;"),
        ("Eacute", "&#201;"),
        ("iacute", "&#237;"),
        ("Iacute", "&#205;"),
        ("oacute", "&#243;"),
        ("Oacute", "&#211;"),
        ("uacute", "&#250;"),
        ("Uacute", "&#218;"),
        ("aacute", "&#225;"),
        ("Aacute", "&#193;"),
        ("ntilde", "&#241;"),
        ("Ntilde", "&#209;"),
        ("iquest", "&#191;"),
        ("iexcl", "&#161;"),
        ("ordf", "&#170;"),
        ("ordm", "&#186;"),
        ("deg", "&#176;"),
        ("plusmn", "&#177;"),
        ("para", "&#182;"),
        ("sect", "&#167;"),
        ("cent", "&#162;"),
        ("pound", "&#163;"),
        ("yen", "&#165;"),
        ("euro", "&#8364;"),
    ];
    assert(t@.map_values(|p: (&str, &str)| (p.0@, p.1@)) =~= xml_entity_table());
    t
}

/// The replacement of the first table entry whose name is `name`.
pub open spec fn lookup(table: Seq<(Seq<char>, Seq<char>)>, name: Seq<char>) -> Option<Seq<char>>
    decreases table.len(),
{
    if table.len() == 0 {
        None
    } else if table[0].0 == name {
        Some(table[0].1)
    } else {
        lookup(table.skip(1), name)
    }
}

/// Number of consecutive alphanumeric characters of `s` from `i` on.
pub open spec fn alnum_run(s: Seq<char>, i: int) -> nat
    decreases s.len() - i,
{
    if 0 <= i < s.len() && unicode_alphanumeric(s[i]) {
        1 + alnum_run(s, i + 1)
    } else {
        0
    }
}

pub proof fn lemma_alnum_run(s: Seq<char>, i: int)
    requires
        0 <= i <= s.len(),
    ensures
        i + alnum_run(s, i) <= s.len(),
        forall|k: int| i <= k < i + alnum_run(s, i) ==> unicode_alphanumeric(#[trigger] s[k]),
        i + alnum_run(s, i) < s.len() ==> !unicode_alphanumeric(s[i + alnum_run(s, i)]),
    decreases s.len() - i,
{
    if i < s.len() && unicode_alphanumeric(s[i]) {
        lemma_alnum_run(s, i + 1);
    }
}

/// What an `&` at position `i` turns into, and where scanning resumes.
pub open spec fn entity_rewrite(s: Seq<char>, i: int) -> (Seq<char>, int) {
    let j = i + 1 + alnum_run(s, i + 1);
    let name = s.subrange(i + 1, j);
    let is_entity = !(j < s.len() && s[j] != ';');
    let next = if j < s.len() && s[j] == ';' {
        j + 1
    } else {
        j
    };
    let out = if is_entity && name.len() > 0 {
        match lookup(xml_entity_table(), name) {
            Some(r) => r,
            None => if name[0] == '#' {
                seq!['&'] + name + seq![';']
            } else {
                seq![' ']
            },
        }
    } else {
        seq!['&'] + name
    };
    (out, next)
}

/// `s[i..]` with HTML named entities rewritten for an XML parser: known names
/// become their XML form, unknown ones a space.
pub open spec fn normalize_entities_from(s: Seq<char>, i: int) -> Seq<char>
    decreases s.len() - i,
{
    if i < 0 || i >= s.len() {
        seq![]
    } else if s[i] != '&' {
        seq![s[i]] + normalize_entities_from(s, i + 1)
    } else {
        let (out, next) = entity_rewrite(s, i);
        proof {
            lemma_alnum_run(s, i + 1);
        }
        out + normalize_entities_from(s, next)
    }
}

/// Rewrites HTML named entities that XML does not predefine into numeric ones.
pub fn normalize_html_entities(content: &str) -> (r: String)
    ensures
        r@ == normalize_entities_from(content@, 0),
{
    let s = chars_of(content);
    let table = xml_entity_table_exec();
    let mut out = String::new();
    let mut i: usize = 0;
    while i < s.len()
        invariant
            i <= s.len(),
            table@.map_values(|p: (&str, &str)| (p.0@, p.1@)) == xml_entity_table(),
            out@ + normalize_entities_from(s@, i as int) == normalize_entities_from(s@, 0),
        decreases s.len() - i,
    {
        if s[i] != '&' {
            let ghost before = out@;
            push_char(&mut out, s[i]);
            assert(out@ + normalize_entities_from(s@, i + 1) =~= before + normalize_entities_from(
                s@,
                i as int,
            ));
            i += 1;
            continue;
        }
        proof {
            lemma_alnum_run(s@, i + 1);
        }
        let mut j = i + 1;
        while j < s.len() && char_is_alphanumeric(s[j])
            invariant
                i < j <= s.len(),
                i + 1 + alnum_run(s@, i + 1) <= s.len(),
                alnum_run(s@, i + 1) == (j - i - 1) + alnum_run(s@, j as int),
            decreases s.len() - j,
        {
            j += 1;
        }
        let ghost name = s@.subrange(i + 1, j as int);
        let is_entity = !(j < s.len() && s[j] != ';');
        let next = if j < s.len() && s[j] == ';' {
            j + 1
        } else {
            j
        };
        let ghost before = out@;
        if is_entity && j > i + 1 {
            let mut k: usize = 0;
            let mut found: Option<usize> = None;
            assert(xml_entity_table().skip(0) =~= xml_entity_table());
            while k < table.len() && found.is_none()
                invariant
                    k <= table.len(),
                    i + 1 < j <= s.len(),
                    name == s@.subrange(i + 1, j as int),
                    out@ == before,
                    table@.map_values(|p: (&str, &str)| (p.0@, p.1@)) == xml_entity_table(),
                    found is None ==> lookup(xml_entity_table(), name) == lookup(
                        xml_entity_table().skip(k as int),
                        name,
                    ),
                    found matches Some(m) ==> m < k,
                    found matches Some(m) ==> lookup(xml_entity_table(), name) == Some(
                        table@[m as int].1@,
                    ),
                decreases table.len() - k,
            {
                let (n, rep) = table[k];
                let nv = chars_of(n);
                proof {
                    assert(xml_entity_table().skip(k as int)[0] == (n@, rep@));
                    assert(xml_entity_table().skip(k as int).skip(1) =~= xml_entity_table().skip(
                        k + 1,
                    ));
                }
                if range_eq(&s, i + 1, j, &nv) {
                    proof {
                        assert(table@.map_values(|p: (&str, &str)| (p.0@, p.1@))[k as int] == (
                        table@[k as int].0@, table@[k as int].1@));
                        assert(n@ == name);
                        assert(rep@ == table@[k as int].1@);
                        assert(lookup(xml_entity_table().skip(k as int), name) == Some(rep@));
                    }
                    found = Some(k);
                }
                k += 1;
            }
            if let Some(m) = found {
                let (_, rep) = table[m];
                push_str(&mut out, rep);
            }
            if found.is_none() {
                proof {
                    assert(xml_entity_table().skip(table.len() as int).len() == 0);
                }
                if s[i + 1] == '#' {
                    push_char(&mut out, '&');
                    push_range(&mut out, &s, i + 1, j);
                    push_char(&mut out, ';');
                } else {
                    push_char(&mut out, ' ');
                }
            }
        } else {
            push_char(&mut out, '&');
            push_range(&mut out, &s, i + 1, j);
        }
        proof {
            let (o, nx) = entity_rewrite(s@, i as int);
            assert(nx == next);
            assert(out@ =~= before + o);
            assert(out@ + normalize_entities_from(s@, next as int) =~= before + (o
                + normalize_entities_from(s@, next as int)));
        }
        i = next;
    }
    out
}

/// The text with its first `<!DOCTYPE ...>` declaration removed.
pub open spec fn strip_doctype(s: Seq<char>) -> Seq<char> {
    match find_from(s, 0, "<!DOCTYPE"@) {
        Some(start) => match find_char_from(s, start, '>') {
            Some(end) => s.take(start) + s.skip(end + 1),
            None => s,
        },
        None => s,
    }
}

/// Removes the document type declaration, which XML parsers here reject.
pub fn strip_dtd(xml: &str) -> (r: String)
    ensures
        r@ == strip_doctype(xml@),
{
    let s = chars_of(xml);
    let pat = chars_of("<!DOCTYPE");
    if let Some(start) = find_exec(&s, 0, &pat) {
        if let Some(end) = find_char_exec(&s, start, '>') {
            proof {
                lemma_find_char_from_result(s@, start as int, '>');
            }
            let mut out = string_from_range(&s, 0, start);
            push_range(&mut out, &s, end + 1, s.len());
            assert(out@ =~= strip_doctype(xml@));
            return out;
        }
    }
    string_from(&s)
}
/// The `&name;` form of an entity name.
pub open spec fn named_form(name: Seq<char>) -> Seq<char> {
    seq!['&'] + name + seq![';']
}

/// The names `decode_entities` knows that have no numeric form for the XML parser.
#[verifier::spinoff_prover]
proof fn lemma_names_without_numeric_form(i: int, j: int)
    requires
        i == 20 || i == 21,
        0 <= j < xml_entity_table().len(),
    ensures
        named_form(xml_entity_table()[j].0) != named_references()[i].0,
{
    if i == 20 {
        reveal_strlit("&uuml;");
        if j == 0 {
            reveal_strlit("amp");
            assert(named_form(xml_entity_table()[0].0).len() != named_references()[20].0.len());
        } else if j == 1 {
            reveal_strlit("lt");
            assert(named_form(xml_entity_table()[1].0).len() != named_references()[20].0.len());
        } else if j == 2 {
            reveal_strlit("gt");
            assert(named_form(xml_entity_table()[2].0).len() != named_references()[20].0.len());
        } else if j == 3 {
            reveal_strlit("quot");
            assert(named_form(xml_entity_table()[3].0)[1] != named_references()[20].0[1]);
        } else if j == 4 {
            reveal_strlit("apos");
            assert(named_form(xml_entity_table()[4].0)[1] != named_references()[20].0[1]);
        } else if j == 5 {
            reveal_strlit("nbsp");
            assert(named_form(xml_entity_table()[5].0)[1] != named_references()[20].0[1]);
        } else if j == 6 {
            reveal_strlit("copy");
            assert(named_form(xml_entity_table()[6].0)[1] != named_references()[20].0[1]);
        } else if j == 7 {
            reveal_strlit("reg");
            assert(named_form(xml_entity_table()[7].0).len() != named_references()[20].0.len());
        } else if j == 8 {
            reveal_strlit("trade");
            assert(named_form(xml_entity_table()[8].0).len() != named_references()[20].0.len());
        } else if j == 9 {
            reveal_strlit("ndash");
            assert(named_form(xml_entity_table()[9].0).len() != named_references()[20].0.len());
        } else if j == 10 {
            reveal_strlit("mdash");
            assert(named_form(xml_entity_table()[10].0).len() != named_references()[20].0.len());
        } else if j == 11 {
            reveal_strlit("lsquo");
            assert(named_form(xml_entity_table()[11].0).len() != named_references()[20].0.len());
        } else if j == 12 {
            reveal_strlit("rsquo");
            assert(named_form(xml_entity_table()[12].0).len() != named_references()[20].0.len());
        } else if j == 13 {
            reveal_strlit("ldquo");
            assert(named_form(xml_entity_table()[13].0).len() != named_references()[20].0.len());
        } else if j == 14 {
            reveal_strlit("rdquo");
            assert(named_form(xml_entity_table()[14].0).len() != named_references()[20].0.len());
        } else if j == 15 {
            reveal_strlit("laquo");
            assert(named_form(xml_entity_table()[15].0).len() != named_references()[20].0.len());
        } else if j == 16 {
            reveal_strlit("raquo");
            assert(named_form(xml_entity_table()[16].0).len() != named_references()[20].0.len());
        } else if j == 17 {
            reveal_strlit("hellip");
            assert(named_form(xml_entity_table()[17].0).len() != named_references()[20].0.len());
        } else if j == 18 {
            reveal_strlit("bull");
            assert(named_form(xml_entity_table()[18].0)[1] != named_references()[20].0[1]);
        } else if j == 19 {
            reveal_strlit("middot");
            assert(named_form(xml_entity_table()[19].0).len() != named_references()[20].0.len());
        } else if j == 20 {
            reveal_strlit("eacute");
            assert(named_form(xml_entity_table()[20].0).len() != named_references()[20].0.len());
        } else if j == 21 {
            reveal_strlit("Eacute");
            assert(named_form(xml_entity_table()[21].0).len() != named_references()[20].0.len());
        } else if j == 22 {
            reveal_strlit("iacute");
            assert(named_form(xml_entity_table()[22].0).len() != named_references()[20].0.len());
        } else if j == 23 {
            reveal_strlit("Iacute");
            assert(named_form(xml_entity_table()[23].0).len() != named_references()[20].0.len());
        } else if j == 24 {
            reveal_strlit("oacute");
            assert(named_form(xml_entity_table()[24].0).len() != named_references()[20].0.len());
        } else if j == 25 {
            reveal_strlit("Oacute");
            assert(named_form(xml_entity_table()[25].0).len() != named_references()[20].0.len());
        } else if j == 26 {
            reveal_strlit("uacute");
            assert(named_form(xml_entity_table()[26].0).len() != named_references()[20].0.len());
        } else if j == 27 {
            reveal_strlit("Uacute");
            assert(named_form(xml_entity_table()[27].0).len() != named_references()[20].0.len());
        } else if j == 28 {
            reveal_strlit("aacute");
            assert(named_form(xml_entity_table()[28].0).len() != named_references()[20].0.len());
        } else if j == 29 {
            reveal_strlit("Aacute");
            assert(named_form(xml_entity_table()[29].0).len() != named_references()[20].0.len());
        } else if j == 30 {
            reveal_strlit("ntilde");
            assert(named_form(xml_entity_table()[30].0).len() != named_references()[20].0.len());
        } else if j == 31 {
            reveal_strlit("Ntilde");
            assert(named_form(xml_entity_table()[31].0).len() != named_references()[20].0.len());
        } else if j == 32 {
            reveal_strlit("iquest");
            assert(named_form(xml_entity_table()[32].0).len() != named_references()[20].0.len());
        } else if j == 33 {
            reveal_strlit("iexcl");
            assert(named_form(xml_entity_table()[33].0).len() != named_references()[20].0.len());
        } else if j == 34 {
            reveal_strlit("ordf");
            assert(named_form(xml_entity_table()[34].0)[1] != named_references()[20].0[1]);
        } else if j == 35 {
            reveal_strlit("ordm");
            assert(named_form(xml_entity_table()[35].0)[1] != named_references()[20].0[1]);
        } else if j == 36 {
            reveal_strlit("deg");
            assert(named_form(xml_entity_table()[36].0).len() != named_references()[20].0.len());
        } else if j == 37 {
            reveal_strlit("plusmn");
            assert(named_form(xml_entity_table()[37].0).len() != named_references()[20].0.len());
        } else if j == 38 {
            reveal_strlit("para");
            assert(named_form(xml_entity_table()[38].0)[1] != named_references()[20].0[1]);
        } else if j == 39 {
            reveal_strlit("sect");
            assert(named_form(xml_entity_table()[39].0)[1] != named_references()[20].0[1]);
        } else if j == 40 {
            reveal_strlit("cent");
            assert(named_form(xml_entity_table()[40].0)[1] != named_references()[20].0[1]);
        } else if j == 41 {
            reveal_strlit("pound");
            assert(named_form(xml_entity_table()[41].0).len() != named_references()[20].0.len());
        } else if j == 42 {
            reveal_strlit("yen");
            assert(named_form(xml_entity_table()[42].0).len() != named_references()[20].0.len());
        } else if j == 43 {
            reveal_strlit("euro");
            assert(named_form(xml_entity_table()[43].0)[1] != named_references()[20].0[1]);
        }
    } else {
        reveal_strlit("&Uuml;");
        if j == 0 {
            reveal_strlit("amp");
            assert(named_form(xml_entity_table()[0].0).len() != named_references()[21].0.len());
        } else if j == 1 {
            reveal_strlit("lt");
            assert(named_form(xml_entity_table()[1].0).len() != named_references()[21].0.len());
        } else if j == 2 {
            reveal_strlit("gt");
            assert(named_form(xml_entity_table()[2].0).len() != named_references()[21].0.len());
        } else if j == 3 {
            reveal_strlit("quot");
            assert(named_form(xml_entity_table()[3].0)[1] != named_references()[21].0[1]);
        } else if j == 4 {
            reveal_strlit("apos");
            assert(named_form(xml_entity_table()[4].0)[1] != named_references()[21].0[1]);
        } else if j == 5 {
            reveal_strlit("nbsp");
            assert(named_form(xml_entity_table()[5].0)[1] != named_references()[21].0[1]);
        } else if j == 6 {
            reveal_strlit("copy");
            assert(named_form(xml_entity_table()[6].0)[1] != named_references()[21].0[1]);
        } else if j == 7 {
            reveal_strlit("reg");
            assert(named_form(xml_entity_table()[7].0).len() != named_references()[21].0.len());
        } else if j == 8 {
            reveal_strlit("trade");
            assert(named_form(xml_entity_table()[8].0).len() != named_references()[21].0.len());
        } else if j == 9 {
            reveal_strlit("ndash");
            assert(named_form(xml_entity_table()[9].0).len() != named_references()[21].0.len());
        } else if j == 10 {
            reveal_strlit("mdash");
            assert(named_form(xml_entity_table()[10].0).len() != named_references()[21].0.len());
        } else if j == 11 {
            reveal_strlit("lsquo");
            assert(named_form(xml_entity_table()[11].0).len() != named_references()[21].0.len());
        } else if j == 12 {
            reveal_strlit("rsquo");
            assert(named_form(xml_entity_table()[12].0).len() != named_references()[21].0.len());
        } else if j == 13 {
            reveal_strlit("ldquo");
            assert(named_form(xml_entity_table()[13].0).len() != named_references()[21].0.len());
        } else if j == 14 {
            reveal_strlit("rdquo");
            assert(named_form(xml_entity_table()[14].0).len() != named_references()[21].0.len());
        } else if j == 15 {
            reveal_strlit("laquo");
            assert(named_form(xml_entity_table()[15].0).len() != named_references()[21].0.len());
        } else if j == 16 {
            reveal_strlit("raquo");
            assert(named_form(xml_entity_table()[16].0).len() != named_references()[21].0.len());
        } else if j == 17 {
            reveal_strlit("hellip");
            assert(named_form(xml_entity_table()[17].0).len() != named_references()[21].0.len());
        } else if j == 18 {
            reveal_strlit("bull");
            assert(named_form(xml_entity_table()[18].0)[1] != named_references()[21].0[1]);
        } else if j == 19 {
            reveal_strlit("middot");
            assert(named_form(xml_entity_table()[19].0).len() != named_references()[21].0.len());
        } else if j == 20 {
            reveal_strlit("eacute");
            assert(named_form(xml_entity_table()[20].0).len() != named_references()[21].0.len());
        } else if j == 21 {
            reveal_strlit("Eacute");
            assert(named_form(xml_entity_table()[21].0).len() != named_references()[21].0.len());
        } else if j == 22 {
            reveal_strlit("iacute");
            assert(named_form(xml_entity_table()[22].0).len() != named_references()[21].0.len());
        } else if j == 23 {
            reveal_strlit("Iacute");
            assert(named_form(xml_entity_table()[23].0).len() != named_references()[21].0.len());
        } else if j == 24 {
            reveal_strlit("oacute");
            assert(named_form(xml_entity_table()[24].0).len() != named_references()[21].0.len());
        } else if j == 25 {
            reveal_strlit("Oacute");
            assert(named_form(xml_entity_table()[25].0).len() != named_references()[21].0.len());
        } else if j == 26 {
            reveal_strlit("uacute");
            assert(named_form(xml_entity_table()[26].0).len() != named_references()[21].0.len());
        } else if j == 27 {
            reveal_strlit("Uacute");
            assert(named_form(xml_entity_table()[27].0).len() != named_references()[21].0.len());
        } else if j == 28 {
            reveal_strlit("aacute");
            assert(named_form(xml_entity_table()[28].0).len() != named_references()[21].0.len());
        } else if j == 29 {
            reveal_strlit("Aacute");
            assert(named_form(xml_entity_table()[29].0).len() != named_references()[21].0.len());
        } else if j == 30 {
            reveal_strlit("ntilde");
            assert(named_form(xml_entity_table()[30].0).len() != named_references()[21].0.len());
        } else if j == 31 {
            reveal_strlit("Ntilde");
            assert(named_form(xml_entity_table()[31].0).len() != named_references()[21].0.len());
        } else if j == 32 {
            reveal_strlit("iquest");
            assert(named_form(xml_entity_table()[32].0).len() != named_references()[21].0.len());
        } else if j == 33 {
            reveal_strlit("iexcl");
            assert(named_form(xml_entity_table()[33].0).len() != named_references()[21].0.len());
        } else if j == 34 {
            reveal_strlit("ordf");
            assert(named_form(xml_entity_table()[34].0)[1] != named_references()[21].0[1]);
        } else if j == 35 {
            reveal_strlit("ordm");
            assert(named_form(xml_entity_table()[35].0)[1] != named_references()[21].0[1]);
        } else if j == 36 {
            reveal_strlit("deg");
            assert(named_form(xml_entity_table()[36].0).len() != named_references()[21].0.len());
        } else if j == 37 {
            reveal_strlit("plusmn");
            assert(named_form(xml_entity_table()[37].0).len() != named_references()[21].0.len());
        } else if j == 38 {
            reveal_strlit("para");
            assert(named_form(xml_entity_table()[38].0)[1] != named_references()[21].0[1]);
        } else if j == 39 {
            reveal_strlit("sect");
            assert(named_form(xml_entity_table()[39].0)[1] != named_references()[21].0[1]);
        } else if j == 40 {
            reveal_strlit("cent");
            assert(named_form(xml_entity_table()[40].0)[1] != named_references()[21].0[1]);
        } else if j == 41 {
            reveal_strlit("pound");
            assert(named_form(xml_entity_table()[41].0).len() != named_references()[21].0.len());
        } else if j == 42 {
            reveal_strlit("yen");
            assert(named_form(xml_entity_table()[42].0).len() != named_references()[21].0.len());
        } else if j == 43 {
            reveal_strlit("euro");
            assert(named_form(xml_entity_table()[43].0)[1] != named_references()[21].0[1]);
        }
    }
}

#[verifier::spinoff_prover]
#[verifier::rlimit(60)]
proof fn lemma_named_entries_first(i: int)
    requires
        0 <= i < 13,
        0 <= i < named_references().len(),
        exists|j: int| 0 <= j < xml_entity_table().len() && #[trigger] named_form(xml_entity_table()[j].0) == named_references()[i].0,
    ensures
        exists|j: int|
            0 <= j < xml_entity_table().len() && #[trigger] named_form(xml_entity_table()[j].0) == named_references()[i].0
                && (starts_with(xml_entity_table()[j].1, seq!['&', '#']) ==> named_references()[i].1 == decode_numeric(xml_entity_table()[j].1)),
{
    reveal_with_fuel(crate::numbers::decimal_digits, 5);
    if i == 0 {
        reveal_strlit("&amp;");
        reveal_strlit("amp");
        reveal_strlit("&amp;");
        assert(named_form(xml_entity_table()[0].0) =~= named_references()[0].0);
        assert(xml_entity_table()[0].1[1] != '#');
        assert(named_form(xml_entity_table()[0].0) == named_references()[0].0 && (starts_with(xml_entity_table()[0].1, seq!['&', '#']) ==> named_references()[0].1 == decode_numeric(xml_entity_table()[0].1)));
    } else if i == 1 {
        reveal_strlit("&lt;");
        reveal_strlit("lt");
        reveal_strlit("&lt;");
        assert(named_form(xml_entity_table()[1].0) =~= named_references()[1].0);
        assert(xml_entity_table()[1].1[1] != '#');
        assert(named_form(xml_entity_table()[1].0) == named_references()[1].0 && (starts_with(xml_entity_table()[1].1, seq!['&', '#']) ==> named_references()[1].1 == decode_numeric(xml_entity_table()[1].1)));
    } else if i == 2 {
        reveal_strlit("&gt;");
        reveal_strlit("gt");
        reveal_strlit("&gt;");
        assert(named_form(xml_entity_table()[2].0) =~= named_references()[2].0);
        assert(xml_entity_table()[2].1[1] != '#');
        assert(named_form(xml_entity_table()[2].0) == named_references()[2].0 && (starts_with(xml_entity_table()[2].1, seq!['&', '#']) ==> named_references()[2].1 == decode_numeric(xml_entity_table()[2].1)));
    } else if i == 3 {
        reveal_strlit("&quot;");
        reveal_strlit("quot");
        reveal_strlit("&quot;");
        assert(named_form(xml_entity_table()[3].0) =~= named_references()[3].0);
        assert(xml_entity_table()[3].1[1] != '#');
        assert(named_form(xml_entity_table()[3].0) == named_references()[3].0 && (starts_with(xml_entity_table()[3].1, seq!['&', '#']) ==> named_references()[3].1 == decode_numeric(xml_entity_table()[3].1)));
    } else if i == 4 {
        reveal_strlit("&apos;");
        reveal_strlit("apos");
        reveal_strlit("&apos;");
        assert(named_form(xml_entity_table()[4].0) =~= named_references()[4].0);
        assert(xml_entity_table()[4].1[1] != '#');
        assert(named_form(xml_entity_table()[4].0) == named_references()[4].0 && (starts_with(xml_entity_table()[4].1, seq!['&', '#']) ==> named_references()[4].1 == decode_numeric(xml_entity_table()[4].1)));
    } else if i == 5 {
        reveal_strlit("&nbsp;");
        reveal_strlit("nbsp");
        reveal_strlit("&#160;");
        assert(named_form(xml_entity_table()[5].0) =~= named_references()[5].0);
        reveal_strlit(" ");
        lemma_decimal_reference_decodes(160);
        assert(crate::numbers::decimal_digits(160) =~= seq!['1', '6', '0']);
        assert(xml_entity_table()[5].1 =~= decimal_reference(160));
        assert(named_references()[5].1 =~= seq![referenced_char(160)]);
        assert(named_form(xml_entity_table()[5].0) == named_references()[5].0 && (starts_with(xml_entity_table()[5].1, seq!['&', '#']) ==> named_references()[5].1 == decode_numeric(xml_entity_table()[5].1)));
    } else if i == 6 {
        reveal_strlit("&iexcl;");
        reveal_strlit("iexcl");
        reveal_strlit("&#161;");
        assert(named_form(xml_entity_table()[33].0) =~= named_references()[6].0);
        reveal_strlit("\u{00a1}");
        lemma_decimal_reference_decodes(161);
        assert(crate::numbers::decimal_digits(161) =~= seq!['1', '6', '1']);
        assert(xml_entity_table()[33].1 =~= decimal_reference(161));
        assert(named_references()[6].1 =~= seq![referenced_char(161)]);
        assert(named_form(xml_entity_table()[33].0) == named_references()[6].0 && (starts_with(xml_entity_table()[33].1, seq!['&', '#']) ==> named_references()[6].1 == decode_numeric(xml_entity_table()[33].1)));
    } else if i == 7 {
        reveal_strlit("&iquest;");
        reveal_strlit("iquest");
        reveal_strlit("&#191;");
        assert(named_form(xml_entity_table()[32].0) =~= named_references()[7].0);
        reveal_strlit("\u{00bf}");
        lemma_decimal_reference_decodes(191);
        assert(crate::numbers::decimal_digits(191) =~= seq!['1', '9', '1']);
        assert(xml_entity_table()[32].1 =~= decimal_reference(191));
        assert(named_references()[7].1 =~= seq![referenced_char(191)]);
        assert(named_form(xml_entity_table()[32].0) == named_references()[7].0 && (starts_with(xml_entity_table()[32].1, seq!['&', '#']) ==> named_references()[7].1 == decode_numeric(xml_entity_table()[32].1)));
    } else if i == 8 {
        reveal_strlit("&aacute;");
        reveal_strlit("aacute");
        reveal_strlit("&#225;");
        assert(named_form(xml_entity_table()[28].0) =~= named_references()[8].0);
        reveal_strlit("\u{00e1}");
        lemma_decimal_reference_decodes(225);
        assert(crate::numbers::decimal_digits(225) =~= seq!['2', '2', '5']);
        assert(xml_entity_table()[28].1 =~= decimal_reference(225));
        assert(named_references()[8].1 =~= seq![referenced_char(225)]);
        assert(named_form(xml_entity_table()[28].0) == named_references()[8].0 && (starts_with(xml_entity_table()[28].1, seq!['&', '#']) ==> named_references()[8].1 == decode_numeric(xml_entity_table()[28].1)));
    } else if i == 9 {
        reveal_strlit("&eacute;");
        reveal_strlit("eacute");
        reveal_strlit("&#233;");
        assert(named_form(xml_entity_table()[20].0) =~= named_references()[9].0);
        reveal_strlit("\u{00e9}");
        lemma_decimal_reference_decodes(233);
        assert(crate::numbers::decimal_digits(233) =~= seq!['2', '3', '3']);
        assert(xml_entity_table()[20].1 =~= decimal_reference(233));
        assert(named_references()[9].1 =~= seq![referenced_char(233)]);
        assert(named_form(xml_entity_table()[20].0) == named_references()[9].0 && (starts_with(xml_entity_table()[20].1, seq!['&', '#']) ==> named_references()[9].1 == decode_numeric(xml_entity_table()[20].1)));
    } else if i == 10 {
        reveal_strlit("&iacute;");
        reveal_strlit("iacute");
        reveal_strlit("&#237;");
        assert(named_form(xml_entity_table()[22].0) =~= named_references()[10].0);
        reveal_strlit("\u{00ed}");
        lemma_decimal_reference_decodes(237);
        assert(crate::numbers::decimal_digits(237) =~= seq!['2', '3', '7']);
        assert(xml_entity_table()[22].1 =~= decimal_reference(237));
        assert(named_references()[10].1 =~= seq![referenced_char(237)]);
        assert(named_form(xml_entity_table()[22].0) == named_references()[10].0 && (starts_with(xml_entity_table()[22].1, seq!['&', '#']) ==> named_references()[10].1 == decode_numeric(xml_entity_table()[22].1)));
    } else if i == 11 {
        reveal_strlit("&oacute;");
        reveal_strlit("oacute");
        reveal_strlit("&#243;");
        assert(named_form(xml_entity_table()[24].0) =~= named_references()[11].0);
        reveal_strlit("\u{00f3}");
        lemma_decimal_reference_decodes(243);
        assert(crate::numbers::decimal_digits(243) =~= seq!['2', '4', '3']);
        assert(xml_entity_table()[24].1 =~= decimal_reference(243));
        assert(named_references()[11].1 =~= seq![referenced_char(243)]);
        assert(named_form(xml_entity_table()[24].0) == named_references()[11].0 && (starts_with(xml_entity_table()[24].1, seq!['&', '#']) ==> named_references()[11].1 == decode_numeric(xml_entity_table()[24].1)));
    } else if i == 12 {
        reveal_strlit("&uacute;");
        reveal_strlit("uacute");
        reveal_strlit("&#250;");
        assert(named_form(xml_entity_table()[26].0) =~= named_references()[12].0);
        reveal_strlit("\u{00fa}");
        lemma_decimal_reference_decodes(250);
        assert(crate::numbers::decimal_digits(250) =~= seq!['2', '5', '0']);
        assert(xml_entity_table()[26].1 =~= decimal_reference(250));
        assert(named_references()[12].1 =~= seq![referenced_char(250)]);
        assert(named_form(xml_entity_table()[26].0) == named_references()[12].0 && (starts_with(xml_entity_table()[26].1, seq!['&', '#']) ==> named_references()[12].1 == decode_numeric(xml_entity_table()[26].1)));
    }
}

#[verifier::spinoff_prover]
#[verifier::rlimit(60)]
proof fn lemma_named_entries_middle(i: int)
    requires
        13 <= i < 26,
        0 <= i < named_references().len(),
        exists|j: int| 0 <= j < xml_entity_table().len() && #[trigger] named_form(xml_entity_table()[j].0) == named_references()[i].0,
    ensures
        exists|j: int|
            0 <= j < xml_entity_table().len() && #[trigger] named_form(xml_entity_table()[j].0) == named_references()[i].0
                && (starts_with(xml_entity_table()[j].1, seq!['&', '#']) ==> named_references()[i].1 == decode_numeric(xml_entity_table()[j].1)),
{
    reveal_with_fuel(crate::numbers::decimal_digits, 5);
    if i == 13 {
        reveal_strlit("&ntilde;");
        reveal_strlit("ntilde");
        reveal_strlit("&#241;");
        assert(named_form(xml_entity_table()[30].0) =~= named_references()[13].0);
        reveal_strlit("\u{00f1}");
        lemma_decimal_reference_decodes(241);
        assert(crate::numbers::decimal_digits(241) =~= seq!['2', '4', '1']);
        assert(xml_entity_table()[30].1 =~= decimal_reference(241));
        assert(named_references()[13].1 =~= seq![referenced_char(241)]);
        assert(named_form(xml_entity_table()[30].0) == named_references()[13].0 && (starts_with(xml_entity_table()[30].1, seq!['&', '#']) ==> named_references()[13].1 == decode_numeric(xml_entity_table()[30].1)));
    } else if i == 14 {
        reveal_strlit("&Aacute;");
        reveal_strlit("Aacute");
        reveal_strlit("&#193;");
        assert(named_form(xml_entity_table()[29].0) =~= named_references()[14].0);
        reveal_strlit("\u{00c1}");
        lemma_decimal_reference_decodes(193);
        assert(crate::numbers::decimal_digits(193) =~= seq!['1', '9', '3']);
        assert(xml_entity_table()[29].1 =~= decimal_reference(193));
        assert(named_references()[14].1 =~= seq![referenced_char(193)]);
        assert(named_form(xml_entity_table()[29].0) == named_references()[14].0 && (starts_with(xml_entity_table()[29].1, seq!['&', '#']) ==> named_references()[14].1 == decode_numeric(xml_entity_table()[29].1)));
    } else if i == 15 {
        reveal_strlit("&Eacute;");
        reveal_strlit("Eacute");
        reveal_strlit("&#201;");
        assert(named_form(xml_entity_table()[21].0) =~= named_references()[15].0);
        reveal_strlit("\u{00c9}");
        lemma_decimal_reference_decodes(201);
        assert(crate::numbers::decimal_digits(201) =~= seq!['2', '0', '1']);
        assert(xml_entity_table()[21].1 =~= decimal_reference(201));
        assert(named_references()[15].1 =~= seq![referenced_char(201)]);
        assert(named_form(xml_entity_table()[21].0) == named_references()[15].0 && (starts_with(xml_entity_table()[21].1, seq!['&', '#']) ==> named_references()[15].1 == decode_numeric(xml_entity_table()[21].1)));
    } else if i == 16 {
        reveal_strlit("&Iacute;");
        reveal_strlit("Iacute");
        reveal_strlit("&#205;");
        assert(named_form(xml_entity_table()[23].0) =~= named_references()[16].0);
        reveal_strlit("\u{00cd}");
        lemma_decimal_reference_decodes(205);
        assert(crate::numbers::decimal_digits(205) =~= seq!['2', '0', '5']);
        assert(xml_entity_table()[23].1 =~= decimal_reference(205));
        assert(named_references()[16].1 =~= seq![referenced_char(205)]);
        assert(named_form(xml_entity_table()[23].0) == named_references()[16].0 && (starts_with(xml_entity_table()[23].1, seq!['&', '#']) ==> named_references()[16].1 == decode_numeric(xml_entity_table()[23].1)));
    } else if i == 17 {
        reveal_strlit("&Oacute;");
        reveal_strlit("Oacute");
        reveal_strlit("&#211;");
        assert(named_form(xml_entity_table()[25].0) =~= named_references()[17].0);
        reveal_strlit("\u{00d3}");
        lemma_decimal_reference_decodes(211);
        assert(crate::numbers::decimal_digits(211) =~= seq!['2', '1', '1']);
        assert(xml_entity_table()[25].1 =~= decimal_reference(211));
        assert(named_references()[17].1 =~= seq![referenced_char(211)]);
        assert(named_form(xml_entity_table()[25].0) == named_references()[17].0 && (starts_with(xml_entity_table()[25].1, seq!['&', '#']) ==> named_references()[17].1 == decode_numeric(xml_entity_table()[25].1)));
    } else if i == 18 {
        reveal_strlit("&Uacute;");
        reveal_strlit("Uacute");
        reveal_strlit("&#218;");
        assert(named_form(xml_entity_table()[27].0) =~= named_references()[18].0);
        reveal_strlit("\u{00da}");
        lemma_decimal_reference_decodes(218);
        assert(crate::numbers::decimal_digits(218) =~= seq!['2', '1', '8']);
        assert(xml_entity_table()[27].1 =~= decimal_reference(218));
        assert(named_references()[18].1 =~= seq![referenced_char(218)]);
        assert(named_form(xml_entity_table()[27].0) == named_references()[18].0 && (starts_with(xml_entity_table()[27].1, seq!['&', '#']) ==> named_references()[18].1 == decode_numeric(xml_entity_table()[27].1)));
    } else if i == 19 {
        reveal_strlit("&Ntilde;");
        reveal_strlit("Ntilde");
        reveal_strlit("&#209;");
        assert(named_form(xml_entity_table()[31].0) =~= named_references()[19].0);
        reveal_strlit("\u{00d1}");
        lemma_decimal_reference_decodes(209);
        assert(crate::numbers::decimal_digits(209) =~= seq!['2', '0', '9']);
        assert(xml_entity_table()[31].1 =~= decimal_reference(209));
        assert(named_references()[19].1 =~= seq![referenced_char(209)]);
        assert(named_form(xml_entity_table()[31].0) == named_references()[19].0 && (starts_with(xml_entity_table()[31].1, seq!['&', '#']) ==> named_references()[19].1 == decode_numeric(xml_entity_table()[31].1)));
    } else if i == 20 {
        let j = choose|j: int| 0 <= j < xml_entity_table().len() && #[trigger] named_form(xml_entity_table()[j].0) == named_references()[i].0;
        lemma_names_without_numeric_form(i, j);
    } else if i == 21 {
        let j = choose|j: int| 0 <= j < xml_entity_table().len() && #[trigger] named_form(xml_entity_table()[j].0) == named_references()[i].0;
        lemma_names_without_numeric_form(i, j);
    } else if i == 22 {
        reveal_strlit("&ordm;");
        reveal_strlit("ordm");
        reveal_strlit("&#186;");
        assert(named_form(xml_entity_table()[35].0) =~= named_references()[22].0);
        reveal_strlit("\u{00ba}");
        lemma_decimal_reference_decodes(186);
        assert(crate::numbers::decimal_digits(186) =~= seq!['1', '8', '6']);
        assert(xml_entity_table()[35].1 =~= decimal_reference(186));
        assert(named_references()[22].1 =~= seq![referenced_char(186)]);
        assert(named_form(xml_entity_table()[35].0) == named_references()[22].0 && (starts_with(xml_entity_table()[35].1, seq!['&', '#']) ==> named_references()[22].1 == decode_numeric(xml_entity_table()[35].1)));
    } else if i == 23 {
        reveal_strlit("&ordf;");
        reveal_strlit("ordf");
        reveal_strlit("&#170;");
        assert(named_form(xml_entity_table()[34].0) =~= named_references()[23].0);
        reveal_strlit("\u{00aa}");
        lemma_decimal_reference_decodes(170);
        assert(crate::numbers::decimal_digits(170) =~= seq!['1', '7', '0']);
        assert(xml_entity_table()[34].1 =~= decimal_reference(170));
        assert(named_references()[23].1 =~= seq![referenced_char(170)]);
        assert(named_form(xml_entity_table()[34].0) == named_references()[23].0 && (starts_with(xml_entity_table()[34].1, seq!['&', '#']) ==> named_references()[23].1 == decode_numeric(xml_entity_table()[34].1)));
    } else if i == 24 {
        reveal_strlit("&ldquo;");
        reveal_strlit("ldquo");
        reveal_strlit("&#8220;");
        assert(named_form(xml_entity_table()[13].0) =~= named_references()[24].0);
        reveal_strlit("\u{201c}");
        lemma_decimal_reference_decodes(8220);
        assert(crate::numbers::decimal_digits(8220) =~= seq!['8', '2', '2', '0']);
        assert(xml_entity_table()[13].1 =~= decimal_reference(8220));
        assert(named_references()[24].1 =~= seq![referenced_char(8220)]);
        assert(named_form(xml_entity_table()[13].0) == named_references()[24].0 && (starts_with(xml_entity_table()[13].1, seq!['&', '#']) ==> named_references()[24].1 == decode_numeric(xml_entity_table()[13].1)));
    } else if i == 25 {
        reveal_strlit("&rdquo;");
        reveal_strlit("rdquo");
        reveal_strlit("&#8221;");
        assert(named_form(xml_entity_table()[14].0) =~= named_references()[25].0);
        reveal_strlit("\u{201d}");
        lemma_decimal_reference_decodes(8221);
        assert(crate::numbers::decimal_digits(8221) =~= seq!['8', '2', '2', '1']);
        assert(xml_entity_table()[14].1 =~= decimal_reference(8221));
        assert(named_references()[25].1 =~= seq![referenced_char(8221)]);
        assert(named_form(xml_entity_table()[14].0) == named_references()[25].0 && (starts_with(xml_entity_table()[14].1, seq!['&', '#']) ==> named_references()[25].1 == decode_numeric(xml_entity_table()[14].1)));
    }
}

#[verifier::spinoff_prover]
#[verifier::rlimit(60)]
proof fn lemma_named_entries_last(i: int)
    requires
        26 <= i < 38,
        0 <= i < named_references().len(),
        exists|j: int| 0 <= j < xml_entity_table().len() && #[trigger] named_form(xml_entity_table()[j].0) == named_references()[i].0,
    ensures
        exists|j: int|
            0 <= j < xml_entity_table().len() && #[trigger] named_form(xml_entity_table()[j].0) == named_references()[i].0
                && (starts_with(xml_entity_table()[j].1, seq!['&', '#']) ==> named_references()[i].1 == decode_numeric(xml_entity_table()[j].1)),
{
    reveal_with_fuel(crate::numbers::decimal_digits, 5);
    if i == 26 {
        reveal_strlit("&lsquo;");
        reveal_strlit("lsquo");
        reveal_strlit("&#8216;");
        assert(named_form(xml_entity_table()[11].0) =~= named_references()[26].0);
        reveal_strlit("\u{2018}");
        lemma_decimal_reference_decodes(8216);
        assert(crate::numbers::decimal_digits(8216) =~= seq!['8', '2', '1', '6']);
        assert(xml_entity_table()[11].1 =~= decimal_reference(8216));
        assert(named_references()[26].1 =~= seq![referenced_char(8216)]);
        assert(named_form(xml_entity_table()[11].0) == named_references()[26].0 && (starts_with(xml_entity_table()[11].1, seq!['&', '#']) ==> named_references()[26].1 == decode_numeric(xml_entity_table()[11].1)));
    } else if i == 27 {
        reveal_strlit("&rsquo;");
        reveal_strlit("rsquo");
        reveal_strlit("&#8217;");
        assert(named_form(xml_entity_table()[12].0) =~= named_references()[27].0);
        reveal_strlit("\u{2019}");
        lemma_decimal_reference_decodes(8217);
        assert(crate::numbers::decimal_digits(8217) =~= seq!['8', '2', '1', '7']);
        assert(xml_entity_table()[12].1 =~= decimal_reference(8217));
        assert(named_references()[27].1 =~= seq![referenced_char(8217)]);
        assert(named_form(xml_entity_table()[12].0) == named_references()[27].0 && (starts_with(xml_entity_table()[12].1, seq!['&', '#']) ==> named_references()[27].1 == decode_numeric(xml_entity_table()[12].1)));
    } else if i == 28 {
        reveal_strlit("&laquo;");
        reveal_strlit("laquo");
        reveal_strlit("&#171;");
        assert(named_form(xml_entity_table()[15].0) =~= named_references()[28].0);
        reveal_strlit("\u{00ab}");
        lemma_decimal_reference_decodes(171);
        assert(crate::numbers::decimal_digits(171) =~= seq!['1', '7', '1']);
        assert(xml_entity_table()[15].1 =~= decimal_reference(171));
        assert(named_references()[28].1 =~= seq![referenced_char(171)]);
        assert(named_form(xml_entity_table()[15].0) == named_references()[28].0 && (starts_with(xml_entity_table()[15].1, seq!['&', '#']) ==> named_references()[28].1 == decode_numeric(xml_entity_table()[15].1)));
    } else if i == 29 {
        reveal_strlit("&raquo;");
        reveal_strlit("raquo");
        reveal_strlit("&#187;");
        assert(named_form(xml_entity_table()[16].0) =~= named_references()[29].0);
        reveal_strlit("\u{00bb}");
        lemma_decimal_reference_decodes(187);
        assert(crate::numbers::decimal_digits(187) =~= seq!['1', '8', '7']);
        assert(xml_entity_table()[16].1 =~= decimal_reference(187));
        assert(named_references()[29].1 =~= seq![referenced_char(187)]);
        assert(named_form(xml_entity_table()[16].0) == named_references()[29].0 && (starts_with(xml_entity_table()[16].1, seq!['&', '#']) ==> named_references()[29].1 == decode_numeric(xml_entity_table()[16].1)));
    } else if i == 30 {
        reveal_strlit("&mdash;");
        reveal_strlit("mdash");
        reveal_strlit("&#8212;");
        assert(named_form(xml_entity_table()[10].0) =~= named_references()[30].0);
        reveal_strlit("\u{2014}");
        lemma_decimal_reference_decodes(8212);
        assert(crate::numbers::decimal_digits(8212) =~= seq!['8', '2', '1', '2']);
        assert(xml_entity_table()[10].1 =~= decimal_reference(8212));
        assert(named_references()[30].1 =~= seq![referenced_char(8212)]);
        assert(named_form(xml_entity_table()[10].0) == named_references()[30].0 && (starts_with(xml_entity_table()[10].1, seq!['&', '#']) ==> named_references()[30].1 == decode_numeric(xml_entity_table()[10].1)));
    } else if i == 31 {
        reveal_strlit("&ndash;");
        reveal_strlit("ndash");
        reveal_strlit("&#8211;");
        assert(named_form(xml_entity_table()[9].0) =~= named_references()[31].0);
        reveal_strlit("\u{2013}");
        lemma_decimal_reference_decodes(8211);
        assert(crate::numbers::decimal_digits(8211) =~= seq!['8', '2', '1', '1']);
        assert(xml_entity_table()[9].1 =~= decimal_reference(8211));
        assert(named_references()[31].1 =~= seq![referenced_char(8211)]);
        assert(named_form(xml_entity_table()[9].0) == named_references()[31].0 && (starts_with(xml_entity_table()[9].1, seq!['&', '#']) ==> named_references()[31].1 == decode_numeric(xml_entity_table()[9].1)));
    } else if i == 32 {
        reveal_strlit("&hellip;");
        reveal_strlit("hellip");
        reveal_strlit("&#8230;");
        assert(named_form(xml_entity_table()[17].0) =~= named_references()[32].0);
        reveal_strlit("\u{2026}");
        lemma_decimal_reference_decodes(8230);
        assert(crate::numbers::decimal_digits(8230) =~= seq!['8', '2', '3', '0']);
        assert(xml_entity_table()[17].1 =~= decimal_reference(8230));
        assert(named_references()[32].1 =~= seq![referenced_char(8230)]);
        assert(named_form(xml_entity_table()[17].0) == named_references()[32].0 && (starts_with(xml_entity_table()[17].1, seq!['&', '#']) ==> named_references()[32].1 == decode_numeric(xml_entity_table()[17].1)));
    } else if i == 33 {
        reveal_strlit("&bull;");
        reveal_strlit("bull");
        reveal_strlit("&#8226;");
        assert(named_form(xml_entity_table()[18].0) =~= named_references()[33].0);
        reveal_strlit("\u{2022}");
        lemma_decimal_reference_decodes(8226);
        assert(crate::numbers::decimal_digits(8226) =~= seq!['8', '2', '2', '6']);
        assert(xml_entity_table()[18].1 =~= decimal_reference(8226));
        assert(named_references()[33].1 =~= seq![referenced_char(8226)]);
        assert(named_form(xml_entity_table()[18].0) == named_references()[33].0 && (starts_with(xml_entity_table()[18].1, seq!['&', '#']) ==> named_references()[33].1 == decode_numeric(xml_entity_table()[18].1)));
    } else if i == 34 {
        reveal_strlit("&copy;");
        reveal_strlit("copy");
        reveal_strlit("&#169;");
        assert(named_form(xml_entity_table()[6].0) =~= named_references()[34].0);
        reveal_strlit("\u{00a9}");
        lemma_decimal_reference_decodes(169);
        assert(crate::numbers::decimal_digits(169) =~= seq!['1', '6', '9']);
        assert(xml_entity_table()[6].1 =~= decimal_reference(169));
        assert(named_references()[34].1 =~= seq![referenced_char(169)]);
        assert(named_form(xml_entity_table()[6].0) == named_references()[34].0 && (starts_with(xml_entity_table()[6].1, seq!['&', '#']) ==> named_references()[34].1 == decode_numeric(xml_entity_table()[6].1)));
    } else if i == 35 {
        reveal_strlit("&reg;");
        reveal_strlit("reg");
        reveal_strlit("&#174;");
        assert(named_form(xml_entity_table()[7].0) =~= named_references()[35].0);
        reveal_strlit("\u{00ae}");
        lemma_decimal_reference_decodes(174);
        assert(crate::numbers::decimal_digits(174) =~= seq!['1', '7', '4']);
        assert(xml_entity_table()[7].1 =~= decimal_reference(174));
        assert(named_references()[35].1 =~= seq![referenced_char(174)]);
        assert(named_form(xml_entity_table()[7].0) == named_references()[35].0 && (starts_with(xml_entity_table()[7].1, seq!['&', '#']) ==> named_references()[35].1 == decode_numeric(xml_entity_table()[7].1)));
    } else if i == 36 {
        reveal_strlit("&trade;");
        reveal_strlit("trade");
        reveal_strlit("&#8482;");
        assert(named_form(xml_entity_table()[8].0) =~= named_references()[36].0);
        reveal_strlit("\u{2122}");
        lemma_decimal_reference_decodes(8482);
        assert(crate::numbers::decimal_digits(8482) =~= seq!['8', '4', '8', '2']);
        assert(xml_entity_table()[8].1 =~= decimal_reference(8482));
        assert(named_references()[36].1 =~= seq![referenced_char(8482)]);
        assert(named_form(xml_entity_table()[8].0) == named_references()[36].0 && (starts_with(xml_entity_table()[8].1, seq!['&', '#']) ==> named_references()[36].1 == decode_numeric(xml_entity_table()[8].1)));
    } else if i == 37 {
        reveal_strlit("&euro;");
        reveal_strlit("euro");
        reveal_strlit("&#8364;");
        assert(named_form(xml_entity_table()[43].0) =~= named_references()[37].0);
        reveal_strlit("\u{20ac}");
        lemma_decimal_reference_decodes(8364);
        assert(crate::numbers::decimal_digits(8364) =~= seq!['8', '3', '6', '4']);
        assert(xml_entity_table()[43].1 =~= decimal_reference(8364));
        assert(named_references()[37].1 =~= seq![referenced_char(8364)]);
        assert(named_form(xml_entity_table()[43].0) == named_references()[37].0 && (starts_with(xml_entity_table()[43].1, seq!['&', '#']) ==> named_references()[37].1 == decode_numeric(xml_entity_table()[43].1)));
    }
}

/// Each named reference that `decode_entities` rewrites decodes to the
/// character that the decimal reference written for the same name ahead of
/// XML parsing stands for (`&ntilde;` to what `&#241;` gives, U+00F1): the
/// two tables of HTML names agree, entry by entry.
pub proof fn law_named_references_agree_with_numeric(i: int)
    requires
        0 <= i < named_references().len(),
        exists|j: int| 0 <= j < xml_entity_table().len() && #[trigger] named_form(xml_entity_table()[j].0) == named_references()[i].0,
    ensures
        exists|j: int|
            0 <= j < xml_entity_table().len() && #[trigger] named_form(xml_entity_table()[j].0) == named_references()[i].0
                && (starts_with(xml_entity_table()[j].1, seq!['&', '#']) ==> named_references()[i].1 == decode_numeric(xml_entity_table()[j].1)),
{
    if i < 13 {
        lemma_named_entries_first(i);
    } else if i < 26 {
        lemma_named_entries_middle(i);
    } else {
        lemma_named_entries_last(i);
    }
}

} // verus!
