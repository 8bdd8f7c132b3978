//! Syntax colouring for the source editor: each line of HTML or CSS is cut
//! into byte ranges, each with the kind of token it holds.
use core::ops::Range;
use vstd::prelude::*;
use vstd::string::StringSliceAdditionalSpecFns;

verus! {

#[derive(Clone, Copy, PartialEq, Eq, Debug, Structural)]
pub enum Language {
    Html,
    Css,
}

#[derive(Clone, Copy, PartialEq, Eq, Debug, Structural)]
pub enum TokenKind {
    Tag,
    Attribute,
    String,
    Comment,
    Selector,
    Property,
    Value,
    Number,
    Plain,
}

pub type Token = (Range<usize>, TokenKind);

pub open spec fn tok(start: int, end: int, kind: TokenKind) -> Token {
    (Range { start: start as usize, end: end as usize }, kind)
}

// ---------------------------------------------------------------------------
// Byte classes and scans
// ---------------------------------------------------------------------------

/// `u8::is_ascii_whitespace`: space, tab, line feed, form feed, carriage return.
pub open spec fn is_ws(c: u8) -> bool {
    c == 0x20 || c == 0x09 || c == 0x0a || c == 0x0c || c == 0x0d
}

pub open spec fn is_digit(c: u8) -> bool {
    0x30 <= c <= 0x39
}

pub open spec fn is_alpha(c: u8) -> bool {
    (0x41 <= c <= 0x5a) || (0x61 <= c <= 0x7a)
}

pub open spec fn is_quote(c: u8) -> bool {
    c == 0x22 || c == 0x27
}

fn is_ws_exec(c: u8) -> (r: bool)
    ensures
        r == is_ws(c),
{
    c == 0x20 || c == 0x09 || c == 0x0a || c == 0x0c || c == 0x0d
}

/// First position `k >= from` where `pat` starts.
pub open spec fn find_bytes(b: Seq<u8>, from: int, pat: Seq<u8>) -> Option<int>
    decreases b.len() - from,
{
    if from < 0 || from + pat.len() > b.len() {
        None
    } else if b.subrange(from, from + pat.len()) == pat {
        Some(from)
    } else if from >= b.len() {
        None
    } else {
        find_bytes(b, from + 1, pat)
    }
}

pub proof fn lemma_find_bytes(b: Seq<u8>, from: int, pat: Seq<u8>)
    requires
        0 <= from,
    ensures
        find_bytes(b, from, pat) matches Some(k) ==> from <= k && k + pat.len() <= b.len(),
    decreases b.len() - from,
{
    if from + pat.len() <= b.len() && b.subrange(from, from + pat.len()) != pat && from < b.len() {
        lemma_find_bytes(b, from + 1, pat);
    }
}

fn find_bytes_exec(b: &[u8], from: usize, pat: &[u8]) -> (r: Option<usize>)
    ensures
        r matches Some(k) ==> find_bytes(b@, from as int, pat@) == Some(k as int),
        r is None ==> find_bytes(b@, from as int, pat@) is None,
{
    let mut k = from;
    while k <= b.len() && pat.len() <= b.len() - k
        invariant
            from <= k,
            find_bytes(b@, from as int, pat@) == find_bytes(b@, k as int, pat@),
        decreases b.len() - k,
    {
        let mut m: usize = 0;
        let mut same = true;
        while m < pat.len()
            invariant
                k + pat.len() <= b.len(),
                m <= pat.len(),
                same == forall|x: int| 0 <= x < m ==> b@[k + x] == pat@[x],
            decreases pat.len() - m,
        {
            if b[k + m] != pat[m] {
                same = false;
            }
            m += 1;
        }
        proof {
            if same {
                assert(b@.subrange(k as int, k + pat.len()) =~= pat@);
            } else {
                let x = choose|x: int| 0 <= x < pat.len() && b@[k + x] != pat@[x];
                assert(b@.subrange(k as int, k + pat.len())[x] != pat@[x]);
                assert(k < b.len());
            }
        }
        if same {
            return Some(k);
        }
        k += 1;
    }
    None
}

/// First position in `[i, end)` holding `c`, or `end`.
pub open spec fn byte_end(b: Seq<u8>, i: int, end: int, c: u8) -> int
    decreases end - i,
{
    if i >= end || i < 0 {
        i
    } else if b[i] == c {
        i
    } else {
        byte_end(b, i + 1, end, c)
    }
}

/// First position in `[i, end)` that is not white space, or `end`.
pub open spec fn ws_end(b: Seq<u8>, i: int, end: int) -> int
    decreases end - i,
{
    if i >= end || i < 0 {
        i
    } else if is_ws(b[i]) {
        ws_end(b, i + 1, end)
    } else {
        i
    }
}

pub proof fn lemma_scan_bounds(b: Seq<u8>, i: int, end: int, c: u8)
    requires
        0 <= i <= end <= b.len(),
    ensures
        i <= byte_end(b, i, end, c) <= end,
        byte_end(b, i, end, c) < end ==> b[byte_end(b, i, end, c)] == c,
        i <= ws_end(b, i, end) <= end,
    decreases end - i,
{
    if i < end {
        lemma_scan_bounds(b, i + 1, end, c);
    }
}

fn byte_end_exec(b: &[u8], i: usize, end: usize, c: u8) -> (r: usize)
    requires
        i <= end <= b.len(),
    ensures
        r == byte_end(b@, i as int, end as int, c),
{
    let mut k = i;
    while k < end && b[k] != c
        invariant
            i <= k <= end <= b.len(),
            byte_end(b@, i as int, end as int, c) == byte_end(b@, k as int, end as int, c),
        decreases end - k,
    {
        k += 1;
    }
    k
}

fn ws_end_exec(b: &[u8], i: usize, end: usize) -> (r: usize)
    requires
        i <= end <= b.len(),
    ensures
        r == ws_end(b@, i as int, end as int),
{
    let mut k = i;
    while k < end && is_ws_exec(b[k])
        invariant
            i <= k <= end <= b.len(),
            ws_end(b@, i as int, end as int) == ws_end(b@, k as int, end as int),
        decreases end - k,
    {
        k += 1;
    }
    k
}

/// End of a run of digits and `.` starting at `i`.
pub open spec fn digits_end(b: Seq<u8>, i: int, end: int) -> int
    decreases end - i,
{
    if i >= end || i < 0 {
        i
    } else if is_digit(b[i]) || b[i] == 0x2e {
        digits_end(b, i + 1, end)
    } else {
        i
    }
}

/// End of a run of ASCII letters starting at `i`.
pub open spec fn alpha_end(b: Seq<u8>, i: int, end: int) -> int
    decreases end - i,
{
    if i >= end || i < 0 {
        i
    } else if is_alpha(b[i]) {
        alpha_end(b, i + 1, end)
    } else {
        i
    }
}

/// End of a run with no quote and no digit starting at `i`.
pub open spec fn word_value_end(b: Seq<u8>, i: int, end: int) -> int
    decreases end - i,
{
    if i >= end || i < 0 {
        i
    } else if !is_quote(b[i]) && !is_digit(b[i]) {
        word_value_end(b, i + 1, end)
    } else {
        i
    }
}

pub proof fn lemma_value_scans(b: Seq<u8>, i: int, end: int)
    requires
        0 <= i <= end <= b.len(),
    ensures
        i <= digits_end(b, i, end) <= end,
        i <= alpha_end(b, i, end) <= end,
        i <= word_value_end(b, i, end) <= end,
        i < end && !is_quote(b[i]) && !is_digit(b[i]) ==> i < word_value_end(b, i, end),
    decreases end - i,
{
    if i < end {
        lemma_value_scans(b, i + 1, end);
    }
}

/// The tokens of a CSS value in `b[i..end]`: quoted strings, numbers with
/// their unit or `%`, and the runs between them as plain values.
pub open spec fn value_tokens(b: Seq<u8>, i: int, end: int) -> Seq<Token>
    decreases end - i,
{
    if i < 0 || i >= end || end > b.len() {
        Seq::empty()
    } else if is_quote(b[i]) {
        let e = byte_end(b, i + 1, end, b[i]);
        let e2 = if e < end {
            e + 1
        } else {
            e
        };
        proof {
            lemma_scan_bounds(b, i + 1, end, b[i]);
        }
        seq![tok(i, e2, TokenKind::String)] + value_tokens(b, e2, end)
    } else if is_digit(b[i]) {
        let d = digits_end(b, i, end);
        proof {
            lemma_value_scans(b, i, end);
            lemma_value_scans(b, i + 1, end);
            lemma_value_scans(b, d, end);
        }
        let a = alpha_end(b, d, end);
        let p = if a < end && b[a] == 0x25 {
            a + 1
        } else {
            a
        };
        proof {
            assert(d > i);
        }
        seq![tok(i, p, TokenKind::Number)] + value_tokens(b, p, end)
    } else {
        let v = word_value_end(b, i, end);
        proof {
            lemma_value_scans(b, i, end);
        }
        seq![tok(i, v, TokenKind::Value)] + value_tokens(b, v, end)
    }
}

fn scan_continues(c: u8, kind: u8) -> (r: bool)
    ensures
        kind == 0 ==> r == (is_digit(c) || c == 0x2e),
        kind == 1 ==> r == is_alpha(c),
        kind == 2 ==> r == (!is_quote(c) && !is_digit(c)),
{
    if kind == 0 {
        (0x30 <= c && c <= 0x39) || c == 0x2e
    } else if kind == 1 {
        (0x41 <= c && c <= 0x5a) || (0x61 <= c && c <= 0x7a)
    } else {
        c != 0x22 && c != 0x27 && !(0x30 <= c && c <= 0x39)
    }
}

fn scan_exec(b: &[u8], i: usize, end: usize, kind: u8) -> (r: usize)
    requires
        i <= end <= b.len(),
        kind < 3,
    ensures
        kind == 0 ==> r == digits_end(b@, i as int, end as int),
        kind == 1 ==> r == alpha_end(b@, i as int, end as int),
        kind == 2 ==> r == word_value_end(b@, i as int, end as int),
{
    let mut k = i;
    while k < end && scan_continues(b[k], kind)
        invariant
            i <= k <= end <= b.len(),
            kind == 0 ==> digits_end(b@, i as int, end as int) == digits_end(b@, k as int, end as int),
            kind == 1 ==> alpha_end(b@, i as int, end as int) == alpha_end(b@, k as int, end as int),
            kind == 2 ==> word_value_end(b@, i as int, end as int) == word_value_end(b@, k as int, end as int),
        decreases end - k,
    {
        k += 1;
    }
    k
}

/// Appends the tokens of the CSS value `bytes[start..end]`; see `value_tokens`.
pub fn push_css_value_tokens(bytes: &[u8], start: usize, end: usize, tokens: &mut Vec<Token>)
    requires
        start <= end <= bytes.len(),
    ensures
        final(tokens)@ == old(tokens)@ + value_tokens(bytes@, start as int, end as int),
{
    let mut i = start;
    while i < end
        invariant
            start <= i <= end <= bytes.len(),
            tokens@ + value_tokens(bytes@, i as int, end as int) == old(tokens)@ + value_tokens(
                bytes@,
                start as int,
                end as int,
            ),
        decreases end - i,
    {
        let ghost before = tokens@;
        let c = bytes[i];
        if c == 0x22 || c == 0x27 {
            let e = byte_end_exec(bytes, i + 1, end, c);
            let e2 = if e < end {
                e + 1
            } else {
                e
            };
            tokens.push((i..e2, TokenKind::String));
            proof {
                lemma_scan_bounds(bytes@, i + 1, end as int, c);
                assert(tokens@ + value_tokens(bytes@, e2 as int, end as int) =~= before + value_tokens(
                    bytes@,
                    i as int,
                    end as int,
                ));
            }
            i = e2;
        } else if 0x30 <= c && c <= 0x39 {
            let d = scan_exec(bytes, i, end, 0);
            proof {
                lemma_value_scans(bytes@, i as int, end as int);
                lemma_value_scans(bytes@, d as int, end as int);
            }
            let a = scan_exec(bytes, d, end, 1);
            let p = if a < end && bytes[a] == 0x25 {
                a + 1
            } else {
                a
            };
            tokens.push((i..p, TokenKind::Number));
            assert(tokens@ + value_tokens(bytes@, p as int, end as int) =~= before + value_tokens(
                bytes@,
                i as int,
                end as int,
            ));
            i = p;
        } else {
            let v = scan_exec(bytes, i, end, 2);
            proof {
                lemma_value_scans(bytes@, i as int, end as int);
            }
            tokens.push((i..v, TokenKind::Value));
            assert(tokens@ + value_tokens(bytes@, v as int, end as int) =~= before + value_tokens(
                bytes@,
                i as int,
                end as int,
            ));
            i = v;
        }
    }
    assert(tokens@ + Seq::<Token>::empty() =~= tokens@);
}

// ---------------------------------------------------------------------------
// CSS lines
// ---------------------------------------------------------------------------

pub open spec fn comment_open() -> Seq<u8> {
    seq![0x2fu8, 0x2a]
}

pub open spec fn comment_close() -> Seq<u8> {
    seq![0x2au8, 0x2f]
}

/// The tokens of a line of CSS from position `i`: white space is skipped; a
/// comment runs to its `*/` (or the line's end); braces are skipped; text
/// before a `{` is a selector; text before a `:` is a property, and what
/// follows up to `;` is a value; anything else left is plain text.
pub open spec fn css_tokens(b: Seq<u8>, i: int) -> Seq<Token>
    decreases b.len() - i,
{
    if i < 0 || i >= b.len() {
        Seq::empty()
    } else {
        let len = b.len() as int;
        let p = ws_end(b, i, len);
        proof {
            lemma_scan_bounds(b, i, len, 0x3a);
        }
        if p >= len {
            Seq::empty()
        } else if p + 2 <= len && b.subrange(p, p + 2) == comment_open() {
            let e = match find_bytes(b, p, comment_close()) {
                Some(k) => k + 2,
                None => len,
            };
            proof {
                lemma_find_bytes(b, p, comment_close());
            }
            seq![tok(p, e, TokenKind::Comment)] + css_tokens(b, e)
        } else if b[p] == 0x7b || b[p] == 0x7d {
            css_tokens(b, p + 1)
        } else {
            let colon = byte_end(b, p, len, 0x3a);
            proof {
                lemma_scan_bounds(b, p, len, 0x3a);
            }
            if colon < len {
                let brace = byte_end(b, p, colon, 0x7b);
                proof {
                    lemma_scan_bounds(b, p, colon, 0x7b);
                }
                if brace < colon {
                    (if brace > p {
                        seq![tok(p, brace, TokenKind::Selector)]
                    } else {
                        Seq::empty()
                    }) + css_tokens(b, brace + 1)
                } else {
                    let vend = byte_end(b, colon + 1, len, 0x3b);
                    proof {
                        lemma_scan_bounds(b, colon + 1, len, 0x3b);
                    }
                    let next = if vend < len && b[vend] == 0x3b {
                        vend + 1
                    } else {
                        vend
                    };
                    (if colon > p {
                        seq![tok(p, colon, TokenKind::Property)]
                    } else {
                        Seq::empty()
                    }) + value_tokens(b, colon + 1, vend) + css_tokens(b, next)
                }
            } else {
                let brace = byte_end(b, p, len, 0x7b);
                proof {
                    lemma_scan_bounds(b, p, len, 0x7b);
                }
                if brace < len {
                    (if brace > p {
                        seq![tok(p, brace, TokenKind::Selector)]
                    } else {
                        Seq::empty()
                    }) + css_tokens(b, brace + 1)
                } else {
                    seq![tok(p, len, TokenKind::Plain)]
                }
            }
        }
    }
}

/// Appends the tokens of a line of CSS; see `css_tokens`.
pub fn highlight_css(line: &str, tokens: &mut Vec<Token>)
    ensures
        final(tokens)@ == old(tokens)@ + css_tokens(line.spec_bytes(), 0),
{
    let bytes = line.as_bytes();
    let len = bytes.len();
    let close: [u8; 2] = [0x2a, 0x2f];
    assert(close@ =~= comment_close());
    let mut i: usize = 0;
    while i < len
        invariant
            len == bytes@.len(),
            bytes@ == line.spec_bytes(),
            close@ == comment_close(),
            i <= len,
            tokens@ + css_tokens(bytes@, i as int) == old(tokens)@ + css_tokens(bytes@, 0),
        decreases len - i,
    {
        let ghost before = tokens@;
        let ghost at = i;
        let p = ws_end_exec(bytes, i, len);
        proof {
            lemma_scan_bounds(bytes@, i as int, len as int, 0x3a);
        }
        if p >= len {
            assert(css_tokens(bytes@, at as int) =~= Seq::<Token>::empty());
            i = len;
            assert(tokens@ + css_tokens(bytes@, i as int) =~= before + css_tokens(bytes@, at as int));
            continue;
        }
        if len - p >= 2 && bytes[p] == 0x2f && bytes[p + 1] == 0x2a {
            proof {
                assert(bytes@.subrange(p as int, p + 2) =~= comment_open());
                lemma_find_bytes(bytes@, p as int, comment_close());
            }
            let e = match find_bytes_exec(bytes, p, &close) {
                Some(k) => k + 2,
                None => len,
            };
            tokens.push((p..e, TokenKind::Comment));
            assert(tokens@ + css_tokens(bytes@, e as int) =~= before + css_tokens(bytes@, at as int));
            i = e;
            continue;
        }
        proof {
            if p + 2 <= len && bytes@.subrange(p as int, p + 2) == comment_open() {
                assert(bytes@.subrange(p as int, p + 2)[0] == 0x2f);
                assert(bytes@.subrange(p as int, p + 2)[1] == 0x2a);
            }
        }
        if bytes[p] == 0x7b || bytes[p] == 0x7d {
            i = p + 1;
            continue;
        }
        let colon = byte_end_exec(bytes, p, len, 0x3a);
        proof {
            lemma_scan_bounds(bytes@, p as int, len as int, 0x3a);
        }
        if colon < len {
            let brace = byte_end_exec(bytes, p, colon, 0x7b);
            proof {
                lemma_scan_bounds(bytes@, p as int, colon as int, 0x7b);
            }
            if brace < colon {
                if brace > p {
                    tokens.push((p..brace, TokenKind::Selector));
                }
                assert(tokens@ + css_tokens(bytes@, brace + 1) =~= before + css_tokens(bytes@, at as int));
                i = brace + 1;
                continue;
            }
            if colon > p {
                tokens.push((p..colon, TokenKind::Property));
            }
            let vend = byte_end_exec(bytes, colon + 1, len, 0x3b);
            proof {
                lemma_scan_bounds(bytes@, colon + 1, len as int, 0x3b);
            }
            let ghost mid = tokens@;
            push_css_value_tokens(bytes, colon + 1, vend, tokens);
            let next = if vend < len && bytes[vend] == 0x3b {
                vend + 1
            } else {
                vend
            };
            assert(tokens@ + css_tokens(bytes@, next as int) =~= before + css_tokens(bytes@, at as int));
            i = next;
        } else {
            let brace = byte_end_exec(bytes, p, len, 0x7b);
            proof {
                lemma_scan_bounds(bytes@, p as int, len as int, 0x7b);
            }
            if brace < len {
                if brace > p {
                    tokens.push((p..brace, TokenKind::Selector));
                }
                assert(tokens@ + css_tokens(bytes@, brace + 1) =~= before + css_tokens(bytes@, at as int));
                i = brace + 1;
            } else {
                tokens.push((p..len, TokenKind::Plain));
                assert(tokens@ + css_tokens(bytes@, len as int) =~= before + css_tokens(bytes@, at as int));
                i = len;
            }
        }
    }
    assert(tokens@ + Seq::<Token>::empty() =~= tokens@);
}

// ---------------------------------------------------------------------------
// HTML lines
// ---------------------------------------------------------------------------

pub open spec fn html_comment_open() -> Seq<u8> {
    seq![0x3cu8, 0x21, 0x2d, 0x2d]
}

pub open spec fn html_comment_close() -> Seq<u8> {
    seq![0x2du8, 0x2d, 0x3e]
}

/// Position just after the `>` that closes a tag whose text resumes at `j`
/// (quoted attribute values may hold `>`), or the line's end.
pub open spec fn tag_end(b: Seq<u8>, j: int, quote: Option<u8>) -> int
    decreases b.len() - j,
{
    if j < 0 || j >= b.len() {
        j
    } else {
        match quote {
            Some(q) => tag_end(b, j + 1, if b[j] == q { None } else { quote }),
            None => if is_quote(b[j]) {
                tag_end(b, j + 1, Some(b[j]))
            } else if b[j] == 0x3e {
                j + 1
            } else {
                tag_end(b, j + 1, None)
            },
        }
    }
}

/// End of a tag name: the first white space or `>`.
pub open spec fn name_end(b: Seq<u8>, k: int, end: int) -> int
    decreases end - k,
{
    if k >= end || k < 0 {
        k
    } else if !is_ws(b[k]) && b[k] != 0x3e {
        name_end(b, k + 1, end)
    } else {
        k
    }
}

/// End of an attribute name: the first white space, `=`, `>` or `/`.
pub open spec fn attr_end(b: Seq<u8>, k: int, end: int) -> int
    decreases end - k,
{
    if k >= end || k < 0 {
        k
    } else if !is_ws(b[k]) && b[k] != 0x3d && b[k] != 0x3e && b[k] != 0x2f {
        attr_end(b, k + 1, end)
    } else {
        k
    }
}

pub proof fn lemma_tag_scans(b: Seq<u8>, j: int, end: int, quote: Option<u8>)
    requires
        0 <= j <= end <= b.len(),
    ensures
        j <= tag_end(b, j, quote) <= b.len(),
        j <= name_end(b, j, end) <= end,
        j <= attr_end(b, j, end) <= end,
        j < end && !is_ws(b[j]) && b[j] != 0x3d && b[j] != 0x3e && b[j] != 0x2f ==> j < attr_end(b, j, end),
    decreases b.len() - j,
{
    if j < b.len() {
        let q2 = match quote {
            Some(q) => if b[j] == q { None } else { quote },
            None => if is_quote(b[j]) { Some(b[j]) } else { None },
        };
        if j < end {
            lemma_tag_scans(b, j + 1, end, q2);
        } else {
            lemma_tag_scans(b, j + 1, b.len() as int, q2);
        }
    }
}

/// The tokens inside a tag's text `b[k..j]`: quoted strings; an attribute
/// name where one is expected (at the start and after each string), after
/// which one `=` is skipped; white space, `>` and `/` skipped.
pub open spec fn attr_tokens(b: Seq<u8>, k: int, j: int, expect: bool) -> Seq<Token>
    decreases j - k,
{
    if k < 0 || k >= j || j > b.len() {
        Seq::empty()
    } else {
        let c = b[k];
        if is_ws(c) || c == 0x3e || c == 0x2f {
            attr_tokens(b, k + 1, j, expect)
        } else if is_quote(c) {
            let e = byte_end(b, k + 1, j, c);
            proof {
                lemma_scan_bounds(b, k + 1, j, c);
            }
            let e2 = if e < j {
                e + 1
            } else {
                e
            };
            seq![tok(k, e2, TokenKind::String)] + attr_tokens(b, e2, j, true)
        } else if expect {
            let a = attr_end(b, k, j);
            proof {
                lemma_tag_scans(b, k, j, None);
            }
            seq![tok(k, a, TokenKind::Attribute)] + if a < j && b[a] == 0x3d {
                attr_tokens(b, a + 1, j, false)
            } else {
                attr_tokens(b, a, j, false)
            }
        } else {
            attr_tokens(b, k + 1, j, false)
        }
    }
}

/// The tokens of a tag spanning `b[t..j]`: its name (after `<`, an optional
/// `/` and white space), then its attributes and strings.
pub open spec fn tag_tokens(b: Seq<u8>, t: int, j: int) -> Seq<Token> {
    let k0 = if t + 1 < j && b[t + 1] == 0x2f {
        t + 2
    } else {
        t + 1
    };
    let ns = ws_end(b, k0, j);
    let ne = name_end(b, ns, j);
    (if ns < ne {
        seq![tok(ns, ne, TokenKind::Tag)]
    } else {
        Seq::empty()
    }) + attr_tokens(b, ne, j, true)
}

/// The tokens of a line of HTML from position `i`: comments to their `-->`
/// (or the line's end); tags with their name, attributes and strings; the
/// text between tags as plain text.
pub open spec fn html_tokens(b: Seq<u8>, i: int) -> Seq<Token>
    decreases b.len() - i,
{
    if i < 0 || i >= b.len() {
        Seq::empty()
    } else if b[i] == 0x3c {
        if i + 4 <= b.len() && b.subrange(i, i + 4) == html_comment_open() {
            let e = match find_bytes(b, i, html_comment_close()) {
                Some(k) => k + 3,
                None => b.len() as int,
            };
            proof {
                lemma_find_bytes(b, i, html_comment_close());
            }
            seq![tok(i, e, TokenKind::Comment)] + html_tokens(b, e)
        } else {
            let j = tag_end(b, i + 1, None);
            proof {
                lemma_tag_scans(b, i + 1, b.len() as int, None);
            }
            tag_tokens(b, i, j) + html_tokens(b, j)
        }
    } else {
        let p = byte_end(b, i, b.len() as int, 0x3c);
        proof {
            lemma_scan_bounds(b, i, b.len() as int, 0x3c);
            lemma_scan_bounds(b, i + 1, b.len() as int, 0x3c);
        }
        seq![tok(i, p, TokenKind::Plain)] + html_tokens(b, p)
    }
}

fn tag_end_exec(b: &[u8], start: usize) -> (r: usize)
    requires
        start <= b.len(),
    ensures
        r == tag_end(b@, start as int, None),
        start <= r <= b.len(),
{
    proof {
        lemma_tag_scans(b@, start as int, b.len() as int, None);
    }
    let mut j = start;
    let mut quote: Option<u8> = None;
    while j < b.len()
        invariant
            start <= j <= b.len(),
            tag_end(b@, start as int, None) == tag_end(b@, j as int, quote),
        decreases b.len() - j,
    {
        let c = b[j];
        match quote {
            Some(q) => {
                if c == q {
                    quote = None;
                }
            },
            None => {
                if c == 0x22 || c == 0x27 {
                    quote = Some(c);
                } else if c == 0x3e {
                    return j + 1;
                }
            },
        }
        j += 1;
    }
    j
}

fn name_end_exec(b: &[u8], k: usize, end: usize) -> (r: usize)
    requires
        k <= end <= b.len(),
    ensures
        r == name_end(b@, k as int, end as int),
{
    let mut i = k;
    while i < end && !is_ws_exec(b[i]) && b[i] != 0x3e
        invariant
            k <= i <= end <= b.len(),
            name_end(b@, k as int, end as int) == name_end(b@, i as int, end as int),
        decreases end - i,
    {
        i += 1;
    }
    i
}

fn attr_end_exec(b: &[u8], k: usize, end: usize) -> (r: usize)
    requires
        k <= end <= b.len(),
    ensures
        r == attr_end(b@, k as int, end as int),
{
    let mut i = k;
    while i < end && !is_ws_exec(b[i]) && b[i] != 0x3d && b[i] != 0x3e && b[i] != 0x2f
        invariant
            k <= i <= end <= b.len(),
            attr_end(b@, k as int, end as int) == attr_end(b@, i as int, end as int),
        decreases end - i,
    {
        i += 1;
    }
    i
}

fn push_attr_tokens(b: &[u8], k0: usize, j: usize, tokens: &mut Vec<Token>)
    requires
        k0 <= j <= b.len(),
    ensures
        final(tokens)@ == old(tokens)@ + attr_tokens(b@, k0 as int, j as int, true),
{
    let mut k = k0;
    let mut expect = true;
    while k < j
        invariant
            k0 <= k <= j <= b.len(),
            tokens@ + attr_tokens(b@, k as int, j as int, expect) == old(tokens)@ + attr_tokens(
                b@,
                k0 as int,
                j as int,
                true,
            ),
        decreases j - k,
    {
        let ghost before = tokens@;
        let ghost at = k;
        let ghost was = expect;
        let c = b[k];
        if is_ws_exec(c) || c == 0x3e || c == 0x2f {
            k += 1;
        } else if c == 0x22 || c == 0x27 {
            let e = byte_end_exec(b, k + 1, j, c);
            proof {
                lemma_scan_bounds(b@, k + 1, j as int, c);
            }
            let e2 = if e < j {
                e + 1
            } else {
                e
            };
            tokens.push((k..e2, TokenKind::String));
            expect = true;
            assert(tokens@ + attr_tokens(b@, e2 as int, j as int, expect) =~= before + attr_tokens(
                b@,
                at as int,
                j as int,
                was,
            ));
            k = e2;
        } else if expect {
            let a = attr_end_exec(b, k, j);
            proof {
                lemma_tag_scans(b@, k as int, j as int, None);
            }
            tokens.push((k..a, TokenKind::Attribute));
            expect = false;
            if a < j && b[a] == 0x3d {
                assert(tokens@ + attr_tokens(b@, a + 1, j as int, false) =~= before + attr_tokens(
                    b@,
                    at as int,
                    j as int,
                    was,
                ));
                k = a + 1;
            } else {
                assert(tokens@ + attr_tokens(b@, a as int, j as int, false) =~= before + attr_tokens(
                    b@,
                    at as int,
                    j as int,
                    was,
                ));
                k = a;
            }
        } else {
            k += 1;
        }
    }
    assert(tokens@ + Seq::<Token>::empty() =~= tokens@);
}

fn push_tag_tokens(b: &[u8], t: usize, j: usize, tokens: &mut Vec<Token>)
    requires
        t < j <= b.len(),
    ensures
        final(tokens)@ == old(tokens)@ + tag_tokens(b@, t as int, j as int),
{
    let k0 = if t + 1 < j && b[t + 1] == 0x2f {
        t + 2
    } else {
        t + 1
    };
    let ns = ws_end_exec(b, k0, j);
    proof {
        lemma_scan_bounds(b@, k0 as int, j as int, 0);
    }
    let ne = name_end_exec(b, ns, j);
    proof {
        lemma_tag_scans(b@, ns as int, j as int, None);
    }
    let ghost before = tokens@;
    if ns < ne {
        tokens.push((ns..ne, TokenKind::Tag));
    }
    let ghost mid = tokens@;
    push_attr_tokens(b, ne, j, tokens);
    proof {
        if ns < ne {
            assert(mid =~= before + seq![tok(ns as int, ne as int, TokenKind::Tag)]);
        } else {
            assert(mid =~= before + Seq::<Token>::empty());
        }
        assert(tokens@ =~= before + tag_tokens(b@, t as int, j as int));
    }
}

/// Appends the tokens of a line of HTML; see `html_tokens`.
pub fn highlight_html(line: &str, tokens: &mut Vec<Token>)
    ensures
        final(tokens)@ == old(tokens)@ + html_tokens(line.spec_bytes(), 0),
{
    let bytes = line.as_bytes();
    let len = bytes.len();
    let open: [u8; 4] = [0x3c, 0x21, 0x2d, 0x2d];
    let close: [u8; 3] = [0x2d, 0x2d, 0x3e];
    assert(open@ =~= html_comment_open());
    assert(close@ =~= html_comment_close());
    let mut i: usize = 0;
    while i < len
        invariant
            len == bytes@.len(),
            bytes@ == line.spec_bytes(),
            open@ == html_comment_open(),
            close@ == html_comment_close(),
            i <= len,
            tokens@ + html_tokens(bytes@, i as int) == old(tokens)@ + html_tokens(bytes@, 0),
        decreases len - i,
    {
        let ghost before = tokens@;
        let ghost at = i;
        if bytes[i] == 0x3c {
            let is_comment = len - i >= 4 && bytes[i + 1] == 0x21 && bytes[i + 2] == 0x2d && bytes[i + 3] == 0x2d;
            proof {
                if len - i >= 4 {
                    if is_comment {
                        assert(bytes@.subrange(i as int, i + 4) =~= html_comment_open());
                    } else if bytes@.subrange(i as int, i + 4) == html_comment_open() {
                        assert(bytes@.subrange(i as int, i + 4)[1] == 0x21);
                        assert(bytes@.subrange(i as int, i + 4)[2] == 0x2d);
                        assert(bytes@.subrange(i as int, i + 4)[3] == 0x2d);
                    }
                }
            }
            if is_comment {
                proof {
                    lemma_find_bytes(bytes@, i as int, html_comment_close());
                }
                let e = match find_bytes_exec(bytes, i, &close) {
                    Some(k) => k + 3,
                    None => len,
                };
                tokens.push((i..e, TokenKind::Comment));
                assert(tokens@ + html_tokens(bytes@, e as int) =~= before + html_tokens(bytes@, at as int));
                i = e;
            } else {
                let j = tag_end_exec(bytes, i + 1);
                push_tag_tokens(bytes, i, j, tokens);
                assert(tokens@ + html_tokens(bytes@, j as int) =~= before + html_tokens(bytes@, at as int));
                i = j;
            }
        } else {
            let p = byte_end_exec(bytes, i, len, 0x3c);
            proof {
                lemma_scan_bounds(bytes@, i as int, len as int, 0x3c);
                lemma_scan_bounds(bytes@, i + 1, len as int, 0x3c);
            }
            tokens.push((i..p, TokenKind::Plain));
            assert(tokens@ + html_tokens(bytes@, p as int) =~= before + html_tokens(bytes@, at as int));
            i = p;
        }
    }
    assert(tokens@ + Seq::<Token>::empty() =~= tokens@);
}

// ---------------------------------------------------------------------------
// The highlighter
// ---------------------------------------------------------------------------

/// Highlights the lines of a document in one language, remembering the line
/// the editor is on.
pub struct SyntaxHighlighter {
    language: Language,
    current_line: usize,
}

/// The tokens of a line in a language.
pub open spec fn line_tokens(language: Language, line: Seq<u8>) -> Seq<Token> {
    match language {
        Language::Html => html_tokens(line, 0),
        Language::Css => css_tokens(line, 0),
    }
}

impl SyntaxHighlighter {
    pub closed spec fn language_of(&self) -> Language {
        self.language
    }

    pub closed spec fn line_of(&self) -> usize {
        self.current_line
    }

    pub fn new(settings: &Language) -> (h: Self)
        ensures
            h.language_of() == *settings,
            h.line_of() == 0,
    {
        SyntaxHighlighter { language: *settings, current_line: 0 }
    }

    pub fn update(&mut self, new_settings: &Language)
        ensures
            final(self).language_of() == *new_settings,
            final(self).line_of() == old(self).line_of(),
    {
        self.language = *new_settings;
    }

    pub fn change_line(&mut self, line: usize)
        ensures
            final(self).language_of() == old(self).language_of(),
            final(self).line_of() == line,
    {
        self.current_line = line;
    }

    /// The tokens of one line; see `line_tokens`.
    pub fn highlight_line(&mut self, line: &str) -> (r: Vec<Token>)
        ensures
            r@ == line_tokens(old(self).language_of(), line.spec_bytes()),
            final(self).language_of() == old(self).language_of(),
            final(self).line_of() == old(self).line_of(),
    {
        let mut tokens: Vec<Token> = Vec::new();
        match self.language {
            Language::Html => highlight_html(line, &mut tokens),
            Language::Css => highlight_css(line, &mut tokens),
        }
        assert(tokens@ =~= line_tokens(self.language, line.spec_bytes()));
        tokens
    }

    pub fn current_line(&self) -> (n: usize)
        ensures
            n == self.line_of(),
    {
        self.current_line
    }
}

/// The language the editor highlights for a media type: CSS for `text/css`,
/// HTML for `application/xhtml+xml` and `text/html`, none otherwise.
pub open spec fn language_for(media_type: Seq<char>) -> Option<Language> {
    if media_type == "text/css"@ {
        Some(Language::Css)
    } else if media_type == "application/xhtml+xml"@ || media_type == "text/html"@ {
        Some(Language::Html)
    } else {
        None
    }
}

pub fn editor_language(media_type: &str) -> (r: Option<Language>)
    ensures
        r == language_for(media_type@),
{
    if crate::text::str_eq(media_type, "text/css") {
        Some(Language::Css)
    } else if crate::text::str_eq(media_type, "application/xhtml+xml") || crate::text::str_eq(
        media_type,
        "text/html",
    ) {
        Some(Language::Html)
    } else {
        None
    }
}

/// The colour, as red, green and blue bytes, in which the editor draws a
/// token of each kind on a dark or a light theme; plain text keeps the
/// theme's own colour (`None`).
pub open spec fn token_rgb(kind: TokenKind, is_dark: bool) -> Option<(u8, u8, u8)> {
    match kind {
        TokenKind::Tag => Some(if is_dark { (0x66, 0xb3, 0xff) } else { (0x22, 0x88, 0xff) }),
        TokenKind::Attribute => Some(if is_dark { (0xff, 0xaa, 0x66) } else { (0xdd, 0x88, 0x44) }),
        TokenKind::String => Some(if is_dark { (0x55, 0xcc, 0x88) } else { (0x22, 0xaa, 0x66) }),
        TokenKind::Comment => Some(if is_dark { (0xaa, 0xaa, 0xaa) } else { (0x88, 0x88, 0x88) }),
        TokenKind::Selector => Some(if is_dark { (0x77, 0xaa, 0xff) } else { (0x44, 0x88, 0xdd) }),
        TokenKind::Property => Some(if is_dark { (0xff, 0x88, 0x66) } else { (0xdd, 0x66, 0x44) }),
        TokenKind::Value => Some(if is_dark { (0xcc, 0xcc, 0xcc) } else { (0xaa, 0xaa, 0xaa) }),
        TokenKind::Number => Some(if is_dark { (0x99, 0xee, 0xff) } else { (0x66, 0xdd, 0xee) }),
        TokenKind::Plain => None,
    }
}

/// The colour of a token of `kind`; see `token_rgb`.
pub fn token_format(kind: TokenKind, is_dark: bool) -> (r: Option<(u8, u8, u8)>)
    ensures
        r == token_rgb(kind, is_dark),
{
    match kind {
        TokenKind::Tag => Some(if is_dark { (0x66, 0xb3, 0xff) } else { (0x22, 0x88, 0xff) }),
        TokenKind::Attribute => Some(if is_dark { (0xff, 0xaa, 0x66) } else { (0xdd, 0x88, 0x44) }),
        TokenKind::String => Some(if is_dark { (0x55, 0xcc, 0x88) } else { (0x22, 0xaa, 0x66) }),
        TokenKind::Comment => Some(if is_dark { (0xaa, 0xaa, 0xaa) } else { (0x88, 0x88, 0x88) }),
        TokenKind::Selector => Some(if is_dark { (0x77, 0xaa, 0xff) } else { (0x44, 0x88, 0xdd) }),
        TokenKind::Property => Some(if is_dark { (0xff, 0x88, 0x66) } else { (0xdd, 0x66, 0x44) }),
        TokenKind::Value => Some(if is_dark { (0xcc, 0xcc, 0xcc) } else { (0xaa, 0xaa, 0xaa) }),
        TokenKind::Number => Some(if is_dark { (0x99, 0xee, 0xff) } else { (0x66, 0xdd, 0xee) }),
        TokenKind::Plain => None,
    }
}

// ---------------------------------------------------------------------------
// Where tokens lie
// ---------------------------------------------------------------------------

/// A position of a line's bytes that is its start or end, or next to an
/// ASCII byte. In UTF-8 text such a position always falls between two
/// characters, since an ASCII byte is a character of its own.
pub open spec fn edge(b: Seq<u8>, k: int) -> bool {
    ||| k == 0
    ||| k == b.len()
    ||| (0 <= k < b.len() && b[k] < 0x80)
    ||| (0 < k <= b.len() && b[k - 1] < 0x80)
}

pub open spec fn tok_start(t: Token) -> int {
    t.0.start as int
}

pub open spec fn tok_end(t: Token) -> int {
    t.0.end as int
}

/// The tokens lie within `[lo, hi]`, each starting no later than it ends and
/// at an edge of the line, and in order without overlapping.
pub open spec fn tokens_within(b: Seq<u8>, ts: Seq<Token>, lo: int, hi: int) -> bool {
    &&& forall|k: int|
        0 <= k < ts.len() ==> lo <= tok_start(#[trigger] ts[k]) <= tok_end(ts[k]) <= hi && edge(b, tok_start(ts[k]))
            && edge(b, tok_end(ts[k]))
    &&& forall|k: int, m: int| 0 <= k < m < ts.len() ==> tok_end(#[trigger] ts[k]) <= tok_start(#[trigger] ts[m])
}

proof fn lemma_within_concat(b: Seq<u8>, a: Seq<Token>, c: Seq<Token>, lo: int, mid: int, hi: int)
    requires
        tokens_within(b, a, lo, mid),
        tokens_within(b, c, mid, hi),
        lo <= mid <= hi,
    ensures
        tokens_within(b, a + c, lo, hi),
{
    let s = a + c;
    assert forall|k: int| 0 <= k < s.len() implies lo <= tok_start(#[trigger] s[k]) <= tok_end(s[k]) <= hi
        && edge(b, tok_start(s[k])) && edge(b, tok_end(s[k])) by {
        if k < a.len() {
            assert(s[k] == a[k]);
        } else {
            assert(s[k] == c[k - a.len()]);
        }
    }
    assert forall|k: int, m: int| 0 <= k < m < s.len() implies tok_end(#[trigger] s[k]) <= tok_start(#[trigger] s[m]) by {
        if m < a.len() {
            assert(s[k] == a[k] && s[m] == a[m]);
        } else if k >= a.len() {
            assert(s[k] == c[k - a.len()] && s[m] == c[m - a.len()]);
        } else {
            assert(s[k] == a[k] && s[m] == c[m - a.len()]);
        }
    }
}

proof fn lemma_within_one(b: Seq<u8>, p: int, e: int, kind: TokenKind, lo: int, hi: int)
    requires
        lo <= p <= e <= hi,
        0 <= p,
        e <= usize::MAX,
        edge(b, p),
        edge(b, e),
    ensures
        tokens_within(b, seq![tok(p, e, kind)], lo, hi),
{
    let t = tok(p, e, kind);
    assert(tok_start(t) == p && tok_end(t) == e);
}

proof fn lemma_within_empty(b: Seq<u8>, lo: int, hi: int)
    ensures
        tokens_within(b, Seq::<Token>::empty(), lo, hi),
{
}

/// A scan that stops short of its end stops at the byte it looks for, and
/// one that moved past its start stopped after a byte of its class.
proof fn lemma_digits_edge(b: Seq<u8>, i: int, end: int)
    requires
        0 <= i <= end <= b.len(),
    ensures
        digits_end(b, i, end) == i || (b[digits_end(b, i, end) - 1] < 0x80),
        alpha_end(b, i, end) == i || (b[alpha_end(b, i, end) - 1] < 0x80),
        word_value_end(b, i, end) == end || (word_value_end(b, i, end) < end && b[word_value_end(b, i, end)] < 0x80),
    decreases end - i,
{
    lemma_value_scans(b, i, end);
    if i < end {
        lemma_digits_edge(b, i + 1, end);
        lemma_value_scans(b, i + 1, end);
    }
}

proof fn lemma_value_tokens_within(b: Seq<u8>, i: int, end: int)
    requires
        0 <= i <= end <= b.len(),
        b.len() <= usize::MAX,
        edge(b, i),
        edge(b, end),
    ensures
        tokens_within(b, value_tokens(b, i, end), i, end),
    decreases end - i,
{
    if i >= end {
    } else if is_quote(b[i]) {
        let e = byte_end(b, i + 1, end, b[i]);
        lemma_scan_bounds(b, i + 1, end, b[i]);
        let e2 = if e < end { e + 1 } else { e };
        assert(edge(b, e2));
        lemma_within_one(b, i, e2, TokenKind::String, i, e2);
        lemma_value_tokens_within(b, e2, end);
        lemma_within_concat(b, seq![tok(i, e2, TokenKind::String)], value_tokens(b, e2, end), i, e2, end);
    } else if is_digit(b[i]) {
        let d = digits_end(b, i, end);
        lemma_value_scans(b, i, end);
        lemma_value_scans(b, i + 1, end);
        lemma_value_scans(b, d, end);
        lemma_digits_edge(b, i, end);
        lemma_digits_edge(b, d, end);
        let a = alpha_end(b, d, end);
        let p = if a < end && b[a] == 0x25 { a + 1 } else { a };
        assert(d > i);
        assert(edge(b, d));
        assert(edge(b, a));
        assert(edge(b, p));
        lemma_within_one(b, i, p, TokenKind::Number, i, p);
        lemma_value_tokens_within(b, p, end);
        lemma_within_concat(b, seq![tok(i, p, TokenKind::Number)], value_tokens(b, p, end), i, p, end);
    } else {
        let v = word_value_end(b, i, end);
        lemma_value_scans(b, i, end);
        lemma_digits_edge(b, i, end);
        assert(edge(b, v));
        lemma_within_one(b, i, v, TokenKind::Value, i, v);
        lemma_value_tokens_within(b, v, end);
        lemma_within_concat(b, seq![tok(i, v, TokenKind::Value)], value_tokens(b, v, end), i, v, end);
    }
}

proof fn lemma_ws_edge(b: Seq<u8>, i: int, end: int)
    requires
        0 <= i <= end <= b.len(),
    ensures
        ws_end(b, i, end) == i || is_ws(b[ws_end(b, i, end) - 1]),
    decreases end - i,
{
    if i < end && is_ws(b[i]) {
        lemma_ws_edge(b, i + 1, end);
    }
}

proof fn lemma_find_bytes_match(b: Seq<u8>, from: int, pat: Seq<u8>)
    requires
        0 <= from,
    ensures
        find_bytes(b, from, pat) matches Some(k) ==> b.subrange(k, k + pat.len()) == pat,
    decreases b.len() - from,
{
    if from + pat.len() <= b.len() && b.subrange(from, from + pat.len()) != pat && from < b.len() {
        lemma_find_bytes_match(b, from + 1, pat);
    }
}

proof fn lemma_css_tokens_within(b: Seq<u8>, i: int)
    requires
        0 <= i <= b.len(),
        b.len() <= usize::MAX,
        edge(b, i),
    ensures
        tokens_within(b, css_tokens(b, i), i, b.len() as int),
    decreases b.len() - i,
{
    let len = b.len() as int;
    if i < len {
        let p = ws_end(b, i, len);
        lemma_scan_bounds(b, i, len, 0x3a);
        lemma_ws_edge(b, i, len);
        assert(edge(b, p));
        if p >= len {
        } else if p + 2 <= len && b.subrange(p, p + 2) == comment_open() {
            lemma_find_bytes(b, p, comment_close());
            lemma_find_bytes_match(b, p, comment_close());
            let e = match find_bytes(b, p, comment_close()) {
                Some(k) => k + 2,
                None => len,
            };
            if let Some(k) = find_bytes(b, p, comment_close()) {
                assert(b[k + 1] == b.subrange(k, k + 2)[1]);
            }
            assert(edge(b, e));
            lemma_within_one(b, p, e, TokenKind::Comment, i, e);
            lemma_css_tokens_within(b, e);
            lemma_within_concat(b, seq![tok(p, e, TokenKind::Comment)], css_tokens(b, e), i, e, len);
        } else if b[p] == 0x7b || b[p] == 0x7d {
            assert(edge(b, p + 1));
            lemma_css_tokens_within(b, p + 1);
        } else {
            let colon = byte_end(b, p, len, 0x3a);
            lemma_scan_bounds(b, p, len, 0x3a);
            if colon < len {
                let brace = byte_end(b, p, colon, 0x7b);
                lemma_scan_bounds(b, p, colon, 0x7b);
                if brace < colon {
                    let head = if brace > p { seq![tok(p, brace, TokenKind::Selector)] } else { Seq::<Token>::empty() };
                    if brace > p {
                        lemma_within_one(b, p, brace, TokenKind::Selector, i, brace + 1);
                    }
                    assert(edge(b, brace + 1));
                    lemma_css_tokens_within(b, brace + 1);
                    lemma_within_concat(b, head, css_tokens(b, brace + 1), i, brace + 1, len);
                } else {
                    let vend = byte_end(b, colon + 1, len, 0x3b);
                    lemma_scan_bounds(b, colon + 1, len, 0x3b);
                    let next = if vend < len && b[vend] == 0x3b { vend + 1 } else { vend };
                    let head = if colon > p { seq![tok(p, colon, TokenKind::Property)] } else { Seq::<Token>::empty() };
                    if colon > p {
                        lemma_within_one(b, p, colon, TokenKind::Property, i, colon + 1);
                    }
                    assert(edge(b, colon + 1));
                    assert(edge(b, vend));
                    assert(edge(b, next));
                    lemma_value_tokens_within(b, colon + 1, vend);
                    lemma_css_tokens_within(b, next);
                    lemma_within_concat(b, head, value_tokens(b, colon + 1, vend), i, colon + 1, vend);
                    lemma_within_concat(b, head + value_tokens(b, colon + 1, vend), css_tokens(b, next), i, next, len);
                }
            } else {
                let brace = byte_end(b, p, len, 0x7b);
                lemma_scan_bounds(b, p, len, 0x7b);
                if brace < len {
                    let head = if brace > p { seq![tok(p, brace, TokenKind::Selector)] } else { Seq::<Token>::empty() };
                    if brace > p {
                        lemma_within_one(b, p, brace, TokenKind::Selector, i, brace + 1);
                    }
                    assert(edge(b, brace + 1));
                    lemma_css_tokens_within(b, brace + 1);
                    lemma_within_concat(b, head, css_tokens(b, brace + 1), i, brace + 1, len);
                } else {
                    lemma_within_one(b, p, len, TokenKind::Plain, i, len);
                }
            }
        }
    }
}

proof fn lemma_tag_edges(b: Seq<u8>, k: int, end: int, quote: Option<u8>)
    requires
        0 <= k <= end <= b.len(),
    ensures
        name_end(b, k, end) == end || b[name_end(b, k, end)] < 0x80,
        attr_end(b, k, end) == end || b[attr_end(b, k, end)] < 0x80,
        tag_end(b, k, quote) == b.len() || (tag_end(b, k, quote) >= 1 && b[tag_end(b, k, quote) - 1] == 0x3e),
    decreases b.len() - k,
{
    lemma_tag_scans(b, k, end, quote);
    if k < b.len() {
        let q2 = match quote {
            Some(q) => if b[k] == q { None } else { quote },
            None => if is_quote(b[k]) { Some(b[k]) } else { None },
        };
        if k < end {
            lemma_tag_edges(b, k + 1, end, q2);
        } else {
            lemma_tag_edges(b, k + 1, b.len() as int, q2);
        }
    }
}

proof fn lemma_attr_tokens_within(b: Seq<u8>, k: int, j: int, expect: bool)
    requires
        0 <= k <= j <= b.len(),
        b.len() <= usize::MAX,
        edge(b, j),
        expect ==> edge(b, k),
    ensures
        tokens_within(b, attr_tokens(b, k, j, expect), k, j),
    decreases j - k,
{
    if k < j {
        let c = b[k];
        if is_ws(c) || c == 0x3e || c == 0x2f {
            lemma_attr_tokens_within(b, k + 1, j, expect);
        } else if is_quote(c) {
            let e = byte_end(b, k + 1, j, c);
            lemma_scan_bounds(b, k + 1, j, c);
            let e2 = if e < j { e + 1 } else { e };
            assert(edge(b, k));
            assert(edge(b, e2));
            lemma_within_one(b, k, e2, TokenKind::String, k, e2);
            lemma_attr_tokens_within(b, e2, j, true);
            lemma_within_concat(b, seq![tok(k, e2, TokenKind::String)], attr_tokens(b, e2, j, true), k, e2, j);
        } else if expect {
            let a = attr_end(b, k, j);
            lemma_tag_scans(b, k, j, None);
            lemma_tag_edges(b, k, j, None);
            assert(edge(b, a));
            lemma_within_one(b, k, a, TokenKind::Attribute, k, a);
            if a < j && b[a] == 0x3d {
                lemma_attr_tokens_within(b, a + 1, j, false);
                lemma_within_concat(b, seq![tok(k, a, TokenKind::Attribute)], attr_tokens(b, a + 1, j, false), k, a + 1, j);
            } else {
                lemma_attr_tokens_within(b, a, j, false);
                lemma_within_concat(b, seq![tok(k, a, TokenKind::Attribute)], attr_tokens(b, a, j, false), k, a, j);
            }
        } else {
            lemma_attr_tokens_within(b, k + 1, j, false);
        }
    }
}

proof fn lemma_tag_tokens_within(b: Seq<u8>, t: int, j: int)
    requires
        0 <= t,
        t + 1 <= j <= b.len(),
        b.len() <= usize::MAX,
        b[t] < 0x80,
        edge(b, j),
    ensures
        tokens_within(b, tag_tokens(b, t, j), t, j),
{
    let k0 = if t + 1 < j && b[t + 1] == 0x2f { t + 2 } else { t + 1 };
    assert(edge(b, k0));
    let ns = ws_end(b, k0, j);
    lemma_scan_bounds(b, k0, j, 0);
    lemma_ws_edge(b, k0, j);
    assert(edge(b, ns));
    let ne = name_end(b, ns, j);
    lemma_tag_scans(b, ns, j, None);
    lemma_tag_edges(b, ns, j, None);
    assert(edge(b, ne));
    let head = if ns < ne { seq![tok(ns, ne, TokenKind::Tag)] } else { Seq::<Token>::empty() };
    if ns < ne {
        lemma_within_one(b, ns, ne, TokenKind::Tag, t, ne);
    }
    lemma_attr_tokens_within(b, ne, j, true);
    lemma_within_concat(b, head, attr_tokens(b, ne, j, true), t, ne, j);
}

proof fn lemma_html_tokens_within(b: Seq<u8>, i: int)
    requires
        0 <= i <= b.len(),
        b.len() <= usize::MAX,
        edge(b, i),
    ensures
        tokens_within(b, html_tokens(b, i), i, b.len() as int),
    decreases b.len() - i,
{
    let len = b.len() as int;
    if i < len {
        if b[i] == 0x3c {
            if i + 4 <= len && b.subrange(i, i + 4) == html_comment_open() {
                lemma_find_bytes(b, i, html_comment_close());
                lemma_find_bytes_match(b, i, html_comment_close());
                let e = match find_bytes(b, i, html_comment_close()) {
                    Some(k) => k + 3,
                    None => len,
                };
                if let Some(k) = find_bytes(b, i, html_comment_close()) {
                    assert(b[k + 2] == b.subrange(k, k + 3)[2]);
                }
                assert(edge(b, e));
                lemma_within_one(b, i, e, TokenKind::Comment, i, e);
                lemma_html_tokens_within(b, e);
                lemma_within_concat(b, seq![tok(i, e, TokenKind::Comment)], html_tokens(b, e), i, e, len);
            } else {
                let j = tag_end(b, i + 1, None);
                lemma_tag_scans(b, i + 1, len, None);
                lemma_tag_edges(b, i + 1, len, None);
                assert(edge(b, j));
                lemma_tag_tokens_within(b, i, j);
                lemma_html_tokens_within(b, j);
                lemma_within_concat(b, tag_tokens(b, i, j), html_tokens(b, j), i, j, len);
            }
        } else {
            let p = byte_end(b, i, len, 0x3c);
            lemma_scan_bounds(b, i, len, 0x3c);
            lemma_scan_bounds(b, i + 1, len, 0x3c);
            assert(edge(b, p));
            lemma_within_one(b, i, p, TokenKind::Plain, i, p);
            lemma_html_tokens_within(b, p);
            lemma_within_concat(b, seq![tok(i, p, TokenKind::Plain)], html_tokens(b, p), i, p, len);
        }
    }
}

/// The tokens of a line, in either language, lie within the line, each from
/// an edge of it to another (the line's ends, or next to an ASCII byte, so
/// between two characters of UTF-8 text), in order and without overlapping.
pub proof fn law_tokens_lie_in_the_line(language: Language, line: Seq<u8>)
    requires
        line.len() <= usize::MAX,
    ensures
        tokens_within(line, line_tokens(language, line), 0, line.len() as int),
{
    match language {
        Language::Html => lemma_html_tokens_within(line, 0),
        Language::Css => lemma_css_tokens_within(line, 0),
    }
}


proof fn lemma_attr_tokens_from(b: Seq<u8>, k: int, j: int, expect: bool)
    requires
        0 <= k,
        b.len() <= usize::MAX,
    ensures
        forall|m: int| 0 <= m < attr_tokens(b, k, j, expect).len() ==> tok_start(
            #[trigger] attr_tokens(b, k, j, expect)[m],
        ) >= k,
        k < j <= b.len() && (is_ws(b[k]) || b[k] == 0x3e || b[k] == 0x2f) ==> forall|m: int|
            0 <= m < attr_tokens(b, k, j, expect).len() ==> tok_start(
                #[trigger] attr_tokens(b, k, j, expect)[m],
            ) > k,
    decreases j - k,
{
    let ts = attr_tokens(b, k, j, expect);
    if k < j && j <= b.len() {
        let c = b[k];
        if is_ws(c) || c == 0x3e || c == 0x2f {
            lemma_attr_tokens_from(b, k + 1, j, expect);
            assert(ts == attr_tokens(b, k + 1, j, expect));
        } else if is_quote(c) {
            let e = byte_end(b, k + 1, j, c);
            lemma_scan_bounds(b, k + 1, j, c);
            let e2 = if e < j { e + 1 } else { e };
            lemma_attr_tokens_from(b, e2, j, true);
            let rest = attr_tokens(b, e2, j, true);
            assert(ts == seq![tok(k, e2, TokenKind::String)] + rest);
            assert forall|m: int| 0 <= m < ts.len() implies tok_start(#[trigger] ts[m]) >= k by {
                if m > 0 {
                    assert(ts[m] == rest[m - 1]);
                }
            }
        } else if expect {
            let a = attr_end(b, k, j);
            lemma_tag_scans(b, k, j, None);
            let next = if a < j && b[a] == 0x3d { a + 1 } else { a };
            lemma_attr_tokens_from(b, next, j, false);
            let rest = attr_tokens(b, next, j, false);
            assert(ts == seq![tok(k, a, TokenKind::Attribute)] + rest);
            assert forall|m: int| 0 <= m < ts.len() implies tok_start(#[trigger] ts[m]) >= k by {
                if m > 0 {
                    assert(ts[m] == rest[m - 1]);
                }
            }
        } else {
            lemma_attr_tokens_from(b, k + 1, j, false);
            assert(ts == attr_tokens(b, k + 1, j, false));
        }
    } else {
        assert(ts.len() == 0);
    }
}

proof fn lemma_ws_end_stops(b: Seq<u8>, i: int, end: int)
    requires
        0 <= i <= end <= b.len(),
    ensures
        ws_end(b, i, end) < end ==> !is_ws(b[ws_end(b, i, end)]),
    decreases end - i,
{
    if i < end && is_ws(b[i]) {
        lemma_ws_end_stops(b, i + 1, end);
    }
}

proof fn lemma_tag_end_past(b: Seq<u8>, k: int, quote: Option<u8>)
    requires
        0 <= k < b.len(),
    ensures
        tag_end(b, k, quote) > k,
{
    lemma_tag_scans(b, k + 1, b.len() as int, None);
    lemma_tag_scans(b, k + 1, b.len() as int, Some(b[k]));
    lemma_tag_scans(b, k + 1, b.len() as int, quote);
}

/// In a tag `b[t..j]` opened by `<`, the name right after `<` (or after
/// `</`) is coloured as a tag: when the byte there is neither white space
/// nor `>`, the tag's first token is a `Tag` token starting there and running
/// to the first white space or `>`; and no token of the tag, an attribute
/// least of all, starts at or before that byte.
pub proof fn law_tag_name_is_a_tag_token(b: Seq<u8>, t: int, j: int)
    requires
        0 <= t,
        t + 1 < j <= b.len(),
        b.len() <= usize::MAX,
    ensures
        ({
            let s = if b[t + 1] == 0x2f { t + 2 } else { t + 1 };
            let ts = tag_tokens(b, t, j);
            &&& s < j && !is_ws(b[s]) && b[s] != 0x3e ==> ts.len() > 0 && ts[0] == tok(
                s,
                name_end(b, s, j),
                TokenKind::Tag,
            ) && s < name_end(b, s, j)
            &&& forall|m: int| 0 <= m < ts.len() && (#[trigger] ts[m]).1 != TokenKind::Tag ==> tok_start(ts[m]) > s
        }),
{
    let s = if b[t + 1] == 0x2f { t + 2 } else { t + 1 };
    let k0 = if t + 1 < j && b[t + 1] == 0x2f { t + 2 } else { t + 1 };
    assert(k0 == s);
    let ns = ws_end(b, k0, j);
    lemma_scan_bounds(b, k0, j, 0);
    let ne = name_end(b, ns, j);
    lemma_tag_scans(b, ns, j, None);
    let ts = tag_tokens(b, t, j);
    let head = if ns < ne { seq![tok(ns, ne, TokenKind::Tag)] } else { Seq::<Token>::empty() };
    let rest = attr_tokens(b, ne, j, true);
    assert(ts == head + rest);
    lemma_attr_tokens_from(b, ne, j, true);
    lemma_ws_end_stops(b, k0, j);
    if ns < j {
        lemma_tag_scans(b, ns + 1, j, None);
    }
    if s < j && !is_ws(b[s]) && b[s] != 0x3e {
        assert(ns == s);
        assert(ne > s);
    }
    assert(ns >= s);
    if ns == ne && ne < j {
        assert(b[ne] == 0x3e);
    }
    assert forall|m: int| 0 <= m < ts.len() && (#[trigger] ts[m]).1 != TokenKind::Tag implies tok_start(ts[m]) > s by {
        if ns < ne {
            if m > 0 {
                assert(ts[m] == rest[m - 1]);
            }
        } else {
            assert(ts[m] == rest[m]);
            if ns < j {
                if s < ns {
                } else {
                    assert(b[ns] == 0x3e);
                }
            }
        }
    }
}

/// A line that opens with a tag (not a comment) has the tag's name as its
/// first token, of kind `Tag`, right after the `<` or `</`.
pub proof fn law_line_opens_with_its_tag_name(line: Seq<u8>)
    requires
        line.len() <= usize::MAX,
        2 <= line.len(),
        line[0] == 0x3c,
        !(4 <= line.len() && line.subrange(0, 4) == html_comment_open()),
    ensures
        ({
            let s = if line[1] == 0x2f { 2int } else { 1int };
            let ts = line_tokens(Language::Html, line);
            s < line.len() && !is_ws(line[s]) && line[s] != 0x3e ==> ts.len() > 0 && ts[0].1 == TokenKind::Tag
                && tok_start(ts[0]) == s
        }),
{
    let j = tag_end(line, 1, None);
    lemma_tag_scans(line, 1, line.len() as int, None);
    let s = if line[1] == 0x2f { 2int } else { 1int };
    assert(html_tokens(line, 0) == tag_tokens(line, 0, j) + html_tokens(line, j));
    if s < line.len() && !is_ws(line[s]) && line[s] != 0x3e {
        if line[1] == 0x2f {
            lemma_tag_end_past(line, 2, None);
            assert(tag_end(line, 1, None) == tag_end(line, 2, None));
        } else {
            lemma_tag_end_past(line, 1, None);
        }
        law_tag_name_is_a_tag_token(line, 0, j);
        let tt = tag_tokens(line, 0, j);
        assert(html_tokens(line, 0)[0] == tt[0]);
    }
}

} // verus!
