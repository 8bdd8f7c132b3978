//! `/`-separated resource paths inside an unpacked book: components, file
//! names and extensions, lexical normalisation, resolution of references, and
//! the identifiers and percent-escapes found in them.
use vstd::prelude::*;
use vstd::string::StringSliceAdditionalSpecFns;

use crate::text::{
    char_is_alphanumeric, chars_of, find_char_from, is_white_space, join, lemma_find_char_from_result,
    push_char, push_range, push_str, split_char, starts_with, string_from, string_from_range, trim,
    trim_quote_bounds, trim_quotes,
    trim_bounds,
    unicode_alphanumeric,
};

verus! {

// ---------------------------------------------------------------------------
// Components
// ---------------------------------------------------------------------------

/// The named components of a path: the pieces between `/`, without empty
/// pieces and without `.` (as `Path::components` yields them).
pub open spec fn components(p: Seq<char>) -> Seq<Seq<char>> {
    split_char(p, '/').filter(|c: Seq<char>| c.len() > 0 && c != seq!['.'])
}

/// Whether a path is absolute, as on Unix: it starts with `/`. The path
/// model of this module is that of Unix systems throughout.
pub open spec fn is_absolute(p: Seq<char>) -> bool {
    p.len() > 0 && p[0] == '/'
}

/// The last component, unless the path ends in `..` or has none (`Path::file_name`).
pub open spec fn file_name(p: Seq<char>) -> Option<Seq<char>> {
    let cs = components(p);
    if cs.len() == 0 || cs.last() == seq!['.', '.'] {
        None
    } else {
        Some(cs.last())
    }
}

/// Position of the last `.` of `s`, if any.
pub open spec fn last_dot(s: Seq<char>, i: int) -> Option<int>
    decreases i,
{
    if i <= 0 || i > s.len() {
        None
    } else if s[i - 1] == '.' {
        Some(i - 1)
    } else {
        last_dot(s, i - 1)
    }
}

/// What follows the last `.` of the file name, when that `.` is not its first
/// character (`Path::extension`).
pub open spec fn extension(p: Seq<char>) -> Option<Seq<char>> {
    match file_name(p) {
        None => None,
        Some(name) => match last_dot(name, name.len() as int) {
            Some(d) => if d > 0 {
                Some(name.skip(d + 1))
            } else {
                None
            },
            None => None,
        },
    }
}

proof fn lemma_filter_single(x: Seq<char>, f: spec_fn(Seq<char>) -> bool)
    ensures
        seq![x].filter(f) == if f(x) { seq![x] } else { Seq::<Seq<char>>::empty() },
{
    Seq::<Seq<char>>::empty().lemma_filter_push(x, f);
    assert(seq![x] =~= Seq::<Seq<char>>::empty().push(x));
    assert(Seq::<Seq<char>>::empty().filter(f) =~= Seq::<Seq<char>>::empty());
}

/// Bounds of the pieces of `v` between `/` separators that are named components.
fn component_bounds(v: &Vec<char>) -> (r: Vec<(usize, usize)>)
    ensures
        crate::text::pieces(v@, r@) == components(v@),
        forall|k: int| 0 <= k < r.len() ==> (#[trigger] r@[k]).0 < r@[k].1 <= v.len(),
{
    let mut r: Vec<(usize, usize)> = Vec::new();
    let mut a: usize = 0;
    assert(v@.skip(0) =~= v@);
    loop
        invariant
            a <= v.len(),
            crate::text::pieces(v@, r@) + split_char(v@.skip(a as int), '/').filter(
                |c: Seq<char>| c.len() > 0 && c != seq!['.'],
            ) == components(v@),
            forall|k: int| 0 <= k < r.len() ==> (#[trigger] r@[k]).0 < r@[k].1 <= v.len(),
        decreases v.len() - a,
    {
        proof {
            crate::text::lemma_find_char_skip(v@, a as int, '/');
            lemma_find_char_from_result(v@, a as int, '/');
        }
        let end = match crate::text::find_char_exec(v, a, '/') {
            Some(i) => i,
            None => v.len(),
        };
        let ghost t = v@.skip(a as int);
        let ghost piece = v@.subrange(a as int, end as int);
        let ghost before = crate::text::pieces(v@, r@);
        let keep = end > a && !(end == a + 1 && v[a] == '.');
        proof {
            if end == a + 1 && v@[a as int] == '.' {
                assert(piece =~= seq!['.']);
            } else if piece == seq!['.'] {
                assert(seq!['.'].len() == 1);
                assert(piece.len() == end - a);
                assert(piece[0] == v@[a as int]);
            }
        }
        if keep {
            r.push((a, end));
        }
        proof {
            let f = |c: Seq<char>| c.len() > 0 && c != seq!['.'];
            assert(f(piece) == keep);
            if end < v.len() {
                assert(t.take(end - a) =~= piece);
                assert(t.skip(end - a + 1) =~= v@.skip(end + 1));
                let ps = split_char(t, '/');
                assert(ps =~= seq![piece] + split_char(v@.skip(end + 1), '/'));
                Seq::filter_distributes_over_add(seq![piece], split_char(v@.skip(end + 1), '/'), f);
                lemma_filter_single(piece, f);
                if keep {
                    assert(crate::text::pieces(v@, r@) =~= before.push(piece));
                    assert(seq![piece].filter(f) =~= seq![piece]);
                    assert(before.push(piece) + split_char(v@.skip(end + 1), '/').filter(f) =~= before + (seq![piece] + split_char(v@.skip(end + 1), '/').filter(f)));
                } else {
                    assert(seq![piece].filter(f) =~= Seq::<Seq<char>>::empty());
                    assert(Seq::<Seq<char>>::empty() + split_char(v@.skip(end + 1), '/').filter(f) =~= split_char(v@.skip(end + 1), '/').filter(f));
                }
            } else {
                assert(t =~= piece);
                assert(split_char(t, '/') =~= seq![piece]);
                lemma_filter_single(piece, f);
                if keep {
                    assert(seq![piece].filter(f) =~= seq![piece]);
                    assert(crate::text::pieces(v@, r@) =~= before.push(piece));
                    assert(before.push(piece) =~= before + seq![piece]);
                } else {
                    assert(seq![piece].filter(f) =~= Seq::<Seq<char>>::empty());
                    assert(before + Seq::<Seq<char>>::empty() =~= before);
                }
            }
        }
        if end == v.len() {
            return r;
        }
        a = end + 1;
    }
}


// ---------------------------------------------------------------------------
// Lexical normalisation
// ---------------------------------------------------------------------------

/// The components after `..` has removed the one before it (nothing, when
/// there is none) and every other component has been kept.
pub open spec fn resolve_dots(cs: Seq<Seq<char>>) -> Seq<Seq<char>>
    decreases cs.len(),
{
    if cs.len() == 0 {
        Seq::empty()
    } else {
        let st = resolve_dots(cs.drop_last());
        if cs.last() == seq!['.', '.'] {
            if st.len() > 0 {
                st.drop_last()
            } else {
                st
            }
        } else {
            st.push(cs.last())
        }
    }
}

/// A path with `.` removed and each `..` folded into the component before it,
/// absolute when the input is.
pub open spec fn normalized(p: Seq<char>) -> Seq<char> {
    (if is_absolute(p) {
        seq!['/']
    } else {
        Seq::<char>::empty()
    }) + join(resolve_dots(components(p)), seq!['/'])
}

/// Splitting at a `/` splits each side on its own.
pub proof fn lemma_split_at_separator(a: Seq<char>, b: Seq<char>)
    ensures
        split_char(a + seq!['/'] + b, '/') == split_char(a, '/') + split_char(b, '/'),
    decreases a.len(),
{
    let s = a + seq!['/'] + b;
    lemma_find_char_from_result(a, 0, '/');
    lemma_find_char_from_result(s, 0, '/');
    match find_char_from(a, 0, '/') {
        Some(i) => {
            assert(s[i] == '/');
            let fi = find_char_from(s, 0, '/');
            assert(fi == Some(i)) by {
                if fi is None {
                    assert(s[i] != '/');
                } else {
                    let k = fi->0;
                    if k < i {
                        assert(s[k] == a[k]);
                    }
                    if k > i {
                        assert(s[i] != '/');
                    }
                }
            }
            let rest = a.skip(i + 1);
            lemma_split_at_separator(rest, b);
            assert(s.take(i) =~= a.take(i));
            assert(s.skip(i + 1) =~= rest + seq!['/'] + b);
            assert(split_char(s, '/') == seq![a.take(i)] + split_char(s.skip(i + 1), '/'));
            assert(split_char(a, '/') == seq![a.take(i)] + split_char(rest, '/'));
            assert(split_char(s, '/') =~= split_char(a, '/') + split_char(b, '/'));
        },
        None => {
            let fi = find_char_from(s, 0, '/');
            assert(s[a.len() as int] == '/');
            assert(fi == Some(a.len() as int)) by {
                if fi is None {
                    assert(s[a.len() as int] != '/');
                } else {
                    let k = fi->0;
                    if k < a.len() {
                        assert(s[k] == a[k]);
                    }
                    if k > a.len() {
                        assert(s[a.len() as int] != '/');
                    }
                }
            }
            assert(s.take(a.len() as int) =~= a);
            assert(s.skip(a.len() as int + 1) =~= b);
            assert(split_char(a, '/') == seq![a]);
            assert(split_char(s, '/') =~= split_char(a, '/') + split_char(b, '/'));
        },
    }
}

proof fn lemma_split_without_separator(x: Seq<char>)
    requires
        forall|i: int| 0 <= i < x.len() ==> x[i] != '/',
    ensures
        split_char(x, '/') == seq![x],
{
    lemma_find_char_from_result(x, 0, '/');
    if find_char_from(x, 0, '/') is Some {
        let i = find_char_from(x, 0, '/')->0;
        assert(x[i] == '/');
    }
}

/// `..` after an ordinary component takes that component away again: for a
/// path `p` and a component `x` (not empty, not `.` or `..`, without `/`),
/// `p/x/..` normalises to what `p` does.
pub proof fn law_parent_cancels_component(p: Seq<char>, x: Seq<char>)
    requires
        p.len() > 0,
        x.len() > 0,
        x != seq!['.'],
        x != seq!['.', '.'],
        forall|i: int| 0 <= i < x.len() ==> x[i] != '/',
    ensures
        normalized(p + seq!['/'] + x + seq!['/', '.', '.']) == normalized(p),
{
    let dd: Seq<char> = seq!['.', '.'];
    let tail = x + seq!['/'] + dd;
    let q = p + seq!['/'] + tail;
    assert(q =~= p + seq!['/'] + x + seq!['/', '.', '.']);
    lemma_split_at_separator(p, tail);
    lemma_split_at_separator(x, dd);
    lemma_split_without_separator(x);
    lemma_split_without_separator(dd);
    let f = |c: Seq<char>| c.len() > 0 && c != seq!['.'];
    let sp = split_char(p, '/');
    assert(split_char(q, '/') =~= sp + (seq![x] + seq![dd]));
    Seq::filter_distributes_over_add(sp, seq![x] + seq![dd], f);
    Seq::filter_distributes_over_add(seq![x], seq![dd], f);
    lemma_filter_single(x, f);
    lemma_filter_single(dd, f);
    assert(dd != seq!['.']) by {
        assert(dd.len() != seq!['.'].len());
    }
    let cs = components(p);
    assert(components(q) =~= cs + seq![x, dd]);
    let with_x = cs + seq![x];
    assert((cs + seq![x, dd]).drop_last() =~= with_x);
    assert(with_x.drop_last() =~= cs);
    assert(resolve_dots(with_x) =~= resolve_dots(cs).push(x));
    assert(resolve_dots(cs + seq![x, dd]) =~= resolve_dots(cs));
    assert(q[0] == p[0]);
}

/// Lexical normalisation of a path: `.` components are dropped, `..` removes
/// the preceding component, repeated separators disappear.
pub fn normalize_path(path: &str) -> (r: String)
    ensures
        r@ == normalized(path@),
{
    let v = chars_of(path);
    let comps = component_bounds(&v);
    let mut stack: Vec<(usize, usize)> = Vec::new();
    let mut k: usize = 0;
    while k < comps.len()
        invariant
            k <= comps.len(),
            crate::text::pieces(v@, comps@) == components(v@),
            forall|j: int| 0 <= j < comps.len() ==> (#[trigger] comps@[j]).0 < comps@[j].1 <= v.len(),
            forall|j: int| 0 <= j < stack.len() ==> (#[trigger] stack@[j]).0 <= stack@[j].1 <= v.len(),
            crate::text::pieces(v@, stack@) == resolve_dots(crate::text::pieces(v@, comps@).take(k as int)),
        decreases comps.len() - k,
    {
        let (a, b) = comps[k];
        let ghost cs = crate::text::pieces(v@, comps@);
        let ghost before = crate::text::pieces(v@, stack@);
        let ghost piece = v@.subrange(a as int, b as int);
        proof {
            assert(cs.take(k + 1).drop_last() =~= cs.take(k as int));
            assert(cs.take(k + 1).last() == piece);
        }
        let dots = b - a == 2 && v[a] == '.' && v[a + 1] == '.';
        proof {
            if dots {
                assert(piece =~= seq!['.', '.']);
            } else if piece == seq!['.', '.'] {
                assert(piece.len() == 2 && piece[0] == v@[a as int] && piece[1] == v@[a + 1]);
            }
        }
        if dots {
            if stack.len() > 0 {
                stack.pop();
                proof {
                    assert(crate::text::pieces(v@, stack@) =~= before.drop_last());
                }
            }
        } else {
            stack.push((a, b));
            proof {
                assert(crate::text::pieces(v@, stack@) =~= before.push(piece));
            }
        }
        k += 1;
    }
    proof {
        assert(crate::text::pieces(v@, comps@).take(comps.len() as int) =~= crate::text::pieces(v@, comps@));
    }
    let sep = vec!['/'];
    let joined = crate::text::join_pieces(&v, &stack, &sep);
    let mut r = String::new();
    if v.len() > 0 && v[0] == '/' {
        push_char(&mut r, '/');
    }
    push_str(&mut r, joined.as_str());
    proof {
        assert(sep@ =~= seq!['/']);
        if !is_absolute(v@) {
            assert(r@ =~= Seq::<char>::empty() + joined@);
        }
    }
    r
}

// ---------------------------------------------------------------------------
// Joining and `url(..)` references
// ---------------------------------------------------------------------------

/// `Path::join`: an absolute `rel` replaces `base`; otherwise `rel` follows
/// `base`, with one `/` between them unless `base` is empty or ends in one.
pub open spec fn path_join(base: Seq<char>, rel: Seq<char>) -> Seq<char> {
    if is_absolute(rel) {
        rel
    } else if base.len() == 0 || base.last() == '/' {
        base + rel
    } else {
        base + seq!['/'] + rel
    }
}

pub fn join_path(base: &str, rel: &str) -> (r: String)
    ensures
        r@ == path_join(base@, rel@),
{
    let b = chars_of(base);
    let t = chars_of(rel);
    if t.len() > 0 && t[0] == '/' {
        return string_from(&t);
    }
    let mut r = string_from(&b);
    if b.len() > 0 && b[b.len() - 1] != '/' {
        push_char(&mut r, '/');
    }
    push_range(&mut r, &t, 0, t.len());
    proof {
        assert(t@.subrange(0, t@.len() as int) =~= t@);
    }
    r
}

pub open spec fn url_open() -> Seq<char> {
    seq!['u', 'r', 'l', '(']
}

/// A value without a surrounding `url(` and `)`: the prefix and the suffix
/// are each removed where present.
pub open spec fn unwrap_url(s1: Seq<char>) -> Seq<char> {
    let s2 = if starts_with(s1, url_open()) {
        s1.skip(4)
    } else {
        s1
    };
    if s2.len() > 0 && s2.last() == ')' {
        s2.drop_last()
    } else {
        s2
    }
}

/// The target of a CSS `src` value: trimmed, without a surrounding `url(` and
/// `)`, without surrounding quotes.
pub open spec fn css_url_target(src: Seq<char>) -> Seq<char> {
    trim_quotes(trim(unwrap_url(trim(src))))
}

fn unwrap_url_bounds(v: &Vec<char>, a0: usize, b0: usize) -> (r: (usize, usize))
    requires
        a0 <= b0 <= v.len(),
    ensures
        a0 <= r.0 <= r.1 <= b0,
        v@.subrange(r.0 as int, r.1 as int) == unwrap_url(v@.subrange(a0 as int, b0 as int)),
{
    let ghost s1 = v@.subrange(a0 as int, b0 as int);
    let open = vec!['u', 'r', 'l', '('];
    let mut a = a0;
    let m = b0 - a0 >= 4 && crate::text::matches_at_exec(&v, a0, &open);
    proof {
        assert(open@ =~= url_open());
        if b0 - a0 >= 4 {
            assert(s1.take(4) =~= v@.subrange(a0 as int, a0 + 4));
            assert(s1.skip(4) =~= v@.subrange(a0 + 4, b0 as int));
        }
        assert(m == starts_with(s1, url_open()));
    }
    if m {
        a = a0 + 4;
    }
    let ghost s2 = v@.subrange(a as int, b0 as int);
    let mut b = b0;
    if b > a && v[b - 1] == ')' {
        b = b - 1;
        proof {
            assert(s2.drop_last() =~= v@.subrange(a as int, b as int));
        }
    }
    (a, b)
}

/// The file a CSS `src` value points at, resolved against the directory of
/// the style sheet and normalised.
pub fn resolve_css_url(src: &str, base_dir: &str) -> (r: String)
    ensures
        r@ == normalized(path_join(base_dir@, css_url_target(src@))),
{
    let v = chars_of(src);
    let (a0, b0) = trim_bounds(&v, 0, v.len());
    proof {
        assert(v@.subrange(0, v@.len() as int) =~= v@);
    }
    let (a, b) = unwrap_url_bounds(&v, a0, b0);
    let (c, d) = trim_bounds(&v, a, b);
    let (e, f) = trim_quote_bounds(&v, c, d);
    let target = string_from_range(&v, e, f);
    let joined = join_path(base_dir, target.as_str());
    normalize_path(joined.as_str())
}

// ---------------------------------------------------------------------------
// Parents, prefixes and references from a document
// ---------------------------------------------------------------------------

/// Whether the path begins with a `.` component (`./x`, `.`), which
/// `Path::components` reports as the current directory.
pub open spec fn leads_with_cur_dir(p: Seq<char>) -> bool {
    !is_absolute(p) && p.len() > 0 && p[0] == '.' && (p.len() == 1 || p[1] == '/')
}

/// All components as `Path::components` yields them: the root (written `/`)
/// or a leading current directory (written `.`), then the named components.
pub open spec fn raw_components(p: Seq<char>) -> Seq<Seq<char>> {
    (if is_absolute(p) {
        seq![seq!['/']]
    } else if leads_with_cur_dir(p) {
        seq![seq!['.']]
    } else {
        Seq::<Seq<char>>::empty()
    }) + components(p)
}

/// `Path::starts_with`: the components of `base` are the first components of `p`.
pub open spec fn path_starts_with(p: Seq<char>, base: Seq<char>) -> bool {
    let rp = raw_components(p);
    let rb = raw_components(base);
    rb.len() <= rp.len() && rp.take(rb.len() as int) == rb
}

/// What is written before the named components of a parent: the root, or
/// the leading current directory.
pub open spec fn root_prefix(p: Seq<char>) -> Seq<char> {
    if is_absolute(p) {
        seq!['/']
    } else if leads_with_cur_dir(p) {
        seq!['.', '/']
    } else {
        Seq::<char>::empty()
    }
}

/// `Path::parent`, written with single separators: every component but the
/// last; nothing for the root alone or an empty path.
pub open spec fn parent_path(p: Seq<char>) -> Option<Seq<char>> {
    let cs = components(p);
    if cs.len() > 0 {
        Some(root_prefix(p) + join(cs.drop_last(), seq!['/']))
    } else if leads_with_cur_dir(p) {
        Some(Seq::<char>::empty())
    } else {
        None
    }
}

pub open spec fn vec_views(vs: Seq<Vec<char>>) -> Seq<Seq<char>> {
    vs.map_values(|v: Vec<char>| v@)
}

fn leads_with_cur_dir_exec(v: &Vec<char>) -> (b: bool)
    ensures
        b == leads_with_cur_dir(v@),
{
    v.len() > 0 && v[0] == '.' && (v.len() == 1 || v[1] == '/')
}

/// The components of a path, each copied out.
fn component_list(v: &Vec<char>) -> (r: Vec<Vec<char>>)
    ensures
        vec_views(r@) == components(v@),
{
    let b = component_bounds(v);
    let mut r: Vec<Vec<char>> = Vec::new();
    let mut k: usize = 0;
    while k < b.len()
        invariant
            k <= b.len(),
            forall|j: int| 0 <= j < b.len() ==> (#[trigger] b@[j]).0 < b@[j].1 <= v.len(),
            vec_views(r@) == crate::text::pieces(v@, b@).take(k as int),
        decreases b.len() - k,
    {
        let (x, y) = b[k];
        let piece = crate::text::sub_vec(v, x, y);
        let ghost before = r@;
        r.push(piece);
        proof {
            assert(crate::text::pieces(v@, b@)[k as int] == v@.subrange(x as int, y as int));
            assert(r@ == before.push(piece));
            assert(vec_views(r@) =~= vec_views(before).push(piece@));
            assert(vec_views(r@) =~= crate::text::pieces(v@, b@).take(k + 1));
        }
        k += 1;
    }
    proof {
        assert(crate::text::pieces(v@, b@).take(b.len() as int) =~= crate::text::pieces(v@, b@));
    }
    r
}

/// `raw_components`, each copied out.
fn raw_component_list(v: &Vec<char>) -> (r: Vec<Vec<char>>)
    ensures
        vec_views(r@) == raw_components(v@),
{
    let cs = component_list(v);
    let mut r: Vec<Vec<char>> = Vec::new();
    if v.len() > 0 && v[0] == '/' {
        let root = vec!['/'];
        assert(root@ =~= seq!['/']);
        r.push(root);
        assert(vec_views(r@) =~= seq![seq!['/']]);
    } else if leads_with_cur_dir_exec(v) {
        let cur = vec!['.'];
        assert(cur@ =~= seq!['.']);
        r.push(cur);
        assert(vec_views(r@) =~= seq![seq!['.']]);
    } else {
        assert(vec_views(r@) =~= Seq::<Seq<char>>::empty());
    }
    let ghost head = vec_views(r@);
    let mut k: usize = 0;
    while k < cs.len()
        invariant
            k <= cs.len(),
            vec_views(r@) == head + vec_views(cs@).take(k as int),
        decreases cs.len() - k,
    {
        let c = crate::text::sub_vec(&cs[k], 0, cs[k].len());
        let ghost before = r@;
        r.push(c);
        proof {
            assert(c@ =~= cs@[k as int]@);
            assert(vec_views(r@) =~= vec_views(before).push(c@));
            assert(vec_views(r@) =~= head + vec_views(cs@).take(k + 1));
        }
        k += 1;
    }
    proof {
        assert(vec_views(cs@).take(cs.len() as int) =~= vec_views(cs@));
    }
    r
}

fn vec_eq(a: &Vec<char>, b: &Vec<char>) -> (r: bool)
    ensures
        r == (a@ == b@),
{
    let r = crate::text::range_eq(a, 0, a.len(), b);
    assert(a@.subrange(0, a@.len() as int) =~= a@);
    r
}

/// `Path::starts_with` on two paths.
pub fn path_starts_with_exec(p: &str, base: &str) -> (r: bool)
    ensures
        r == path_starts_with(p@, base@),
{
    let pv = chars_of(p);
    let bv = chars_of(base);
    let rp = raw_component_list(&pv);
    let rb = raw_component_list(&bv);
    assert(vec_views(rb@).len() == rb@.len() && vec_views(rp@).len() == rp@.len());
    if rb.len() > rp.len() {
        return false;
    }
    let mut k: usize = 0;
    while k < rb.len()
        invariant
            rb.len() <= rp.len(),
            k <= rb.len(),
            forall|j: int| 0 <= j < k ==> vec_views(rp@)[j] == vec_views(rb@)[j],
            vec_views(rp@) == raw_components(p@),
            vec_views(rb@) == raw_components(base@),
            vec_views(rb@).len() == rb@.len(),
            vec_views(rp@).len() == rp@.len(),
        decreases rb.len() - k,
    {
        if !vec_eq(&rp[k], &rb[k]) {
            proof {
                assert(vec_views(rp@)[k as int] == rp@[k as int]@);
                assert(vec_views(rb@)[k as int] == rb@[k as int]@);
                assert(vec_views(rp@).take(rb.len() as int)[k as int] != vec_views(rb@)[k as int]);
            }
            return false;
        }
        k += 1;
    }
    proof {
        assert(vec_views(rp@).take(rb.len() as int) =~= vec_views(rb@));
    }
    true
}

fn join_vecs(parts: &Vec<Vec<char>>, upto: usize, sep: char) -> (r: String)
    requires
        upto <= parts.len(),
    ensures
        r@ == join(vec_views(parts@).take(upto as int), seq![sep]),
{
    let mut r = String::new();
    let mut k: usize = 0;
    while k < upto
        invariant
            k <= upto <= parts.len(),
            r@ == join(vec_views(parts@).take(k as int), seq![sep]),
        decreases upto - k,
    {
        if k > 0 {
            push_char(&mut r, sep);
        }
        push_range(&mut r, &parts[k], 0, parts[k].len());
        proof {
            let q = vec_views(parts@).take(k + 1);
            assert(q.drop_last() =~= vec_views(parts@).take(k as int));
            assert(parts@[k as int]@.subrange(0, parts@[k as int]@.len() as int) =~= q.last());
            if k == 0 {
                assert(q.len() == 1);
                assert(r@ =~= q[0]);
            } else {
                assert(r@ =~= join(q.drop_last(), seq![sep]) + seq![sep] + q.last());
            }
        }
        k += 1;
    }
    r
}

/// `Path::parent`, written with single separators.
pub fn parent_of(p: &str) -> (r: Option<String>)
    ensures
        r matches Some(x) ==> parent_path(p@) == Some(x@),
        r is None ==> parent_path(p@) is None,
{
    let v = chars_of(p);
    let cs = component_list(&v);
    let cur = leads_with_cur_dir_exec(&v);
    if cs.len() > 0 {
        let mut r = String::new();
        if v.len() > 0 && v[0] == '/' {
            push_char(&mut r, '/');
        } else if cur {
            push_char(&mut r, '.');
            push_char(&mut r, '/');
        }
        let ghost head = r@;
        let rest = join_vecs(&cs, cs.len() - 1, '/');
        push_str(&mut r, rest.as_str());
        proof {
            assert(vec_views(cs@).take(cs.len() - 1) =~= vec_views(cs@).drop_last());
            if is_absolute(v@) {
                assert(head =~= seq!['/']);
            } else if cur {
                assert(head =~= seq!['.', '/']);
            } else {
                assert(head =~= Seq::<char>::empty());
            }
        }
        Some(r)
    } else if cur {
        Some(String::new())
    } else {
        None
    }
}

/// Where the query or fragment of a reference begins (its length if neither).
pub open spec fn query_start(s: Seq<char>, i: int) -> int
    decreases s.len() - i,
{
    if i >= s.len() || i < 0 {
        s.len() as int
    } else if s[i] == '?' || s[i] == '#' {
        i
    } else {
        query_start(s, i + 1)
    }
}

pub open spec fn leading_slashes(s: Seq<char>) -> nat
    decreases s.len(),
{
    if s.len() > 0 && s[0] == '/' {
        1 + leading_slashes(s.skip(1))
    } else {
        0
    }
}

pub open spec fn data_scheme() -> Seq<char> {
    seq!['d', 'a', 't', 'a', ':']
}

pub open spec fn scheme_separator() -> Seq<char> {
    seq![':', '/', '/']
}

/// The file a resource reference of a document points at: none for an empty
/// reference, a fragment, a `data:` URI or a URL with a scheme; otherwise the
/// reference without query and fragment, from the book's root when it starts
/// with `/` and from the document's directory otherwise, normalised, and
/// kept only when it stays inside the book's root.
pub open spec fn resolved_resource(chapter: Seq<char>, root: Seq<char>, src: Seq<char>) -> Option<
    Seq<char>,
> {
    let s = trim(src);
    if s.len() == 0 || s[0] == '#' || starts_with(s, data_scheme()) || crate::text::find_from(
        s,
        0,
        scheme_separator(),
    ) is Some {
        None
    } else {
        let resource = s.take(query_start(s, 0));
        let relative = resource.skip(leading_slashes(resource) as int);
        let base = if resource.len() > 0 && resource[0] == '/' {
            Some(root)
        } else {
            parent_path(chapter)
        };
        match base {
            None => None,
            Some(b) => {
                let resolved = normalized(path_join(b, relative));
                if path_starts_with(resolved, root) {
                    Some(resolved)
                } else {
                    None
                }
            },
        }
    }
}

pub proof fn lemma_query_start_bound(s: Seq<char>, i: int)
    requires
        0 <= i <= s.len(),
    ensures
        i <= query_start(s, i) <= s.len(),
    decreases s.len() - i,
{
    if i < s.len() && !(s[i] == '?' || s[i] == '#') {
        lemma_query_start_bound(s, i + 1);
    }
}

/// Resolves a resource reference found in a document of the book; see
/// `resolved_resource`.
pub fn resolve_resource_path(chapter_path: &str, epub_root: &str, src: &str) -> (r: Option<String>)
    ensures
        r matches Some(x) ==> resolved_resource(chapter_path@, epub_root@, src@) == Some(x@),
        r is None ==> resolved_resource(chapter_path@, epub_root@, src@) is None,
{
    let v = chars_of(src);
    let (a, b) = trim_bounds(&v, 0, v.len());
    proof {
        assert(v@.subrange(0, v@.len() as int) =~= v@);
    }
    let s = crate::text::sub_vec(&v, a, b);
    if s.len() == 0 || s[0] == '#' {
        return None;
    }
    let data = vec!['d', 'a', 't', 'a', ':'];
    let sep = vec![':', '/', '/'];
    let is_data = crate::text::matches_at_exec(&s, 0, &data);
    proof {
        assert(data@ =~= data_scheme());
        assert(sep@ =~= scheme_separator());
        if data_scheme().len() <= s@.len() {
            assert(s@.take(5) =~= s@.subrange(0, 5));
        }
    }
    if is_data {
        return None;
    }
    if crate::text::find_exec(&s, 0, &sep).is_some() {
        return None;
    }
    let mut q: usize = 0;
    while q < s.len() && s[q] != '?' && s[q] != '#'
        invariant
            q <= s.len(),
            query_start(s@, 0) == query_start(s@, q as int),
        decreases s.len() - q,
    {
        q += 1;
    }
    proof {
        lemma_query_start_bound(s@, 0);
    }
    let ghost resource = s@.take(q as int);
    let mut t: usize = 0;
    while t < q && s[t] == '/'
        invariant
            t <= q <= s.len(),
            resource == s@.take(q as int),
            leading_slashes(resource) == t + leading_slashes(s@.subrange(t as int, q as int)),
        decreases q - t,
    {
        assert(s@.subrange(t as int, q as int).skip(1) =~= s@.subrange(t + 1, q as int));
        t += 1;
    }
    proof {
        assert(resource =~= s@.subrange(0, q as int));
        assert(resource.skip(leading_slashes(resource) as int) =~= s@.subrange(t as int, q as int));
    }
    let relative = string_from_range(&s, t, q);
    let base: String;
    if q > 0 && s[0] == '/' {
        base = string_from(&chars_of(epub_root));
    } else {
        match parent_of(chapter_path) {
            Some(p) => {
                base = p;
            },
            None => {
                return None;
            },
        }
    }
    let joined = join_path(base.as_str(), relative.as_str());
    let resolved = normalize_path(joined.as_str());
    if path_starts_with_exec(resolved.as_str(), epub_root) {
        Some(resolved)
    } else {
        None
    }
}

// ---------------------------------------------------------------------------
// Identifiers and percent-escapes
// ---------------------------------------------------------------------------

/// Each alphanumeric character and `-` kept, every other character `_`.
pub open spec fn sanitized_id(s: Seq<char>) -> Seq<char> {
    Seq::new(
        s.len(),
        |i: int|
            if unicode_alphanumeric(s[i]) || s[i] == '-' {
                s[i]
            } else {
                '_'
            },
    )
}

/// An identifier safe for an XML `id`: letters, digits (in the Unicode sense)
/// and `-` are kept, anything else becomes `_`.
pub fn sanitize_id(id: &str) -> (r: String)
    ensures
        r@ == sanitized_id(id@),
{
    let v = chars_of(id);
    let mut r = String::new();
    let mut i: usize = 0;
    while i < v.len()
        invariant
            i <= v.len(),
            v@ == id@,
            r@ == sanitized_id(v@).take(i as int),
        decreases v.len() - i,
    {
        let c = v[i];
        if char_is_alphanumeric(c) || c == '-' {
            push_char(&mut r, c);
        } else {
            push_char(&mut r, '_');
        }
        assert(r@ =~= sanitized_id(v@).take(i + 1));
        i += 1;
    }
    assert(sanitized_id(v@).take(v.len() as int) =~= sanitized_id(v@));
    r
}

/// The value of an ASCII hexadecimal digit.
pub open spec fn hex_digit(b: u8) -> Option<u8> {
    if 0x30 <= b <= 0x39 {
        Some((b - 0x30) as u8)
    } else if 0x61 <= b <= 0x66 {
        Some((b - 0x61 + 10) as u8)
    } else if 0x41 <= b <= 0x46 {
        Some((b - 0x41 + 10) as u8)
    } else {
        None
    }
}

pub fn hex_value(byte: u8) -> (r: Option<u8>)
    ensures
        r == hex_digit(byte),
{
    if 0x30 <= byte && byte <= 0x39 {
        Some(byte - 0x30)
    } else if 0x61 <= byte && byte <= 0x66 {
        Some(byte - 0x61 + 10)
    } else if 0x41 <= byte && byte <= 0x46 {
        Some(byte - 0x41 + 10)
    } else {
        None
    }
}

/// The bytes with each `%` followed by two hexadecimal digits replaced by the
/// byte they spell; every other byte kept.
pub open spec fn percent_bytes(b: Seq<u8>) -> Seq<u8>
    decreases b.len(),
{
    if b.len() == 0 {
        b
    } else if b[0] == 0x25 && b.len() > 2 && hex_digit(b[1]) is Some && hex_digit(b[2]) is Some {
        seq![(hex_digit(b[1])->0 * 16 + hex_digit(b[2])->0) as u8] + percent_bytes(b.skip(3))
    } else {
        seq![b[0]] + percent_bytes(b.skip(1))
    }
}

/// What `String::from_utf8_lossy` makes of a byte sequence.
pub uninterp spec fn utf8_lossy(bytes: Seq<u8>) -> Seq<char>;

/// `String::from_utf8_lossy`. The result is named `utf8_lossy`; on valid UTF-8
/// the documentation promises the text those bytes encode. What replaces
/// invalid sequences is left unstated beyond the name.
#[verifier::external_body]
fn from_utf8_lossy(bytes: &[u8]) -> (r: String)
    ensures
        r@ == utf8_lossy(bytes@),
        vstd::utf8::valid_utf8(bytes@) ==> r@ == vstd::utf8::decode_utf8(bytes@),
{
    String::from_utf8_lossy(bytes).into_owned()
}

/// Replaces percent-escapes in a byte string; see `percent_bytes`.
pub fn percent_decode_bytes(bytes: &[u8]) -> (r: Vec<u8>)
    ensures
        r@ == percent_bytes(bytes@),
{
    let mut decoded: Vec<u8> = Vec::new();
    let mut i: usize = 0;
    assert(bytes@.skip(0) =~= bytes@);
    assert(decoded@ + percent_bytes(bytes@) =~= percent_bytes(bytes@));
    while i < bytes.len()
        invariant
            i <= bytes.len(),
            decoded@ + percent_bytes(bytes@.skip(i as int)) == percent_bytes(bytes@),
        decreases bytes.len() - i,
    {
        let ghost rest = bytes@.skip(i as int);
        let ghost before = decoded@;
        if bytes[i] == 0x25 && bytes.len() - i > 2 {
            let hi = hex_value(bytes[i + 1]);
            let lo = hex_value(bytes[i + 2]);
            if let (Some(h), Some(l)) = (hi, lo) {
                decoded.push(h * 16 + l);
                proof {
                    assert(rest[1] == bytes@[i + 1] && rest[2] == bytes@[i + 2]);
                    assert(rest.skip(3) =~= bytes@.skip(i + 3));
                    assert(decoded@ + percent_bytes(bytes@.skip(i + 3)) =~= before + percent_bytes(rest));
                }
                i += 3;
                continue;
            }
        }
        decoded.push(bytes[i]);
        proof {
            assert(rest[0] == bytes@[i as int]);
            if rest.len() > 2 {
                assert(rest[1] == bytes@[i + 1] && rest[2] == bytes@[i + 2]);
            }
            assert(rest.skip(1) =~= bytes@.skip(i + 1));
            assert(decoded@ + percent_bytes(bytes@.skip(i + 1)) =~= before + percent_bytes(rest));
        }
        i += 1;
    }
    assert(bytes@.skip(bytes.len() as int) =~= Seq::<u8>::empty());
    assert(decoded@ + Seq::<u8>::empty() =~= decoded@);
    decoded
}

/// Decodes percent-escapes in a reference taken from a document, then reads
/// the bytes as UTF-8, replacing what is not.
pub fn percent_decode(input: &str) -> (r: String)
    ensures
        r@ == utf8_lossy(percent_bytes(input.spec_bytes())),
        vstd::utf8::valid_utf8(percent_bytes(input.spec_bytes())) ==> r@ == vstd::utf8::decode_utf8(
            percent_bytes(input.spec_bytes()),
        ),
{
    let decoded = percent_decode_bytes(input.as_bytes());
    from_utf8_lossy(decoded.as_slice())
}

/// Whether two paths name the same file: each is compared in its canonical
/// form where the file system gave one, and in its lexically normalised form
/// otherwise.
pub fn paths_equivalent(
    left: &str,
    left_canonical: Option<String>,
    right: &str,
    right_canonical: Option<String>,
) -> (r: bool)
    ensures
        r == ((match left_canonical {
            Some(c) => c@,
            None => normalized(left@),
        }) == (match right_canonical {
            Some(c) => c@,
            None => normalized(right@),
        })),
{
    let l = match left_canonical {
        Some(c) => c,
        None => normalize_path(left),
    };
    let r = match right_canonical {
        Some(c) => c,
        None => normalize_path(right),
    };
    crate::text::str_eq(l.as_str(), r.as_str())
}

// ---------------------------------------------------------------------------
// File names and extensions
// ---------------------------------------------------------------------------

/// `Path::file_name`, copied out.
pub fn file_name_of(v: &Vec<char>) -> (r: Option<Vec<char>>)
    ensures
        r matches Some(n) ==> file_name(v@) == Some(n@),
        r is None ==> file_name(v@) is None,
{
    let mut cs = component_list(v);
    if cs.len() == 0 {
        return None;
    }
    let ghost views = vec_views(cs@);
    let name = cs.pop().unwrap();
    proof {
        assert(views.last() == name@);
    }
    if name.len() == 2 && name[0] == '.' && name[1] == '.' {
        proof {
            assert(name@ =~= seq!['.', '.']);
        }
        return None;
    }
    proof {
        if name@ == seq!['.', '.'] {
            assert(name@.len() == 2 && name@[0] == '.' && name@[1] == '.');
        }
    }
    Some(name)
}

/// `Path::extension`, copied out.
pub fn file_extension(path: &str) -> (r: Option<Vec<char>>)
    ensures
        r matches Some(e) ==> extension(path@) == Some(e@),
        r is None ==> extension(path@) is None,
{
    let v = chars_of(path);
    let name = match file_name_of(&v) {
        Some(n) => n,
        None => {
            return None;
        },
    };
    let mut i = name.len();
    while i > 0 && name[i - 1] != '.'
        invariant
            i <= name.len(),
            last_dot(name@, name@.len() as int) == last_dot(name@, i as int),
        decreases i,
    {
        i -= 1;
    }
    if i <= 1 {
        return None;
    }
    let e = crate::text::sub_vec(&name, i, name.len());
    proof {
        assert(e@ =~= name@.skip(i as int));
    }
    Some(e)
}

/// The number of named components of a path.
pub fn component_count(v: &Vec<char>) -> (n: usize)
    ensures
        n == components(v@).len(),
{
    let b = component_bounds(v);
    b.len()
}

} // verus!
