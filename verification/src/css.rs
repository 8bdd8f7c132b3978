//! A small CSS reader: comments, declaration blocks, rules, `@font-face`
//! rules, and the selector matching used to decide which rules style an element.
use vstd::prelude::*;
use vstd::string::StringSliceAdditionalSpecFns;

use crate::numbers::{parse_unsigned, parse_unsigned_range};
use crate::text::{
    ascii_lower_seq, chars_of, contains_range, contains_str, eq_ignore_ascii_case, eq_ignore_ascii_case_exec,
    find_char_exec, find_char_from, has_name, is_ascii_whitespace, is_ascii_ws, is_white_space,
    is_whitespace, lemma_find_char_from_result, lemma_find_char_skip, lowercase, push_char,
    split_char, string_from_range, sub_vec, to_lowercase, trim, trim_bounds, trim_quote_bounds,
    trim_quotes, views_of,
};

verus! {

// ---------------------------------------------------------------------------
// Declaration blocks
// ---------------------------------------------------------------------------

/// The property/value pairs of a declaration block, each property at most once.
pub struct Declarations {
    entries: Vec<(String, String)>,
}

pub open spec fn pair_views(es: Seq<(String, String)>) -> Seq<(Seq<char>, Seq<char>)> {
    es.map_values(|p: (String, String)| (p.0@, p.1@))
}

/// The map that inserting the pairs in order produces.
pub open spec fn pairs_map(ps: Seq<(Seq<char>, Seq<char>)>) -> Map<Seq<char>, Seq<char>>
    decreases ps.len(),
{
    if ps.len() == 0 {
        Map::empty()
    } else {
        pairs_map(ps.drop_last()).insert(ps.last().0, ps.last().1)
    }
}

pub open spec fn distinct_keys(ps: Seq<(Seq<char>, Seq<char>)>) -> bool {
    forall|i: int, j: int| 0 <= i < j < ps.len() ==> ps[i].0 != ps[j].0
}

pub proof fn lemma_pairs_map_lookup(ps: Seq<(Seq<char>, Seq<char>)>, k: Seq<char>)
    requires
        distinct_keys(ps),
    ensures
        pairs_map(ps).contains_key(k) <==> exists|i: int| 0 <= i < ps.len() && ps[i].0 == k,
        forall|i: int| 0 <= i < ps.len() && ps[i].0 == k ==> pairs_map(ps)[k] == ps[i].1,
    decreases ps.len(),
{
    if ps.len() > 0 {
        let q = ps.drop_last();
        assert(distinct_keys(q));
        lemma_pairs_map_lookup(q, k);
        if pairs_map(q).contains_key(k) {
            let i = choose|i: int| 0 <= i < q.len() && q[i].0 == k;
            assert(ps[i].0 == k);
        }
        if exists|i: int| 0 <= i < ps.len() && ps[i].0 == k {
            let i = choose|i: int| 0 <= i < ps.len() && ps[i].0 == k;
            if i < ps.len() - 1 {
                assert(q[i] == ps[i]);
            }
        }
        assert forall|i: int| 0 <= i < ps.len() && ps[i].0 == k implies pairs_map(ps)[k]
            == ps[i].1 by {
            if i < ps.len() - 1 {
                assert(q[i] == ps[i]);
                assert(ps.last().0 != k);
            }
        }
    }
}

pub proof fn lemma_pairs_map_update(ps: Seq<(Seq<char>, Seq<char>)>, i: int, v: Seq<char>)
    requires
        distinct_keys(ps),
        0 <= i < ps.len(),
    ensures
        pairs_map(ps.update(i, (ps[i].0, v))) == pairs_map(ps).insert(ps[i].0, v),
    decreases ps.len(),
{
    let qs = ps.update(i, (ps[i].0, v));
    if i == ps.len() - 1 {
        assert(qs.drop_last() =~= ps.drop_last());
        lemma_pairs_map_lookup(ps.drop_last(), ps[i].0);
        assert(!pairs_map(ps.drop_last()).contains_key(ps[i].0));
        assert(pairs_map(qs) =~= pairs_map(ps).insert(ps[i].0, v));
    } else {
        let q = ps.drop_last();
        assert(distinct_keys(q));
        lemma_pairs_map_update(q, i, v);
        assert(qs.drop_last() =~= q.update(i, (q[i].0, v)));
        assert(ps.last().0 != ps[i].0);
        assert(pairs_map(qs) =~= pairs_map(ps).insert(ps[i].0, v));
    }
}

impl View for Declarations {
    type V = Map<Seq<char>, Seq<char>>;

    closed spec fn view(&self) -> Map<Seq<char>, Seq<char>> {
        pairs_map(pair_views(self.entries@))
    }
}

impl Declarations {
    #[verifier::type_invariant]
    spec fn keys_are_distinct(self) -> bool {
        distinct_keys(pair_views(self.entries@))
    }

    /// The pairs in insertion order of their properties.
    pub closed spec fn pairs(&self) -> Seq<(Seq<char>, Seq<char>)> {
        pair_views(self.entries@)
    }

    pub fn new() -> (d: Self)
        ensures
            d@ == Map::<Seq<char>, Seq<char>>::empty(),
            d.pairs().len() == 0,
    {
        let d = Declarations { entries: Vec::new() };
        assert(pair_views(d.entries@) =~= Seq::<(Seq<char>, Seq<char>)>::empty());
        d
    }

    /// Sets `key` to `value`, replacing any earlier value (as `HashMap::insert`).
    pub fn insert(&mut self, key: String, value: String)
        ensures
            final(self)@ == old(self)@.insert(key@, value@),
    {
        proof {
            use_type_invariant(&*self);
        }
        let kv = chars_of(key.as_str());
        let mut i: usize = 0;
        while i < self.entries.len()
            invariant
                i <= self.entries.len(),
                kv@ == key@,
                *self == *old(self),
                distinct_keys(pair_views(self.entries@)),
                forall|j: int| 0 <= j < i ==> self.entries@[j].0@ != key@,
            decreases self.entries.len() - i,
        {
            let k2 = chars_of(self.entries[i].0.as_str());
            if crate::text::range_eq(&kv, 0, kv.len(), &k2) {
                proof {
                    assert(kv@.subrange(0, kv@.len() as int) =~= kv@);
                    let ps = pair_views(self.entries@);
                    assert(ps[i as int].0 == key@);
                    lemma_pairs_map_update(ps, i as int, value@);
                    let es2 = self.entries@.update(i as int, (key, value));
                    assert(pair_views(es2) =~= ps.update(i as int, (ps[i as int].0, value@)));
                    assert(distinct_keys(pair_views(es2))) by {
                        assert forall|a: int, b: int|
                            0 <= a < b < pair_views(es2).len() implies pair_views(es2)[a].0
                            != pair_views(es2)[b].0 by {
                            assert(pair_views(es2)[a].0 == ps[a].0);
                            assert(pair_views(es2)[b].0 == ps[b].0);
                        }
                    }
                }
                let mut es: Vec<(String, String)> = Vec::new();
                std::mem::swap(&mut es, &mut self.entries);
                es.set(i, (key, value));
                self.entries = es;
                return;
            }
            proof {
                assert(kv@.subrange(0, kv@.len() as int) =~= kv@);
            }
            i += 1;
        }
        proof {
            let ps = pair_views(self.entries@);
            let es2 = self.entries@.push((key, value));
            assert(pair_views(es2) =~= ps.push((key@, value@)));
            assert(pair_views(es2).drop_last() =~= ps);
            assert(distinct_keys(pair_views(es2))) by {
                assert forall|a: int, b: int|
                    0 <= a < b < pair_views(es2).len() implies pair_views(es2)[a].0 != pair_views(
                    es2,
                )[b].0 by {
                    assert(pair_views(es2)[a].0 == self.entries@[a].0@);
                    assert(pair_views(es2)[b].0 == es2[b].0@);
                }
            }
        }
        let mut es: Vec<(String, String)> = Vec::new();
        std::mem::swap(&mut es, &mut self.entries);
        es.push((key, value));
        self.entries = es;
    }

    /// The value set for `key`, if any.
    pub fn get(&self, key: &str) -> (r: Option<&String>)
        ensures
            r is Some <==> self@.contains_key(key@),
            r matches Some(v) ==> v@ == self@[key@],
    {
        proof {
            use_type_invariant(self);
            lemma_pairs_map_lookup(pair_views(self.entries@), key@);
        }
        let kv = chars_of(key);
        let mut i: usize = 0;
        while i < self.entries.len()
            invariant
                i <= self.entries.len(),
                kv@ == key@,
                forall|j: int| 0 <= j < i ==> self.entries@[j].0@ != key@,
            decreases self.entries.len() - i,
        {
            let k2 = chars_of(self.entries[i].0.as_str());
            if crate::text::range_eq(&kv, 0, kv.len(), &k2) {
                proof {
                    assert(kv@.subrange(0, kv@.len() as int) =~= kv@);
                    assert(pair_views(self.entries@)[i as int].0 == key@);
                    use_type_invariant(self);
                    lemma_pairs_map_lookup(pair_views(self.entries@), key@);
                }
                return Some(&self.entries[i].1);
            }
            proof {
                assert(kv@.subrange(0, kv@.len() as int) =~= kv@);
            }
            i += 1;
        }
        proof {
            assert forall|j: int|
                0 <= j < pair_views(self.entries@).len() implies pair_views(self.entries@)[j].0
                != key@ by {
                assert(pair_views(self.entries@)[j].0 == self.entries@[j].0@);
            }
        }
        None
    }

    /// Number of properties.
    pub fn len(&self) -> (n: usize)
        ensures
            n == self@.len(),
    {
        proof {
            use_type_invariant(self);
            lemma_pairs_map_len(pair_views(self.entries@));
        }
        self.entries.len()
    }

    pub fn is_empty(&self) -> (b: bool)
        ensures
            b == (self@.len() == 0),
    {
        self.len() == 0
    }

    /// The property/value pairs, each property once.
    pub fn entries(&self) -> (r: &Vec<(String, String)>)
        ensures
            pair_views(r@) == self.pairs(),
            distinct_keys(pair_views(r@)),
            pairs_map(pair_views(r@)) == self@,
    {
        proof {
            use_type_invariant(self);
        }
        &self.entries
    }
}

pub proof fn lemma_pairs_map_len(ps: Seq<(Seq<char>, Seq<char>)>)
    requires
        distinct_keys(ps),
    ensures
        pairs_map(ps).dom().finite(),
        pairs_map(ps).len() == ps.len(),
    decreases ps.len(),
{
    if ps.len() > 0 {
        let q = ps.drop_last();
        assert(distinct_keys(q));
        lemma_pairs_map_len(q);
        lemma_pairs_map_lookup(q, ps.last().0);
        assert(!pairs_map(q).contains_key(ps.last().0));
    }
}

/// What one `;`-separated piece adds to the declarations read so far.
pub open spec fn add_declaration(m: Map<Seq<char>, Seq<char>>, part: Seq<char>) -> Map<
    Seq<char>,
    Seq<char>,
> {
    let p = trim(part);
    if p.len() == 0 {
        m
    } else {
        match find_char_from(p, 0, ':') {
            Some(c) => {
                let key = lowercase(trim(p.take(c)));
                let value = trim(p.skip(c + 1));
                if key.len() > 0 && value.len() > 0 {
                    m.insert(key, value)
                } else {
                    m
                }
            },
            None => m,
        }
    }
}

/// Folds the pieces, left to right, into the map `m`.
pub open spec fn fold_declarations(m: Map<Seq<char>, Seq<char>>, parts: Seq<Seq<char>>) -> Map<
    Seq<char>,
    Seq<char>,
>
    decreases parts.len(),
{
    if parts.len() == 0 {
        m
    } else {
        fold_declarations(add_declaration(m, parts[0]), parts.skip(1))
    }
}

/// The declarations of a block: `property: value` pieces separated by `;`,
/// properties lower-cased, both sides trimmed, later pieces overriding earlier ones.
pub open spec fn declarations_of(block: Seq<char>) -> Map<Seq<char>, Seq<char>> {
    fold_declarations(Map::empty(), split_char(block, ';'))
}

/// Reads one declaration piece into `d`.
fn add_declaration_exec(d: &mut Declarations, part: &Vec<char>)
    ensures
        final(d)@ == add_declaration(old(d)@, part@),
{
    let (a, b) = trim_bounds(part, 0, part.len());
    assert(part@.subrange(0, part@.len() as int) =~= part@);
    let p = sub_vec(part, a, b);
    if p.len() == 0 {
        return;
    }
    if let Some(c) = find_char_exec(&p, 0, ':') {
        proof {
            lemma_find_char_from_result(p@, 0, ':');
        }
        let (ka, kb) = trim_bounds(&p, 0, c);
        assert(p@.subrange(0, c as int) =~= p@.take(c as int));
        let raw_key = string_from_range(&p, ka, kb);
        let key = to_lowercase(raw_key.as_str());
        let (va, vb) = trim_bounds(&p, c + 1, p.len());
        assert(p@.subrange(c + 1, p@.len() as int) =~= p@.skip(c + 1));
        let value = string_from_range(&p, va, vb);
        let key_chars = chars_of(key.as_str());
        if key_chars.len() > 0 && vb > va {
            d.insert(key, value);
        }
    }
}

/// Reads a declaration block such as `color: red; font-size: 2em`.
pub fn parse_declarations(block: &str) -> (d: Declarations)
    ensures
        d@ == declarations_of(block@),
{
    let v = chars_of(block);
    let mut d = Declarations::new();
    let mut a: usize = 0;
    assert(v@.skip(0) =~= v@);
    loop
        invariant
            a <= v.len(),
            v@ == block@,
            fold_declarations(d@, split_char(v@.skip(a as int), ';')) == declarations_of(v@),
        decreases v.len() - a,
    {
        proof {
            lemma_find_char_skip(v@, a as int, ';');
            lemma_find_char_from_result(v@, a as int, ';');
        }
        match find_char_exec(&v, a, ';') {
            Some(i) => {
                let part = sub_vec(&v, a, i);
                proof {
                    let t = v@.skip(a as int);
                    assert(t.take(i - a) =~= part@);
                    assert(t.skip(i - a + 1) =~= v@.skip(i + 1));
                    let ps = split_char(t, ';');
                    assert(ps[0] == part@);
                    assert(ps.skip(1) =~= split_char(v@.skip(i + 1), ';'));
                }
                add_declaration_exec(&mut d, &part);
                a = i + 1;
            },
            None => {
                let part = sub_vec(&v, a, v.len());
                proof {
                    let t = v@.skip(a as int);
                    assert(t =~= part@);
                    let ps = split_char(t, ';');
                    assert(ps =~= seq![part@]);
                    assert(ps.skip(1) =~= Seq::<Seq<char>>::empty());
                }
                let ghost m0 = d@;
                add_declaration_exec(&mut d, &part);
                proof {
                    let ps = split_char(v@.skip(a as int), ';');
                    assert(fold_declarations(m0, ps) == fold_declarations(
                        add_declaration(m0, ps[0]),
                        ps.skip(1),
                    ));
                }
                return d;
            },
        }
    }
}

/// What one `;`-separated piece declares: its property, lower-cased and
/// trimmed, and its trimmed value, when both are non-empty.
pub open spec fn declared(part: Seq<char>) -> Option<(Seq<char>, Seq<char>)> {
    let p = trim(part);
    match find_char_from(p, 0, ':') {
        Some(c) => {
            let key = lowercase(trim(p.take(c)));
            let value = trim(p.skip(c + 1));
            if key.len() > 0 && value.len() > 0 {
                Some((key, value))
            } else {
                None
            }
        },
        None => None,
    }
}

/// The value of property `k` after the pieces: that of the last piece that
/// declares `k`, else the one `m` had.
pub open spec fn last_declared(m: Map<Seq<char>, Seq<char>>, parts: Seq<Seq<char>>, k: Seq<char>) -> Option<Seq<char>>
    decreases parts.len(),
{
    if parts.len() == 0 {
        if m.contains_key(k) {
            Some(m[k])
        } else {
            None
        }
    } else {
        match declared(parts.last()) {
            Some((key, v)) => if key == k {
                Some(v)
            } else {
                last_declared(m, parts.drop_last(), k)
            },
            None => last_declared(m, parts.drop_last(), k),
        }
    }
}

proof fn lemma_fold_last(m: Map<Seq<char>, Seq<char>>, parts: Seq<Seq<char>>)
    requires
        parts.len() > 0,
    ensures
        fold_declarations(m, parts) == add_declaration(fold_declarations(m, parts.drop_last()), parts.last()),
    decreases parts.len(),
{
    if parts.len() > 1 {
        lemma_fold_last(add_declaration(m, parts[0]), parts.skip(1));
        assert(parts.skip(1).drop_last() =~= parts.drop_last().skip(1));
        assert(parts.skip(1).last() == parts.last());
        assert(parts.drop_last()[0] == parts[0]);
        assert(fold_declarations(m, parts.drop_last()) == fold_declarations(
            add_declaration(m, parts.drop_last()[0]),
            parts.drop_last().skip(1),
        ));
    } else {
        assert(parts.skip(1) =~= Seq::<Seq<char>>::empty());
        assert(parts.drop_last() =~= Seq::<Seq<char>>::empty());
        assert(fold_declarations(add_declaration(m, parts[0]), parts.skip(1)) == add_declaration(m, parts[0]));
    }
}

/// The last declaration of a property wins: after reading the pieces, a
/// property holds the value of the last piece that declares it, and is
/// absent when no piece declares it (and it was absent before).
pub proof fn law_last_declaration_wins(m: Map<Seq<char>, Seq<char>>, parts: Seq<Seq<char>>, k: Seq<char>)
    ensures
        fold_declarations(m, parts).contains_key(k) <==> last_declared(m, parts, k) is Some,
        last_declared(m, parts, k) matches Some(v) ==> fold_declarations(m, parts)[k] == v,
    decreases parts.len(),
{
    if parts.len() > 0 {
        lemma_fold_last(m, parts);
        law_last_declaration_wins(m, parts.drop_last(), k);
    }
}



// ---------------------------------------------------------------------------
// Comments and small value cleaners
// ---------------------------------------------------------------------------

/// Where a comment whose body starts at `i` ends (just past `*/`, or the end).
pub open spec fn comment_end(b: Seq<u8>, i: int) -> int
    decreases b.len() - i,
{
    if i + 1 < b.len() {
        if b[i] == 0x2a && b[i + 1] == 0x2f {
            i + 2
        } else {
            comment_end(b, i + 1)
        }
    } else {
        i
    }
}

pub proof fn lemma_comment_end(b: Seq<u8>, i: int)
    requires
        0 <= i <= b.len(),
    ensures
        i <= comment_end(b, i) <= b.len(),
    decreases b.len() - i,
{
    if i + 1 < b.len() && !(b[i] == 0x2a && b[i + 1] == 0x2f) {
        lemma_comment_end(b, i + 1);
    }
}

/// The bytes from `i` on with `/* ... */` comments removed, each remaining
/// byte read as the character of the same number.
pub open spec fn strip_comments_from(b: Seq<u8>, i: int) -> Seq<char>
    decreases b.len() - i,
{
    if i < 0 || i >= b.len() {
        seq![]
    } else if i + 1 < b.len() && b[i] == 0x2f && b[i + 1] == 0x2a {
        proof {
            lemma_comment_end(b, i + 2);
        }
        strip_comments_from(b, comment_end(b, i + 2))
    } else {
        seq![b[i] as char] + strip_comments_from(b, i + 1)
    }
}

/// Removes CSS comments. Works byte by byte: each kept byte becomes the
/// character with that number.
pub fn strip_comments(css: &str) -> (r: String)
    ensures
        r@ == strip_comments_from(css.spec_bytes(), 0),
{
    let bytes = css.as_bytes();
    let len = bytes.len();
    let mut result = String::new();
    let mut i: usize = 0;
    while i < len
        invariant
            len == bytes@.len(),
            bytes@ == css.spec_bytes(),
            i <= len,
            result@ + strip_comments_from(bytes@, i as int) == strip_comments_from(bytes@, 0),
        decreases len - i,
    {
        if i + 1 < len && bytes[i] == 0x2f && bytes[i + 1] == 0x2a {
            let ghost start = i + 2;
            i += 2;
            while i < len && i + 1 < len && !(bytes[i] == 0x2a && bytes[i + 1] == 0x2f)
                invariant
                    len == bytes@.len(),
                    start <= i <= len,
                    comment_end(bytes@, start) == comment_end(bytes@, i as int),
                decreases len - i,
            {
                i += 1;
            }
            if i < len && i + 1 < len {
                i += 2;
            }
        } else {
            let ghost before = result@;
            push_char(&mut result, bytes[i] as char);
            assert(result@ + strip_comments_from(bytes@, i + 1) =~= before + strip_comments_from(
                bytes@,
                i as int,
            ));
            i += 1;
        }
    }
    result
}

/// The first family of a `font-family` list, trimmed and unquoted.
pub open spec fn clean_family(value: Seq<char>) -> Seq<char> {
    trim_quotes(trim(split_char(value, ',')[0]))
}

/// `font-family: "Name", serif` gives `Name`.
pub fn clean_font_family(value: &str) -> (r: String)
    ensures
        r@ == clean_family(value@),
{
    let v = chars_of(value);
    let end = match find_char_exec(&v, 0, ',') {
        Some(i) => i,
        None => v.len(),
    };
    proof {
        lemma_find_char_from_result(v@, 0, ',');
        match find_char_from(v@, 0, ',') {
            Some(i) => {
                assert(split_char(v@, ',')[0] == v@.take(i));
                assert(v@.take(i) =~= v@.subrange(0, i));
            },
            None => {
                assert(split_char(v@, ',')[0] == v@);
                assert(v@ =~= v@.subrange(0, v@.len() as int));
            },
        }
    }
    let (a, b) = trim_bounds(&v, 0, end);
    let (c, d) = trim_quote_bounds(&v, a, b);
    string_from_range(&v, c, d)
}

/// The path inside an `@font-face` `src` value: trimmed, `url(...)` unwrapped, unquoted.
pub open spec fn clean_source(value: Seq<char>) -> Seq<char> {
    let t = trim(value);
    let u = if t.len() >= 4 && t.take(4) == "url("@ {
        t.skip(4)
    } else {
        t
    };
    let w = if u.len() >= 1 && u.last() == ')' {
        u.drop_last()
    } else {
        u
    };
    trim_quotes(trim(w))
}

pub fn clean_src(value: &str) -> (r: String)
    ensures
        r@ == clean_source(value@),
{
    let v = chars_of(value);
    let (a, b) = trim_bounds(&v, 0, v.len());
    assert(v@.subrange(0, v@.len() as int) =~= v@);
    let ghost t = v@.subrange(a as int, b as int);
    let url = chars_of("url(");
    let has_url = b - a >= 4 && crate::text::range_eq(&v, a, a + 4, &url);
    proof {
        if b - a >= 4 {
            assert(t.take(4) =~= v@.subrange(a as int, a + 4));
            assert(t.skip(4) =~= v@.subrange(a + 4, b as int));
        }
    }
    let a2 = if has_url {
        a + 4
    } else {
        a
    };
    let ghost u = v@.subrange(a2 as int, b as int);
    assert(u == (if t.len() >= 4 && t.take(4) == "url("@ {
        t.skip(4)
    } else {
        t
    }));
    let b2 = if b > a2 && v[b - 1] == ')' {
        b - 1
    } else {
        b
    };
    proof {
        if b > a2 && v@[b - 1] == ')' {
            assert(u.drop_last() =~= v@.subrange(a2 as int, b2 as int));
        }
    }
    let (c, d) = trim_bounds(&v, a2, b2);
    let (e, f) = trim_quote_bounds(&v, c, d);
    string_from_range(&v, e, f)
}

/// The numeric weight of a `font-weight` value.
pub open spec fn font_weight(value: Seq<char>) -> u16 {
    let t = trim(value);
    if t == "normal"@ {
        400
    } else if t == "bold"@ || t == "bolder"@ {
        700
    } else if t == "lighter"@ {
        300
    } else {
        match parse_unsigned(t, 10, u16::MAX as int) {
            Some(v) => v as u16,
            None => 400,
        }
    }
}

pub fn parse_font_weight(value: &str) -> (w: u16)
    ensures
        w == font_weight(value@),
{
    let t = crate::text::trim_str(value);
    let v = chars_of(t.as_str());
    if crate::text::str_eq(t.as_str(), "normal") {
        400
    } else if crate::text::str_eq(t.as_str(), "bold") || crate::text::str_eq(t.as_str(), "bolder") {
        700
    } else if crate::text::str_eq(t.as_str(), "lighter") {
        300
    } else {
        let r = parse_unsigned_range(&v, 0, v.len(), 10, 65535);
        assert(v@.subrange(0, v@.len() as int) =~= v@);
        match r {
            Some(n) => n as u16,
            None => 400,
        }
    }
}

// ---------------------------------------------------------------------------
// Style sheets
// ---------------------------------------------------------------------------

/// A style rule: a selector and its declarations.
pub struct CssRule {
    pub selector: String,
    pub properties: Declarations,
}

/// An `@font-face` rule.
#[derive(Debug, Clone, Default)]
pub struct FontFaceRule {
    pub family: String,
    pub src: String,
    pub weight: u16,
    pub italic: bool,
}

pub type RuleView = (Seq<char>, Map<Seq<char>, Seq<char>>);

pub type FaceView = (Seq<char>, Seq<char>, u16, bool);

impl CssRule {
    pub open spec fn view_rule(&self) -> RuleView {
        (self.selector@, self.properties@)
    }
}

impl FontFaceRule {
    pub open spec fn view_face(&self) -> FaceView {
        (self.family@, self.src@, self.weight, self.italic)
    }
}

pub open spec fn brace_delta(c: char) -> int {
    if c == '{' {
        1
    } else if c == '}' {
        -1
    } else {
        0
    }
}

/// Position of the `}` that closes a block opened before `pos` (nesting depth
/// `depth`), or the end of the text.
pub open spec fn block_close(s: Seq<char>, pos: int, depth: int) -> int
    decreases s.len() - pos,
{
    if pos < 0 || pos >= s.len() || depth <= 0 {
        pos
    } else if depth + brace_delta(s[pos]) > 0 {
        block_close(s, pos + 1, depth + brace_delta(s[pos]))
    } else {
        pos
    }
}

/// Position just past a block opened before `pos` (nesting depth `depth`).
pub open spec fn skip_block(s: Seq<char>, pos: int, depth: int) -> int
    decreases s.len() - pos,
{
    if pos < 0 || pos >= s.len() || depth <= 0 {
        pos
    } else {
        skip_block(s, pos + 1, depth + brace_delta(s[pos]))
    }
}

/// Position just past an at-rule that is not understood: past its block, or
/// past its terminating `;`.
pub open spec fn skip_at_rule_from(s: Seq<char>, pos: int) -> int
    decreases s.len() - pos,
{
    if pos < 0 || pos >= s.len() {
        pos
    } else if s[pos] == '{' {
        skip_block(s, pos + 1, 1)
    } else if s[pos] == ';' {
        pos + 1
    } else {
        skip_at_rule_from(s, pos + 1)
    }
}

pub open spec fn skip_ascii_ws(s: Seq<char>, pos: int) -> int
    decreases s.len() - pos,
{
    if 0 <= pos < s.len() && is_ascii_ws(s[pos]) {
        skip_ascii_ws(s, pos + 1)
    } else {
        pos
    }
}

/// End of an at-keyword: the first white space or `{`.
pub open spec fn keyword_end(s: Seq<char>, pos: int) -> int
    decreases s.len() - pos,
{
    if 0 <= pos < s.len() && !is_ascii_ws(s[pos]) && s[pos] != '{' {
        keyword_end(s, pos + 1)
    } else {
        pos
    }
}

pub proof fn lemma_positions(s: Seq<char>, pos: int, depth: int)
    requires
        0 <= pos <= s.len(),
    ensures
        pos <= block_close(s, pos, depth) <= s.len(),
        pos <= skip_block(s, pos, depth) <= s.len(),
        pos <= skip_ascii_ws(s, pos) <= s.len(),
        pos <= keyword_end(s, pos) <= s.len(),
        pos <= skip_at_rule_from(s, pos) <= s.len(),
        pos < s.len() ==> pos < skip_at_rule_from(s, pos),
    decreases s.len() - pos,
{
    if pos < s.len() {
        lemma_positions(s, pos + 1, depth + brace_delta(s[pos]));
        lemma_positions(s, pos + 1, depth);
        lemma_positions(s, pos + 1, 1);
    }
}

/// The `@font-face` rule at `start`, if it is one, and where reading goes on.
pub open spec fn font_face_at(s: Seq<char>, start: int) -> (Option<FaceView>, int) {
    let p1 = keyword_end(s, start + 1);
    let keyword = lowercase(s.subrange(start, p1));
    if keyword != "@font-face"@ {
        (None, start)
    } else {
        let p2 = skip_ascii_ws(s, p1);
        if p2 >= s.len() || s[p2] != '{' {
            (None, p2)
        } else {
            let e = block_close(s, p2 + 1, 1);
            let next = if e < s.len() {
                e + 1
            } else {
                e
            };
            let props = declarations_of(s.subrange(p2 + 1, e));
            if props.contains_key("font-family"@) && props.contains_key("src"@) {
                let weight = if props.contains_key("font-weight"@) {
                    font_weight(props["font-weight"@])
                } else {
                    400u16
                };
                let italic = props.contains_key("font-style"@) && (eq_ignore_ascii_case(
                    props["font-style"@],
                    "italic"@,
                ) || eq_ignore_ascii_case(props["font-style"@], "oblique"@));
                (
                    Some(
                        (
                            clean_family(props["font-family"@]),
                            clean_source(props["src"@]),
                            weight,
                            italic,
                        ),
                    ),
                    next,
                )
            } else {
                (None, next)
            }
        }
    }
}

pub proof fn lemma_font_face_at(s: Seq<char>, start: int)
    requires
        0 <= start < s.len(),
    ensures
        start <= font_face_at(s, start).1 <= s.len(),
        font_face_at(s, start).0 is Some ==> start < font_face_at(s, start).1,
{
    lemma_positions(s, start + 1, 0);
    let p1 = keyword_end(s, start + 1);
    lemma_positions(s, p1, 0);
    let p2 = skip_ascii_ws(s, p1);
    if p2 < s.len() {
        lemma_positions(s, p2 + 1, 1);
    }
}

/// Rules and `@font-face` rules of the (comment-free) style sheet text from `pos` on.
pub open spec fn css_from(s: Seq<char>, pos: int) -> (Seq<RuleView>, Seq<FaceView>)
    decreases s.len() - pos,
{
    let p = skip_ascii_ws(s, pos);
    if pos < 0 || pos > s.len() || p >= s.len() {
        (seq![], seq![])
    } else if s[p] == '@' {
        proof {
            lemma_positions(s, pos, 0);
            lemma_font_face_at(s, p);
        }
        let (face, np) = font_face_at(s, p);
        match face {
            Some(f) => {
                let (r, fs) = css_from(s, np);
                (r, seq![f] + fs)
            },
            None => {
                proof {
                    lemma_positions(s, np, 0);
                }
                css_from(s, skip_at_rule_from(s, np))
            },
        }
    } else {
        proof {
            lemma_positions(s, pos, 0);
            lemma_find_char_from_result(s, p, '{');
        }
        match find_char_from(s, p, '{') {
            None => (seq![], seq![]),
            Some(b) => {
                proof {
                    lemma_positions(s, b + 1, 1);
                }
                let selector = trim(s.subrange(p, b));
                let e = block_close(s, b + 1, 1);
                let next = if e < s.len() {
                    e + 1
                } else {
                    e
                };
                let props = declarations_of(s.subrange(b + 1, e));
                let (r, fs) = css_from(s, next);
                if props.len() > 0 && selector.len() > 0 {
                    (seq![(selector, props)] + r, fs)
                } else {
                    (r, fs)
                }
            },
        }
    }
}

/// The rules and font faces of a style sheet.
pub open spec fn stylesheet(css: Seq<char>) -> (Seq<RuleView>, Seq<FaceView>) {
    css_from(strip_comments_from(vstd::utf8::encode_utf8(css), 0), 0)
}

fn skip_ascii_ws_exec(s: &Vec<char>, pos: usize) -> (r: usize)
    requires
        pos <= s.len(),
    ensures
        r == skip_ascii_ws(s@, pos as int),
{
    let mut p = pos;
    while p < s.len() && is_ascii_whitespace(s[p])
        invariant
            pos <= p <= s.len(),
            skip_ascii_ws(s@, pos as int) == skip_ascii_ws(s@, p as int),
        decreases s.len() - p,
    {
        p += 1;
    }
    p
}

fn block_close_exec(s: &Vec<char>, pos: usize) -> (r: usize)
    requires
        1 <= pos <= s.len(),
    ensures
        r == block_close(s@, pos as int, 1),
{
    let mut p = pos;
    let mut depth: usize = 1;
    while p < s.len() && depth > 0
        invariant
            1 <= pos <= p <= s.len(),
            depth <= p - pos + 1,
            block_close(s@, pos as int, 1) == block_close(s@, p as int, depth as int),
        decreases s.len() - p, depth,
    {
        if s[p] == '{' {
            depth += 1;
        } else if s[p] == '}' {
            depth -= 1;
        }
        if depth > 0 {
            p += 1;
        } else {
            return p;
        }
    }
    p
}

fn skip_at_rule_exec(s: &Vec<char>, pos: usize) -> (r: usize)
    requires
        pos <= s.len(),
    ensures
        r == skip_at_rule_from(s@, pos as int),
{
    let mut p = pos;
    while p < s.len()
        invariant
            pos <= p <= s.len(),
            skip_at_rule_from(s@, pos as int) == skip_at_rule_from(s@, p as int),
        decreases s.len() - p,
    {
        if s[p] == '{' {
            let mut depth: usize = 1;
            let start = p + 1;
            p += 1;
            while p < s.len() && depth > 0
                invariant
                    1 <= start <= p <= s.len(),
                    depth <= p - start + 1,
                    skip_block(s@, start as int, 1) == skip_block(s@, p as int, depth as int),
                decreases s.len() - p,
            {
                if s[p] == '{' {
                    depth += 1;
                } else if s[p] == '}' {
                    depth -= 1;
                }
                p += 1;
            }
            return p;
        } else if s[p] == ';' {
            return p + 1;
        }
        p += 1;
    }
    p
}

/// Reads the `@font-face` rule at `start` (see `font_face_at`).
fn parse_font_face(s: &Vec<char>, start: usize) -> (r: (Option<FontFaceRule>, usize))
    requires
        start < s.len(),
    ensures
        r.1 == font_face_at(s@, start as int).1,
        r.0 matches Some(f) ==> font_face_at(s@, start as int).0 == Some(f.view_face()),
        r.0 is None ==> font_face_at(s@, start as int).0 is None,
{
    let mut p1 = start + 1;
    while p1 < s.len() && !is_ascii_whitespace(s[p1]) && s[p1] != '{'
        invariant
            start < p1 <= s.len(),
            keyword_end(s@, start + 1) == keyword_end(s@, p1 as int),
        decreases s.len() - p1,
    {
        p1 += 1;
    }
    let raw = string_from_range(s, start, p1);
    let keyword = to_lowercase(raw.as_str());
    if !crate::text::str_eq(keyword.as_str(), "@font-face") {
        return (None, start);
    }
    let p2 = skip_ascii_ws_exec(s, p1);
    if p2 >= s.len() || s[p2] != '{' {
        return (None, p2);
    }
    proof {
        lemma_positions(s@, p2 + 1, 1);
    }
    let e = block_close_exec(s, p2 + 1);
    let next = if e < s.len() {
        e + 1
    } else {
        e
    };
    let block = string_from_range(s, p2 + 1, e);
    let props = parse_declarations(block.as_str());
    let family = match props.get("font-family") {
        Some(f) => f,
        None => {
            return (None, next);
        },
    };
    let src = match props.get("src") {
        Some(f) => f,
        None => {
            return (None, next);
        },
    };
    let weight = match props.get("font-weight") {
        Some(w) => parse_font_weight(w.as_str()),
        None => 400,
    };
    let italic = match props.get("font-style") {
        Some(st) => {
            let sv = chars_of(st.as_str());
            eq_ignore_ascii_case_exec(&sv, "italic") || eq_ignore_ascii_case_exec(&sv, "oblique")
        },
        None => false,
    };
    let face = FontFaceRule {
        family: clean_font_family(family.as_str()),
        src: clean_src(src.as_str()),
        weight,
        italic,
    };
    (Some(face), next)
}

pub open spec fn rule_views(rules: Seq<CssRule>) -> Seq<RuleView> {
    rules.map_values(|r: CssRule| r.view_rule())
}

pub open spec fn face_views(faces: Seq<FontFaceRule>) -> Seq<FaceView> {
    faces.map_values(|f: FontFaceRule| f.view_face())
}

/// Reads a style sheet: its style rules (those with a selector and at least one
/// declaration) and its `@font-face` rules (those with a family and a source).
pub fn parse_css(css: &str) -> (r: (Vec<CssRule>, Vec<FontFaceRule>))
    ensures
        rule_views(r.0@) == stylesheet(css@).0,
        face_views(r.1@) == stylesheet(css@).1,
{
    let stripped = strip_comments(css);
    let s = chars_of(stripped.as_str());
    let mut rules: Vec<CssRule> = Vec::new();
    let mut faces: Vec<FontFaceRule> = Vec::new();
    let mut pos: usize = 0;
    loop
        invariant
            pos <= s.len(),
            s@ == strip_comments_from(css.spec_bytes(), 0),
            rule_views(rules@) + css_from(s@, pos as int).0 == css_from(s@, 0).0,
            face_views(faces@) + css_from(s@, pos as int).1 == css_from(s@, 0).1,
        decreases s.len() - pos,
    {
        let p = skip_ascii_ws_exec(&s, pos);
        proof {
            lemma_positions(s@, pos as int, 0);
        }
        if p >= s.len() {
            proof {
                assert(rule_views(rules@) + Seq::<RuleView>::empty() =~= rule_views(rules@));
                assert(face_views(faces@) + Seq::<FaceView>::empty() =~= face_views(faces@));
            }
            return (rules, faces);
        }
        if s[p] == '@' {
            proof {
                lemma_font_face_at(s@, p as int);
            }
            let (face, np) = parse_font_face(&s, p);
            match face {
                Some(f) => {
                    let ghost before = face_views(faces@);
                    faces.push(f);
                    proof {
                        assert(face_views(faces@) =~= before.push(f.view_face()));
                        let rest = css_from(s@, np as int).1;
                        assert(before.push(f.view_face()) + rest =~= before + (seq![f.view_face()]
                            + rest));
                    }
                    pos = np;
                },
                None => {
                    proof {
                        lemma_positions(s@, np as int, 0);
                    }
                    pos = skip_at_rule_exec(&s, np);
                },
            }
            continue;
        }
        proof {
            lemma_find_char_from_result(s@, p as int, '{');
        }
        let b = match find_char_exec(&s, p, '{') {
            Some(b) => b,
            None => {
                proof {
                    assert(rule_views(rules@) + Seq::<RuleView>::empty() =~= rule_views(rules@));
                    assert(face_views(faces@) + Seq::<FaceView>::empty() =~= face_views(faces@));
                }
                return (rules, faces);
            },
        };
        let (sa, sb) = trim_bounds(&s, p, b);
        let selector = string_from_range(&s, sa, sb);
        proof {
            lemma_positions(s@, b + 1, 1);
        }
        let e = block_close_exec(&s, b + 1);
        let next = if e < s.len() {
            e + 1
        } else {
            e
        };
        let block = string_from_range(&s, b + 1, e);
        let properties = parse_declarations(block.as_str());
        if !properties.is_empty() && sb > sa {
            let rule = CssRule { selector, properties };
            let ghost rv = rule.view_rule();
            let ghost before = rule_views(rules@);
            rules.push(rule);
            proof {
                assert(rule_views(rules@) =~= before.push(rv));
                let rest = css_from(s@, next as int).0;
                assert(before.push(rv) + rest =~= before + (seq![rv] + rest));
            }
        }
        pos = next;
    }
}

// ---------------------------------------------------------------------------
// Selectors
// ---------------------------------------------------------------------------

pub open spec fn contains_white_space(s: Seq<char>) -> bool {
    exists|i: int| 0 <= i < s.len() && is_white_space(#[trigger] s[i])
}

/// Whether one compound selector (`tag`, `.class`, `tag.class`, `*`, optionally
/// ending in `:nth-child(even)`) matches an element.
pub open spec fn part_matches(part: Seq<char>, tag: Seq<char>, classes: Seq<Seq<char>>) -> bool {
    let p0 = trim(part);
    let even = ":nth-child(even)"@;
    let is_even = p0.len() >= even.len() && p0.skip(p0.len() - even.len()) == even;
    if is_even && !has_name(classes, "__folio-even"@) {
        false
    } else {
        let p = if is_even {
            p0.take(p0.len() - even.len())
        } else {
            p0
        };
        if contains_white_space(p) {
            false
        } else if p == tag || p == "*"@ {
            true
        } else if p.len() > 0 && p[0] == '.' {
            has_name(classes, p.skip(1))
        } else {
            match find_char_from(p, 0, '.') {
                Some(d) => (p.take(d) == tag || p.take(d) == "*"@) && has_name(classes, p.skip(d + 1)),
                None => false,
            }
        }
    }
}

fn has_white_space(v: &Vec<char>, a: usize, b: usize) -> (r: bool)
    requires
        a <= b <= v.len(),
    ensures
        r == contains_white_space(v@.subrange(a as int, b as int)),
{
    let mut i = a;
    while i < b
        invariant
            a <= i <= b <= v.len(),
            forall|j: int| a <= j < i ==> !is_white_space(#[trigger] v@[j]),
        decreases b - i,
    {
        if is_whitespace(v[i]) {
            assert(v@.subrange(a as int, b as int)[i - a] == v@[i as int]);
            return true;
        }
        i += 1;
    }
    assert forall|j: int| 0 <= j < b - a implies !is_white_space(
        #[trigger] v@.subrange(a as int, b as int)[j],
    ) by {
        assert(v@.subrange(a as int, b as int)[j] == v@[a + j]);
    }
    false
}

/// Whether the compound selector `part` matches an element with this tag and classes.
#[verifier::rlimit(40)]
pub fn selector_part_matches(part: &str, tag: &str, classes: &[String]) -> (r: bool)
    ensures
        r == part_matches(part@, tag@, views_of(classes@)),
{
    let v = chars_of(part);
    let tv = chars_of(tag);
    let (a, b0) = trim_bounds(&v, 0, v.len());
    assert(v@.subrange(0, v@.len() as int) =~= v@);
    let ghost p0 = v@.subrange(a as int, b0 as int);
    let even = chars_of(":nth-child(even)");
    let is_even = b0 - a >= even.len() && crate::text::range_eq(&v, b0 - even.len(), b0, &even);
    proof {
        if b0 - a >= even.len() {
            assert(p0.skip(p0.len() - even@.len()) =~= v@.subrange(b0 - even@.len(), b0 as int));
        }
    }
    if is_even && !contains_str(classes, "__folio-even") {
        return false;
    }
    let b = if is_even {
        b0 - even.len()
    } else {
        b0
    };
    let ghost p = v@.subrange(a as int, b as int);
    proof {
        if is_even {
            assert(p0.take(p0.len() - even@.len()) =~= p);
        }
    }
    if has_white_space(&v, a, b) {
        return false;
    }
    let star = chars_of("*");
    if crate::text::range_eq(&v, a, b, &tv) || crate::text::range_eq(&v, a, b, &star) {
        return true;
    }
    if b > a && v[a] == '.' {
        assert(p.skip(1) =~= v@.subrange(a + 1, b as int));
        return contains_range(classes, &v, a + 1, b);
    }
    let pv = sub_vec(&v, a, b);
    match find_char_exec(&pv, 0, '.') {
        Some(d) => {
            proof {
                lemma_find_char_from_result(pv@, 0, '.');
                assert(pv@.take(d as int) =~= v@.subrange(a as int, a + d));
                assert(pv@.skip(d + 1) =~= v@.subrange(a + d + 1, b as int));
            }
            if !crate::text::range_eq(&v, a, a + d, &tv) && !crate::text::range_eq(
                &v,
                a,
                a + d,
                &star,
            ) {
                return false;
            }
            contains_range(classes, &v, a + d + 1, b)
        },
        None => false,
    }
}

/// Whether some comma-separated alternative of `selector` is a compound
/// selector matching the element.
pub open spec fn selector_matches(selector: Seq<char>, tag: Seq<char>, classes: Seq<Seq<char>>) -> bool {
    let pieces = split_char(selector, ',');
    exists|k: int|
        0 <= k < pieces.len() && trim(#[trigger] pieces[k]).len() > 0 && part_matches(
            trim(pieces[k]),
            tag,
            classes,
        )
}

/// The `,`-separated pieces of `v`, as bounds.
fn comma_pieces(v: &Vec<char>) -> (r: Vec<(usize, usize)>)
    ensures
        crate::text::pieces(v@, r@) == split_char(v@, ','),
        forall|k: int| 0 <= k < r.len() ==> (#[trigger] r@[k]).0 <= r@[k].1 <= v.len(),
{
    let mut r: Vec<(usize, usize)> = Vec::new();
    let mut a: usize = 0;
    assert(v@.skip(0) =~= v@);
    loop
        invariant
            a <= v.len(),
            crate::text::pieces(v@, r@) + split_char(v@.skip(a as int), ',') == split_char(
                v@,
                ',',
            ),
            forall|k: int| 0 <= k < r.len() ==> (#[trigger] r@[k]).0 <= r@[k].1 <= v.len(),
        decreases v.len() - a,
    {
        proof {
            lemma_find_char_skip(v@, a as int, ',');
            lemma_find_char_from_result(v@, a as int, ',');
        }
        let ghost before = crate::text::pieces(v@, r@);
        match find_char_exec(v, a, ',') {
            Some(i) => {
                r.push((a, i));
                proof {
                    let t = v@.skip(a as int);
                    assert(t.take(i - a) =~= v@.subrange(a as int, i as int));
                    assert(t.skip(i - a + 1) =~= v@.skip(i + 1));
                    assert(crate::text::pieces(v@, r@) =~= before.push(v@.subrange(a as int, i as int)));
                    let ps = split_char(t, ',');
                    assert(ps =~= seq![v@.subrange(a as int, i as int)] + split_char(v@.skip(i + 1), ','));
                    assert(before.push(v@.subrange(a as int, i as int)) + split_char(v@.skip(i + 1), ',')
                        =~= before + ps);
                }
                a = i + 1;
            },
            None => {
                r.push((a, v.len()));
                proof {
                    let t = v@.skip(a as int);
                    assert(t =~= v@.subrange(a as int, v@.len() as int));
                    assert(split_char(t, ',') =~= seq![t]);
                    assert(crate::text::pieces(v@, r@) =~= before.push(t));
                    assert(before.push(t) =~= before + seq![t]);
                }
                return r;
            },
        }
    }
}

/// Whether the selector list matches an element with this tag and classes.
pub fn does_selector_match(selector: &str, tag: &str, classes: &[String]) -> (r: bool)
    ensures
        r == selector_matches(selector@, tag@, views_of(classes@)),
{
    let v = chars_of(selector);
    let ps = comma_pieces(&v);
    let ghost pieces = split_char(v@, ',');
    let mut k: usize = 0;
    while k < ps.len()
        invariant
            k <= ps.len(),
            v@ == selector@,
            crate::text::pieces(v@, ps@) == pieces,
            pieces == split_char(v@, ','),
            forall|m: int| 0 <= m < ps.len() ==> (#[trigger] ps@[m]).0 <= ps@[m].1 <= v.len(),
            forall|m: int|
                0 <= m < k ==> !(trim(#[trigger] pieces[m]).len() > 0 && part_matches(
                    trim(pieces[m]),
                    tag@,
                    views_of(classes@),
                )),
        decreases ps.len() - k,
    {
        let (a, b) = ps[k];
        let (ta, tb) = trim_bounds(&v, a, b);
        proof {
            assert(pieces[k as int] == v@.subrange(a as int, b as int));
        }
        if tb > ta {
            let piece = string_from_range(&v, ta, tb);
            if selector_part_matches(piece.as_str(), tag, classes) {
                return true;
            }
        }
        k += 1;
    }
    false
}

/// Whether some alternative of `selector` is `ancestor descendant` with the
/// first part matching the (lower-cased) parent tag and the second the element.
pub open spec fn descendant_matches(
    selector: Seq<char>,
    parent_tag: Seq<char>,
    tag: Seq<char>,
    classes: Seq<Seq<char>>,
) -> bool {
    let pieces = split_char(selector, ',');
    exists|k: int|
        0 <= k < pieces.len() && #[trigger] crate::text::words(pieces[k]).len() == 2
            && part_matches(crate::text::words(pieces[k])[0], lowercase(parent_tag), seq![])
            && part_matches(crate::text::words(pieces[k])[1], tag, classes)
}

/// Whether the selector matches the element through a two-part descendant selector.
pub fn does_descendant_selector_match(
    selector: &str,
    parent_tag: &str,
    tag: &str,
    classes: &[String],
) -> (r: bool)
    ensures
        r == descendant_matches(selector@, parent_tag@, tag@, views_of(classes@)),
{
    let v = chars_of(selector);
    let ps = comma_pieces(&v);
    let ghost pieces = split_char(v@, ',');
    let parent = to_lowercase(parent_tag);
    let no_classes: Vec<String> = Vec::new();
    assert(views_of(no_classes@) =~= Seq::<Seq<char>>::empty());
    let mut k: usize = 0;
    while k < ps.len()
        invariant
            k <= ps.len(),
            v@ == selector@,
            parent@ == lowercase(parent_tag@),
            views_of(no_classes@) == Seq::<Seq<char>>::empty(),
            crate::text::pieces(v@, ps@) == pieces,
            pieces == split_char(v@, ','),
            forall|m: int| 0 <= m < ps.len() ==> (#[trigger] ps@[m]).0 <= ps@[m].1 <= v.len(),
            forall|m: int|
                0 <= m < k ==> !(#[trigger] crate::text::words(pieces[m]).len() == 2 && part_matches(
                    crate::text::words(pieces[m])[0],
                    lowercase(parent_tag@),
                    seq![],
                ) && part_matches(crate::text::words(pieces[m])[1], tag@, views_of(classes@))),
        decreases ps.len() - k,
    {
        let (a, b) = ps[k];
        proof {
            assert(pieces[k as int] == v@.subrange(a as int, b as int));
        }
        let ws = crate::text::word_bounds(&v, a, b);
        if ws.len() == 2 {
            let (a0, b0) = ws[0];
            let (a1, b1) = ws[1];
            let first = string_from_range(&v, a0, b0);
            let second = string_from_range(&v, a1, b1);
            proof {
                assert(crate::text::pieces(v@, ws@)[0] == v@.subrange(a0 as int, b0 as int));
                assert(crate::text::pieces(v@, ws@)[1] == v@.subrange(a1 as int, b1 as int));
            }
            if selector_part_matches(first.as_str(), parent.as_str(), &no_classes)
                && selector_part_matches(second.as_str(), tag, classes) {
                proof {
                    let w = crate::text::words(pieces[k as int]);
                    assert(w == crate::text::pieces(v@, ws@));
                    assert(w[0] == first@);
                    assert(w[1] == second@);
                    assert(views_of(no_classes@) =~= seq![]);
                    assert(crate::text::words(pieces[k as int]).len() == 2);
                }
                return true;
            }
        }
        k += 1;
    }
    false
}

pub type AncestorView = (Seq<char>, Seq<Seq<char>>);

pub open spec fn ancestor_views(ancestors: Seq<(&str, &[String])>) -> Seq<AncestorView> {
    ancestors.map_values(|a: (&str, &[String])| (a.0@, views_of(a.1@)))
}

/// The nearest ancestor below position `limit` that `part` matches.
pub open spec fn nearest_match(part: Seq<char>, ancestors: Seq<AncestorView>, limit: int) -> Option<
    int,
>
    decreases limit,
{
    if limit <= 0 || limit > ancestors.len() {
        None
    } else if part_matches(part, ancestors[limit - 1].0, ancestors[limit - 1].1) {
        Some(limit - 1)
    } else {
        nearest_match(part, ancestors, limit - 1)
    }
}

pub proof fn lemma_nearest_match(part: Seq<char>, ancestors: Seq<AncestorView>, limit: int)
    ensures
        nearest_match(part, ancestors, limit) matches Some(i) ==> 0 <= i < limit,
    decreases limit,
{
    if 0 < limit <= ancestors.len() && !part_matches(
        part,
        ancestors[limit - 1].0,
        ancestors[limit - 1].1,
    ) {
        lemma_nearest_match(part, ancestors, limit - 1);
    }
}

/// Whether the parts, right to left, match ancestors at strictly decreasing
/// positions below `limit`, each part taking the nearest one that matches.
pub open spec fn ancestors_match(parts: Seq<Seq<char>>, ancestors: Seq<AncestorView>, limit: int) -> bool
    decreases parts.len(),
{
    if parts.len() == 0 {
        true
    } else {
        match nearest_match(parts.last(), ancestors, limit) {
            Some(i) => ancestors_match(parts.drop_last(), ancestors, i),
            None => false,
        }
    }
}

/// Whether some alternative of `selector` matches the element, its last
/// compound selector the element itself and the earlier ones its ancestors
/// (innermost last in `ancestors`).
pub open spec fn matches_in_context(
    selector: Seq<char>,
    tag: Seq<char>,
    classes: Seq<Seq<char>>,
    ancestors: Seq<AncestorView>,
) -> bool {
    let pieces = split_char(selector, ',');
    exists|k: int|
        0 <= k < pieces.len() && #[trigger] crate::text::words(pieces[k]).len() > 0
            && part_matches(crate::text::words(pieces[k]).last(), tag, classes) && ancestors_match(
            crate::text::words(pieces[k]).drop_last(),
            ancestors,
            ancestors.len() as int,
        )
}

fn nearest_match_exec(part: &str, ancestors: &[(&str, &[String])], limit: usize) -> (r: Option<
    usize,
>)
    requires
        limit <= ancestors.len(),
    ensures
        r matches Some(i) ==> nearest_match(part@, ancestor_views(ancestors@), limit as int) == Some(
            i as int,
        ),
        r is None ==> nearest_match(part@, ancestor_views(ancestors@), limit as int) is None,
{
    let mut idx = limit;
    while idx > 0
        invariant
            idx <= limit <= ancestors.len(),
            nearest_match(part@, ancestor_views(ancestors@), limit as int) == nearest_match(
                part@,
                ancestor_views(ancestors@),
                idx as int,
            ),
        decreases idx,
    {
        let (t, c) = ancestors[idx - 1];
        proof {
            assert(ancestor_views(ancestors@)[idx - 1] == (t@, views_of(c@)));
        }
        if selector_part_matches(part, t, c) {
            return Some(idx - 1);
        }
        idx -= 1;
    }
    None
}

/// Whether the selector matches the element given the chain of its ancestors
/// (outermost first), as CSS descendant combinators do.
pub fn selector_matches_context(
    selector: &str,
    tag: &str,
    classes: &[String],
    ancestors: &[(&str, &[String])],
) -> (r: bool)
    ensures
        r == matches_in_context(selector@, tag@, views_of(classes@), ancestor_views(ancestors@)),
{
    let ghost anc = ancestor_views(ancestors@);
    let v = chars_of(selector);
    let ps = comma_pieces(&v);
    let ghost pieces = split_char(v@, ',');
    let mut k: usize = 0;
    while k < ps.len()
        invariant
            k <= ps.len(),
            v@ == selector@,
            anc == ancestor_views(ancestors@),
            crate::text::pieces(v@, ps@) == pieces,
            pieces == split_char(v@, ','),
            forall|m: int| 0 <= m < ps.len() ==> (#[trigger] ps@[m]).0 <= ps@[m].1 <= v.len(),
            forall|m: int|
                0 <= m < k ==> !(#[trigger] crate::text::words(pieces[m]).len() > 0 && part_matches(
                    crate::text::words(pieces[m]).last(),
                    tag@,
                    views_of(classes@),
                ) && ancestors_match(
                    crate::text::words(pieces[m]).drop_last(),
                    anc,
                    anc.len() as int,
                )),
        decreases ps.len() - k,
    {
        let (a, b) = ps[k];
        proof {
            assert(pieces[k as int] == v@.subrange(a as int, b as int));
        }
        let ws = crate::text::word_bounds(&v, a, b);
        let ghost w = crate::text::words(pieces[k as int]);
        assert(w == crate::text::pieces(v@, ws@));
        if ws.len() > 0 {
            let (la, lb) = ws[ws.len() - 1];
            let last = string_from_range(&v, la, lb);
            assert(w.last() == last@);
            if selector_part_matches(last.as_str(), tag, classes) {
                let mut limit = ancestors.len();
                let mut m = ws.len() - 1;
                let mut ok = true;
                assert(anc.len() == ancestors.len());
                assert(w.take(m as int) =~= w.drop_last());
                while m > 0
                    invariant
                        m < ws.len(),
                        limit <= ancestors.len(),
                        anc == ancestor_views(ancestors@),
                        anc.len() == ancestors.len(),
                        w == crate::text::pieces(v@, ws@),
                        forall|q: int| 0 <= q < ws.len() ==> (#[trigger] ws@[q]).0 < ws@[q].1 <= v.len(),
                        ok ==> ancestors_match(w.drop_last(), anc, anc.len() as int)
                            == ancestors_match(w.take(m as int), anc, limit as int),
                        !ok ==> !ancestors_match(w.drop_last(), anc, anc.len() as int),
                    decreases m,
                {
                    let (pa, pb) = ws[m - 1];
                    let part = string_from_range(&v, pa, pb);
                    proof {
                        assert(w.take(m as int).last() == part@);
                        assert(w.take(m as int).drop_last() =~= w.take(m - 1));
                        lemma_nearest_match(part@, anc, limit as int);
                    }
                    match nearest_match_exec(part.as_str(), ancestors, limit) {
                        Some(i) => {
                            limit = i;
                            m -= 1;
                        },
                        None => {
                            ok = false;
                            m = 0;
                        },
                    }
                }
                if ok {
                    assert(w.take(0) =~= Seq::<Seq<char>>::empty());
                    assert(crate::text::words(pieces[k as int]).len() > 0);
                    return true;
                }
            }
        }
        k += 1;
    }
    false
}

/// Indices, in increasing order, of the first `n` rules that satisfy `applies`.
pub open spec fn matching_indices(applies: spec_fn(int) -> bool, n: int) -> Seq<usize>
    decreases n,
{
    if n <= 0 {
        seq![]
    } else if applies(n - 1) {
        matching_indices(applies, n - 1).push((n - 1) as usize)
    } else {
        matching_indices(applies, n - 1)
    }
}

pub open spec fn applies_in_parent(
    rules: Seq<CssRule>,
    tag: Seq<char>,
    classes: Seq<Seq<char>>,
    parent_tag: Option<Seq<char>>,
) -> spec_fn(int) -> bool {
    |i: int|
        selector_matches(rules[i].selector@, lowercase(tag), classes) || (match parent_tag {
            Some(p) => descendant_matches(rules[i].selector@, p, lowercase(tag), classes),
            None => false,
        })
}

/// Which rules style an element (its tag is compared lower-cased), optionally
/// through a two-part descendant selector naming its parent; in style-sheet order.
pub fn matching_rules_in_parent(
    tag: &str,
    classes: &[String],
    parent_tag: Option<&str>,
    rules: &[CssRule],
) -> (r: Vec<usize>)
    ensures
        r@ == matching_indices(
            applies_in_parent(
                rules@,
                tag@,
                views_of(classes@),
                match parent_tag {
                    Some(p) => Some(p@),
                    None => None,
                },
            ),
            rules@.len() as int,
        ),
{
    let ghost pt = match parent_tag {
        Some(p) => Some(p@),
        None => None,
    };
    let ghost f = applies_in_parent(rules@, tag@, views_of(classes@), pt);
    let tag_lower = to_lowercase(tag);
    let mut r: Vec<usize> = Vec::new();
    let mut i: usize = 0;
    while i < rules.len()
        invariant
            i <= rules.len(),
            tag_lower@ == lowercase(tag@),
            f == applies_in_parent(rules@, tag@, views_of(classes@), pt),
            pt == (match parent_tag {
                Some(p) => Some(p@),
                None => None,
            }),
            r@ == matching_indices(f, i as int),
        decreases rules.len() - i,
    {
        let sel = rules[i].selector.as_str();
        let mut applies = does_selector_match(sel, tag_lower.as_str(), classes);
        if !applies {
            if let Some(p) = parent_tag {
                applies = does_descendant_selector_match(sel, p, tag_lower.as_str(), classes);
            }
        }
        assert(applies == f(i as int));
        if applies {
            r.push(i);
        }
        i += 1;
    }
    r
}

/// Which rules style an element with no parent context.
pub fn matching_rules(tag: &str, classes: &[String], rules: &[CssRule]) -> (r: Vec<usize>)
    ensures
        r@ == matching_indices(
            applies_in_parent(rules@, tag@, views_of(classes@), None),
            rules@.len() as int,
        ),
{
    matching_rules_in_parent(tag, classes, None, rules)
}

/// Which rules style an element given its ancestor chain; in style-sheet order.
pub fn matching_rules_with_ancestors(
    tag: &str,
    classes: &[String],
    ancestors: &[(&str, &[String])],
    rules: &[CssRule],
) -> (r: Vec<usize>)
    ensures
        r@ == matching_indices(
            |i: int|
                matches_in_context(
                    rules@[i].selector@,
                    tag@,
                    views_of(classes@),
                    ancestor_views(ancestors@),
                ),
            rules@.len() as int,
        ),
{
    let ghost f = |i: int|
        matches_in_context(
            rules@[i].selector@,
            tag@,
            views_of(classes@),
            ancestor_views(ancestors@),
        );
    let mut r: Vec<usize> = Vec::new();
    let mut i: usize = 0;
    while i < rules.len()
        invariant
            i <= rules.len(),
            f == (|i: int|
                matches_in_context(
                    rules@[i].selector@,
                    tag@,
                    views_of(classes@),
                    ancestor_views(ancestors@),
                )),
            r@ == matching_indices(f, i as int),
        decreases rules.len() - i,
    {
        if selector_matches_context(rules[i].selector.as_str(), tag, classes, ancestors) {
            r.push(i);
        }
        i += 1;
    }
    r
}
} // verus!
