//! Font names: the key under which a CSS family name is looked up, the map
//! from declared families to the fonts actually loaded (with their weight and
//! style), and what the font files themselves say about their family.
use vstd::prelude::*;

use crate::assoc::{assoc, lemma_or_insert, or_insert};
use crate::css::FontFaceRule;
use crate::text::{chars_of, lowercase, push_char, to_lowercase};

verus! {

// ---------------------------------------------------------------------------
// Name keys
// ---------------------------------------------------------------------------

/// Characters that do not count in a font name: space, `-`, `_` and quotes.
pub open spec fn is_font_name_punct(c: char) -> bool {
    c == ' ' || c == '-' || c == '_' || c == '"' || c == '\''
}

/// `s` without the characters that do not count in a font name.
pub open spec fn font_key(s: Seq<char>) -> Seq<char> {
    s.filter(|c: char| !is_font_name_punct(c))
}

/// The key of a font name: lower-cased, without spaces, `-`, `_` and quotes.
pub open spec fn font_name_key(name: Seq<char>) -> Seq<char> {
    font_key(lowercase(name))
}

pub fn normalize_font_name(name: &str) -> (r: String)
    ensures
        r@ == font_name_key(name@),
{
    let lower = to_lowercase(name);
    let v = chars_of(lower.as_str());
    let mut r = String::new();
    let mut i: usize = 0;
    while i < v.len()
        invariant
            i <= v.len(),
            v@ == lowercase(name@),
            r@ == font_key(v@.take(i as int)),
        decreases v.len() - i,
    {
        let c = v[i];
        proof {
            assert(v@.take(i + 1) =~= v@.take(i as int).push(c));
            v@.take(i as int).lemma_filter_push(c, |c: char| !is_font_name_punct(c));
        }
        if !(c == ' ' || c == '-' || c == '_' || c == '"' || c == '\'') {
            push_char(&mut r, c);
        }
        i += 1;
    }
    assert(v@.take(v.len() as int) =~= v@);
    r
}

// ---------------------------------------------------------------------------
// The family map
// ---------------------------------------------------------------------------

pub type VariantKey = (Seq<char>, bool, bool);

pub type FamilyChoice = (Seq<char>, bool, bool);

/// Loaded font families by CSS name: one per (name, bold, italic) variant, and
/// for each normalised name the first variant seen, as a last resort.
#[derive(Debug, Clone, Default)]
pub struct FontNameMap {
    exact: Vec<((String, bool, bool), String)>,
    fallback: Vec<(String, (String, bool, bool))>,
}

impl FontNameMap {
    pub closed spec fn exact_view(&self) -> Seq<(VariantKey, Seq<char>)> {
        self.exact@.map_values(|e: ((String, bool, bool), String)| ((e.0.0@, e.0.1, e.0.2), e.1@))
    }

    pub closed spec fn fallback_view(&self) -> Seq<(Seq<char>, FamilyChoice)> {
        self.fallback@.map_values(|e: (String, (String, bool, bool))| (e.0@, (e.1.0@, e.1.1, e.1.2)))
    }
}

/// The variants tried, in order, when the requested one is missing: for bold
/// italic, bold, then italic, then regular; for bold or italic, regular.
pub open spec fn variants(bold: bool, italic: bool) -> Seq<(bool, bool)> {
    if bold && italic {
        seq![(true, false), (false, true), (false, false)]
    } else if bold || italic {
        seq![(false, false)]
    } else {
        Seq::empty()
    }
}

/// The first of `vs` that has a family under `key`.
pub open spec fn first_variant(
    exact: Seq<(VariantKey, Seq<char>)>,
    key: Seq<char>,
    vs: Seq<(bool, bool)>,
) -> Option<FamilyChoice>
    decreases vs.len(),
{
    if vs.len() == 0 {
        None
    } else {
        match assoc(exact, (key, vs[0].0, vs[0].1)) {
            Some(f) => Some((f, vs[0].0, vs[0].1)),
            None => first_variant(exact, key, vs.skip(1)),
        }
    }
}

/// How a requested family resolves: the exact variant, else a less specific
/// variant, else the first variant seen under the name; each with the weight
/// and style of the variant found.
pub open spec fn resolution(
    exact: Seq<(VariantKey, Seq<char>)>,
    fallback: Seq<(Seq<char>, FamilyChoice)>,
    key: Seq<char>,
    bold: bool,
    italic: bool,
) -> Option<FamilyChoice> {
    match assoc(exact, (key, bold, italic)) {
        Some(f) => Some((f, bold, italic)),
        None => match first_variant(exact, key, variants(bold, italic)) {
            Some(c) => Some(c),
            None => assoc(fallback, key),
        },
    }
}

pub open spec fn choice_view(r: Option<(String, bool, bool)>) -> Option<FamilyChoice> {
    match r {
        Some(x) => Some((x.0@, x.1, x.2)),
        None => None,
    }
}

pub open spec fn string_view(r: Option<String>) -> Option<Seq<char>> {
    match r {
        Some(x) => Some(x@),
        None => None,
    }
}

impl FontNameMap {
    pub fn new() -> (m: Self)
        ensures
            m.exact_view() == Seq::<(VariantKey, Seq<char>)>::empty(),
            m.fallback_view() == Seq::<(Seq<char>, FamilyChoice)>::empty(),
    {
        let m = FontNameMap { exact: Vec::new(), fallback: Vec::new() };
        assert(m.exact_view() =~= Seq::<(VariantKey, Seq<char>)>::empty());
        assert(m.fallback_view() =~= Seq::<(Seq<char>, FamilyChoice)>::empty());
        m
    }

    fn exact_get(&self, key: &str, bold: bool, italic: bool) -> (r: Option<String>)
        ensures
            string_view(r) == assoc(self.exact_view(), (key@, bold, italic)),
    {
        let ghost es = self.exact_view();
        let mut j: usize = 0;
        assert(es.skip(0) =~= es);
        while j < self.exact.len()
            invariant
                j <= self.exact.len(),
                es == self.exact_view(),
                es.len() == self.exact.len(),
                assoc(es, (key@, bold, italic)) == assoc(es.skip(j as int), (key@, bold, italic)),
            decreases self.exact.len() - j,
        {
            let ghost rest = es.skip(j as int);
            assert(rest[0] == es[j as int]);
            let e = &self.exact[j];
            assert(es[j as int] == ((e.0.0@, e.0.1, e.0.2), e.1@));
            if e.0.1 == bold && e.0.2 == italic && crate::text::str_eq(e.0.0.as_str(), key) {
                return Some(e.1.clone());
            }
            assert(rest.skip(1) =~= es.skip(j + 1));
            j += 1;
        }
        None
    }

    fn fallback_get(&self, key: &str) -> (r: Option<(String, bool, bool)>)
        ensures
            choice_view(r) == assoc(self.fallback_view(), key@),
    {
        let ghost es = self.fallback_view();
        let mut j: usize = 0;
        assert(es.skip(0) =~= es);
        while j < self.fallback.len()
            invariant
                j <= self.fallback.len(),
                es == self.fallback_view(),
                es.len() == self.fallback.len(),
                assoc(es, key@) == assoc(es.skip(j as int), key@),
            decreases self.fallback.len() - j,
        {
            let ghost rest = es.skip(j as int);
            assert(rest[0] == es[j as int]);
            let e = &self.fallback[j];
            assert(es[j as int] == (e.0@, (e.1.0@, e.1.1, e.1.2)));
            if crate::text::str_eq(e.0.as_str(), key) {
                return Some((e.1.0.clone(), e.1.1, e.1.2));
            }
            assert(rest.skip(1) =~= es.skip(j + 1));
            j += 1;
        }
        None
    }

    /// Resolves a CSS family name to a loaded family, with the weight and
    /// style of the variant that was found; see `resolution`.
    pub fn resolve(&self, name: &str, bold: bool, italic: bool) -> (r: Option<(String, bool, bool)>)
        ensures
            choice_view(r) == resolution(
                self.exact_view(),
                self.fallback_view(),
                font_name_key(name@),
                bold,
                italic,
            ),
    {
        let norm = normalize_font_name(name);
        if let Some(f) = self.exact_get(norm.as_str(), bold, italic) {
            return Some((f, bold, italic));
        }
        let vs: Vec<(bool, bool)> = if bold && italic {
            vec![(true, false), (false, true), (false, false)]
        } else if bold || italic {
            vec![(false, false)]
        } else {
            Vec::new()
        };
        let ghost key = norm@;
        let ghost es = self.exact_view();
        assert(vs@ =~= variants(bold, italic));
        let mut k: usize = 0;
        assert(vs@.skip(0) =~= vs@);
        while k < vs.len()
            invariant
                k <= vs.len(),
                es == self.exact_view(),
                key == norm@,
                norm@ == font_name_key(name@),
                vs@ == variants(bold, italic),
                assoc(es, (key, bold, italic)) is None,
                first_variant(es, key, vs@) == first_variant(es, key, vs@.skip(k as int)),
            decreases vs.len() - k,
        {
            let (b, i) = vs[k];
            let ghost rest = vs@.skip(k as int);
            assert(rest[0] == (b, i));
            if let Some(f) = self.exact_get(norm.as_str(), b, i) {
                return Some((f, b, i));
            }
            assert(rest.skip(1) =~= vs@.skip(k + 1));
            k += 1;
        }
        self.fallback_get(norm.as_str())
    }

    /// Registers a loaded family for a CSS name and variant. The first family
    /// registered for a variant stays; so does the first variant registered
    /// under a normalised name as its fallback. The variant is recorded both
    /// under the normalised name and under the name as written.
    pub fn insert_variant(&mut self, name: String, bold: bool, italic: bool, family: String)
        ensures
            final(self).exact_view() == or_insert(
                or_insert(old(self).exact_view(), (font_name_key(name@), bold, italic), family@),
                (name@, bold, italic),
                family@,
            ),
            final(self).fallback_view() == or_insert(
                old(self).fallback_view(),
                font_name_key(name@),
                (family@, bold, italic),
            ),
    {
        let norm = normalize_font_name(name.as_str());
        if self.exact_get(norm.as_str(), bold, italic).is_none() {
            let ghost before = self.exact_view();
            self.exact.push(((norm.clone(), bold, italic), family.clone()));
            assert(self.exact_view() =~= before.push(((norm@, bold, italic), family@)));
        }
        if self.fallback_get(norm.as_str()).is_none() {
            let ghost before = self.fallback_view();
            self.fallback.push((norm.clone(), (family.clone(), bold, italic)));
            assert(self.fallback_view() =~= before.push((norm@, (family@, bold, italic))));
        }
        if self.exact_get(name.as_str(), bold, italic).is_none() {
            let ghost before = self.exact_view();
            self.exact.push(((name, bold, italic), family));
            assert(self.exact_view() =~= before.push(((name@, bold, italic), family@)));
        }
    }
}

// ---------------------------------------------------------------------------
// What a font file says about itself
// ---------------------------------------------------------------------------

/// A record of a font's `name` table: its name ID, whether its encoding is a
/// Unicode one, and its text when that could be decoded.
pub type NameRecordView = (u16, bool, Option<Seq<char>>);

/// What `ttf_parser::Face::parse` finds in font data (face index 0): the name
/// records in table order, the OS/2 weight class and whether the face is italic.
pub uninterp spec fn font_face_summary(bytes: Seq<u8>) -> Option<(Seq<NameRecordView>, u16, bool)>;

pub open spec fn record_views(names: Seq<(u16, bool, Option<String>)>) -> Seq<NameRecordView> {
    names.map_values(|n: (u16, bool, Option<String>)| (n.0, n.1, string_view(n.2)))
}

pub open spec fn summary_view(r: Option<(Vec<(u16, bool, Option<String>)>, u16, bool)>) -> Option<
    (Seq<NameRecordView>, u16, bool),
> {
    match r {
        Some(x) => Some((record_views(x.0@), x.1, x.2)),
        None => None,
    }
}

/// `ttf_parser::Face::parse` with face index 0, then the face's name records
/// (`Face::names`, each as its `name_id`, `Name::is_unicode` and
/// `Name::to_string`), `Face::weight` as a number and `Face::is_italic`. The
/// result is named `font_face_summary`; how the tables are decoded is left to
/// the name.
#[verifier::external_body]
fn parse_face(bytes: &[u8]) -> (r: Option<(Vec<(u16, bool, Option<String>)>, u16, bool)>)
    ensures
        summary_view(r) == font_face_summary(bytes@),
{
    let face = ttf_parser::Face::parse(bytes, 0).ok()?;
    let names = face.names().into_iter().map(|n| (n.name_id, n.is_unicode(), n.to_string())).collect();
    Some((names, face.weight().to_number(), face.is_italic()))
}

/// The text of the first Unicode record with name ID `id`, when it decoded.
pub open spec fn name_with_id(names: Seq<NameRecordView>, id: u16) -> Option<Seq<char>>
    decreases names.len(),
{
    if names.len() == 0 {
        None
    } else if names[0].0 == id && names[0].1 {
        names[0].2
    } else {
        name_with_id(names.skip(1), id)
    }
}

/// Name ID of the typographic family, preferred over the legacy family.
pub open spec fn typographic_family_id() -> u16 {
    16
}

/// Name ID of the legacy family.
pub open spec fn family_id() -> u16 {
    1
}

/// Family, bold and italic of a face: the typographic family name, else the
/// legacy one; bold from a weight of at least 700.
pub open spec fn font_info_from(names: Seq<NameRecordView>, weight: u16, italic: bool) -> Option<
    FamilyChoice,
> {
    let family = match name_with_id(names, typographic_family_id()) {
        Some(f) => Some(f),
        None => name_with_id(names, family_id()),
    };
    match family {
        Some(f) => Some((f, weight >= 700, italic)),
        None => None,
    }
}

/// The family, bold and italic flags of font data, when it parses and names
/// its family.
pub open spec fn font_info(bytes: Seq<u8>) -> Option<FamilyChoice> {
    match font_face_summary(bytes) {
        Some(s) => font_info_from(s.0, s.1, s.2),
        None => None,
    }
}

fn find_name(names: &[(u16, bool, Option<String>)], id: u16) -> (r: Option<String>)
    ensures
        string_view(r) == name_with_id(record_views(names@), id),
{
    let ghost rs = record_views(names@);
    let mut j: usize = 0;
    assert(rs.skip(0) =~= rs);
    while j < names.len()
        invariant
            j <= names.len(),
            rs == record_views(names@),
            rs.len() == names.len(),
            name_with_id(rs, id) == name_with_id(rs.skip(j as int), id),
        decreases names.len() - j,
    {
        let ghost rest = rs.skip(j as int);
        assert(rest[0] == rs[j as int]);
        assert(rs[j as int] == (names@[j as int].0, names@[j as int].1, string_view(names@[j as int].2)));
        if names[j].0 == id && names[j].1 {
            return match &names[j].2 {
                Some(t) => Some(t.clone()),
                None => None,
            };
        }
        assert(rest.skip(1) =~= rs.skip(j + 1));
        j += 1;
    }
    None
}

/// Family, bold and italic from what a parsed face holds; see `font_info_from`.
pub fn font_info_from_face(names: &[(u16, bool, Option<String>)], weight: u16, italic: bool) -> (r:
    Option<(String, bool, bool)>)
    ensures
        choice_view(r) == font_info_from(record_views(names@), weight, italic),
{
    let family = match find_name(names, 16) {
        Some(f) => Some(f),
        None => find_name(names, 1),
    };
    match family {
        Some(f) => Some((f, weight >= 700, italic)),
        None => None,
    }
}

/// Family, bold and italic flags of font data; see `font_info`.
pub fn read_font_info(bytes: &[u8]) -> (r: Option<(String, bool, bool)>)
    ensures
        choice_view(r) == font_info(bytes@),
{
    match parse_face(bytes) {
        Some((names, weight, italic)) => font_info_from_face(names.as_slice(), weight, italic),
        None => None,
    }
}

// ---------------------------------------------------------------------------
// Building the map
// ---------------------------------------------------------------------------

pub type MapView = (Seq<(VariantKey, Seq<char>)>, Seq<(Seq<char>, FamilyChoice)>);

/// The map after `insert_variant(name, bold, italic, family)`.
pub open spec fn with_variant(m: MapView, name: Seq<char>, bold: bool, italic: bool, family: Seq<char>) -> MapView {
    (
        or_insert(or_insert(m.0, (font_name_key(name), bold, italic), family), (name, bold, italic), family),
        or_insert(m.1, font_name_key(name), (family, bold, italic)),
    )
}

/// One `@font-face` rule with the bytes of the file it points at (nothing
/// when it could not be read): when the font names its family, that family is
/// registered under the rule's family name, bold when the rule's weight is at
/// least 700 or the font is bold, italic when either is.
pub open spec fn with_face(m: MapView, face: crate::css::FaceView, bytes: Option<Seq<u8>>) -> MapView {
    match bytes {
        Some(b) => match font_info(b) {
            Some(info) => with_variant(m, face.0, face.2 >= 700 || info.1, face.3 || info.2, info.0),
            None => m,
        },
        None => m,
    }
}

pub open spec fn with_faces(m: MapView, faces: Seq<(crate::css::FaceView, Option<Seq<u8>>)>) -> MapView
    decreases faces.len(),
{
    if faces.len() == 0 {
        m
    } else {
        with_face(with_faces(m, faces.drop_last()), faces.last().0, faces.last().1)
    }
}

/// A font embedded in a book, by the family name it declares.
#[derive(Debug, Clone)]
pub struct EpubFont {
    pub family_name: String,
    pub bold: bool,
    pub italic: bool,
}

impl EpubFont {
    pub open spec fn view_font(&self) -> FamilyChoice {
        (self.family_name@, self.bold, self.italic)
    }
}

pub open spec fn with_epub_fonts(m: MapView, fonts: Seq<FamilyChoice>) -> MapView
    decreases fonts.len(),
{
    if fonts.len() == 0 {
        m
    } else {
        let f = fonts.last();
        with_variant(with_epub_fonts(m, fonts.drop_last()), f.0, f.1, f.2, f.0)
    }
}

pub open spec fn face_inputs(faces: Seq<(FontFaceRule, Option<Vec<u8>>)>) -> Seq<(crate::css::FaceView, Option<Seq<u8>>)> {
    faces.map_values(|f: (FontFaceRule, Option<Vec<u8>>)| (f.0.view_face(), match f.1 {
        Some(b) => Some(b@),
        None => None,
    }))
}

pub open spec fn font_views(fonts: Seq<EpubFont>) -> Seq<FamilyChoice> {
    fonts.map_values(|f: EpubFont| f.view_font())
}

impl FontNameMap {
    pub open spec fn map_view(&self) -> MapView {
        (self.exact_view(), self.fallback_view())
    }
}

/// The family map of a book: each `@font-face` rule, with the bytes of the
/// font file its `src` resolves to, registers the family the font names
/// (see `with_face`); then each embedded font is registered under its own
/// family name, as a fallback for styles that ask for it directly.
pub fn build_font_name_map(font_faces: &[(FontFaceRule, Option<Vec<u8>>)], epub_fonts: &[EpubFont]) -> (m:
    FontNameMap)
    ensures
        m.map_view() == with_epub_fonts(
            with_faces((Seq::empty(), Seq::empty()), face_inputs(font_faces@)),
            font_views(epub_fonts@),
        ),
{
    let mut map = FontNameMap::new();
    let ghost start: MapView = (Seq::empty(), Seq::empty());
    let mut k: usize = 0;
    while k < font_faces.len()
        invariant
            k <= font_faces.len(),
            map.map_view() == with_faces(start, face_inputs(font_faces@).take(k as int)),
        decreases font_faces.len() - k,
    {
        let (face, bytes) = &font_faces[k];
        let ghost before = map.map_view();
        proof {
            let fi = face_inputs(font_faces@);
            assert(fi.take(k + 1).drop_last() =~= fi.take(k as int));
            assert(fi.take(k + 1).last() == fi[k as int]);
        }
        if let Some(b) = bytes {
            if let Some((found, bold, italic)) = read_font_info(b.as_slice()) {
                map.insert_variant(face.family.clone(), face.weight >= 700 || bold, face.italic || italic, found);
            }
        }
        k += 1;
    }
    assert(face_inputs(font_faces@).take(font_faces.len() as int) =~= face_inputs(font_faces@));
    let ghost mid = map.map_view();
    let mut j: usize = 0;
    while j < epub_fonts.len()
        invariant
            j <= epub_fonts.len(),
            map.map_view() == with_epub_fonts(mid, font_views(epub_fonts@).take(j as int)),
        decreases epub_fonts.len() - j,
    {
        let font = &epub_fonts[j];
        proof {
            let fv = font_views(epub_fonts@);
            assert(fv.take(j + 1).drop_last() =~= fv.take(j as int));
            assert(fv.take(j + 1).last() == font.view_font());
        }
        map.insert_variant(font.family_name.clone(), font.bold, font.italic, font.family_name.clone());
        j += 1;
    }
    assert(font_views(epub_fonts@).take(epub_fonts.len() as int) =~= font_views(epub_fonts@));
    map
}

// ---------------------------------------------------------------------------
// Fonts embedded in a book
// ---------------------------------------------------------------------------

pub open spec fn font_media_words() -> Seq<Seq<char>> {
    seq!["font"@, "ttf"@, "otf"@, "opentype"@, "truetype"@, "woff"@]
}

/// Whether a manifest media type denotes a font: lower-cased, it mentions
/// `font`, `ttf`, `otf`, `opentype`, `truetype` or `woff`.
pub open spec fn is_font_media(media_type: Seq<char>) -> bool {
    exists|i: int|
        0 <= i < font_media_words().len() && #[trigger] crate::text::find_from(
            lowercase(media_type),
            0,
            font_media_words()[i],
        ) is Some
}

pub fn is_font_media_type(media_type: &str) -> (r: bool)
    ensures
        r == is_font_media(media_type@),
{
    let mt = chars_of(to_lowercase(media_type).as_str());
    let words = ["font", "ttf", "otf", "opentype", "truetype", "woff"];
    proof {
        assert(words@.map_values(|w: &str| w@) =~= font_media_words());
    }
    let mut i: usize = 0;
    while i < 6
        invariant
            i <= 6,
            mt@ == lowercase(media_type@),
            words@.map_values(|w: &str| w@) == font_media_words(),
            forall|j: int| 0 <= j < i ==> crate::text::find_from(mt@, 0, #[trigger] font_media_words()[j]) is None,
        decreases 6 - i,
    {
        let w = chars_of(words[i]);
        proof {
            assert(font_media_words()[i as int] == words@[i as int]@);
        }
        if crate::text::find_exec(&mt, 0, &w).is_some() {
            return true;
        }
        i += 1;
    }
    false
}

/// `Path::file_stem`: the file name without its last extension.
pub open spec fn file_stem(p: Seq<char>) -> Option<Seq<char>> {
    match crate::paths::file_name(p) {
        Some(name) => match crate::paths::last_dot(name, name.len() as int) {
            Some(d) => if d > 0 {
                Some(name.take(d))
            } else {
                Some(name)
            },
            None => Some(name),
        },
        None => None,
    }
}

/// The font embedded at `href` with the given bytes: the family its data
/// names, else the file stem of `href`, else `Unknown`; bold and italic as
/// the data says (neither when it does not parse).
pub open spec fn epub_font_of(href: Seq<char>, bytes: Seq<u8>) -> FamilyChoice {
    match font_info(bytes) {
        Some(info) => info,
        None => (
            match file_stem(href) {
                Some(s) => s,
                None => "Unknown"@,
            },
            false,
            false,
        ),
    }
}

pub(crate) fn file_stem_of(href: &str) -> (r: Option<String>)
    ensures
        string_view(r) == file_stem(href@),
{
    let v = chars_of(href);
    let name = match crate::paths::file_name_of(&v) {
        Some(n) => n,
        None => {
            return None;
        },
    };
    let mut i = name.len();
    while i > 0 && name[i - 1] != '.'
        invariant
            i <= name.len(),
            crate::paths::last_dot(name@, name@.len() as int) == crate::paths::last_dot(name@, i as int),
        decreases i,
    {
        i -= 1;
    }
    if i > 1 {
        Some(crate::text::string_from_range(&name, 0, i - 1))
    } else {
        Some(crate::text::string_from(&name))
    }
}

pub fn epub_font(href: &str, bytes: &[u8]) -> (f: EpubFont)
    ensures
        f.view_font() == epub_font_of(href@, bytes@),
{
    match read_font_info(bytes) {
        Some((family_name, bold, italic)) => EpubFont { family_name, bold, italic },
        None => {
            let family_name = match file_stem_of(href) {
                Some(s) => s,
                None => crate::text::string_from(&chars_of("Unknown")),
            };
            EpubFont { family_name, bold: false, italic: false }
        },
    }
}

} // verus!
