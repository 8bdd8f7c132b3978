//! The book editor's project model: how resources are classified and named,
//! the identifiers and paths given to imported files, and the navigation
//! documents (EPUB 3 `nav.xhtml`, EPUB 2 `toc.ncx`) built from the headings of
//! the book's documents.
use path_slash::PathExt;
use vstd::prelude::*;

use crate::paths::{extension, file_extension, file_name, last_dot};
use crate::xml::xml_document;
use crate::sorting::{insertion_sort, lemma_text_le_total_preorder, sorted_by, text_le, text_le_exec, total_preorder};
use crate::text::{
    chars_of, lowercase, push_char, push_str, replace_all, starts_with, string_from, to_lowercase,
    unicode_alphanumeric,
};

verus! {

// ---------------------------------------------------------------------------
// Resource kinds
// ---------------------------------------------------------------------------

#[derive(Debug, Clone, Copy, PartialEq, Eq, Structural)]
pub enum ResourceKind {
    Document,
    Style,
    Image,
    Font,
    Audio,
    Video,
    Vector,
    Script,
    Navigation,
    Other,
}

/// The kind of a manifest item by its media type.
pub open spec fn kind_of(mt: Seq<char>) -> ResourceKind {
    if mt == "application/xhtml+xml"@ || mt == "text/html"@ {
        ResourceKind::Document
    } else if mt == "text/css"@ {
        ResourceKind::Style
    } else if starts_with(mt, "image/"@) {
        ResourceKind::Image
    } else if starts_with(mt, "font/"@) || mt == "application/font-sfnt"@ || mt == "application/font-woff"@
        || mt == "application/vnd.ms-opentype"@ {
        ResourceKind::Font
    } else if starts_with(mt, "audio/"@) {
        ResourceKind::Audio
    } else if starts_with(mt, "video/"@) {
        ResourceKind::Video
    } else if mt == "application/javascript"@ || mt == "text/javascript"@ {
        ResourceKind::Script
    } else if mt == "image/svg+xml"@ {
        ResourceKind::Vector
    } else if crate::text::find_from(mt, 0, "navigation"@) is Some || crate::text::find_from(mt, 0, "nav"@) is Some {
        ResourceKind::Navigation
    } else {
        ResourceKind::Other
    }
}

fn str_starts_with(s: &Vec<char>, prefix: &str) -> (r: bool)
    ensures
        r == starts_with(s@, prefix@),
{
    let p = chars_of(prefix);
    let r = p.len() <= s.len() && crate::text::matches_at_exec(s, 0, &p);
    proof {
        if p.len() <= s.len() {
            assert(s@.take(p.len() as int) =~= s@.subrange(0, p.len() as int));
        }
    }
    r
}

fn str_contains(s: &Vec<char>, pat: &str) -> (r: bool)
    ensures
        r == (crate::text::find_from(s@, 0, pat@) is Some),
{
    let p = chars_of(pat);
    crate::text::find_exec(s, 0, &p).is_some()
}

pub fn resource_kind(media_type: &str) -> (k: ResourceKind)
    ensures
        k == kind_of(media_type@),
{
    let mt = chars_of(media_type);
    let is = |name: &str| -> (r: bool)
        ensures
            r == (mt@ == name@),
        {
            crate::text::str_eq(media_type, name)
        };
    if is("application/xhtml+xml") || is("text/html") {
        ResourceKind::Document
    } else if is("text/css") {
        ResourceKind::Style
    } else if str_starts_with(&mt, "image/") {
        ResourceKind::Image
    } else if str_starts_with(&mt, "font/") || is("application/font-sfnt") || is("application/font-woff") || is(
        "application/vnd.ms-opentype",
    ) {
        ResourceKind::Font
    } else if str_starts_with(&mt, "audio/") {
        ResourceKind::Audio
    } else if str_starts_with(&mt, "video/") {
        ResourceKind::Video
    } else if is("application/javascript") || is("text/javascript") {
        ResourceKind::Script
    } else if is("image/svg+xml") {
        ResourceKind::Vector
    } else if str_contains(&mt, "navigation") || str_contains(&mt, "nav") {
        ResourceKind::Navigation
    } else {
        ResourceKind::Other
    }
}

pub open spec fn kind_label(kind: ResourceKind) -> Seq<char> {
    match kind {
        ResourceKind::Document => "Documentos"@,
        ResourceKind::Style => "Estilos"@,
        ResourceKind::Image => "Imágenes"@,
        ResourceKind::Font => "Fuentes"@,
        ResourceKind::Audio => "Audio"@,
        ResourceKind::Video => "Video"@,
        ResourceKind::Vector => "Vector"@,
        ResourceKind::Script => "Scripts"@,
        ResourceKind::Navigation => "Navegación"@,
        ResourceKind::Other => "Otros"@,
    }
}

/// The heading under which the editor lists resources of a kind.
pub fn label_for_kind(kind: ResourceKind) -> (r: &'static str)
    ensures
        r@ == kind_label(kind),
{
    match kind {
        ResourceKind::Document => "Documentos",
        ResourceKind::Style => "Estilos",
        ResourceKind::Image => "Imágenes",
        ResourceKind::Font => "Fuentes",
        ResourceKind::Audio => "Audio",
        ResourceKind::Video => "Video",
        ResourceKind::Vector => "Vector",
        ResourceKind::Script => "Scripts",
        ResourceKind::Navigation => "Navegación",
        ResourceKind::Other => "Otros",
    }
}

pub open spec fn text_media_types() -> Seq<Seq<char>> {
    seq![
        "application/xhtml+xml"@,
        "text/html"@,
        "text/css"@,
        "text/xml"@,
        "application/xml"@,
        "text/plain"@,
        "application/javascript"@,
        "text/javascript"@,
    ]
}

/// Whether the editor opens a resource of this media type as text.
pub fn is_text_editable(media_type: &str) -> (r: bool)
    ensures
        r == text_media_types().contains(media_type@),
{
    let types = [
        "application/xhtml+xml",
        "text/html",
        "text/css",
        "text/xml",
        "application/xml",
        "text/plain",
        "application/javascript",
        "text/javascript",
    ];
    proof {
        assert(types@.map_values(|t: &str| t@) =~= text_media_types());
    }
    let mut i: usize = 0;
    while i < 8
        invariant
            i <= 8,
            types@.map_values(|t: &str| t@) == text_media_types(),
            forall|j: int| 0 <= j < i ==> text_media_types()[j] != media_type@,
        decreases 8 - i,
    {
        proof {
            assert(text_media_types()[i as int] == types@[i as int]@);
        }
        if crate::text::str_eq(types[i], media_type) {
            return true;
        }
        i += 1;
    }
    proof {
        if text_media_types().contains(media_type@) {
            let j = choose|j: int| 0 <= j < 8 && text_media_types()[j] == media_type@;
            assert(text_media_types()[j] != media_type@);
        }
    }
    false
}

// ---------------------------------------------------------------------------
// Identifiers, media types and paths of imported files
// ---------------------------------------------------------------------------

/// A resource identifier made from a name: letters, digits, `-` and `_` kept,
/// anything else `-`, then lower-cased.
pub open spec fn resource_id_of(name: Seq<char>) -> Seq<char> {
    lowercase(
        Seq::new(
            name.len(),
            |i: int|
                if unicode_alphanumeric(name[i]) || name[i] == '-' || name[i] == '_' {
                    name[i]
                } else {
                    '-'
                },
        ),
    )
}

pub fn sanitize_resource_id(name: &str) -> (r: String)
    ensures
        r@ == resource_id_of(name@),
{
    let v = chars_of(name);
    let mut m = String::new();
    let mut i: usize = 0;
    let ghost target = Seq::new(
        v@.len(),
        |i: int|
            if unicode_alphanumeric(v@[i]) || v@[i] == '-' || v@[i] == '_' {
                v@[i]
            } else {
                '-'
            },
    );
    while i < v.len()
        invariant
            i <= v.len(),
            v@ == name@,
            target.len() == v@.len(),
            forall|k: int| 0 <= k < v@.len() ==> #[trigger] target[k] == (if unicode_alphanumeric(v@[k]) || v@[k] == '-' || v@[k] == '_' {
                v@[k]
            } else {
                '-'
            }),
            m@ == target.take(i as int),
        decreases v.len() - i,
    {
        let c = v[i];
        if crate::text::char_is_alphanumeric(c) || c == '-' || c == '_' {
            push_char(&mut m, c);
        } else {
            push_char(&mut m, '-');
        }
        assert(m@ =~= target.take(i + 1));
        i += 1;
    }
    assert(target.take(v.len() as int) =~= target);
    assert(target =~= Seq::new(
        name@.len(),
        |i: int|
            if unicode_alphanumeric(name@[i]) || name@[i] == '-' || name@[i] == '_' {
                name@[i]
            } else {
                '-'
            },
    ));
    to_lowercase(m.as_str())
}

/// The lower-cased extension of a file name (empty when it has none).
pub open spec fn lower_extension(file_name: Seq<char>) -> Seq<char> {
    lowercase(
        match extension(file_name) {
            Some(e) => e,
            None => Seq::empty(),
        },
    )
}

fn lower_extension_exec(file_name: &str) -> (r: Vec<char>)
    ensures
        r@ == lower_extension(file_name@),
{
    let e = match file_extension(file_name) {
        Some(e) => string_from(&e),
        None => String::new(),
    };
    chars_of(to_lowercase(e.as_str()).as_str())
}

/// The media type of an imported image, by extension; PNG when unknown.
pub open spec fn image_mime_of(file_name: Seq<char>) -> Seq<char> {
    let e = lower_extension(file_name);
    if e == "png"@ {
        "image/png"@
    } else if e == "jpg"@ || e == "jpeg"@ {
        "image/jpeg"@
    } else if e == "gif"@ {
        "image/gif"@
    } else if e == "svg"@ {
        "image/svg+xml"@
    } else if e == "webp"@ {
        "image/webp"@
    } else {
        "image/png"@
    }
}

fn vec_is(v: &Vec<char>, s: &str) -> (r: bool)
    ensures
        r == (v@ == s@),
{
    let t = chars_of(s);
    let r = crate::text::range_eq(v, 0, v.len(), &t);
    assert(v@.subrange(0, v@.len() as int) =~= v@);
    r
}

pub fn guess_image_mime(file_name: &str) -> (r: &'static str)
    ensures
        r@ == image_mime_of(file_name@),
{
    let e = lower_extension_exec(file_name);
    if vec_is(&e, "png") {
        "image/png"
    } else if vec_is(&e, "jpg") || vec_is(&e, "jpeg") {
        "image/jpeg"
    } else if vec_is(&e, "gif") {
        "image/gif"
    } else if vec_is(&e, "svg") {
        "image/svg+xml"
    } else if vec_is(&e, "webp") {
        "image/webp"
    } else {
        "image/png"
    }
}

/// The media type of an imported font, by extension; TrueType when unknown.
pub open spec fn font_mime_of(file_name: Seq<char>) -> Seq<char> {
    let e = lower_extension(file_name);
    if e == "ttf"@ {
        "application/font-sfnt"@
    } else if e == "otf"@ {
        "application/vnd.ms-opentype"@
    } else if e == "woff"@ {
        "application/font-woff"@
    } else if e == "woff2"@ {
        "font/woff2"@
    } else {
        "application/font-sfnt"@
    }
}

pub fn guess_font_mime(file_name: &str) -> (r: &'static str)
    ensures
        r@ == font_mime_of(file_name@),
{
    let e = lower_extension_exec(file_name);
    if vec_is(&e, "ttf") {
        "application/font-sfnt"
    } else if vec_is(&e, "otf") {
        "application/vnd.ms-opentype"
    } else if vec_is(&e, "woff") {
        "application/font-woff"
    } else if vec_is(&e, "woff2") {
        "font/woff2"
    } else {
        "application/font-sfnt"
    }
}

/// A file name before its last `.` (all of it when there is none).
pub open spec fn before_last_dot(name: Seq<char>) -> Seq<char> {
    match last_dot(name, name.len() as int) {
        Some(d) => name.take(d),
        None => name,
    }
}

fn before_last_dot_exec(name: &Vec<char>) -> (r: Vec<char>)
    ensures
        r@ == before_last_dot(name@),
{
    let mut i = name.len();
    while i > 0 && name[i - 1] != '.'
        invariant
            i <= name.len(),
            last_dot(name@, name@.len() as int) == last_dot(name@, i as int),
        decreases i,
    {
        i -= 1;
    }
    if i > 0 {
        crate::text::sub_vec(name, 0, i - 1)
    } else {
        let r = crate::text::sub_vec(name, 0, name.len());
        assert(name@.subrange(0, name@.len() as int) =~= name@);
        r
    }
}

/// The name of the file at `source`, or `fallback` when it has none.
pub open spec fn import_name(source: Seq<char>, fallback: Seq<char>) -> Seq<char> {
    match file_name(source) {
        Some(n) => n,
        None => fallback,
    }
}

/// Identifier, path in the book and media type of an imported image: the
/// identifier from the file name without its extension, the file under
/// `Images/`.
pub open spec fn image_import_of(source: Seq<char>) -> (Seq<char>, Seq<char>, Seq<char>) {
    let n = import_name(source, "image.png"@);
    (resource_id_of(before_last_dot(n)), "Images/"@ + n, image_mime_of(n))
}

/// Identifier, path in the book and media type of an imported font: the
/// identifier `font-` and the file name without its extension, the file under
/// `Fonts/`.
pub open spec fn font_import_of(source: Seq<char>) -> (Seq<char>, Seq<char>, Seq<char>) {
    let n = import_name(source, "font.ttf"@);
    ("font-"@ + resource_id_of(before_last_dot(n)), "Fonts/"@ + n, font_mime_of(n))
}

fn import_name_exec(source: &str, fallback: &str) -> (r: String)
    ensures
        r@ == import_name(source@, fallback@),
{
    match crate::paths::file_name_of(&chars_of(source)) {
        Some(n) => string_from(&n),
        None => string_from(&chars_of(fallback)),
    }
}

pub fn image_import(source_path: &str) -> (r: (String, String, &'static str))
    ensures
        (r.0@, r.1@, r.2@) == image_import_of(source_path@),
{
    let name = import_name_exec(source_path, "image.png");
    let stem = string_from(&before_last_dot_exec(&chars_of(name.as_str())));
    let id = sanitize_resource_id(stem.as_str());
    let mut href = string_from(&chars_of("Images/"));
    push_str(&mut href, name.as_str());
    (id, href, guess_image_mime(name.as_str()))
}

pub fn font_import(source_path: &str) -> (r: (String, String, &'static str))
    ensures
        (r.0@, r.1@, r.2@) == font_import_of(source_path@),
{
    let name = import_name_exec(source_path, "font.ttf");
    let stem = string_from(&before_last_dot_exec(&chars_of(name.as_str())));
    let mut id = string_from(&chars_of("font-"));
    push_str(&mut id, sanitize_resource_id(stem.as_str()).as_str());
    let mut href = string_from(&chars_of("Fonts/"));
    push_str(&mut href, name.as_str());
    (id, href, guess_font_mime(name.as_str()))
}

// ---------------------------------------------------------------------------
// XML text
// ---------------------------------------------------------------------------

/// Text made safe for XML: `&`, `<`, `>`, `"` and `'` as entities (each
/// replaced in that order).
pub open spec fn xml_escaped(v: Seq<char>) -> Seq<char> {
    replace_all(
        replace_all(
            replace_all(replace_all(replace_all(v, "&"@, "&amp;"@), "<"@, "&lt;"@), ">"@, "&gt;"@),
            "\""@,
            "&quot;"@,
        ),
        "'"@,
        "&apos;"@,
    )
}

pub fn escape_xml(value: &str) -> (r: String)
    ensures
        r@ == xml_escaped(value@),
{
    let v0 = chars_of(value);
    let p1 = chars_of("&");
    let p2 = chars_of("<");
    let p3 = chars_of(">");
    let p4 = chars_of("\"");
    let p5 = chars_of("'");
    proof {
        reveal_strlit("&");
        reveal_strlit("<");
        reveal_strlit(">");
        reveal_strlit("\"");
        reveal_strlit("'");
    }
    let v1 = crate::entities::replace_all_exec(&v0, &p1, &chars_of("&amp;"));
    let v2 = crate::entities::replace_all_exec(&v1, &p2, &chars_of("&lt;"));
    let v3 = crate::entities::replace_all_exec(&v2, &p3, &chars_of("&gt;"));
    let v4 = crate::entities::replace_all_exec(&v3, &p4, &chars_of("&quot;"));
    let v5 = crate::entities::replace_all_exec(&v4, &p5, &chars_of("&apos;"));
    string_from(&v5)
}

// ---------------------------------------------------------------------------
// Resources grouped by kind
// ---------------------------------------------------------------------------

/// A resource of the book as its manifest lists it.
#[derive(Debug, Clone)]
pub struct ManifestItem {
    pub id: String,
    pub href: String,
    pub media_type: String,
    pub properties: String,
}

/// The resources of one kind, under the kind's heading.
#[derive(Debug)]
pub struct ResourceGroup {
    pub kind: ResourceKind,
    pub label: &'static str,
    pub items: Vec<ManifestItem>,
}

/// Where a kind's group stands in the editor's list: documents, styles,
/// images, fonts, audio, video, vector images, scripts, navigation, others.
pub open spec fn kind_rank(k: ResourceKind) -> nat {
    match k {
        ResourceKind::Document => 0,
        ResourceKind::Style => 1,
        ResourceKind::Image => 2,
        ResourceKind::Font => 3,
        ResourceKind::Audio => 4,
        ResourceKind::Video => 5,
        ResourceKind::Vector => 6,
        ResourceKind::Script => 7,
        ResourceKind::Navigation => 8,
        ResourceKind::Other => 9,
    }
}

fn kind_rank_exec(k: ResourceKind) -> (r: u8)
    ensures
        r == kind_rank(k),
{
    match k {
        ResourceKind::Document => 0,
        ResourceKind::Style => 1,
        ResourceKind::Image => 2,
        ResourceKind::Font => 3,
        ResourceKind::Audio => 4,
        ResourceKind::Video => 5,
        ResourceKind::Vector => 6,
        ResourceKind::Script => 7,
        ResourceKind::Navigation => 8,
        ResourceKind::Other => 9,
    }
}

/// The position of an identifier in the reading order, the first if it
/// occurs more than once.
pub open spec fn spine_position(spine: Seq<Seq<char>>, id: Seq<char>) -> Option<int>
    decreases spine.len(),
{
    if spine.len() == 0 {
        None
    } else if spine[0] == id {
        Some(0)
    } else {
        match spine_position(spine.drop_first(), id) {
            Some(i) => Some(i + 1),
            None => None,
        }
    }
}

fn spine_position_exec(spine: &Vec<String>, id: &str) -> (r: Option<usize>)
    ensures
        match r {
            Some(i) => spine_position(crate::navigation::string_views(spine@), id@) == Some(i as int),
            None => spine_position(crate::navigation::string_views(spine@), id@) is None,
        },
{
    let ghost v = crate::navigation::string_views(spine@);
    let mut i: usize = 0;
    assert(v.skip(0) =~= v);
    while i < spine.len()
        invariant
            i <= spine.len(),
            v == crate::navigation::string_views(spine@),
            spine_position(v, id@) == match spine_position(v.skip(i as int), id@) {
                Some(k) => Some(k + i),
                None => None::<int>,
            },
        decreases spine.len() - i,
    {
        assert(v.skip(i as int)[0] == v[i as int]);
        assert(v.skip(i as int).drop_first() =~= v.skip(i + 1));
        if crate::text::str_eq(spine[i].as_str(), id) {
            return Some(i);
        }
        i += 1;
    }
    assert(v.skip(i as int) =~= Seq::<Seq<char>>::empty());
    None
}

/// The order of documents: by their place in the reading order, those out
/// of it after those in it, and those out of it by path.
pub open spec fn document_le(spine: Seq<Seq<char>>, a: ManifestItem, b: ManifestItem) -> bool {
    match (spine_position(spine, a.id@), spine_position(spine, b.id@)) {
        (Some(x), Some(y)) => x <= y,
        (Some(_), None) => true,
        (None, Some(_)) => false,
        (None, None) => text_le(a.href@, b.href@),
    }
}

/// The order of the editor's resource list: by kind, then documents by
/// `document_le` and all else by path.
pub open spec fn resource_le(spine: Seq<Seq<char>>, a: ManifestItem, b: ManifestItem) -> bool {
    let ka = kind_of(a.media_type@);
    let kb = kind_of(b.media_type@);
    if kind_rank(ka) != kind_rank(kb) {
        kind_rank(ka) < kind_rank(kb)
    } else if ka == ResourceKind::Document {
        document_le(spine, a, b)
    } else {
        text_le(a.href@, b.href@)
    }
}

fn resource_le_exec(spine: &Vec<String>, a: &ManifestItem, b: &ManifestItem) -> (r: bool)
    ensures
        r == resource_le(crate::navigation::string_views(spine@), *a, *b),
{
    let ka = resource_kind(a.media_type.as_str());
    let kb = resource_kind(b.media_type.as_str());
    let ra = kind_rank_exec(ka);
    let rb = kind_rank_exec(kb);
    if ra != rb {
        ra < rb
    } else if ka == ResourceKind::Document {
        match (spine_position_exec(spine, a.id.as_str()), spine_position_exec(spine, b.id.as_str())) {
            (Some(x), Some(y)) => x <= y,
            (Some(_), None) => true,
            (None, Some(_)) => false,
            (None, None) => text_le_exec(a.href.as_str(), b.href.as_str()),
        }
    } else {
        text_le_exec(a.href.as_str(), b.href.as_str())
    }
}

/// The order of the resource list orders every pair, and transitively.
pub proof fn lemma_resource_le_total_preorder(spine: Seq<Seq<char>>)
    ensures
        total_preorder(|a: ManifestItem, b: ManifestItem| resource_le(spine, a, b)),
{
    let le = |a: ManifestItem, b: ManifestItem| resource_le(spine, a, b);
    assert forall|a: ManifestItem, b: ManifestItem| #[trigger] le(a, b) || le(b, a) by {
        lemma_text_le_total_preorder(a.href@, b.href@, b.href@);
    }
    assert forall|a: ManifestItem, b: ManifestItem, c: ManifestItem| #[trigger] le(a, b) && #[trigger] le(b, c) implies le(a, c) by {
        lemma_text_le_total_preorder(a.href@, b.href@, c.href@);
    }
}

/// All the items of the groups, group after group.
pub open spec fn group_items(groups: Seq<ResourceGroup>) -> Seq<ManifestItem>
    decreases groups.len(),
{
    if groups.len() == 0 {
        Seq::empty()
    } else {
        group_items(groups.drop_last()) + groups.last().items@
    }
}

/// The resources in groups of one kind each, groups in the order of
/// `kind_rank`, none empty, each under its kind's heading, and the items
/// taken group after group in the order `resource_le`.
pub fn grouped_resources(items: Vec<ManifestItem>, spine: &Vec<String>) -> (r: Vec<ResourceGroup>)
    ensures
        group_items(r@) == sorted_by(items@, |a: ManifestItem, b: ManifestItem| resource_le(crate::navigation::string_views(spine@), a, b)),
        forall|i: int| 0 <= i < r.len() ==> (#[trigger] r@[i]).items@.len() > 0 && r@[i].label@ == kind_label(r@[i].kind)
            && forall|j: int| 0 <= j < r@[i].items@.len() ==> kind_of((#[trigger] r@[i].items@[j]).media_type@) == r@[i].kind,
        forall|i: int, j: int| 0 <= i < j < r.len() ==> kind_rank((#[trigger] r@[i]).kind) < kind_rank((#[trigger] r@[j]).kind),
{
    let ghost sv = crate::navigation::string_views(spine@);
    let ghost le = |a: ManifestItem, b: ManifestItem| resource_le(sv, a, b);
    let order = |a: &ManifestItem, b: &ManifestItem| -> (r: bool)
        ensures
            r == resource_le(crate::navigation::string_views(spine@), *a, *b),
        { resource_le_exec(spine, a, b) };
    let sorted = insertion_sort(items, order, Ghost(le));
    proof {
        lemma_resource_le_total_preorder(sv);
        crate::sorting::lemma_sorted_by(items@, le);
    }
    let ghost all = sorted@;
    let mut groups: Vec<ResourceGroup> = Vec::new();
    let mut rest = sorted;
    let ghost n = all.len();
    assert(all.skip(0) =~= all);
    assert(group_items(groups@) =~= Seq::<ManifestItem>::empty());
    while rest.len() > 0
        invariant
            n == all.len(),
            rest.len() <= n,
            rest@ == all.skip(n - rest.len()),
            crate::sorting::is_sorted_by(all, le),
            le == (|a: ManifestItem, b: ManifestItem| resource_le(sv, a, b)),
            group_items(groups@) == all.take(n - rest.len()),
            forall|i: int| 0 <= i < groups.len() ==> (#[trigger] groups@[i]).items@.len() > 0 && groups@[i].label@ == kind_label(groups@[i].kind)
                && forall|j: int| 0 <= j < groups@[i].items@.len() ==> kind_of((#[trigger] groups@[i].items@[j]).media_type@) == groups@[i].kind,
            forall|i: int, j: int| 0 <= i < j < groups.len() ==> kind_rank((#[trigger] groups@[i]).kind) < kind_rank((#[trigger] groups@[j]).kind),
            groups.len() > 0 ==> forall|m: int| n - rest.len() <= m < n ==> kind_rank(groups@.last().kind) < kind_rank(kind_of((#[trigger] all[m]).media_type@)),
        decreases rest.len(),
    {
        let ghost start = n - rest.len();
        let ghost before_first = rest@;
        let first = rest.remove(0);
        proof {
            assert(first == all[start]);
            assert(rest@ =~= all.skip(n - rest.len()));
        }
        let kind = resource_kind(first.media_type.as_str());
        let mut members: Vec<ManifestItem> = Vec::new();
        members.push(first);
        assert(members@ =~= all.subrange(start, n - rest.len()));
        while rest.len() > 0 && resource_kind(rest[0].media_type.as_str()) == kind
            invariant
                n == all.len(),
                rest.len() < n,
                rest@ == all.skip(n - rest.len()),
                0 <= start < n - rest.len(),
                members@ == all.subrange(start, n - rest.len()),
                members@.len() > 0,
                kind == kind_of(all[start].media_type@),
                forall|j: int| 0 <= j < members@.len() ==> kind_of((#[trigger] members@[j]).media_type@) == kind,
            decreases rest.len(),
        {
            let ghost before_r = rest@;
            let x = rest.remove(0);
            proof {
                assert(x == all[n - before_r.len()]);
                assert(rest@ =~= all.skip(n - rest.len()));
            }
            members.push(x);
            assert(members@ =~= all.subrange(start, n - rest.len()));
        }
        let ghost before = groups@;
        let label = label_for_kind(kind);
        groups.push(ResourceGroup { kind, label, items: members });
        proof {
            let end = n - rest.len();
            assert(groups@.drop_last() =~= before);
            assert(all.take(end) =~= all.take(start) + all.subrange(start, end));
            assert forall|m: int| end <= m < n implies kind_rank(kind) < kind_rank(kind_of((#[trigger] all[m]).media_type@)) by {
                assert(le(all[start], all[m]));
                if kind_rank(kind_of(all[m].media_type@)) == kind_rank(kind) {
                    if m == end {
                        assert(rest@[0] == all[m]);
                    } else {
                        assert(le(all[end], all[m]));
                        assert(rest@[0] == all[end]);
                        assert(le(all[start], all[end]));
                    }
                }
            }
            if before.len() > 0 {
                assert(kind_rank(before.last().kind) < kind_rank(kind_of(all[start].media_type@)));
            }
        }
    }
    assert(all.take(n as int) =~= all);
    groups
}

// ---------------------------------------------------------------------------
// Fresh identifiers
// ---------------------------------------------------------------------------

/// The `n`th identifier tried for a prefix: the prefix and `n` in decimal.
pub open spec fn id_candidate(prefix: Seq<char>, n: nat) -> Seq<char> {
    prefix + crate::numbers::decimal_digits(n)
}

/// If the first `n` candidates are all taken, there are at least `n` taken
/// identifiers.
proof fn lemma_candidates_taken(prefix: Seq<char>, ids: Seq<Seq<char>>, n: nat)
    requires
        forall|k: nat| 1 <= k <= n ==> ids.contains(#[trigger] id_candidate(prefix, k)),
    ensures
        n <= ids.len(),
{
    let c = Seq::new(n, |i: int| id_candidate(prefix, (i + 1) as nat));
    assert forall|i: int, j: int| 0 <= i < c.len() && 0 <= j < c.len() && i != j implies c[i] != c[j] by {
        if c[i] == c[j] {
            let a = crate::numbers::decimal_digits((i + 1) as nat);
            let b = crate::numbers::decimal_digits((j + 1) as nat);
            assert(a =~= c[i].skip(prefix.len() as int));
            assert(b =~= c[j].skip(prefix.len() as int));
            crate::numbers::lemma_decimal_digits_injective((i + 1) as nat, (j + 1) as nat);
        }
    }
    c.unique_seq_to_set();
    assert forall|x: Seq<char>| c.to_set().contains(x) implies ids.to_set().contains(x) by {
        let i = choose|i: int| 0 <= i < c.len() && c[i] == x;
        assert(ids.contains(id_candidate(prefix, (i + 1) as nat)));
    }
    vstd::set_lib::lemma_len_subset(c.to_set(), ids.to_set());
    ids.lemma_cardinality_of_set();
}

fn contains_text(ids: &Vec<String>, x: &str) -> (r: bool)
    ensures
        r == crate::navigation::string_views(ids@).contains(x@),
{
    let ghost v = crate::navigation::string_views(ids@);
    let mut i: usize = 0;
    while i < ids.len()
        invariant
            i <= ids.len(),
            v == crate::navigation::string_views(ids@),
            forall|j: int| 0 <= j < i ==> v[j] != x@,
        decreases ids.len() - i,
    {
        if crate::text::str_eq(ids[i].as_str(), x) {
            assert(v[i as int] == x@);
            return true;
        }
        i += 1;
    }
    false
}

/// The first of `prefix1`, `prefix2`, ... that is not among the taken
/// identifiers.
pub fn unique_id(prefix: &str, ids: &Vec<String>) -> (r: String)
    requires
        ids.len() < usize::MAX,
    ensures
        exists|n: nat|
            n >= 1 && r@ == #[trigger] id_candidate(prefix@, n) && !crate::navigation::string_views(ids@).contains(r@)
                && forall|k: nat| 1 <= k < n ==> crate::navigation::string_views(ids@).contains(
                #[trigger] id_candidate(prefix@, k),
            ),
{
    let ghost v = crate::navigation::string_views(ids@);
    let mut n: usize = 1;
    loop
        invariant
            1 <= n <= ids.len() + 1,
            ids.len() < usize::MAX,
            v == crate::navigation::string_views(ids@),
            forall|k: nat| 1 <= k < n ==> v.contains(#[trigger] id_candidate(prefix@, k)),
        decreases ids.len() + 1 - n,
    {
        let mut id = crate::text::string_from(&chars_of(prefix));
        crate::numbers::push_decimal(&mut id, n as u64);
        assert(id@ == id_candidate(prefix@, n as nat));
        if !contains_text(ids, id.as_str()) {
            return id;
        }
        proof {
            assert forall|k: nat| 1 <= k <= n implies v.contains(#[trigger] id_candidate(prefix@, k)) by {
                if k < n {
                }
            }
            lemma_candidates_taken(prefix@, v, n as nat);
        }
        n += 1;
    }
}

// ---------------------------------------------------------------------------
// New chapters
// ---------------------------------------------------------------------------

/// Where a new chapter's file goes: `Text/<id>.xhtml`.
pub fn chapter_href(id: &str) -> (r: String)
    ensures
        r@ == "Text/"@ + id@ + ".xhtml"@,
{
    let mut r = crate::text::string_from(&chars_of("Text/"));
    push_str(&mut r, id);
    push_str(&mut r, ".xhtml");
    r
}

/// The link a new chapter's head gets to the book's first default style
/// sheet (given by its path), or nothing when there is none.
pub fn chapter_head_links(style_href: Option<&str>) -> (r: String)
    ensures
        r@ == match style_href {
            Some(h) => "\n  <link rel=\"stylesheet\" type=\"text/css\" href=\"../"@ + h@ + "\"/>"@,
            None => Seq::<char>::empty(),
        },
{
    match style_href {
        Some(h) => {
            let mut r = crate::text::string_from(&chars_of("\n  <link rel=\"stylesheet\" type=\"text/css\" href=\"../"));
            push_str(&mut r, h);
            push_str(&mut r, "\"/>");
            r
        },
        None => String::new(),
    }
}

/// A new chapter's body: its title as a heading and an empty paragraph.
pub fn chapter_body(title: &str) -> (r: String)
    ensures
        r@ == "  <h1>"@ + title@ + "</h1>\n  <p></p>"@,
{
    let mut r = crate::text::string_from(&chars_of("  <h1>"));
    push_str(&mut r, title);
    push_str(&mut r, "</h1>\n  <p></p>");
    r
}

/// Puts a chapter at the end of the reading order unless it is already in it.
pub fn add_to_spine(spine: &mut Vec<String>, id: String)
    ensures
        crate::navigation::string_views(final(spine)@) == if crate::navigation::string_views(old(spine)@).contains(id@) {
            crate::navigation::string_views(old(spine)@)
        } else {
            crate::navigation::string_views(old(spine)@).push(id@)
        },
{
    if !contains_text(spine, id.as_str()) {
        let ghost before = crate::navigation::string_views(spine@);
        spine.push(id);
        assert(crate::navigation::string_views(spine@) =~= before.push(id@));
    }
}

/// The title shown for a project: the book's own title when its metadata
/// gives one, else the stem of the file or folder it was opened from, else
/// `Proyecto`.
pub open spec fn project_title_of(metadata_title: Option<Seq<char>>, opened_from: Seq<char>) -> Seq<char> {
    match metadata_title {
        Some(t) => t,
        None => match crate::fonts::file_stem(opened_from) {
            Some(stem) => stem,
            None => "Proyecto"@,
        },
    }
}

/// The title shown for a project; see `project_title_of`.
pub fn project_title(metadata_title: Option<&str>, opened_from: &str) -> (r: String)
    ensures
        r@ == project_title_of(
            match metadata_title {
                Some(t) => Some(t@),
                None => None,
            },
            opened_from@,
        ),
{
    match metadata_title {
        Some(t) => string_from(&chars_of(t)),
        None => match crate::fonts::file_stem_of(opened_from) {
            Some(stem) => stem,
            None => string_from(&chars_of("Proyecto")),
        },
    }
}

// ---------------------------------------------------------------------------
// Tables of contents
// ---------------------------------------------------------------------------

/// A heading found in a document, and whether the user keeps it.
#[derive(Debug, Clone)]
pub struct HeadingItem {
    pub level: u8,
    pub title: String,
    pub anchor: String,
    pub included: bool,
}

/// The headings of one document of the reading order.
#[derive(Debug, Clone)]
pub struct DocToc {
    pub href: String,
    pub title: String,
    pub items: Vec<HeadingItem>,
    pub included: bool,
}

/// An entry of a book's table of contents.
#[derive(Debug, Clone)]
pub struct TocEntry {
    pub title: String,
    pub href: String,
    pub level: u8,
}

pub struct HeadingView {
    pub level: u8,
    pub title: Seq<char>,
    pub anchor: Seq<char>,
    pub included: bool,
}

pub struct DocView {
    pub href: Seq<char>,
    pub title: Seq<char>,
    pub items: Seq<HeadingView>,
    pub included: bool,
}

pub open spec fn heading_view(h: HeadingItem) -> HeadingView {
    HeadingView { level: h.level, title: h.title@, anchor: h.anchor@, included: h.included }
}

pub open spec fn doc_view(d: DocToc) -> DocView {
    DocView {
        href: d.href@,
        title: d.title@,
        items: d.items@.map_values(|h: HeadingItem| heading_view(h)),
        included: d.included,
    }
}

pub open spec fn doc_views(ds: Seq<DocToc>) -> Seq<DocView> {
    ds.map_values(|d: DocToc| doc_view(d))
}

/// A document's title in the table of contents: its first heading's title,
/// or the document's identifier when it has no heading.
pub open spec fn retitled(d: DocView, idref: Seq<char>) -> DocView {
    DocView {
        title: if d.items.len() == 0 {
            idref
        } else {
            d.items[0].title
        },
        ..d
    }
}

/// Gives a scanned document its title; see `retitled`.
pub fn retitle(doc: &mut DocToc, idref: &str)
    ensures
        doc_view(*final(doc)) == retitled(doc_view(*old(doc)), idref@),
{
    if doc.items.len() == 0 {
        doc.title = string_from(&chars_of(idref));
    } else {
        doc.title = doc.items[0].title.clone();
    }
    assert(doc_view(*doc).items =~= doc_view(*old(doc)).items);
}

/// The result of scanning one document of the reading order: its
/// identifier, its path, and its headings or the error met.
pub type ScanView = (Seq<char>, Seq<char>, Result<DocView, Seq<char>>);

pub open spec fn scan_view(s: (String, String, Result<DocToc, String>)) -> ScanView {
    (s.0@, s.1@, match s.2 {
        Ok(d) => Ok(doc_view(d)),
        Err(e) => Err(e@),
    })
}

pub open spec fn scan_views(s: Seq<(String, String, Result<DocToc, String>)>) -> Seq<ScanView> {
    s.map_values(|x: (String, String, Result<DocToc, String>)| scan_view(x))
}

/// The documents that scanned, retitled, and a message for each that did
/// not (`id (path): error`), in reading order.
pub open spec fn gathered(scans: Seq<ScanView>) -> (Seq<DocView>, Seq<Seq<char>>)
    decreases scans.len(),
{
    if scans.len() == 0 {
        (Seq::empty(), Seq::empty())
    } else {
        let g = gathered(scans.drop_last());
        let s = scans.last();
        match s.2 {
            Ok(d) => (g.0.push(retitled(d, s.0)), g.1),
            Err(e) => (g.0, g.1.push(s.0 + " ("@ + s.1 + "): "@ + e)),
        }
    }
}

/// How many of the scans succeeded.
pub open spec fn scans_ok(scans: Seq<ScanView>) -> nat
    decreases scans.len(),
{
    if scans.len() == 0 {
        0
    } else {
        scans_ok(scans.drop_last()) + if scans.last().2 is Ok {
            1nat
        } else {
            0nat
        }
    }
}

/// Gathering keeps one document per successful scan and one message per
/// failed one, and fails as a whole exactly when every scan failed and
/// there was at least one.
pub proof fn law_toc_data_counts(scans: Seq<ScanView>)
    ensures
        gathered(scans).0.len() == scans_ok(scans),
        gathered(scans).1.len() == scans.len() - scans_ok(scans),
        toc_data_of(scans) is Err <==> (scans_ok(scans) == 0 && scans.len() > 0),
    decreases scans.len(),
{
    if scans.len() > 0 {
        law_toc_data_counts(scans.drop_last());
    }
}

/// The headings of a book for its table of contents, from the scans of its
/// XHTML documents: the documents that scanned and the failures; an error
/// listing the failures when nothing scanned but something failed.
pub open spec fn toc_data_of(scans: Seq<ScanView>) -> Result<(Seq<DocView>, Seq<Seq<char>>), Seq<char>> {
    let g = gathered(scans);
    if g.0.len() == 0 && g.1.len() > 0 {
        Err("No se pudo escanear ningún documento. Errores: "@ + crate::text::join(g.1, "; "@))
    } else {
        Ok(g)
    }
}

pub fn get_toc_data(scans: Vec<(String, String, Result<DocToc, String>)>) -> (r: Result<(Vec<DocToc>, Vec<String>), String>)
    ensures
        match r {
            Ok((d, e)) => toc_data_of(scan_views(scans@)) == Ok::<(Seq<DocView>, Seq<Seq<char>>), Seq<char>>((doc_views(d@), crate::text::views_of(e@))),
            Err(m) => toc_data_of(scan_views(scans@)) == Err::<(Seq<DocView>, Seq<Seq<char>>), Seq<char>>(m@),
        },
{
    let ghost sv = scan_views(scans@);
    let mut data: Vec<DocToc> = Vec::new();
    let mut errors: Vec<String> = Vec::new();
    let mut rest = scans;
    let ghost n = rest.len();
    assert(sv.skip(0) =~= sv);
    assert(sv.take(0) =~= Seq::<ScanView>::empty());
    assert(doc_views(data@) =~= Seq::<DocView>::empty());
    assert(crate::text::views_of(errors@) =~= Seq::<Seq<char>>::empty());
    while rest.len() > 0
        invariant
            rest.len() <= n,
            n == sv.len(),
            scan_views(rest@) == sv.skip(n - rest.len()),
            (doc_views(data@), crate::text::views_of(errors@)) == gathered(sv.take(n - rest.len())),
        decreases rest.len(),
    {
        let ghost k = n - rest.len();
        let ghost before_r = rest@;
        let item = rest.remove(0);
        proof {
            assert(rest@ =~= before_r.skip(1));
            assert(sv.skip(k)[0] == scan_view(item));
            assert forall|j: int| 0 <= j < rest.len() implies scan_views(rest@)[j] == sv.skip(k + 1)[j] by {
                assert(rest@[j] == before_r[j + 1]);
                assert(scan_views(before_r)[j + 1] == scan_view(before_r[j + 1]));
            }
            assert(scan_views(rest@) =~= sv.skip(k + 1));
            assert(sv.take(k + 1).drop_last() =~= sv.take(k));
            assert(sv.take(k + 1).last() == sv[k]);
        }
        let ghost before_d = doc_views(data@);
        let ghost before_e = crate::text::views_of(errors@);
        let (idref, href, result) = item;
        match result {
            Ok(mut doc) => {
                retitle(&mut doc, idref.as_str());
                data.push(doc);
                assert(doc_views(data@) =~= before_d.push(doc_view(doc)));
            },
            Err(e) => {
                let mut msg = idref;
                push_str(&mut msg, " (");
                push_str(&mut msg, href.as_str());
                push_str(&mut msg, "): ");
                push_str(&mut msg, e.as_str());
                errors.push(msg);
                assert(crate::text::views_of(errors@) =~= before_e.push(msg@));
            },
        }
    }
    assert(sv.take(n as int) =~= sv);
    if data.len() == 0 && errors.len() > 0 {
        let mut msg = string_from(&chars_of("No se pudo escanear ningún documento. Errores: "));
        let mut k: usize = 0;
        let ghost ev = crate::text::views_of(errors@);
        let ghost head = msg@;
        while k < errors.len()
            invariant
                k <= errors.len(),
                ev == crate::text::views_of(errors@),
                msg@ == head + crate::text::join(ev.take(k as int), "; "@),
            decreases errors.len() - k,
        {
            if k > 0 {
                push_str(&mut msg, "; ");
            }
            push_str(&mut msg, errors[k].as_str());
            proof {
                let q = ev.take(k + 1);
                assert(q.drop_last() =~= ev.take(k as int));
                assert(q.last() == errors@[k as int]@);
                if k == 0 {
                    assert(q.len() == 1);
                    assert(msg@ =~= head + q[0]);
                } else {
                    assert(msg@ =~= head + (crate::text::join(q.drop_last(), "; "@) + "; "@ + q.last()));
                }
            }
            k += 1;
        }
        assert(ev.take(errors.len() as int) =~= ev);
        return Err(msg);
    }
    Ok((data, errors))
}

/// The headings of every XHTML document of the reading order, retitled, in
/// order; the first scan that failed ends it with its error.
pub open spec fn full_toc_data_of(scans: Seq<ScanView>) -> Result<Seq<DocView>, Seq<char>>
    decreases scans.len(),
{
    if scans.len() == 0 {
        Ok(Seq::empty())
    } else {
        match full_toc_data_of(scans.drop_last()) {
            Err(e) => Err(e),
            Ok(ds) => match scans.last().2 {
                Ok(d) => Ok(ds.push(retitled(d, scans.last().0))),
                Err(e) => Err(e),
            },
        }
    }
}

/// Once a scan has failed, the error stands for every longer run of scans.
proof fn lemma_full_toc_error_stays(scans: Seq<ScanView>, k: int, e: Seq<char>)
    requires
        0 <= k <= scans.len(),
        full_toc_data_of(scans.take(k)) == Err::<Seq<DocView>, Seq<char>>(e),
    ensures
        full_toc_data_of(scans) == Err::<Seq<DocView>, Seq<char>>(e),
    decreases scans.len() - k,
{
    if k < scans.len() {
        assert(scans.take(k + 1).drop_last() =~= scans.take(k));
        lemma_full_toc_error_stays(scans, k + 1, e);
    } else {
        assert(scans.take(k) =~= scans);
    }
}

/// The headings of all the book's XHTML documents; see `full_toc_data_of`.
pub fn get_full_toc_data(scans: Vec<(String, String, Result<DocToc, String>)>) -> (r: Result<Vec<DocToc>, String>)
    ensures
        match r {
            Ok(d) => full_toc_data_of(scan_views(scans@)) == Ok::<Seq<DocView>, Seq<char>>(doc_views(d@)),
            Err(m) => full_toc_data_of(scan_views(scans@)) == Err::<Seq<DocView>, Seq<char>>(m@),
        },
{
    let ghost sv = scan_views(scans@);
    let mut data: Vec<DocToc> = Vec::new();
    let mut rest = scans;
    let ghost n = rest.len();
    assert(sv.skip(0) =~= sv);
    assert(doc_views(data@) =~= Seq::<DocView>::empty());
    while rest.len() > 0
        invariant
            rest.len() <= n,
            n == sv.len(),
            sv == scan_views(scans@),
            scan_views(rest@) == sv.skip(n - rest.len()),
            full_toc_data_of(sv.take(n - rest.len())) == Ok::<Seq<DocView>, Seq<char>>(doc_views(data@)),
        decreases rest.len(),
    {
        let ghost k = n - rest.len();
        let ghost before_r = rest@;
        let item = rest.remove(0);
        proof {
            assert(rest@ =~= before_r.skip(1));
            assert(sv.skip(k)[0] == scan_view(item));
            assert forall|j: int| 0 <= j < rest.len() implies scan_views(rest@)[j] == sv.skip(k + 1)[j] by {
                assert(rest@[j] == before_r[j + 1]);
                assert(scan_views(before_r)[j + 1] == scan_view(before_r[j + 1]));
            }
            assert(scan_views(rest@) =~= sv.skip(k + 1));
            assert(sv.take(k + 1).drop_last() =~= sv.take(k));
            assert(sv.take(k + 1).last() == sv[k]);
        }
        let ghost before_d = doc_views(data@);
        let (idref, _href, result) = item;
        match result {
            Ok(mut doc) => {
                retitle(&mut doc, idref.as_str());
                data.push(doc);
                assert(doc_views(data@) =~= before_d.push(doc_view(doc)));
            },
            Err(e) => {
                proof {
                    assert(sv[k].2 == Err::<DocView, Seq<char>>(e@));
                    assert(full_toc_data_of(sv.take(k + 1)) == Err::<Seq<DocView>, Seq<char>>(e@));
                    lemma_full_toc_error_stays(sv, k + 1, e@);
                }
                return Err(e);
            },
        }
    }
    assert(sv.take(n as int) =~= sv);
    Ok(data)
}

// ---------------------------------------------------------------------------
// Navigation documents
// ---------------------------------------------------------------------------

/// What `pathdiff::diff_paths` makes of two paths: `path` relative to `base`.
pub uninterp spec fn relative_path(path: Seq<char>, base: Seq<char>) -> Option<Seq<char>>;

/// An optional string, taken as text.
pub open spec fn text_option(o: Option<String>) -> Option<Seq<char>> {
    match o {
        Some(x) => Some(x@),
        None => None,
    }
}

/// `pathdiff::diff_paths`, read back as text. The result is named
/// `relative_path`; of its cases the source plainly shows that an absolute
/// `path` against a relative `base` is `path` itself, and a relative `path`
/// against an absolute `base` has no answer. "Absolute" is meant as on Unix
/// (a leading `/`), the platform these clauses are stated for.
#[verifier::external_body]
fn diff_paths(path: &str, base: &str) -> (r: Option<String>)
    ensures
        text_option(r) == relative_path(path@, base@),
        crate::paths::is_absolute(path@) && !crate::paths::is_absolute(base@) ==> text_option(r) == Some(path@),
        !crate::paths::is_absolute(path@) && crate::paths::is_absolute(base@) ==> r is None,
{
    pathdiff::diff_paths(path, base).map(|p| p.to_string_lossy().into_owned())
}

/// What `path_slash::PathExt::to_slash_lossy` writes for a path.
pub uninterp spec fn slash_path(path: Seq<char>) -> Seq<char>;

/// `path_slash::PathExt::to_slash_lossy`. The result is named `slash_path`.
/// On Unix the crate's source makes it the path's own text; on Windows it
/// turns `\\` into `/`, so no more than the name is stated.
#[verifier::external_body]
fn to_slash(path: &str) -> (r: String)
    ensures
        r@ == slash_path(path@),
{
    std::path::Path::new(path).to_slash_lossy().into_owned()
}

/// A document's path relative to a directory, or the path itself when it
/// cannot be made relative.
pub open spec fn relative_or_same(path: Seq<char>, base: Seq<char>) -> Seq<char> {
    match relative_path(path, base) {
        Some(r) => r,
        None => path,
    }
}

pub open spec fn with_anchor(href: Seq<char>, anchor: Seq<char>) -> Seq<char> {
    if anchor.len() == 0 {
        href
    } else {
        href + seq!['#'] + anchor
    }
}

/// Whether any heading of a document is kept.
pub open spec fn has_visible(items: Seq<HeadingView>) -> bool {
    exists|i: int| 0 <= i < items.len() && (#[trigger] items[i]).included
}

/// The entries (level, title, target) one document contributes: each kept
/// heading, or, when none is kept, the document itself at level 1; nothing
/// for a document left out.
pub open spec fn doc_entries(d: DocView, rel: Seq<char>) -> Seq<(u8, Seq<char>, Seq<char>)> {
    if !d.included {
        Seq::empty()
    } else if has_visible(d.items) {
        d.items.filter(|h: HeadingView| h.included).map_values(
            |h: HeadingView| (h.level, h.title, with_anchor(rel, h.anchor)),
        )
    } else {
        seq![(1u8, d.title, rel)]
    }
}

/// The entries of the EPUB 2 table of contents, for a file in `ncx_dir`.
pub open spec fn ncx_entries(data: Seq<DocView>, ncx_dir: Seq<char>) -> Seq<(u8, Seq<char>, Seq<char>)>
    decreases data.len(),
{
    if data.len() == 0 {
        Seq::empty()
    } else {
        ncx_entries(data.drop_last(), ncx_dir) + doc_entries(
            data.last(),
            crate::text::replace_char(relative_or_same(data.last().href, ncx_dir), '\\', '/'),
        )
    }
}

fn visible(items: &Vec<HeadingItem>) -> (r: bool)
    ensures
        r == has_visible(items@.map_values(|h: HeadingItem| heading_view(h))),
{
    let ghost hv = items@.map_values(|h: HeadingItem| heading_view(h));
    let mut i: usize = 0;
    while i < items.len()
        invariant
            i <= items.len(),
            hv == items@.map_values(|h: HeadingItem| heading_view(h)),
            forall|j: int| 0 <= j < i ==> !(#[trigger] hv[j]).included,
        decreases items.len() - i,
    {
        if items[i].included {
            assert(hv[i as int].included);
            return true;
        }
        i += 1;
    }
    false
}

fn push_doc_entries(entries: &mut Vec<(u8, String, String)>, d: &DocToc, rel: &String)
    ensures
        entry_views(final(entries)@) == entry_views(old(entries)@) + doc_entries(doc_view(*d), rel@),
{
    let ghost before = entry_views(entries@);
    if !d.included {
        assert(entry_views(entries@) =~= before + Seq::<(u8, Seq<char>, Seq<char>)>::empty());
        return;
    }
    if visible(&d.items) {
        let ghost hv = d.items@.map_values(|h: HeadingItem| heading_view(h));
        let ghost f = |h: HeadingView| h.included;
        let ghost g = |h: HeadingView| (h.level, h.title, with_anchor(rel@, h.anchor));
        let mut i: usize = 0;
        while i < d.items.len()
            invariant
                i <= d.items.len(),
                hv == d.items@.map_values(|h: HeadingItem| heading_view(h)),
                f == (|h: HeadingView| h.included),
                g == (|h: HeadingView| (h.level, h.title, with_anchor(rel@, h.anchor))),
                entry_views(entries@) == before + hv.take(i as int).filter(f).map_values(g),
            decreases d.items.len() - i,
        {
            proof {
                assert(hv.take(i + 1) =~= hv.take(i as int).push(hv[i as int]));
                hv.take(i as int).lemma_filter_push(hv[i as int], f);
            }
            let h = &d.items[i];
            if h.included {
                let mut href = rel.clone();
                if !h.anchor.as_str().is_empty() {
                    push_char(&mut href, '#');
                    push_str(&mut href, h.anchor.as_str());
                }
                assert(href@ =~= with_anchor(rel@, hv[i as int].anchor));
                let ghost pre = entry_views(entries@);
                let title = h.title.clone();
                assert(title@ == hv[i as int].title);
                entries.push((h.level, title, href));
                proof {
                    let fl = hv.take(i as int).filter(f);
                    assert(fl.push(hv[i as int]).map_values(g) =~= fl.map_values(g).push(g(hv[i as int])));
                    assert(entry_views(entries@) =~= pre.push(g(hv[i as int])));
                }
            }
            i += 1;
        }
        assert(hv.take(d.items.len() as int) =~= hv);
    } else {
        entries.push((1, d.title.clone(), rel.clone()));
        assert(entry_views(entries@) =~= before + seq![(1u8, d.title@, rel@)]);
    }
}

pub open spec fn entry_views(es: Seq<(u8, String, String)>) -> Seq<(u8, Seq<char>, Seq<char>)> {
    es.map_values(|e: (u8, String, String)| (e.0, e.1@, e.2@))
}

fn replace_backslashes(s: &String) -> (r: String)
    ensures
        r@ == crate::text::replace_char(s@, '\\', '/'),
{
    let v = chars_of(s.as_str());
    let mut r = String::new();
    let mut i: usize = 0;
    while i < v.len()
        invariant
            i <= v.len(),
            v@ == s@,
            r@ == crate::text::replace_char(v@, '\\', '/').take(i as int),
        decreases v.len() - i,
    {
        if v[i] == '\\' {
            push_char(&mut r, '/');
        } else {
            push_char(&mut r, v[i]);
        }
        assert(r@ =~= crate::text::replace_char(v@, '\\', '/').take(i + 1));
        i += 1;
    }
    assert(crate::text::replace_char(v@, '\\', '/').take(v.len() as int) =~= crate::text::replace_char(v@, '\\', '/'));
    r
}

/// The entries of the EPUB 2 table of contents; see `ncx_entries`.
pub fn build_ncx_entries(data: &[DocToc], ncx_dir: &str) -> (r: Vec<(u8, String, String)>)
    ensures
        entry_views(r@) == ncx_entries(doc_views(data@), ncx_dir@),
{
    let mut entries: Vec<(u8, String, String)> = Vec::new();
    let mut k: usize = 0;
    assert(entry_views(entries@) =~= Seq::<(u8, Seq<char>, Seq<char>)>::empty());
    while k < data.len()
        invariant
            k <= data.len(),
            entry_views(entries@) == ncx_entries(doc_views(data@).take(k as int), ncx_dir@),
        decreases data.len() - k,
    {
        let d = &data[k];
        let rel = match diff_paths(d.href.as_str(), ncx_dir) {
            Some(r) => r,
            None => d.href.clone(),
        };
        let rel = replace_backslashes(&rel);
        proof {
            let dv = doc_views(data@);
            assert(dv.take(k + 1).drop_last() =~= dv.take(k as int));
            assert(dv.take(k + 1).last() == doc_view(*d));
        }
        push_doc_entries(&mut entries, d, &rel);
        k += 1;
    }
    assert(doc_views(data@).take(data.len() as int) =~= doc_views(data@));
    entries
}

/// A text given, or a default in its place.
pub open spec fn text_or(o: Option<&str>, default: Seq<char>) -> Seq<char> {
    match o {
        Some(t) => t@,
        None => default,
    }
}

/// The deepest level among the entries; 1 when there are none.
pub open spec fn max_level(es: Seq<(u8, Seq<char>, Seq<char>)>) -> u8
    decreases es.len(),
{
    if es.len() == 0 {
        1
    } else if es.len() == 1 {
        es[0].0
    } else {
        let m = max_level(es.drop_last());
        if es.last().0 > m {
            es.last().0
        } else {
            m
        }
    }
}

pub open spec fn nav_point(index: nat, title: Seq<char>, href: Seq<char>) -> Seq<char> {
    let n = crate::numbers::decimal_digits(index + 1);
    "    <navPoint id=\"navPoint-"@ + n + "\" playOrder=\""@ + n + "\">\n"@ + "      <navLabel><text>"@
        + xml_escaped(title) + "</text></navLabel>\n"@ + "      <content src=\""@ + xml_escaped(href) + "\"/>\n"@
        + "    </navPoint>\n"@
}

pub open spec fn nav_points(es: Seq<(u8, Seq<char>, Seq<char>)>) -> Seq<char>
    decreases es.len(),
{
    if es.len() == 0 {
        Seq::empty()
    } else {
        nav_points(es.drop_last()) + nav_point((es.len() - 1) as nat, es.last().1, es.last().2)
    }
}

/// The EPUB 2 table of contents (`toc.ncx`) for a book's title and
/// identifier and its entries.
pub open spec fn ncx_document(title: Seq<char>, identifier: Seq<char>, es: Seq<(u8, Seq<char>, Seq<char>)>) -> Seq<char> {
    "<?xml version=\"1.0\" encoding=\"UTF-8\"?>\n"@
        + "<ncx xmlns=\"http://www.daisy.org/z3986/2005/ncx/\" version=\"2005-1\">\n"@ + "  <head>\n"@
        + "    <meta name=\"dtb:uid\" content=\""@ + xml_escaped(identifier) + "\"/>\n"@
        + "    <meta name=\"dtb:depth\" content=\""@ + crate::numbers::decimal_digits(max_level(es) as nat)
        + "\"/>\n"@ + "    <meta name=\"dtb:totalPageCount\" content=\"0\"/>\n"@
        + "    <meta name=\"dtb:maxPageNumber\" content=\"0\"/>\n"@ + "  </head>\n"@ + "  <docTitle>\n"@
        + "    <text>"@ + xml_escaped(title) + "</text>\n"@ + "  </docTitle>\n"@ + "  <navMap>\n"@ + nav_points(es)
        + "  </navMap>\n"@ + "</ncx>\n"@
}

fn max_level_exec(es: &Vec<(u8, String, String)>) -> (m: u8)
    ensures
        m == max_level(entry_views(es@)),
{
    let ghost ev = entry_views(es@);
    if es.len() == 0 {
        return 1;
    }
    let mut m = es[0].0;
    let mut i: usize = 1;
    assert(ev.take(1) =~= seq![ev[0]]);
    while i < es.len()
        invariant
            1 <= i <= es.len(),
            ev == entry_views(es@),
            m == max_level(ev.take(i as int)),
        decreases es.len() - i,
    {
        assert(ev.take(i + 1).drop_last() =~= ev.take(i as int));
        if es[i].0 > m {
            m = es[i].0;
        }
        i += 1;
    }
    assert(ev.take(es.len() as int) =~= ev);
    m
}

/// The EPUB 2 table of contents; see `ncx_document`.
pub fn build_ncx_document(title: Option<&str>, identifier: Option<&str>, entries: &Vec<(u8, String, String)>) -> (r: String)
    ensures
        r@ == ncx_document(text_or(title, "Índice"@), text_or(identifier, ""@), entry_views(entries@)),
{
    proof {
        reveal_strlit("Índice");
        reveal_strlit("");
    }
    let title = match title {
        Some(t) => t,
        None => "Índice",
    };
    let identifier = match identifier {
        Some(i) => i,
        None => "",
    };
    let mut ncx = String::new();
    push_str(&mut ncx, "<?xml version=\"1.0\" encoding=\"UTF-8\"?>\n");
    push_str(&mut ncx, "<ncx xmlns=\"http://www.daisy.org/z3986/2005/ncx/\" version=\"2005-1\">\n");
    push_str(&mut ncx, "  <head>\n");
    push_str(&mut ncx, "    <meta name=\"dtb:uid\" content=\"");
    push_str(&mut ncx, escape_xml(identifier).as_str());
    push_str(&mut ncx, "\"/>\n");
    push_str(&mut ncx, "    <meta name=\"dtb:depth\" content=\"");
    crate::numbers::push_decimal(&mut ncx, max_level_exec(entries) as u64);
    push_str(&mut ncx, "\"/>\n");
    push_str(&mut ncx, "    <meta name=\"dtb:totalPageCount\" content=\"0\"/>\n");
    push_str(&mut ncx, "    <meta name=\"dtb:maxPageNumber\" content=\"0\"/>\n");
    push_str(&mut ncx, "  </head>\n");
    push_str(&mut ncx, "  <docTitle>\n");
    push_str(&mut ncx, "    <text>");
    push_str(&mut ncx, escape_xml(title).as_str());
    push_str(&mut ncx, "</text>\n");
    push_str(&mut ncx, "  </docTitle>\n");
    push_str(&mut ncx, "  <navMap>\n");
    let ghost head = ncx@;
    let ghost ev = entry_views(entries@);
    let mut i: usize = 0;
    while i < entries.len()
        invariant
            i <= entries.len(),
            ev == entry_views(entries@),
            ncx@ == head + nav_points(ev.take(i as int)),
        decreases entries.len() - i,
    {
        let ghost before = ncx@;
        let n = (i as u64) + 1;
        push_str(&mut ncx, "    <navPoint id=\"navPoint-");
        crate::numbers::push_decimal(&mut ncx, n);
        push_str(&mut ncx, "\" playOrder=\"");
        crate::numbers::push_decimal(&mut ncx, n);
        push_str(&mut ncx, "\">\n");
        push_str(&mut ncx, "      <navLabel><text>");
        push_str(&mut ncx, escape_xml(entries[i].1.as_str()).as_str());
        push_str(&mut ncx, "</text></navLabel>\n");
        push_str(&mut ncx, "      <content src=\"");
        push_str(&mut ncx, escape_xml(entries[i].2.as_str()).as_str());
        push_str(&mut ncx, "\"/>\n");
        push_str(&mut ncx, "    </navPoint>\n");
        proof {
            assert(ev.take(i + 1).drop_last() =~= ev.take(i as int));
            assert(ev.take(i + 1).last() == ev[i as int]);
            assert(ncx@ =~= before + nav_point(i as nat, ev[i as int].1, ev[i as int].2));
        }
        i += 1;
    }
    assert(ev.take(entries.len() as int) =~= ev);
    push_str(&mut ncx, "  </navMap>\n");
    push_str(&mut ncx, "</ncx>\n");
    ncx
}

/// The entries of the EPUB 3 navigation document, whose file is in `Text`.
pub open spec fn nav_entries(data: Seq<DocView>) -> Seq<(u8, Seq<char>, Seq<char>)>
    decreases data.len(),
{
    if data.len() == 0 {
        Seq::empty()
    } else {
        nav_entries(data.drop_last()) + doc_entries(
            data.last(),
            slash_path(relative_or_same(data.last().href, "Text"@)),
        )
    }
}

/// The entries of the EPUB 3 navigation document; see `nav_entries`.
pub fn build_nav_entries(data: &[DocToc]) -> (r: Vec<(u8, String, String)>)
    ensures
        entry_views(r@) == nav_entries(doc_views(data@)),
{
    let mut entries: Vec<(u8, String, String)> = Vec::new();
    let mut k: usize = 0;
    assert(entry_views(entries@) =~= Seq::<(u8, Seq<char>, Seq<char>)>::empty());
    while k < data.len()
        invariant
            k <= data.len(),
            entry_views(entries@) == nav_entries(doc_views(data@).take(k as int)),
        decreases data.len() - k,
    {
        let d = &data[k];
        let rel = match diff_paths(d.href.as_str(), "Text") {
            Some(r) => r,
            None => d.href.clone(),
        };
        let rel = to_slash(rel.as_str());
        proof {
            let dv = doc_views(data@);
            assert(dv.take(k + 1).drop_last() =~= dv.take(k as int));
            assert(dv.take(k + 1).last() == doc_view(*d));
        }
        push_doc_entries(&mut entries, d, &rel);
        k += 1;
    }
    assert(doc_views(data@).take(data.len() as int) =~= doc_views(data@));
    entries
}

pub open spec fn nav_item(title: Seq<char>, href: Seq<char>) -> Seq<char> {
    "      <li><a href=\""@ + href + "\">"@ + title + "</a></li>\n"@
}

pub open spec fn nav_items(es: Seq<(u8, Seq<char>, Seq<char>)>) -> Seq<char>
    decreases es.len(),
{
    if es.len() == 0 {
        Seq::empty()
    } else {
        nav_items(es.drop_last()) + nav_item(es.last().1, es.last().2)
    }
}

/// The EPUB 3 navigation document (`nav.xhtml`) for a book's language and
/// title and its entries. Titles and targets are written as they are.
pub open spec fn nav_document(lang: Seq<char>, title: Seq<char>, es: Seq<(u8, Seq<char>, Seq<char>)>) -> Seq<char> {
    "<?xml version=\"1.0\" encoding=\"UTF-8\"?>\n"@
        + "<html xmlns=\"http://www.w3.org/1999/xhtml\" xmlns:epub=\"http://www.idpf.org/2007/ops\" lang=\""@ + lang
        + "\" xml:lang=\""@ + lang + "\">\n"@ + "<head>\n"@ + "  <meta charset=\"utf-8\"/>\n"@ + "  <title>"@ + title
        + "</title>\n"@ + "</head>\n"@ + "<body>\n"@ + "  <nav epub:type=\"toc\" id=\"toc\">\n"@ + "    <h1>"@ + title
        + "</h1>\n"@ + "    <ol>\n"@ + nav_items(es) + "    </ol>\n"@ + "  </nav>\n"@ + "</body>\n"@ + "</html>\n"@
}

/// The EPUB 3 navigation document; see `nav_document`. The language is
/// `es` and the title `Índice` when the book gives none.
pub fn build_nav_document(language: Option<&str>, title: Option<&str>, entries: &Vec<(u8, String, String)>) -> (r: String)
    ensures
        r@ == nav_document(text_or(language, "es"@), text_or(title, "Índice"@), entry_views(entries@)),
{
    proof {
        reveal_strlit("Índice");
        reveal_strlit("es");
    }
    let lang = match language {
        Some(l) => l,
        None => "es",
    };
    let title = match title {
        Some(t) => t,
        None => "Índice",
    };
    let mut html = String::new();
    push_str(&mut html, "<?xml version=\"1.0\" encoding=\"UTF-8\"?>\n");
    push_str(&mut html, "<html xmlns=\"http://www.w3.org/1999/xhtml\" xmlns:epub=\"http://www.idpf.org/2007/ops\" lang=\"");
    push_str(&mut html, lang);
    push_str(&mut html, "\" xml:lang=\"");
    push_str(&mut html, lang);
    push_str(&mut html, "\">\n");
    push_str(&mut html, "<head>\n");
    push_str(&mut html, "  <meta charset=\"utf-8\"/>\n");
    push_str(&mut html, "  <title>");
    push_str(&mut html, title);
    push_str(&mut html, "</title>\n");
    push_str(&mut html, "</head>\n");
    push_str(&mut html, "<body>\n");
    push_str(&mut html, "  <nav epub:type=\"toc\" id=\"toc\">\n");
    push_str(&mut html, "    <h1>");
    push_str(&mut html, title);
    push_str(&mut html, "</h1>\n");
    push_str(&mut html, "    <ol>\n");
    let ghost head = html@;
    let ghost ev = entry_views(entries@);
    let mut i: usize = 0;
    while i < entries.len()
        invariant
            i <= entries.len(),
            ev == entry_views(entries@),
            html@ == head + nav_items(ev.take(i as int)),
        decreases entries.len() - i,
    {
        let ghost before = html@;
        push_str(&mut html, "      <li><a href=\"");
        push_str(&mut html, entries[i].2.as_str());
        push_str(&mut html, "\">");
        push_str(&mut html, entries[i].1.as_str());
        push_str(&mut html, "</a></li>\n");
        proof {
            assert(ev.take(i + 1).drop_last() =~= ev.take(i as int));
            assert(ev.take(i + 1).last() == ev[i as int]);
            assert(html@ =~= before + nav_item(ev[i as int].1, ev[i as int].2));
        }
        i += 1;
    }
    assert(ev.take(entries.len() as int) =~= ev);
    push_str(&mut html, "    </ol>\n");
    push_str(&mut html, "  </nav>\n");
    push_str(&mut html, "</body>\n");
    push_str(&mut html, "</html>\n");
    html
}

// ---------------------------------------------------------------------------
// The table of contents read back
// ---------------------------------------------------------------------------

pub open spec fn toc_entry_view(e: TocEntry) -> (Seq<char>, Seq<char>, u8) {
    (e.title@, e.href@, e.level)
}

pub open spec fn toc_views(es: Seq<TocEntry>) -> Seq<(Seq<char>, Seq<char>, u8)> {
    es.map_values(|e: TocEntry| toc_entry_view(e))
}

/// The entries one document's headings give, all of them, each pointing
/// into the document by its path from `Text`.
pub open spec fn heading_entries(d: DocView) -> Seq<(Seq<char>, Seq<char>, u8)> {
    let rel = relative_or_same(d.href, "Text"@);
    d.items.map_values(|h: HeadingView| (h.title, with_anchor(rel, h.anchor), h.level))
}

/// The table of contents made from the documents' headings.
pub open spec fn headings_toc(data: Seq<DocView>) -> Seq<(Seq<char>, Seq<char>, u8)>
    decreases data.len(),
{
    if data.len() == 0 {
        Seq::empty()
    } else {
        headings_toc(data.drop_last()) + heading_entries(data.last())
    }
}

/// The table of contents made from the documents' headings; see
/// `headings_toc`.
pub fn toc_from_headings(data: &[DocToc]) -> (r: Vec<TocEntry>)
    ensures
        toc_views(r@) == headings_toc(doc_views(data@)),
{
    let mut entries: Vec<TocEntry> = Vec::new();
    let mut k: usize = 0;
    assert(toc_views(entries@) =~= Seq::<(Seq<char>, Seq<char>, u8)>::empty());
    while k < data.len()
        invariant
            k <= data.len(),
            toc_views(entries@) == headings_toc(doc_views(data@).take(k as int)),
        decreases data.len() - k,
    {
        let d = &data[k];
        let rel = match diff_paths(d.href.as_str(), "Text") {
            Some(r) => r,
            None => d.href.clone(),
        };
        let ghost dv = doc_view(*d);
        let ghost head = toc_views(entries@);
        let ghost f = |h: HeadingView| (h.title, with_anchor(rel@, h.anchor), h.level);
        let mut i: usize = 0;
        while i < d.items.len()
            invariant
                i <= d.items.len(),
                dv == doc_view(*d),
                rel@ == relative_or_same(dv.href, "Text"@),
                f == (|h: HeadingView| (h.title, with_anchor(rel@, h.anchor), h.level)),
                toc_views(entries@) == head + dv.items.take(i as int).map_values(f),
            decreases d.items.len() - i,
        {
            let h = &d.items[i];
            let mut href = rel.clone();
            if !h.anchor.as_str().is_empty() {
                push_char(&mut href, '#');
                push_str(&mut href, h.anchor.as_str());
            }
            assert(href@ =~= with_anchor(rel@, h.anchor@));
            let title = h.title.clone();
            assert(title@ == h.title@);
            let ghost before = toc_views(entries@);
            entries.push(TocEntry { title, href, level: h.level });
            proof {
                assert(dv.items[i as int] == heading_view(*h));
                assert(dv.items.take(i + 1) =~= dv.items.take(i as int).push(dv.items[i as int]));
                assert(toc_views(entries@) =~= before.push(f(dv.items[i as int])));
                assert(dv.items.take(i + 1).map_values(f) =~= dv.items.take(i as int).map_values(f).push(
                    f(dv.items[i as int]),
                ));
            }
            i += 1;
        }
        proof {
            assert(dv.items.take(d.items.len() as int) =~= dv.items);
            let all = doc_views(data@);
            assert(all.take(k + 1).drop_last() =~= all.take(k as int));
            assert(all.take(k + 1).last() == dv);
        }
        k += 1;
    }
    assert(doc_views(data@).take(data.len() as int) =~= doc_views(data@));
    entries
}

/// The book's table of contents: the EPUB 2 one when it has entries, else
/// the EPUB 3 one when it has entries, else one made from the headings;
/// the first error met on the way is the answer.
pub open spec fn toc_choice(
    ncx: Result<Option<Seq<(Seq<char>, Seq<char>, u8)>>, Seq<char>>,
    nav: Result<Option<Seq<(Seq<char>, Seq<char>, u8)>>, Seq<char>>,
    full: Result<Seq<DocView>, Seq<char>>,
) -> Result<Seq<(Seq<char>, Seq<char>, u8)>, Seq<char>> {
    match ncx {
        Err(e) => Err(e),
        Ok(Some(es)) => Ok(es),
        Ok(None) => match nav {
            Err(e) => Err(e),
            Ok(Some(es)) => Ok(es),
            Ok(None) => match full {
                Err(e) => Err(e),
                Ok(d) => Ok(headings_toc(d)),
            },
        },
    }
}

pub open spec fn toc_read_view(r: Result<Option<Vec<TocEntry>>, String>) -> Result<Option<Seq<(Seq<char>, Seq<char>, u8)>>, Seq<char>> {
    match r {
        Err(e) => Err(e@),
        Ok(Some(es)) => Ok(Some(toc_views(es@))),
        Ok(None) => Ok(None),
    }
}

pub open spec fn docs_read_view(r: Result<Vec<DocToc>, String>) -> Result<Seq<DocView>, Seq<char>> {
    match r {
        Err(e) => Err(e@),
        Ok(d) => Ok(doc_views(d@)),
    }
}

/// The book's table of contents from what its EPUB 2 and EPUB 3 tables
/// gave when read and what scanning its documents gave; see `toc_choice`.
pub fn get_toc(
    ncx: Result<Option<Vec<TocEntry>>, String>,
    nav: Result<Option<Vec<TocEntry>>, String>,
    full_data: Result<Vec<DocToc>, String>,
) -> (r: Result<Vec<TocEntry>, String>)
    ensures
        match r {
            Ok(es) => toc_choice(toc_read_view(ncx), toc_read_view(nav), docs_read_view(full_data)) == Ok::<
                Seq<(Seq<char>, Seq<char>, u8)>,
                Seq<char>,
            >(toc_views(es@)),
            Err(e) => toc_choice(toc_read_view(ncx), toc_read_view(nav), docs_read_view(full_data)) == Err::<
                Seq<(Seq<char>, Seq<char>, u8)>,
                Seq<char>,
            >(e@),
        },
{
    match ncx {
        Err(e) => {
            return Err(e);
        },
        Ok(Some(es)) => {
            return Ok(es);
        },
        Ok(None) => {},
    }
    match nav {
        Err(e) => {
            return Err(e);
        },
        Ok(Some(es)) => {
            return Ok(es);
        },
        Ok(None) => {},
    }
    match full_data {
        Err(e) => Err(e),
        Ok(d) => Ok(toc_from_headings(&d)),
    }
}

// ---------------------------------------------------------------------------
// Headings of a document
// ---------------------------------------------------------------------------

/// The level of a heading element by its lower-cased local name: `h1` to
/// `h6` give 1 to 6.
pub open spec fn heading_level(tag: Seq<char>) -> Option<u8> {
    if tag.len() == 2 && tag[0] == 'h' && '1' <= tag[1] <= '6' {
        Some((tag[1] as u32 - '0' as u32) as u8)
    } else {
        None
    }
}

/// The headings among the first `upto` nodes, in document order: each
/// kept, titled by the trimmed text within it, anchored by its `id`.
pub open spec fn headings_in(ns: Seq<crate::xml::XmlNodeView>, upto: int) -> Seq<HeadingView>
    decreases upto,
{
    if upto <= 0 {
        Seq::empty()
    } else {
        let k = upto - 1;
        let before = headings_in(ns, k);
        if ns[k].0 {
            match heading_level(lowercase(ns[k].2)) {
                Some(level) => before.push(
                    HeadingView {
                        level,
                        title: crate::text::trim(crate::xml::subtree_text(ns, k)),
                        anchor: match crate::xml::attribute_of(ns[k].3, "id"@) {
                            Some(a) => a,
                            None => Seq::empty(),
                        },
                        included: true,
                    },
                ),
                None => before,
            }
        } else {
            before
        }
    }
}

/// The element `h` followed by a number `d` written in decimal is a heading
/// of level `d` for each `d` from 1 to 6, and no heading for any other number.
pub proof fn law_heading_names_give_their_level(d: nat)
    ensures
        heading_level(seq!['h'] + crate::numbers::decimal_digits(d)) == if 1 <= d <= 6 {
            Some(d as u8)
        } else {
            None
        },
{
    let ds = crate::numbers::decimal_digits(d);
    crate::numbers::lemma_decimal_digits_value(d);
    let t = seq!['h'] + ds;
    if d < 10 {
        assert(ds == seq![(('0' as nat) + d) as char]);
        assert(t[1] == (('0' as nat) + d) as char);
    } else {
        crate::numbers::lemma_decimal_digits_value(d / 10);
        assert(ds.len() >= 2);
    }
}

/// Each `h1` to `h6` element of a document adds, in document order, one
/// heading of that level to the scanned headings.
pub proof fn law_heading_elements_are_listed(ns: Seq<crate::xml::XmlNodeView>, k: int, d: nat)
    requires
        0 <= k < ns.len(),
        ns[k].0,
        lowercase(ns[k].2) == seq!['h'] + crate::numbers::decimal_digits(d),
        1 <= d <= 6,
    ensures
        headings_in(ns, k + 1).drop_last() == headings_in(ns, k),
        headings_in(ns, k + 1).len() == headings_in(ns, k).len() + 1,
        headings_in(ns, k + 1).last().level == d,
{
    law_heading_names_give_their_level(d);
    assert(headings_in(ns, k + 1).drop_last() =~= headings_in(ns, k));
}

/// A scanned document: its path (also its title until one is chosen), the
/// headings found, kept.
pub open spec fn scanned_doc(href: Seq<char>, ns: Seq<crate::xml::XmlNodeView>) -> DocView {
    DocView { href, title: href, items: headings_in(ns, ns.len() as int), included: true }
}

fn heading_level_exec(tag: &str) -> (r: Option<u8>)
    ensures
        r == heading_level(tag@),
{
    let t = chars_of(tag);
    if t.len() == 2 && t[0] == 'h' && '1' <= t[1] && t[1] <= '6' {
        Some((t[1] as u32 - '0' as u32) as u8)
    } else {
        None
    }
}

/// The headings of a parsed document; see `scanned_doc`.
pub fn headings_from_nodes(href: &str, nodes: &Vec<crate::xml::XmlNode>) -> (r: DocToc)
    requires
        crate::xml::well_nested(crate::xml::node_views(nodes@)),
    ensures
        doc_view(r) == scanned_doc(href@, crate::xml::node_views(nodes@)),
{
    let ghost v = crate::xml::node_views(nodes@);
    let mut items: Vec<HeadingItem> = Vec::new();
    let mut k: usize = 0;
    assert(items@.map_values(|h: HeadingItem| heading_view(h)) =~= Seq::<HeadingView>::empty());
    while k < nodes.len()
        invariant
            k <= nodes.len(),
            v == crate::xml::node_views(nodes@),
            crate::xml::well_nested(v),
            items@.map_values(|h: HeadingItem| heading_view(h)) == headings_in(v, k as int),
        decreases nodes.len() - k,
    {
        assert(v[k as int] == crate::xml::node_view(nodes@[k as int]));
        if nodes[k].element {
            let tag = to_lowercase(nodes[k].name.as_str());
            match heading_level_exec(tag.as_str()) {
                Some(level) => {
                    assert(1 <= v[k as int].5 && k + v[k as int].5 <= v.len());
                    let text = crate::xml::collect_subtree_text(nodes, k);
                    let title = crate::text::trim_str(text.as_str());
                    let anchor = match crate::xml::attribute(&nodes[k], "id") {
                        Some(a) => a,
                        None => String::new(),
                    };
                    let ghost before = items@.map_values(|h: HeadingItem| heading_view(h));
                    let item = HeadingItem { level, title, anchor, included: true };
                    items.push(item);
                    assert(items@.map_values(|h: HeadingItem| heading_view(h)) =~= before.push(heading_view(item)));
                },
                None => {},
            }
        }
        k += 1;
    }
    let h = crate::text::string_from(&chars_of(href));
    let t = crate::text::string_from(&chars_of(href));
    DocToc { href: h, title: t, items, included: true }
}

/// The message of a document that does not parse as XML.
pub open spec fn xml_error_message(href: Seq<char>, err: Seq<char>) -> Seq<char> {
    "XML error in "@ + href + ": "@ + err
}

/// Scans an XHTML document's text (its doctype taken out and its void
/// elements closed) for headings: its named entities are made numeric, it
/// is parsed, and the headings read as `headings_from_nodes` does.
pub fn scan_headings(href: &str, content: &str) -> (r: Result<DocToc, String>)
    ensures
        match xml_document(crate::entities::normalize_entities_from(content@, 0)) {
            Ok(ns) => r matches Ok(d) && crate::xml::well_nested(ns) && doc_view(d) == scanned_doc(href@, ns),
            Err(m) => r matches Err(e) && e@ == xml_error_message(href@, m),
        },
{
    let normalized = crate::entities::normalize_html_entities(content);
    match crate::xml::parse_xml(normalized.as_str()) {
        Ok(nodes) => Ok(headings_from_nodes(href, &nodes)),
        Err(e) => {
            let mut m = crate::text::string_from(&chars_of("XML error in "));
            push_str(&mut m, href);
            push_str(&mut m, ": ");
            push_str(&mut m, e.as_str());
            Err(m)
        },
    }
}

// ---------------------------------------------------------------------------
// Reading an EPUB 2 table of contents
// ---------------------------------------------------------------------------

/// What `Path::strip_prefix` leaves of a path once a leading base is taken
/// off, written as text.
pub uninterp spec fn stripped_path(path: Seq<char>, base: Seq<char>) -> Seq<char>;

/// `Path::strip_prefix`, read back as text. Its documentation says it fails
/// exactly when `base` is not a prefix of the path (`Path::starts_with`);
/// what it leaves is named `stripped_path`. The prefix test is stated with
/// the Unix path model of `crate::paths`.
#[verifier::external_body]
fn strip_path_prefix(path: &str, base: &str) -> (r: Option<String>)
    ensures
        r is Some <==> crate::paths::path_starts_with(path@, base@),
        r matches Some(x) ==> x@ == stripped_path(path@, base@),
{
    std::path::Path::new(path).strip_prefix(base).ok().map(|p| p.to_string_lossy().into_owned())
}

/// A link of a navigation file, as the book's package directory sees it:
/// the link resolved against the file's directory and made relative to the
/// package directory, with `/` separators; the link itself when it does not
/// fall within that directory.
pub open spec fn package_href(link: Seq<char>, file_dir: Seq<char>, opf_dir: Seq<char>) -> Seq<char> {
    let resolved = crate::paths::path_join(file_dir, link);
    if crate::paths::path_starts_with(resolved, opf_dir) {
        crate::text::replace_char(stripped_path(resolved, opf_dir), '\\', '/')
    } else {
        link
    }
}

pub fn package_href_exec(link: &str, file_dir: &str, opf_dir: &str) -> (r: String)
    ensures
        r@ == package_href(link@, file_dir@, opf_dir@),
{
    let resolved = crate::paths::join_path(file_dir, link);
    match strip_path_prefix(resolved.as_str(), opf_dir) {
        Some(rel) => replace_backslashes(&rel),
        None => crate::text::string_from(&chars_of(link)),
    }
}

/// The children of a node whose subtree ends at `end`, from `c` on.
pub open spec fn children_from(ns: Seq<crate::xml::XmlNodeView>, c: int, end: int) -> Seq<int>
    decreases end - c,
{
    if c >= end || c < 0 || c >= ns.len() || ns[c].5 == 0 {
        Seq::empty()
    } else {
        if c + ns[c].5 > end {
            seq![c]
        } else {
            seq![c] + children_from(ns, c + ns[c].5, end)
        }
    }
}

pub open spec fn children_of(ns: Seq<crate::xml::XmlNodeView>, k: int) -> Seq<int> {
    children_from(ns, k + 1, k + ns[k].5)
}

/// The first child of a node, among `cs`, that is an element of a name.
pub open spec fn first_element_named(ns: Seq<crate::xml::XmlNodeView>, cs: Seq<int>, name: Seq<char>) -> Option<int>
    decreases cs.len(),
{
    if cs.len() == 0 {
        None
    } else if ns[cs[0]].0 && ns[cs[0]].2 == name {
        Some(cs[0])
    } else {
        first_element_named(ns, cs.drop_first(), name)
    }
}

pub open spec fn text_or_empty(t: Option<Seq<char>>) -> Seq<char> {
    match t {
        Some(x) => x,
        None => Seq::empty(),
    }
}

/// What one child of a `navPoint` sets: a `navLabel` with a `text` element
/// sets the title to that element's trimmed text; a `content` sets the
/// target from its `src`; anything else sets nothing.
pub open spec fn nav_point_step(
    ns: Seq<crate::xml::XmlNodeView>,
    c: int,
    acc: (Seq<char>, Seq<char>),
    ncx_dir: Seq<char>,
    opf_dir: Seq<char>,
) -> (Seq<char>, Seq<char>) {
    if ns[c].2 == "navLabel"@ {
        match first_element_named(ns, children_of(ns, c), "text"@) {
            Some(t) => (crate::text::trim(text_or_empty(ns[t].4)), acc.1),
            None => acc,
        }
    } else if ns[c].2 == "content"@ {
        let src = text_or_empty(crate::xml::attribute_of(ns[c].3, "src"@));
        (acc.0, package_href(src, ncx_dir, opf_dir))
    } else {
        acc
    }
}

pub open spec fn nav_point_fields(
    ns: Seq<crate::xml::XmlNodeView>,
    cs: Seq<int>,
    acc: (Seq<char>, Seq<char>),
    ncx_dir: Seq<char>,
    opf_dir: Seq<char>,
) -> (Seq<char>, Seq<char>)
    decreases cs.len(),
{
    if cs.len() == 0 {
        acc
    } else {
        nav_point_fields(ns, cs.drop_first(), nav_point_step(ns, cs[0], acc, ncx_dir, opf_dir), ncx_dir, opf_dir)
    }
}

/// The level of a `navPoint`: one more than the `navPoint`s around it, kept
/// to a byte.
pub open spec fn nav_point_level(ns: Seq<crate::xml::XmlNodeView>, k: int) -> u8 {
    (((crate::xml::ancestors_named(ns, k, "navPoint"@, k) % 256) + 1) % 256) as u8
}

/// The entries of the `navPoint`s among the first `upto` nodes: title,
/// target and level, for those with both a title and a target.
pub open spec fn ncx_toc_entries(
    ns: Seq<crate::xml::XmlNodeView>,
    upto: int,
    ncx_dir: Seq<char>,
    opf_dir: Seq<char>,
) -> Seq<(Seq<char>, Seq<char>, u8)>
    decreases upto,
{
    if upto <= 0 {
        Seq::empty()
    } else {
        let k = upto - 1;
        let before = ncx_toc_entries(ns, k, ncx_dir, opf_dir);
        if ns[k].0 && ns[k].2 == "navPoint"@ {
            let f = nav_point_fields(ns, children_of(ns, k), (Seq::empty(), Seq::empty()), ncx_dir, opf_dir);
            if f.0.len() > 0 && f.1.len() > 0 {
                before.push((f.0, f.1, nav_point_level(ns, k)))
            } else {
                before
            }
        } else {
            before
        }
    }
}

fn str_is(s: &String, t: &str) -> (r: bool)
    ensures
        r == (s@ == t@),
{
    crate::text::str_eq(s.as_str(), t)
}

/// The first element child of a name of node `k`; see `first_element_named`.
fn first_child_element(nodes: &Vec<crate::xml::XmlNode>, k: usize, name: &str) -> (r: Option<usize>)
    requires
        crate::xml::well_nested(crate::xml::node_views(nodes@)),
        k < nodes.len(),
    ensures
        r matches Some(t) ==> first_element_named(crate::xml::node_views(nodes@), children_of(crate::xml::node_views(nodes@), k as int), name@) == Some(t as int) && k < t < nodes.len(),
        r is None ==> first_element_named(crate::xml::node_views(nodes@), children_of(crate::xml::node_views(nodes@), k as int), name@) is None,
{
    let ghost v = crate::xml::node_views(nodes@);
    assert(v[k as int] == crate::xml::node_view(nodes@[k as int]));
    assert(k + v[k as int].5 <= v.len());
    let end = k + nodes[k].size;
    let mut c = k + 1;
    while c < end
        invariant
            crate::xml::well_nested(v),
            v == crate::xml::node_views(nodes@),
            k < c <= end <= nodes.len(),
            end == k + v[k as int].5,
            first_element_named(v, children_of(v, k as int), name@) == first_element_named(v, children_from(v, c as int, end as int), name@),
        decreases end - c,
    {
        assert(v[c as int] == crate::xml::node_view(nodes@[c as int]));
        assert(c + v[c as int].5 <= end);
        if nodes[c].element && str_is(&nodes[c].name, name) {
            return Some(c);
        }
        assert(children_from(v, c as int, end as int).drop_first() =~= children_from(v, c + v[c as int].5, end as int));
        c = c + nodes[c].size;
    }
    None
}

/// The title and target a `navPoint` gives; see `nav_point_fields`.
fn nav_point_title_href(nodes: &Vec<crate::xml::XmlNode>, k: usize, ncx_dir: &str, opf_dir: &str) -> (r: (String, String))
    requires
        crate::xml::well_nested(crate::xml::node_views(nodes@)),
        k < nodes.len(),
    ensures
        (r.0@, r.1@) == nav_point_fields(crate::xml::node_views(nodes@), children_of(crate::xml::node_views(nodes@), k as int), (Seq::empty(), Seq::empty()), ncx_dir@, opf_dir@),
{
    proof {
        reveal_strlit("navLabel");
        reveal_strlit("content");
    }
    let ghost v = crate::xml::node_views(nodes@);
    assert(v[k as int] == crate::xml::node_view(nodes@[k as int]));
    assert(k + v[k as int].5 <= v.len());
    let end = k + nodes[k].size;
    let mut title = String::new();
    let mut href = String::new();
    let mut c = k + 1;
    while c < end
        invariant
            crate::xml::well_nested(v),
            v == crate::xml::node_views(nodes@),
            k < c <= end <= nodes.len(),
            end == k + v[k as int].5,
            nav_point_fields(v, children_of(v, k as int), (Seq::empty(), Seq::empty()), ncx_dir@, opf_dir@)
                == nav_point_fields(v, children_from(v, c as int, end as int), (title@, href@), ncx_dir@, opf_dir@),
        decreases end - c,
    {
        assert(v[c as int] == crate::xml::node_view(nodes@[c as int]));
        assert(c + v[c as int].5 <= end);
        let ghost acc = (title@, href@);
        if str_is(&nodes[c].name, "navLabel") {
            match first_child_element(nodes, c, "text") {
                Some(t) => {
                    assert(v[t as int] == crate::xml::node_view(nodes@[t as int]));
                    let text = match &nodes[t].text {
                        Some(x) => crate::text::trim_str(x.as_str()),
                        None => String::new(),
                    };
                    proof {
                        if nodes@[t as int].text is None {
                            assert(crate::text::trim(Seq::<char>::empty()) =~= Seq::<char>::empty());
                        }
                    }
                    title = text;
                },
                None => {},
            }
        } else if str_is(&nodes[c].name, "content") {
            let src = match crate::xml::attribute(&nodes[c], "src") {
                Some(x) => x,
                None => String::new(),
            };
            href = package_href_exec(src.as_str(), ncx_dir, opf_dir);
        }
        assert((title@, href@) == nav_point_step(v, c as int, acc, ncx_dir@, opf_dir@));
        assert(children_from(v, c as int, end as int).drop_first() =~= children_from(v, c + v[c as int].5, end as int));
        c = c + nodes[c].size;
    }
    (title, href)
}

/// The entries of an EPUB 2 table of contents, parsed; see
/// `ncx_toc_entries`.
pub fn ncx_entries_from_nodes(nodes: &Vec<crate::xml::XmlNode>, ncx_dir: &str, opf_dir: &str) -> (r: Vec<TocEntry>)
    requires
        crate::xml::well_nested(crate::xml::node_views(nodes@)),
    ensures
        toc_views(r@) == ncx_toc_entries(crate::xml::node_views(nodes@), nodes@.len() as int, ncx_dir@, opf_dir@),
{
    proof {
        reveal_strlit("navPoint");
    }
    let ghost v = crate::xml::node_views(nodes@);
    let mut entries: Vec<TocEntry> = Vec::new();
    let mut k: usize = 0;
    assert(toc_views(entries@) =~= Seq::<(Seq<char>, Seq<char>, u8)>::empty());
    while k < nodes.len()
        invariant
            k <= nodes.len(),
            crate::xml::well_nested(v),
            v == crate::xml::node_views(nodes@),
            toc_views(entries@) == ncx_toc_entries(v, k as int, ncx_dir@, opf_dir@),
        decreases nodes.len() - k,
    {
        assert(v[k as int] == crate::xml::node_view(nodes@[k as int]));
        if nodes[k].element && str_is(&nodes[k].name, "navPoint") {
            let (title, href) = nav_point_title_href(nodes, k, ncx_dir, opf_dir);
            if title.as_str().unicode_len() > 0 && href.as_str().unicode_len() > 0 {
                let depth = crate::xml::count_ancestors_named(nodes, k, "navPoint");
                let level = ((depth % 256) as u8).wrapping_add(1);
                let ghost before = toc_views(entries@);
                let e = TocEntry { title, href, level };
                entries.push(e);
                assert(toc_views(entries@) =~= before.push(toc_entry_view(e)));
            }
        }
        k += 1;
    }
    entries
}

/// Reads an EPUB 2 table of contents (`toc.ncx`), found in `ncx_dir`, for a
/// book whose package directory is `opf_dir`: its doctype is taken out, the
/// text parsed, and its entries read as `ncx_entries_from_nodes` does; none
/// when it has no entry.
pub fn ncx_toc(content: &str, ncx_dir: &str, opf_dir: &str) -> (r: Result<Option<Vec<TocEntry>>, String>)
    ensures
        match xml_document(crate::entities::strip_doctype(content@)) {
            Ok(ns) => crate::xml::well_nested(ns) && (r matches Ok(o) && (match o {
                Some(es) => toc_views(es@) == ncx_toc_entries(ns, ns.len() as int, ncx_dir@, opf_dir@) && es@.len() > 0,
                None => ncx_toc_entries(ns, ns.len() as int, ncx_dir@, opf_dir@).len() == 0,
            })),
            Err(m) => r matches Err(e) && e@ == "XML error in toc.ncx: "@ + m,
        },
{
    let clean = crate::entities::strip_dtd(content);
    match crate::xml::parse_xml(clean.as_str()) {
        Ok(nodes) => {
            let entries = ncx_entries_from_nodes(&nodes, ncx_dir, opf_dir);
            if entries.len() == 0 {
                Ok(None)
            } else {
                Ok(Some(entries))
            }
        },
        Err(e) => {
            let mut m = crate::text::string_from(&chars_of("XML error in toc.ncx: "));
            push_str(&mut m, e.as_str());
            Err(m)
        },
    }
}

// ---------------------------------------------------------------------------
// Reading an EPUB 3 navigation document
// ---------------------------------------------------------------------------

/// The first `nav` element, from node `from` on, whose `type` is `toc`.
pub open spec fn toc_nav_from(ns: Seq<crate::xml::XmlNodeView>, from: int) -> Option<int>
    decreases ns.len() - from,
{
    if from < 0 || from >= ns.len() {
        None
    } else if ns[from].0 && ns[from].2 == "nav"@ && crate::xml::attribute_of(ns[from].3, "type"@) == Some("toc"@) {
        Some(from)
    } else {
        toc_nav_from(ns, from + 1)
    }
}

/// The entry a link gives: an `a` element with an `href` and some text
/// (trimmed) is titled by that text, points where `package_href` says, and
/// sits at the level of the list it is in.
pub open spec fn link_entry(
    ns: Seq<crate::xml::XmlNodeView>,
    c: int,
    level: u8,
    nav_dir: Seq<char>,
    opf_dir: Seq<char>,
) -> Seq<(Seq<char>, Seq<char>, u8)> {
    if ns[c].0 && ns[c].2 == "a"@ {
        match crate::xml::attribute_of(ns[c].3, "href"@) {
            Some(h) => {
                let title = crate::text::trim(text_or_empty(ns[c].4));
                if title.len() > 0 {
                    seq![(title, package_href(h, nav_dir, opf_dir), level)]
                } else {
                    Seq::empty()
                }
            },
            None => Seq::empty(),
        }
    } else {
        Seq::empty()
    }
}

/// The level of the links below a node: one deeper inside an `ol` or `ul`,
/// kept to a byte.
pub open spec fn level_below(ns: Seq<crate::xml::XmlNodeView>, c: int, level: u8) -> u8 {
    if ns[c].0 && (ns[c].2 == "ol"@ || ns[c].2 == "ul"@) {
        ((level as int + 1) % 256) as u8
    } else {
        level
    }
}

/// The links within a node's subtree, in document order, with their levels.
pub open spec fn nav_links_in(
    ns: Seq<crate::xml::XmlNodeView>,
    node: int,
    level: u8,
    nav_dir: Seq<char>,
    opf_dir: Seq<char>,
) -> Seq<(Seq<char>, Seq<char>, u8)>
    decreases ns[node].5, 0int,
{
    if 0 <= node < ns.len() && ns[node].5 >= 1 {
        nav_links_children(ns, node + 1, node + ns[node].5, level, nav_dir, opf_dir)
    } else {
        Seq::empty()
    }
}

/// The links of the children from `c` on, up to `end`, and within them.
pub open spec fn nav_links_children(
    ns: Seq<crate::xml::XmlNodeView>,
    c: int,
    end: int,
    level: u8,
    nav_dir: Seq<char>,
    opf_dir: Seq<char>,
) -> Seq<(Seq<char>, Seq<char>, u8)>
    decreases end - c, 1int,
{
    if c >= end || c < 0 || c >= ns.len() || ns[c].5 == 0 || c + ns[c].5 > end {
        Seq::empty()
    } else {
        link_entry(ns, c, level, nav_dir, opf_dir) + nav_links_in(ns, c, level_below(ns, c, level), nav_dir, opf_dir)
            + nav_links_children(ns, c + ns[c].5, end, level, nav_dir, opf_dir)
    }
}

fn toc_nav(nodes: &Vec<crate::xml::XmlNode>) -> (r: Option<usize>)
    ensures
        r matches Some(k) ==> toc_nav_from(crate::xml::node_views(nodes@), 0) == Some(k as int) && k < nodes.len(),
        r is None ==> toc_nav_from(crate::xml::node_views(nodes@), 0) is None,
{
    proof {
        reveal_strlit("nav");
        reveal_strlit("toc");
    }
    let ghost v = crate::xml::node_views(nodes@);
    let mut k: usize = 0;
    while k < nodes.len()
        invariant
            k <= nodes.len(),
            v == crate::xml::node_views(nodes@),
            toc_nav_from(v, 0) == toc_nav_from(v, k as int),
        decreases nodes.len() - k,
    {
        assert(v[k as int] == crate::xml::node_view(nodes@[k as int]));
        if nodes[k].element && str_is(&nodes[k].name, "nav") {
            match crate::xml::attribute(&nodes[k], "type") {
                Some(t) => {
                    if str_is(&t, "toc") {
                        return Some(k);
                    }
                },
                None => {},
            }
        }
        k += 1;
    }
    None
}

fn link_entry_exec(
    nodes: &Vec<crate::xml::XmlNode>,
    c: usize,
    level: u8,
    nav_dir: &str,
    opf_dir: &str,
    entries: &mut Vec<TocEntry>,
)
    requires
        c < nodes.len(),
    ensures
        toc_views(final(entries)@) == toc_views(old(entries)@) + link_entry(
            crate::xml::node_views(nodes@),
            c as int,
            level,
            nav_dir@,
            opf_dir@,
        ),
{
    proof {
        reveal_strlit("a");
        reveal_strlit("href");
    }
    let ghost v = crate::xml::node_views(nodes@);
    let ghost before = toc_views(entries@);
    assert(v[c as int] == crate::xml::node_view(nodes@[c as int]));
    if nodes[c].element && str_is(&nodes[c].name, "a") {
        match crate::xml::attribute(&nodes[c], "href") {
            Some(h) => {
                let title = match &nodes[c].text {
                    Some(x) => crate::text::trim_str(x.as_str()),
                    None => String::new(),
                };
                proof {
                    if nodes@[c as int].text is None {
                        assert(crate::text::trim(Seq::<char>::empty()) =~= Seq::<char>::empty());
                    }
                }
                if title.as_str().unicode_len() > 0 {
                    let href = package_href_exec(h.as_str(), nav_dir, opf_dir);
                    let e = TocEntry { title, href, level };
                    entries.push(e);
                    assert(toc_views(entries@) =~= before + seq![toc_entry_view(e)]);
                    return;
                }
            },
            None => {},
        }
    }
    assert(toc_views(entries@) =~= before + Seq::<(Seq<char>, Seq<char>, u8)>::empty());
}

/// Adds the links within a node's subtree; see `nav_links_in`.
fn collect_nav_links(
    nodes: &Vec<crate::xml::XmlNode>,
    node: usize,
    level: u8,
    nav_dir: &str,
    opf_dir: &str,
    entries: &mut Vec<TocEntry>,
)
    requires
        crate::xml::well_nested(crate::xml::node_views(nodes@)),
        node < nodes.len(),
    ensures
        toc_views(final(entries)@) == toc_views(old(entries)@) + nav_links_in(
            crate::xml::node_views(nodes@),
            node as int,
            level,
            nav_dir@,
            opf_dir@,
        ),
    decreases nodes@[node as int].size,
{
    proof {
        reveal_strlit("ol");
        reveal_strlit("ul");
    }
    let ghost v = crate::xml::node_views(nodes@);
    let ghost before = toc_views(entries@);
    assert(v[node as int] == crate::xml::node_view(nodes@[node as int]));
    assert(node + v[node as int].5 <= v.len());
    let end = node + nodes[node].size;
    let mut c = node + 1;
    while c < end
        invariant
            crate::xml::well_nested(v),
            v == crate::xml::node_views(nodes@),
            node < c <= end <= nodes.len(),
            end == node + v[node as int].5,
            end == node + nodes@[node as int].size,
            before + nav_links_children(v, node + 1, end as int, level, nav_dir@, opf_dir@) == toc_views(entries@)
                + nav_links_children(v, c as int, end as int, level, nav_dir@, opf_dir@),
        decreases end - c,
    {
        assert(v[c as int] == crate::xml::node_view(nodes@[c as int]));
        assert(c + v[c as int].5 <= end);
        let ghost mid = toc_views(entries@);
        link_entry_exec(nodes, c, level, nav_dir, opf_dir, entries);
        let sub = if nodes[c].element && (str_is(&nodes[c].name, "ol") || str_is(&nodes[c].name, "ul")) {
            level.wrapping_add(1)
        } else {
            level
        };
        assert(sub == level_below(v, c as int, level));
        collect_nav_links(nodes, c, sub, nav_dir, opf_dir, entries);
        proof {
            let here = link_entry(v, c as int, level, nav_dir@, opf_dir@);
            let inner = nav_links_in(v, c as int, sub, nav_dir@, opf_dir@);
            let rest = nav_links_children(v, c + v[c as int].5, end as int, level, nav_dir@, opf_dir@);
            assert(nav_links_children(v, c as int, end as int, level, nav_dir@, opf_dir@) == here + inner + rest);
            assert(toc_views(entries@) == mid + here + inner);
            assert(mid + (here + inner + rest) =~= mid + here + inner + rest);
        }
        c = c + nodes[c].size;
    }
    assert(nav_links_children(v, c as int, end as int, level, nav_dir@, opf_dir@) =~= Seq::<(Seq<char>, Seq<char>, u8)>::empty());
    assert(toc_views(entries@) =~= toc_views(entries@) + Seq::<(Seq<char>, Seq<char>, u8)>::empty());
}

/// The entries of an EPUB 3 navigation document, parsed: the links under
/// its first `nav` of type `toc`, those directly in it at level 1; none
/// without such a `nav`.
pub open spec fn nav_toc_entries(
    ns: Seq<crate::xml::XmlNodeView>,
    nav_dir: Seq<char>,
    opf_dir: Seq<char>,
) -> Option<Seq<(Seq<char>, Seq<char>, u8)>> {
    match toc_nav_from(ns, 0) {
        Some(k) => Some(nav_links_in(ns, k, 1, nav_dir, opf_dir)),
        None => None,
    }
}

/// Reads an EPUB 3 navigation document found in `nav_dir`, for a book whose
/// package directory is `opf_dir`: its doctype is taken out, the text parsed,
/// and its entries read as `nav_toc_entries` says; none when it has no
/// table-of-contents `nav` or that has no entry.
pub fn nav_toc(content: &str, nav_dir: &str, opf_dir: &str) -> (r: Result<Option<Vec<TocEntry>>, String>)
    ensures
        match xml_document(crate::entities::strip_doctype(content@)) {
            Ok(ns) => crate::xml::well_nested(ns) && (r matches Ok(o) && (match o {
                Some(es) => nav_toc_entries(ns, nav_dir@, opf_dir@) == Some(toc_views(es@)) && es@.len() > 0,
                None => match nav_toc_entries(ns, nav_dir@, opf_dir@) {
                    Some(es) => es.len() == 0,
                    None => true,
                },
            })),
            Err(m) => r matches Err(e) && e@ == "XML error in nav.xhtml: "@ + m,
        },
{
    let clean = crate::entities::strip_dtd(content);
    match crate::xml::parse_xml(clean.as_str()) {
        Ok(nodes) => match toc_nav(&nodes) {
            Some(k) => {
                let mut entries: Vec<TocEntry> = Vec::new();
                assert(toc_views(entries@) =~= Seq::<(Seq<char>, Seq<char>, u8)>::empty());
                collect_nav_links(&nodes, k, 1, nav_dir, opf_dir, &mut entries);
                assert(toc_views(entries@) =~= Seq::<(Seq<char>, Seq<char>, u8)>::empty() + nav_links_in(
                    crate::xml::node_views(nodes@),
                    k as int,
                    1,
                    nav_dir@,
                    opf_dir@,
                ));
                if entries.len() == 0 {
                    Ok(None)
                } else {
                    Ok(Some(entries))
                }
            },
            None => Ok(None),
        },
        Err(e) => {
            let mut m = crate::text::string_from(&chars_of("XML error in nav.xhtml: "));
            push_str(&mut m, e.as_str());
            Err(m)
        },
    }
}

// ---------------------------------------------------------------------------
// The reading order's documents and the navigation files' manifest entries
// ---------------------------------------------------------------------------

pub open spec fn xhtml_media_type() -> Seq<char> {
    "application/xhtml+xml"@
}

pub open spec fn ncx_media_type() -> Seq<char> {
    "application/x-dtbncx+xml"@
}

/// The manifest item listed under identifier `id` (the first, should the
/// list hold the identifier twice).
pub open spec fn item_with_id(items: Seq<ManifestItem>, id: Seq<char>) -> Option<ManifestItem>
    decreases items.len(),
{
    if items.len() == 0 {
        None
    } else if items[0].id@ == id {
        Some(items[0])
    } else {
        item_with_id(items.drop_first(), id)
    }
}

/// The first manifest item with the EPUB 2 table-of-contents media type.
pub open spec fn first_ncx_item(items: Seq<ManifestItem>) -> Option<ManifestItem>
    decreases items.len(),
{
    if items.len() == 0 {
        None
    } else if items[0].media_type@ == ncx_media_type() {
        Some(items[0])
    } else {
        first_ncx_item(items.drop_first())
    }
}

/// The documents whose headings make the table of contents: for each
/// identifier of the reading order, in order, its identifier and path when
/// the manifest lists it as XHTML; identifiers the manifest lacks, or lists
/// with another media type, are skipped.
pub open spec fn toc_documents_of(spine: Seq<Seq<char>>, items: Seq<ManifestItem>) -> Seq<(Seq<char>, Seq<char>)>
    decreases spine.len(),
{
    if spine.len() == 0 {
        seq![]
    } else {
        let rest = toc_documents_of(spine.drop_last(), items);
        match item_with_id(items, spine.last()) {
            Some(it) => if it.media_type@ == xhtml_media_type() {
                rest.push((spine.last(), it.href@))
            } else {
                rest
            },
            None => rest,
        }
    }
}

fn find_item(items: &Vec<ManifestItem>, id: &str) -> (r: Option<usize>)
    ensures
        match r {
            Some(i) => i < items.len() && item_with_id(items@, id@) == Some(items@[i as int]),
            None => item_with_id(items@, id@) is None,
        },
{
    let mut i: usize = 0;
    assert(items@.skip(0) =~= items@);
    while i < items.len()
        invariant
            i <= items.len(),
            item_with_id(items@, id@) == item_with_id(items@.skip(i as int), id@),
        decreases items.len() - i,
    {
        assert(items@.skip(i as int)[0] == items@[i as int]);
        assert(items@.skip(i as int).drop_first() =~= items@.skip(i + 1));
        if crate::text::str_eq(items[i].id.as_str(), id) {
            return Some(i);
        }
        i += 1;
    }
    assert(items@.skip(i as int) =~= Seq::<ManifestItem>::empty());
    None
}

fn find_ncx_item(items: &Vec<ManifestItem>) -> (r: Option<usize>)
    ensures
        match r {
            Some(i) => i < items.len() && first_ncx_item(items@) == Some(items@[i as int]),
            None => first_ncx_item(items@) is None,
        },
{
    proof {
        reveal_strlit("application/x-dtbncx+xml");
    }
    let mut i: usize = 0;
    assert(items@.skip(0) =~= items@);
    while i < items.len()
        invariant
            i <= items.len(),
            first_ncx_item(items@) == first_ncx_item(items@.skip(i as int)),
        decreases items.len() - i,
    {
        assert(items@.skip(i as int)[0] == items@[i as int]);
        assert(items@.skip(i as int).drop_first() =~= items@.skip(i + 1));
        if crate::text::str_eq(items[i].media_type.as_str(), "application/x-dtbncx+xml") {
            return Some(i);
        }
        i += 1;
    }
    assert(items@.skip(i as int) =~= Seq::<ManifestItem>::empty());
    None
}

pub open spec fn pair_views(v: Seq<(String, String)>) -> Seq<(Seq<char>, Seq<char>)> {
    v.map_values(|p: (String, String)| (p.0@, p.1@))
}

/// The documents whose headings make the table of contents; see
/// `toc_documents_of`.
pub fn toc_documents(spine: &Vec<String>, items: &Vec<ManifestItem>) -> (r: Vec<(String, String)>)
    ensures
        pair_views(r@) == toc_documents_of(crate::navigation::string_views(spine@), items@),
{
    proof {
        reveal_strlit("application/xhtml+xml");
    }
    let ghost sv = crate::navigation::string_views(spine@);
    let mut r: Vec<(String, String)> = Vec::new();
    let mut k: usize = 0;
    while k < spine.len()
        invariant
            k <= spine.len(),
            sv == crate::navigation::string_views(spine@),
            pair_views(r@) == toc_documents_of(sv.take(k as int), items@),
        decreases spine.len() - k,
    {
        assert(sv.take(k + 1).drop_last() =~= sv.take(k as int));
        assert(sv.take(k + 1).last() == spine@[k as int]@);
        let ghost before = r@;
        if let Some(i) = find_item(items, spine[k].as_str()) {
            if crate::text::str_eq(items[i].media_type.as_str(), "application/xhtml+xml") {
                let id = string_from(&chars_of(spine[k].as_str()));
                let href = string_from(&chars_of(items[i].href.as_str()));
                r.push((id, href));
                assert(pair_views(r@) =~= pair_views(before).push((spine@[k as int]@, items@[i as int].href@)));
            }
        }
        k += 1;
    }
    assert(sv.take(spine.len() as int) =~= sv);
    r
}

/// Where the EPUB 2 table of contents goes, if anywhere: nothing when it was
/// not asked for and the manifest lists none; otherwise the identifier and
/// path of the manifest's first item of the NCX media type, else `ncx` and
/// `toc.ncx`; and whether that identifier must be added to the manifest.
pub open spec fn ncx_plan_of(items: Seq<ManifestItem>, create: bool) -> Option<(Seq<char>, Seq<char>, bool)> {
    match first_ncx_item(items) {
        Some(it) => Some((it.id@, it.href@, item_with_id(items, it.id@) is None)),
        None => if create {
            Some(("ncx"@, "toc.ncx"@, item_with_id(items, "ncx"@) is None))
        } else {
            None
        },
    }
}

pub open spec fn plan_view(r: Option<(String, String, bool)>) -> Option<(Seq<char>, Seq<char>, bool)> {
    match r {
        Some(p) => Some((p.0@, p.1@, p.2)),
        None => None,
    }
}

/// Where the EPUB 2 table of contents goes; see `ncx_plan_of`.
pub fn ncx_plan(items: &Vec<ManifestItem>, create: bool) -> (r: Option<(String, String, bool)>)
    ensures
        plan_view(r) == ncx_plan_of(items@, create),
{
    match find_ncx_item(items) {
        Some(i) => {
            let id = string_from(&chars_of(items[i].id.as_str()));
            let href = string_from(&chars_of(items[i].href.as_str()));
            let missing = find_item(items, id.as_str()).is_none();
            Some((id, href, missing))
        },
        None => if create {
            let missing = find_item(items, "ncx").is_none();
            Some((string_from(&chars_of("ncx")), string_from(&chars_of("toc.ncx")), missing))
        } else {
            None
        },
    }
}

/// The directory an NCX file at `href` (from the package directory `opf_dir`)
/// lives in: the parent of the joined path, else the package directory.
pub open spec fn ncx_dir_of(opf_dir: Seq<char>, href: Seq<char>) -> Seq<char> {
    match crate::paths::parent_path(crate::paths::path_join(opf_dir, href)) {
        Some(p) => p,
        None => opf_dir,
    }
}

pub fn ncx_dir(opf_dir: &str, href: &str) -> (r: String)
    ensures
        r@ == ncx_dir_of(opf_dir@, href@),
{
    let path = crate::paths::join_path(opf_dir, href);
    match crate::paths::parent_of(path.as_str()) {
        Some(p) => p,
        None => string_from(&chars_of(opf_dir)),
    }
}

/// Adds `item` to the manifest unless an item already has its identifier.
pub fn add_if_missing(items: &mut Vec<ManifestItem>, item: ManifestItem)
    ensures
        final(items)@ == if item_with_id(old(items)@, item.id@) is Some {
            old(items)@
        } else {
            old(items)@.push(item)
        },
{
    if find_item(items, item.id.as_str()).is_none() {
        items.push(item);
    }
}

/// The manifest entry of the EPUB 3 navigation document: `nav`,
/// `Text/nav.xhtml`, XHTML, with the `nav` property.
pub fn nav_manifest_item() -> (m: ManifestItem)
    ensures
        m.id@ == "nav"@,
        m.href@ == "Text/nav.xhtml"@,
        m.media_type@ == xhtml_media_type(),
        m.properties@ == "nav"@,
{
    ManifestItem {
        id: string_from(&chars_of("nav")),
        href: string_from(&chars_of("Text/nav.xhtml")),
        media_type: string_from(&chars_of("application/xhtml+xml")),
        properties: string_from(&chars_of("nav")),
    }
}

/// The manifest entry of an EPUB 2 table of contents with the given
/// identifier and path, without properties.
pub fn ncx_manifest_item(id: &str, href: &str) -> (m: ManifestItem)
    ensures
        m.id@ == id@,
        m.href@ == href@,
        m.media_type@ == ncx_media_type(),
        m.properties@ == Seq::<char>::empty(),
{
    ManifestItem {
        id: string_from(&chars_of(id)),
        href: string_from(&chars_of(href)),
        media_type: string_from(&chars_of("application/x-dtbncx+xml")),
        properties: String::new(),
    }
}

/// The first manifest item whose properties mention `nav`: the EPUB 3
/// navigation document.
pub open spec fn first_nav_item(items: Seq<ManifestItem>) -> Option<ManifestItem>
    decreases items.len(),
{
    if items.len() == 0 {
        None
    } else if crate::text::find_from(items[0].properties@, 0, "nav"@) is Some {
        Some(items[0])
    } else {
        first_nav_item(items.drop_first())
    }
}

pub open spec fn href_of(item: Option<ManifestItem>) -> Option<Seq<char>> {
    match item {
        Some(it) => Some(it.href@),
        None => None,
    }
}

fn find_nav_item(items: &Vec<ManifestItem>) -> (r: Option<usize>)
    ensures
        match r {
            Some(i) => i < items.len() && first_nav_item(items@) == Some(items@[i as int]),
            None => first_nav_item(items@) is None,
        },
{
    let nav_chars = chars_of("nav");
    let mut i: usize = 0;
    assert(items@.skip(0) =~= items@);
    while i < items.len()
        invariant
            i <= items.len(),
            nav_chars@ == "nav"@,
            first_nav_item(items@) == first_nav_item(items@.skip(i as int)),
        decreases items.len() - i,
    {
        assert(items@.skip(i as int)[0] == items@[i as int]);
        assert(items@.skip(i as int).drop_first() =~= items@.skip(i + 1));
        let props = chars_of(items[i].properties.as_str());
        if crate::text::find_exec(&props, 0, &nav_chars).is_some() {
            return Some(i);
        }
        i += 1;
    }
    assert(items@.skip(i as int) =~= Seq::<ManifestItem>::empty());
    None
}

/// Where the book's tables of contents are read from: the path of the
/// manifest's first NCX item, and that of its first item with the `nav`
/// property; each when there is one.
pub fn toc_sources(items: &Vec<ManifestItem>) -> (r: (Option<String>, Option<String>))
    ensures
        crate::content::opt_str(r.0) == href_of(first_ncx_item(items@)),
        crate::content::opt_str(r.1) == href_of(first_nav_item(items@)),
{
    let ncx = match find_ncx_item(items) {
        Some(i) => Some(string_from(&chars_of(items[i].href.as_str()))),
        None => None,
    };
    let nav = match find_nav_item(items) {
        Some(i) => Some(string_from(&chars_of(items[i].href.as_str()))),
        None => None,
    };
    (ncx, nav)
}

proof fn lemma_ncx_item_listed(items: Seq<ManifestItem>)
    ensures
        first_ncx_item(items) matches Some(it) ==> item_with_id(items, it.id@) is Some,
    decreases items.len(),
{
    if items.len() > 0 && items[0].media_type@ != ncx_media_type() {
        lemma_ncx_item_listed(items.drop_first());
        if let Some(it) = first_ncx_item(items) {
            if items[0].id@ != it.id@ {
                assert(item_with_id(items, it.id@) == item_with_id(items.drop_first(), it.id@));
            }
        }
    }
}

/// The EPUB 2 table of contents is written exactly when it was asked for or
/// the manifest already lists one; an existing one keeps its identifier and
/// path, and then the manifest gains nothing.
pub proof fn law_ncx_plan(items: Seq<ManifestItem>, create: bool)
    ensures
        ncx_plan_of(items, create) is None <==> (!create && first_ncx_item(items) is None),
        first_ncx_item(items) matches Some(it) ==> ncx_plan_of(items, create) == Some((it.id@, it.href@, false)),
{
    lemma_ncx_item_listed(items);
}

} // verus!
