//! The book library's helpers: sizes and paths shown to the reader, search
//! queries, card designs, preference files, the catalogue server's
//! addresses, desktop applications that open books, and the cover cache.
use std::hash::Hasher;
use vstd::prelude::*;

use crate::numbers::{decimal_digits, parse_unsigned, push_decimal};
use crate::text::{chars_of, push_char, push_str, trim};

verus! {

// ---------------------------------------------------------------------------
// Sizes, paths and queries as shown
// ---------------------------------------------------------------------------

/// `n / d` rounded to the nearest integer, ties to the even one.
pub open spec fn round_half_even(n: nat, d: nat) -> nat
    recommends
        d > 0,
{
    let q = n / d;
    let r = n % d;
    if 2 * r > d || (2 * r == d && q % 2 == 1) {
        q + 1
    } else {
        q
    }
}

/// A size in tenths of a unit, written with one decimal, then the unit.
pub open spec fn with_one_decimal(tenths: nat, unit: Seq<char>) -> Seq<char> {
    decimal_digits(tenths / 10) + seq!['.'] + decimal_digits(tenths % 10) + unit
}

/// A file size for people: bytes below 1 KiB, then KB below 1 MiB, then MB,
/// with one decimal rounded to nearest (ties to even).
pub open spec fn human_size(bytes: nat) -> Seq<char> {
    if bytes >= 1024 * 1024 {
        with_one_decimal(round_half_even(bytes * 10, 1024 * 1024), " MB"@)
    } else if bytes >= 1024 {
        with_one_decimal(round_half_even(bytes * 10, 1024), " KB"@)
    } else {
        decimal_digits(bytes) + " B"@
    }
}

fn tenths_of(bytes: u64, unit: u64) -> (t: u64)
    requires
        unit == 1024 || unit == 1024 * 1024,
    ensures
        t == round_half_even(bytes as nat * 10, unit as nat),
{
    let q = bytes / unit;
    let r = bytes % unit;
    let r10 = r * 10;
    assert(r10 < unit * 10);
    let q2 = r10 / unit;
    let r2 = r10 % unit;
    proof {
        assert(bytes as nat * 10 == (q * 10 + q2) * unit + r2) by (nonlinear_arith)
            requires
                bytes == q * unit + r,
                r10 == r * 10,
                r10 == q2 * unit + r2,
        ;
        assert((bytes as nat * 10) / (unit as nat) == q * 10 + q2) by (nonlinear_arith)
            requires
                bytes as nat * 10 == (q * 10 + q2) * unit + r2,
                0 <= r2 < unit,
                unit > 0,
        ;
        assert((bytes as nat * 10) % (unit as nat) == r2) by (nonlinear_arith)
            requires
                bytes as nat * 10 == (q * 10 + q2) * unit + r2,
                0 <= r2 < unit,
                unit > 0,
        ;
        assert(q <= u64::MAX / unit);
    }
    let t: u64 = (q as u128 * 10 + q2 as u128) as u64;
    proof {
        assert(q * 10 + q2 <= u64::MAX) by (nonlinear_arith)
            requires
                q <= u64::MAX / unit,
                q2 < 10,
                unit >= 1024,
        ;
    }
    let t2: u64 = if 2 * r2 > unit || (2 * r2 == unit && t % 2 == 1) {
        proof {
            assert(t < u64::MAX) by (nonlinear_arith)
                requires
                    t == q * 10 + q2,
                    q <= u64::MAX / unit,
                    q2 < 10,
                    unit >= 1024,
            ;
        }
        t + 1
    } else {
        t
    };
    t2
}

pub fn human_file_size(bytes: u64) -> (s: String)
    ensures
        s@ == human_size(bytes as nat),
{
    let mut s = String::new();
    if bytes >= 1024 * 1024 {
        let t = tenths_of(bytes, 1024 * 1024);
        push_decimal(&mut s, t / 10);
        push_char(&mut s, '.');
        push_decimal(&mut s, t % 10);
        push_str(&mut s, " MB");
    } else if bytes >= 1024 {
        let t = tenths_of(bytes, 1024);
        push_decimal(&mut s, t / 10);
        push_char(&mut s, '.');
        push_decimal(&mut s, t % 10);
        push_str(&mut s, " KB");
    } else {
        push_decimal(&mut s, bytes);
        push_str(&mut s, " B");
    }
    s
}

/// A long text cut in the middle: when it has more than `max_chars`
/// characters, the first and last `(max_chars - 1) / 2` are kept around `…`.
pub open spec fn middle_ellipsis_of(value: Seq<char>, max_chars: nat) -> Seq<char> {
    if value.len() <= max_chars {
        value
    } else {
        let side = if max_chars >= 1 {
            ((max_chars - 1) as nat / 2) as int
        } else {
            0
        };
        value.take(side) + seq!['\u{2026}'] + value.skip(value.len() - side)
    }
}

pub fn middle_ellipsis(value: &str, max_chars: usize) -> (r: String)
    ensures
        r@ == middle_ellipsis_of(value@, max_chars as nat),
{
    let chars = chars_of(value);
    if chars.len() <= max_chars {
        return crate::text::string_from(&chars);
    }
    let side = if max_chars >= 1 {
        (max_chars - 1) / 2
    } else {
        0
    };
    let mut r = crate::text::string_from_range(&chars, 0, side);
    push_char(&mut r, '\u{2026}');
    crate::text::push_range(&mut r, &chars, chars.len() - side, chars.len());
    proof {
        assert(chars@.take(side as int) =~= chars@.subrange(0, side as int));
        assert(chars@.skip(chars.len() - side) =~= chars@.subrange(chars.len() - side, chars.len() as int));
    }
    r
}

/// A full-text query: trimmed, without `"`, with `*` added; none when
/// nothing is left.
pub open spec fn normalized_query_of(query: Seq<char>) -> Option<Seq<char>> {
    let q = crate::text::remove_char(trim(query), '"');
    if q.len() == 0 {
        None
    } else {
        Some(q + seq!['*'])
    }
}

pub fn normalized_query(query: &str) -> (r: Option<String>)
    ensures
        match r {
            Some(s) => normalized_query_of(query@) == Some(s@),
            None => normalized_query_of(query@) is None,
        },
{
    let t = crate::text::trim_str(query);
    let v = chars_of(t.as_str());
    let mut q = String::new();
    let mut i: usize = 0;
    assert(v@.skip(0) =~= v@);
    assert(q@ + crate::text::remove_char(v@, '"') =~= crate::text::remove_char(v@, '"'));
    while i < v.len()
        invariant
            i <= v.len(),
            v@ == trim(query@),
            q@ + crate::text::remove_char(v@.skip(i as int), '"') == crate::text::remove_char(v@, '"'),
        decreases v.len() - i,
    {
        let ghost before = q@;
        let ghost rest = v@.skip(i as int);
        assert(rest[0] == v@[i as int]);
        assert(rest.skip(1) =~= v@.skip(i + 1));
        if v[i] != '"' {
            push_char(&mut q, v[i]);
        }
        assert(q@ + crate::text::remove_char(v@.skip(i + 1), '"') =~= before + crate::text::remove_char(rest, '"'));
        i += 1;
    }
    assert(v@.skip(v.len() as int) =~= Seq::<char>::empty());
    assert(q@ + Seq::<char>::empty() =~= q@);
    if q.as_str().is_empty() {
        None
    } else {
        push_char(&mut q, '*');
        Some(q)
    }
}

// ---------------------------------------------------------------------------
// Sections, statistics and applications
// ---------------------------------------------------------------------------

#[derive(Debug, Clone, Copy, PartialEq, Eq, Structural)]
pub enum Section {
    Library,
    List,
    Stats,
    Settings,
}

/// Library totals shown on the statistics page.
#[derive(Debug, Clone, Default)]
pub struct Stats {
    pub total_books: i64,
    pub reading_time_secs: i64,
    pub authors: usize,
    pub series: usize,
    pub tags: usize,
}

/// A desktop application that opens EPUB books.
#[derive(Debug, Clone)]
pub struct SystemApp {
    pub id: String,
    pub name: String,
}

/// What an application is chosen for.
#[derive(Debug, Clone, Copy, PartialEq, Eq, Structural)]
pub enum AppRole {
    Reader,
    Editor,
}

impl AppRole {
    /// The preference file that records the application for this role.
    pub fn preference_file(self) -> (r: &'static str)
        ensures
            self == AppRole::Reader ==> r@ == "reader-app"@,
            self == AppRole::Editor ==> r@ == "editor-app"@,
    {
        match self {
            AppRole::Reader => "reader-app",
            AppRole::Editor => "editor-app",
        }
    }
}

// ---------------------------------------------------------------------------
// Card designs
// ---------------------------------------------------------------------------

#[derive(Debug, Clone, Copy, PartialEq, Eq, Structural)]
pub enum CardVariant {
    Basic,
    Elevated,
    Gradient,
    Minimal,
    Badges,
    Horizontal,
    Highlighted,
    Progress,
    SecondaryInfo,
    Glass,
    QuickActions,
    Square,
}

pub open spec fn variant_label(v: CardVariant) -> Seq<char> {
    match v {
        CardVariant::Basic => "Básica"@,
        CardVariant::Elevated => "Elevada"@,
        CardVariant::Gradient => "Con gradiente"@,
        CardVariant::Minimal => "Minimal con íconos"@,
        CardVariant::Badges => "Con etiquetas"@,
        CardVariant::Horizontal => "Compacta horizontal"@,
        CardVariant::Highlighted => "Borde resaltado"@,
        CardVariant::Progress => "Con progreso"@,
        CardVariant::SecondaryInfo => "Información secundaria"@,
        CardVariant::Glass => "Vidrio"@,
        CardVariant::QuickActions => "Acción rápida"@,
        CardVariant::Square => "Tile cuadrada"@,
    }
}

impl CardVariant {
    pub fn label(self) -> (r: &'static str)
        ensures
            r@ == variant_label(self),
    {
        match self {
            CardVariant::Basic => "Básica",
            CardVariant::Elevated => "Elevada",
            CardVariant::Gradient => "Con gradiente",
            CardVariant::Minimal => "Minimal con íconos",
            CardVariant::Badges => "Con etiquetas",
            CardVariant::Horizontal => "Compacta horizontal",
            CardVariant::Highlighted => "Borde resaltado",
            CardVariant::Progress => "Con progreso",
            CardVariant::SecondaryInfo => "Información secundaria",
            CardVariant::Glass => "Vidrio",
            CardVariant::QuickActions => "Acción rápida",
            CardVariant::Square => "Tile cuadrada",
        }
    }
}

/// A built-in design for book cards: its id, description and variant.
#[derive(Debug, Clone, Copy)]
pub struct BuiltInCardDesign {
    pub id: &'static str,
    pub description: &'static str,
    pub variant: CardVariant,
}

impl BuiltInCardDesign {
    pub fn id(&self) -> (r: &'static str)
        ensures
            r == self.id,
    {
        self.id
    }

    pub fn label(&self) -> (r: &'static str)
        ensures
            r@ == variant_label(self.variant),
    {
        self.variant.label()
    }

    pub fn description(&self) -> (r: &'static str)
        ensures
            r == self.description,
    {
        self.description
    }
}

/// How many card designs are built in.
pub const SHOWCASE_CARDS: usize = 12;

pub open spec fn design_ids() -> Seq<Seq<char>> {
    seq![
        "basic"@,
        "elevated"@,
        "gradient"@,
        "minimal"@,
        "badges"@,
        "horizontal"@,
        "highlighted"@,
        "progress"@,
        "secondary-info"@,
        "glass"@,
        "quick-actions"@,
        "square"@,
    ]
}

pub open spec fn design_variants() -> Seq<CardVariant> {
    seq![
        CardVariant::Basic,
        CardVariant::Elevated,
        CardVariant::Gradient,
        CardVariant::Minimal,
        CardVariant::Badges,
        CardVariant::Horizontal,
        CardVariant::Highlighted,
        CardVariant::Progress,
        CardVariant::SecondaryInfo,
        CardVariant::Glass,
        CardVariant::QuickActions,
        CardVariant::Square,
    ]
}

/// The built-in card designs, in the order they are offered.
pub fn card_designs() -> (r: Vec<BuiltInCardDesign>)
    ensures
        r.len() == SHOWCASE_CARDS,
        forall|i: int| 0 <= i < r.len() ==> (#[trigger] r@[i]).id@ == design_ids()[i] && r@[i].variant == design_variants()[i],
{
    let r = vec![
        BuiltInCardDesign { id: "basic", description: "Portada, autor y colección con jerarquía clásica.", variant: CardVariant::Basic },
        BuiltInCardDesign { id: "elevated", description: "Separación visual mediante sombra y badge de serie.", variant: CardVariant::Elevated },
        BuiltInCardDesign { id: "gradient", description: "Información superpuesta sobre la parte baja de la portada.", variant: CardVariant::Gradient },
        BuiltInCardDesign { id: "minimal", description: "Tema claro con metadatos e iconografía compacta.", variant: CardVariant::Minimal },
        BuiltInCardDesign { id: "badges", description: "Etiquetas visibles para categorías y favoritos.", variant: CardVariant::Badges },
        BuiltInCardDesign { id: "horizontal", description: "Portada pequeña y datos distribuidos horizontalmente.", variant: CardVariant::Horizontal },
        BuiltInCardDesign { id: "highlighted", description: "Borde de acento para selección o foco destacado.", variant: CardVariant::Highlighted },
        BuiltInCardDesign { id: "progress", description: "Barra y porcentaje de avance de lectura.", variant: CardVariant::Progress },
        BuiltInCardDesign { id: "secondary-info", description: "Puntuación, cantidad de páginas y formato.", variant: CardVariant::SecondaryInfo },
        BuiltInCardDesign { id: "glass", description: "Superficie semitransparente con borde tenue.", variant: CardVariant::Glass },
        BuiltInCardDesign { id: "quick-actions", description: "Accesos directos para vista, favorito y compartir.", variant: CardVariant::QuickActions },
        BuiltInCardDesign { id: "square", description: "Composición simétrica centrada en la portada.", variant: CardVariant::Square },
    ];
    r
}

/// The design with id `id`; the first (basic) design for an unknown id.
pub fn card_design(id: &str) -> (d: BuiltInCardDesign)
    ensures
        design_ids().contains(id@) ==> d.id@ == id@,
        !design_ids().contains(id@) ==> d.id@ == design_ids()[0] && d.variant == CardVariant::Basic,
{
    let designs = card_designs();
    let mut i: usize = 0;
    while i < designs.len()
        invariant
            i <= designs.len(),
            designs.len() == SHOWCASE_CARDS,
            forall|k: int| 0 <= k < designs.len() ==> (#[trigger] designs@[k]).id@ == design_ids()[k] && designs@[k].variant == design_variants()[k],
            forall|k: int| 0 <= k < i ==> design_ids()[k] != id@,
        decreases designs.len() - i,
    {
        if crate::text::str_eq(designs[i].id, id) {
            return designs[i];
        }
        i += 1;
    }
    proof {
        if design_ids().contains(id@) {
            let k = choose|k: int| 0 <= k < design_ids().len() && design_ids()[k] == id@;
            assert(design_ids()[k] != id@);
        }
    }
    designs[0]
}

// ---------------------------------------------------------------------------
// Catalogue server
// ---------------------------------------------------------------------------

/// The port the catalogue server listens on.
pub const OPDS_SERVER_PORT: u16 = 8080;

pub fn opds_browser_url() -> (r: String)
    ensures
        r@ == "http://localhost:8080/opds/browser"@,
{
    crate::text::string_from(&chars_of("http://localhost:8080/opds/browser"))
}

pub fn opds_browser_status() -> (r: String)
    ensures
        r@ == "Servidor web activo: "@ + "http://localhost:8080/opds/browser"@,
{
    let mut r = crate::text::string_from(&chars_of("Servidor web activo: "));
    push_str(&mut r, opds_browser_url().as_str());
    r
}

pub fn opds_catalog_url() -> (r: String)
    ensures
        r@ == "OPDS: http://localhost:8080/opds"@,
{
    crate::text::string_from(&chars_of("OPDS: http://localhost:8080/opds"))
}

// ---------------------------------------------------------------------------
// Preference files
// ---------------------------------------------------------------------------

/// An environment value that counts: present and not empty.
pub open spec fn set_value(v: Option<Seq<char>>) -> Option<Seq<char>> {
    match v {
        Some(x) => if x.len() > 0 {
            Some(x)
        } else {
            None
        },
        None => None,
    }
}

pub open spec fn opt_view(v: Option<&str>) -> Option<Seq<char>> {
    match v {
        Some(x) => Some(x@),
        None => None,
    }
}

pub open spec fn opt_string_view(v: Option<String>) -> Option<Seq<char>> {
    match v {
        Some(x) => Some(x@),
        None => None,
    }
}

/// The directory of this application's preferences: `$XDG_CONFIG_HOME`, else
/// `$HOME/.config`, then `scriptorium`; none when neither variable is set.
pub open spec fn config_root_of(xdg_config_home: Option<Seq<char>>, home: Option<Seq<char>>) -> Option<
    Seq<char>,
> {
    let base = match set_value(xdg_config_home) {
        Some(x) => Some(x),
        None => match set_value(home) {
            Some(h) => Some(crate::paths::path_join(h, ".config"@)),
            None => None,
        },
    };
    match base {
        Some(b) => Some(crate::paths::path_join(b, "scriptorium"@)),
        None => None,
    }
}

fn set_value_exec(v: Option<&str>) -> (r: Option<&str>)
    ensures
        opt_view(r) == set_value(opt_view(v)),
{
    match v {
        Some(x) => if x.is_empty() {
            None
        } else {
            Some(x)
        },
        None => None,
    }
}

/// See `config_root_of`; the two values are the environment's
/// `XDG_CONFIG_HOME` and `HOME`.
pub fn config_root(xdg_config_home: Option<&str>, home: Option<&str>) -> (r: Option<String>)
    ensures
        opt_string_view(r) == config_root_of(opt_view(xdg_config_home), opt_view(home)),
{
    let base = match set_value_exec(xdg_config_home) {
        Some(x) => crate::text::string_from(&chars_of(x)),
        None => match set_value_exec(home) {
            Some(h) => crate::paths::join_path(h, ".config"),
            None => {
                return None;
            },
        },
    };
    Some(crate::paths::join_path(base.as_str(), "scriptorium"))
}

/// The preference file `file_name` in the preference directory, if there is one.
pub fn config_path(root: Option<&str>, file_name: &str) -> (r: Option<String>)
    ensures
        opt_string_view(r) == match opt_view(root) {
            Some(d) => Some(crate::paths::path_join(d, file_name@)),
            None => None,
        },
{
    match root {
        Some(d) => Some(crate::paths::join_path(d, file_name)),
        None => None,
    }
}

pub fn card_design_preference_path(root: Option<&str>) -> (r: Option<String>)
    ensures
        opt_string_view(r) == match opt_view(root) {
            Some(d) => Some(crate::paths::path_join(d, "card-design"@)),
            None => None,
        },
{
    config_path(root, "card-design")
}

pub fn page_size_preference_path(root: Option<&str>) -> (r: Option<String>)
    ensures
        opt_string_view(r) == match opt_view(root) {
            Some(d) => Some(crate::paths::path_join(d, "covers-per-page"@)),
            None => None,
        },
{
    config_path(root, "covers-per-page")
}

pub fn app_preference_path(root: Option<&str>, role: AppRole) -> (r: Option<String>)
    ensures
        opt_string_view(r) == match opt_view(root) {
            Some(d) => Some(
                crate::paths::path_join(
                    d,
                    if role == AppRole::Reader {
                        "reader-app"@
                    } else {
                        "editor-app"@
                    },
                ),
            ),
            None => None,
        },
{
    config_path(root, role.preference_file())
}

/// The card design recorded in a preference file's text: the design whose id
/// is the trimmed text, the basic design when there is none or no file.
pub fn load_card_design_preference(text: Option<&str>) -> (r: String)
    ensures
        match opt_view(text) {
            Some(t) => if design_ids().contains(trim(t)) {
                r@ == trim(t)
            } else {
                r@ == design_ids()[0]
            },
            None => r@ == design_ids()[0],
        },
{
    match text {
        Some(t) => {
            let id = crate::text::trim_str(t);
            let d = card_design(id.as_str());
            crate::text::string_from(&chars_of(d.id))
        },
        None => crate::text::string_from(&chars_of(card_designs()[0].id)),
    }
}

/// How many covers a page shows by default.
pub const DEFAULT_COVERS_PER_PAGE: usize = 24;

pub open spec fn covers_per_page_options() -> Seq<usize> {
    seq![12, 24, 48, 72, 96]
}

/// The page size recorded in a preference file's text: the trimmed text read
/// as a number when it is one of the offered sizes, the default otherwise.
pub open spec fn page_size_of(text: Option<Seq<char>>) -> usize {
    match text {
        Some(t) => match parse_unsigned(trim(t), 10, usize::MAX as int) {
            Some(v) => if covers_per_page_options().contains(v as usize) {
                v as usize
            } else {
                DEFAULT_COVERS_PER_PAGE
            },
            None => DEFAULT_COVERS_PER_PAGE,
        },
        None => DEFAULT_COVERS_PER_PAGE,
    }
}

pub fn load_page_size_preference(text: Option<&str>) -> (r: usize)
    ensures
        r == page_size_of(opt_view(text)),
{
    match text {
        Some(t) => {
            let v = chars_of(crate::text::trim_str(t).as_str());
            let parsed = crate::numbers::parse_unsigned_range(&v, 0, v.len(), 10, 96);
            proof {
                assert(v@.subrange(0, v@.len() as int) =~= v@);
                let body = crate::numbers::unsigned_body(v@);
                if let Some(x) = parse_unsigned(v@, 10, usize::MAX as int) {
                    if x <= 96 {
                        assert(parse_unsigned(v@, 10, 96) == Some(x));
                    } else {
                        assert(!covers_per_page_options().contains(x as usize)) by {
                            if covers_per_page_options().contains(x as usize) {
                                let k = choose|k: int| 0 <= k < 5 && covers_per_page_options()[k] == x as usize;
                                assert(covers_per_page_options()[k] <= 96);
                            }
                        }
                    }
                }
            }
            match parsed {
                Some(n) => {
                    let size = n as usize;
                    if size == 12 || size == 24 || size == 48 || size == 72 || size == 96 {
                        proof {
                            assert(covers_per_page_options()[0] == 12usize);
                            assert(covers_per_page_options()[1] == 24usize);
                            assert(covers_per_page_options()[2] == 48usize);
                            assert(covers_per_page_options()[3] == 72usize);
                            assert(covers_per_page_options()[4] == 96usize);
                        }
                        size
                    } else {
                        proof {
                            if covers_per_page_options().contains(size) {
                                let k = choose|k: int| 0 <= k < 5 && covers_per_page_options()[k] == size;
                            }
                        }
                        DEFAULT_COVERS_PER_PAGE
                    }
                },
                None => DEFAULT_COVERS_PER_PAGE,
            }
        },
        None => DEFAULT_COVERS_PER_PAGE,
    }
}

/// The application recorded in a preference file's text: the trimmed text,
/// none when it is empty or there is no file.
pub fn load_app_preference(text: Option<&str>) -> (r: Option<String>)
    ensures
        opt_string_view(r) == match opt_view(text) {
            Some(t) => if trim(t).len() > 0 {
                Some(trim(t))
            } else {
                None
            },
            None => None,
        },
{
    match text {
        Some(t) => {
            let id = crate::text::trim_str(t);
            if id.as_str().is_empty() {
                None
            } else {
                Some(id)
            }
        },
        None => None,
    }
}

// ---------------------------------------------------------------------------
// Desktop entries
// ---------------------------------------------------------------------------

/// What the lines of a desktop entry read so far say: whether the current
/// group is `[Desktop Entry]`, the `Name`, the `MimeType`, and whether the
/// entry is `Hidden` or `NoDisplay`.
pub type DesktopState = (bool, Option<Seq<char>>, Option<Seq<char>>, bool, bool);

/// One trimmed line: a `[group]` header switches groups; in the desktop-entry
/// group, a `key=value` line sets the key it names (the last one counts);
/// comments and other lines change nothing.
#[verifier::opaque]
pub open spec fn desktop_step(st: DesktopState, line: Seq<char>) -> DesktopState {
    if line.len() > 0 && line[0] == '[' && line.last() == ']' {
        (line == "[Desktop Entry]"@, st.1, st.2, st.3, st.4)
    } else if !st.0 || (line.len() > 0 && line[0] == '#') {
        st
    } else {
        match crate::text::find_char_from(line, 0, '=') {
            None => st,
            Some(e) => {
                let key = line.take(e);
                let value = line.skip(e + 1);
                if key == "Name"@ {
                    (st.0, Some(value), st.2, st.3, st.4)
                } else if key == "MimeType"@ {
                    (st.0, st.1, Some(value), st.3, st.4)
                } else if key == "Hidden"@ {
                    (st.0, st.1, st.2, crate::text::eq_ignore_ascii_case(value, "true"@), st.4)
                } else if key == "NoDisplay"@ {
                    (st.0, st.1, st.2, st.3, crate::text::eq_ignore_ascii_case(value, "true"@))
                } else {
                    st
                }
            },
        }
    }
}

pub open spec fn desktop_fold(lines: Seq<Seq<char>>) -> DesktopState
    decreases lines.len(),
{
    if lines.len() == 0 {
        (false, None, None, false, false)
    } else {
        desktop_step(desktop_fold(lines.drop_last()), trim(lines.last()))
    }
}

/// The application a desktop entry describes, when it opens EPUB books: the
/// entry is neither hidden nor kept off menus, one of its MIME types is
/// exactly `application/epub+zip`, it has a name, and its file has a name
/// (which becomes the application's id). Lines are the pieces between line
/// feeds, trimmed (a final empty piece changes nothing).
pub open spec fn desktop_app_of(path: Seq<char>, text: Seq<char>) -> Option<(Seq<char>, Seq<char>)> {
    let st = desktop_fold(crate::text::split_char(text, '\n'));
    if st.3 || st.4 {
        None
    } else {
        match st.2 {
            None => None,
            Some(m) => if !crate::text::split_char(m, ';').contains("application/epub+zip"@) {
                None
            } else {
                match crate::paths::file_name(path) {
                    None => None,
                    Some(id) => match st.1 {
                        None => None,
                        Some(name) => Some((id, name)),
                    },
                }
            },
        }
    }
}

impl SystemApp {
    pub open spec fn view_app(&self) -> (Seq<char>, Seq<char>) {
        (self.id@, self.name@)
    }
}

struct DesktopScan {
    in_entry: bool,
    name: Option<String>,
    mime: Option<String>,
    hidden: bool,
    no_display: bool,
}

impl DesktopScan {
    spec fn state(&self) -> DesktopState {
        (self.in_entry, opt_string_view(self.name), opt_string_view(self.mime), self.hidden, self.no_display)
    }
}

fn desktop_line(st: &mut DesktopScan, v: &Vec<char>, a: usize, b: usize)
    requires
        a <= b <= v.len(),
    ensures
        final(st).state() == desktop_step(old(st).state(), trim(v@.subrange(a as int, b as int))),
{
    reveal(desktop_step);
    let (x, y) = crate::text::trim_bounds(v, a, b);
    let ghost line = v@.subrange(x as int, y as int);
    if y > x && v[x] == '[' && v[y - 1] == ']' {
        let header = crate::text::range_eq(v, x, y, &chars_of("[Desktop Entry]"));
        st.in_entry = header;
        return;
    }
    if !st.in_entry || (y > x && v[x] == '#') {
        return;
    }
    let eq = crate::text::find_char_exec(v, x, '=');
    proof {
        crate::text::lemma_find_char_from_result(v@, x as int, '=');
    }
    let e = match eq {
        Some(e) => e,
        None => {
            proof {
                assert(crate::text::find_char_from(line, 0, '=') is None) by {
                    if let Some(k) = crate::text::find_char_from(line, 0, '=') {
                        crate::text::lemma_find_char_from_result(line, 0, '=');
                        assert(line[k] == v@[x + k]);
                    }
                }
            }
            return;
        },
    };
    if e >= y {
        proof {
            assert(crate::text::find_char_from(line, 0, '=') is None) by {
                if let Some(k) = crate::text::find_char_from(line, 0, '=') {
                    crate::text::lemma_find_char_from_result(line, 0, '=');
                    assert(line[k] == v@[x + k]);
                }
            }
        }
        return;
    }
    proof {
        crate::text::lemma_find_char_from_result(line, 0, '=');
        if let Some(k) = crate::text::find_char_from(line, 0, '=') {
            assert(line[k] == v@[x + k]);
            assert(line[e - x] == v@[e as int]);
        } else {
            assert(line[e - x] == v@[e as int]);
        }
        assert(crate::text::find_char_from(line, 0, '=') == Some(e - x));
        assert(line.take(e - x) =~= v@.subrange(x as int, e as int));
        assert(line.skip(e - x + 1) =~= v@.subrange(e + 1, y as int));
    }
    let value = crate::text::string_from_range(v, e + 1, y);
    if crate::text::range_eq(v, x, e, &chars_of("Name")) {
        st.name = Some(value);
    } else if crate::text::range_eq(v, x, e, &chars_of("MimeType")) {
        st.mime = Some(value);
    } else if crate::text::range_eq(v, x, e, &chars_of("Hidden")) {
        st.hidden = crate::text::eq_ignore_ascii_case_exec(&chars_of(value.as_str()), "true");
    } else if crate::text::range_eq(v, x, e, &chars_of("NoDisplay")) {
        st.no_display = crate::text::eq_ignore_ascii_case_exec(&chars_of(value.as_str()), "true");
    }
}

fn has_epub_mime(m: &str) -> (r: bool)
    ensures
        r == crate::text::split_char(m@, ';').contains("application/epub+zip"@),
{
    let v = chars_of(m);
    let parts = crate::text::split_bounds(&v, ';');
    let want = chars_of("application/epub+zip");
    let mut k: usize = 0;
    while k < parts.len()
        invariant
            k <= parts.len(),
            v@ == m@,
            want@ == "application/epub+zip"@,
            crate::text::pieces(v@, parts@) == crate::text::split_char(v@, ';'),
            forall|j: int| 0 <= j < parts.len() ==> (#[trigger] parts@[j]).0 <= parts@[j].1 <= v.len(),
            forall|j: int| 0 <= j < k ==> crate::text::pieces(v@, parts@)[j] != want@,
        decreases parts.len() - k,
    {
        let (a, b) = parts[k];
        if crate::text::range_eq(&v, a, b, &want) {
            proof {
                assert(crate::text::pieces(v@, parts@)[k as int] == v@.subrange(a as int, b as int));
            }
            return true;
        }
        proof {
            assert(crate::text::pieces(v@, parts@)[k as int] == v@.subrange(a as int, b as int));
        }
        k += 1;
    }
    proof {
        let ps = crate::text::pieces(v@, parts@);
        if ps.contains(want@) {
            let j = choose|j: int| 0 <= j < ps.len() && ps[j] == want@;
            assert(ps[j] != want@);
        }
    }
    false
}

#[verifier::rlimit(40)]
fn scan_desktop_entry(text: &str) -> (st: DesktopScan)
    ensures
        st.state() == desktop_fold(crate::text::split_char(text@, '\n')),
{
    let v = chars_of(text);
    let lines = crate::text::split_bounds(&v, '\n');
    let mut st = DesktopScan { in_entry: false, name: None, mime: None, hidden: false, no_display: false };
    let mut k: usize = 0;
    assert(crate::text::pieces(v@, lines@).take(0) =~= Seq::<Seq<char>>::empty());
    while k < lines.len()
        invariant
            k <= lines.len(),
            v@ == text@,
            forall|j: int| 0 <= j < lines.len() ==> (#[trigger] lines@[j]).0 <= lines@[j].1 <= v.len(),
            st.state() == desktop_fold(crate::text::pieces(v@, lines@).take(k as int)),
        decreases lines.len() - k,
    {
        let (a, b) = lines[k];
        proof {
            let ps = crate::text::pieces(v@, lines@);
            assert(ps.take(k + 1).drop_last() =~= ps.take(k as int));
            assert(ps.take(k + 1).last() == v@.subrange(a as int, b as int));
        }
        desktop_line(&mut st, &v, a, b);
        k += 1;
    }
    proof {
        assert(crate::text::pieces(v@, lines@).take(lines.len() as int) =~= crate::text::pieces(v@, lines@));
    }
    st
}

/// The EPUB application described by the desktop entry at `path` with
/// contents `text`; see `desktop_app_of`.
pub fn parse_epub_desktop_app(path: &str, text: &str) -> (r: Option<SystemApp>)
    ensures
        match r {
            Some(app) => desktop_app_of(path@, text@) == Some(app.view_app()),
            None => desktop_app_of(path@, text@) is None,
        },
{
    let st = scan_desktop_entry(text);
    if st.hidden || st.no_display {
        return None;
    }
    let mime = match &st.mime {
        Some(m) => m,
        None => {
            return None;
        },
    };
    if !has_epub_mime(mime.as_str()) {
        return None;
    }
    let pv = chars_of(path);
    let id = match crate::paths::file_name_of(&pv) {
        Some(n) => crate::text::string_from(&n),
        None => {
            return None;
        },
    };
    match st.name {
        Some(name) => Some(SystemApp { id, name }),
        None => None,
    }
}

// ---------------------------------------------------------------------------
// Cover cache
// ---------------------------------------------------------------------------

/// The version written into cover cache keys; changing it abandons old entries.
pub const COVER_CACHE_VERSION: &'static str = "v2-thumb-360x540";

/// The largest cover kept in the cache, in pixels.
pub const COVER_THUMBNAIL_WIDTH: u32 = 360;

pub const COVER_THUMBNAIL_HEIGHT: u32 = 540;

pub open spec fn is_ascii_hex(c: char) -> bool {
    ('0' <= c <= '9') || ('a' <= c <= 'f') || ('A' <= c <= 'F')
}

/// A persisted book hash that can name a cache file: 64 ASCII hexadecimal digits.
pub open spec fn is_usable_hash(h: Seq<char>) -> bool {
    h.len() == 64 && forall|i: int| 0 <= i < h.len() ==> is_ascii_hex(#[trigger] h[i])
}

pub open spec fn hash_key(version: Seq<char>, hash: Seq<char>) -> Seq<char> {
    version + seq!['-'] + crate::text::ascii_lower_seq(hash)
}

pub open spec fn fallback_key(version: Seq<char>, digest: u64) -> Seq<char> {
    version + "-fallback-"@ + crate::numbers::hex_digits(digest as nat, 16)
}

fn usable_hash(h: &str) -> (r: bool)
    ensures
        r == is_usable_hash(h@),
{
    let v = chars_of(h);
    if v.len() != 64 {
        return false;
    }
    let mut i: usize = 0;
    while i < v.len()
        invariant
            i <= v.len(),
            v@ == h@,
            forall|j: int| 0 <= j < i ==> is_ascii_hex(#[trigger] v@[j]),
        decreases v.len() - i,
    {
        let c = v[i];
        if !(('0' <= c && c <= '9') || ('a' <= c && c <= 'f') || ('A' <= c && c <= 'F')) {
            return false;
        }
        i += 1;
    }
    true
}

/// Feeds an optional string to a hasher (`Hash::hash`). What is written is
/// the standard library's business; nothing is stated of it.
#[verifier::external_body]
fn hash_optional_str(hasher: &mut std::collections::hash_map::DefaultHasher, value: Option<&str>) {
    std::hash::Hash::hash(&value, hasher)
}

/// Feeds an `i64` to a hasher (`Hash::hash`); nothing is stated of what is written.
#[verifier::external_body]
fn hash_i64(hasher: &mut std::collections::hash_map::DefaultHasher, value: i64) {
    std::hash::Hash::hash(&value, hasher)
}

/// Feeds a string to a hasher (`Hash::hash`); nothing is stated of what is written.
#[verifier::external_body]
fn hash_str(hasher: &mut std::collections::hash_map::DefaultHasher, value: &str) {
    std::hash::Hash::hash(value, hasher)
}

/// Feeds a `u64` to a hasher (`Hash::hash`); nothing is stated of what is written.
#[verifier::external_body]
fn hash_u64(hasher: &mut std::collections::hash_map::DefaultHasher, value: u64) {
    std::hash::Hash::hash(&value, hasher)
}

/// Feeds a `u128` to a hasher (`Hash::hash`); nothing is stated of what is written.
#[verifier::external_body]
fn hash_u128(hasher: &mut std::collections::hash_map::DefaultHasher, value: u128) {
    std::hash::Hash::hash(&value, hasher)
}

/// The digest that names a book's cover when its persisted hash is unusable:
/// the hash, the book's id and path, and, when the file could be examined,
/// its length and modification time in nanoseconds, fed to a default hasher.
pub fn fallback_cover_digest(
    file_hash: Option<&str>,
    book_id: i64,
    current_path: &str,
    metadata: Option<(u64, Option<u128>)>,
) -> u64 {
    let mut hasher = std::collections::hash_map::DefaultHasher::new();
    hash_optional_str(&mut hasher, file_hash);
    hash_i64(&mut hasher, book_id);
    hash_str(&mut hasher, current_path);
    if let Some((len, modified)) = metadata {
        hash_u64(&mut hasher, len);
        if let Some(nanos) = modified {
            hash_u128(&mut hasher, nanos);
        }
    }
    hasher.finish()
}

/// The fallback cache key for a digest; see `fallback_key`.
pub fn fallback_cover_cache_key(version: &str, digest: u64) -> (r: String)
    ensures
        r@ == fallback_key(version@, digest),
{
    let mut r = crate::text::string_from(&chars_of(version));
    push_str(&mut r, "-fallback-");
    crate::numbers::push_hex(&mut r, digest, 16);
    r
}

/// The cache key of a book's cover: the version and the persisted hash in
/// lower case when the hash is usable; else the version, `-fallback-` and a
/// 16-digit hexadecimal digest of what identifies the file (see
/// `fallback_cover_digest`). The key never holds a `/` the caller did not
/// put in `version`.
pub fn stable_cover_cache_key_with_version(
    version: &str,
    file_hash: Option<&str>,
    book_id: i64,
    current_path: &str,
    metadata: Option<(u64, Option<u128>)>,
) -> (r: String)
    ensures
        (match file_hash {
            Some(h) => is_usable_hash(h@),
            None => false,
        }) ==> r@ == hash_key(version@, file_hash->0@),
        !(match file_hash {
            Some(h) => is_usable_hash(h@),
            None => false,
        }) ==> exists|d: u64| r@ == #[trigger] fallback_key(version@, d),
{
    if let Some(h) = file_hash {
        if usable_hash(h) {
            let mut r = crate::text::string_from(&chars_of(version));
            push_char(&mut r, '-');
            let v = chars_of(h);
            let mut i: usize = 0;
            let ghost head = r@;
            while i < v.len()
                invariant
                    i <= v.len(),
                    v@ == h@,
                    r@ == head + crate::text::ascii_lower_seq(v@).take(i as int),
                decreases v.len() - i,
            {
                push_char(&mut r, crate::text::to_ascii_lower(v[i]));
                assert(crate::text::ascii_lower_seq(v@).take(i + 1) =~= crate::text::ascii_lower_seq(v@).take(
                    i as int,
                ).push(crate::text::ascii_lower(v@[i as int])));
                i += 1;
            }
            assert(crate::text::ascii_lower_seq(v@).take(v.len() as int) =~= crate::text::ascii_lower_seq(v@));
            return r;
        }
    }
    let digest = fallback_cover_digest(file_hash, book_id, current_path, metadata);
    fallback_cover_cache_key(version, digest)
}

/// `stable_cover_cache_key_with_version` with the current cache version.
pub fn stable_cover_cache_key(
    file_hash: Option<&str>,
    book_id: i64,
    current_path: &str,
    metadata: Option<(u64, Option<u128>)>,
) -> (r: String)
    ensures
        (match file_hash {
            Some(h) => is_usable_hash(h@),
            None => false,
        }) ==> r@ == hash_key(COVER_CACHE_VERSION@, file_hash->0@),
        !(match file_hash {
            Some(h) => is_usable_hash(h@),
            None => false,
        }) ==> exists|d: u64| r@ == #[trigger] fallback_key(COVER_CACHE_VERSION@, d),
{
    stable_cover_cache_key_with_version(COVER_CACHE_VERSION, file_hash, book_id, current_path, metadata)
}

/// The directory covers are cached in: `$XDG_CACHE_HOME`, else
/// `$HOME/.cache`, then `scriptorium/covers`; none when neither is set.
pub open spec fn cover_cache_root_of(xdg_cache_home: Option<Seq<char>>, home: Option<Seq<char>>) -> Option<
    Seq<char>,
> {
    let base = match set_value(xdg_cache_home) {
        Some(x) => Some(x),
        None => match set_value(home) {
            Some(h) => Some(crate::paths::path_join(h, ".cache"@)),
            None => None,
        },
    };
    match base {
        Some(b) => Some(crate::paths::path_join(crate::paths::path_join(b, "scriptorium"@), "covers"@)),
        None => None,
    }
}

pub fn cover_cache_root(xdg_cache_home: Option<&str>, home: Option<&str>) -> (r: Option<String>)
    ensures
        opt_string_view(r) == cover_cache_root_of(opt_view(xdg_cache_home), opt_view(home)),
{
    let base = match set_value_exec(xdg_cache_home) {
        Some(x) => crate::text::string_from(&chars_of(x)),
        None => match set_value_exec(home) {
            Some(h) => crate::paths::join_path(h, ".cache"),
            None => {
                return None;
            },
        },
    };
    let app = crate::paths::join_path(base.as_str(), "scriptorium");
    Some(crate::paths::join_path(app.as_str(), "covers"))
}

/// The cache file of a key: `<root>/<key>.cover`.
pub fn cover_cache_path(root: Option<&str>, key: &str) -> (r: Option<String>)
    ensures
        opt_string_view(r) == match opt_view(root) {
            Some(d) => Some(crate::paths::path_join(d, key@ + ".cover"@)),
            None => None,
        },
{
    match root {
        Some(d) => {
            let mut file = crate::text::string_from(&chars_of(key));
            push_str(&mut file, ".cover");
            Some(crate::paths::join_path(d, file.as_str()))
        },
        None => None,
    }
}

/// The pixel size `image::load_from_memory` finds in encoded image data.
pub uninterp spec fn decoded_size(bytes: Seq<u8>) -> Option<(u32, u32)>;

/// PNG data of `DynamicImage::thumbnail(width, height)` of the decoded image.
pub uninterp spec fn png_thumbnail(bytes: Seq<u8>, width: u32, height: u32) -> Option<Seq<u8>>;

/// `image::load_from_memory`, then `DynamicImage::width` and `height`. The
/// result is named `decoded_size`; what the decoders accept is left to it.
#[verifier::external_body]
fn image_size(bytes: &[u8]) -> (r: Option<(u32, u32)>)
    ensures
        r == decoded_size(bytes@),
{
    image::load_from_memory(bytes).ok().map(|image| (image.width(), image.height()))
}

/// `image::load_from_memory`, `DynamicImage::thumbnail` and
/// `DynamicImage::write_to` as PNG. The result is named `png_thumbnail`.
#[verifier::external_body]
fn thumbnail_png(bytes: &[u8], width: u32, height: u32) -> (r: Option<Vec<u8>>)
    ensures
        match r {
            Some(v) => png_thumbnail(bytes@, width, height) == Some(v@),
            None => png_thumbnail(bytes@, width, height) is None,
        },
{
    let image = image::load_from_memory(bytes).ok()?;
    let mut output = std::io::Cursor::new(Vec::new());
    image.thumbnail(width, height).write_to(&mut output, image::ImageFormat::Png).ok()?;
    Some(output.into_inner())
}

/// The cover bytes to cache: the data itself when it decodes to an image
/// that fits 360 by 540 pixels, a PNG thumbnail fitting that box when it is
/// larger, none when it does not decode or cannot be encoded.
pub open spec fn cover_thumbnail(bytes: Seq<u8>) -> Option<Seq<u8>> {
    match decoded_size(bytes) {
        None => None,
        Some((w, h)) => if w <= COVER_THUMBNAIL_WIDTH && h <= COVER_THUMBNAIL_HEIGHT {
            Some(bytes)
        } else {
            png_thumbnail(bytes, COVER_THUMBNAIL_WIDTH, COVER_THUMBNAIL_HEIGHT)
        },
    }
}

pub fn thumbnail_cover_bytes(bytes: &[u8]) -> (r: Option<Vec<u8>>)
    ensures
        match r {
            Some(v) => cover_thumbnail(bytes@) == Some(v@),
            None => cover_thumbnail(bytes@) is None,
        },
{
    match image_size(bytes) {
        None => None,
        Some((w, h)) => {
            if w <= COVER_THUMBNAIL_WIDTH && h <= COVER_THUMBNAIL_HEIGHT {
                let mut v: Vec<u8> = Vec::new();
                let mut i: usize = 0;
                while i < bytes.len()
                    invariant
                        i <= bytes.len(),
                        v@ == bytes@.take(i as int),
                    decreases bytes.len() - i,
                {
                    v.push(bytes[i]);
                    assert(v@ =~= bytes@.take(i + 1));
                    i += 1;
                }
                assert(bytes@.take(bytes.len() as int) =~= bytes@);
                Some(v)
            } else {
                thumbnail_png(bytes, COVER_THUMBNAIL_WIDTH, COVER_THUMBNAIL_HEIGHT)
            }
        },
    }
}

/// What is written to the cache for a book's cover: nothing for a book
/// without one (an empty file remembers that), else its thumbnail, or the
/// data itself when no thumbnail can be made.
pub fn cover_to_cache(bytes: Option<Vec<u8>>) -> (r: Vec<u8>)
    ensures
        match bytes {
            None => r@ == Seq::<u8>::empty(),
            Some(b) => match cover_thumbnail(b@) {
                Some(t) => r@ == t,
                None => r@ == b@,
            },
        },
{
    match bytes {
        None => Vec::new(),
        Some(b) => match thumbnail_cover_bytes(b.as_slice()) {
            Some(t) => t,
            None => b,
        },
    }
}

} // verus!
