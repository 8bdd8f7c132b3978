//! The library window's decisions: which section and page are shown, the
//! search, the dialogs, the messages to the user, and what the window must
//! load or save after each request. The window talks to the database and
//! the system and reports back.
use vstd::prelude::*;

use crate::library::{card_design, design_ids, normalized_query, normalized_query_of, AppRole, Section};
use crate::text::{chars_of, push_str, string_from};

verus! {

/// A book shown on its own page.
#[derive(Debug, Clone)]
pub struct DetailBook {
    pub id: i64,
    pub title: String,
    pub author_name: String,
    pub current_path: String,
}

#[derive(Debug, Clone)]
pub enum LibraryPage {
    Main,
    Detail(DetailBook),
}

/// A page of books to load: the search (none for all books), the page and
/// how many books a page holds.
#[derive(Debug, Clone, PartialEq, Eq)]
pub struct LoadRequest {
    pub query: Option<String>,
    pub page: usize,
    pub per_page: usize,
}

/// What happened in the library window.
#[derive(Debug)]
pub enum LibraryEvent {
    DatabaseOpened(Result<(), String>),
    /// A page of books arrived: the number of books in all and the page.
    BooksLoaded(Result<(usize, usize), String>),
    StatsLoaded(Result<(), String>),
    SectionSelected(Section),
    SearchChanged(String),
    SearchOpened,
    SearchStarted(String),
    SearchClosed,
    SearchSubmitted,
    /// The search shortcut was pressed.
    SearchShortcut,
    /// Escape was pressed.
    EscapePressed,
    ImportPressed,
    /// Files were picked for import: how many, or why none could be.
    FilesSelected(Result<usize, String>),
    ImportFinished(Result<usize, String>),
    OpenDetail(i64),
    DetailLoaded(Result<Option<DetailBook>, String>),
    TitleChanged(String),
    AuthorChanged(String),
    SaveMetadata,
    OpenEditDialog,
    CloseEditDialog,
    MetadataSaved(Result<(), String>),
    OpenDeleteDialog,
    CloseDeleteDialog,
    DeleteBook(bool),
    BookDeleted(Result<Option<String>, String>),
    ReadBook,
    BookOpened(Result<(), String>),
    EditBook,
    BookEdited(Result<(), String>),
    QuickAction(String),
    CardDesignSelected(String),
    CardDesignSaved(Result<(), String>),
    PageSizeSelected(usize),
    PageSizeSaved(Result<(), String>),
    LibraryPageSelected(usize),
    CardHoverChanged(Option<(i64, String)>),
    EnableOpdsServer,
    OpdsServerEnabled(Result<String, String>),
    ReaderAppSelected(Option<String>),
    EditorAppSelected(Option<String>),
    AppPreferenceSaved(AppRole, Result<(), String>),
}

/// What the window must do next.
#[derive(Debug, Clone, PartialEq, Eq)]
pub enum LibraryAction {
    Nothing,
    LoadBooks(LoadRequest),
    /// Show the loaded page's covers, from the cache or loaded anew.
    ShowCovers,
    LoadStats,
    /// Put the cursor in the search field, and load books when asked.
    FocusSearch(Option<LoadRequest>),
    SelectFiles,
    ImportSelectedFiles,
    LoadDetail(i64),
    SaveMetadata(i64, String, String),
    DeleteBook(i64, bool),
    OpenBook(String, Option<String>),
    EditBook(String, Option<String>),
    SaveCardDesign(String),
    SavePageSize(usize),
    SaveAppPreference(AppRole, Option<String>),
    StartOpdsServer,
}

/// The library window's state.
pub struct LibraryUi {
    pub has_database: bool,
    pub page: LibraryPage,
    pub section: Section,
    pub total_books_count: usize,
    pub library_page: usize,
    pub search: String,
    pub search_active: bool,
    pub title_edit: String,
    pub author_edit: String,
    pub show_edit_dialog: bool,
    pub show_delete_dialog: bool,
    pub selected_card_design: String,
    pub hovered_card: Option<(i64, String)>,
    pub loading: bool,
    pub status: Option<String>,
    pub pending_status: Option<String>,
    pub covers_per_page: usize,
    pub opds_server_enabled: bool,
    pub reader_app_id: Option<String>,
    pub editor_app_id: Option<String>,
}

pub type BookView = (i64, Seq<char>, Seq<char>, Seq<char>);

pub type RequestView = (Option<Seq<char>>, nat, nat);

pub struct LibraryView {
    pub has_database: bool,
    pub page: Option<BookView>,
    pub section: Section,
    pub total_books_count: nat,
    pub library_page: nat,
    pub search: Seq<char>,
    pub search_active: bool,
    pub title_edit: Seq<char>,
    pub author_edit: Seq<char>,
    pub show_edit_dialog: bool,
    pub show_delete_dialog: bool,
    pub selected_card_design: Seq<char>,
    pub hovered_card: Option<(i64, Seq<char>)>,
    pub loading: bool,
    pub status: Option<Seq<char>>,
    pub pending_status: Option<Seq<char>>,
    pub covers_per_page: nat,
    pub opds_server_enabled: bool,
    pub reader_app_id: Option<Seq<char>>,
    pub editor_app_id: Option<Seq<char>>,
}

pub enum ActionView {
    Nothing,
    LoadBooks(RequestView),
    ShowCovers,
    LoadStats,
    FocusSearch(Option<RequestView>),
    SelectFiles,
    ImportSelectedFiles,
    LoadDetail(i64),
    SaveMetadata(i64, Seq<char>, Seq<char>),
    DeleteBook(i64, bool),
    OpenBook(Seq<char>, Option<Seq<char>>),
    EditBook(Seq<char>, Option<Seq<char>>),
    SaveCardDesign(Seq<char>),
    SavePageSize(nat),
    SaveAppPreference(AppRole, Option<Seq<char>>),
    StartOpdsServer,
}

pub open spec fn opt_text(o: Option<String>) -> Option<Seq<char>> {
    match o {
        Some(s) => Some(s@),
        None => None,
    }
}

pub open spec fn book_view(b: DetailBook) -> BookView {
    (b.id, b.title@, b.author_name@, b.current_path@)
}

pub open spec fn request_view(r: LoadRequest) -> RequestView {
    (opt_text(r.query), r.page as nat, r.per_page as nat)
}

pub open spec fn action_view(a: LibraryAction) -> ActionView {
    match a {
        LibraryAction::Nothing => ActionView::Nothing,
        LibraryAction::LoadBooks(r) => ActionView::LoadBooks(request_view(r)),
        LibraryAction::ShowCovers => ActionView::ShowCovers,
        LibraryAction::LoadStats => ActionView::LoadStats,
        LibraryAction::FocusSearch(r) => ActionView::FocusSearch(
            match r {
                Some(q) => Some(request_view(q)),
                None => None,
            },
        ),
        LibraryAction::SelectFiles => ActionView::SelectFiles,
        LibraryAction::ImportSelectedFiles => ActionView::ImportSelectedFiles,
        LibraryAction::LoadDetail(id) => ActionView::LoadDetail(id),
        LibraryAction::SaveMetadata(id, t, a) => ActionView::SaveMetadata(id, t@, a@),
        LibraryAction::DeleteBook(id, f) => ActionView::DeleteBook(id, f),
        LibraryAction::OpenBook(p, app) => ActionView::OpenBook(p@, opt_text(app)),
        LibraryAction::EditBook(p, app) => ActionView::EditBook(p@, opt_text(app)),
        LibraryAction::SaveCardDesign(id) => ActionView::SaveCardDesign(id@),
        LibraryAction::SavePageSize(n) => ActionView::SavePageSize(n as nat),
        LibraryAction::SaveAppPreference(r, id) => ActionView::SaveAppPreference(r, opt_text(id)),
        LibraryAction::StartOpdsServer => ActionView::StartOpdsServer,
    }
}

pub open spec fn library_view(u: &LibraryUi) -> LibraryView {
    LibraryView {
        has_database: u.has_database,
        page: match u.page {
            LibraryPage::Main => None,
            LibraryPage::Detail(b) => Some(book_view(b)),
        },
        section: u.section,
        total_books_count: u.total_books_count as nat,
        library_page: u.library_page as nat,
        search: u.search@,
        search_active: u.search_active,
        title_edit: u.title_edit@,
        author_edit: u.author_edit@,
        show_edit_dialog: u.show_edit_dialog,
        show_delete_dialog: u.show_delete_dialog,
        selected_card_design: u.selected_card_design@,
        hovered_card: match u.hovered_card {
            Some((id, kind)) => Some((id, kind@)),
            None => None,
        },
        loading: u.loading,
        status: opt_text(u.status),
        pending_status: opt_text(u.pending_status),
        covers_per_page: u.covers_per_page as nat,
        opds_server_enabled: u.opds_server_enabled,
        reader_app_id: opt_text(u.reader_app_id),
        editor_app_id: opt_text(u.editor_app_id),
    }
}

/// The first page of books for the current search.
pub open spec fn first_page(s: LibraryView) -> RequestView {
    (normalized_query_of(s.search), 0, s.covers_per_page)
}

/// Loading books, when the database is open: the flag is raised and the
/// request made; else nothing happens.
pub open spec fn reload(s: LibraryView, r: RequestView) -> (LibraryView, ActionView) {
    if s.has_database {
        (LibraryView { loading: true, ..s }, ActionView::LoadBooks(r))
    } else {
        (s, ActionView::Nothing)
    }
}

/// The last page for a number of books: the page of the last book, or the
/// first page when there is none.
pub open spec fn last_page(total: nat, per_page: nat) -> nat {
    if total == 0 {
        0
    } else {
        ((total - 1) / (per_page as int)) as nat
    }
}

/// The number of books a page holds, kept between 12 and 96.
pub open spec fn clamped_page_size(size: nat) -> nat {
    if size < 12 {
        12
    } else if size > 96 {
        96
    } else {
        size
    }
}

pub open spec fn saved_message(r: Result<(), String>, done: Seq<char>) -> Option<Seq<char>> {
    match r {
        Ok(()) => Some(done),
        Err(e) => Some(e@),
    }
}

/// How the library window takes an event: the new state and the action.
pub open spec fn library_step(s: LibraryView, e: LibraryEvent) -> (LibraryView, ActionView) {
    match e {
        LibraryEvent::DatabaseOpened(Ok(())) => (
            LibraryView { has_database: true, loading: true, ..s },
            ActionView::LoadBooks((None, 0, s.covers_per_page)),
        ),
        LibraryEvent::DatabaseOpened(Err(m)) => (LibraryView { loading: false, status: Some(m@), ..s }, ActionView::Nothing),
        LibraryEvent::BooksLoaded(Ok((total, page))) => (
            LibraryView {
                loading: false,
                total_books_count: total as nat,
                library_page: page as nat,
                hovered_card: None,
                status: s.pending_status,
                pending_status: None,
                ..s
            },
            ActionView::ShowCovers,
        ),
        LibraryEvent::BooksLoaded(Err(m)) => (LibraryView { loading: false, status: Some(m@), ..s }, ActionView::Nothing),
        LibraryEvent::StatsLoaded(Ok(())) => (LibraryView { loading: false, status: None, ..s }, ActionView::Nothing),
        LibraryEvent::StatsLoaded(Err(m)) => (LibraryView { loading: false, status: Some(m@), ..s }, ActionView::Nothing),
        LibraryEvent::SectionSelected(section) => {
            let keeps_search = section == Section::Library || section == Section::List;
            let t = LibraryView {
                section,
                page: None,
                hovered_card: None,
                show_edit_dialog: false,
                show_delete_dialog: false,
                search_active: if keeps_search { s.search_active } else { false },
                search: if keeps_search { s.search } else { Seq::empty() },
                loading: true,
                ..s
            };
            if !t.has_database {
                (t, ActionView::Nothing)
            } else if section == Section::Stats {
                (t, ActionView::LoadStats)
            } else {
                (t, ActionView::LoadBooks(first_page(t)))
            }
        },
        LibraryEvent::SearchChanged(q) => reload(LibraryView { search: q@, ..s }, first_page(LibraryView { search: q@, ..s })),
        LibraryEvent::SearchOpened => {
            let needs_library = s.page is Some || !(s.section == Section::Library || s.section == Section::List);
            let t = if needs_library {
                LibraryView { page: None, section: Section::Library, show_edit_dialog: false, search_active: true, ..s }
            } else {
                LibraryView { search_active: true, ..s }
            };
            if !needs_library || !t.has_database {
                (t, ActionView::FocusSearch(None))
            } else {
                (LibraryView { loading: true, ..t }, ActionView::FocusSearch(Some(first_page(t))))
            }
        },
        LibraryEvent::SearchStarted(text) => {
            let t = LibraryView { search_active: true, search: s.search + text@, ..s };
            if t.has_database {
                (LibraryView { loading: true, ..t }, ActionView::FocusSearch(Some(first_page(t))))
            } else {
                (t, ActionView::FocusSearch(None))
            }
        },
        LibraryEvent::SearchClosed => reload(
            LibraryView { search_active: false, search: Seq::empty(), ..s },
            (None, 0, s.covers_per_page),
        ),
        LibraryEvent::SearchSubmitted => reload(s, first_page(s)),
        LibraryEvent::SearchShortcut => if s.page is None && (s.section == Section::Library || s.section == Section::List) {
            (LibraryView { search_active: true, ..s }, ActionView::FocusSearch(None))
        } else {
            (s, ActionView::Nothing)
        },
        LibraryEvent::EscapePressed => if s.show_delete_dialog {
            (LibraryView { show_delete_dialog: false, ..s }, ActionView::Nothing)
        } else if s.show_edit_dialog {
            (LibraryView { show_edit_dialog: false, ..s }, ActionView::Nothing)
        } else if s.search_active {
            reload(LibraryView { search_active: false, search: Seq::empty(), ..s }, (None, 0, s.covers_per_page))
        } else {
            (s, ActionView::Nothing)
        },
        LibraryEvent::ImportPressed => (s, ActionView::SelectFiles),
        LibraryEvent::FilesSelected(Ok(n)) => if n > 0 {
            if s.has_database {
                (
                    LibraryView { loading: true, status: Some("Importando libros…"@), ..s },
                    ActionView::ImportSelectedFiles,
                )
            } else {
                (s, ActionView::Nothing)
            }
        } else {
            (LibraryView { status: Some("No se seleccionaron archivos EPUB."@), ..s }, ActionView::Nothing)
        },
        LibraryEvent::FilesSelected(Err(m)) => (LibraryView { status: Some(m@), ..s }, ActionView::Nothing),
        LibraryEvent::ImportFinished(Ok(count)) => {
            let t = LibraryView {
                status: Some(crate::numbers::decimal_digits(count as nat) + " libro(s) importado(s)."@),
                ..s
            };
            if t.has_database {
                (t, ActionView::LoadBooks((None, 0, s.covers_per_page)))
            } else {
                (t, ActionView::Nothing)
            }
        },
        LibraryEvent::ImportFinished(Err(m)) => (LibraryView { loading: false, status: Some(m@), ..s }, ActionView::Nothing),
        LibraryEvent::OpenDetail(id) => if s.has_database {
            (LibraryView { hovered_card: None, loading: true, ..s }, ActionView::LoadDetail(id))
        } else {
            (s, ActionView::Nothing)
        },
        LibraryEvent::DetailLoaded(Ok(Some(b))) => (
            LibraryView {
                loading: false,
                title_edit: b.title@,
                author_edit: b.author_name@,
                page: Some(book_view(b)),
                show_delete_dialog: false,
                status: None,
                ..s
            },
            ActionView::Nothing,
        ),
        LibraryEvent::DetailLoaded(Ok(None)) => (
            LibraryView { loading: false, status: Some("El libro ya no existe."@), ..s },
            ActionView::Nothing,
        ),
        LibraryEvent::DetailLoaded(Err(m)) => (LibraryView { loading: false, status: Some(m@), ..s }, ActionView::Nothing),
        LibraryEvent::TitleChanged(v) => (LibraryView { title_edit: v@, ..s }, ActionView::Nothing),
        LibraryEvent::AuthorChanged(v) => (LibraryView { author_edit: v@, ..s }, ActionView::Nothing),
        LibraryEvent::SaveMetadata => match s.page {
            Some(b) => if s.has_database {
                (LibraryView { loading: true, ..s }, ActionView::SaveMetadata(b.0, s.title_edit, s.author_edit))
            } else {
                (s, ActionView::Nothing)
            },
            None => (s, ActionView::Nothing),
        },
        LibraryEvent::MetadataSaved(Ok(())) => (
            LibraryView {
                loading: false,
                show_edit_dialog: false,
                page: match s.page {
                    Some(b) => Some((b.0, s.title_edit, s.author_edit, b.3)),
                    None => None,
                },
                status: Some("Metadatos guardados."@),
                ..s
            },
            ActionView::Nothing,
        ),
        LibraryEvent::MetadataSaved(Err(m)) => (LibraryView { loading: false, status: Some(m@), ..s }, ActionView::Nothing),
        LibraryEvent::OpenEditDialog => (
            LibraryView { show_edit_dialog: true, show_delete_dialog: false, ..s },
            ActionView::Nothing,
        ),
        LibraryEvent::CloseEditDialog => (LibraryView { show_edit_dialog: false, ..s }, ActionView::Nothing),
        LibraryEvent::OpenDeleteDialog => (
            LibraryView { show_delete_dialog: true, show_edit_dialog: false, ..s },
            ActionView::Nothing,
        ),
        LibraryEvent::CloseDeleteDialog => (LibraryView { show_delete_dialog: false, ..s }, ActionView::Nothing),
        LibraryEvent::DeleteBook(delete_file) => match s.page {
            Some(b) => if s.has_database {
                (
                    LibraryView { loading: true, show_delete_dialog: false, ..s },
                    ActionView::DeleteBook(b.0, delete_file),
                )
            } else {
                (s, ActionView::Nothing)
            },
            None => (s, ActionView::Nothing),
        },
        LibraryEvent::BookDeleted(Ok(deleted)) => {
            let message = match deleted {
                Some(path) => "Libro eliminado y archivo borrado: "@ + path@,
                None => "Libro quitado de la biblioteca."@,
            };
            let t = LibraryView {
                loading: false,
                page: None,
                section: Section::Library,
                show_edit_dialog: false,
                show_delete_dialog: false,
                status: Some(message),
                pending_status: Some(message),
                hovered_card: None,
                ..s
            };
            reload(t, first_page(t))
        },
        LibraryEvent::BookDeleted(Err(m)) => (LibraryView { loading: false, status: Some(m@), ..s }, ActionView::Nothing),
        LibraryEvent::ReadBook => match s.page {
            Some(b) => (s, ActionView::OpenBook(b.3, s.reader_app_id)),
            None => (s, ActionView::Nothing),
        },
        LibraryEvent::EditBook => match s.page {
            Some(b) => (s, ActionView::EditBook(b.3, s.editor_app_id)),
            None => (s, ActionView::Nothing),
        },
        LibraryEvent::BookOpened(Err(m)) => (LibraryView { status: Some(m@), ..s }, ActionView::Nothing),
        LibraryEvent::BookEdited(Err(m)) => (LibraryView { status: Some(m@), ..s }, ActionView::Nothing),
        LibraryEvent::BookOpened(Ok(())) => (s, ActionView::Nothing),
        LibraryEvent::BookEdited(Ok(())) => (s, ActionView::Nothing),
        LibraryEvent::QuickAction(a) => (
            LibraryView { status: Some("Acción rápida: "@ + a@ + "."@), ..s },
            ActionView::Nothing,
        ),
        LibraryEvent::CardDesignSelected(id) => if design_ids().contains(id@) {
            (LibraryView { selected_card_design: id@, ..s }, ActionView::SaveCardDesign(id@))
        } else {
            (
                LibraryView { status: Some("El diseño de tarjeta «"@ + id@ + "» no existe."@), ..s },
                ActionView::Nothing,
            )
        },
        LibraryEvent::CardDesignSaved(r) => (
            LibraryView { status: saved_message(r, "Diseño de biblioteca actualizado."@), ..s },
            ActionView::Nothing,
        ),
        LibraryEvent::PageSizeSelected(size) => {
            let n = clamped_page_size(size as nat);
            (LibraryView { covers_per_page: n, ..s }, ActionView::SavePageSize(n))
        },
        LibraryEvent::PageSizeSaved(r) => {
            let t = LibraryView {
                status: saved_message(
                    r,
                    "Mostrando "@ + crate::numbers::decimal_digits(s.covers_per_page) + " carátulas por página."@,
                ),
                ..s
            };
            reload(t, first_page(t))
        },
        LibraryEvent::LibraryPageSelected(page) => {
            let last = last_page(s.total_books_count, s.covers_per_page);
            let target: nat = if page < last {
                page as nat
            } else {
                last
            };
            reload(LibraryView { hovered_card: None, ..s }, (normalized_query_of(s.search), target, s.covers_per_page))
        },
        LibraryEvent::CardHoverChanged(card) => (
            LibraryView {
                hovered_card: match card {
                    Some((id, kind)) => Some((id, kind@)),
                    None => None,
                },
                ..s
            },
            ActionView::Nothing,
        ),
        LibraryEvent::EnableOpdsServer => if s.opds_server_enabled {
            (LibraryView { status: Some("Servidor web activo: "@ + "http://localhost:8080/opds/browser"@), ..s }, ActionView::Nothing)
        } else if !s.has_database {
            (
                LibraryView { status: Some("La base de datos todavía no está disponible."@), ..s },
                ActionView::Nothing,
            )
        } else {
            (LibraryView { status: Some("Iniciando servidor web…"@), ..s }, ActionView::StartOpdsServer)
        },
        LibraryEvent::OpdsServerEnabled(Ok(m)) => (
            LibraryView { opds_server_enabled: true, status: Some(m@), ..s },
            ActionView::Nothing,
        ),
        LibraryEvent::OpdsServerEnabled(Err(m)) => (LibraryView { status: Some(m@), ..s }, ActionView::Nothing),
        LibraryEvent::ReaderAppSelected(id) => (
            LibraryView { reader_app_id: opt_text(id), ..s },
            ActionView::SaveAppPreference(AppRole::Reader, opt_text(id)),
        ),
        LibraryEvent::EditorAppSelected(id) => (
            LibraryView { editor_app_id: opt_text(id), ..s },
            ActionView::SaveAppPreference(AppRole::Editor, opt_text(id)),
        ),
        LibraryEvent::AppPreferenceSaved(role, r) => (
            LibraryView {
                status: saved_message(
                    r,
                    if role == AppRole::Reader {
                        "Aplicación de lectura actualizada."@
                    } else {
                        "Aplicación de edición actualizada."@
                    },
                ),
                ..s
            },
            ActionView::Nothing,
        ),
    }
}

fn text(s: &str) -> (r: String)
    ensures
        r@ == s@,
{
    string_from(&chars_of(s))
}

fn copy_text(s: &String) -> (r: String)
    ensures
        r@ == s@,
{
    s.clone()
}

fn copy_opt(o: &Option<String>) -> (r: Option<String>)
    ensures
        opt_text(r) == opt_text(*o),
{
    match o {
        Some(s) => Some(s.clone()),
        None => None,
    }
}

fn saved_text(r: Result<(), String>, done: &str) -> (m: Option<String>)
    ensures
        opt_text(m) == saved_message(r, done@),
{
    match r {
        Ok(()) => Some(text(done)),
        Err(e) => Some(e),
    }
}

impl LibraryUi {
    /// The window as it opens: loading, on the library's main page, with the
    /// saved card design, page size and applications.
    pub fn new(
        selected_card_design: String,
        covers_per_page: usize,
        reader_app_id: Option<String>,
        editor_app_id: Option<String>,
    ) -> (u: LibraryUi)
        ensures
            library_view(&u) == (LibraryView {
                has_database: false,
                page: None,
                section: Section::Library,
                total_books_count: 0,
                library_page: 0,
                search: Seq::empty(),
                search_active: false,
                title_edit: Seq::empty(),
                author_edit: Seq::empty(),
                show_edit_dialog: false,
                show_delete_dialog: false,
                selected_card_design: selected_card_design@,
                hovered_card: None,
                loading: true,
                status: None,
                pending_status: None,
                covers_per_page: covers_per_page as nat,
                opds_server_enabled: false,
                reader_app_id: opt_text(reader_app_id),
                editor_app_id: opt_text(editor_app_id),
            }),
    {
        LibraryUi {
            has_database: false,
            page: LibraryPage::Main,
            section: Section::Library,
            total_books_count: 0,
            library_page: 0,
            search: String::new(),
            search_active: false,
            title_edit: String::new(),
            author_edit: String::new(),
            show_edit_dialog: false,
            show_delete_dialog: false,
            selected_card_design,
            hovered_card: None,
            loading: true,
            status: None,
            pending_status: None,
            covers_per_page,
            opds_server_enabled: false,
            reader_app_id,
            editor_app_id,
        }
    }

    fn first_page_request(&self) -> (r: LoadRequest)
        ensures
            request_view(r) == first_page(library_view(self)),
    {
        let query = normalized_query(self.search.as_str());
        LoadRequest { query, page: 0, per_page: self.covers_per_page }
    }

    fn reload_with(&mut self, r: LoadRequest) -> (a: LibraryAction)
        ensures
            (library_view(final(self)), action_view(a)) == reload(library_view(old(self)), request_view(r)),
    {
        if self.has_database {
            self.loading = true;
            LibraryAction::LoadBooks(r)
        } else {
            LibraryAction::Nothing
        }
    }

    /// Which of the window's concerns an event belongs to: loading and
    /// importing, searching and paging, a book's page, or the preferences.
    fn event_group(e: &LibraryEvent) -> (g: u8)
        ensures
            g < 4,
            g == 0 ==> (e is DatabaseOpened || e is BooksLoaded || e is StatsLoaded || e is SectionSelected || e is ImportPressed || e is FilesSelected || e is ImportFinished),
            g == 1 ==> (e is SearchChanged || e is SearchOpened || e is SearchStarted || e is SearchClosed || e is SearchSubmitted || e is SearchShortcut || e is EscapePressed || e is LibraryPageSelected || e is CardHoverChanged),
            g == 2 ==> (e is OpenDetail || e is DetailLoaded || e is TitleChanged || e is AuthorChanged || e is SaveMetadata || e is MetadataSaved || e is OpenEditDialog || e is CloseEditDialog || e is OpenDeleteDialog || e is CloseDeleteDialog || e is DeleteBook || e is BookDeleted),
            g == 3 ==> (e is ReadBook || e is EditBook || e is BookOpened || e is BookEdited || e is QuickAction || e is CardDesignSelected || e is CardDesignSaved || e is PageSizeSelected || e is PageSizeSaved || e is EnableOpdsServer || e is OpdsServerEnabled || e is ReaderAppSelected || e is EditorAppSelected || e is AppPreferenceSaved),
    {
        match e {
            LibraryEvent::DatabaseOpened(..) => 0,
            LibraryEvent::BooksLoaded(..) => 0,
            LibraryEvent::StatsLoaded(..) => 0,
            LibraryEvent::SectionSelected(..) => 0,
            LibraryEvent::ImportPressed => 0,
            LibraryEvent::FilesSelected(..) => 0,
            LibraryEvent::ImportFinished(..) => 0,
            LibraryEvent::SearchChanged(..) => 1,
            LibraryEvent::SearchOpened => 1,
            LibraryEvent::SearchStarted(..) => 1,
            LibraryEvent::SearchClosed => 1,
            LibraryEvent::SearchSubmitted => 1,
            LibraryEvent::SearchShortcut => 1,
            LibraryEvent::EscapePressed => 1,
            LibraryEvent::LibraryPageSelected(..) => 1,
            LibraryEvent::CardHoverChanged(..) => 1,
            LibraryEvent::OpenDetail(..) => 2,
            LibraryEvent::DetailLoaded(..) => 2,
            LibraryEvent::TitleChanged(..) => 2,
            LibraryEvent::AuthorChanged(..) => 2,
            LibraryEvent::SaveMetadata => 2,
            LibraryEvent::MetadataSaved(..) => 2,
            LibraryEvent::OpenEditDialog => 2,
            LibraryEvent::CloseEditDialog => 2,
            LibraryEvent::OpenDeleteDialog => 2,
            LibraryEvent::CloseDeleteDialog => 2,
            LibraryEvent::DeleteBook(..) => 2,
            LibraryEvent::BookDeleted(..) => 2,
            LibraryEvent::ReadBook => 3,
            LibraryEvent::EditBook => 3,
            LibraryEvent::BookOpened(..) => 3,
            LibraryEvent::BookEdited(..) => 3,
            LibraryEvent::QuickAction(..) => 3,
            LibraryEvent::CardDesignSelected(..) => 3,
            LibraryEvent::CardDesignSaved(..) => 3,
            LibraryEvent::PageSizeSelected(..) => 3,
            LibraryEvent::PageSizeSaved(..) => 3,
            LibraryEvent::EnableOpdsServer => 3,
            LibraryEvent::OpdsServerEnabled(..) => 3,
            LibraryEvent::ReaderAppSelected(..) => 3,
            LibraryEvent::EditorAppSelected(..) => 3,
            LibraryEvent::AppPreferenceSaved(..) => 3,
        }
    }

    #[verifier::rlimit(60)]
    fn step_loading(&mut self, event: LibraryEvent) -> (a: LibraryAction)
        requires
            old(self).covers_per_page > 0,
            event is DatabaseOpened || event is BooksLoaded || event is StatsLoaded || event is SectionSelected || event is ImportPressed || event is FilesSelected || event is ImportFinished,
        ensures
            (library_view(final(self)), action_view(a)) == library_step(library_view(old(self)), event),
    {
        proof {
            reveal_strlit("Importando libros…");
            reveal_strlit("No se seleccionaron archivos EPUB.");
            reveal_strlit(" libro(s) importado(s).");
        }
        match event {
            LibraryEvent::DatabaseOpened(Ok(())) => {
                self.has_database = true;
                self.loading = true;
                LibraryAction::LoadBooks(LoadRequest { query: None, page: 0, per_page: self.covers_per_page })
            },
            LibraryEvent::DatabaseOpened(Err(m)) => {
                self.loading = false;
                self.status = Some(m);
                LibraryAction::Nothing
            },
            LibraryEvent::BooksLoaded(Ok((total, page))) => {
                self.loading = false;
                self.total_books_count = total;
                self.library_page = page;
                self.hovered_card = None;
                self.status = self.pending_status.take();
                LibraryAction::ShowCovers
            },
            LibraryEvent::BooksLoaded(Err(m)) | LibraryEvent::StatsLoaded(Err(m)) => {
                self.loading = false;
                self.status = Some(m);
                LibraryAction::Nothing
            },
            LibraryEvent::StatsLoaded(Ok(())) => {
                self.loading = false;
                self.status = None;
                LibraryAction::Nothing
            },
            LibraryEvent::SectionSelected(section) => {
                self.section = section;
                self.page = LibraryPage::Main;
                self.hovered_card = None;
                self.show_edit_dialog = false;
                self.show_delete_dialog = false;
                if !(section == Section::Library || section == Section::List) {
                    self.search_active = false;
                    self.search = String::new();
                }
                self.loading = true;
                if !self.has_database {
                    LibraryAction::Nothing
                } else if section == Section::Stats {
                    LibraryAction::LoadStats
                } else {
                    LibraryAction::LoadBooks(self.first_page_request())
                }
            },
            LibraryEvent::ImportPressed => LibraryAction::SelectFiles,
            LibraryEvent::FilesSelected(Ok(n)) => {
                if n > 0 {
                    if self.has_database {
                        self.loading = true;
                        self.status = Some(text("Importando libros…"));
                        LibraryAction::ImportSelectedFiles
                    } else {
                        LibraryAction::Nothing
                    }
                } else {
                    self.status = Some(text("No se seleccionaron archivos EPUB."));
                    LibraryAction::Nothing
                }
            },
            LibraryEvent::FilesSelected(Err(m)) => {
                self.status = Some(m);
                LibraryAction::Nothing
            },
            LibraryEvent::ImportFinished(Ok(count)) => {
                let mut m = String::new();
                crate::numbers::push_decimal(&mut m, count as u64);
                push_str(&mut m, " libro(s) importado(s).");
                self.status = Some(m);
                if self.has_database {
                    LibraryAction::LoadBooks(LoadRequest { query: None, page: 0, per_page: self.covers_per_page })
                } else {
                    LibraryAction::Nothing
                }
            },
            LibraryEvent::ImportFinished(Err(m)) => {
                self.loading = false;
                self.status = Some(m);
                LibraryAction::Nothing
            },
            _ => LibraryAction::Nothing,
        }
    }

    #[verifier::rlimit(60)]
    fn step_search(&mut self, event: LibraryEvent) -> (a: LibraryAction)
        requires
            old(self).covers_per_page > 0,
            event is SearchChanged || event is SearchOpened || event is SearchStarted || event is SearchClosed || event is SearchSubmitted || event is SearchShortcut || event is EscapePressed || event is LibraryPageSelected || event is CardHoverChanged,
        ensures
            (library_view(final(self)), action_view(a)) == library_step(library_view(old(self)), event),
    {
        match event {
            LibraryEvent::SearchChanged(q) => {
                self.search = q;
                let r = self.first_page_request();
                self.reload_with(r)
            },
            LibraryEvent::SearchOpened => {
                let needs_library = (match self.page {
                    LibraryPage::Main => false,
                    LibraryPage::Detail(_) => true,
                }) || !(self.section == Section::Library || self.section == Section::List);
                if needs_library {
                    self.page = LibraryPage::Main;
                    self.section = Section::Library;
                    self.show_edit_dialog = false;
                }
                self.search_active = true;
                if !needs_library || !self.has_database {
                    LibraryAction::FocusSearch(None)
                } else {
                    self.loading = true;
                    LibraryAction::FocusSearch(Some(self.first_page_request()))
                }
            },
            LibraryEvent::SearchStarted(t) => {
                self.search_active = true;
                push_str(&mut self.search, t.as_str());
                if self.has_database {
                    self.loading = true;
                    LibraryAction::FocusSearch(Some(self.first_page_request()))
                } else {
                    LibraryAction::FocusSearch(None)
                }
            },
            LibraryEvent::SearchClosed => {
                self.search_active = false;
                self.search = String::new();
                let r = LoadRequest { query: None, page: 0, per_page: self.covers_per_page };
                self.reload_with(r)
            },
            LibraryEvent::SearchSubmitted => {
                let r = self.first_page_request();
                self.reload_with(r)
            },
            LibraryEvent::SearchShortcut => {
                let on_main = match self.page {
                    LibraryPage::Main => true,
                    LibraryPage::Detail(_) => false,
                };
                if on_main && (self.section == Section::Library || self.section == Section::List) {
                    self.search_active = true;
                    LibraryAction::FocusSearch(None)
                } else {
                    LibraryAction::Nothing
                }
            },
            LibraryEvent::EscapePressed => {
                if self.show_delete_dialog {
                    self.show_delete_dialog = false;
                    LibraryAction::Nothing
                } else if self.show_edit_dialog {
                    self.show_edit_dialog = false;
                    LibraryAction::Nothing
                } else if self.search_active {
                    self.search_active = false;
                    self.search = String::new();
                    let r = LoadRequest { query: None, page: 0, per_page: self.covers_per_page };
                    self.reload_with(r)
                } else {
                    LibraryAction::Nothing
                }
            },
            LibraryEvent::LibraryPageSelected(page) => {
                let per = self.covers_per_page;
                let total = self.total_books_count;
                let last = if total == 0 {
                    0
                } else {
                    (total - 1) / per
                };
                let target = if page < last {
                    page
                } else {
                    last
                };
                self.hovered_card = None;
                let query = normalized_query(self.search.as_str());
                self.reload_with(LoadRequest { query, page: target, per_page: per })
            },
            LibraryEvent::CardHoverChanged(card) => {
                self.hovered_card = card;
                LibraryAction::Nothing
            },
            _ => LibraryAction::Nothing,
        }
    }

    #[verifier::rlimit(60)]
    fn step_book_page(&mut self, event: LibraryEvent) -> (a: LibraryAction)
        requires
            old(self).covers_per_page > 0,
            event is OpenDetail || event is DetailLoaded || event is TitleChanged || event is AuthorChanged || event is SaveMetadata || event is MetadataSaved || event is OpenEditDialog || event is CloseEditDialog || event is OpenDeleteDialog || event is CloseDeleteDialog || event is DeleteBook || event is BookDeleted,
        ensures
            (library_view(final(self)), action_view(a)) == library_step(library_view(old(self)), event),
    {
        proof {
            reveal_strlit("El libro ya no existe.");
            reveal_strlit("Metadatos guardados.");
            reveal_strlit("Libro eliminado y archivo borrado: ");
            reveal_strlit("Libro quitado de la biblioteca.");
        }
        match event {
            LibraryEvent::OpenDetail(id) => {
                if self.has_database {
                    self.hovered_card = None;
                    self.loading = true;
                    LibraryAction::LoadDetail(id)
                } else {
                    LibraryAction::Nothing
                }
            },
            LibraryEvent::DetailLoaded(Ok(Some(b))) => {
                self.loading = false;
                self.title_edit = copy_text(&b.title);
                self.author_edit = copy_text(&b.author_name);
                self.page = LibraryPage::Detail(b);
                self.show_delete_dialog = false;
                self.status = None;
                LibraryAction::Nothing
            },
            LibraryEvent::DetailLoaded(Ok(None)) => {
                self.loading = false;
                self.status = Some(text("El libro ya no existe."));
                LibraryAction::Nothing
            },
            LibraryEvent::DetailLoaded(Err(m)) => {
                self.loading = false;
                self.status = Some(m);
                LibraryAction::Nothing
            },
            LibraryEvent::TitleChanged(v) => {
                self.title_edit = v;
                LibraryAction::Nothing
            },
            LibraryEvent::AuthorChanged(v) => {
                self.author_edit = v;
                LibraryAction::Nothing
            },
            LibraryEvent::SaveMetadata => {
                let id = match &self.page {
                    LibraryPage::Detail(b) => b.id,
                    LibraryPage::Main => {
                        return LibraryAction::Nothing;
                    },
                };
                if !self.has_database {
                    return LibraryAction::Nothing;
                }
                self.loading = true;
                LibraryAction::SaveMetadata(id, copy_text(&self.title_edit), copy_text(&self.author_edit))
            },
            LibraryEvent::MetadataSaved(Ok(())) => {
                self.loading = false;
                self.show_edit_dialog = false;
                let title = copy_text(&self.title_edit);
                let author = copy_text(&self.author_edit);
                match &mut self.page {
                    LibraryPage::Detail(b) => {
                        b.title = title;
                        b.author_name = author;
                    },
                    LibraryPage::Main => {},
                }
                self.status = Some(text("Metadatos guardados."));
                LibraryAction::Nothing
            },
            LibraryEvent::MetadataSaved(Err(m)) => {
                self.loading = false;
                self.status = Some(m);
                LibraryAction::Nothing
            },
            LibraryEvent::OpenEditDialog => {
                self.show_edit_dialog = true;
                self.show_delete_dialog = false;
                LibraryAction::Nothing
            },
            LibraryEvent::CloseEditDialog => {
                self.show_edit_dialog = false;
                LibraryAction::Nothing
            },
            LibraryEvent::OpenDeleteDialog => {
                self.show_delete_dialog = true;
                self.show_edit_dialog = false;
                LibraryAction::Nothing
            },
            LibraryEvent::CloseDeleteDialog => {
                self.show_delete_dialog = false;
                LibraryAction::Nothing
            },
            LibraryEvent::DeleteBook(delete_file) => {
                let id = match &self.page {
                    LibraryPage::Detail(b) => b.id,
                    LibraryPage::Main => {
                        return LibraryAction::Nothing;
                    },
                };
                if !self.has_database {
                    return LibraryAction::Nothing;
                }
                self.loading = true;
                self.show_delete_dialog = false;
                LibraryAction::DeleteBook(id, delete_file)
            },
            LibraryEvent::BookDeleted(Ok(deleted)) => {
                let message = match deleted {
                    Some(path) => {
                        let mut m = text("Libro eliminado y archivo borrado: ");
                        push_str(&mut m, path.as_str());
                        m
                    },
                    None => text("Libro quitado de la biblioteca."),
                };
                self.loading = false;
                self.page = LibraryPage::Main;
                self.section = Section::Library;
                self.show_edit_dialog = false;
                self.show_delete_dialog = false;
                self.pending_status = Some(copy_text(&message));
                self.status = Some(message);
                self.hovered_card = None;
                let r = self.first_page_request();
                self.reload_with(r)
            },
            LibraryEvent::BookDeleted(Err(m)) => {
                self.loading = false;
                self.status = Some(m);
                LibraryAction::Nothing
            },
            _ => LibraryAction::Nothing,
        }
    }

    #[verifier::rlimit(60)]
    fn step_preferences(&mut self, event: LibraryEvent) -> (a: LibraryAction)
        requires
            old(self).covers_per_page > 0,
            event is ReadBook || event is EditBook || event is BookOpened || event is BookEdited || event is QuickAction || event is CardDesignSelected || event is CardDesignSaved || event is PageSizeSelected || event is PageSizeSaved || event is EnableOpdsServer || event is OpdsServerEnabled || event is ReaderAppSelected || event is EditorAppSelected || event is AppPreferenceSaved,
        ensures
            (library_view(final(self)), action_view(a)) == library_step(library_view(old(self)), event),
    {
        proof {
            reveal_strlit("Acción rápida: ");
            reveal_strlit(".");
            reveal_strlit("El diseño de tarjeta «");
            reveal_strlit("» no existe.");
            reveal_strlit("Diseño de biblioteca actualizado.");
            reveal_strlit("Mostrando ");
            reveal_strlit(" carátulas por página.");
            reveal_strlit("La base de datos todavía no está disponible.");
            reveal_strlit("Iniciando servidor web…");
            reveal_strlit("Aplicación de lectura actualizada.");
            reveal_strlit("Aplicación de edición actualizada.");
        }
        match event {
            LibraryEvent::ReadBook => match &self.page {
                LibraryPage::Detail(b) => LibraryAction::OpenBook(copy_text(&b.current_path), copy_opt(&self.reader_app_id)),
                LibraryPage::Main => LibraryAction::Nothing,
            },
            LibraryEvent::EditBook => match &self.page {
                LibraryPage::Detail(b) => LibraryAction::EditBook(copy_text(&b.current_path), copy_opt(&self.editor_app_id)),
                LibraryPage::Main => LibraryAction::Nothing,
            },
            LibraryEvent::BookOpened(Err(m)) | LibraryEvent::BookEdited(Err(m)) => {
                self.status = Some(m);
                LibraryAction::Nothing
            },
            LibraryEvent::BookOpened(Ok(())) | LibraryEvent::BookEdited(Ok(())) => LibraryAction::Nothing,
            LibraryEvent::QuickAction(a) => {
                let mut m = text("Acción rápida: ");
                push_str(&mut m, a.as_str());
                push_str(&mut m, ".");
                self.status = Some(m);
                LibraryAction::Nothing
            },
            LibraryEvent::CardDesignSelected(id) => {
                let design = card_design(id.as_str());
                if !crate::text::str_eq(design.id(), id.as_str()) {
                    proof {
                        if design_ids().contains(id@) {
                            assert(design.id@ == id@);
                        }
                    }
                    let mut m = text("El diseño de tarjeta «");
                    push_str(&mut m, id.as_str());
                    push_str(&mut m, "» no existe.");
                    self.status = Some(m);
                    return LibraryAction::Nothing;
                }
                proof {
                    assert(design_ids()[0] == "basic"@);
                    assert(design_ids().contains(design_ids()[0]));
                }
                self.selected_card_design = copy_text(&id);
                LibraryAction::SaveCardDesign(id)
            },
            LibraryEvent::CardDesignSaved(r) => {
                self.status = saved_text(r, "Diseño de biblioteca actualizado.");
                LibraryAction::Nothing
            },
            LibraryEvent::PageSizeSelected(size) => {
                let n = if size < 12 {
                    12
                } else if size > 96 {
                    96
                } else {
                    size
                };
                self.covers_per_page = n;
                LibraryAction::SavePageSize(n)
            },
            LibraryEvent::PageSizeSaved(r) => {
                let mut done = text("Mostrando ");
                crate::numbers::push_decimal(&mut done, self.covers_per_page as u64);
                push_str(&mut done, " carátulas por página.");
                self.status = match r {
                    Ok(()) => Some(done),
                    Err(e) => Some(e),
                };
                let q = self.first_page_request();
                self.reload_with(q)
            },
            LibraryEvent::EnableOpdsServer => {
                if self.opds_server_enabled {
                    self.status = Some(crate::library::opds_browser_status());
                    LibraryAction::Nothing
                } else if !self.has_database {
                    self.status = Some(text("La base de datos todavía no está disponible."));
                    LibraryAction::Nothing
                } else {
                    self.status = Some(text("Iniciando servidor web…"));
                    LibraryAction::StartOpdsServer
                }
            },
            LibraryEvent::OpdsServerEnabled(Ok(m)) => {
                self.opds_server_enabled = true;
                self.status = Some(m);
                LibraryAction::Nothing
            },
            LibraryEvent::OpdsServerEnabled(Err(m)) => {
                self.status = Some(m);
                LibraryAction::Nothing
            },
            LibraryEvent::ReaderAppSelected(id) => {
                self.reader_app_id = copy_opt(&id);
                LibraryAction::SaveAppPreference(AppRole::Reader, id)
            },
            LibraryEvent::EditorAppSelected(id) => {
                self.editor_app_id = copy_opt(&id);
                LibraryAction::SaveAppPreference(AppRole::Editor, id)
            },
            LibraryEvent::AppPreferenceSaved(role, r) => {
                self.status = if role == AppRole::Reader {
                    saved_text(r, "Aplicación de lectura actualizada.")
                } else {
                    saved_text(r, "Aplicación de edición actualizada.")
                };
                LibraryAction::Nothing
            },

            _ => LibraryAction::Nothing,
        }
    }

    /// Whether typed text starts a search; see `listens_for_typing_of`.
    pub fn listens_for_typing(&self) -> (b: bool)
        ensures
            b == listens_for_typing_of(library_view(self)),
    {
        let on_main = match self.page {
            LibraryPage::Main => true,
            LibraryPage::Detail(_) => false,
        };
        !self.search_active && on_main && (self.section == Section::Library || self.section == Section::List)
    }

    /// Takes an event; see `library_step`.
    pub fn step(&mut self, event: LibraryEvent) -> (a: LibraryAction)
        requires
            old(self).covers_per_page > 0,
        ensures
            (library_view(final(self)), action_view(a)) == library_step(library_view(old(self)), event),
    {
        let g = Self::event_group(&event);
        if g == 0 {
            self.step_loading(event)
        } else if g == 1 {
            self.step_search(event)
        } else if g == 2 {
            self.step_book_page(event)
        } else {
            self.step_preferences(event)
        }
    }

}

/// Whether the window listens for typed text to start a search: on the main
/// page of the library or the list, while no search is open.
pub open spec fn listens_for_typing_of(s: LibraryView) -> bool {
    !s.search_active && s.page is None && (s.section == Section::Library || s.section == Section::List)
}

/// `char::is_control`: the control characters U+0000 to U+001F and U+007F to U+009F.
pub open spec fn is_control(c: char) -> bool {
    let v = c as u32;
    v <= 0x1f || (0x7f <= v && v <= 0x9f)
}

/// The search a key press starts: the text it types, when it types any, no
/// Ctrl, Alt or logo key is held, and the text has a character that is
/// neither a control character nor white space.
pub open spec fn typed_search_of(text: Option<Seq<char>>, ctrl: bool, alt: bool, logo: bool) -> Option<Seq<char>> {
    match text {
        Some(t) => if !ctrl && !alt && !logo && exists|i: int|
            0 <= i < t.len() && !is_control(t[i]) && !crate::text::is_white_space(t[i]) {
            Some(t)
        } else {
            None
        },
        None => None,
    }
}

/// The search a key press starts; see `typed_search_of`.
pub fn typed_search(text: Option<&str>, ctrl: bool, alt: bool, logo: bool) -> (r: Option<String>)
    ensures
        opt_text(r) == typed_search_of(
            match text {
                Some(t) => Some(t@),
                None => None,
            },
            ctrl,
            alt,
            logo,
        ),
{
    let t = match text {
        Some(t) => t,
        None => {
            return None;
        },
    };
    if ctrl || alt || logo {
        return None;
    }
    let v = crate::text::chars_of(t);
    let mut i: usize = 0;
    while i < v.len()
        invariant
            i <= v.len(),
            v@ == t@,
            !ctrl && !alt && !logo,
            text == Some(t),
            forall|j: int| 0 <= j < i ==> is_control(#[trigger] v@[j]) || crate::text::is_white_space(v@[j]),
        decreases v.len() - i,
    {
        let c = v[i];
        let code = c as u32;
        let control = code <= 0x1f || (0x7f <= code && code <= 0x9f);
        if !control && !crate::text::is_whitespace(c) {
            proof {
                assert(v@[i as int] == c);
                assert(!is_control(t@[i as int]) && !crate::text::is_white_space(t@[i as int]));
                assert(exists|j: int| 0 <= j < t@.len() && !is_control(t@[j]) && !crate::text::is_white_space(t@[j]));
                assert(typed_search_of(Some(t@), ctrl, alt, logo) == Some(t@));
            }
            return Some(crate::text::string_from(&v));
        }
        i += 1;
    }
    None
}

/// The edit and delete dialogs are never open together, and a page always
/// holds some books, whatever the window is asked to do.
pub proof fn law_library_window_stays_sound(s: LibraryView, e: LibraryEvent)
    requires
        !(s.show_edit_dialog && s.show_delete_dialog),
        s.covers_per_page > 0,
    ensures
        !(library_step(s, e).0.show_edit_dialog && library_step(s, e).0.show_delete_dialog),
        library_step(s, e).0.covers_per_page > 0,
{
}

/// A chosen page of the library is asked for only up to the last page that
/// has books.
pub proof fn law_library_page_in_range(s: LibraryView, page: usize)
    requires
        s.covers_per_page > 0,
    ensures
        library_step(s, LibraryEvent::LibraryPageSelected(page)).1 matches ActionView::LoadBooks(r) ==> r.1
            <= last_page(s.total_books_count, s.covers_per_page),
{
}

/// Closing the search empties it and loads the whole library again.
pub proof fn law_closing_search_clears_it(s: LibraryView)
    ensures
        library_step(s, LibraryEvent::SearchClosed).0.search == Seq::<char>::empty(),
        !library_step(s, LibraryEvent::SearchClosed).0.search_active,
        s.has_database ==> library_step(s, LibraryEvent::SearchClosed).1 == ActionView::LoadBooks(
            (None, 0, s.covers_per_page),
        ),
{
}

} // verus!
