//! The reader window's decisions: which panel is open, where in the book
//! the reader is, and what the window must do after each request. The
//! window performs the actions (dialogs, files, drawing) and reports back.
use vstd::prelude::*;

use crate::navigation::{next_index, prev_index, recent_shortcut_index, shortcut_index, string_views, SpineCursor};
use crate::text::{chars_of, push_str, string_from};

verus! {

#[derive(Debug, Clone, Copy, PartialEq, Eq, Structural)]
pub enum SidebarTab {
    Toc,
    Search,
}

/// A key the reader reacts to.
#[derive(Debug, Clone)]
pub enum ReaderKey {
    Character(String),
    ArrowRight,
    ArrowLeft,
    Other,
}

/// What happened in the reader window.
#[derive(Debug)]
pub enum ReaderEvent {
    /// A book file was picked, or the picker was cancelled.
    FileSelected(Option<String>),
    /// A book was opened: its reading order and the first chapter with
    /// content; or it could not be opened.
    BookOpened(Result<(Vec<String>, usize), String>),
    CloseBook,
    NextChapter,
    PrevChapter,
    ToggleSidebar,
    OpenSearchSidebar,
    SelectSidebarTab(SidebarTab),
    /// A table-of-contents entry was chosen; for each item of the reading
    /// order, whether it is the entry's target.
    TocEntryChosen(Vec<bool>),
    /// A search result in the chapter of this id was chosen.
    SearchResultChosen(String),
    ToggleReadingPanel,
    ToggleMenu,
    /// A picture was clicked: its path and whether the file exists.
    ImageClicked(String, bool),
    CloseImage,
    /// A key was pressed: the key, with the command modifier, as a repeat,
    /// and whether the page is scrolled to its end and to its start.
    KeyPressed(ReaderKey, bool, bool, bool, bool),
}

/// What the window must do next.
#[derive(Debug, Clone, PartialEq, Eq)]
pub enum ReaderAction {
    Nothing,
    PickFile,
    OpenBook(String),
    OpenRecent(usize),
    LoadChapter,
    ClearSearchAndLoadChapter,
    ClearBook,
    PageDown,
    PageUp,
    ShowImage(String),
}

/// The reader window's state.
pub struct ReaderUi {
    pub document: Option<SpineCursor>,
    pub sidebar_open: bool,
    pub sidebar_tab: SidebarTab,
    pub reading_panel_open: bool,
    pub menu_open: bool,
    pub showing_image: bool,
    pub status: Option<String>,
    pub spine_progress: (usize, usize),
}

pub struct ReaderView {
    pub document: Option<(Seq<Seq<char>>, nat)>,
    pub sidebar_open: bool,
    pub sidebar_tab: SidebarTab,
    pub reading_panel_open: bool,
    pub menu_open: bool,
    pub showing_image: bool,
    pub status: Option<Seq<char>>,
    pub spine_progress: (nat, nat),
}

pub open spec fn reader_view(u: &ReaderUi) -> ReaderView {
    ReaderView {
        document: match u.document {
            Some(c) => Some((c.items(), c.position())),
            None => None,
        },
        sidebar_open: u.sidebar_open,
        sidebar_tab: u.sidebar_tab,
        reading_panel_open: u.reading_panel_open,
        menu_open: u.menu_open,
        showing_image: u.showing_image,
        status: match u.status {
            Some(s) => Some(s@),
            None => None,
        },
        spine_progress: (u.spine_progress.0 as nat, u.spine_progress.1 as nat),
    }
}

/// The first position of the reading order whose item is a match.
pub open spec fn first_match(m: Seq<bool>, len: nat, from: int) -> Option<nat>
    decreases len - from,
{
    if from < 0 || from >= len || from >= m.len() {
        None
    } else if m[from] {
        Some(from as nat)
    } else {
        first_match(m, len, from + 1)
    }
}

/// The first position of an id in the reading order.
pub open spec fn first_position(items: Seq<Seq<char>>, id: Seq<char>, from: int) -> Option<nat>
    decreases items.len() - from,
{
    if from < 0 || from >= items.len() {
        None
    } else if items[from] == id {
        Some(from as nat)
    } else {
        first_position(items, id, from + 1)
    }
}

/// The state after a step to the next chapter and what follows it: the
/// chapter is loaded, or at the last chapter the reader is told so.
pub open spec fn after_next(s: ReaderView) -> (ReaderView, ReaderAction) {
    match s.document {
        Some((items, pos)) => if pos + 1 < items.len() {
            (
                ReaderView {
                    document: Some((items, next_index(items.len(), pos))),
                    spine_progress: (pos + 2, items.len()),
                    showing_image: false,
                    ..s
                },
                ReaderAction::LoadChapter,
            )
        } else {
            (ReaderView { status: Some("Fin del libro"@), ..s }, ReaderAction::Nothing)
        },
        None => (ReaderView { showing_image: false, ..s }, ReaderAction::LoadChapter),
    }
}

/// The state after a step to the previous chapter; see `after_next`.
pub open spec fn after_prev(s: ReaderView) -> (ReaderView, ReaderAction) {
    match s.document {
        Some((items, pos)) => if pos > 0 {
            (
                ReaderView {
                    document: Some((items, prev_index(pos))),
                    spine_progress: (pos as nat, items.len()),
                    showing_image: false,
                    ..s
                },
                ReaderAction::LoadChapter,
            )
        } else {
            (ReaderView { status: Some("Inicio del libro"@), ..s }, ReaderAction::Nothing)
        },
        None => (ReaderView { showing_image: false, ..s }, ReaderAction::LoadChapter),
    }
}

/// Whether a typed key is the letter `o` in either case.
pub open spec fn is_open_key(v: Seq<char>) -> bool {
    v == "o"@ || v == "O"@
}

/// How the reader takes an event: the new state and the action.
pub open spec fn reader_step(s: ReaderView, e: ReaderEvent) -> (ReaderView, ReaderAction) {
    match e {
        ReaderEvent::FileSelected(None) => (s, ReaderAction::Nothing),
        ReaderEvent::FileSelected(Some(p)) => (
            ReaderView {
                sidebar_open: false,
                reading_panel_open: false,
                menu_open: false,
                showing_image: false,
                status: Some("Abriendo..."@),
                ..s
            },
            ReaderAction::OpenBook(p),
        ),
        ReaderEvent::BookOpened(Ok((spine, first))) => {
            let items = string_views(spine@);
            let pos: nat = if first < items.len() {
                first as nat
            } else {
                0
            };
            (
                ReaderView {
                    document: Some((items, pos)),
                    spine_progress: (pos + 1, items.len()),
                    status: None,
                    ..s
                },
                ReaderAction::LoadChapter,
            )
        },
        ReaderEvent::BookOpened(Err(e)) => (ReaderView { status: Some(e@), ..s }, ReaderAction::Nothing),
        ReaderEvent::CloseBook => (
            ReaderView {
                document: None,
                spine_progress: (0, 0),
                sidebar_open: false,
                reading_panel_open: false,
                menu_open: false,
                showing_image: false,
                status: None,
                ..s
            },
            ReaderAction::ClearBook,
        ),
        ReaderEvent::NextChapter => after_next(s),
        ReaderEvent::PrevChapter => after_prev(s),
        ReaderEvent::ToggleSidebar => if s.sidebar_open {
            (ReaderView { sidebar_open: false, ..s }, ReaderAction::Nothing)
        } else {
            (ReaderView { sidebar_open: true, reading_panel_open: false, menu_open: false, ..s }, ReaderAction::Nothing)
        },
        ReaderEvent::OpenSearchSidebar => (
            ReaderView {
                sidebar_open: true,
                sidebar_tab: SidebarTab::Search,
                reading_panel_open: false,
                menu_open: false,
                ..s
            },
            ReaderAction::Nothing,
        ),
        ReaderEvent::SelectSidebarTab(t) => (ReaderView { sidebar_tab: t, ..s }, ReaderAction::Nothing),
        ReaderEvent::TocEntryChosen(m) => match s.document {
            Some((items, pos)) => match first_match(m@, items.len(), 0) {
                Some(j) => (
                    ReaderView {
                        document: Some((items, j)),
                        spine_progress: (j + 1, items.len()),
                        sidebar_open: false,
                        showing_image: false,
                        ..s
                    },
                    ReaderAction::LoadChapter,
                ),
                None => (s, ReaderAction::Nothing),
            },
            None => (s, ReaderAction::Nothing),
        },
        ReaderEvent::SearchResultChosen(id) => match s.document {
            Some((items, pos)) => {
                let p = match first_position(items, id@, 0) {
                    Some(j) => j,
                    None => pos,
                };
                (
                    ReaderView {
                        document: Some((items, p)),
                        spine_progress: (p + 1, items.len()),
                        sidebar_open: false,
                        showing_image: false,
                        ..s
                    },
                    ReaderAction::ClearSearchAndLoadChapter,
                )
            },
            None => (s, ReaderAction::Nothing),
        },
        ReaderEvent::ToggleReadingPanel => if s.reading_panel_open {
            (ReaderView { reading_panel_open: false, ..s }, ReaderAction::Nothing)
        } else {
            (ReaderView { reading_panel_open: true, sidebar_open: false, menu_open: false, ..s }, ReaderAction::Nothing)
        },
        ReaderEvent::ToggleMenu => if s.menu_open {
            (ReaderView { menu_open: false, ..s }, ReaderAction::Nothing)
        } else {
            (ReaderView { menu_open: true, reading_panel_open: false, sidebar_open: false, ..s }, ReaderAction::Nothing)
        },
        ReaderEvent::ImageClicked(src, exists) => if exists {
            (ReaderView { showing_image: true, ..s }, ReaderAction::ShowImage(src))
        } else {
            (ReaderView { status: Some("Imagen no encontrada: "@ + src@), ..s }, ReaderAction::Nothing)
        },
        ReaderEvent::CloseImage => (ReaderView { showing_image: false, ..s }, ReaderAction::Nothing),
        ReaderEvent::KeyPressed(key, command, repeat, at_end, at_start) => {
            let shortcut = match key {
                ReaderKey::Character(v) => if command && !repeat {
                    if is_open_key(v@) {
                        Some(ReaderAction::PickFile)
                    } else {
                        match shortcut_index(v@) {
                            Some(i) => Some(ReaderAction::OpenRecent(i)),
                            None => None,
                        }
                    }
                } else {
                    None
                },
                _ => None,
            };
            match shortcut {
                Some(a) => (s, a),
                None => if s.showing_image || s.document is None {
                    (s, ReaderAction::Nothing)
                } else {
                    match key {
                        ReaderKey::ArrowRight => if at_end {
                            after_next(s)
                        } else {
                            (s, ReaderAction::PageDown)
                        },
                        ReaderKey::ArrowLeft => if at_start {
                            after_prev(s)
                        } else {
                            (s, ReaderAction::PageUp)
                        },
                        _ => (s, ReaderAction::Nothing),
                    }
                },
            }
        },
    }
}

fn text(s: &str) -> (r: String)
    ensures
        r@ == s@,
{
    string_from(&chars_of(s))
}

fn is_open_key_exec(v: &str) -> (r: bool)
    ensures
        r == is_open_key(v@),
{
    proof {
        reveal_strlit("o");
        reveal_strlit("O");
    }
    let c = chars_of(v);
    let r = c.len() == 1 && (c[0] == 'o' || c[0] == 'O');
    proof {
        if c@.len() == 1 {
            if c[0] == 'o' {
                assert(v@ =~= "o"@);
            } else if c[0] == 'O' {
                assert(v@ =~= "O"@);
            }
        }
    }
    r
}

impl ReaderUi {
    /// A reader with no book, all panels closed, the contents tab chosen.
    pub fn new() -> (u: ReaderUi)
        ensures
            reader_view(&u) == (ReaderView {
                document: None,
                sidebar_open: false,
                sidebar_tab: SidebarTab::Toc,
                reading_panel_open: false,
                menu_open: false,
                showing_image: false,
                status: None,
                spine_progress: (0, 0),
            }),
    {
        ReaderUi {
            document: None,
            sidebar_open: false,
            sidebar_tab: SidebarTab::Toc,
            reading_panel_open: false,
            menu_open: false,
            showing_image: false,
            status: None,
            spine_progress: (0, 0),
        }
    }

    fn go_next(&mut self) -> (a: ReaderAction)
        ensures
            (reader_view(final(self)), a) == after_next(reader_view(old(self))),
    {
        proof {
            reveal_strlit("Fin del libro");
        }
        match &mut self.document {
            Some(doc) => {
                let len = doc.spine_len();
                if doc.goto_next() {
                    let i = doc.spine_index();
                    self.spine_progress = (i + 1, len);
                    self.showing_image = false;
                    ReaderAction::LoadChapter
                } else {
                    self.status = Some(text("Fin del libro"));
                    ReaderAction::Nothing
                }
            },
            None => {
                self.showing_image = false;
                ReaderAction::LoadChapter
            },
        }
    }

    fn go_prev(&mut self) -> (a: ReaderAction)
        ensures
            (reader_view(final(self)), a) == after_prev(reader_view(old(self))),
    {
        proof {
            reveal_strlit("Inicio del libro");
        }
        match &mut self.document {
            Some(doc) => {
                let len = doc.spine_len();
                if doc.goto_prev() {
                    let i = doc.spine_index();
                    self.spine_progress = (i + 1, len);
                    self.showing_image = false;
                    ReaderAction::LoadChapter
                } else {
                    self.status = Some(text("Inicio del libro"));
                    ReaderAction::Nothing
                }
            },
            None => {
                self.showing_image = false;
                ReaderAction::LoadChapter
            },
        }
    }

    /// Takes an event; see `reader_step`.
    pub fn step(&mut self, event: ReaderEvent) -> (a: ReaderAction)
        ensures
            (reader_view(final(self)), a) == reader_step(reader_view(old(self)), event),
    {
        proof {
            reveal_strlit("Abriendo...");
            reveal_strlit("Imagen no encontrada: ");
        }
        match event {
            ReaderEvent::FileSelected(None) => ReaderAction::Nothing,
            ReaderEvent::FileSelected(Some(p)) => {
                self.sidebar_open = false;
                self.reading_panel_open = false;
                self.menu_open = false;
                self.showing_image = false;
                self.status = Some(text("Abriendo..."));
                ReaderAction::OpenBook(p)
            },
            ReaderEvent::BookOpened(Ok((spine, first))) => {
                let mut doc = SpineCursor::new(spine);
                doc.goto_spine_index(first);
                let i = doc.spine_index();
                let len = doc.spine_len();
                self.spine_progress = (i + 1, len);
                self.document = Some(doc);
                self.status = None;
                ReaderAction::LoadChapter
            },
            ReaderEvent::BookOpened(Err(e)) => {
                self.status = Some(e);
                ReaderAction::Nothing
            },
            ReaderEvent::CloseBook => {
                self.document = None;
                self.spine_progress = (0, 0);
                self.sidebar_open = false;
                self.reading_panel_open = false;
                self.menu_open = false;
                self.showing_image = false;
                self.status = None;
                ReaderAction::ClearBook
            },
            ReaderEvent::NextChapter => self.go_next(),
            ReaderEvent::PrevChapter => self.go_prev(),
            ReaderEvent::ToggleSidebar => {
                self.sidebar_open = !self.sidebar_open;
                if self.sidebar_open {
                    self.reading_panel_open = false;
                    self.menu_open = false;
                }
                ReaderAction::Nothing
            },
            ReaderEvent::OpenSearchSidebar => {
                self.sidebar_open = true;
                self.sidebar_tab = SidebarTab::Search;
                self.reading_panel_open = false;
                self.menu_open = false;
                ReaderAction::Nothing
            },
            ReaderEvent::SelectSidebarTab(t) => {
                self.sidebar_tab = t;
                ReaderAction::Nothing
            },
            ReaderEvent::TocEntryChosen(m) => match &mut self.document {
                Some(doc) => {
                    let len = doc.spine_len();
                    if doc.goto_first_match(m.as_slice()) {
                        proof {
                            lemma_first_match(m@, len as nat, 0, doc.position());
                        }
                        let i = doc.spine_index();
                        self.spine_progress = (i + 1, len);
                        self.sidebar_open = false;
                        self.showing_image = false;
                        ReaderAction::LoadChapter
                    } else {
                        proof {
                            lemma_no_match(m@, len as nat, 0);
                        }
                        ReaderAction::Nothing
                    }
                },
                None => ReaderAction::Nothing,
            },
            ReaderEvent::SearchResultChosen(id) => match &mut self.document {
                Some(doc) => {
                    let len = doc.spine_len();
                    let ghost items = doc.items();
                    let moved = doc.goto_chapter_id(id.as_str());
                    proof {
                        if moved {
                            lemma_first_position(items, id@, 0, doc.position());
                        } else {
                            lemma_no_position(items, id@, 0);
                        }
                    }
                    let i = doc.spine_index();
                    self.spine_progress = (i + 1, len);
                    self.sidebar_open = false;
                    self.showing_image = false;
                    ReaderAction::ClearSearchAndLoadChapter
                },
                None => ReaderAction::Nothing,
            },
            ReaderEvent::ToggleReadingPanel => {
                self.reading_panel_open = !self.reading_panel_open;
                if self.reading_panel_open {
                    self.sidebar_open = false;
                    self.menu_open = false;
                }
                ReaderAction::Nothing
            },
            ReaderEvent::ToggleMenu => {
                self.menu_open = !self.menu_open;
                if self.menu_open {
                    self.reading_panel_open = false;
                    self.sidebar_open = false;
                }
                ReaderAction::Nothing
            },
            ReaderEvent::ImageClicked(src, exists) => {
                if exists {
                    self.showing_image = true;
                    ReaderAction::ShowImage(src)
                } else {
                    let mut m = text("Imagen no encontrada: ");
                    push_str(&mut m, src.as_str());
                    self.status = Some(m);
                    ReaderAction::Nothing
                }
            },
            ReaderEvent::CloseImage => {
                self.showing_image = false;
                ReaderAction::Nothing
            },
            ReaderEvent::KeyPressed(key, command, repeat, at_end, at_start) => {
                if let ReaderKey::Character(v) = &key {
                    if command && !repeat {
                        if is_open_key_exec(v.as_str()) {
                            return ReaderAction::PickFile;
                        }
                        if let Some(i) = recent_shortcut_index(v.as_str()) {
                            return ReaderAction::OpenRecent(i);
                        }
                    }
                }
                if self.showing_image || self.document.is_none() {
                    return ReaderAction::Nothing;
                }
                match key {
                    ReaderKey::ArrowRight => if at_end {
                        self.go_next()
                    } else {
                        ReaderAction::PageDown
                    },
                    ReaderKey::ArrowLeft => if at_start {
                        self.go_prev()
                    } else {
                        ReaderAction::PageUp
                    },
                    _ => ReaderAction::Nothing,
                }
            },
        }
    }
}

proof fn lemma_first_match(m: Seq<bool>, len: nat, from: int, p: nat)
    requires
        0 <= from <= p,
        p < len,
        p < m.len(),
        m[p as int],
        forall|j: int| 0 <= j < p ==> !m[j],
    ensures
        first_match(m, len, from) == Some(p),
    decreases p - from,
{
    if from < p {
        lemma_first_match(m, len, from + 1, p);
    }
}

proof fn lemma_no_match(m: Seq<bool>, len: nat, from: int)
    requires
        0 <= from,
        !(exists|j: int| 0 <= j < m.len() && j < len && m[j]),
    ensures
        first_match(m, len, from) is None,
    decreases len - from,
{
    if from < len && from < m.len() {
        assert(!m[from]);
        lemma_no_match(m, len, from + 1);
    }
}

proof fn lemma_first_position(items: Seq<Seq<char>>, id: Seq<char>, from: int, p: nat)
    requires
        0 <= from <= p,
        p < items.len(),
        items[p as int] == id,
        forall|j: int| 0 <= j < p ==> items[j] != id,
    ensures
        first_position(items, id, from) == Some(p),
    decreases p - from,
{
    if from < p {
        lemma_first_position(items, id, from + 1, p);
    }
}

proof fn lemma_no_position(items: Seq<Seq<char>>, id: Seq<char>, from: int)
    requires
        0 <= from,
        !items.contains(id),
    ensures
        first_position(items, id, from) is None,
    decreases items.len() - from,
{
    if from < items.len() {
        assert(items[from] != id);
        lemma_no_position(items, id, from + 1);
    }
}

/// At most one of the sidebar, the reading panel and the menu is open,
/// whatever the reader is asked to do.
pub proof fn law_one_panel_at_a_time(s: ReaderView, e: ReaderEvent)
    requires
        (s.sidebar_open as int) + (s.reading_panel_open as int) + (s.menu_open as int) <= 1,
    ensures
        (reader_step(s, e).0.sidebar_open as int) + (reader_step(s, e).0.reading_panel_open as int) + (reader_step(
            s,
            e,
        ).0.menu_open as int) <= 1,
{
}

// ---------------------------------------------------------------------------
// Lighting profiles
// ---------------------------------------------------------------------------

/// A named pair of text and background colours for the reading page.
#[derive(Debug, Clone)]
pub struct IlluminationProfile {
    pub name: String,
    pub text_color: String,
    pub bg_color: String,
}

impl IlluminationProfile {
    pub open spec fn view_profile(&self) -> (Seq<char>, Seq<char>, Seq<char>) {
        (self.name@, self.text_color@, self.bg_color@)
    }

    /// The night profile: light grey text on near-black.
    pub fn night() -> (p: Self)
        ensures
            p.view_profile() == ("Noche"@, "#d8d8d8"@, "#1a1a1a"@),
    {
        IlluminationProfile { name: text_of("Noche"), text_color: text_of("#d8d8d8"), bg_color: text_of("#1a1a1a") }
    }

    /// The sepia profile: brown text on cream.
    pub fn sepia() -> (p: Self)
        ensures
            p.view_profile() == ("Sepia"@, "#5b4636"@, "#f4ecd8"@),
    {
        IlluminationProfile { name: text_of("Sepia"), text_color: text_of("#5b4636"), bg_color: text_of("#f4ecd8") }
    }
}

/// The day profile, the one used unless another is chosen: near-black text
/// on off-white.
impl Default for IlluminationProfile {
    fn default() -> (p: Self)
        ensures
            p.view_profile() == ("Día"@, "#1a1a1a"@, "#faf8f5"@),
    {
        IlluminationProfile { name: text_of("Día"), text_color: text_of("#1a1a1a"), bg_color: text_of("#faf8f5") }
    }
}

fn text_of(s: &str) -> (r: String)
    ensures
        r@ == s@,
{
    string_from(&chars_of(s))
}

// ---------------------------------------------------------------------------
// Keys of the reading view
// ---------------------------------------------------------------------------

/// What a key pressed in the reading view asks for.
#[derive(Debug, Clone, Copy, PartialEq, Eq, Structural)]
pub enum BookKey {
    PreviousChapter,
    /// Scroll back a page (the previous chapter once at the top).
    PreviousPage,
    NextChapter,
    /// Scroll on a page (the next chapter once at the bottom).
    NextPage,
    OpenFile,
    Search,
    ToggleSpeech,
    ToggleContents,
    FasterSpeech,
    SlowerSpeech,
    ToggleFocus,
    Annotate,
}

/// The request of a key, by its name and the modifiers held: Left or Page Up
/// go back and Right, Page Down or space go on (a chapter with Ctrl or Alt,
/// a page otherwise); Ctrl+o opens a book, Ctrl+f searches, F5 reads aloud,
/// F9 shows the contents, `+`/`=` and `-` change the reading speed, F11
/// toggles focus mode and Ctrl+Shift+a annotates. Other keys ask nothing.
pub open spec fn book_key_of(name: Seq<char>, ctrl: bool, alt: bool, shift: bool) -> Option<BookKey> {
    if name == "Left"@ || name == "Page_Up"@ {
        Some(if ctrl || alt { BookKey::PreviousChapter } else { BookKey::PreviousPage })
    } else if name == "Right"@ || name == "Page_Down"@ || name == "space"@ {
        Some(if ctrl || alt { BookKey::NextChapter } else { BookKey::NextPage })
    } else if name == "o"@ && ctrl {
        Some(BookKey::OpenFile)
    } else if name == "f"@ && ctrl {
        Some(BookKey::Search)
    } else if name == "F5"@ {
        Some(BookKey::ToggleSpeech)
    } else if name == "F9"@ {
        Some(BookKey::ToggleContents)
    } else if name == "plus"@ || name == "equal"@ || name == "KP_Add"@ {
        Some(BookKey::FasterSpeech)
    } else if name == "minus"@ || name == "KP_Subtract"@ {
        Some(BookKey::SlowerSpeech)
    } else if name == "F11"@ {
        Some(BookKey::ToggleFocus)
    } else if name == "a"@ && ctrl && shift {
        Some(BookKey::Annotate)
    } else {
        None
    }
}

/// The request of a key in the reading view; see `book_key_of`.
pub fn book_key(name: &str, ctrl: bool, alt: bool, shift: bool) -> (r: Option<BookKey>)
    ensures
        r == book_key_of(name@, ctrl, alt, shift),
{
    if crate::text::str_eq(name, "Left") || crate::text::str_eq(name, "Page_Up") {
        Some(if ctrl || alt { BookKey::PreviousChapter } else { BookKey::PreviousPage })
    } else if crate::text::str_eq(name, "Right") || crate::text::str_eq(name, "Page_Down") || crate::text::str_eq(name, "space") {
        Some(if ctrl || alt { BookKey::NextChapter } else { BookKey::NextPage })
    } else if crate::text::str_eq(name, "o") && ctrl {
        Some(BookKey::OpenFile)
    } else if crate::text::str_eq(name, "f") && ctrl {
        Some(BookKey::Search)
    } else if crate::text::str_eq(name, "F5") {
        Some(BookKey::ToggleSpeech)
    } else if crate::text::str_eq(name, "F9") {
        Some(BookKey::ToggleContents)
    } else if crate::text::str_eq(name, "plus") || crate::text::str_eq(name, "equal") || crate::text::str_eq(name, "KP_Add") {
        Some(BookKey::FasterSpeech)
    } else if crate::text::str_eq(name, "minus") || crate::text::str_eq(name, "KP_Subtract") {
        Some(BookKey::SlowerSpeech)
    } else if crate::text::str_eq(name, "F11") {
        Some(BookKey::ToggleFocus)
    } else if crate::text::str_eq(name, "a") && ctrl && shift {
        Some(BookKey::Annotate)
    } else {
        None
    }
}

} // verus!
