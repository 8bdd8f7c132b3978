//! The book editor's window as a state machine: its open tabs and which is
//! active, what is unsaved, the sidebar and its drag-to-reorder, the rename,
//! search and export dialogs, and the status line. Each event gives the new
//! state and the one thing the window must do next (load or save a file,
//! move a document in the reading order, search, ask for a path); the
//! window does it and reports back with another event.
use vstd::prelude::*;

use crate::editor_ui::{active_after_close, ExportFormat};
use crate::library_ui::opt_text;
use crate::navigation::string_views;
use crate::project::{spine_position, text_media_types, ManifestItem, ResourceGroup, ResourceKind};
use crate::text::{chars_of, push_str, str_eq, string_from};

verus! {

/// A resource open for editing: its identifier, media type, and whether it
/// has changes not yet saved.
#[derive(Debug, Clone)]
pub struct EditorTab {
    pub resource_id: String,
    pub media_type: String,
    pub dirty: bool,
}

#[derive(Debug, Clone, Copy, PartialEq, Eq, Structural)]
pub enum EditorSidebarTab {
    Resources,
    Search,
}

/// The rename dialog: the resource, its path, and the path typed so far.
#[derive(Debug, Clone)]
pub struct RenameDialog {
    pub item_id: String,
    pub current_href: String,
    pub new_href: String,
}

#[derive(Debug)]
pub struct EditorUi {
    pub has_project: bool,
    pub tabs: Vec<EditorTab>,
    pub active: Option<String>,
    pub sidebar_open: bool,
    pub sidebar_tab: EditorSidebarTab,
    pub drag: Option<String>,
    pub drop: Option<String>,
    pub rename: Option<RenameDialog>,
    pub search_query: String,
    pub search_results: Vec<(String, String)>,
    pub export_dialog: Option<ExportFormat>,
    pub status: Option<String>,
}

/// What happened in the editor's window.
#[derive(Debug)]
pub enum EditorEvent {
    SelectResource(String),
    /// The manifest gives this media type for the resource asked for.
    ResourceFound(String, String),
    /// The resource's text was read for a new tab (which is shown, unless a
    /// tab for it is open already), or could not be.
    ResourceLoaded(String, String, Result<(), String>),
    CloseTab(String),
    /// The active tab's text was edited.
    Edited,
    SaveCurrent,
    SaveTab(String),
    /// One unsaved tab was written to disk while saving.
    TabSaved(String),
    Saved(Result<String, String>),
    ToggleSidebar,
    SelectSidebarTab(EditorSidebarTab),
    DragStart(String),
    DragOver(String),
    DragLeave(String),
    Drop,
    Reordered(Result<(), String>),
    /// Renaming was asked for a resource, with its path when the manifest has it.
    StartRename(String, Option<String>),
    RenameChanged(String),
    ConfirmRename,
    CancelRename,
    Renamed(Result<(), String>),
    SearchChanged(String),
    ExecuteSearch,
    SearchResults(Result<Vec<(String, String)>, String>),
    SelectSearchResult(usize),
    OpenExport,
    SelectExportFormat(ExportFormat),
    CancelExport,
    ConfirmExport,
    CloseProject,
    StatusCleared,
}

/// What the window must do next.
#[derive(Debug, Clone, PartialEq, Eq)]
pub enum EditorAction {
    Nothing,
    /// Look up the resource's media type in the manifest.
    FindResource(String),
    /// Read the resource's text into a new tab.
    LoadText(String, String),
    /// Write the text of the tab being closed.
    SaveText(String),
    /// Write every unsaved tab and the project.
    SaveAll(String),
    /// Clear the status after a while; reload the style sheets first when asked.
    ClearStatusLater(bool),
    /// Move the dragged document before or after the one it was dropped on.
    Move(String, String),
    Rename(String, String),
    /// Rebuild the resource list and reload the style sheets.
    RefreshResources,
    Search(String),
    PickExportPath(ExportFormat),
    /// Write the unsaved tabs, close the project, and clear the status later.
    CloseProject,
}

pub type TabView = (Seq<char>, Seq<char>, bool);

pub struct EditorView {
    pub has_project: bool,
    pub tabs: Seq<TabView>,
    pub active: Option<Seq<char>>,
    pub sidebar_open: bool,
    pub sidebar_tab: EditorSidebarTab,
    pub drag: Option<Seq<char>>,
    pub drop: Option<Seq<char>>,
    pub rename: Option<(Seq<char>, Seq<char>, Seq<char>)>,
    pub search_query: Seq<char>,
    pub search_results: Seq<(Seq<char>, Seq<char>)>,
    pub export_dialog: Option<ExportFormat>,
    pub status: Option<Seq<char>>,
}

pub enum ActionView {
    Nothing,
    FindResource(Seq<char>),
    LoadText(Seq<char>, Seq<char>),
    SaveText(Seq<char>),
    SaveAll(Seq<char>),
    ClearStatusLater(bool),
    Move(Seq<char>, Seq<char>),
    Rename(Seq<char>, Seq<char>),
    RefreshResources,
    Search(Seq<char>),
    PickExportPath(ExportFormat),
    CloseProject,
}

pub open spec fn tab_view(t: EditorTab) -> TabView {
    (t.resource_id@, t.media_type@, t.dirty)
}

pub open spec fn tab_views(ts: Seq<EditorTab>) -> Seq<TabView> {
    ts.map_values(|t: EditorTab| tab_view(t))
}

pub open spec fn tab_ids(ts: Seq<TabView>) -> Seq<Seq<char>> {
    ts.map_values(|t: TabView| t.0)
}

pub open spec fn result_views(rs: Seq<(String, String)>) -> Seq<(Seq<char>, Seq<char>)> {
    rs.map_values(|r: (String, String)| (r.0@, r.1@))
}

pub open spec fn editor_view(u: &EditorUi) -> EditorView {
    EditorView {
        has_project: u.has_project,
        tabs: tab_views(u.tabs@),
        active: opt_text(u.active),
        sidebar_open: u.sidebar_open,
        sidebar_tab: u.sidebar_tab,
        drag: opt_text(u.drag),
        drop: opt_text(u.drop),
        rename: match u.rename {
            Some(d) => Some((d.item_id@, d.current_href@, d.new_href@)),
            None => None,
        },
        search_query: u.search_query@,
        search_results: result_views(u.search_results@),
        export_dialog: u.export_dialog,
        status: opt_text(u.status),
    }
}

pub open spec fn action_view(a: EditorAction) -> ActionView {
    match a {
        EditorAction::Nothing => ActionView::Nothing,
        EditorAction::FindResource(id) => ActionView::FindResource(id@),
        EditorAction::LoadText(id, m) => ActionView::LoadText(id@, m@),
        EditorAction::SaveText(id) => ActionView::SaveText(id@),
        EditorAction::SaveAll(id) => ActionView::SaveAll(id@),
        EditorAction::ClearStatusLater(r) => ActionView::ClearStatusLater(r),
        EditorAction::Move(a, b) => ActionView::Move(a@, b@),
        EditorAction::Rename(id, h) => ActionView::Rename(id@, h@),
        EditorAction::RefreshResources => ActionView::RefreshResources,
        EditorAction::Search(q) => ActionView::Search(q@),
        EditorAction::PickExportPath(f) => ActionView::PickExportPath(f),
        EditorAction::CloseProject => ActionView::CloseProject,
    }
}

/// The tabs with the one at `i` marked saved or unsaved.
pub open spec fn with_dirty(tabs: Seq<TabView>, i: Option<int>, dirty: bool) -> Seq<TabView> {
    match i {
        Some(k) => tabs.update(k, (tabs[k].0, tabs[k].1, dirty)),
        None => tabs,
    }
}

pub open spec fn select_resource(s: EditorView, id: Seq<char>) -> (EditorView, ActionView) {
    if spine_position(tab_ids(s.tabs), id) is Some {
        (EditorView { active: Some(id), ..s }, ActionView::Nothing)
    } else if s.has_project {
        (s, ActionView::FindResource(id))
    } else {
        (s, ActionView::Nothing)
    }
}

/// How the editor's window takes an event: the new state and the action.
pub open spec fn editor_step(s: EditorView, e: EditorEvent) -> (EditorView, ActionView) {
    match e {
        EditorEvent::SelectResource(id) => select_resource(s, id@),
        EditorEvent::ResourceFound(id, m) => if text_media_types().contains(m@) {
            (s, ActionView::LoadText(id@, m@))
        } else {
            (s, ActionView::Nothing)
        },
        EditorEvent::ResourceLoaded(id, m, Ok(())) => if spine_position(tab_ids(s.tabs), id@) is Some {
            (EditorView { active: Some(id@), ..s }, ActionView::Nothing)
        } else {
            (EditorView { tabs: s.tabs.push((id@, m@, false)), active: Some(id@), ..s }, ActionView::Nothing)
        },
        EditorEvent::ResourceLoaded(_, _, Err(err)) => (
            EditorView { status: Some("Error cargando recurso: "@ + err@), ..s },
            ActionView::Nothing,
        ),
        EditorEvent::CloseTab(id) => match spine_position(tab_ids(s.tabs), id@) {
            Some(i) => (
                EditorView {
                    tabs: s.tabs.remove(i),
                    active: active_after_close(tab_ids(s.tabs), s.active, id@),
                    ..s
                },
                if s.tabs[i].2 && s.has_project {
                    ActionView::SaveText(id@)
                } else {
                    ActionView::Nothing
                },
            ),
            None => (s, ActionView::Nothing),
        },
        EditorEvent::Edited => match s.active {
            Some(a) => (
                EditorView { tabs: with_dirty(s.tabs, spine_position(tab_ids(s.tabs), a), true), ..s },
                ActionView::Nothing,
            ),
            None => (s, ActionView::Nothing),
        },
        EditorEvent::SaveCurrent => (s, ActionView::SaveAll(
            match s.active {
                Some(a) => a,
                None => Seq::empty(),
            },
        )),
        EditorEvent::SaveTab(id) => (s, ActionView::SaveAll(id@)),
        EditorEvent::TabSaved(id) => (
            EditorView { tabs: with_dirty(s.tabs, spine_position(tab_ids(s.tabs), id@), false), ..s },
            ActionView::Nothing,
        ),
        EditorEvent::Saved(Ok(id)) => {
            let i = spine_position(tab_ids(s.tabs), id@);
            (
                EditorView { tabs: with_dirty(s.tabs, i, false), status: Some("Guardado"@), ..s },
                ActionView::ClearStatusLater(
                    match i {
                        Some(k) => s.tabs[k].1 == "text/css"@,
                        None => false,
                    },
                ),
            )
        },
        EditorEvent::Saved(Err(err)) => (
            EditorView { status: Some("Error guardando: "@ + err@), ..s },
            ActionView::Nothing,
        ),
        EditorEvent::ToggleSidebar => (EditorView { sidebar_open: !s.sidebar_open, ..s }, ActionView::Nothing),
        EditorEvent::SelectSidebarTab(t) => (EditorView { sidebar_tab: t, ..s }, ActionView::Nothing),
        EditorEvent::DragStart(id) => (EditorView { drag: Some(id@), drop: None, ..s }, ActionView::Nothing),
        EditorEvent::DragOver(id) => if s.drag is Some {
            (EditorView { drop: Some(id@), ..s }, ActionView::Nothing)
        } else {
            (s, ActionView::Nothing)
        },
        EditorEvent::DragLeave(_) => (s, ActionView::Nothing),
        EditorEvent::Drop => (
            EditorView { drag: None, drop: None, ..s },
            match (s.drag, s.drop) {
                (Some(d), Some(p)) => if s.has_project && d != p {
                    ActionView::Move(d, p)
                } else {
                    ActionView::Nothing
                },
                _ => ActionView::Nothing,
            },
        ),
        EditorEvent::Reordered(Ok(())) => (EditorView { status: Some("Orden actualizado"@), ..s }, ActionView::RefreshResources),
        EditorEvent::Reordered(Err(err)) => (
            EditorView { status: Some("Error reordenando: "@ + err@), ..s },
            ActionView::RefreshResources,
        ),
        EditorEvent::StartRename(id, href) => match href {
            Some(h) => if s.has_project {
                (EditorView { rename: Some((id@, h@, h@)), ..s }, ActionView::Nothing)
            } else {
                (s, ActionView::Nothing)
            },
            None => (s, ActionView::Nothing),
        },
        EditorEvent::RenameChanged(v) => match s.rename {
            Some(d) => (EditorView { rename: Some((d.0, d.1, v@)), ..s }, ActionView::Nothing),
            None => (s, ActionView::Nothing),
        },
        EditorEvent::ConfirmRename => (
            EditorView { rename: None, ..s },
            match s.rename {
                Some(d) => if s.has_project && d.2 != d.1 {
                    ActionView::Rename(d.0, d.2)
                } else {
                    ActionView::Nothing
                },
                None => ActionView::Nothing,
            },
        ),
        EditorEvent::CancelRename => (EditorView { rename: None, ..s }, ActionView::Nothing),
        EditorEvent::Renamed(Ok(())) => (EditorView { status: Some("Recurso renombrado"@), ..s }, ActionView::RefreshResources),
        EditorEvent::Renamed(Err(err)) => (
            EditorView { status: Some("Error renombrando: "@ + err@), ..s },
            ActionView::Nothing,
        ),
        EditorEvent::SearchChanged(q) => (EditorView { search_query: q@, ..s }, ActionView::Nothing),
        EditorEvent::ExecuteSearch => {
            let q = crate::text::trim(s.search_query);
            if q.len() == 0 {
                (EditorView { search_results: Seq::empty(), ..s }, ActionView::Nothing)
            } else if s.has_project {
                (s, ActionView::Search(q))
            } else {
                (s, ActionView::Nothing)
            }
        },
        EditorEvent::SearchResults(Ok(rs)) => (EditorView { search_results: result_views(rs@), ..s }, ActionView::Nothing),
        EditorEvent::SearchResults(Err(err)) => (
            EditorView { status: Some("Error en búsqueda: "@ + err@), ..s },
            ActionView::Nothing,
        ),
        EditorEvent::SelectSearchResult(i) => if i < s.search_results.len() {
            select_resource(EditorView { sidebar_tab: EditorSidebarTab::Resources, ..s }, s.search_results[i as int].0)
        } else {
            (s, ActionView::Nothing)
        },
        EditorEvent::OpenExport => (EditorView { export_dialog: Some(ExportFormat::Epub), ..s }, ActionView::Nothing),
        EditorEvent::SelectExportFormat(f) => (EditorView { export_dialog: Some(f), ..s }, ActionView::Nothing),
        EditorEvent::CancelExport => (EditorView { export_dialog: None, ..s }, ActionView::Nothing),
        EditorEvent::ConfirmExport => match s.export_dialog {
            Some(f) => (EditorView { export_dialog: None, ..s }, ActionView::PickExportPath(f)),
            None => (s, ActionView::Nothing),
        },
        EditorEvent::CloseProject => (
            EditorView {
                has_project: false,
                tabs: Seq::empty(),
                active: None,
                drag: None,
                drop: None,
                rename: None,
                search_query: Seq::empty(),
                search_results: Seq::empty(),
                sidebar_tab: EditorSidebarTab::Resources,
                export_dialog: None,
                status: Some("Proyecto cerrado"@),
                ..s
            },
            ActionView::CloseProject,
        ),
        EditorEvent::StatusCleared => (EditorView { status: None, ..s }, ActionView::Nothing),
    }
}

proof fn lemma_position(s: Seq<Seq<char>>, id: Seq<char>)
    ensures
        spine_position(s, id) matches Some(i) ==> 0 <= i < s.len() && s[i] == id,
    decreases s.len(),
{
    if s.len() > 0 && s[0] != id {
        lemma_position(s.drop_first(), id);
    }
}

fn text(s: &str) -> (r: String)
    ensures
        r@ == s@,
{
    string_from(&chars_of(s))
}

fn copy_text(s: &String) -> (r: String)
    ensures
        r@ == s@,
{
    string_from(&chars_of(s.as_str()))
}

fn joined(a: &str, b: &str) -> (r: String)
    ensures
        r@ == a@ + b@,
{
    let mut r = text(a);
    push_str(&mut r, b);
    r
}

pub open spec fn opt_int(i: Option<usize>) -> Option<int> {
    match i {
        Some(k) => Some(k as int),
        None => None,
    }
}

impl EditorUi {
    /// An editor with no tab open, the sidebar open on the resources, and no
    /// dialog or status; `has_project` tells whether a project is open.
    pub fn new(has_project: bool) -> (u: EditorUi)
        ensures
            editor_view(&u) == (EditorView {
                has_project,
                tabs: Seq::empty(),
                active: None,
                sidebar_open: true,
                sidebar_tab: EditorSidebarTab::Resources,
                drag: None,
                drop: None,
                rename: None,
                search_query: Seq::empty(),
                search_results: Seq::empty(),
                export_dialog: None,
                status: None,
            }),
    {
        let u = EditorUi {
            has_project,
            tabs: Vec::new(),
            active: None,
            sidebar_open: true,
            sidebar_tab: EditorSidebarTab::Resources,
            drag: None,
            drop: None,
            rename: None,
            search_query: String::new(),
            search_results: Vec::new(),
            export_dialog: None,
            status: None,
        };
        assert(tab_views(u.tabs@) =~= Seq::<TabView>::empty());
        assert(result_views(u.search_results@) =~= Seq::<(Seq<char>, Seq<char>)>::empty());
        u
    }

    fn tab_id_list(&self) -> (r: Vec<String>)
        ensures
            string_views(r@) == tab_ids(tab_views(self.tabs@)),
    {
        let mut r: Vec<String> = Vec::new();
        let mut i: usize = 0;
        while i < self.tabs.len()
            invariant
                i <= self.tabs.len(),
                string_views(r@) == tab_ids(tab_views(self.tabs@)).take(i as int),
            decreases self.tabs.len() - i,
        {
            let ghost before = r@;
            r.push(copy_text(&self.tabs[i].resource_id));
            assert(string_views(r@) =~= string_views(before).push(self.tabs@[i as int].resource_id@));
            assert(tab_ids(tab_views(self.tabs@)).take(i + 1) =~= tab_ids(tab_views(self.tabs@)).take(i as int).push(
                self.tabs@[i as int].resource_id@,
            ));
            i += 1;
        }
        assert(tab_ids(tab_views(self.tabs@)).take(self.tabs.len() as int) =~= tab_ids(tab_views(self.tabs@)));
        r
    }

    fn tab_index(&self, id: &str) -> (r: Option<usize>)
        ensures
            opt_int(r) == spine_position(tab_ids(tab_views(self.tabs@)), id@),
            r matches Some(i) ==> i < self.tabs.len(),
    {
        let ghost v = tab_ids(tab_views(self.tabs@));
        let mut i: usize = 0;
        assert(v.skip(0) =~= v);
        while i < self.tabs.len()
            invariant
                i <= self.tabs.len(),
                v == tab_ids(tab_views(self.tabs@)),
                v.len() == self.tabs.len(),
                spine_position(v, id@) == match spine_position(v.skip(i as int), id@) {
                    Some(k) => Some(k + i),
                    None => None::<int>,
                },
            decreases self.tabs.len() - i,
        {
            assert(v.skip(i as int)[0] == v[i as int]);
            assert(v[i as int] == self.tabs@[i as int].resource_id@);
            assert(v.skip(i as int).drop_first() =~= v.skip(i + 1));
            if str_eq(self.tabs[i].resource_id.as_str(), id) {
                return Some(i);
            }
            i += 1;
        }
        assert(v.skip(i as int) =~= Seq::<Seq<char>>::empty());
        None
    }

    fn set_dirty(&mut self, i: Option<usize>, dirty: bool)
        requires
            i matches Some(k) ==> k < old(self).tabs.len(),
        ensures
            editor_view(final(self)) == (EditorView {
                tabs: with_dirty(editor_view(old(self)).tabs, opt_int(i), dirty),
                ..editor_view(old(self))
            }),
    {
        if let Some(k) = i {
            let ghost before = tab_views(self.tabs@);
            let t = EditorTab {
                resource_id: copy_text(&self.tabs[k].resource_id),
                media_type: copy_text(&self.tabs[k].media_type),
                dirty,
            };
            self.tabs.set(k, t);
            assert(tab_views(self.tabs@) =~= before.update(k as int, (before[k as int].0, before[k as int].1, dirty)));
        }
    }

    fn select_resource_exec(&mut self, id: String) -> (a: EditorAction)
        ensures
            (editor_view(final(self)), action_view(a)) == select_resource(editor_view(old(self)), id@),
    {
        if self.tab_index(id.as_str()).is_some() {
            self.active = Some(id);
            EditorAction::Nothing
        } else if self.has_project {
            EditorAction::FindResource(id)
        } else {
            EditorAction::Nothing
        }
    }
}

impl EditorUi {
    #[verifier::rlimit(60)]
    fn step_tabs(&mut self, event: EditorEvent) -> (a: EditorAction)
        requires
            event is SelectResource || event is ResourceFound || event is ResourceLoaded || event is CloseTab
                || event is Edited || event is SaveCurrent || event is SaveTab || event is TabSaved || event is Saved,
        ensures
            (editor_view(final(self)), action_view(a)) == editor_step(editor_view(old(self)), event),
    {
        proof {
            reveal_strlit("Error cargando recurso: ");
            reveal_strlit("Guardado");
            reveal_strlit("text/css");
            reveal_strlit("Error guardando: ");
        }
        match event {
            EditorEvent::SelectResource(id) => self.select_resource_exec(id),
            EditorEvent::ResourceFound(id, m) => {
                if crate::project::is_text_editable(m.as_str()) {
                    EditorAction::LoadText(id, m)
                } else {
                    EditorAction::Nothing
                }
            },
            EditorEvent::ResourceLoaded(id, m, Ok(())) => {
                if self.tab_index(id.as_str()).is_some() {
                    self.active = Some(id);
                    return EditorAction::Nothing;
                }
                let ghost before = tab_views(self.tabs@);
                let active = copy_text(&id);
                self.tabs.push(EditorTab { resource_id: id, media_type: m, dirty: false });
                assert(tab_views(self.tabs@) =~= before.push(tab_view(self.tabs@.last())));
                self.active = Some(active);
                EditorAction::Nothing
            },
            EditorEvent::ResourceLoaded(_, _, Err(err)) => {
                self.status = Some(joined("Error cargando recurso: ", err.as_str()));
                EditorAction::Nothing
            },
            EditorEvent::CloseTab(id) => {
                let ids = self.tab_id_list();
                let active = match &self.active {
                    Some(a) => Some(a.as_str()),
                    None => None,
                };
                match crate::editor_ui::close_tab(&ids, active, id.as_str()) {
                    Some((i, next)) => {
                        proof {
                            lemma_position(tab_ids(tab_views(self.tabs@)), id@);
                        }
                        let dirty = self.tabs[i].dirty;
                        let ghost before = tab_views(self.tabs@);
                        self.tabs.remove(i);
                        assert(tab_views(self.tabs@) =~= before.remove(i as int));
                        self.active = next;
                        if dirty && self.has_project {
                            EditorAction::SaveText(id)
                        } else {
                            EditorAction::Nothing
                        }
                    },
                    None => EditorAction::Nothing,
                }
            },
            EditorEvent::Edited => {
                match &self.active {
                    Some(a) => {
                        let i = self.tab_index(a.as_str());
                        self.set_dirty(i, true);
                    },
                    None => {},
                }
                EditorAction::Nothing
            },
            EditorEvent::SaveCurrent => {
                let id = match &self.active {
                    Some(a) => copy_text(a),
                    None => String::new(),
                };
                EditorAction::SaveAll(id)
            },
            EditorEvent::SaveTab(id) => EditorAction::SaveAll(id),
            EditorEvent::TabSaved(id) => {
                let i = self.tab_index(id.as_str());
                self.set_dirty(i, false);
                EditorAction::Nothing
            },
            EditorEvent::Saved(Ok(id)) => {
                let i = self.tab_index(id.as_str());
                let css = match i {
                    Some(k) => str_eq(self.tabs[k].media_type.as_str(), "text/css"),
                    None => false,
                };
                self.set_dirty(i, false);
                self.status = Some(text("Guardado"));
                EditorAction::ClearStatusLater(css)
            },
            EditorEvent::Saved(Err(err)) => {
                self.status = Some(joined("Error guardando: ", err.as_str()));
                EditorAction::Nothing
            },
            _ => EditorAction::Nothing,
        }
    }
}

impl EditorUi {
    #[verifier::rlimit(60)]
    fn step_sidebar(&mut self, event: EditorEvent) -> (a: EditorAction)
        requires
            event is ToggleSidebar || event is SelectSidebarTab || event is DragStart || event is DragOver
                || event is DragLeave || event is Drop || event is Reordered,
        ensures
            (editor_view(final(self)), action_view(a)) == editor_step(editor_view(old(self)), event),
    {
        proof {
            reveal_strlit("Orden actualizado");
            reveal_strlit("Error reordenando: ");
        }
        match event {
            EditorEvent::ToggleSidebar => {
                self.sidebar_open = !self.sidebar_open;
                EditorAction::Nothing
            },
            EditorEvent::SelectSidebarTab(t) => {
                self.sidebar_tab = t;
                EditorAction::Nothing
            },
            EditorEvent::DragStart(id) => {
                self.drag = Some(id);
                self.drop = None;
                EditorAction::Nothing
            },
            EditorEvent::DragOver(id) => {
                if self.drag.is_some() {
                    self.drop = Some(id);
                }
                EditorAction::Nothing
            },
            EditorEvent::DragLeave(_) => EditorAction::Nothing,
            EditorEvent::Drop => {
                let drag = self.drag.take();
                let drop = self.drop.take();
                match (drag, drop) {
                    (Some(d), Some(p)) => {
                        if self.has_project && !str_eq(d.as_str(), p.as_str()) {
                            EditorAction::Move(d, p)
                        } else {
                            EditorAction::Nothing
                        }
                    },
                    _ => EditorAction::Nothing,
                }
            },
            EditorEvent::Reordered(Ok(())) => {
                self.status = Some(text("Orden actualizado"));
                EditorAction::RefreshResources
            },
            EditorEvent::Reordered(Err(err)) => {
                self.status = Some(joined("Error reordenando: ", err.as_str()));
                EditorAction::RefreshResources
            },
            _ => EditorAction::Nothing,
        }
    }

    #[verifier::rlimit(60)]
    fn step_dialogs(&mut self, event: EditorEvent) -> (a: EditorAction)
        requires
            event is StartRename || event is RenameChanged || event is ConfirmRename || event is CancelRename
                || event is Renamed || event is SearchChanged || event is ExecuteSearch || event is SearchResults
                || event is SelectSearchResult || event is OpenExport || event is SelectExportFormat
                || event is CancelExport || event is ConfirmExport || event is CloseProject || event is StatusCleared,
        ensures
            (editor_view(final(self)), action_view(a)) == editor_step(editor_view(old(self)), event),
    {
        proof {
            reveal_strlit("Recurso renombrado");
            reveal_strlit("Error renombrando: ");
            reveal_strlit("Error en búsqueda: ");
            reveal_strlit("Proyecto cerrado");
        }
        match event {
            EditorEvent::StartRename(id, href) => {
                match href {
                    Some(h) => {
                        if self.has_project {
                            let new_href = copy_text(&h);
                            self.rename = Some(RenameDialog { item_id: id, current_href: h, new_href });
                        }
                    },
                    None => {},
                }
                EditorAction::Nothing
            },
            EditorEvent::RenameChanged(v) => {
                match self.rename.take() {
                    Some(d) => {
                        self.rename = Some(RenameDialog { item_id: d.item_id, current_href: d.current_href, new_href: v });
                    },
                    None => {},
                }
                EditorAction::Nothing
            },
            EditorEvent::ConfirmRename => {
                match self.rename.take() {
                    Some(d) => {
                        if self.has_project && !str_eq(d.new_href.as_str(), d.current_href.as_str()) {
                            EditorAction::Rename(d.item_id, d.new_href)
                        } else {
                            EditorAction::Nothing
                        }
                    },
                    None => EditorAction::Nothing,
                }
            },
            EditorEvent::CancelRename => {
                self.rename = None;
                EditorAction::Nothing
            },
            EditorEvent::Renamed(Ok(())) => {
                self.status = Some(text("Recurso renombrado"));
                EditorAction::RefreshResources
            },
            EditorEvent::Renamed(Err(err)) => {
                self.status = Some(joined("Error renombrando: ", err.as_str()));
                EditorAction::Nothing
            },
            EditorEvent::SearchChanged(q) => {
                self.search_query = q;
                EditorAction::Nothing
            },
            EditorEvent::ExecuteSearch => {
                let q = crate::text::trim_str(self.search_query.as_str());
                if chars_of(q.as_str()).len() == 0 {
                    self.search_results = Vec::new();
                    assert(result_views(self.search_results@) =~= Seq::<(Seq<char>, Seq<char>)>::empty());
                    EditorAction::Nothing
                } else if self.has_project {
                    EditorAction::Search(q)
                } else {
                    EditorAction::Nothing
                }
            },
            EditorEvent::SearchResults(Ok(rs)) => {
                self.search_results = rs;
                EditorAction::Nothing
            },
            EditorEvent::SearchResults(Err(err)) => {
                self.status = Some(joined("Error en búsqueda: ", err.as_str()));
                EditorAction::Nothing
            },
            EditorEvent::SelectSearchResult(i) => {
                if i < self.search_results.len() {
                    let id = copy_text(&self.search_results[i].0);
                    self.sidebar_tab = EditorSidebarTab::Resources;
                    self.select_resource_exec(id)
                } else {
                    EditorAction::Nothing
                }
            },
            EditorEvent::OpenExport => {
                self.export_dialog = Some(ExportFormat::Epub);
                EditorAction::Nothing
            },
            EditorEvent::SelectExportFormat(f) => {
                self.export_dialog = Some(f);
                EditorAction::Nothing
            },
            EditorEvent::CancelExport => {
                self.export_dialog = None;
                EditorAction::Nothing
            },
            EditorEvent::ConfirmExport => {
                match self.export_dialog.take() {
                    Some(f) => EditorAction::PickExportPath(f),
                    None => EditorAction::Nothing,
                }
            },
            EditorEvent::CloseProject => {
                self.has_project = false;
                self.tabs = Vec::new();
                assert(tab_views(self.tabs@) =~= Seq::<TabView>::empty());
                self.active = None;
                self.drag = None;
                self.drop = None;
                self.rename = None;
                self.search_query = String::new();
                self.search_results = Vec::new();
                assert(result_views(self.search_results@) =~= Seq::<(Seq<char>, Seq<char>)>::empty());
                self.sidebar_tab = EditorSidebarTab::Resources;
                self.export_dialog = None;
                self.status = Some(text("Proyecto cerrado"));
                EditorAction::CloseProject
            },
            EditorEvent::StatusCleared => {
                self.status = None;
                EditorAction::Nothing
            },
            _ => EditorAction::Nothing,
        }
    }

    /// Takes an event; see `editor_step`.
    pub fn step(&mut self, event: EditorEvent) -> (a: EditorAction)
        ensures
            (editor_view(final(self)), action_view(a)) == editor_step(editor_view(old(self)), event),
    {
        let group: u8 = match &event {
            EditorEvent::SelectResource(..) | EditorEvent::ResourceFound(..) | EditorEvent::ResourceLoaded(..)
            | EditorEvent::CloseTab(..) | EditorEvent::Edited | EditorEvent::SaveCurrent | EditorEvent::SaveTab(..)
            | EditorEvent::TabSaved(..) | EditorEvent::Saved(..) => 0,
            EditorEvent::ToggleSidebar | EditorEvent::SelectSidebarTab(..) | EditorEvent::DragStart(..)
            | EditorEvent::DragOver(..) | EditorEvent::DragLeave(..) | EditorEvent::Drop | EditorEvent::Reordered(..) => 1,
            _ => 2,
        };
        if group == 0 {
            self.step_tabs(event)
        } else if group == 1 {
            self.step_sidebar(event)
        } else {
            self.step_dialogs(event)
        }
    }
}

/// No resource is open in two tabs, and the active tab, when there is one,
/// is open.
pub open spec fn tabs_sound(s: EditorView) -> bool {
    &&& forall|i: int, j: int| 0 <= i < j < s.tabs.len() ==> (#[trigger] s.tabs[i]).0 != (#[trigger] s.tabs[j]).0
    &&& (s.active matches Some(a) ==> tab_ids(s.tabs).contains(a))
}

proof fn lemma_position_none(s: Seq<Seq<char>>, id: Seq<char>)
    ensures
        spine_position(s, id) is None <==> !s.contains(id),
    decreases s.len(),
{
    if s.len() > 0 {
        lemma_position_none(s.drop_first(), id);
        if s[0] != id && s.drop_first().contains(id) {
            let k = choose|k: int| 0 <= k < s.drop_first().len() && s.drop_first()[k] == id;
            assert(s[k + 1] == id);
        }
        if s.contains(id) && s[0] != id {
            let k = choose|k: int| 0 <= k < s.len() && s[k] == id;
            assert(s.drop_first()[k - 1] == id);
        }
    }
}

proof fn lemma_ids_update(tabs: Seq<TabView>, i: Option<int>, dirty: bool)
    requires
        i matches Some(k) ==> 0 <= k < tabs.len(),
    ensures
        tab_ids(with_dirty(tabs, i, dirty)) == tab_ids(tabs),
        with_dirty(tabs, i, dirty).len() == tabs.len(),
        forall|k: int| 0 <= k < tabs.len() ==> (#[trigger] with_dirty(tabs, i, dirty)[k]).0 == tabs[k].0,
{
    assert(tab_ids(with_dirty(tabs, i, dirty)) =~= tab_ids(tabs));
}

/// Whatever the window is asked to do, no resource comes to be open in two
/// tabs and the active tab stays one of the open tabs.
#[verifier::rlimit(40)]
pub proof fn law_editor_tabs_stay_sound(s: EditorView, e: EditorEvent)
    requires
        tabs_sound(s),
    ensures
        tabs_sound(editor_step(s, e).0),
{
    let t = editor_step(s, e).0;
    let ids = tab_ids(s.tabs);
    match e {
        EditorEvent::SelectResource(id) => {
            lemma_position(ids, id@);
        },
        EditorEvent::SelectSearchResult(i) => {
            if i < s.search_results.len() {
                lemma_position(ids, s.search_results[i as int].0);
            }
        },
        EditorEvent::ResourceLoaded(id, m, Ok(())) => {
            lemma_position(ids, id@);
            lemma_position_none(ids, id@);
            if spine_position(ids, id@) is None {
                let n = s.tabs.push((id@, m@, false));
                assert(tab_ids(n) =~= ids.push(id@));
                assert forall|i: int, j: int| 0 <= i < j < n.len() implies (#[trigger] n[i]).0 != (#[trigger] n[j]).0 by {
                    if j == s.tabs.len() {
                        assert(ids[i] == s.tabs[i].0);
                    } else {
                        assert(n[i] == s.tabs[i] && n[j] == s.tabs[j]);
                    }
                }
                assert(tab_ids(n)[s.tabs.len() as int] == id@);
            }
        },
        EditorEvent::CloseTab(id) => {
            lemma_position(ids, id@);
            if let Some(i) = spine_position(ids, id@) {
                let n = s.tabs.remove(i);
                assert(tab_ids(n) =~= ids.remove(i));
                assert forall|a: int, b: int| 0 <= a < b < n.len() implies (#[trigger] n[a]).0 != (#[trigger] n[b]).0 by {
                    let a2 = if a < i { a } else { a + 1 };
                    let b2 = if b < i { b } else { b + 1 };
                    assert(n[a] == s.tabs[a2] && n[b] == s.tabs[b2]);
                }
                if let Some(act) = s.active {
                    if act == id@ {
                        let left = ids.remove(i);
                        let j = if i >= 1 { i - 1 } else { 0 };
                        if j < left.len() {
                            assert(left.contains(left[j]));
                        }
                    } else {
                        let k = choose|k: int| 0 <= k < ids.len() && ids[k] == act;
                        assert(k != i);
                        let k2 = if k < i { k } else { k - 1 };
                        assert(ids.remove(i)[k2] == act);
                    }
                }
            }
        },
        EditorEvent::Edited => {
            if let Some(a) = s.active {
                lemma_position(ids, a);
                lemma_ids_update(s.tabs, spine_position(ids, a), true);
            }
        },
        EditorEvent::TabSaved(id) => {
            lemma_position(ids, id@);
            lemma_ids_update(s.tabs, spine_position(ids, id@), false);
        },
        EditorEvent::Saved(Ok(id)) => {
            lemma_position(ids, id@);
            lemma_ids_update(s.tabs, spine_position(ids, id@), false);
        },
        EditorEvent::CloseProject => {
        },
        _ => {},
    }
}


// ---------------------------------------------------------------------------
// The resource list in the sidebar
// ---------------------------------------------------------------------------

/// How a resource's row is shown: the row being dragged, the row a drag is
/// over, the resource open in the active tab, or none of these.
#[derive(Debug, Clone, Copy, PartialEq, Eq, Structural)]
pub enum RowHighlight {
    Dragged,
    DropTarget,
    Active,
    Plain,
}

/// A row of the sidebar's resource list: a group's heading, or a resource
/// with whether it can be dragged to reorder the reading order, whether it
/// offers "set as cover", and its highlight.
#[derive(Debug)]
pub enum SidebarRow {
    Heading(ResourceKind),
    Resource { id: String, draggable: bool, cover_button: bool, highlight: RowHighlight },
}

pub enum SidebarRowView {
    Heading(ResourceKind),
    Resource(Seq<char>, bool, bool, RowHighlight),
}

pub open spec fn sidebar_row_view(r: SidebarRow) -> SidebarRowView {
    match r {
        SidebarRow::Heading(k) => SidebarRowView::Heading(k),
        SidebarRow::Resource { id, draggable, cover_button, highlight } => SidebarRowView::Resource(
            id@,
            draggable,
            cover_button,
            highlight,
        ),
    }
}

pub open spec fn sidebar_row_views(rs: Seq<SidebarRow>) -> Seq<SidebarRowView> {
    rs.map_values(|r: SidebarRow| sidebar_row_view(r))
}

/// The drag takes precedence over the drop target, and both over the active tab.
pub open spec fn row_highlight(
    id: Seq<char>,
    active: Option<Seq<char>>,
    drag: Option<Seq<char>>,
    drop: Option<Seq<char>>,
) -> RowHighlight {
    if drag == Some(id) {
        RowHighlight::Dragged
    } else if drop == Some(id) {
        RowHighlight::DropTarget
    } else if active == Some(id) {
        RowHighlight::Active
    } else {
        RowHighlight::Plain
    }
}

/// The row of one resource of a group of kind `kind`: only an XHTML document
/// can be dragged, and only an image can be made the cover.
pub open spec fn item_row(
    kind: ResourceKind,
    item: ManifestItem,
    active: Option<Seq<char>>,
    drag: Option<Seq<char>>,
    drop: Option<Seq<char>>,
) -> SidebarRowView {
    SidebarRowView::Resource(
        item.id@,
        kind == ResourceKind::Document && item.media_type@ == "application/xhtml+xml"@,
        kind == ResourceKind::Image,
        row_highlight(item.id@, active, drag, drop),
    )
}

/// The rows of a group: its heading, then one row per resource; a group
/// with no resources shows nothing.
pub open spec fn group_rows(
    g: ResourceGroup,
    active: Option<Seq<char>>,
    drag: Option<Seq<char>>,
    drop: Option<Seq<char>>,
) -> Seq<SidebarRowView> {
    if g.items@.len() == 0 {
        seq![]
    } else {
        seq![SidebarRowView::Heading(g.kind)] + g.items@.map_values(
            |it: ManifestItem| item_row(g.kind, it, active, drag, drop),
        )
    }
}

/// The rows of the groups, in order.
pub open spec fn sidebar_rows(
    gs: Seq<ResourceGroup>,
    active: Option<Seq<char>>,
    drag: Option<Seq<char>>,
    drop: Option<Seq<char>>,
) -> Seq<SidebarRowView>
    decreases gs.len(),
{
    if gs.len() == 0 {
        seq![]
    } else {
        sidebar_rows(gs.drop_last(), active, drag, drop) + group_rows(gs.last(), active, drag, drop)
    }
}

fn same_id(o: &Option<String>, id: &str) -> (r: bool)
    ensures
        r == (opt_text(*o) == Some(id@)),
{
    match o {
        Some(s) => str_eq(s.as_str(), id),
        None => false,
    }
}

fn highlight_of(
    id: &str,
    active: &Option<String>,
    drag: &Option<String>,
    drop: &Option<String>,
) -> (r: RowHighlight)
    ensures
        r == row_highlight(id@, opt_text(*active), opt_text(*drag), opt_text(*drop)),
{
    if same_id(drag, id) {
        RowHighlight::Dragged
    } else if same_id(drop, id) {
        RowHighlight::DropTarget
    } else if same_id(active, id) {
        RowHighlight::Active
    } else {
        RowHighlight::Plain
    }
}

/// The resource list of the sidebar: for each group that has resources, its
/// heading and then a row per resource, with what the row allows and how it
/// is highlighted for the active tab and a drag in progress.
pub fn resource_rows(
    groups: &Vec<ResourceGroup>,
    active: &Option<String>,
    drag: &Option<String>,
    drop: &Option<String>,
) -> (r: Vec<SidebarRow>)
    ensures
        sidebar_row_views(r@) == sidebar_rows(
            groups@,
            opt_text(*active),
            opt_text(*drag),
            opt_text(*drop),
        ),
{
    let ghost (a, d, p) = (opt_text(*active), opt_text(*drag), opt_text(*drop));
    let mut rows: Vec<SidebarRow> = Vec::new();
    let mut gi: usize = 0;
    while gi < groups.len()
        invariant
            gi <= groups.len(),
            a == opt_text(*active),
            d == opt_text(*drag),
            p == opt_text(*drop),
            sidebar_row_views(rows@) == sidebar_rows(groups@.take(gi as int), a, d, p),
        decreases groups.len() - gi,
    {
        let group = &groups[gi];
        let ghost before = sidebar_row_views(rows@);
        assert(groups@.take(gi + 1).drop_last() =~= groups@.take(gi as int));
        if group.items.len() > 0 {
            rows.push(SidebarRow::Heading(group.kind));
            let mut ii: usize = 0;
            while ii < group.items.len()
                invariant
                    ii <= group.items.len(),
                    gi < groups.len(),
                    group == groups@[gi as int],
                    a == opt_text(*active),
                    d == opt_text(*drag),
                    p == opt_text(*drop),
                    group.items.len() > 0,
                    sidebar_row_views(rows@) == before + seq![SidebarRowView::Heading(group.kind)]
                        + group.items@.take(ii as int).map_values(
                        |it: ManifestItem| item_row(group.kind, it, a, d, p),
                    ),
                decreases group.items.len() - ii,
            {
                let item = &group.items[ii];
                let draggable = group.kind == ResourceKind::Document && str_eq(
                    item.media_type.as_str(),
                    "application/xhtml+xml",
                );
                let cover_button = match group.kind {
                    ResourceKind::Image => true,
                    _ => false,
                };
                let highlight = highlight_of(item.id.as_str(), active, drag, drop);
                let ghost old_rows = sidebar_row_views(rows@);
                rows.push(
                    SidebarRow::Resource {
                        id: copy_text(&item.id),
                        draggable,
                        cover_button,
                        highlight,
                    },
                );
                proof {
                    let row = rows@[rows@.len() - 1];
                    assert(sidebar_row_view(row) == item_row(group.kind, *item, a, d, p));
                    assert(sidebar_row_views(rows@) =~= old_rows.push(
                        item_row(group.kind, *item, a, d, p),
                    ));
                    assert(group.items@.take(ii + 1).map_values(
                        |it: ManifestItem| item_row(group.kind, it, a, d, p),
                    ) =~= group.items@.take(ii as int).map_values(
                        |it: ManifestItem| item_row(group.kind, it, a, d, p),
                    ).push(item_row(group.kind, *item, a, d, p)));
                }
                ii += 1;
            }
            assert(group.items@.take(group.items.len() as int) =~= group.items@);
        } else {
            assert(group_rows(*group, a, d, p) =~= Seq::<SidebarRowView>::empty());
            assert(sidebar_row_views(rows@) =~= before + group_rows(*group, a, d, p));
        }
        gi += 1;
    }
    assert(groups@.take(groups.len() as int) =~= groups@);
    rows
}

} // verus!
