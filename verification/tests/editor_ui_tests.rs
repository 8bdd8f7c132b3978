use folio_core::editor_app::{
    resource_rows, EditorAction, EditorEvent, EditorSidebarTab, EditorUi, RowHighlight, SidebarRow,
};
use folio_core::annotations::{anchor_scroll_script, highlight_script};
use folio_core::syntax::{token_format, Language, SyntaxHighlighter, TokenKind};
use folio_core::editor_ui::{
    chapter_title, close_tab, drop_target_index, editor_shortcut, set_all_included, set_doc_included,
    set_heading_included, toc_dialog_status, EditorCommand, ExportFormat,
};
use folio_core::project::{DocToc, HeadingItem, ManifestItem, ResourceGroup, ResourceKind};

fn ids(names: &[&str]) -> Vec<String> {
    names.iter().map(|n| n.to_string()).collect()
}

#[test]
fn shortcuts_need_the_command_key() {
    assert_eq!(editor_shortcut("o", true, false), Some(EditorCommand::OpenProject));
    assert_eq!(editor_shortcut("S", true, false), Some(EditorCommand::SaveCurrent));
    assert_eq!(editor_shortcut("n", true, false), Some(EditorCommand::NewProject));
    assert_eq!(editor_shortcut("s", false, false), None);
    assert_eq!(editor_shortcut("s", true, true), None);
    assert_eq!(editor_shortcut("x", true, false), None);
    assert_eq!(ExportFormat::Epub.extension(), "epub");
    assert_eq!(ExportFormat::Text.extension(), "txt");
    assert_eq!(ExportFormat::Text.label(), "Texto plano");
    assert_eq!(ExportFormat::Epub.done_message(), "EPUB exportado");
}

#[test]
fn new_chapters_are_titled_by_their_number() {
    assert_eq!(chapter_title("chapter3"), "Capítulo 3");
    assert_eq!(chapter_title("chapterchapter1"), "Capítulo 1");
    assert_eq!(chapter_title("intro"), "Capítulo intro");
}

#[test]
fn dropping_moves_before_the_target() {
    let spine = ids(&["a", "b", "c", "d"]);
    assert_eq!(drop_target_index(&spine, "a", "c"), Some(1));
    assert_eq!(drop_target_index(&spine, "d", "b"), Some(1));
    assert_eq!(drop_target_index(&spine, "b", "b"), None);
    assert_eq!(drop_target_index(&spine, "x", "b"), None);
}

#[test]
fn closing_the_active_tab_activates_its_neighbour() {
    let tabs = ids(&["a", "b", "c"]);
    assert_eq!(close_tab(&tabs, Some("b"), "b"), Some((1, Some("a".to_string()))));
    assert_eq!(close_tab(&tabs, Some("a"), "a"), Some((0, Some("b".to_string()))));
    assert_eq!(close_tab(&tabs, Some("a"), "c"), Some((2, Some("a".to_string()))));
    assert_eq!(close_tab(&ids(&["only"]), Some("only"), "only"), Some((0, None)));
    assert_eq!(close_tab(&tabs, None, "z"), None);
}

fn doc(headings: usize) -> DocToc {
    DocToc {
        href: "Text/c.xhtml".to_string(),
        title: "c".to_string(),
        items: (0..headings)
            .map(|i| HeadingItem { level: 1, title: format!("h{i}"), anchor: String::new(), included: true })
            .collect(),
        included: true,
    }
}

#[test]
fn toc_dialog_choices_follow_documents_and_headings() {
    let mut data = vec![doc(2), doc(1)];
    set_doc_included(&mut data, 0, false);
    assert!(!data[0].included);
    assert!(data[0].items.iter().all(|h| !h.included));
    set_heading_included(&mut data, 0, 1, true);
    assert!(data[0].included);
    assert!(!data[0].items[0].included && data[0].items[1].included);
    set_doc_included(&mut data, 9, false);
    set_all_included(&mut data, false);
    assert!(data.iter().all(|d| !d.included && d.items.iter().all(|h| !h.included)));
    set_all_included(&mut data, true);
    assert!(data.iter().all(|d| d.included && d.items.iter().all(|h| h.included)));

    assert_eq!(toc_dialog_status(0, &Vec::new()).as_deref(), Some("No hay documentos XHTML para escanear"));
    assert_eq!(toc_dialog_status(2, &ids(&["a (A.xhtml): e", "b"])).as_deref(), Some("TOC: 2 no escaneado (a (A.xhtml): e)"));
    assert_eq!(toc_dialog_status(2, &Vec::new()), None);
}

#[test]
fn highlight_scripts_quote_the_passage() {
    let script = highlight_script("a\"b\\c\nd", "yellow", Some("p\"1"));
    assert!(script.starts_with("\n            (function() {\n                var container = 'p\\\"1' ? document.getElementById('p\\\"1') : document.body;\n"));
    assert!(script.contains("node.textContent.indexOf(\"a\\\"b\\\\c\\nd\");"));
    assert!(script.contains("range.setEnd(node, idx + 7);"));
    assert!(script.contains("span.style.backgroundColor = 'yellow';"));
    assert!(script.ends_with("                return false;\n            })()\n            "));
    let plain = highlight_script("x", "#fff", None);
    assert!(plain.contains("var container = null ? document.getElementById(null) : document.body;"));
    assert!(plain.contains("idx + 1);"));
}

#[test]
fn anchor_scripts_name_the_element() {
    assert_eq!(
        anchor_scroll_script("cap2"),
        "document.getElementById('cap2')?.scrollIntoView({behavior:'smooth', block:'start'});"
    );
}

#[test]
fn token_colours_follow_the_theme() {
    assert_eq!(token_format(TokenKind::Tag, true), Some((0x66, 0xb3, 0xff)));
    assert_eq!(token_format(TokenKind::Tag, false), Some((0x22, 0x88, 0xff)));
    assert_eq!(token_format(TokenKind::Number, false), Some((0x66, 0xdd, 0xee)));
    assert_eq!(token_format(TokenKind::Comment, true), Some((0xaa, 0xaa, 0xaa)));
    assert_eq!(token_format(TokenKind::Plain, true), None);
    assert_eq!(token_format(TokenKind::Plain, false), None);
}

fn tokens_are_ordered_in(line: &str, tokens: &[(std::ops::Range<usize>, TokenKind)]) -> bool {
    tokens.iter().all(|(r, _)| r.start <= r.end && r.end <= line.len() && line.is_char_boundary(r.start) && line.is_char_boundary(r.end))
        && tokens.windows(2).all(|w| w[0].0.end <= w[1].0.start)
}

#[test]
fn highlighted_tokens_lie_in_order_within_the_line() {
    let html = r#"<p class="año" id=x>Ñandú <!-- nota --> <img src='a.png'/>"#;
    let mut h = SyntaxHighlighter::new(&Language::Html);
    let tokens = h.highlight_line(html);
    assert!(!tokens.is_empty());
    assert!(tokens_are_ordered_in(html, &tokens));
    let css = "h1.título { color: #fff; margin: 1.5em 2px; font-family: 'Ñ' } /* fin */";
    let mut h = SyntaxHighlighter::new(&Language::Css);
    let tokens = h.highlight_line(css);
    assert!(!tokens.is_empty());
    assert!(tokens_are_ordered_in(css, &tokens));
}

#[test]
fn editor_tabs_open_edit_save_and_close() {
    let mut ui = EditorUi::new(true);
    assert_eq!(ui.step(EditorEvent::SelectResource("c1".to_string())), EditorAction::FindResource("c1".to_string()));
    assert_eq!(
        ui.step(EditorEvent::ResourceFound("c1".to_string(), "application/xhtml+xml".to_string())),
        EditorAction::LoadText("c1".to_string(), "application/xhtml+xml".to_string())
    );
    assert_eq!(ui.step(EditorEvent::ResourceFound("img".to_string(), "image/png".to_string())), EditorAction::Nothing);
    ui.step(EditorEvent::ResourceLoaded("c1".to_string(), "application/xhtml+xml".to_string(), Ok(())));
    ui.step(EditorEvent::ResourceLoaded("s".to_string(), "text/css".to_string(), Ok(())));
    assert_eq!(ui.tabs.len(), 2);
    assert_eq!(ui.active.as_deref(), Some("s"));
    ui.step(EditorEvent::ResourceLoaded("s".to_string(), "text/css".to_string(), Ok(())));
    assert_eq!(ui.tabs.len(), 2, "a resource is never open twice");
    ui.step(EditorEvent::Edited);
    assert!(ui.tabs[1].dirty && !ui.tabs[0].dirty);
    assert_eq!(ui.step(EditorEvent::SaveCurrent), EditorAction::SaveAll("s".to_string()));
    assert_eq!(ui.step(EditorEvent::Saved(Ok("s".to_string()))), EditorAction::ClearStatusLater(true));
    assert!(!ui.tabs[1].dirty);
    assert_eq!(ui.status.as_deref(), Some("Guardado"));
    assert_eq!(ui.step(EditorEvent::Saved(Err("disco lleno".to_string()))), EditorAction::Nothing);
    assert_eq!(ui.status.as_deref(), Some("Error guardando: disco lleno"));
    ui.step(EditorEvent::Edited);
    assert_eq!(ui.step(EditorEvent::CloseTab("s".to_string())), EditorAction::SaveText("s".to_string()));
    assert_eq!(ui.tabs.len(), 1);
    assert_eq!(ui.active.as_deref(), Some("c1"));
    assert_eq!(ui.step(EditorEvent::SelectResource("c1".to_string())), EditorAction::Nothing);
    assert_eq!(ui.step(EditorEvent::CloseTab("c1".to_string())), EditorAction::Nothing);
    assert_eq!(ui.active, None);
}

#[test]
fn editor_drags_renames_searches_and_exports() {
    let mut ui = EditorUi::new(true);
    assert_eq!(ui.step(EditorEvent::DragOver("c2".to_string())), EditorAction::Nothing);
    assert_eq!(ui.drop, None);
    ui.step(EditorEvent::DragStart("c3".to_string()));
    ui.step(EditorEvent::DragOver("c1".to_string()));
    ui.step(EditorEvent::DragLeave("c1".to_string()));
    assert_eq!(ui.step(EditorEvent::Drop), EditorAction::Move("c3".to_string(), "c1".to_string()));
    assert!(ui.drag.is_none() && ui.drop.is_none());
    assert_eq!(ui.step(EditorEvent::Reordered(Ok(()))), EditorAction::RefreshResources);
    assert_eq!(ui.status.as_deref(), Some("Orden actualizado"));
    ui.step(EditorEvent::DragStart("c1".to_string()));
    ui.step(EditorEvent::DragOver("c1".to_string()));
    assert_eq!(ui.step(EditorEvent::Drop), EditorAction::Nothing);

    ui.step(EditorEvent::StartRename("img".to_string(), Some("Images/a.png".to_string())));
    assert_eq!(ui.step(EditorEvent::ConfirmRename), EditorAction::Nothing, "an unchanged path renames nothing");
    ui.step(EditorEvent::StartRename("img".to_string(), Some("Images/a.png".to_string())));
    ui.step(EditorEvent::RenameChanged("Images/b.png".to_string()));
    assert_eq!(
        ui.step(EditorEvent::ConfirmRename),
        EditorAction::Rename("img".to_string(), "Images/b.png".to_string())
    );
    assert!(ui.rename.is_none());

    ui.step(EditorEvent::SearchChanged("   ".to_string()));
    assert_eq!(ui.step(EditorEvent::ExecuteSearch), EditorAction::Nothing);
    ui.step(EditorEvent::SearchChanged("  ballena ".to_string()));
    assert_eq!(ui.step(EditorEvent::ExecuteSearch), EditorAction::Search("ballena".to_string()));
    ui.step(EditorEvent::SelectSidebarTab(EditorSidebarTab::Search));
    ui.step(EditorEvent::SearchResults(Ok(vec![("c2".to_string(), "…ballena…".to_string())])));
    assert_eq!(ui.step(EditorEvent::SelectSearchResult(3)), EditorAction::Nothing);
    assert_eq!(ui.step(EditorEvent::SelectSearchResult(0)), EditorAction::FindResource("c2".to_string()));
    assert_eq!(ui.sidebar_tab, EditorSidebarTab::Resources);

    assert_eq!(ui.step(EditorEvent::ConfirmExport), EditorAction::Nothing);
    ui.step(EditorEvent::OpenExport);
    ui.step(EditorEvent::SelectExportFormat(ExportFormat::Text));
    assert_eq!(ui.step(EditorEvent::ConfirmExport), EditorAction::PickExportPath(ExportFormat::Text));
    assert_eq!(ui.export_dialog, None);

    assert_eq!(ui.step(EditorEvent::CloseProject), EditorAction::CloseProject);
    assert!(!ui.has_project);
    assert_eq!(ui.status.as_deref(), Some("Proyecto cerrado"));
    assert_eq!(ui.step(EditorEvent::SelectResource("c1".to_string())), EditorAction::Nothing);
    ui.step(EditorEvent::StatusCleared);
    assert_eq!(ui.status, None);
}

fn manifest_item(id: &str, media_type: &str) -> ManifestItem {
    ManifestItem {
        id: id.to_string(),
        href: format!("{id}.bin"),
        media_type: media_type.to_string(),
        properties: String::new(),
    }
}

fn resource_row(row: &SidebarRow) -> (String, bool, bool, RowHighlight) {
    match row {
        SidebarRow::Resource { id, draggable, cover_button, highlight } => {
            (id.clone(), *draggable, *cover_button, *highlight)
        }
        SidebarRow::Heading(_) => panic!("expected a resource row"),
    }
}

#[test]
fn sidebar_rows_mark_what_each_resource_allows() {
    let groups = vec![
        ResourceGroup {
            kind: ResourceKind::Document,
            label: "Documentos",
            items: vec![
                manifest_item("cap1", "application/xhtml+xml"),
                manifest_item("viejo", "text/html"),
            ],
        },
        ResourceGroup { kind: ResourceKind::Style, label: "Estilos", items: vec![] },
        ResourceGroup {
            kind: ResourceKind::Image,
            label: "Imágenes",
            items: vec![manifest_item("portada", "image/jpeg")],
        },
    ];
    let rows = resource_rows(&groups, &Some("portada".to_string()), &None, &None);
    assert_eq!(rows.len(), 5);
    assert!(matches!(rows[0], SidebarRow::Heading(ResourceKind::Document)));
    assert_eq!(resource_row(&rows[1]), ("cap1".to_string(), true, false, RowHighlight::Plain));
    assert_eq!(resource_row(&rows[2]), ("viejo".to_string(), false, false, RowHighlight::Plain));
    assert!(matches!(rows[3], SidebarRow::Heading(ResourceKind::Image)));
    assert_eq!(resource_row(&rows[4]), ("portada".to_string(), false, true, RowHighlight::Active));
}

#[test]
fn sidebar_highlight_prefers_drag_then_drop_then_active() {
    let groups = vec![ResourceGroup {
        kind: ResourceKind::Document,
        label: "Documentos",
        items: vec![
            manifest_item("a", "application/xhtml+xml"),
            manifest_item("b", "application/xhtml+xml"),
            manifest_item("c", "application/xhtml+xml"),
        ],
    }];
    let a = Some("a".to_string());
    let rows = resource_rows(&groups, &a, &a, &Some("b".to_string()));
    assert_eq!(resource_row(&rows[1]).3, RowHighlight::Dragged);
    assert_eq!(resource_row(&rows[2]).3, RowHighlight::DropTarget);
    assert_eq!(resource_row(&rows[3]).3, RowHighlight::Plain);
    let rows = resource_rows(&groups, &Some("c".to_string()), &None, &Some("c".to_string()));
    assert_eq!(resource_row(&rows[3]).3, RowHighlight::DropTarget);
    assert!(resource_rows(&Vec::new(), &None, &None, &None).is_empty());
}
