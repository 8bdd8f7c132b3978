use folio_core::reader_ui::{book_key, BookKey};
use folio_core::reader_ui::{ReaderAction, ReaderEvent, ReaderKey, ReaderUi, SidebarTab};

fn spine() -> Vec<String> {
    vec!["cover".to_string(), "c1".to_string(), "c2".to_string()]
}

fn opened() -> ReaderUi {
    let mut ui = ReaderUi::new();
    assert_eq!(ui.step(ReaderEvent::FileSelected(Some("/b.epub".to_string()))), ReaderAction::OpenBook("/b.epub".to_string()));
    assert_eq!(ui.status.as_deref(), Some("Abriendo..."));
    assert_eq!(ui.step(ReaderEvent::BookOpened(Ok((spine(), 1)))), ReaderAction::LoadChapter);
    ui
}

#[test]
fn chapters_advance_until_the_end_of_the_book() {
    let mut ui = opened();
    assert_eq!(ui.spine_progress, (2, 3));
    assert!(ui.status.is_none());
    assert_eq!(ui.step(ReaderEvent::NextChapter), ReaderAction::LoadChapter);
    assert_eq!(ui.spine_progress, (3, 3));
    assert_eq!(ui.step(ReaderEvent::NextChapter), ReaderAction::Nothing);
    assert_eq!(ui.status.as_deref(), Some("Fin del libro"));
    assert_eq!(ui.step(ReaderEvent::PrevChapter), ReaderAction::LoadChapter);
    assert_eq!(ui.step(ReaderEvent::PrevChapter), ReaderAction::LoadChapter);
    assert_eq!(ui.spine_progress, (1, 3));
    assert_eq!(ui.step(ReaderEvent::PrevChapter), ReaderAction::Nothing);
    assert_eq!(ui.status.as_deref(), Some("Inicio del libro"));
}

#[test]
fn a_failed_open_reports_the_error() {
    let mut ui = ReaderUi::new();
    assert_eq!(ui.step(ReaderEvent::BookOpened(Err("Error: roto".to_string()))), ReaderAction::Nothing);
    assert_eq!(ui.status.as_deref(), Some("Error: roto"));
    assert!(ui.document.is_none());
    assert_eq!(ui.step(ReaderEvent::FileSelected(None)), ReaderAction::Nothing);
}

#[test]
fn panels_open_one_at_a_time() {
    let mut ui = opened();
    ui.step(ReaderEvent::ToggleSidebar);
    assert!(ui.sidebar_open);
    ui.step(ReaderEvent::ToggleMenu);
    assert!(ui.menu_open && !ui.sidebar_open && !ui.reading_panel_open);
    ui.step(ReaderEvent::ToggleReadingPanel);
    assert!(ui.reading_panel_open && !ui.menu_open && !ui.sidebar_open);
    ui.step(ReaderEvent::OpenSearchSidebar);
    assert!(ui.sidebar_open && !ui.reading_panel_open);
    assert_eq!(ui.sidebar_tab, SidebarTab::Search);
    ui.step(ReaderEvent::SelectSidebarTab(SidebarTab::Toc));
    assert_eq!(ui.sidebar_tab, SidebarTab::Toc);
    ui.step(ReaderEvent::ToggleSidebar);
    assert!(!ui.sidebar_open);
}

#[test]
fn toc_and_search_move_to_their_chapter() {
    let mut ui = opened();
    ui.step(ReaderEvent::ToggleSidebar);
    assert_eq!(ui.step(ReaderEvent::TocEntryChosen(vec![false, false, true])), ReaderAction::LoadChapter);
    assert_eq!(ui.spine_progress, (3, 3));
    assert!(!ui.sidebar_open);
    assert_eq!(ui.step(ReaderEvent::TocEntryChosen(vec![false, false, false])), ReaderAction::Nothing);
    assert_eq!(ui.spine_progress, (3, 3));
    assert_eq!(ui.step(ReaderEvent::SearchResultChosen("cover".to_string())), ReaderAction::ClearSearchAndLoadChapter);
    assert_eq!(ui.spine_progress, (1, 3));
    assert_eq!(ui.step(ReaderEvent::SearchResultChosen("missing".to_string())), ReaderAction::ClearSearchAndLoadChapter);
    assert_eq!(ui.spine_progress, (1, 3));
}

#[test]
fn keys_open_files_recent_books_and_turn_pages() {
    let mut ui = ReaderUi::new();
    assert_eq!(ui.step(ReaderEvent::KeyPressed(ReaderKey::Character("O".to_string()), true, false, false, false)), ReaderAction::PickFile);
    assert_eq!(ui.step(ReaderEvent::KeyPressed(ReaderKey::Character("3".to_string()), true, false, false, false)), ReaderAction::OpenRecent(2));
    assert_eq!(ui.step(ReaderEvent::KeyPressed(ReaderKey::Character("3".to_string()), true, true, false, false)), ReaderAction::Nothing);
    assert_eq!(ui.step(ReaderEvent::KeyPressed(ReaderKey::ArrowRight, false, false, false, false)), ReaderAction::Nothing);

    let mut ui = opened();
    assert_eq!(ui.step(ReaderEvent::KeyPressed(ReaderKey::ArrowRight, false, false, false, false)), ReaderAction::PageDown);
    assert_eq!(ui.step(ReaderEvent::KeyPressed(ReaderKey::ArrowRight, false, false, true, false)), ReaderAction::LoadChapter);
    assert_eq!(ui.spine_progress, (3, 3));
    assert_eq!(ui.step(ReaderEvent::KeyPressed(ReaderKey::ArrowLeft, false, false, false, false)), ReaderAction::PageUp);
    assert_eq!(ui.step(ReaderEvent::KeyPressed(ReaderKey::ArrowLeft, false, false, false, true)), ReaderAction::LoadChapter);
    assert_eq!(ui.spine_progress, (2, 3));

    assert_eq!(ui.step(ReaderEvent::ImageClicked("/img.png".to_string(), true)), ReaderAction::ShowImage("/img.png".to_string()));
    assert!(ui.showing_image);
    assert_eq!(ui.step(ReaderEvent::KeyPressed(ReaderKey::ArrowRight, false, false, true, false)), ReaderAction::Nothing);
    ui.step(ReaderEvent::CloseImage);
    assert!(!ui.showing_image);
    assert_eq!(ui.step(ReaderEvent::ImageClicked("/nope.png".to_string(), false)), ReaderAction::Nothing);
    assert_eq!(ui.status.as_deref(), Some("Imagen no encontrada: /nope.png"));

    assert_eq!(ui.step(ReaderEvent::CloseBook), ReaderAction::ClearBook);
    assert!(ui.document.is_none());
    assert_eq!(ui.spine_progress, (0, 0));
}

#[test]
fn lighting_profiles_name_their_colours() {
    let day = folio_core::reader_ui::IlluminationProfile::default();
    assert_eq!((day.name.as_str(), day.text_color.as_str(), day.bg_color.as_str()), ("Día", "#1a1a1a", "#faf8f5"));
    let night = folio_core::reader_ui::IlluminationProfile::night();
    assert_eq!((night.name.as_str(), night.text_color.as_str(), night.bg_color.as_str()), ("Noche", "#d8d8d8", "#1a1a1a"));
    let sepia = folio_core::reader_ui::IlluminationProfile::sepia();
    assert_eq!((sepia.name.as_str(), sepia.text_color.as_str(), sepia.bg_color.as_str()), ("Sepia", "#5b4636", "#f4ecd8"));
}

#[test]
fn reading_view_keys_map_to_requests() {
    assert_eq!(book_key("Left", false, false, false), Some(BookKey::PreviousPage));
    assert_eq!(book_key("Page_Up", true, false, false), Some(BookKey::PreviousChapter));
    assert_eq!(book_key("space", false, false, false), Some(BookKey::NextPage));
    assert_eq!(book_key("Right", false, true, false), Some(BookKey::NextChapter));
    assert_eq!(book_key("o", true, false, false), Some(BookKey::OpenFile));
    assert_eq!(book_key("o", false, false, false), None);
    assert_eq!(book_key("f", true, false, false), Some(BookKey::Search));
    assert_eq!(book_key("F5", false, false, false), Some(BookKey::ToggleSpeech));
    assert_eq!(book_key("F9", false, false, false), Some(BookKey::ToggleContents));
    assert_eq!(book_key("KP_Add", false, false, false), Some(BookKey::FasterSpeech));
    assert_eq!(book_key("minus", false, false, false), Some(BookKey::SlowerSpeech));
    assert_eq!(book_key("F11", false, false, false), Some(BookKey::ToggleFocus));
    assert_eq!(book_key("a", true, false, true), Some(BookKey::Annotate));
    assert_eq!(book_key("a", true, false, false), None);
    assert_eq!(book_key("x", false, false, false), None);
}
