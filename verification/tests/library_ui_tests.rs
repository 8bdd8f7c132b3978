use folio_core::library::{AppRole, Section};
use folio_core::library_ui::{typed_search, DetailBook, LibraryAction, LibraryEvent, LibraryPage, LibraryUi, LoadRequest};

fn ready() -> LibraryUi {
    let mut ui = LibraryUi::new("basic".to_string(), 24, None, None);
    assert!(ui.loading);
    assert_eq!(
        ui.step(LibraryEvent::DatabaseOpened(Ok(()))),
        LibraryAction::LoadBooks(LoadRequest { query: None, page: 0, per_page: 24 })
    );
    assert_eq!(ui.step(LibraryEvent::BooksLoaded(Ok((50, 0)))), LibraryAction::ShowCovers);
    assert!(!ui.loading);
    ui
}

#[test]
fn searching_loads_the_first_page_of_matches() {
    let mut ui = ready();
    assert_eq!(
        ui.step(LibraryEvent::SearchChanged("  \"dune\" ".to_string())),
        LibraryAction::LoadBooks(LoadRequest { query: Some("dune*".to_string()), page: 0, per_page: 24 })
    );
    assert!(ui.loading);
    assert_eq!(
        ui.step(LibraryEvent::SearchStarted("x".to_string())),
        LibraryAction::FocusSearch(Some(LoadRequest { query: Some("dune x*".to_string()), page: 0, per_page: 24 }))
    );
    assert!(ui.search_active);
    assert_eq!(
        ui.step(LibraryEvent::SearchClosed),
        LibraryAction::LoadBooks(LoadRequest { query: None, page: 0, per_page: 24 })
    );
    assert!(ui.search.is_empty() && !ui.search_active);
}

#[test]
fn pages_are_kept_within_the_library() {
    let mut ui = ready();
    assert_eq!(
        ui.step(LibraryEvent::LibraryPageSelected(7)),
        LibraryAction::LoadBooks(LoadRequest { query: None, page: 2, per_page: 24 })
    );
    assert_eq!(
        ui.step(LibraryEvent::LibraryPageSelected(1)),
        LibraryAction::LoadBooks(LoadRequest { query: None, page: 1, per_page: 24 })
    );
    assert_eq!(ui.step(LibraryEvent::BooksLoaded(Ok((0, 0)))), LibraryAction::ShowCovers);
    assert_eq!(
        ui.step(LibraryEvent::LibraryPageSelected(3)),
        LibraryAction::LoadBooks(LoadRequest { query: None, page: 0, per_page: 24 })
    );
    assert_eq!(ui.step(LibraryEvent::PageSizeSelected(500)), LibraryAction::SavePageSize(96));
    assert_eq!(ui.covers_per_page, 96);
    assert_eq!(
        ui.step(LibraryEvent::PageSizeSaved(Ok(()))),
        LibraryAction::LoadBooks(LoadRequest { query: None, page: 0, per_page: 96 })
    );
    assert_eq!(ui.status.as_deref(), Some("Mostrando 96 carátulas por página."));
    assert_eq!(ui.step(LibraryEvent::PageSizeSelected(3)), LibraryAction::SavePageSize(12));
}

fn book() -> DetailBook {
    DetailBook { id: 7, title: "Dune".to_string(), author_name: "Herbert".to_string(), current_path: "/b/dune.epub".to_string() }
}

#[test]
fn a_book_page_edits_and_deletes() {
    let mut ui = ready();
    assert_eq!(ui.step(LibraryEvent::OpenDetail(7)), LibraryAction::LoadDetail(7));
    assert_eq!(ui.step(LibraryEvent::DetailLoaded(Ok(Some(book())))), LibraryAction::Nothing);
    assert!(matches!(ui.page, LibraryPage::Detail(_)));
    assert_eq!(ui.title_edit, "Dune");
    ui.step(LibraryEvent::OpenEditDialog);
    ui.step(LibraryEvent::TitleChanged("Dune I".to_string()));
    assert_eq!(
        ui.step(LibraryEvent::SaveMetadata),
        LibraryAction::SaveMetadata(7, "Dune I".to_string(), "Herbert".to_string())
    );
    assert_eq!(ui.step(LibraryEvent::MetadataSaved(Ok(()))), LibraryAction::Nothing);
    assert!(!ui.show_edit_dialog);
    assert_eq!(ui.status.as_deref(), Some("Metadatos guardados."));
    match &ui.page {
        LibraryPage::Detail(b) => assert_eq!(b.title, "Dune I"),
        LibraryPage::Main => panic!("the book page should stay open"),
    }
    assert_eq!(
        ui.step(LibraryEvent::ReadBook),
        LibraryAction::OpenBook("/b/dune.epub".to_string(), None)
    );
    ui.step(LibraryEvent::OpenDeleteDialog);
    assert!(ui.show_delete_dialog && !ui.show_edit_dialog);
    assert_eq!(ui.step(LibraryEvent::DeleteBook(true)), LibraryAction::DeleteBook(7, true));
    assert_eq!(
        ui.step(LibraryEvent::BookDeleted(Ok(Some("/b/dune.epub".to_string())))),
        LibraryAction::LoadBooks(LoadRequest { query: None, page: 0, per_page: 24 })
    );
    assert!(matches!(ui.page, LibraryPage::Main));
    assert_eq!(ui.status.as_deref(), Some("Libro eliminado y archivo borrado: /b/dune.epub"));
    assert_eq!(ui.step(LibraryEvent::BooksLoaded(Ok((49, 0)))), LibraryAction::ShowCovers);
    assert_eq!(ui.status.as_deref(), Some("Libro eliminado y archivo borrado: /b/dune.epub"));
    assert_eq!(ui.step(LibraryEvent::DetailLoaded(Ok(None))), LibraryAction::Nothing);
    assert_eq!(ui.status.as_deref(), Some("El libro ya no existe."));
}

#[test]
fn preferences_and_imports_report_to_the_user() {
    let mut ui = ready();
    assert_eq!(ui.step(LibraryEvent::CardDesignSelected("nope".to_string())), LibraryAction::Nothing);
    assert_eq!(ui.status.as_deref(), Some("El diseño de tarjeta «nope» no existe."));
    assert_eq!(ui.step(LibraryEvent::CardDesignSelected("minimal".to_string())), LibraryAction::SaveCardDesign("minimal".to_string()));
    ui.step(LibraryEvent::CardDesignSaved(Ok(())));
    assert_eq!(ui.status.as_deref(), Some("Diseño de biblioteca actualizado."));
    assert_eq!(
        ui.step(LibraryEvent::ReaderAppSelected(Some("foliate.desktop".to_string()))),
        LibraryAction::SaveAppPreference(AppRole::Reader, Some("foliate.desktop".to_string()))
    );
    ui.step(LibraryEvent::AppPreferenceSaved(AppRole::Reader, Err("sin permiso".to_string())));
    assert_eq!(ui.status.as_deref(), Some("sin permiso"));

    assert_eq!(ui.step(LibraryEvent::ImportPressed), LibraryAction::SelectFiles);
    assert_eq!(ui.step(LibraryEvent::FilesSelected(Ok(0))), LibraryAction::Nothing);
    assert_eq!(ui.status.as_deref(), Some("No se seleccionaron archivos EPUB."));
    assert_eq!(ui.step(LibraryEvent::FilesSelected(Ok(2))), LibraryAction::ImportSelectedFiles);
    assert_eq!(
        ui.step(LibraryEvent::ImportFinished(Ok(2))),
        LibraryAction::LoadBooks(LoadRequest { query: None, page: 0, per_page: 24 })
    );
    assert_eq!(ui.status.as_deref(), Some("2 libro(s) importado(s)."));

    assert_eq!(ui.step(LibraryEvent::EnableOpdsServer), LibraryAction::StartOpdsServer);
    ui.step(LibraryEvent::OpdsServerEnabled(Ok("activo".to_string())));
    assert!(ui.opds_server_enabled);
    assert_eq!(ui.step(LibraryEvent::EnableOpdsServer), LibraryAction::Nothing);
    assert_eq!(ui.status.as_deref(), Some("Servidor web activo: http://localhost:8080/opds/browser"));

    assert_eq!(ui.step(LibraryEvent::SectionSelected(Section::Stats)), LibraryAction::LoadStats);
    assert_eq!(ui.step(LibraryEvent::QuickAction("favorito".to_string())), LibraryAction::Nothing);
    assert_eq!(ui.status.as_deref(), Some("Acción rápida: favorito."));
}

#[test]
fn escape_closes_a_dialog_before_the_search() {
    let mut ui = ready();
    assert!(ui.listens_for_typing());
    assert_eq!(ui.step(LibraryEvent::SearchShortcut), LibraryAction::FocusSearch(None));
    assert!(ui.search_active && !ui.listens_for_typing());
    ui.step(LibraryEvent::SearchChanged("dune".to_string()));
    ui.step(LibraryEvent::BooksLoaded(Ok((1, 0))));
    assert_eq!(ui.step(LibraryEvent::OpenDetail(7)), LibraryAction::LoadDetail(7));
    ui.step(LibraryEvent::DetailLoaded(Ok(Some(book()))));
    assert_eq!(ui.step(LibraryEvent::SearchShortcut), LibraryAction::Nothing);
    ui.step(LibraryEvent::OpenDeleteDialog);
    assert_eq!(ui.step(LibraryEvent::EscapePressed), LibraryAction::Nothing);
    assert!(!ui.show_delete_dialog && ui.search_active);
    ui.step(LibraryEvent::OpenEditDialog);
    assert_eq!(ui.step(LibraryEvent::EscapePressed), LibraryAction::Nothing);
    assert!(!ui.show_edit_dialog && ui.search_active);
    assert_eq!(
        ui.step(LibraryEvent::EscapePressed),
        LibraryAction::LoadBooks(LoadRequest { query: None, page: 0, per_page: 24 })
    );
    assert!(!ui.search_active && ui.search.is_empty() && ui.loading);
    assert_eq!(ui.step(LibraryEvent::EscapePressed), LibraryAction::Nothing);
}

#[test]
fn only_plain_visible_keys_start_a_search() {
    assert_eq!(typed_search(Some("d"), false, false, false), Some("d".to_string()));
    assert_eq!(typed_search(Some(" \u{7}é"), false, false, false), Some(" \u{7}é".to_string()));
    assert_eq!(typed_search(Some("d"), true, false, false), None);
    assert_eq!(typed_search(Some("d"), false, true, false), None);
    assert_eq!(typed_search(Some("d"), false, false, true), None);
    assert_eq!(typed_search(Some(" \t\u{85}"), false, false, false), None);
    assert_eq!(typed_search(Some("\u{1b}"), false, false, false), None);
    assert_eq!(typed_search(None, false, false, false), None);
}
