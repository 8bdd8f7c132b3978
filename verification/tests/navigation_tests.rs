use folio_core::navigation::{toc_target, SpineCursor, extraction_dir, position_file, recent_book, remember_recent_book};

#[test]
fn recent_books_are_deduplicated_and_limited_to_nine() {
    let mut recent: Vec<String> = Vec::new();
    for index in 0..12 {
        remember_recent_book(&mut recent, format!("missing-book-{index}.epub"));
    }

    assert_eq!(recent.len(), 9);
    assert_eq!(recent_book(&recent, 0), Some("missing-book-11.epub".to_string()));

    remember_recent_book(&mut recent, "missing-book-5.epub".to_string());
    assert_eq!(recent.len(), 9);
    assert_eq!(recent_book(&recent, 0), Some("missing-book-5.epub".to_string()));
    assert_eq!(recent.iter().filter(|path| *path == "missing-book-5.epub").count(), 1);
}

#[test]
fn books_unpack_into_a_folder_named_by_their_digest() {
    assert_eq!(
        extraction_dir(Some("/home/lector/.cache"), b"abc"),
        "/home/lector/.cache/gutenreader/epubs/ba7816bf8f01cfea414140de5dae2223b00361a396177a9cb410ff61f20015ad"
    );
    assert_eq!(
        extraction_dir(None, b""),
        "./gutenreader/epubs/e3b0c44298fc1c149afbf4c8996fb92427ae41e4649b934ca495991b7852b855"
    );
    assert_eq!(extraction_dir(Some("c"), b"abc"), extraction_dir(Some("c"), b"abc"));
    assert_ne!(extraction_dir(Some("c"), b"abc"), extraction_dir(Some("c"), b"abd"));
}

#[test]
fn reading_positions_are_kept_per_book() {
    assert_eq!(position_file("/cfg/gutenreader", "urn:isbn:978-84"), "/cfg/gutenreader/pos_urn_isbn_978-84.json");
    assert_eq!(position_file("cfg/", "Año 1"), "cfg/pos_Año_1.json");
}

#[test]
fn toc_links_move_to_the_first_matching_document() {
    let spine: Vec<String> = ["cover", "c1", "c2"].iter().map(|s| s.to_string()).collect();
    let mut cursor = SpineCursor::new(spine);
    let target = toc_target("Text/c2.xhtml#sec", "/book/OEBPS");
    let resources = vec![
        Some(("/book/OEBPS/Text/cover.xhtml".to_string(), false)),
        None,
        Some(("/book/OEBPS/Text/c2.xhtml".to_string(), true)),
    ];
    assert!(cursor.goto_toc_entry(&target, &resources));
    assert_eq!(cursor.spine_index(), 2);

    let by_name = toc_target("c1.xhtml", "/book/OEBPS");
    let resources = vec![
        Some(("/book/OEBPS/Text/cover.xhtml".to_string(), false)),
        Some(("/book/OEBPS/Text/c1.xhtml".to_string(), false)),
        Some(("/book/OEBPS/Text/c2.xhtml".to_string(), false)),
    ];
    assert!(cursor.goto_toc_entry(&by_name, &resources));
    assert_eq!(cursor.spine_index(), 1);

    let nowhere = toc_target("Otro/c9.xhtml", "/book/OEBPS");
    assert!(!cursor.goto_toc_entry(&nowhere, &resources));
    assert_eq!(cursor.spine_index(), 1);
}

#[test]
fn links_are_percent_decoded() {
    assert_eq!(folio_core::paths::percent_decode("Cap%C3%ADtulo%201.xhtml"), "Capítulo 1.xhtml");
    assert_eq!(folio_core::paths::percent_decode("a%2"), "a%2");
    assert_eq!(folio_core::paths::percent_decode("%FF"), "\u{FFFD}");
}
