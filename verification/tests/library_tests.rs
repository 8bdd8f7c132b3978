use folio_core::library::{
    card_design, card_designs, human_file_size, middle_ellipsis, stable_cover_cache_key,
    stable_cover_cache_key_with_version, thumbnail_cover_bytes, COVER_CACHE_VERSION,
    COVER_THUMBNAIL_HEIGHT, COVER_THUMBNAIL_WIDTH, SHOWCASE_CARDS,
};
use std::collections::HashSet;

#[test]
fn card_design_registry_has_unique_ids() {
    let ids: Vec<_> = card_designs().iter().map(|design| design.id()).collect();
    let unique: HashSet<_> = ids.iter().copied().collect();

    assert_eq!(ids.len(), SHOWCASE_CARDS);
    assert_eq!(ids.len(), unique.len());
}

#[test]
fn unknown_card_design_falls_back_to_basic() {
    assert_eq!(card_design("does-not-exist").id(), "basic");
}

#[test]
fn long_paths_are_shortened_without_losing_both_ends() {
    let shortened = middle_ellipsis("/home/pedro/Descargas/biblioteca/Terradraga.epub", 21);

    assert_eq!(shortened.chars().count(), 21);
    assert!(shortened.starts_with("/home/pedr"));
    assert!(shortened.ends_with("draga.epub"));
}

#[test]
fn file_sizes_are_human_readable() {
    assert_eq!(human_file_size(500), "500 B");
    assert_eq!(human_file_size(2 * 1024), "2.0 KB");
    assert_eq!(human_file_size(2 * 1024 * 1024), "2.0 MB");
}

#[test]
fn cover_cache_uses_the_persisted_epub_hash() {
    let hash = "A".repeat(64);

    assert_eq!(
        stable_cover_cache_key(Some(&hash), 42, "/books/example.epub", None),
        format!("{COVER_CACHE_VERSION}-{}", "a".repeat(64))
    );
    assert_eq!(
        stable_cover_cache_key_with_version("v1", Some(&hash), 42, "/books/example.epub", None),
        format!("v1-{}", "a".repeat(64))
    );
}

#[test]
fn invalid_cover_hashes_cannot_escape_the_cache_directory() {
    let key = stable_cover_cache_key(Some("../../outside"), 42, "/books/example.epub", None);

    assert!(key.starts_with(&format!("{COVER_CACHE_VERSION}-fallback-")));
    assert!(!key.contains('/'));
}

#[test]
fn large_covers_are_cached_as_bounded_thumbnails() {
    let original = image::DynamicImage::new_rgb8(1200, 1800);
    let mut encoded = std::io::Cursor::new(Vec::new());
    original.write_to(&mut encoded, image::ImageFormat::Png).unwrap();

    let thumbnail = thumbnail_cover_bytes(&encoded.into_inner()).unwrap();
    let decoded = image::load_from_memory(&thumbnail).unwrap();

    assert_eq!(decoded.width(), COVER_THUMBNAIL_WIDTH);
    assert_eq!(decoded.height(), COVER_THUMBNAIL_HEIGHT);
}
