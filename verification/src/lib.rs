//! Verified text, markup and navigation logic of an EPUB reader and editor.
pub mod assoc;
pub mod text;
pub mod numbers;
pub mod entities;
pub mod css;
pub mod style;
pub mod markup;
pub mod images;
pub mod paths;
pub mod fonts;
pub mod annotations;
pub mod navigation;
pub mod syntax;
pub mod library;
pub mod content;
pub mod project;
pub mod viewer;
pub mod sorting;
pub mod tts;
pub mod xml;
pub mod laws;
pub mod reader_ui;
pub mod library_ui;
pub mod editor_ui;
pub mod editor_app;
