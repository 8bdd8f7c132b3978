use folio_core::project::{
    add_if_missing, nav_manifest_item, ncx_dir, ncx_manifest_item, ncx_plan, toc_documents, toc_sources,
    add_to_spine, build_nav_document, build_nav_entries, build_ncx_document, build_ncx_entries,
    chapter_body, chapter_head_links, chapter_href, escape_xml, get_full_toc_data, get_toc,
    get_toc_data, grouped_resources, nav_toc, ncx_toc, package_href_exec, project_title, scan_headings,
    toc_from_headings, unique_id, DocToc,
    HeadingItem, ManifestItem, ResourceKind, TocEntry,
};

fn heading(level: u8, title: &str, anchor: &str, included: bool) -> HeadingItem {
    HeadingItem { level, title: title.to_string(), anchor: anchor.to_string(), included }
}

fn sample_docs() -> Vec<DocToc> {
    vec![
        DocToc {
            href: "Text/ch1.xhtml".to_string(),
            title: "ch1".to_string(),
            items: vec![heading(1, "Uno", "", true), heading(2, "A & B", "sec", true)],
            included: true,
        },
        DocToc {
            href: "Text/ch2.xhtml".to_string(),
            title: "Dos".to_string(),
            items: vec![heading(1, "x", "", false)],
            included: true,
        },
        DocToc {
            href: "Text/ch3.xhtml".to_string(),
            title: "Tres".to_string(),
            items: vec![heading(1, "Tres", "", true)],
            included: false,
        },
    ]
}

#[test]
fn ncx_lists_kept_headings_and_whole_documents() {
    let entries = build_ncx_entries(&sample_docs(), "/book/OEBPS");
    assert_eq!(
        entries,
        vec![
            (1, "Uno".to_string(), "Text/ch1.xhtml".to_string()),
            (2, "A & B".to_string(), "Text/ch1.xhtml#sec".to_string()),
            (1, "Dos".to_string(), "Text/ch2.xhtml".to_string()),
        ]
    );
    let ncx = build_ncx_document(Some("Mi <libro>"), None, &entries);
    let expected = [
        "<?xml version=\"1.0\" encoding=\"UTF-8\"?>\n",
        "<ncx xmlns=\"http://www.daisy.org/z3986/2005/ncx/\" version=\"2005-1\">\n",
        "  <head>\n",
        "    <meta name=\"dtb:uid\" content=\"\"/>\n",
        "    <meta name=\"dtb:depth\" content=\"2\"/>\n",
        "    <meta name=\"dtb:totalPageCount\" content=\"0\"/>\n",
        "    <meta name=\"dtb:maxPageNumber\" content=\"0\"/>\n",
        "  </head>\n",
        "  <docTitle>\n",
        "    <text>Mi &lt;libro&gt;</text>\n",
        "  </docTitle>\n",
        "  <navMap>\n",
        "    <navPoint id=\"navPoint-1\" playOrder=\"1\">\n",
        "      <navLabel><text>Uno</text></navLabel>\n",
        "      <content src=\"Text/ch1.xhtml\"/>\n",
        "    </navPoint>\n",
        "    <navPoint id=\"navPoint-2\" playOrder=\"2\">\n",
        "      <navLabel><text>A &amp; B</text></navLabel>\n",
        "      <content src=\"Text/ch1.xhtml#sec\"/>\n",
        "    </navPoint>\n",
        "    <navPoint id=\"navPoint-3\" playOrder=\"3\">\n",
        "      <navLabel><text>Dos</text></navLabel>\n",
        "      <content src=\"Text/ch2.xhtml\"/>\n",
        "    </navPoint>\n",
        "  </navMap>\n",
        "</ncx>\n",
    ]
    .concat();
    assert_eq!(ncx, expected);
}

#[test]
fn ncx_without_entries_has_depth_one_and_default_title() {
    let ncx = build_ncx_document(None, Some("urn:x"), &Vec::new());
    assert!(ncx.contains("<meta name=\"dtb:uid\" content=\"urn:x\"/>"));
    assert!(ncx.contains("<meta name=\"dtb:depth\" content=\"1\"/>"));
    assert!(ncx.contains("<text>Índice</text>"));
    assert!(ncx.contains("  <navMap>\n  </navMap>\n"));
}

#[test]
fn nav_document_links_relative_to_the_text_directory() {
    let entries = build_nav_entries(&sample_docs());
    assert_eq!(
        entries,
        vec![
            (1, "Uno".to_string(), "ch1.xhtml".to_string()),
            (2, "A & B".to_string(), "ch1.xhtml#sec".to_string()),
            (1, "Dos".to_string(), "ch2.xhtml".to_string()),
        ]
    );
    let nav = build_nav_document(None, Some("Libro"), &entries);
    let expected = [
        "<?xml version=\"1.0\" encoding=\"UTF-8\"?>\n",
        "<html xmlns=\"http://www.w3.org/1999/xhtml\" xmlns:epub=\"http://www.idpf.org/2007/ops\" lang=\"es\" xml:lang=\"es\">\n",
        "<head>\n",
        "  <meta charset=\"utf-8\"/>\n",
        "  <title>Libro</title>\n",
        "</head>\n",
        "<body>\n",
        "  <nav epub:type=\"toc\" id=\"toc\">\n",
        "    <h1>Libro</h1>\n",
        "    <ol>\n",
        "      <li><a href=\"ch1.xhtml\">Uno</a></li>\n",
        "      <li><a href=\"ch1.xhtml#sec\">A & B</a></li>\n",
        "      <li><a href=\"ch2.xhtml\">Dos</a></li>\n",
        "    </ol>\n",
        "  </nav>\n",
        "</body>\n",
        "</html>\n",
    ]
    .concat();
    assert_eq!(nav, expected);
}

#[test]
fn escape_xml_replaces_the_five_markup_characters() {
    assert_eq!(escape_xml("a<b>&\"'"), "a&lt;b&gt;&amp;&quot;&apos;");
    assert_eq!(escape_xml("plain"), "plain");
}

fn scanned(items: Vec<HeadingItem>) -> DocToc {
    DocToc { href: "x".to_string(), title: "x".to_string(), items, included: true }
}

#[test]
fn toc_data_keeps_scanned_documents_and_reports_failures() {
    let scans = vec![
        ("c1".to_string(), "Text/c1.xhtml".to_string(), Ok(scanned(vec![heading(1, "Primero", "", true)]))),
        ("c2".to_string(), "Text/c2.xhtml".to_string(), Err("roto".to_string())),
        ("c3".to_string(), "Text/c3.xhtml".to_string(), Ok(scanned(Vec::new()))),
    ];
    let (data, errors) = get_toc_data(scans).unwrap();
    assert_eq!(data.len(), 2);
    assert_eq!(data[0].title, "Primero");
    assert_eq!(data[1].title, "c3");
    assert_eq!(errors, vec!["c2 (Text/c2.xhtml): roto".to_string()]);

    let failed = get_toc_data(vec![
        ("a".to_string(), "A.xhtml".to_string(), Err("e1".to_string())),
        ("b".to_string(), "B.xhtml".to_string(), Err("e2".to_string())),
    ]);
    assert_eq!(
        failed.unwrap_err(),
        "No se pudo escanear ningún documento. Errores: a (A.xhtml): e1; b (B.xhtml): e2"
    );
    let (none, no_errors) = get_toc_data(Vec::new()).unwrap();
    assert!(none.is_empty() && no_errors.is_empty());
}

#[test]
fn full_toc_data_stops_at_the_first_failure() {
    let ok = get_full_toc_data(vec![
        ("c1".to_string(), "Text/c1.xhtml".to_string(), Ok(scanned(vec![heading(2, "Dos", "d", true)]))),
        ("c2".to_string(), "Text/c2.xhtml".to_string(), Ok(scanned(Vec::new()))),
    ])
    .unwrap();
    assert_eq!(ok.len(), 2);
    assert_eq!(ok[0].title, "Dos");
    assert_eq!(ok[1].title, "c2");

    let failed = get_full_toc_data(vec![
        ("c1".to_string(), "Text/c1.xhtml".to_string(), Ok(scanned(Vec::new()))),
        ("c2".to_string(), "Text/c2.xhtml".to_string(), Err("malo".to_string())),
        ("c3".to_string(), "Text/c3.xhtml".to_string(), Err("peor".to_string())),
    ]);
    assert_eq!(failed.unwrap_err(), "malo");
}

#[test]
fn unique_ids_take_the_first_free_number() {
    let ids = vec!["chapter1".to_string(), "chapter2".to_string(), "x".to_string()];
    assert_eq!(unique_id("chapter", &ids), "chapter3");
    assert_eq!(unique_id("img", &ids), "img1");
    assert_eq!(unique_id("img", &Vec::new()), "img1");
    let gap = vec!["s2".to_string()];
    assert_eq!(unique_id("s", &gap), "s1");
}

#[test]
fn new_chapter_pieces() {
    assert_eq!(chapter_href("cap1"), "Text/cap1.xhtml");
    assert_eq!(
        chapter_head_links(Some("Styles/style.css")),
        "\n  <link rel=\"stylesheet\" type=\"text/css\" href=\"../Styles/style.css\"/>"
    );
    assert_eq!(chapter_head_links(None), "");
    assert_eq!(chapter_body("Hola"), "  <h1>Hola</h1>\n  <p></p>");

    let mut spine = vec!["c1".to_string()];
    add_to_spine(&mut spine, "c2".to_string());
    add_to_spine(&mut spine, "c1".to_string());
    assert_eq!(spine, vec!["c1".to_string(), "c2".to_string()]);
}

fn item(id: &str, href: &str, media_type: &str) -> ManifestItem {
    ManifestItem {
        id: id.to_string(),
        href: href.to_string(),
        media_type: media_type.to_string(),
        properties: String::new(),
    }
}

#[test]
fn resources_are_grouped_by_kind_and_ordered() {
    let items = vec![
        item("css-b", "Styles/b.css", "text/css"),
        item("c2", "Text/c2.xhtml", "application/xhtml+xml"),
        item("extra", "Text/z.xhtml", "application/xhtml+xml"),
        item("c1", "Text/c1.xhtml", "application/xhtml+xml"),
        item("img", "Images/a.png", "image/png"),
        item("css-a", "Styles/a.css", "text/css"),
        item("early", "Text/a.xhtml", "application/xhtml+xml"),
    ];
    let spine = vec!["c1".to_string(), "c2".to_string()];
    let groups = grouped_resources(items, &spine);

    assert_eq!(groups.len(), 3);
    assert_eq!(groups[0].kind, ResourceKind::Document);
    assert_eq!(groups[0].label, "Documentos");
    let docs: Vec<&str> = groups[0].items.iter().map(|i| i.id.as_str()).collect();
    assert_eq!(docs, vec!["c1", "c2", "early", "extra"]);
    assert_eq!(groups[1].kind, ResourceKind::Style);
    assert_eq!(groups[1].label, "Estilos");
    let styles: Vec<&str> = groups[1].items.iter().map(|i| i.href.as_str()).collect();
    assert_eq!(styles, vec!["Styles/a.css", "Styles/b.css"]);
    assert_eq!(groups[2].kind, ResourceKind::Image);
    assert_eq!(groups[2].label, "Imágenes");
    assert!(grouped_resources(Vec::new(), &spine).is_empty());
}

#[test]
fn headings_are_scanned_with_titles_and_anchors() {
    let xhtml = "<html xmlns=\"http://www.w3.org/1999/xhtml\"><body>\
<h1 id=\"a\"> Hola <em>mundo</em> </h1><p>x</p><H2>Sub&nbsp;t</H2><h7>no</h7></body></html>";
    let doc = scan_headings("Text/c1.xhtml", xhtml).unwrap();
    assert_eq!(doc.href, "Text/c1.xhtml");
    assert_eq!(doc.title, "Text/c1.xhtml");
    assert!(doc.included);
    assert_eq!(doc.items.len(), 2);
    assert_eq!(doc.items[0].level, 1);
    assert_eq!(doc.items[0].title, "Hola mundo");
    assert_eq!(doc.items[0].anchor, "a");
    assert!(doc.items[0].included);
    assert_eq!(doc.items[1].level, 2);
    assert_eq!(doc.items[1].title, "Sub\u{a0}t");
    assert_eq!(doc.items[1].anchor, "");

    let broken = scan_headings("Text/c1.xhtml", "<html><p></html>").unwrap_err();
    assert!(broken.starts_with("XML error in Text/c1.xhtml: "));
}

#[test]
fn toc_falls_back_from_ncx_to_nav_to_headings() {
    let entry = TocEntry { title: "T".to_string(), href: "a.xhtml".to_string(), level: 1 };
    let from_ncx = get_toc(Ok(Some(vec![entry.clone()])), Err("nav".to_string()), Err("docs".to_string())).unwrap();
    assert_eq!(from_ncx.len(), 1);
    assert_eq!(from_ncx[0].title, "T");

    let failed = get_toc(Ok(None), Err("nav roto".to_string()), Ok(Vec::new()));
    assert_eq!(failed.unwrap_err(), "nav roto");

    let docs = vec![DocToc {
        href: "Text/ch1.xhtml".to_string(),
        title: "ch1".to_string(),
        items: vec![heading(1, "Uno", "", false), heading(2, "Dos", "d2", true)],
        included: true,
    }];
    let from_headings = get_toc(Ok(None), Ok(None), Ok(docs.clone())).unwrap();
    let direct = toc_from_headings(&docs);
    assert_eq!(from_headings.len(), 2);
    assert_eq!(direct.len(), 2);
    assert_eq!(from_headings[0].href, "ch1.xhtml");
    assert_eq!(from_headings[1].href, "ch1.xhtml#d2");
    assert_eq!(from_headings[1].level, 2);
    assert_eq!(from_headings[1].title, "Dos");
}

fn entry_triples(entries: &[TocEntry]) -> Vec<(String, String, u8)> {
    entries.iter().map(|e| (e.title.clone(), e.href.clone(), e.level)).collect()
}

#[test]
fn ncx_entries_are_read_with_levels_and_package_paths() {
    let ncx = [
        "<?xml version=\"1.0\" encoding=\"UTF-8\"?>\n",
        "<!DOCTYPE ncx PUBLIC \"-//NISO//DTD ncx 2005-1//EN\" \"http://www.daisy.org/z3986/2005/ncx-2005-1.dtd\">\n",
        "<ncx xmlns=\"http://www.daisy.org/z3986/2005/ncx/\" version=\"2005-1\">\n",
        "<navMap>\n",
        "<navPoint id=\"p1\" playOrder=\"1\"><navLabel><text> Uno </text></navLabel><content src=\"Text/ch1.xhtml\"/>\n",
        "  <navPoint id=\"p2\" playOrder=\"2\"><navLabel><text>Dos</text></navLabel><content src=\"Text/ch1.xhtml#s2\"/></navPoint>\n",
        "</navPoint>\n",
        "<navPoint id=\"p3\"><navLabel><text></text></navLabel><content src=\"Text/ch3.xhtml\"/></navPoint>\n",
        "</navMap></ncx>\n",
    ]
    .concat();
    let entries = ncx_toc(&ncx, "/book/OEBPS", "/book/OEBPS").unwrap().unwrap();
    assert_eq!(
        entry_triples(&entries),
        vec![
            ("Uno".to_string(), "Text/ch1.xhtml".to_string(), 1),
            ("Dos".to_string(), "Text/ch1.xhtml#s2".to_string(), 2),
        ]
    );
    let outside = ncx_toc(&ncx, "/other", "/book/OEBPS").unwrap().unwrap();
    assert_eq!(outside[0].href, "Text/ch1.xhtml");

    let empty = "<ncx xmlns=\"http://www.daisy.org/z3986/2005/ncx/\"><navMap/></ncx>";
    assert!(ncx_toc(empty, "/b", "/b").unwrap().is_none());
    assert!(ncx_toc("<ncx><navMap></ncx>", "/b", "/b").unwrap_err().starts_with("XML error in toc.ncx: "));
}

#[test]
fn nav_entries_come_from_the_toc_nav_only() {
    let nav = [
        "<?xml version=\"1.0\" encoding=\"utf-8\"?>\n",
        "<!DOCTYPE html>\n",
        "<html xmlns=\"http://www.w3.org/1999/xhtml\" xmlns:epub=\"http://www.idpf.org/2007/ops\">\n",
        "<body>\n",
        "<nav epub:type=\"landmarks\"><ol><li><a href=\"x.xhtml\">Landmark</a></li></ol></nav>\n",
        "<nav epub:type=\"toc\" id=\"toc\"><h1>Índice</h1>\n",
        "<ol>\n",
        "<li><a href=\"ch1.xhtml\">Uno</a>\n",
        "<ol><li><a href=\"ch1.xhtml#s2\"> Dos </a></li></ol>\n",
        "</li>\n",
        "<li><a href=\"ch3.xhtml\"></a></li>\n",
        "<li><a>sin destino</a></li>\n",
        "</ol></nav></body></html>\n",
    ]
    .concat();
    let entries = nav_toc(&nav, "/book/OEBPS/Text", "/book/OEBPS").unwrap().unwrap();
    assert_eq!(
        entry_triples(&entries),
        vec![
            ("Uno".to_string(), "Text/ch1.xhtml".to_string(), 2),
            ("Dos".to_string(), "Text/ch1.xhtml#s2".to_string(), 3),
        ]
    );
    let no_toc = "<html><body><nav><ol><li><a href=\"a.xhtml\">A</a></li></ol></nav></body></html>";
    assert!(nav_toc(no_toc, "/b", "/b").unwrap().is_none());
    assert!(nav_toc("<html><body></html>", "/b", "/b").unwrap_err().starts_with("XML error in nav.xhtml: "));
}

#[test]
fn package_hrefs_are_relative_to_the_package_directory() {
    assert_eq!(package_href_exec("ch1.xhtml", "/book/OEBPS/Text", "/book/OEBPS"), "Text/ch1.xhtml");
    assert_eq!(package_href_exec("../Images/a.png", "/book/OEBPS/Text", "/book/OEBPS"), "Text/../Images/a.png");
    assert_eq!(package_href_exec("ch1.xhtml", "/elsewhere", "/book/OEBPS"), "ch1.xhtml");
}

#[test]
fn project_titles_fall_back_to_the_file_stem() {
    assert_eq!(project_title(Some("Niebla"), "/libros/otro.epub"), "Niebla");
    assert_eq!(project_title(None, "/libros/mi_libro.epub"), "mi_libro");
    assert_eq!(project_title(None, "/libros/proyecto"), "proyecto");
    assert_eq!(project_title(None, "/libros/.oculto"), ".oculto");
    assert_eq!(project_title(None, "/"), "Proyecto");
}

fn manifest_item(id: &str, href: &str, media_type: &str, properties: &str) -> ManifestItem {
    ManifestItem { id: id.to_string(), href: href.to_string(), media_type: media_type.to_string(), properties: properties.to_string() }
}

#[test]
fn only_xhtml_documents_of_the_reading_order_are_scanned() {
    let items = vec![
        manifest_item("c1", "Text/c1.xhtml", "application/xhtml+xml", ""),
        manifest_item("img", "Images/a.png", "image/png", ""),
        manifest_item("c2", "Text/c2.xhtml", "application/xhtml+xml", ""),
    ];
    let spine: Vec<String> = ["c2", "img", "missing", "c1"].iter().map(|s| s.to_string()).collect();
    assert_eq!(
        toc_documents(&spine, &items),
        vec![("c2".to_string(), "Text/c2.xhtml".to_string()), ("c1".to_string(), "Text/c1.xhtml".to_string())]
    );
}

#[test]
fn the_ncx_goes_where_the_manifest_says() {
    let plain = vec![manifest_item("c1", "Text/c1.xhtml", "application/xhtml+xml", "")];
    assert_eq!(ncx_plan(&plain, false), None);
    assert_eq!(ncx_plan(&plain, true), Some(("ncx".to_string(), "toc.ncx".to_string(), true)));
    let clash = vec![manifest_item("ncx", "Text/ncx.xhtml", "application/xhtml+xml", "")];
    assert_eq!(ncx_plan(&clash, true), Some(("ncx".to_string(), "toc.ncx".to_string(), false)));
    let listed = vec![
        manifest_item("c1", "Text/c1.xhtml", "application/xhtml+xml", ""),
        manifest_item("tabla", "Misc/indice.ncx", "application/x-dtbncx+xml", ""),
    ];
    assert_eq!(ncx_plan(&listed, false), Some(("tabla".to_string(), "Misc/indice.ncx".to_string(), false)));
    assert_eq!(ncx_dir("/libro/OEBPS", "Misc/indice.ncx"), "/libro/OEBPS/Misc");
    assert_eq!(ncx_dir("/libro/OEBPS", "toc.ncx"), "/libro/OEBPS");
    assert_eq!(toc_sources(&listed), (Some("Misc/indice.ncx".to_string()), None));
}

#[test]
fn navigation_files_are_registered_once() {
    let mut items = vec![manifest_item("c1", "Text/c1.xhtml", "application/xhtml+xml", "")];
    add_if_missing(&mut items, nav_manifest_item());
    add_if_missing(&mut items, nav_manifest_item());
    add_if_missing(&mut items, ncx_manifest_item("ncx", "toc.ncx"));
    assert_eq!(items.len(), 3);
    assert_eq!((items[1].id.as_str(), items[1].href.as_str(), items[1].media_type.as_str(), items[1].properties.as_str()),
        ("nav", "Text/nav.xhtml", "application/xhtml+xml", "nav"));
    assert_eq!((items[2].id.as_str(), items[2].href.as_str(), items[2].media_type.as_str(), items[2].properties.as_str()),
        ("ncx", "toc.ncx", "application/x-dtbncx+xml", ""));
    assert_eq!(toc_sources(&items), (Some("toc.ncx".to_string()), Some("Text/nav.xhtml".to_string())));
}
