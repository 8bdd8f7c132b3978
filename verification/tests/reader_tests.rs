use folio_core::content::{parse_xhtml, parse_xhtml_with_css, ContentBlock, InlineBlockKind, InlineNode};
use folio_core::entities::{decode_entities, split_preserving_spaces};
use folio_core::images::{placeholder_label, raster_dimensions, ImageMetadataCache};
use folio_core::navigation::recent_shortcut_index;

#[test]
fn maps_ctrl_number_shortcuts_to_recent_book_indexes() {
    assert_eq!(recent_shortcut_index("1"), Some(0));
    assert_eq!(recent_shortcut_index("9"), Some(8));
    assert_eq!(recent_shortcut_index("0"), None);
    assert_eq!(recent_shortcut_index("10"), None);
    assert_eq!(recent_shortcut_index("o"), None);
}

#[test]
fn decodes_decimal_and_hexadecimal_numeric_entities() {
    assert_eq!(decode_entities("A&#160;B"), "A B");
    assert_eq!(decode_entities("&#x41;&#X42;"), "AB");
    assert_eq!(decode_entities("&#225;"), "á");
}

#[test]
fn reads_png_dimensions() {
    let mut png = vec![0; 24];
    png[..8].copy_from_slice(b"\x89PNG\r\n\x1a\n");
    png[16..20].copy_from_slice(&640_u32.to_be_bytes());
    png[20..24].copy_from_slice(&480_u32.to_be_bytes());
    assert_eq!(raster_dimensions(&png), Some((640, 480)));
}

#[test]
fn reads_jpeg_dimensions() {
    let mut jpeg = vec![0; 21];
    jpeg[..6].copy_from_slice(&[0xff, 0xd8, 0xff, 0xc0, 0x00, 0x11]);
    jpeg[6] = 8;
    jpeg[7..9].copy_from_slice(&720_u16.to_be_bytes());
    jpeg[9..11].copy_from_slice(&1280_u16.to_be_bytes());
    assert_eq!(raster_dimensions(&jpeg), Some((1280, 720)));
}

#[test]
fn reads_webp_dimensions() {
    let mut webp = vec![0; 30];
    webp[..4].copy_from_slice(b"RIFF");
    webp[8..12].copy_from_slice(b"WEBP");
    webp[12..16].copy_from_slice(b"VP8X");
    webp[24..27].copy_from_slice(&[0xff, 0x03, 0x00]);
    webp[27..30].copy_from_slice(&[0xff, 0x01, 0x00]);
    assert_eq!(raster_dimensions(&webp), Some((1024, 512)));
}

#[test]
fn svg_placeholder_is_explicit() {
    assert_eq!(placeholder_label("cover.svg", "Portada"), "SVG no soportado: Portada");
}

#[test]
fn metadata_cache_does_not_read_the_same_path_twice() {
    let mut png = vec![0; 24];
    png[..8].copy_from_slice(b"\x89PNG\r\n\x1a\n");
    png[16..20].copy_from_slice(&320_u32.to_be_bytes());
    png[20..24].copy_from_slice(&240_u32.to_be_bytes());
    let path = "/tmp/folio-image-metadata.png";

    let mut cache = ImageMetadataCache::new();
    let first = png.clone();
    assert_eq!(cache.dimensions(path, move || Some(first)), Some((320, 240)));
    assert_eq!(cache.dimensions(path, || Some(Vec::new())), Some((320, 240)));
}

#[test]
fn parse_preserves_block_classes() {
    let html = r#"<h1 class="ft1">Título</h1><p><span class="ft2">Hola</span> mundo</p>"#;
    let blocks = parse_xhtml(html);
    assert_eq!(blocks.len(), 2);
    match &blocks[0] {
        ContentBlock::Heading { level, spans, classes } => {
            assert_eq!(*level, 1);
            assert_eq!(classes, &["ft1"]);
            assert_eq!(spans.len(), 1);
            assert_eq!(spans[0].text, "Título");
        }
        _ => panic!("expected heading"),
    }
    match &blocks[1] {
        ContentBlock::Paragraph { spans, classes } => {
            assert!(classes.is_empty());
            assert_eq!(spans.len(), 2);
            assert_eq!(spans[0].classes, &["ft2"]);
            assert_eq!(spans[0].text, "Hola");
            assert_eq!(spans[1].text, " mundo");
        }
        _ => panic!("expected paragraph"),
    }
}

#[test]
fn image_inside_heading_is_preserved_in_inline_order() {
    let html = r#"<h2 class="litos">CAPÍTULO 1<img class="fighter" src="title.jpg" />DUQUE TIAGO</h2>"#;
    let blocks = parse_xhtml(html);

    assert_eq!(blocks.len(), 1);
    let ContentBlock::Inline { kind: InlineBlockKind::Heading(2), nodes, classes } = &blocks[0] else {
        panic!("expected mixed inline heading");
    };
    assert_eq!(classes, &["litos"]);
    assert!(matches!(&nodes[0], InlineNode::Text(span) if span.text == "CAPÍTULO 1"));
    assert!(
        matches!(&nodes[1], InlineNode::Image { src, classes, .. } if src == "title.jpg" && classes == &["fighter"])
    );
    assert!(matches!(&nodes[2], InlineNode::Text(span) if span.text == "DUQUE TIAGO"));
}

#[test]
fn heading_preserves_small_text_and_explicit_line_break() {
    let html = r#"<h1 title="Lo que ha pasado antes"><small>LO QUE HA PASADO ANTES</small> <br/><span class="stt"><small>&#160;</small></span></h1>"#;
    let blocks = parse_xhtml(html);

    assert_eq!(blocks.len(), 1);
    let ContentBlock::Inline { kind: InlineBlockKind::Heading(1), nodes, .. } = &blocks[0] else {
        panic!("expected inline heading");
    };
    assert!(matches!(&nodes[0], InlineNode::Text(span)
        if span.text == "LO QUE HA PASADO ANTES"
            && span.classes.iter().any(|class| class == "__folio-small")));
    assert!(nodes.iter().any(|node| matches!(node, InlineNode::LineBreak)));
    assert!(nodes.iter().any(|node| matches!(node, InlineNode::Text(span)
        if span.classes.iter().any(|class| class == "stt")
            && span.classes.iter().any(|class| class == "__folio-small")
            && !span.text.contains("160"))));
}

#[test]
fn parses_tables_and_bulleted_lists_as_structured_blocks() {
    let html = r#"
        <h1 class="center">Capítulo 2</h1>
        <table><thead><tr>
            <th>Columna 1</th><th>Columna 2</th><th>Columna 3</th><th>Columna 4</th>
        </tr></thead><tbody>
            <tr><td>1-1</td><td>1-2</td><td>1-3</td><td>1-4</td></tr>
            <tr><td>2-1</td><td>2-2</td><td>2-3</td><td>2-4</td></tr>
            <tr><td>3-1</td><td>3-2</td><td>3-3</td><td>3-4</td></tr>
        </tbody></table>
        <ul><li>Uno</li><li>Dos</li><li>Tres</li><li>Cuatro</li><li>Cinco</li></ul>
    "#;
    let blocks = parse_xhtml(html);

    let table = blocks
        .iter()
        .find_map(|block| match block {
            ContentBlock::Table { rows, .. } => Some(rows),
            _ => None,
        })
        .expect("table block");
    assert_eq!(table.len(), 4);
    assert!(table.iter().all(|row| row.cells.len() == 4));
    assert!(table[0].cells.iter().all(|cell| cell.header));

    let items = blocks
        .iter()
        .find_map(|block| match block {
            ContentBlock::List { ordered, items, .. } if !ordered => Some(items),
            _ => None,
        })
        .expect("unordered list block");
    assert_eq!(items.len(), 5);
}

#[test]
fn extracts_embedded_and_inline_css_without_rendering_style_text() {
    let html = r#"
        <html><head><style>.rojo { color: #e74c3c; }</style></head>
        <body><h1 class="rojo" style="padding: 10px;">Título</h1></body></html>
    "#;
    let (blocks, rules) = parse_xhtml_with_css(html);

    assert_eq!(blocks.len(), 1);
    let ContentBlock::Heading { spans, classes, .. } = &blocks[0] else {
        panic!("expected heading");
    };
    assert_eq!(spans[0].text, "Título");
    assert!(classes.iter().any(|class| class == "rojo"));
    assert!(classes.iter().any(|class| class.starts_with("__folio_inline_")));
    assert!(rules.iter().any(|rule| rule.selector == ".rojo"));
    assert!(rules.iter().any(|rule| {
        rule.selector.starts_with(".__folio_inline_")
            && rule.properties.get("padding").is_some_and(|value| value == "10px")
    }));
}

#[test]
fn parse_preserves_spaces_between_mixed_inline_styles() {
    let html = "<p>Hola <strong>mundo</strong>, cómo va.</p>";
    let blocks = parse_xhtml(html);

    let ContentBlock::Paragraph { spans, .. } = &blocks[0] else {
        panic!("expected paragraph");
    };
    assert_eq!(spans.iter().map(|span| span.text.as_str()).collect::<String>(), "Hola mundo, cómo va.");
    assert_eq!(spans.len(), 3);
    assert_eq!(spans[0].text, "Hola ");
    assert!(spans[1].bold);
    assert_eq!(spans[1].text, "mundo");
    assert_eq!(spans[2].text, ", cómo va.");
}

#[test]
fn split_preserves_word_and_space_boundaries() {
    assert_eq!(
        split_preserving_spaces("Hola  mundo, cómo va."),
        vec!["Hola", "  ", "mundo,", " ", "cómo", " ", "va."]
    );
}

#[test]
fn split_runs_join_back_and_alternate() {
    let text = " \tuno\u{a0}dos  tres\n";
    let runs = split_preserving_spaces(text);
    assert_eq!(runs.concat(), text);
    assert_eq!(runs, vec![" \t", "uno", "\u{a0}", "dos", "  ", "tres", "\n"]);
    for pair in runs.windows(2) {
        let first = pair[0].chars().next().unwrap().is_whitespace();
        let second = pair[1].chars().next().unwrap().is_whitespace();
        assert_ne!(first, second);
    }
    assert!(split_preserving_spaces("").is_empty());
}

#[test]
fn svg_documents_give_no_size_however_they_open() {
    assert_eq!(raster_dimensions(b"<svg xmlns='http://www.w3.org/2000/svg' width='10' height='10'/>"), None);
    assert_eq!(raster_dimensions(b"  \n<svg width='10' height='10'/>"), None);
    assert_eq!(raster_dimensions(b"\xef\xbb\xbf<?xml version='1.0'?><svg width='10' height='10'/>"), None);
    assert_eq!(raster_dimensions(b""), None);
}

fn run_texts(blocks: &[ContentBlock]) -> Vec<String> {
    let mut texts = Vec::new();
    for block in blocks {
        match block {
            ContentBlock::Heading { spans, .. } | ContentBlock::Paragraph { spans, .. } => {
                texts.extend(spans.iter().map(|s| s.text.clone()));
            }
            ContentBlock::Inline { nodes, .. } => {
                for node in nodes {
                    if let InlineNode::Text(span) = node {
                        texts.push(span.text.clone());
                    }
                }
            }
            ContentBlock::List { items, .. } => {
                for item in items {
                    texts.extend(item.spans.iter().map(|s| s.text.clone()));
                }
            }
            _ => {}
        }
    }
    texts
}

#[test]
fn parsed_runs_are_collapsed_and_never_empty() {
    let html = "<h2>\n  Uno \t dos\u{a0}\u{a0}tres </h2><p>  <b> negrita </b>  y\n\n <i>cursiva</i>  </p>\
                <p><span class=\"a\"> </span>Hola</p><p>  </p><ul><li>  uno  <b>dos</b>  </li><li> </li></ul>\
                <p>antes <br/>  después</p>";
    let blocks = parse_xhtml(html);
    let texts = run_texts(&blocks);
    assert!(!texts.is_empty());
    for text in &texts {
        assert!(!text.is_empty());
        assert!(text.chars().all(|c| c == ' ' || !c.is_whitespace()), "{text:?}");
        assert!(!text.contains("  "), "{text:?}");
    }
    assert_eq!(texts[0], "Uno dos tres");
}
