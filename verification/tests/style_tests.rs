use folio_core::css::{parse_declarations, matching_rules, matching_rules_in_parent, matching_rules_with_ancestors, parse_css};
use folio_core::style::{
    inherit_style, resolve_style, resolve_style_in_parent, resolve_style_with_ancestors, TextAlign,
};
use folio_core::fonts::FontNameMap;

#[test]
fn parse_font_face_rules() {
    let css = r#"
        @font-face { font-family: "Nikona"; src: url(../Fonts/Nikona.otf); }
        @font-face { font-family: "Nikona-B"; src: url('../Fonts/Nikona-B.otf'); font-weight: bold; }
        @font-face { font-family: "DIN"; src: url(../Fonts/DIN.otf); font-style: italic; }
    "#;
    let (rules, faces) = parse_css(css);
    assert!(rules.is_empty());
    assert_eq!(faces.len(), 3);
    assert_eq!(faces[0].family, "Nikona");
    assert_eq!(faces[0].src, "../Fonts/Nikona.otf");
    assert_eq!(faces[0].weight, 400);
    assert!(!faces[0].italic);
    assert_eq!(faces[1].family, "Nikona-B");
    assert_eq!(faces[1].src, "../Fonts/Nikona-B.otf");
    assert_eq!(faces[1].weight, 700);
    assert!(!faces[1].italic);
    assert_eq!(faces[2].family, "DIN");
    assert_eq!(faces[2].src, "../Fonts/DIN.otf");
    assert!(faces[2].italic);
}

#[test]
fn descendant_selectors_do_not_match_without_ancestor_context() {
    let css = r#"
        b, strong, .negrita, negrita p { font-weight: bold; }
        .ftq { font-family: "DINNextLTPro"; }
    "#;
    let (rules, _) = parse_css(css);

    let p = resolve_style("p", &[], &rules);
    assert!(!p.bold, "plain paragraphs must not match `negrita p`");

    let ftq = resolve_style("p", &["ftq".to_string()], &rules);
    assert_eq!(ftq.font_family.as_deref(), Some("DINNextLTPro"));
    assert!(!ftq.bold, ".ftq must not become bold through `negrita p`");
}

#[test]
fn simple_class_and_tag_selectors_still_match() {
    let css = r#"
        h1 { font-weight: bold; }
        .ft1 { font-family: "Nikona"; }
    "#;
    let (rules, _) = parse_css(css);

    let h1 = resolve_style("h1", &["ft1".to_string()], &rules);
    assert!(h1.bold);
    assert_eq!(h1.font_family.as_deref(), Some("Nikona"));
}

#[test]
fn separate_css_families_do_not_alias_by_suffix() {
    let mut map = FontNameMap::default();
    let nikona = "Nikona".to_string();
    let nikona_b = "Nikona-B".to_string();

    map.insert_variant("Nikona".into(), false, false, nikona.clone());
    map.insert_variant("Nikona-B".into(), true, false, nikona_b.clone());

    assert_eq!(map.resolve("Nikona", false, false), Some((nikona.clone(), false, false)));
    assert_eq!(map.resolve("Nikona", true, false), Some((nikona, false, false)));
    assert_eq!(map.resolve("Nikona-B", false, false), Some((nikona_b.clone(), true, false)));
    assert_eq!(map.resolve("Nikona-B", true, false), Some((nikona_b, true, false)));
}

#[test]
fn same_css_family_uses_declared_weight_variants() {
    let mut map = FontNameMap::default();
    let din_regular = "DINNextLTPro".to_string();
    let din_bold = "DINNextLTPro Bold".to_string();

    map.insert_variant("DINNextLTPro".into(), false, false, din_regular.clone());
    map.insert_variant("DINNextLTPro".into(), true, false, din_bold.clone());

    assert_eq!(map.resolve("DINNextLTPro", false, false), Some((din_regular, false, false)));
    assert_eq!(map.resolve("DINNextLTPro", true, false), Some((din_bold, true, false)));
}

fn declared(rules: &[folio_core::css::CssRule], matched: &[usize], key: &str) -> Option<String> {
    matched.iter().filter_map(|&i| rules[i].properties.get(key).cloned()).last()
}

#[test]
fn image_rule_matches_inside_heading_context() {
    let (rules, _) = parse_css("h3 img { width: 2em; height: 1.5em; vertical-align: middle; }");
    let matched = matching_rules_in_parent("img", &[], Some("h3"), &rules);

    assert_eq!(matched, vec![0]);
    assert_eq!(declared(&rules, &matched, "width").as_deref(), Some("2em"));
    assert_eq!(declared(&rules, &matched, "height").as_deref(), Some("1.5em"));
    assert!(matching_rules("img", &[], &rules).is_empty());
    let style = resolve_style_in_parent("img", &[], Some("h3"), &rules);
    assert!(style.vertical_middle);
}

#[test]
fn resolves_drop_cap_float_and_relative_size() {
    let (rules, _) = parse_css(
        ".capitular { float: left; font-size: 3.2em; margin: -0.1em 0.025em -0.2em 0; }",
    );
    let matched = matching_rules("span", &["capitular".to_string()], &rules);
    let style = resolve_style("span", &["capitular".to_string()], &rules);

    assert!(style.float_left);
    assert_eq!(declared(&rules, &matched, "font-size").as_deref(), Some("3.2em"));
    assert_eq!(declared(&rules, &matched, "margin").as_deref(), Some("-0.1em 0.025em -0.2em 0"));
}

#[test]
fn resolves_table_descendants_even_rows_and_visual_properties() {
    let (rules, _) = parse_css(
        r#"
        .tabla th { background-color: #3498db; color: white; padding: 12px; }
        .tabla tr:nth-child(even) { background-color: #f2f2f2; }
        .tabla td { border: 2px dashed #764ba2; font-family: Verdana; }
        "#,
    );
    let table_classes = vec!["tabla".to_string()];
    let even_classes = vec!["__folio-even".to_string()];
    let no_classes: Vec<String> = Vec::new();
    let table: (&str, &[String]) = ("table", &table_classes);

    let heading = matching_rules_with_ancestors("th", &no_classes, &[table], &rules);
    assert_eq!(declared(&rules, &heading, "padding").as_deref(), Some("12px"));
    assert_eq!(declared(&rules, &heading, "color").as_deref(), Some("white"));

    let row = matching_rules_with_ancestors("tr", &even_classes, &[table], &rules);
    assert!(declared(&rules, &row, "background-color").is_some());

    let cell = matching_rules_with_ancestors("td", &no_classes, &[table], &rules);
    assert_eq!(declared(&rules, &cell, "border").as_deref(), Some("2px dashed #764ba2"));
    let cell_style = resolve_style_with_ancestors("td", &no_classes, &[table], &rules);
    assert!(cell_style.border_dashed);
    assert_eq!(cell_style.font_family.as_deref(), Some("Verdana"));
}

#[test]
fn resolves_gradient_text_shadow_transform_and_spacing() {
    let (rules, _) = parse_css(
        r#"h4 {
            background: linear-gradient(to right, #8e44ad, #3498db);
            -webkit-background-clip: text;
            -webkit-text-fill-color: transparent;
            text-shadow: 2px 2px 4px rgba(0,0,0,0.2);
            text-transform: uppercase;
            letter-spacing: 2px;
        }"#,
    );
    let matched = matching_rules("h4", &[], &rules);
    assert_eq!(
        declared(&rules, &matched, "background").as_deref(),
        Some("linear-gradient(to right, #8e44ad, #3498db)")
    );
    assert_eq!(declared(&rules, &matched, "-webkit-text-fill-color").as_deref(), Some("transparent"));
    assert_eq!(declared(&rules, &matched, "text-shadow").as_deref(), Some("2px 2px 4px rgba(0,0,0,0.2)"));
    assert_eq!(declared(&rules, &matched, "letter-spacing").as_deref(), Some("2px"));
    let style = resolve_style("h4", &[], &rules);
    assert!(style.uppercase);
    assert!(style.text_transparent);
    assert!(style.background_clip_text);
}

#[test]
fn keyword_declarations_set_their_style_facts() {
    let (rules, _) = parse_css(
        r#"
        p { font-family: 'Palatino Linotype', serif; font-weight: 800; font-style: oblique;
            text-decoration: underline overline; text-align: justify; list-style-type:  disc ; }
        p.centro { text-align: center; font-weight: normal; }
        li { border-left: 1px dotted red; float: LEFT; text-transform: Uppercase; }
        "#,
    );
    let p = resolve_style("p", &[], &rules);
    assert_eq!(p.font_family.as_deref(), Some("Palatino Linotype"));
    assert!(p.bold && p.italic && p.underline);
    assert_eq!(p.align, Some(TextAlign::Left));
    assert_eq!(p.list_style.as_deref(), Some("disc"));
    assert!(!p.float_left && !p.border_dashed);

    let centred = resolve_style("p", &["centro".to_string()], &rules);
    assert_eq!(centred.align, Some(TextAlign::Center));
    assert!(!centred.bold, "a later rule's weight replaces an earlier one");

    let li = resolve_style("li", &[], &rules);
    assert!(li.border_dashed && li.float_left && li.uppercase);
    assert_eq!(li.font_family, None);
}

#[test]
fn children_inherit_family_and_emphasis() {
    let (rules, _) = parse_css(
        "ol { font-family: Verdana; font-weight: bold; text-transform: uppercase; } li { font-style: italic; text-align: right; }",
    );
    let list = resolve_style("ol", &[], &rules);
    let item = resolve_style("li", &[], &rules);
    let inherited = inherit_style(&list, &item);
    assert_eq!(inherited.font_family.as_deref(), Some("Verdana"));
    assert!(inherited.bold && inherited.italic && inherited.uppercase);
    assert_eq!(inherited.align, Some(TextAlign::Right));
    let back = inherit_style(&item, &list);
    assert_eq!(back.align, None);
    assert!(back.italic);
}

#[test]
fn the_last_declaration_of_a_property_wins() {
    let d = parse_declarations("color: red; font-size: 2em; COLOR : blue ; margin:; : x; bare");
    assert_eq!(d.get("color").map(String::as_str), Some("blue"));
    assert_eq!(d.get("font-size").map(String::as_str), Some("2em"));
    assert_eq!(d.get("margin"), None);
    assert_eq!(d.len(), 2);
}
