use svg_sprites::ident::join_segments;
use svg_sprites::merge::{merge, transform_document, MergeItem, MergeOptions, SVGTag};
use svg_sprites::parse::{build_sprite, parse_svg, SourceContent};
use svg_sprites::walker::SVGFile;
use svg_sprites::xml::{lookup_attribute, remove_listed_attributes, XmlElement, XmlNode};

fn options(tag: SVGTag, separator: &str, attrs: Vec<&str>, elems: Vec<&str>) -> MergeOptions {
    MergeOptions {
        tag,
        separator: separator.to_string(),
        removed_attributes: attrs.into_iter().map(|s| s.to_string()).collect(),
        removed_elements: elems.into_iter().map(|s| s.to_string()).collect(),
    }
}

fn source(segments: Vec<&str>, path: &str, text: Option<&str>) -> SourceContent {
    SourceContent {
        file: SVGFile {
            tree_names: segments.into_iter().map(|s| s.to_string()).collect(),
            system_path: path.to_string(),
        },
        text: text.map(|s| s.to_string()),
    }
}

fn attr<'a>(el: &'a XmlElement, name: &str) -> Option<&'a String> {
    lookup_attribute(&el.attributes, &name.to_string())
}

#[test]
fn join_is_a_pure_function_of_segments_and_separator() {
    let segs = vec!["ui".to_string(), "close".to_string()];
    assert_eq!(join_segments(&segs, "-"), "ui-close".to_string());
    assert_eq!(join_segments(&segs, "-"), "ui-close".to_string());
    assert_eq!(join_segments(&segs, "_"), "ui_close".to_string());
    assert_eq!(join_segments(&vec!["arrow".to_string()], "-"), "arrow".to_string());
    assert_eq!(join_segments(&Vec::new(), "-"), "".to_string());
}

#[test]
fn round_trip_single_file_becomes_a_symbol() {
    let sources = vec![source(
        vec!["arrow"],
        "icons/arrow.svg",
        Some(r#"<svg viewBox="0 0 10 10"><path d="M0 0"/></svg>"#),
    )];
    let opts = options(SVGTag::Symbol, "-", vec![], vec![]);
    let out = build_sprite(sources, &opts);
    assert_eq!(out.name, "svg".to_string());
    assert!(out.namespaces.contains(&("".to_string(), "http://www.w3.org/2000/svg".to_string())));
    assert!(out.namespaces.contains(
        &("xlink".to_string(), "http://www.w3.org/1999/xlink".to_string()),
    ));
    assert_eq!(out.children.len(), 1);
    match &out.children[0] {
        XmlNode::Element(sym) => {
            assert_eq!(sym.name, "symbol".to_string());
            assert_eq!(attr(sym, "viewBox"), Some(&"0 0 10 10".to_string()));
            assert_eq!(attr(sym, "id"), Some(&"arrow".to_string()));
            assert_eq!(sym.children.len(), 1);
            match &sym.children[0] {
                XmlNode::Element(path) => {
                    assert_eq!(path.name, "path".to_string());
                    assert_eq!(attr(path, "d"), Some(&"M0 0".to_string()));
                },
                _ => panic!("expected the path element"),
            }
        },
        _ => panic!("expected one symbol element"),
    }
}

#[test]
fn removal_scenario_drops_title_and_keeps_nested_class() {
    let sources = vec![source(
        vec!["badge"],
        "icons/badge.svg",
        Some(r#"<svg class="x"><title>t</title><path class="y"/></svg>"#),
    )];
    let opts = options(SVGTag::G, "-", vec!["class"], vec!["title"]);
    let out = build_sprite(sources, &opts);
    assert_eq!(out.children.len(), 1);
    match &out.children[0] {
        XmlNode::Element(g) => {
            assert_eq!(g.name, "g".to_string());
            // the group kind never carries the viewBox, and the source root's
            // own attributes are discarded with the root
            assert_eq!(attr(g, "viewBox"), None);
            assert_eq!(attr(g, "class"), None);
            assert_eq!(attr(g, "id"), Some(&"badge".to_string()));
            assert_eq!(g.children.len(), 1);
            match &g.children[0] {
                XmlNode::Element(path) => {
                    assert_eq!(path.name, "path".to_string());
                    // removal applies to the direct child itself
                    assert_eq!(attr(path, "class"), None);
                },
                _ => panic!("expected the path element"),
            }
        },
        _ => panic!("expected one group element"),
    }
}

#[test]
fn attribute_removal_never_reaches_nested_descendants() {
    let doc = parse_svg(r#"<svg><g class="outer"><rect class="inner"/></g></svg>"#).unwrap();
    let opts = options(SVGTag::G, "-", vec!["class"], vec![]);
    let out = transform_document(doc, &vec!["x".to_string()], &opts);
    match &out.children[0] {
        XmlNode::Element(outer) => {
            assert_eq!(attr(outer, "class"), None);
            match &outer.children[0] {
                XmlNode::Element(inner) => {
                    assert_eq!(attr(inner, "class"), Some(&"inner".to_string()));
                },
                _ => panic!("expected the nested element"),
            }
        },
        _ => panic!("expected the outer element"),
    }
}

#[test]
fn filtering_preserves_order_and_drops_only_comments_and_listed_names() {
    let doc = parse_svg(
        "<svg>a<!-- note --><title>t</title><path/>b<rect/><!-- more --></svg>",
    )
    .unwrap();
    let opts = options(SVGTag::G, "-", vec![], vec!["title"]);
    let out = transform_document(doc, &vec!["x".to_string()], &opts);
    assert_eq!(out.children.len(), 4);
    match &out.children[0] {
        XmlNode::Text(t) => assert_eq!(t, &"a".to_string()),
        _ => panic!("expected leading text"),
    }
    match &out.children[1] {
        XmlNode::Element(e) => assert_eq!(e.name, "path".to_string()),
        _ => panic!("expected the path element"),
    }
    match &out.children[2] {
        XmlNode::Text(t) => assert_eq!(t, &"b".to_string()),
        _ => panic!("expected middle text"),
    }
    match &out.children[3] {
        XmlNode::Element(e) => assert_eq!(e.name, "rect".to_string()),
        _ => panic!("expected the rect element"),
    }
}

#[test]
fn group_kind_never_carries_the_viewbox() {
    let doc = parse_svg(r#"<svg viewBox="0 0 4 4"/>"#).unwrap();
    let opts = options(SVGTag::G, "-", vec![], vec![]);
    let out = transform_document(doc, &vec!["x".to_string()], &opts);
    assert_eq!(attr(&out, "viewBox"), None);
    assert_eq!(attr(&out, "id"), Some(&"x".to_string()));
}

#[test]
fn symbol_without_source_viewbox_gets_only_the_id() {
    let doc = parse_svg("<svg><path/></svg>").unwrap();
    let opts = options(SVGTag::Symbol, "-", vec![], vec![]);
    let out = transform_document(doc, &vec!["a".to_string(), "b".to_string()], &opts);
    assert_eq!(out.attributes, vec![("id".to_string(), "a-b".to_string())]);
}

#[test]
fn unparsable_sources_are_dropped_silently() {
    let sources = vec![
        source(vec!["bad"], "icons/bad.svg", Some("this is no document")),
        source(vec!["good"], "icons/good.svg", Some("<svg><path/></svg>")),
        source(vec!["unread"], "icons/unread.svg", None),
    ];
    let opts = options(SVGTag::Symbol, "-", vec![], vec![]);
    let out = build_sprite(sources, &opts);
    assert_eq!(out.children.len(), 1);
    match &out.children[0] {
        XmlNode::Element(sym) => assert_eq!(attr(sym, "id"), Some(&"good".to_string())),
        _ => panic!("expected the surviving symbol"),
    }
}

#[test]
fn empty_document_still_produces_its_sub_element() {
    let sources = vec![source(vec!["blank"], "icons/blank.svg", Some("<svg><!-- only --></svg>"))];
    let opts = options(SVGTag::Symbol, "-", vec![], vec![]);
    let out = build_sprite(sources, &opts);
    assert_eq!(out.children.len(), 1);
    match &out.children[0] {
        XmlNode::Element(sym) => {
            assert_eq!(sym.children.len(), 0);
            assert_eq!(attr(sym, "id"), Some(&"blank".to_string()));
        },
        _ => panic!("expected the empty symbol"),
    }
}

#[test]
fn parse_carries_the_document_into_the_model() {
    let doc = parse_svg(r#"<svg width="4"><g/>text</svg>"#).unwrap();
    assert_eq!(doc.name, "svg".to_string());
    assert_eq!(doc.attributes, vec![("width".to_string(), "4".to_string())]);
    assert_eq!(doc.children.len(), 2);
    assert!(parse_svg("<svg>").is_none());
    assert!(parse_svg("").is_none());
}

#[test]
fn merge_keeps_discovery_order() {
    let d1 = parse_svg("<svg><path/></svg>").unwrap();
    let d2 = parse_svg("<svg><rect/></svg>").unwrap();
    let items = vec![
        MergeItem {
            file: SVGFile { tree_names: vec!["one".to_string()], system_path: "1".to_string() },
            doc: Some(d1),
        },
        MergeItem {
            file: SVGFile { tree_names: vec!["two".to_string()], system_path: "2".to_string() },
            doc: None,
        },
        MergeItem {
            file: SVGFile { tree_names: vec!["three".to_string()], system_path: "3".to_string() },
            doc: Some(d2),
        },
    ];
    let opts = options(SVGTag::Symbol, ".", vec![], vec![]);
    let out = merge(items, &opts);
    assert_eq!(out.children.len(), 2);
    match (&out.children[0], &out.children[1]) {
        (XmlNode::Element(a), XmlNode::Element(b)) => {
            assert_eq!(attr(a, "id"), Some(&"one".to_string()));
            assert_eq!(attr(b, "id"), Some(&"three".to_string()));
        },
        _ => panic!("expected two symbol elements"),
    }
}

#[test]
fn attribute_removal_keeps_the_other_pairs_in_order() {
    let pairs = vec![
        ("a".to_string(), "1".to_string()),
        ("b".to_string(), "2".to_string()),
        ("a".to_string(), "3".to_string()),
        ("c".to_string(), "4".to_string()),
    ];
    let removed = vec!["a".to_string()];
    let kept = remove_listed_attributes(&pairs, &removed);
    assert_eq!(
        kept,
        vec![("b".to_string(), "2".to_string()), ("c".to_string(), "4".to_string())],
    );
    let untouched = remove_listed_attributes(&pairs, &Vec::new());
    assert_eq!(untouched, pairs);
}

#[test]
fn no_sources_still_produce_the_namespaced_root() {
    let opts = options(SVGTag::Symbol, "-", vec![], vec![]);
    let out = build_sprite(Vec::new(), &opts);
    assert_eq!(out.name, "svg".to_string());
    assert_eq!(out.children.len(), 0);
    assert_eq!(out.namespaces.len(), 2);
    assert!(out.attributes.is_empty());
}
