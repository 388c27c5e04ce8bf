use xml2csv::xml_path::{Path, PathType};
use xml2csv::xml_tree::{extract_from_xml, ExtractionError, XmlElement, XmlNode};

fn elem(name: &str, attrs: &[(&str, &str)], children: Vec<XmlNode>) -> XmlElement {
    XmlElement {
        name: String::from(name),
        attributes: attrs
            .iter()
            .map(|(k, v)| (String::from(*k), String::from(*v)))
            .collect(),
        children,
    }
}

fn item_doc() -> XmlElement {
    // <root><item id="7">hi</item></root>
    elem(
        "root",
        &[],
        vec![XmlNode::Element(elem(
            "item",
            &[("id", "7")],
            vec![XmlNode::Text(String::from("hi"))],
        ))],
    )
}

fn text_path(s: &str) -> PathType {
    PathType::PathText(Path::parse(s).unwrap())
}

fn len_path(s: &str) -> PathType {
    PathType::PathLen(Path::parse(s).unwrap())
}

fn attr_path(s: &str) -> PathType {
    PathType::PathAttr(Path::parse(s).unwrap())
}

#[test]
fn text_mode_reads_direct_text() {
    let doc = item_doc();
    let r = extract_from_xml(&doc, &text_path("item")).unwrap();
    assert_eq!(r.as_str(), "hi");
}

#[test]
fn attr_mode_reads_attribute() {
    let doc = item_doc();
    let r = extract_from_xml(&doc, &attr_path("item.id")).unwrap();
    assert_eq!(r.as_str(), "7");
}

#[test]
fn len_mode_counts_text_child() {
    // Text is a child node in this tree model, so the item's child count
    // is one.
    let doc = item_doc();
    let r = extract_from_xml(&doc, &len_path("item")).unwrap();
    assert_eq!(r.as_str(), "1");
}

#[test]
fn len_mode_counts_all_child_kinds() {
    let doc = elem(
        "root",
        &[],
        vec![XmlNode::Element(elem(
            "box",
            &[],
            vec![
                XmlNode::Element(elem("a", &[], vec![])),
                XmlNode::Element(elem("b", &[], vec![])),
                XmlNode::Text(String::from("stray")),
            ],
        ))],
    );
    let r = extract_from_xml(&doc, &len_path("box")).unwrap();
    assert_eq!(r.as_str(), "3");
}

#[test]
fn len_mode_by_index_step() {
    let doc = elem(
        "root",
        &[],
        vec![
            XmlNode::Element(elem("a", &[], vec![])),
            XmlNode::Element(elem("b", &[], vec![XmlNode::Text(String::from("x"))])),
        ],
    );
    let r = extract_from_xml(&doc, &len_path("1")).unwrap();
    assert_eq!(r.as_str(), "1");
}

#[test]
fn mixed_name_and_index_traversal() {
    // <root><list><a/>text<b><leaf deep="yes">found</leaf></b></list></root>
    let doc = elem(
        "root",
        &[],
        vec![XmlNode::Element(elem(
            "list",
            &[],
            vec![
                XmlNode::Element(elem("a", &[], vec![])),
                XmlNode::Text(String::from("text")),
                XmlNode::Element(elem(
                    "b",
                    &[],
                    vec![XmlNode::Element(elem(
                        "leaf",
                        &[("deep", "yes")],
                        vec![XmlNode::Text(String::from("found"))],
                    ))],
                )),
            ],
        ))],
    );
    let r = extract_from_xml(&doc, &text_path("list.2.leaf")).unwrap();
    assert_eq!(r.as_str(), "found");
    let r = extract_from_xml(&doc, &attr_path("list.2.leaf.deep")).unwrap();
    assert_eq!(r.as_str(), "yes");
    // Index 1 of <list> is the text node, not an element.
    let r = extract_from_xml(&doc, &text_path("list.1"));
    assert!(matches!(r, Err(ExtractionError::NotAnElement(1))));
}

#[test]
fn attr_mode_rejects_index_as_attribute_name() {
    let doc = elem(
        "root",
        &[],
        vec![XmlNode::Element(elem(
            "a",
            &[],
            vec![
                XmlNode::Element(elem("b", &[], vec![])),
                XmlNode::Element(elem("c", &[], vec![])),
            ],
        ))],
    );
    // A child exists at index 1 of <a>; the path still fails.
    let r = extract_from_xml(&doc, &attr_path("a.1"));
    assert!(matches!(r, Err(ExtractionError::IndexUsedAsAttributeName)));
    // No child exists at index 5; the failure is the same.
    let r = extract_from_xml(&doc, &attr_path("a.5"));
    assert!(matches!(r, Err(ExtractionError::IndexUsedAsAttributeName)));
}

#[test]
fn text_mode_without_text_fails() {
    let doc = elem(
        "root",
        &[],
        vec![XmlNode::Element(elem("empty", &[], vec![]))],
    );
    let r = extract_from_xml(&doc, &text_path("empty"));
    assert!(matches!(r, Err(ExtractionError::NoTextContent)));
}

#[test]
fn text_mode_concatenates_text_and_cdata() {
    let doc = elem(
        "root",
        &[],
        vec![XmlNode::Element(elem(
            "mix",
            &[],
            vec![
                XmlNode::Text(String::from("a")),
                XmlNode::CData(String::from("b")),
                XmlNode::Element(elem("skip", &[], vec![])),
                XmlNode::Comment(String::from("ignored")),
                XmlNode::Text(String::from("c")),
            ],
        ))],
    );
    let r = extract_from_xml(&doc, &text_path("mix")).unwrap();
    assert_eq!(r.as_str(), "abc");
}

#[test]
fn name_lookup_takes_first_match() {
    let doc = elem(
        "root",
        &[],
        vec![
            XmlNode::Element(elem("x", &[], vec![XmlNode::Text(String::from("first"))])),
            XmlNode::Element(elem("x", &[], vec![XmlNode::Text(String::from("second"))])),
        ],
    );
    let r = extract_from_xml(&doc, &text_path("x")).unwrap();
    assert_eq!(r.as_str(), "first");
}

#[test]
fn missing_node_error_carries_name_and_path() {
    let doc = item_doc();
    let r = extract_from_xml(&doc, &text_path("item.missing.deep"));
    match r {
        Err(ExtractionError::NodeNotFound(name, path)) => {
            assert_eq!(name.as_str(), "missing");
            assert_eq!(path.as_str(), "item.missing.deep");
        }
        _ => panic!("expected NodeNotFound"),
    }
}

#[test]
fn index_out_of_range_error() {
    let doc = item_doc();
    let r = extract_from_xml(&doc, &text_path("3"));
    assert!(matches!(r, Err(ExtractionError::IndexOutOfRange(3))));
}

#[test]
fn non_element_child_error() {
    let doc = elem("root", &[], vec![XmlNode::Text(String::from("plain"))]);
    let r = extract_from_xml(&doc, &text_path("0"));
    assert!(matches!(r, Err(ExtractionError::NotAnElement(0))));
}

#[test]
fn missing_attribute_error() {
    let doc = item_doc();
    let r = extract_from_xml(&doc, &attr_path("item.absent"));
    match r {
        Err(ExtractionError::AttributeNotFound(name)) => assert_eq!(name.as_str(), "absent"),
        _ => panic!("expected AttributeNotFound"),
    }
}

#[test]
fn empty_attribute_path_error() {
    let doc = item_doc();
    let r = extract_from_xml(&doc, &PathType::PathAttr(Path { parts: vec![] }));
    assert!(matches!(r, Err(ExtractionError::EmptyPath)));
}

#[test]
fn empty_string_path_is_an_empty_name_lookup() {
    // "" parses to one empty-name segment, which is a child lookup like
    // any other, not a reference to the root itself.
    let doc = elem("root", &[], vec![XmlNode::Text(String::from("top"))]);
    let r = extract_from_xml(&doc, &text_path(""));
    assert!(matches!(r, Err(ExtractionError::NodeNotFound(_, _))));
}
