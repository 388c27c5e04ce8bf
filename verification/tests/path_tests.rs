use xml2csv::xml_path::{Path, PathPart};

#[test]
fn parse_splits_names_and_indexes() {
    let p = Path::parse("a.1.b").unwrap();
    assert_eq!(p.parts.len(), 3);
    match &p.parts[0] {
        PathPart::Element(s) => assert_eq!(s.as_str(), "a"),
        _ => panic!("expected an element name"),
    }
    match &p.parts[1] {
        PathPart::Index(i) => assert_eq!(*i, 1),
        _ => panic!("expected an index"),
    }
    match &p.parts[2] {
        PathPart::Element(s) => assert_eq!(s.as_str(), "b"),
        _ => panic!("expected an element name"),
    }
}

#[test]
fn parse_empty_string_yields_one_empty_name() {
    let p = Path::parse("").unwrap();
    assert_eq!(p.parts.len(), 1);
    match &p.parts[0] {
        PathPart::Element(s) => assert_eq!(s.as_str(), ""),
        _ => panic!("expected an element name"),
    }
}

#[test]
fn parse_single_dot_yields_two_empty_names() {
    let p = Path::parse(".").unwrap();
    assert_eq!(p.parts.len(), 2);
    for part in &p.parts {
        match part {
            PathPart::Element(s) => assert_eq!(s.as_str(), ""),
            _ => panic!("expected an element name"),
        }
    }
}

#[test]
fn parse_plus_prefixed_token_is_a_name() {
    let p = Path::parse("+5").unwrap();
    assert_eq!(p.parts.len(), 1);
    match &p.parts[0] {
        PathPart::Element(s) => assert_eq!(s.as_str(), "+5"),
        _ => panic!("expected an element name"),
    }
}

#[test]
fn parse_digit_letter_token_is_a_name() {
    let p = Path::parse("1a").unwrap();
    match &p.parts[0] {
        PathPart::Element(s) => assert_eq!(s.as_str(), "1a"),
        _ => panic!("expected an element name"),
    }
}

#[test]
fn parse_leading_zeros_read_as_index() {
    let p = Path::parse("007").unwrap();
    assert_eq!(p.parts.len(), 1);
    match &p.parts[0] {
        PathPart::Index(i) => assert_eq!(*i, 7),
        _ => panic!("expected an index"),
    }
}

#[test]
fn parse_oversized_number_is_a_name() {
    let token = "123456789012345678901234567890";
    let p = Path::parse(token).unwrap();
    assert_eq!(p.parts.len(), 1);
    match &p.parts[0] {
        PathPart::Element(s) => assert_eq!(s.as_str(), token),
        _ => panic!("expected an element name"),
    }
}

#[test]
fn serialize_joins_with_dots() {
    let p = Path {
        parts: vec![
            PathPart::Element(String::from("a")),
            PathPart::Index(12),
            PathPart::Element(String::from("b")),
        ],
    };
    assert_eq!(p.to_string().as_str(), "a.12.b");
}

#[test]
fn serialize_empty_path_is_empty_string() {
    let p = Path { parts: vec![] };
    assert_eq!(p.to_string().as_str(), "");
}

#[test]
fn parts_to_string_renders_single_index() {
    let s = Path::parts_to_string(&[PathPart::Index(0)]);
    assert_eq!(s.as_str(), "0");
}

#[test]
fn reparse_of_serialization_is_stable() {
    let first = Path::parse("a.007.x.+9").unwrap();
    let rendered = first.to_string();
    assert_eq!(rendered.as_str(), "a.7.x.+9");
    let second = Path::parse(rendered.as_str()).unwrap();
    assert_eq!(second.to_string().as_str(), rendered.as_str());
    assert_eq!(first.parts.len(), second.parts.len());
    for (l, r) in first.parts.iter().zip(second.parts.iter()) {
        match (l, r) {
            (PathPart::Element(a), PathPart::Element(b)) => assert_eq!(a, b),
            (PathPart::Index(a), PathPart::Index(b)) => assert_eq!(a, b),
            _ => panic!("segment kinds differ after round trip"),
        }
    }
}
