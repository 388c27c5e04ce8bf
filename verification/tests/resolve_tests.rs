use xml2csv::config::{ColumnType, Config, CsvColumn, Intrinsic};
use xml2csv::resolve::{resolve_column, resolve_row};
use xml2csv::xml_path::{Path, PathType};
use xml2csv::xml_tree::{ExtractionError, XmlElement, XmlNode};
use xml2csv::{get_default_save_path, verify_path_parser};

fn doc() -> XmlElement {
    XmlElement {
        name: String::from("root"),
        attributes: vec![],
        children: vec![XmlNode::Element(XmlElement {
            name: String::from("item"),
            attributes: vec![(String::from("id"), String::from("7"))],
            children: vec![XmlNode::Text(String::from("hi"))],
        })],
    }
}

fn path_column(title: &str, pt: PathType, default: Option<&str>) -> CsvColumn {
    CsvColumn {
        title: String::from(title),
        column_type: ColumnType::ExtractXmlPath {
            path: pt,
            default: default.map(String::from),
        },
    }
}

#[test]
fn default_recovers_missing_text() {
    let d = doc();
    let column = path_column(
        "t",
        PathType::PathText(Path::parse("item.nothing").unwrap()),
        Some("N/A"),
    );
    let r = resolve_column(&column, &d, "doc-1").unwrap();
    assert_eq!(r.as_str(), "N/A");
}

#[test]
fn no_text_without_default_escalates() {
    let empty = XmlElement {
        name: String::from("root"),
        attributes: vec![],
        children: vec![XmlNode::Element(XmlElement {
            name: String::from("bare"),
            attributes: vec![],
            children: vec![],
        })],
    };
    let column = path_column("t", PathType::PathText(Path::parse("bare").unwrap()), None);
    let e = resolve_column(&column, &empty, "doc-2").unwrap_err();
    assert_eq!(e.doc_identity.as_str(), "doc-2");
    assert_eq!(e.column_title.as_str(), "t");
    assert!(matches!(e.error, ExtractionError::NoTextContent));
}

#[test]
fn successful_extraction_ignores_default() {
    let d = doc();
    let column = path_column(
        "t",
        PathType::PathAttr(Path::parse("item.id").unwrap()),
        Some("N/A"),
    );
    let r = resolve_column(&column, &d, "doc-3").unwrap();
    assert_eq!(r.as_str(), "7");
}

#[test]
fn literal_resolves_regardless_of_document() {
    let column = CsvColumn {
        title: String::from("lit"),
        column_type: ColumnType::Text {
            text: String::from("N/A"),
        },
    };
    let d1 = doc();
    let d2 = XmlElement {
        name: String::from("other"),
        attributes: vec![],
        children: vec![],
    };
    assert_eq!(resolve_column(&column, &d1, "a").unwrap().as_str(), "N/A");
    assert_eq!(resolve_column(&column, &d2, "b").unwrap().as_str(), "N/A");
}

#[test]
fn intrinsic_resolves_to_identity() {
    let column = CsvColumn {
        title: String::from("file"),
        column_type: ColumnType::Intrinsic {
            intrinsic: Intrinsic::FilePath,
        },
    };
    let d = doc();
    let r = resolve_column(&column, &d, "some/dir/doc.xml").unwrap();
    assert_eq!(r.as_str(), "some/dir/doc.xml");
    let again = resolve_column(&column, &d, "some/dir/doc.xml").unwrap();
    assert_eq!(again.as_str(), "some/dir/doc.xml");
}

#[test]
fn row_resolves_in_configuration_order() {
    let config = Config {
        csv_columns: vec![
            path_column("id", PathType::PathAttr(Path::parse("item.id").unwrap()), None),
            path_column("text", PathType::PathText(Path::parse("item").unwrap()), None),
            path_column("count", PathType::PathLen(Path::parse("item").unwrap()), None),
            CsvColumn {
                title: String::from("lit"),
                column_type: ColumnType::Text {
                    text: String::from("N/A"),
                },
            },
            CsvColumn {
                title: String::from("file"),
                column_type: ColumnType::Intrinsic {
                    intrinsic: Intrinsic::FilePath,
                },
            },
        ],
    };
    let d = doc();
    let row = resolve_row(&config, &d, "doc.xml").unwrap();
    let values: Vec<&str> = row.iter().map(|s| s.as_str()).collect();
    assert_eq!(values, vec!["7", "hi", "1", "N/A", "doc.xml"]);
}

#[test]
fn row_stops_on_first_unrecovered_error() {
    let config = Config {
        csv_columns: vec![
            path_column("ok", PathType::PathText(Path::parse("item").unwrap()), None),
            path_column("bad", PathType::PathText(Path::parse("gone").unwrap()), None),
            path_column("later", PathType::PathText(Path::parse("item").unwrap()), None),
        ],
    };
    let d = doc();
    let e = resolve_row(&config, &d, "doc.xml").unwrap_err();
    assert_eq!(e.column_title.as_str(), "bad");
    assert!(matches!(e.error, ExtractionError::NodeNotFound(_, _)));
}

#[test]
fn titles_follow_configuration_order() {
    let config = Config {
        csv_columns: vec![
            CsvColumn {
                title: String::from("one"),
                column_type: ColumnType::Text {
                    text: String::from("1"),
                },
            },
            CsvColumn {
                title: String::from("two"),
                column_type: ColumnType::Text {
                    text: String::from("2"),
                },
            },
        ],
    };
    let titles = config.titles();
    let names: Vec<&str> = titles.iter().map(|s| s.as_str()).collect();
    assert_eq!(names, vec!["one", "two"]);
}

#[test]
fn path_argument_accepted_when_present() {
    let r = verify_path_parser("some/where", true).unwrap();
    assert_eq!(r.as_str(), "some/where");
}

#[test]
fn path_argument_rejected_when_absent() {
    let e = verify_path_parser("no/such", false).unwrap_err();
    assert_eq!(e.as_str(), "Path: 'no/such' doesn't exist");
}

#[test]
fn default_save_path_value() {
    assert_eq!(get_default_save_path().as_str(), "output.csv");
}
