//! The document tree and the extraction engine.
//!
//! The tree mirrors the shape a tree-parsing collaborator hands over: an
//! element has a name, attributes, and an ordered list of child nodes of
//! all kinds. Text is represented as child nodes, so the child-count mode
//! counts text nodes along with everything else, and the text mode
//! concatenates the direct text and character-data children.
//!
//! Traversal follows every segment of the path for the text and
//! child-count modes; for the attribute mode it follows all segments but
//! the last, which names the attribute to read. A name segment finds the
//! first child element with that name; later siblings with the same name
//! are never visited.

use vstd::prelude::*;
use crate::digits::dec_rep;
use crate::digits::usize_to_string;
use crate::xml_path::{Path, PathPart, PathPartView, PathType, serialize_parts};

verus! {

/// One child of an element: an element, or one of the non-element node
/// kinds the tree representation keeps.
#[derive(Debug)]
pub enum XmlNode {
    Element(XmlElement),
    Comment(String),
    CData(String),
    Text(String),
    ProcessingInstruction(String, Option<String>),
}

/// An element of the document tree.
#[derive(Debug)]
pub struct XmlElement {
    pub name: String,
    pub attributes: Vec<(String, String)>,
    pub children: Vec<XmlNode>,
}

/// A failed extraction, by cause.
#[derive(Debug)]
pub enum ExtractionError {
    /// No direct child element has the wanted name; carries the name and
    /// the whole path, serialized.
    NodeNotFound(String, String),
    IndexOutOfRange(usize),
    /// The child at the index exists but is not an element.
    NotAnElement(usize),
    NoTextContent,
    AttributeNotFound(String),
    /// The last segment of an attribute path must be a name, not an index.
    IndexUsedAsAttributeName,
    /// An attribute path with no segments at all; unreachable through
    /// parsing, which always yields at least one segment.
    EmptyPath,
}

/// Mathematical model of an extraction failure.
pub enum ExtractionErrorView {
    NodeNotFound(Seq<char>, Seq<char>),
    IndexOutOfRange(nat),
    NotAnElement(nat),
    NoTextContent,
    AttributeNotFound(Seq<char>),
    IndexUsedAsAttributeName,
    EmptyPath,
}

impl View for ExtractionError {
    type V = ExtractionErrorView;

    open spec fn view(&self) -> ExtractionErrorView {
        match self {
            ExtractionError::NodeNotFound(name, path) => ExtractionErrorView::NodeNotFound(
                name@,
                path@,
            ),
            ExtractionError::IndexOutOfRange(i) => ExtractionErrorView::IndexOutOfRange(*i as nat),
            ExtractionError::NotAnElement(i) => ExtractionErrorView::NotAnElement(*i as nat),
            ExtractionError::NoTextContent => ExtractionErrorView::NoTextContent,
            ExtractionError::AttributeNotFound(name) => ExtractionErrorView::AttributeNotFound(
                name@,
            ),
            ExtractionError::IndexUsedAsAttributeName
                => ExtractionErrorView::IndexUsedAsAttributeName,
            ExtractionError::EmptyPath => ExtractionErrorView::EmptyPath,
        }
    }
}

/// A failed traversal step, before the whole path is attached to a
/// not-found name.
pub enum StepError {
    NotFound(Seq<char>),
    OutOfRange(nat),
    NotElement(nat),
}

/// The first direct child element with the given name, if any.
pub open spec fn first_child_elem(children: Seq<XmlNode>, name: Seq<char>) -> Option<XmlElement>
    decreases children.len(),
{
    if children.len() == 0 {
        None
    } else {
        match children[0] {
            XmlNode::Element(e) => if e.name@ == name {
                Some(e)
            } else {
                first_child_elem(children.drop_first(), name)
            },
            _ => first_child_elem(children.drop_first(), name),
        }
    }
}

/// One traversal step from an element along one segment.
pub open spec fn step(e: XmlElement, p: PathPartView) -> Result<XmlElement, StepError> {
    match p {
        PathPartView::Element(name) => match first_child_elem(e.children@, name) {
            Option::Some(c) => Ok(c),
            Option::None => Err(StepError::NotFound(name)),
        },
        PathPartView::Index(i) => if i >= e.children@.len() {
            Err(StepError::OutOfRange(i))
        } else {
            match e.children@[i as int] {
                XmlNode::Element(c) => Ok(c),
                _ => Err(StepError::NotElement(i)),
            }
        },
    }
}

/// Walks the given segments from an element, one level per segment.
pub open spec fn traverse(e: XmlElement, parts: Seq<PathPartView>) -> Result<
    XmlElement,
    StepError,
>
    decreases parts.len(),
{
    if parts.len() == 0 {
        Ok(e)
    } else {
        match step(e, parts[0]) {
            Ok(c) => traverse(c, parts.drop_first()),
            Err(err) => Err(err),
        }
    }
}

/// The concatenated direct text of an element: its text and
/// character-data children, in order.
pub open spec fn text_content(children: Seq<XmlNode>) -> Seq<char>
    decreases children.len(),
{
    if children.len() == 0 {
        Seq::<char>::empty()
    } else {
        let rest = text_content(children.drop_first());
        match children[0] {
            XmlNode::Text(t) => t@ + rest,
            XmlNode::CData(t) => t@ + rest,
            _ => rest,
        }
    }
}

/// Whether an element has any direct text or character-data child.
pub open spec fn has_text(children: Seq<XmlNode>) -> bool
    decreases children.len(),
{
    if children.len() == 0 {
        false
    } else {
        match children[0] {
            XmlNode::Text(_) => true,
            XmlNode::CData(_) => true,
            _ => has_text(children.drop_first()),
        }
    }
}

/// The value of the first attribute with the given name, if any.
pub open spec fn attr_lookup(attrs: Seq<(String, String)>, name: Seq<char>) -> Option<Seq<char>>
    decreases attrs.len(),
{
    if attrs.len() == 0 {
        None
    } else if attrs[0].0@ == name {
        Some(attrs[0].1@)
    } else {
        attr_lookup(attrs.drop_first(), name)
    }
}

/// The path carried by a mode-tagged path.
pub open spec fn mode_path(pt: PathType) -> Path {
    match pt {
        PathType::PathText(p) => p,
        PathType::PathLen(p) => p,
        PathType::PathAttr(p) => p,
    }
}

/// Attaches the whole path to a failed step.
pub open spec fn step_err_view(se: StepError, path: Seq<PathPartView>) -> ExtractionErrorView {
    match se {
        StepError::NotFound(name) => ExtractionErrorView::NodeNotFound(
            name,
            serialize_parts(path),
        ),
        StepError::OutOfRange(i) => ExtractionErrorView::IndexOutOfRange(i),
        StepError::NotElement(i) => ExtractionErrorView::NotAnElement(i),
    }
}

/// What extraction yields on any tree and mode-tagged path: the traversal
/// prefix is the whole path for the text and child-count modes and all
/// but the last segment for the attribute mode, and the final read is
/// decided by the mode.
pub open spec fn extract_spec(root: XmlElement, pt: PathType) -> Result<
    Seq<char>,
    ExtractionErrorView,
> {
    match pt {
        PathType::PathText(p) => match traverse(root, p@) {
            Ok(e) => if has_text(e.children@) {
                Ok(text_content(e.children@))
            } else {
                Err(ExtractionErrorView::NoTextContent)
            },
            Err(se) => Err(step_err_view(se, p@)),
        },
        PathType::PathLen(p) => match traverse(root, p@) {
            Ok(e) => Ok(dec_rep(e.children@.len())),
            Err(se) => Err(step_err_view(se, p@)),
        },
        PathType::PathAttr(p) => if p@.len() == 0 {
            Err(ExtractionErrorView::EmptyPath)
        } else {
            match traverse(root, p@.drop_last()) {
                Ok(e) => match p@.last() {
                    PathPartView::Element(name) => match attr_lookup(e.attributes@, name) {
                        Option::Some(v) => Ok(v),
                        Option::None => Err(ExtractionErrorView::AttributeNotFound(name)),
                    },
                    PathPartView::Index(_) => Err(
                        ExtractionErrorView::IndexUsedAsAttributeName,
                    ),
                },
                Err(se) => Err(step_err_view(se, p@)),
            }
        },
    }
}

/// The child-count mode counts every direct child of the reached node,
/// whatever its kind: text, character data, comments and processing
/// instructions count along with elements.
pub proof fn lemma_len_counts_all_children(root: XmlElement, p: Path, e: XmlElement)
    requires
        traverse(root, p@) == Ok::<XmlElement, StepError>(e),
    ensures
        extract_spec(root, PathType::PathLen(p)) == Ok::<Seq<char>, ExtractionErrorView>(
            dec_rep(e.children@.len()),
        ),
{
}

/// An attribute path whose last segment is an index fails with
/// `IndexUsedAsAttributeName` once the prefix is traversed, regardless
/// of whether a child exists at that index.
pub proof fn lemma_attr_index_rejected(root: XmlElement, p: Path, i: nat)
    requires
        p@.len() >= 1,
        p@.last() == PathPartView::Index(i),
        traverse(root, p@.drop_last()) is Ok,
    ensures
        extract_spec(root, PathType::PathAttr(p)) == Err::<Seq<char>, ExtractionErrorView>(
            ExtractionErrorView::IndexUsedAsAttributeName,
        ),
{
}

/// The text mode fails with `NoTextContent` exactly when the reached
/// node has no direct text or character-data child.
pub proof fn lemma_no_text_content(root: XmlElement, p: Path, e: XmlElement)
    requires
        traverse(root, p@) == Ok::<XmlElement, StepError>(e),
        !has_text(e.children@),
    ensures
        extract_spec(root, PathType::PathText(p)) == Err::<Seq<char>, ExtractionErrorView>(
            ExtractionErrorView::NoTextContent,
        ),
{
}

/// The first direct child element named `name`, as the model's
/// first-match lookup gives it.
fn get_child<'a>(e: &'a XmlElement, name: &String) -> (r: Option<&'a XmlElement>)
    ensures
        match r {
            Some(c) => first_child_elem(e.children@, name@) == Some(*c),
            None => first_child_elem(e.children@, name@) is None,
        },
{
    let n: usize = e.children.len();
    let mut k: usize = 0;
    proof {
        assert(e.children@.skip(0) =~= e.children@);
    }
    while k < n
        invariant
            0 <= k <= n,
            n == e.children@.len(),
            first_child_elem(e.children@, name@) == first_child_elem(
                e.children@.skip(k as int),
                name@,
            ),
        decreases n - k,
    {
        proof {
            assert(e.children@.skip(k as int)[0] == e.children@[k as int]);
            assert(e.children@.skip(k as int).drop_first() =~= e.children@.skip(k + 1));
        }
        match &e.children[k] {
            XmlNode::Element(c) => {
                if c.name == *name {
                    return Some(c);
                }
            },
            _ => {},
        }
        k = k + 1;
    }
    proof {
        assert(e.children@.skip(n as int) =~= Seq::<XmlNode>::empty());
    }
    None
}

/// The concatenated direct text of `e`, or nothing when `e` has no text
/// or character-data child.
fn get_text(e: &XmlElement) -> (r: Option<String>)
    ensures
        has_text(e.children@) ==> (r matches Some(t) && t@ == text_content(e.children@)),
        !has_text(e.children@) ==> r is None,
{
    let n: usize = e.children.len();
    let mut out = String::new();
    let mut found = false;
    let mut k: usize = 0;
    proof {
        assert(e.children@.skip(0) =~= e.children@);
        assert(out@ + text_content(e.children@) =~= text_content(e.children@));
    }
    while k < n
        invariant
            0 <= k <= n,
            n == e.children@.len(),
            text_content(e.children@) == out@ + text_content(e.children@.skip(k as int)),
            has_text(e.children@) == (found || has_text(e.children@.skip(k as int))),
        decreases n - k,
    {
        proof {
            assert(e.children@.skip(k as int)[0] == e.children@[k as int]);
            assert(e.children@.skip(k as int).drop_first() =~= e.children@.skip(k + 1));
        }
        let ghost out_before = out@;
        match &e.children[k] {
            XmlNode::Text(t) => {
                out.append(t.as_str());
                found = true;
                proof {
                    assert(text_content(e.children@) =~= out@ + text_content(
                        e.children@.skip(k + 1),
                    ));
                }
            },
            XmlNode::CData(t) => {
                out.append(t.as_str());
                found = true;
                proof {
                    assert(text_content(e.children@) =~= out@ + text_content(
                        e.children@.skip(k + 1),
                    ));
                }
            },
            _ => {},
        }
        k = k + 1;
    }
    proof {
        assert(e.children@.skip(n as int) =~= Seq::<XmlNode>::empty());
        assert(text_content(e.children@) =~= out@);
    }
    if found {
        Some(out)
    } else {
        None
    }
}

/// The value of the first attribute named `name`, as the model's lookup
/// gives it.
fn get_attribute<'a>(e: &'a XmlElement, name: &String) -> (r: Option<&'a String>)
    ensures
        match r {
            Some(v) => attr_lookup(e.attributes@, name@) == Some(v@),
            None => attr_lookup(e.attributes@, name@) is None,
        },
{
    let n: usize = e.attributes.len();
    let mut k: usize = 0;
    proof {
        assert(e.attributes@.skip(0) =~= e.attributes@);
    }
    while k < n
        invariant
            0 <= k <= n,
            n == e.attributes@.len(),
            attr_lookup(e.attributes@, name@) == attr_lookup(e.attributes@.skip(k as int), name@),
        decreases n - k,
    {
        proof {
            assert(e.attributes@.skip(k as int)[0] == e.attributes@[k as int]);
            assert(e.attributes@.skip(k as int).drop_first() =~= e.attributes@.skip(k + 1));
        }
        let pair: &(String, String) = &e.attributes[k];
        if pair.0 == *name {
            return Some(&pair.1);
        }
        k = k + 1;
    }
    proof {
        assert(e.attributes@.skip(n as int) =~= Seq::<(String, String)>::empty());
    }
    None
}

/// Evaluates a mode-tagged path against a tree: walks the traversal
/// prefix, then applies the mode's final read, exactly as `extract_spec`
/// states, with each failure reported by its cause.
pub fn extract_from_xml(xml: &XmlElement, xml_path: &PathType) -> (r: Result<
    String,
    ExtractionError,
>)
    ensures
        match r {
            Ok(s) => extract_spec(*xml, *xml_path) == Result::<
                Seq<char>,
                ExtractionErrorView,
            >::Ok(s@),
            Err(e) => extract_spec(*xml, *xml_path) == Result::<
                Seq<char>,
                ExtractionErrorView,
            >::Err(e@),
        },
{
    let (follow_last, path): (bool, &Path) = match xml_path {
        PathType::PathText(p) => (true, p),
        PathType::PathLen(p) => (true, p),
        PathType::PathAttr(p) => (false, p),
    };
    let plen: usize = path.parts.len();
    if !follow_last && plen == 0 {
        return Err(ExtractionError::EmptyPath);
    }
    let end: usize = if follow_last {
        plen
    } else {
        plen - 1
    };
    let ghost prefix = path@.take(end as int);
    proof {
        assert(path@.len() == plen);
        if follow_last {
            assert(prefix =~= path@);
        } else {
            assert(prefix =~= path@.drop_last());
        }
        assert(prefix.skip(0) =~= prefix);
    }
    let mut element: &XmlElement = xml;
    let mut k: usize = 0;
    while k < end
        invariant
            0 <= k <= end,
            end <= plen,
            plen == path.parts@.len(),
            path@.len() == plen,
            mode_path(*xml_path) == *path,
            follow_last == !(*xml_path matches PathType::PathAttr(_)),
            follow_last ==> end == plen,
            !follow_last ==> plen >= 1 && end == plen - 1,
            prefix == path@.take(end as int),
            traverse(*xml, prefix) == traverse(*element, prefix.skip(k as int)),
        decreases end - k,
    {
        proof {
            assert(prefix.skip(k as int)[0] == prefix[k as int]);
            assert(prefix[k as int] == path@[k as int]);
            assert(path@[k as int] == path.parts@[k as int]@);
            assert(prefix.skip(k as int).drop_first() =~= prefix.skip(k + 1));
        }
        let part: &PathPart = &path.parts[k];
        match part {
            PathPart::Element(node_name) => {
                match get_child(element, node_name) {
                    Some(c) => {
                        proof {
                            assert(step(*element, prefix.skip(k as int)[0])
                                == Ok::<XmlElement, StepError>(*c));
                            assert(traverse(*xml, prefix) == traverse(*c, prefix.skip(k + 1)));
                        }
                        element = c;
                    },
                    None => {
                        proof {
                            assert(step(*element, prefix.skip(k as int)[0]) == Err::<
                                XmlElement,
                                StepError,
                            >(StepError::NotFound(node_name@)));
                            assert(traverse(*xml, prefix) == Err::<XmlElement, StepError>(
                                StepError::NotFound(node_name@),
                            ));
                            if follow_last {
                                assert(prefix =~= path@);
                            } else {
                                assert(prefix =~= path@.drop_last());
                            }
                            assert(extract_spec(*xml, *xml_path) == Err::<
                                Seq<char>,
                                ExtractionErrorView,
                            >(ExtractionErrorView::NodeNotFound(
                                node_name@,
                                serialize_parts(path@),
                            )));
                        }
                        let pstr = Path::parts_to_string(path.parts.as_slice());
                        return Err(ExtractionError::NodeNotFound(node_name.clone(), pstr));
                    },
                }
            },
            PathPart::Index(index) => {
                let i: usize = *index;
                if i >= element.children.len() {
                    proof {
                        assert(step(*element, prefix.skip(k as int)[0]) == Err::<
                            XmlElement,
                            StepError,
                        >(StepError::OutOfRange(i as nat)));
                        assert(traverse(*xml, prefix) == Err::<XmlElement, StepError>(
                            StepError::OutOfRange(i as nat),
                        ));
                        if follow_last {
                            assert(prefix =~= path@);
                        } else {
                            assert(prefix =~= path@.drop_last());
                        }
                        assert(extract_spec(*xml, *xml_path) == Err::<
                            Seq<char>,
                            ExtractionErrorView,
                        >(ExtractionErrorView::IndexOutOfRange(i as nat)));
                    }
                    return Err(ExtractionError::IndexOutOfRange(i));
                }
                match &element.children[i] {
                    XmlNode::Element(c) => {
                        proof {
                            assert(step(*element, prefix.skip(k as int)[0])
                                == Ok::<XmlElement, StepError>(*c));
                            assert(traverse(*xml, prefix) == traverse(*c, prefix.skip(k + 1)));
                        }
                        element = c;
                    },
                    _ => {
                        proof {
                            assert(step(*element, prefix.skip(k as int)[0]) == Err::<
                                XmlElement,
                                StepError,
                            >(StepError::NotElement(i as nat)));
                            assert(traverse(*xml, prefix) == Err::<XmlElement, StepError>(
                                StepError::NotElement(i as nat),
                            ));
                            if follow_last {
                                assert(prefix =~= path@);
                            } else {
                                assert(prefix =~= path@.drop_last());
                            }
                            assert(extract_spec(*xml, *xml_path) == Err::<
                                Seq<char>,
                                ExtractionErrorView,
                            >(ExtractionErrorView::NotAnElement(i as nat)));
                        }
                        return Err(ExtractionError::NotAnElement(i));
                    },
                }
            },
        }
        k = k + 1;
    }
    proof {
        assert(prefix.skip(end as int) =~= Seq::<PathPartView>::empty());
        assert(traverse(*xml, prefix) == Ok::<XmlElement, StepError>(*element));
        if follow_last {
            assert(prefix =~= path@);
        } else {
            assert(prefix =~= path@.drop_last());
        }
    }
    match xml_path {
        PathType::PathText(_) => {
            match get_text(element) {
                Some(t) => Ok(t),
                None => Err(ExtractionError::NoTextContent),
            }
        },
        PathType::PathLen(_) => Ok(usize_to_string(element.children.len())),
        PathType::PathAttr(_) => {
            let last: &PathPart = &path.parts[plen - 1];
            proof {
                assert(path@[plen - 1] == path.parts@[plen - 1]@);
                assert(path@.last() == path@[plen - 1]);
            }
            match last {
                PathPart::Element(name) => {
                    match get_attribute(element, name) {
                        Some(v) => Ok(v.clone()),
                        None => Err(ExtractionError::AttributeNotFound(name.clone())),
                    }
                },
                PathPart::Index(_) => Err(ExtractionError::IndexUsedAsAttributeName),
            }
        },
    }
}

} // verus!
