//! XML documents of the multipart upload API: reading the part list of a
//! CompleteMultipartUpload request, and writing the replies.

use crate::codec::{parse_u64, parse_u64_spec, str_from_utf8, trim_quotes, trim_quotes_spec};
use crate::error::ApiError;
use vstd::utf8::{decode_utf8, valid_utf8};
use vstd::prelude::*;

verus! {

/// One node of a parsed XML document, the nodes being listed in document
/// order (the root first).
#[derive(Debug, PartialEq, Eq)]
pub struct XmlNode {
    /// Whether the node is an element (not the root, a text, a comment or a
    /// processing instruction).
    pub is_element: bool,
    /// Whether the node is a text node.
    pub is_text: bool,
    /// The local name of an element; empty for other nodes.
    pub name: String,
    /// The text of the node: for an element, that of its first child when this
    /// is a text node; for a text or a comment, its own text.
    pub text: Option<String>,
    /// The position of the parent node in the list; `None` for the root.
    pub parent: Option<usize>,
}

/// A node of a parsed XML document, as a value.
pub struct XmlNodeView {
    pub is_element: bool,
    pub is_text: bool,
    pub name: Seq<char>,
    pub text: Option<Seq<char>>,
    pub parent: Option<usize>,
}

impl DeepView for XmlNode {
    type V = XmlNodeView;

    open spec fn deep_view(&self) -> XmlNodeView {
        XmlNodeView {
            is_element: self.is_element,
            is_text: self.is_text,
            name: self.name@,
            text: match self.text {
                Some(t) => Some(t@),
                None => None,
            },
            parent: self.parent,
        }
    }
}

/// The nodes of the XML document in `text`, in document order, or `None`
/// where the text is not a well-formed document; what the parser yields is
/// named here, not written out.
pub uninterp spec fn xml_document_nodes(text: Seq<char>) -> Option<Seq<XmlNodeView>>;

/// `roxmltree::Document::parse`: the nodes of the document (each with
/// whether it is an element or a text, its local name, its text and its
/// parent), listed as `descendants()` walks them
/// from the root; a parse error is reported by its message, which is not
/// stated. The root always comes first.
#[verifier::external_body]
pub(crate) fn parse_xml_document(text: &str) -> (r: Result<Vec<XmlNode>, String>)
    ensures
        r is Ok <==> xml_document_nodes(text@) is Some,
        r matches Ok(v) ==> xml_document_nodes(text@) == Some(v.deep_view()) && v@.len() >= 1,
{
    let doc = match roxmltree::Document::parse(text) {
        Ok(doc) => doc,
        Err(e) => return Err(e.to_string()),
    };
    let mut nodes = Vec::new();
    for n in doc.descendants() {
        nodes.push(XmlNode {
            is_element: n.is_element(),
            is_text: n.is_text(),
            name: n.tag_name().name().to_string(),
            text: n.text().map(|t| t.to_string()),
            parent: n.parent().map(|p| p.id().get_usize()),
        });
    }
    Ok(nodes)
}

/// The node is an element with this local name.
pub open spec fn has_tag(n: XmlNodeView, name: Seq<char>) -> bool {
    n.is_element && n.name == name
}

/// A whitespace character of XML: space, tab, carriage return or line feed.
pub open spec fn xml_space(c: char) -> bool {
    c == ' ' || c == '\t' || c == '\r' || c == '\n'
}

/// A text node that holds only whitespace.
pub open spec fn blank_text(n: XmlNodeView) -> bool {
    &&& n.is_text
    &&& n.text matches Some(t)
    &&& forall|i: int| 0 <= i < t.len() ==> xml_space(#[trigger] t[i])
}

/// The first child of node `p` at position `from` or later that is an
/// element with the local name `name` when one is given; any child when none
/// is.
pub open spec fn first_child_from(
    nodes: Seq<XmlNodeView>,
    p: int,
    name: Option<Seq<char>>,
    from: int,
) -> Option<int>
    decreases nodes.len() - from,
{
    if from < 0 || from >= nodes.len() {
        None
    } else if nodes[from].parent == Some(p as usize) && match name {
        Some(t) => has_tag(nodes[from], t),
        None => true,
    } {
        Some(from)
    } else {
        first_child_from(nodes, p, name, from + 1)
    }
}

/// A part of a CompleteMultipartUpload request: the etag the client got for
/// it, and its number.
#[derive(Debug, PartialEq, Eq)]
pub struct CompleteMultipartUploadPart {
    pub etag: String,
    pub part_number: u64,
}

/// The part that a `Part` element at position `item` describes: the text of
/// its first `ETag` child without quotes, and the number in the text of its
/// first `PartNumber` child.
pub open spec fn part_of(nodes: Seq<XmlNodeView>, item: int) -> Option<(Seq<char>, u64)> {
    match first_child_from(nodes, item, Some("ETag"@), 0) {
        None => None,
        Some(e) => match nodes[e].text {
            None => None,
            Some(etag) => match first_child_from(nodes, item, Some("PartNumber"@), 0) {
                None => None,
                Some(n) => match nodes[n].text {
                    None => None,
                    Some(num) => match parse_u64_spec(num) {
                        None => None,
                        Some(v) => Some((trim_quotes_spec(etag), v)),
                    },
                },
            },
        },
    }
}

/// The parts described by the children of node `cmu` at position `from` or
/// later: every child must be a `Part` element describing a part, except
/// text that is only whitespace (the indentation of the document), which is
/// skipped.
pub open spec fn parts_from(nodes: Seq<XmlNodeView>, cmu: int, from: int) -> Option<
    Seq<(Seq<char>, u64)>,
>
    decreases nodes.len() - from,
{
    if from < 0 || from >= nodes.len() {
        Some(Seq::empty())
    } else if nodes[from].parent != Some(cmu as usize) || blank_text(nodes[from]) {
        parts_from(nodes, cmu, from + 1)
    } else if !has_tag(nodes[from], "Part"@) {
        None
    } else {
        match part_of(nodes, from) {
            None => None,
            Some(pt) => match parts_from(nodes, cmu, from + 1) {
                None => None,
                Some(rest) => Some(seq![pt] + rest),
            },
        }
    }
}

/// The part list of a CompleteMultipartUpload document: the first child of
/// the root must be a `CompleteMultipartUpload` element whose children all
/// describe parts, whitespace between them aside.
pub open spec fn complete_body_parts(nodes: Seq<XmlNodeView>) -> Option<Seq<(Seq<char>, u64)>> {
    match first_child_from(nodes, 0, None, 0) {
        None => None,
        Some(cmu) => if has_tag(nodes[cmu], "CompleteMultipartUpload"@) {
            parts_from(nodes, cmu, 0)
        } else {
            None
        },
    }
}

/// A part as a value.
pub open spec fn part_view(p: CompleteMultipartUploadPart) -> (Seq<char>, u64) {
    (p.etag@, p.part_number)
}

/// Whether a node is a text node that holds only whitespace.
fn is_blank_text(n: &XmlNode) -> (r: bool)
    ensures
        r == blank_text(n.deep_view()),
{
    if !n.is_text {
        return false;
    }
    match &n.text {
        None => false,
        Some(t) => {
            let len = t.as_str().unicode_len();
            let mut i: usize = 0;
            while i < len
                invariant
                    i <= len,
                    len == t@.len(),
                    n.is_text,
                    n.deep_view().text == Some(t@),
                    forall|j: int| 0 <= j < i ==> xml_space(#[trigger] t@[j]),
                decreases len - i,
            {
                let c = t.as_str().get_char(i);
                if !(c == ' ' || c == '\t' || c == '\r' || c == '\n') {
                    assert(!xml_space(t@[i as int]));
                    let ghost dt = n.deep_view().text->0;
                    assert(dt == t@);
                    assert(!xml_space(dt[i as int]));
                    return false;
                }
                i = i + 1;
            }
            true
        },
    }
}

/// Whether a node is an element called `name`.
fn node_has_tag(n: &XmlNode, name: &str) -> (r: bool)
    ensures
        r == has_tag(n.deep_view(), name@),
{
    if n.is_element {
        let wanted = String::from_str(name);
        n.name == wanted
    } else {
        false
    }
}

/// The position of the first child of node `p` (an element with the given
/// tag, if one is given).
fn first_child(nodes: &Vec<XmlNode>, p: usize, name: Option<&str>) -> (r: Option<usize>)
    ensures
        match r {
            Some(i) => i < nodes@.len() && first_child_from(
                nodes.deep_view(),
                p as int,
                match name {
                    Some(t) => Some(t@),
                    None => None,
                },
                0,
            ) == Some(i as int),
            None => first_child_from(
                nodes.deep_view(),
                p as int,
                match name {
                    Some(t) => Some(t@),
                    None => None,
                },
                0,
            ) is None,
        },
{
    let ghost dv = nodes.deep_view();
    let ghost tag = match name {
        Some(t) => Some(t@),
        None => None,
    };
    let mut i: usize = 0;
    while i < nodes.len()
        invariant
            i <= nodes@.len(),
            dv == nodes.deep_view(),
            dv.len() == nodes@.len(),
            tag == match name {
                Some(t) => Some(t@),
                None => None,
            },
            first_child_from(dv, p as int, tag, 0) == first_child_from(dv, p as int, tag, i as int),
        decreases nodes@.len() - i,
    {
        assert(dv[i as int] == nodes@[i as int].deep_view());
        let is_child = match nodes[i].parent {
            Some(q) => q == p,
            None => false,
        };
        let matches_tag = match name {
            Some(t) => node_has_tag(&nodes[i], t),
            None => true,
        };
        assert(is_child == (dv[i as int].parent == Some(p)));
        assert(matches_tag == match tag {
            Some(t) => has_tag(dv[i as int], t),
            None => true,
        });
        if is_child && matches_tag {
            assert(first_child_from(dv, p as int, tag, i as int) == Some(i as int));
            return Some(i);
        }
        assert(first_child_from(dv, p as int, tag, i as int) == first_child_from(dv, p as int, tag, i + 1));
        i = i + 1;
    }
    None
}

/// The text of the first child of `item` with the given tag.
fn child_text<'a>(nodes: &'a Vec<XmlNode>, item: usize, name: &str) -> (r: Option<&'a String>)
    ensures
        match first_child_from(nodes.deep_view(), item as int, Some(name@), 0) {
            None => r is None,
            Some(c) => match nodes.deep_view()[c].text {
                None => r is None,
                Some(t) => r matches Some(s) && s@ == t,
            },
        },
{
    match first_child(nodes, item, Some(name)) {
        None => None,
        Some(c) => {
            assert(nodes.deep_view()[c as int] == nodes@[c as int].deep_view());
            match &nodes[c].text {
                None => None,
                Some(t) => Some(t),
            }
        },
    }
}

/// The part described by the `Part` element at position `item`.
fn read_part(nodes: &Vec<XmlNode>, item: usize) -> (r: Option<CompleteMultipartUploadPart>)
    ensures
        match r {
            Some(p) => part_of(nodes.deep_view(), item as int) == Some(part_view(p)),
            None => part_of(nodes.deep_view(), item as int) is None,
        },
{
    let etag = child_text(nodes, item, "ETag")?;
    let number = child_text(nodes, item, "PartNumber")?;
    let part_number = parse_u64(number.as_str())?;
    Some(CompleteMultipartUploadPart { etag: trim_quotes(etag.as_str()), part_number })
}

/// Prepends `a` to an optional sequence.
pub open spec fn prepend<T>(a: Seq<T>, r: Option<Seq<T>>) -> Option<Seq<T>> {
    match r {
        Some(s) => Some(a + s),
        None => None,
    }
}

/// The part list of a CompleteMultipartUpload request body, or `None` when
/// the document is not such a list: the first child of the root must be a
/// `CompleteMultipartUpload` element, and each of its children a `Part`
/// element with an `ETag` (quotes are dropped) and a numeric `PartNumber`;
/// whitespace text between them, which indents the document, is skipped.
pub fn parse_complete_multpart_upload_body(nodes: &Vec<XmlNode>) -> (r: Option<
    Vec<CompleteMultipartUploadPart>,
>)
    ensures
        match r {
            Some(v) => complete_body_parts(nodes.deep_view()) == Some(v@.map_values(|p: CompleteMultipartUploadPart| part_view(p))),
            None => complete_body_parts(nodes.deep_view()) is None,
        },
{
    let ghost dv = nodes.deep_view();
    let cmu = first_child(nodes, 0, None)?;
    assert(dv[cmu as int] == nodes@[cmu as int].deep_view());
    if !node_has_tag(&nodes[cmu], "CompleteMultipartUpload") {
        return None;
    }
    let mut parts: Vec<CompleteMultipartUploadPart> = Vec::new();
    let mut i: usize = 0;
    while i < nodes.len()
        invariant
            i <= nodes@.len(),
            dv == nodes.deep_view(),
            dv.len() == nodes@.len(),
            complete_body_parts(dv) == parts_from(dv, cmu as int, 0),
            parts_from(dv, cmu as int, 0) == prepend(
                parts@.map_values(|p: CompleteMultipartUploadPart| part_view(p)),
                parts_from(dv, cmu as int, i as int),
            ),
        decreases nodes@.len() - i,
    {
        assert(dv[i as int] == nodes@[i as int].deep_view());
        let is_child = match nodes[i].parent {
            Some(q) => q == cmu,
            None => false,
        };
        if is_child && !is_blank_text(&nodes[i]) {
            if !node_has_tag(&nodes[i], "Part") {
                assert(parts_from(dv, cmu as int, i as int) is None);
                return None;
            }
            match read_part(nodes, i) {
                None => {
                    assert(parts_from(dv, cmu as int, i as int) is None);
                    return None;
                },
                Some(p) => {
                    let ghost before = parts@.map_values(|p: CompleteMultipartUploadPart| part_view(p));
                    parts.push(p);
                    assert(parts@.map_values(|p: CompleteMultipartUploadPart| part_view(p)) =~= before.push(part_view(p)));
                    proof {
                        assert(parts_from(dv, cmu as int, i as int) == prepend(seq![part_view(p)], parts_from(dv, cmu as int, i + 1)));
                        match parts_from(dv, cmu as int, i + 1) {
                            Some(rest) => {
                                assert(before + (seq![part_view(p)] + rest) =~= before.push(part_view(p)) + rest);
                            },
                            None => {},
                        }
                    }
                },
            }
        } else {
            assert(parts_from(dv, cmu as int, i as int) == parts_from(dv, cmu as int, i + 1));
        }
        i = i + 1;
    }
    assert(parts_from(dv, cmu as int, i as int) == Some(Seq::<(Seq<char>, u64)>::empty()));
    assert(parts@.map_values(|p: CompleteMultipartUploadPart| part_view(p)) + Seq::<(Seq<char>, u64)>::empty() =~= parts@.map_values(|p: CompleteMultipartUploadPart| part_view(p)));
    Some(parts)
}


/// The part list of a CompleteMultipartUpload request body: the body must be
/// UTF-8 (else `InvalidUtf8`), a well-formed XML document (else `InvalidXml`
/// with the parser's message) and a part list (else a bad request).
pub fn parse_complete_multipart_upload_request(body: &[u8]) -> (r: Result<
    Vec<CompleteMultipartUploadPart>,
    ApiError,
>)
    ensures
        !valid_utf8(body@) ==> r == Err::<Vec<CompleteMultipartUploadPart>, ApiError>(
            ApiError::InvalidUtf8,
        ),
        valid_utf8(body@) ==> match xml_document_nodes(decode_utf8(body@)) {
            None => r matches Err(ApiError::InvalidXml(_)),
            Some(nodes) => match complete_body_parts(nodes) {
                None => r matches Err(ApiError::BadRequest(m)) && m@
                    == "Invalid CompleteMultipartUpload XML"@,
                Some(ps) => r matches Ok(v) && v@.map_values(
                    |p: CompleteMultipartUploadPart| part_view(p),
                ) == ps,
            },
        },
{
    let text = match str_from_utf8(body) {
        Some(t) => t,
        None => {
            return Err(ApiError::InvalidUtf8);
        },
    };
    let nodes = match parse_xml_document(text) {
        Ok(n) => n,
        Err(msg) => {
            return Err(ApiError::InvalidXml(msg));
        },
    };
    match parse_complete_multpart_upload_body(&nodes) {
        Some(parts) => Ok(parts),
        None => Err(ApiError::BadRequest(String::from_str("Invalid CompleteMultipartUpload XML"))),
    }
}

} // verus!
