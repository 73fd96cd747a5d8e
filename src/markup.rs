//! A markup document as the flat sequence of events a streaming reader
//! produces, and lookups on element attributes.

use vstd::prelude::*;
use xml::reader::{EventReader, XmlEvent};
use crate::text::str_eq;

verus! {

/// An attribute of an element, by local name.
pub struct Attr {
    pub name: String,
    pub value: String,
}

/// One event of a streaming walk over a markup document. Names are local
/// names, without namespace prefix.
pub enum XmlToken {
    Start { name: String, attrs: Vec<Attr> },
    End { name: String },
    Text { text: String },
    EndDocument,
    /// White space between elements, comments, declarations and the like.
    Other,
    /// The document is not well formed at this point; nothing follows.
    Fault,
}

/// Names the events that `xml::reader::EventReader` yields for a document,
/// up to and including the end of the document or the first error.
pub uninterp spec fn xml_tokens_of(doc: Seq<u8>) -> Seq<XmlToken>;

/// Relies on `xml::reader::EventReader` iterated to its end: the events
/// depend on the bytes alone.
#[verifier::external_body]
pub(crate) fn xml_tokens(doc: &[u8]) -> (r: Vec<XmlToken>)
    ensures
        r@ == xml_tokens_of(doc@),
{
    EventReader::new(doc).into_iter().map(|ev| match ev {
        Ok(XmlEvent::StartElement { name, attributes, .. }) => XmlToken::Start {
            name: name.local_name,
            attrs: attributes.into_iter().map(|a| Attr { name: a.name.local_name, value: a.value }).collect(),
        },
        Ok(XmlEvent::EndElement { name }) => XmlToken::End { name: name.local_name },
        Ok(XmlEvent::Characters(text)) => XmlToken::Text { text },
        Ok(XmlEvent::EndDocument) => XmlToken::EndDocument,
        Ok(_) => XmlToken::Other,
        Err(_) => XmlToken::Fault,
    }).collect()
}

/// The value of the first attribute named `key`.
pub open spec fn attr_of(attrs: Seq<Attr>, key: Seq<char>) -> Option<Seq<char>>
    decreases attrs.len(),
{
    if attrs.len() == 0 {
        None
    } else if attrs[0].name@ == key {
        Some(attrs[0].value@)
    } else {
        attr_of(attrs.drop_first(), key)
    }
}

/// The view of an optional string.
pub open spec fn opt_view(o: Option<String>) -> Option<Seq<char>> {
    match o {
        Some(s) => Some(s@),
        None => None,
    }
}

/// Whether any event of `toks` is a fault.
pub open spec fn has_fault(toks: Seq<XmlToken>) -> bool {
    exists|i: int| 0 <= i < toks.len() && toks[i] is Fault
}

/// Looks up the first attribute named `key`.
pub fn attr_value(attrs: &Vec<Attr>, key: &str) -> (r: Option<String>)
    ensures
        opt_view(r) == attr_of(attrs@, key@),
{
    let mut i: usize = 0;
    assert(attrs@.subrange(0, attrs@.len() as int) =~= attrs@);
    while i < attrs.len()
        invariant
            i <= attrs@.len(),
            attr_of(attrs@, key@) == attr_of(attrs@.subrange(i as int, attrs@.len() as int), key@),
        decreases attrs.len() - i,
    {
        let ghost rest = attrs@.subrange(i as int, attrs@.len() as int);
        assert(rest.drop_first() =~= attrs@.subrange(i + 1, attrs@.len() as int));
        if str_eq(attrs[i].name.as_str(), key) {
            return Some(attrs[i].value.clone());
        }
        i = i + 1;
    }
    None
}

/// Whether the event sequence holds a fault.
pub fn tokens_fault(toks: &Vec<XmlToken>) -> (r: bool)
    ensures
        r == has_fault(toks@),
{
    let mut i: usize = 0;
    while i < toks.len()
        invariant
            i <= toks@.len(),
            forall|j: int| 0 <= j < i ==> !(toks@[j] is Fault),
        decreases toks.len() - i,
    {
        if let XmlToken::Fault = &toks[i] {
            return true;
        }
        i = i + 1;
    }
    false
}

} // verus!
