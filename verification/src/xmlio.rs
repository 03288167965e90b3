//! Trusted boundary to the XML pull parser.
//!
//! The outside parser turns document bytes into a stream of events,
//! reduced here to the small event type the verified walk reads. With
//! the default configuration the stream is a function of the bytes
//! alone, so it is given a name, `parsed_events`; the walk is verified
//! for every event sequence, and through the name its results are tied
//! to the document that was parsed.

use vstd::prelude::*;
use crate::walker::XmlEv;

verus! {

/// The reduced event stream the XML parser produces for a document: a
/// pure function of the bytes (the parser is built with its default
/// configuration).
pub uninterp spec fn parsed_events(doc: Seq<u8>) -> Seq<XmlEv>;

/// Relies on `xml::reader::EventReader`: `new` builds the parser over
/// the bytes and its event iterator pulls the events, each reduced one
/// arm per kind, moving the element's local name, the attribute
/// name/value pairs and the character data; kinds the walk ignores
/// collapse to `Other`, the document end to `Eof`, a parser error to
/// `Fail`. The iterator ends right after the document end or the first
/// error, and a document start is always reported, so the stream is
/// finite and non-empty, ends with `Eof` or `Fail`, and holds neither
/// earlier.
#[verifier::external_body]
pub fn parse_project(doc: &[u8]) -> (events: Vec<XmlEv>)
    ensures
        events@ == parsed_events(doc@),
        events@.len() > 0,
        events@.last() is Eof || events@.last() is Fail,
        forall|k: int|
            0 <= k < events@.len() - 1 ==> !((#[trigger] events@[k]) is Eof) && !(events@[k]
                is Fail),
{
    xml::reader::EventReader::new(doc)
        .into_iter()
        .map(|e| match e {
            Ok(xml::reader::XmlEvent::StartElement { name, attributes, .. }) => XmlEv::Start {
                name: name.local_name,
                attrs: attributes.into_iter().map(|a| (a.name.local_name, a.value)).collect(),
            },
            Ok(xml::reader::XmlEvent::EndElement { .. }) => XmlEv::End,
            Ok(xml::reader::XmlEvent::Characters(s)) => XmlEv::Text(s),
            Ok(xml::reader::XmlEvent::EndDocument) => XmlEv::Eof,
            Ok(_) => XmlEv::Other,
            Err(_) => XmlEv::Fail,
        })
        .collect()
}

} // verus!
