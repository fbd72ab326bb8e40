//! The pull reader of `quick_xml` over a byte slice, and the document
//! tree built from its events.

use vstd::prelude::*;

use quick_xml::events::BytesStart;
use quick_xml::events::Event as Pulled;
use quick_xml::Reader;
use std::borrow::Cow;

use crate::xml::XmlEvent::{Empty, End, Eof, Error, Other, Start, Text};
use crate::xml::{
    build_from, document_tree, opt_element_view, Element, EventKindView, TreeBuilder, XmlEvent,
    XmlTag,
};

verus! {

/// Whether an event ends the reader's stream: end of document or an error.
pub open spec fn is_stop(ev: EventKindView) -> bool {
    ev is Eof || ev is Error
}

/// A stream that ends with its first end-of-document or error event.
pub open spec fn ends_at_first_stop(events: Seq<EventKindView>) -> bool {
    &&& events.len() > 0
    &&& is_stop(events.last())
    &&& forall|i: int| 0 <= i < events.len() - 1 ==> !is_stop(#[trigger] events[i])
}

#[verifier::external_type_specification]
#[verifier::external_body]
#[verifier::reject_recursive_types(R)]
pub struct ExReader<R>(Reader<R>);

/// The events that `quick_xml`'s pull reader yields over `data`, in order,
/// up to and including the first end-of-document or error.
pub uninterp spec fn xml_events(data: Seq<u8>) -> Seq<EventKindView>;

/// The events a reader has yet to yield, up to and including its first
/// end-of-document or error.
pub uninterp spec fn pending_events(reader: Reader<&[u8]>) -> Seq<EventKindView>;

/// `quick_xml::Reader::from_reader` over a byte slice: a fresh reader has
/// the whole event stream of `data` ahead of it, counted up to and
/// including its first end-of-document or error. The stream is finite:
/// after the end of the input the reader yields `Eof` from then on. What
/// it would yield after an error is left out: on some errors in ill-formed
/// input it can read on, and the library never asks it to.
#[verifier::external_body]
pub(crate) fn open_reader<'a>(data: &'a [u8]) -> (reader: Reader<&'a [u8]>)
    ensures
        pending_events(reader) == xml_events(data@),
        ends_at_first_stop(pending_events(reader)),
{
    Reader::from_reader(data)
}

/// `quick_xml::Reader::read_event_into`: yields the next pending event and
/// consumes it. Names and attributes are decoded as lossy UTF-8; attributes
/// that fail to parse are skipped; text that fails to unescape is `None`.
#[verifier::external_body]
pub(crate) fn next_event(reader: &mut Reader<&[u8]>) -> (ev: XmlEvent)
    requires
        pending_events(*old(reader)).len() > 0,
    ensures
        ev@ == pending_events(*old(reader))[0],
        pending_events(*final(reader)) == pending_events(*old(reader)).drop_first(),
{
    let s = |b: &[u8]| String::from_utf8_lossy(b).into_owned();
    let t = |b: BytesStart| XmlTag(s(b.name().0), b.attributes().flatten().map(|a| (s(a.key.0), s(&a.value))).collect());
    match reader.read_event_into(&mut Vec::new()) {
        Ok(Pulled::Start(b)) => Start(t(b)),
        Ok(Pulled::Empty(b)) => Empty(t(b)),
        Ok(Pulled::End(_)) => End,
        Ok(Pulled::Text(x)) => Text(x.unescape().ok().map(Cow::into_owned)),
        Ok(Pulled::Eof) => Eof,
        Ok(_) => Other,
        _ => Error,
    }
}

/// Parses `data` into its element tree: `None` where it is not well-formed
/// XML or holds no root element.
pub fn parse_document(data: &[u8]) -> (doc: Option<Element>)
    ensures
        opt_element_view(doc) == document_tree(xml_events(data@)),
{
    let mut reader = open_reader(data);
    let mut builder = TreeBuilder::new();
    loop
        invariant
            ends_at_first_stop(pending_events(reader)),
            build_from(builder@, pending_events(reader)) == document_tree(xml_events(data@)),
        decreases pending_events(reader).len(),
    {
        let ghost before = pending_events(reader);
        let ev = next_event(&mut reader);
        let stop = match ev {
            XmlEvent::Eof => true,
            XmlEvent::Error => true,
            _ => false,
        };
        let ghost ev_view = ev@;
        let ghost state = builder@;
        match builder.feed(ev) {
            Some(doc) => {
                return doc;
            },
            None => {},
        }
        if stop {
            // The stop event finished the document: unreachable.
            return builder.into_root();
        }
        proof {
            assert(!is_stop(before[0]));
            assert(before.len() > 1);
            assert forall|i: int| 0 <= i < before.drop_first().len() - 1 implies !is_stop(
                #[trigger] before.drop_first()[i],
            ) by {
                assert(before.drop_first()[i] == before[i + 1]);
            }
        }
    }
}

} // verus!
