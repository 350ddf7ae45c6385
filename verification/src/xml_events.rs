//! The XML reader of `quick_xml`, as far as the proxy reads its events.

use quick_xml::events::Event;
use quick_xml::Reader;
use std::borrow::Cow;
use vstd::prelude::*;

verus! {

/// What an event stands for.
pub enum XmlEventView {
    Start { name: Seq<u8>, len: nat },
    Text(Seq<u8>),
    End { name: Seq<u8> },
    Eof,
    Other,
}

/// One event of the reader, with what the proxy reads of it.
#[derive(Debug)]
pub enum XmlEvent<'xml> {
    /// A start tag: the element name, and the length of all that stands
    /// between `<` and `>`.
    Start { name: Vec<u8>, len: usize },
    /// Character data between two tags, still escaped.
    Text(Cow<'xml, [u8]>),
    /// An end tag, with the element name.
    End { name: Vec<u8> },
    /// The end of the input.
    Eof,
    /// An empty element, a CDATA section, a comment, a declaration, a
    /// processing instruction or a document type.
    Other,
}

impl<'xml> View for XmlEvent<'xml> {
    type V = XmlEventView;

    open spec fn view(&self) -> XmlEventView {
        match self {
            XmlEvent::Start { name, len } => XmlEventView::Start { name: name@, len: *len as nat },
            XmlEvent::Text(bytes) => XmlEventView::Text(bytes@),
            XmlEvent::End { name } => XmlEventView::End { name: name@ },
            XmlEvent::Eof => XmlEventView::Eof,
            XmlEvent::Other => XmlEventView::Other,
        }
    }
}

/// One step of a reader: the event it yields, or `None` where it fails, and
/// the position it reports afterwards.
pub struct ReaderStep {
    pub outcome: Option<XmlEventView>,
    pub position: nat,
}

/// The steps that a reader takes over `xml`, from the first up to the one
/// that ends the reading: the end of the input, or a failure. `trim` says
/// whether character data is trimmed and left out where nothing remains.
pub uninterp spec fn xml_steps(xml: Seq<u8>, trim: bool) -> Seq<ReaderStep>;

/// The steps that `reader` has still to take.
pub uninterp spec fn reader_steps(reader: Reader<&[u8]>) -> Seq<ReaderStep>;

/// The position that `reader` reports: `Reader::buffer_position`.
pub uninterp spec fn reader_position(reader: Reader<&[u8]>) -> nat;

/// What a call for the next event came to.
pub open spec fn outcome_of(r: Result<XmlEvent, quick_xml::Error>) -> Option<XmlEventView> {
    match r {
        Ok(event) => Some(event@),
        Err(_) => None,
    }
}

/// `quick_xml::Reader`: known by the steps it has still to take and by the
/// position it reports.
#[verifier::external_type_specification]
#[verifier::external_body]
#[verifier::reject_recursive_types(R)]
pub struct ExReader<R>(Reader<R>);

/// The one step over an input that holds nothing: its end, at position 0.
pub open spec fn end_at_once() -> Seq<ReaderStep> {
    seq![ReaderStep { outcome: Some(XmlEventView::Eof), position: 0 }]
}

/// `Reader::from_reader` on a byte slice, then `Reader::trim_text`. What the
/// reader will yield is a function of the bytes and of `trim` alone. On an
/// input that holds nothing, the reader finds no `<` and nothing before it,
/// and reports the end on its first step.
#[verifier::external_body]
pub(crate) fn open_reader<'xml>(xml: &'xml [u8], trim: bool) -> (reader: Reader<&'xml [u8]>)
    ensures
        reader_steps(reader) == xml_steps(xml@, trim),
        xml@.len() == 0 ==> reader_steps(reader) == end_at_once(),
{
    let mut reader = Reader::from_reader(xml);
    reader.trim_text(trim);
    reader
}

/// `Reader::read_event`: takes the reader's next step. The event is handed
/// out with its element name and length (start tag), its bytes (character
/// data) or its element name (end tag). A reader that has no step left is at
/// its end and says so again.
#[verifier::external_body]
pub(crate) fn next_event<'xml>(reader: &mut Reader<&'xml [u8]>) -> (r: Result<
    XmlEvent<'xml>,
    quick_xml::Error,
>)
    ensures
        reader_steps(*old(reader)).len() > 0 ==> outcome_of(r) == reader_steps(
            *old(reader),
        )[0].outcome,
        reader_steps(*old(reader)).len() > 0 ==> reader_position(*final(reader)) == reader_steps(
            *old(reader),
        )[0].position,
        reader_steps(*old(reader)).len() > 0 ==> reader_steps(*final(reader)) == reader_steps(
            *old(reader),
        ).drop_first(),
        reader_steps(*old(reader)).len() == 0 ==> outcome_of(r) == Some(XmlEventView::Eof),
        reader_steps(*old(reader)).len() == 0 ==> reader_steps(*final(reader)).len() == 0,
{
    Ok(
        match reader.read_event()? {
            Event::Start(e) => XmlEvent::Start { name: e.name().into_inner().to_vec(), len: e.len() },
            Event::Text(e) => XmlEvent::Text(e.into_inner()),
            Event::End(e) => XmlEvent::End { name: e.name().into_inner().to_vec() },
            Event::Eof => XmlEvent::Eof,
            _ => XmlEvent::Other,
        },
    )
}

/// `Reader::buffer_position`: how far the reader has read.
#[verifier::external_body]
pub(crate) fn buffer_position(reader: &Reader<&[u8]>) -> (position: usize)
    ensures
        position == reader_position(*reader),
{
    reader.buffer_position()
}

} // verus!
