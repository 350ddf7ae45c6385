//! Reading a request body into documents.
//!
//! The body is walked once, event by event. Between two events the reader is
//! either outside any document or inside one; inside, it gathers the fields
//! of that document and remembers where its `<doc` began.

use crate::bytes::{bytes_eq, ends_with, starts_with};
use crate::util::ProcError;
use crate::xml_attr_parser::{find_attr, first_value_of};
use crate::xml_doc::{is_doc_slice, no_fields, Doc, DocField, DocFieldView, DocView, FieldValue};
use crate::xml_events::{
    buffer_position, end_at_once, next_event, open_reader, reader_steps, xml_steps, ReaderStep,
    XmlEvent, XmlEventView,
};
use vstd::prelude::*;
use vstd::string::StringSliceAdditionalSpecFns;

verus! {

/// How many field names room is made for when a document begins.
pub const FIELD_RESERVE: usize = 36;

/// The message of the error for a document whose bytes do not begin with
/// `<doc` and end with `</doc>`.
pub open spec fn validation_message() -> Seq<char> {
    "ORI_STR_VALIDATION_FAIL"@
}

/// The message of the error for a field map that could not grow.
pub open spec fn reserve_message() -> Seq<char> {
    "HashMap::try_reserve FAIL"@
}

/// The ways in which reading fails that the body alone decides.
pub enum ReadFailure {
    /// The XML reader reported an error.
    Reader,
    /// The bytes of a document do not begin with `<doc` and end with
    /// `</doc>`.
    Validation,
}

/// `error` is the error that stands for `failure`.
pub open spec fn reports(error: ProcError, failure: ReadFailure) -> bool {
    match failure {
        ReadFailure::Reader => error is Xml,
        ReadFailure::Validation => error.says(validation_message()),
    }
}

/// What the reader knows between two events.
pub struct ReadState {
    /// The documents that are complete.
    pub docs: Seq<DocView>,
    /// The fields gathered for the document that is open.
    pub field: DocFieldView,
    /// The name of a field whose text has not been seen yet.
    pub pending_name: Option<Seq<u8>>,
    /// Where the open document began; `None` outside any document.
    pub doc_start: Option<nat>,
}

impl ReadState {
    /// The state before the first event.
    pub open spec fn initial() -> ReadState {
        ReadState {
            docs: Seq::empty(),
            field: DocFieldView { fields: no_fields(), has_changed: false },
            pending_name: None,
            doc_start: None,
        }
    }

    /// Outside a document nothing is gathered and nothing is pending; what
    /// is gathered is text of the body only; every complete document has
    /// valid bytes and unchanged fields.
    pub open spec fn wf(self) -> bool {
        &&& self.doc_start is None ==> self.pending_name is None && self.field.fields
            == no_fields()
        &&& !self.field.has_changed
        &&& self.field.wf()
        &&& forall|i: int| 0 <= i < self.docs.len() ==> as_read(#[trigger] self.docs[i])
    }
}

/// What holds of a document that the reader hands out: its bytes begin with
/// `<doc` and end with `</doc>`, and nothing was added to its fields.
pub open spec fn as_read(doc: DocView) -> bool {
    &&& is_doc_slice(doc.ori_str)
    &&& !doc.field.has_changed
    &&& doc.field.wf()
}

/// The offset of the `<` of a start tag, from the position behind its `>`
/// and the length of what stands between the two.
pub open spec fn tag_start(position: nat, len: nat) -> Option<nat> {
    if position >= len + 2 {
        Some((position - len - 2) as nat)
    } else {
        None
    }
}

/// The attribute region of a start tag: from behind the element name up to
/// the closing `>`.
pub open spec fn attr_region(xml: Seq<u8>, position: nat, len: nat, name_len: nat) -> Option<
    Seq<u8>,
> {
    if name_len <= len && len + 1 <= position && position <= xml.len() + 1 {
        Some(xml.subrange(position - 1 - len + name_len, position - 1))
    } else {
        None
    }
}

/// `event` is the start tag of a document.
pub open spec fn opens_doc(event: XmlEventView) -> bool {
    match event {
        XmlEventView::Start { name, .. } => name == "doc".spec_bytes(),
        _ => false,
    }
}

/// Some step of `steps` yields the start tag of a document.
pub open spec fn opens_a_doc(steps: Seq<ReaderStep>) -> bool {
    exists|i: int|
        0 <= i < steps.len() && match (#[trigger] steps[i]).outcome {
            Some(event) => opens_doc(event),
            None => false,
        }
}

/// The state after a start tag.
pub open spec fn after_start(
    xml: Seq<u8>,
    state: ReadState,
    name: Seq<u8>,
    len: nat,
    position: nat,
) -> ReadState {
    if name == "doc".spec_bytes() {
        match tag_start(position, len) {
            Some(start) => ReadState { doc_start: Some(start), ..state },
            None => state,
        }
    } else if state.doc_start is Some && name == "field".spec_bytes() {
        match attr_region(xml, position, len, name.len()) {
            Some(region) => match first_value_of(region, 0, "name".spec_bytes()) {
                Some(value) => ReadState { pending_name: Some(value), ..state },
                None => state,
            },
            None => state,
        }
    } else {
        state
    }
}

/// The state after character data.
pub open spec fn after_text(state: ReadState, bytes: Seq<u8>) -> ReadState {
    if state.doc_start is None {
        state
    } else {
        match state.pending_name {
            Some(name) => ReadState {
                field: state.field.with_value(name, FieldValue::Raw(bytes)),
                pending_name: None,
                ..state
            },
            None => state,
        }
    }
}

/// The state after an end tag, or the failure that it brings.
pub open spec fn after_end(xml: Seq<u8>, state: ReadState, name: Seq<u8>, position: nat) -> Result<
    ReadState,
    ReadFailure,
> {
    match state.doc_start {
        None => Ok(state),
        Some(start) => if name == "doc".spec_bytes() {
            if start <= position <= xml.len() && is_doc_slice(
                xml.subrange(start as int, position as int),
            ) {
                Ok(
                    ReadState {
                        docs: state.docs.push(
                            DocView {
                                field: state.field,
                                ori_str: xml.subrange(start as int, position as int),
                            },
                        ),
                        field: DocFieldView { fields: no_fields(), has_changed: false },
                        pending_name: None,
                        doc_start: None,
                    },
                )
            } else {
                Err(ReadFailure::Validation)
            }
        } else {
            Ok(ReadState { pending_name: None, ..state })
        },
    }
}

/// The state after `event`, where `position` is what the reader reports
/// behind it, or the failure that the event brings.
pub open spec fn step(xml: Seq<u8>, state: ReadState, event: XmlEventView, position: nat) -> Result<
    ReadState,
    ReadFailure,
> {
    match event {
        XmlEventView::Start { name, len } => Ok(after_start(xml, state, name, len, position)),
        XmlEventView::Text(bytes) => Ok(after_text(state, bytes)),
        XmlEventView::End { name } => after_end(xml, state, name, position),
        XmlEventView::Eof => Ok(state),
        XmlEventView::Other => Ok(state),
    }
}

/// The documents that `steps` yield from `state` on, or the first failure.
/// Reading ends with the end of the input; a document that is still open
/// then is left out.
pub open spec fn read_from(xml: Seq<u8>, steps: Seq<ReaderStep>, state: ReadState) -> Result<
    Seq<DocView>,
    ReadFailure,
>
    decreases steps.len(),
{
    if steps.len() == 0 {
        Ok(state.docs)
    } else {
        match steps[0].outcome {
            None => Err(ReadFailure::Reader),
            Some(XmlEventView::Eof) => Ok(state.docs),
            Some(event) => match step(xml, state, event, steps[0].position) {
                Ok(next) => read_from(xml, steps.drop_first(), next),
                Err(failure) => Err(failure),
            },
        }
    }
}

/// Reading `steps` from `state` on comes to the start tag of a document
/// before it comes to the end of the input or to a failure.
pub open spec fn reaches_a_doc(xml: Seq<u8>, steps: Seq<ReaderStep>, state: ReadState) -> bool
    decreases steps.len(),
{
    if steps.len() == 0 {
        false
    } else {
        match steps[0].outcome {
            None => false,
            Some(XmlEventView::Eof) => false,
            Some(event) => opens_doc(event) || match step(xml, state, event, steps[0].position) {
                Ok(next) => reaches_a_doc(xml, steps.drop_first(), next),
                Err(_) => false,
            },
        }
    }
}

/// Reading the body comes to the start tag of a document.
pub open spec fn opens_docs(xml: Seq<u8>) -> bool {
    reaches_a_doc(xml, xml_steps(xml, true), ReadState::initial())
}

/// Reading comes to the start tag of a document only where some step
/// yields one.
pub proof fn lemma_reached_doc_is_opened(xml: Seq<u8>, steps: Seq<ReaderStep>, state: ReadState)
    requires
        reaches_a_doc(xml, steps, state),
    ensures
        opens_a_doc(steps),
    decreases steps.len(),
{
    let event = steps[0].outcome->0;
    if opens_doc(event) {
        assert(opens_a_doc(steps)) by {
            assert(steps[0].outcome == Some(event));
        }
    } else {
        let next = step(xml, state, event, steps[0].position)->Ok_0;
        let rest = steps.drop_first();
        lemma_reached_doc_is_opened(xml, rest, next);
        let i = choose|i: int|
            0 <= i < rest.len() && match (#[trigger] rest[i]).outcome {
                Some(event) => opens_doc(event),
                None => false,
            };
        assert(steps[i + 1] == rest[i]);
    }
}

/// The documents of a body, or the failure that its bytes bring.
pub open spec fn read_docs(xml: Seq<u8>) -> Result<Seq<DocView>, ReadFailure> {
    read_from(xml, xml_steps(xml, true), ReadState::initial())
}

/// A step keeps a well-formed state well formed.
pub proof fn lemma_step_wf(xml: Seq<u8>, state: ReadState, event: XmlEventView, position: nat)
    requires
        state.wf(),
    ensures
        step(xml, state, event, position) matches Ok(next) ==> next.wf(),
{
    match event {
        XmlEventView::Text(bytes) => {
            if state.doc_start is Some && state.pending_name is Some {
                crate::xml_doc::lemma_with_value_wf(
                    state.field,
                    state.pending_name->0,
                    FieldValue::Raw(bytes),
                );
            }
        },
        XmlEventView::End { name } => {
            if let Ok(next) = after_end(xml, state, name, position) {
                assert(!crate::xml_doc::holds_added_text(no_fields()));
            }
        },
        _ => {},
    }
}

/// Every document that reading yields has bytes that begin with `<doc` and
/// end with `</doc>`, and fields to which nothing was added.
pub proof fn lemma_read_from_valid(xml: Seq<u8>, steps: Seq<ReaderStep>, state: ReadState)
    requires
        state.wf(),
    ensures
        read_from(xml, steps, state) matches Ok(docs) ==> forall|i: int|
            0 <= i < docs.len() ==> as_read(#[trigger] docs[i]),
    decreases steps.len(),
{
    if steps.len() > 0 {
        if let Some(event) = steps[0].outcome {
            if !(event is Eof) {
                lemma_step_wf(xml, state, event, steps[0].position);
                if let Ok(next) = step(xml, state, event, steps[0].position) {
                    lemma_read_from_valid(xml, steps.drop_first(), next);
                }
            }
        }
    }
}

/// The views of a run of documents, in their order.
pub open spec fn doc_views(docs: Seq<Doc>) -> Seq<DocView> {
    docs.map_values(|doc: Doc| doc@)
}

/// The reader between two events: the body, the documents that are
/// complete, and what is gathered for the one that is open.
pub struct DocReader<'xml> {
    xml: &'xml [u8],
    docs: Vec<Doc<'xml>>,
    field: DocField<'xml>,
    pending_name: Option<&'xml [u8]>,
    doc_start: Option<usize>,
}

impl<'xml> View for DocReader<'xml> {
    type V = ReadState;

    closed spec fn view(&self) -> ReadState {
        ReadState {
            docs: doc_views(self.docs@),
            field: self.field@,
            pending_name: match self.pending_name {
                Some(name) => Some(name@),
                None => None,
            },
            doc_start: match self.doc_start {
                Some(start) => Some(start as nat),
                None => None,
            },
        }
    }
}

impl<'xml> DocReader<'xml> {
    /// The body that is being read.
    pub closed spec fn source(&self) -> Seq<u8> {
        self.xml@
    }

    /// A reader that has seen nothing of `xml` yet.
    pub fn new(xml: &'xml [u8]) -> (reader: Self)
        ensures
            reader.source() == xml@,
            reader@ == ReadState::initial(),
            reader@.wf(),
    {
        let reader = Self {
            xml,
            docs: Vec::new(),
            field: DocField::new(),
            pending_name: None,
            doc_start: None,
        };
        assert(doc_views(reader.docs@) =~= Seq::empty());
        reader
    }

    /// Takes one event in, with the position that the XML reader reports
    /// behind it. The state moves as `step` says, unless the event brings a
    /// failure, or room for the fields of a new document could not be had.
    pub fn feed(&mut self, event: XmlEvent<'xml>, position: usize) -> (r: Result<(), ProcError>)
        requires
            old(self)@.wf(),
        ensures
            final(self).source() == old(self).source(),
            match r {
                Ok(()) => step(old(self).source(), old(self)@, event@, position as nat) == Ok::<
                    ReadState,
                    ReadFailure,
                >(final(self)@) && final(self)@.wf(),
                Err(error) => match step(old(self).source(), old(self)@, event@, position as nat) {
                    Ok(_) => error.says(reserve_message()) && opens_doc(event@),
                    Err(failure) => reports(error, failure),
                },
            },
    {
        proof {
            lemma_step_wf(self.xml@, self@, event@, position as nat);
        }
        let xml = self.xml;
        assert(xml@.len() == xml.len());
        match event {
            XmlEvent::Start { name, len } => {
                if bytes_eq(name.as_slice(), "doc".as_bytes()) {
                    if position >= 2 && position - 2 >= len {
                        self.doc_start = Some(position - 2 - len);
                        if self.field.try_reserve(FIELD_RESERVE).is_err() {
                            return Err(ProcError::from_message("HashMap::try_reserve FAIL"));
                        }
                    }
                } else if self.doc_start.is_some() && bytes_eq(name.as_slice(), "field".as_bytes()) {
                    let name_len = name.len();
                    if name_len <= len && position >= 1 && position - 1 >= len && position - 1
                        <= xml.len() {
                        let end = position - 1;
                        let region = vstd::slice::slice_subrange(xml, end - len + name_len, end);
                        if let Some(value) = find_attr(region, "name".as_bytes()) {
                            self.pending_name = Some(value);
                        }
                    }
                }
            },
            XmlEvent::Text(bytes) => {
                if self.doc_start.is_some() {
                    if let Some(name) = self.pending_name {
                        self.field.push_field_borrowed(name, bytes);
                    }
                    self.pending_name = None;
                }
            },
            XmlEvent::End { name } => {
                if let Some(start) = self.doc_start {
                    if bytes_eq(name.as_slice(), "doc".as_bytes()) {
                        if start > position || position > xml.len() {
                            return Err(ProcError::from_message("ORI_STR_VALIDATION_FAIL"));
                        }
                        let ori_str = vstd::slice::slice_subrange(xml, start, position);
                        if !starts_with(ori_str, "<doc".as_bytes()) || !ends_with(
                            ori_str,
                            "</doc>".as_bytes(),
                        ) {
                            return Err(ProcError::from_message("ORI_STR_VALIDATION_FAIL"));
                        }
                        let mut field = DocField::new();
                        std::mem::swap(&mut self.field, &mut field);
                        let ghost before = doc_views(self.docs@);
                        let doc = Doc::new(field, ori_str);
                        self.docs.push(doc);
                        assert(doc_views(self.docs@) =~= before.push(doc@));
                        self.doc_start = None;
                    }
                    self.pending_name = None;
                }
            },
            XmlEvent::Eof => {},
            XmlEvent::Other => {},
        }
        Ok(())
    }

    /// The documents that are complete.
    pub fn finish(self) -> (docs: Vec<Doc<'xml>>)
        ensures
            doc_views(docs@) == self@.docs,
    {
        self.docs
    }
}

/// The two messages of the reader are not the same text.
proof fn lemma_messages_differ()
    ensures
        validation_message() != reserve_message(),
{
    reveal_strlit("ORI_STR_VALIDATION_FAIL");
    reveal_strlit("HashMap::try_reserve FAIL");
    assert(validation_message().len() == 23);
    assert(reserve_message().len() == 25);
}

/// Reads the documents of a request body. Each one borrows its names, its
/// values and its bytes from `xml`.
///
/// What the body holds decides the result, with one exception: where
/// reading comes to the start of a document, room is made for its fields,
/// and reading fails if that room cannot be had. A body in which reading
/// comes to no document is read without such a failure, and a body that
/// holds nothing yields no document.
pub fn read_xml<'xml>(xml: &'xml [u8]) -> (r: Result<Vec<Doc<'xml>>, ProcError>)
    ensures
        match r {
            Ok(docs) => {
                &&& read_docs(xml@) == Ok::<Seq<DocView>, ReadFailure>(doc_views(docs@))
                &&& forall|i: int| 0 <= i < docs.len() ==> as_read(#[trigger] docs[i]@)
            },
            Err(error) => (error.says(reserve_message()) && opens_docs(xml@)) || match read_docs(
                xml@,
            ) {
                Ok(_) => false,
                Err(failure) => reports(error, failure),
            },
        },
        (r matches Err(error) && error.says(reserve_message())) ==> opens_docs(xml@) && opens_a_doc(
            xml_steps(xml@, true),
        ),
        !opens_docs(xml@) ==> (r is Ok <==> read_docs(xml@) is Ok),
        xml@.len() == 0 ==> (r matches Ok(docs) && docs.len() == 0),
{
    let mut reader = open_reader(xml, true);
    let mut state = DocReader::new(xml);
    proof {
        lemma_read_from_valid(xml@, xml_steps(xml@, true), ReadState::initial());
        lemma_messages_differ();
        if opens_docs(xml@) {
            lemma_reached_doc_is_opened(xml@, xml_steps(xml@, true), ReadState::initial());
        }
        if xml@.len() == 0 {
            assert(end_at_once()[0].outcome == Some(XmlEventView::Eof));
            assert(read_docs(xml@) == Ok::<Seq<DocView>, ReadFailure>(Seq::empty()));
        }
    }
    loop
        invariant_except_break
            read_docs(xml@) == read_from(xml@, reader_steps(reader), state@),
            reaches_a_doc(xml@, reader_steps(reader), state@) ==> opens_docs(xml@),
            xml@.len() == 0 ==> reader_steps(reader) == end_at_once(),
        invariant
            state.source() == xml@,
            state@.wf(),
            opens_docs(xml@) ==> opens_a_doc(xml_steps(xml@, true)),
            xml@.len() == 0 ==> read_docs(xml@) == Ok::<Seq<DocView>, ReadFailure>(Seq::empty()),
            validation_message() != reserve_message(),
        ensures
            read_docs(xml@) == Ok::<Seq<DocView>, ReadFailure>(state@.docs),
        decreases reader_steps(reader).len(),
    {
        let event = match next_event(&mut reader) {
            Ok(event) => event,
            Err(error) => {
                return Err(ProcError::Xml(error));
            },
        };
        if let XmlEvent::Eof = event {
            break ;
        }
        let position = buffer_position(&reader);
        match state.feed(event, position) {
            Ok(()) => {},
            Err(error) => {
                return Err(error);
            },
        }
    }
    let docs = state.finish();
    proof {
        assert forall|i: int| 0 <= i < docs.len() implies as_read(#[trigger] docs[i]@) by {
            assert(doc_views(docs@)[i] == docs[i]@);
        }
        if xml@.len() == 0 {
            assert(doc_views(docs@).len() == 0);
        }
    }
    Ok(docs)
}

} // verus!
