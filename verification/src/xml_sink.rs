//! The XML writer of `quick_xml` over a byte buffer, as far as the proxy
//! writes with it.
//!
//! The buffer is a `Vec<u8>`. `Write` is implemented for it by appending to
//! the vector, which grows as needed, and the writer reports no error but
//! those of its buffer: so every write here succeeds.

use quick_xml::events::attributes::Attribute;
use quick_xml::events::{BytesEnd, BytesStart, BytesText, Event};
use quick_xml::name::QName;
use quick_xml::Writer;
use std::borrow::Cow;
use std::io::Write;
use vstd::prelude::*;
use vstd::string::StringSliceAdditionalSpecFns;

verus! {

/// `quick_xml::Writer`: known by the bytes it has put out.
#[verifier::external_type_specification]
#[verifier::external_body]
#[verifier::reject_recursive_types(W)]
pub struct ExWriter<W>(Writer<W>);

/// `std::io::Error`: carried through as it is, never looked into.
#[verifier::external_type_specification]
#[verifier::external_body]
pub struct ExIoError(std::io::Error);

/// The bytes that a writer has put out so far.
pub uninterp spec fn written(sink: Writer<Vec<u8>>) -> Seq<u8>;

/// `<name>`
pub open spec fn start_tag(name: Seq<u8>) -> Seq<u8> {
    "<".spec_bytes() + name + ">".spec_bytes()
}

/// `<name key="value">`
pub open spec fn start_tag_with_attr(name: Seq<u8>, key: Seq<u8>, value: Seq<u8>) -> Seq<u8> {
    "<".spec_bytes() + name + " ".spec_bytes() + key + "=\"".spec_bytes() + value
        + "\"".spec_bytes() + ">".spec_bytes()
}

/// `</name>`
pub open spec fn end_tag(name: Seq<u8>) -> Seq<u8> {
    "</".spec_bytes() + name + ">".spec_bytes()
}

/// What stands for one byte of literal text in XML: `<`, `>`, `&`, `'` and
/// `"` are replaced by their entity references, every other byte stays.
pub open spec fn escaped_byte(b: u8) -> Seq<u8> {
    if b == 60 {
        "&lt;".spec_bytes()
    } else if b == 62 {
        "&gt;".spec_bytes()
    } else if b == 38 {
        "&amp;".spec_bytes()
    } else if b == 39 {
        "&apos;".spec_bytes()
    } else if b == 34 {
        "&quot;".spec_bytes()
    } else {
        seq![b]
    }
}

/// Literal text in the form in which it stands in XML.
pub open spec fn escaped(text: Seq<u8>) -> Seq<u8> {
    text.map_values(|b: u8| escaped_byte(b)).flatten()
}

/// `Writer::new` over a `Vec` made with `Vec::with_capacity`, which takes
/// no more than `isize::MAX` bytes. Nothing is written yet, and the writer
/// adds no indentation of its own.
#[verifier::external_body]
pub(crate) fn new_sink(capacity: usize) -> (sink: Writer<Vec<u8>>)
    requires
        capacity <= usize::MAX / 2,
    ensures
        written(sink) == Seq::<u8>::empty(),
{
    Writer::new(Vec::with_capacity(capacity))
}

/// `Writer::write_event` with a start tag made by `BytesStart::new`: it
/// appends `<name>` to the buffer and succeeds.
#[verifier::external_body]
pub(crate) fn write_start(sink: &mut Writer<Vec<u8>>, name: &str) -> (r: Result<
    (),
    quick_xml::Error,
>)
    ensures
        r is Ok,
        written(*final(sink)) == written(*old(sink)) + start_tag(name.spec_bytes()),
{
    sink.write_event(Event::Start(BytesStart::new(name)))
}

/// `Writer::write_event` with a start tag made by `BytesStart::new` and
/// `BytesStart::push_attribute`: it appends `<name key="value">` to the
/// buffer, with `key` and `value` as they were given, and succeeds.
#[verifier::external_body]
pub(crate) fn write_start_with_attr(
    sink: &mut Writer<Vec<u8>>,
    name: &str,
    key: &[u8],
    value: &[u8],
) -> (r: Result<(), quick_xml::Error>)
    ensures
        r is Ok,
        written(*final(sink)) == written(*old(sink)) + start_tag_with_attr(
            name.spec_bytes(),
            key@,
            value@,
        ),
{
    let mut start = BytesStart::new(name);
    start.push_attribute(Attribute { key: QName(key), value: Cow::Borrowed(value) });
    sink.write_event(Event::Start(start))
}

/// `Writer::write_event` with an end tag made by `BytesEnd::new`: it appends
/// `</name>` to the buffer and succeeds.
#[verifier::external_body]
pub(crate) fn write_end(sink: &mut Writer<Vec<u8>>, name: &str) -> (r: Result<
    (),
    quick_xml::Error,
>)
    ensures
        r is Ok,
        written(*final(sink)) == written(*old(sink)) + end_tag(name.spec_bytes()),
{
    sink.write_event(Event::End(BytesEnd::new(name)))
}

/// `Writer::write_event` with character data made by `BytesText::new`, which
/// escapes its text: it appends the escaped text to the buffer and succeeds.
#[verifier::external_body]
pub(crate) fn write_text(sink: &mut Writer<Vec<u8>>, text: &str) -> (r: Result<
    (),
    quick_xml::Error,
>)
    ensures
        r is Ok,
        written(*final(sink)) == written(*old(sink)) + escaped(text.spec_bytes()),
{
    sink.write_event(Event::Text(BytesText::new(text)))
}

/// `Write::write_all` on the buffer under the writer (`Writer::get_mut`): it
/// appends `bytes` as they are and succeeds.
#[verifier::external_body]
pub(crate) fn write_raw(sink: &mut Writer<Vec<u8>>, bytes: &[u8]) -> (r: Result<
    (),
    std::io::Error,
>)
    ensures
        r is Ok,
        written(*final(sink)) == written(*old(sink)) + bytes@,
{
    sink.get_mut().write_all(bytes)
}

/// `Writer::into_inner`: the buffer, which holds all that was written.
#[verifier::external_body]
pub(crate) fn into_bytes(sink: Writer<Vec<u8>>) -> (bytes: Vec<u8>)
    ensures
        bytes@ == written(sink),
{
    sink.into_inner()
}

} // verus!
