//! Writing the documents of a request back into a body.
//!
//! Where nothing was added to any document, nothing is written: the caller
//! forwards the body it received. Otherwise the documents are written into a
//! new `<add>` element, the unchanged ones byte for byte as they were read.

use crate::util::ProcError;
use crate::xml_doc::{
    cow_bytes, lists_entries, listing_view, value_views, BytesOrStr, Doc, DocView, FieldValue,
};
use crate::xml_reader::doc_views;
use crate::xml_sink::{
    end_tag, escaped, into_bytes, new_sink, start_tag, start_tag_with_attr, write_end, write_raw,
    write_start, write_start_with_attr, write_text, written,
};
use quick_xml::Writer;
use vstd::prelude::*;
use vstd::string::StringSliceAdditionalSpecFns;
use vstd::utf8::encode_utf8;

verus! {

/// What writing came to.
#[derive(Debug)]
pub enum WriteOk {
    /// Nothing was changed: only the number of documents is handed back, and
    /// the body that was received can be used again.
    NoChanged(usize),
    /// Something was changed: the new body and the number of documents.
    Changed(Vec<u8>, usize),
}

/// The bytes that stand for a value between the tags of its field: text of
/// the request as it was, added text escaped.
pub open spec fn value_bytes(value: FieldValue) -> Seq<u8> {
    match value {
        FieldValue::Raw(bytes) => bytes,
        FieldValue::Text(text) => escaped(encode_utf8(text)),
    }
}

/// `<field name="NAME">VALUE</field>`
pub open spec fn field_bytes(name: Seq<u8>, value: FieldValue) -> Seq<u8> {
    start_tag_with_attr("field".spec_bytes(), "name".spec_bytes(), name) + value_bytes(value)
        + end_tag("field".spec_bytes())
}

/// One field element for each value of a name, in the order of the values.
pub open spec fn values_bytes(name: Seq<u8>, values: Seq<FieldValue>) -> Seq<u8> {
    values.map_values(|value: FieldValue| field_bytes(name, value)).flatten()
}

/// The field elements of a listing, name by name in its order.
pub open spec fn listing_bytes(listing: Seq<(Seq<u8>, Seq<FieldValue>)>) -> Seq<u8> {
    listing.map_values(|entry: (Seq<u8>, Seq<FieldValue>)| values_bytes(entry.0, entry.1)).flatten()
}

/// A document written anew from a listing of its fields.
pub open spec fn rewritten_doc(listing: Seq<(Seq<u8>, Seq<FieldValue>)>) -> Seq<u8> {
    start_tag("doc".spec_bytes()) + listing_bytes(listing) + end_tag("doc".spec_bytes())
}

/// `part` is what is written for `doc`: its original bytes where nothing was
/// added to it; otherwise `<doc>`, its fields in some order of the names with
/// the values of each name in their own order, and `</doc>`.
pub open spec fn renders(doc: DocView, part: Seq<u8>) -> bool {
    if doc.field.has_changed {
        exists|listing: Seq<(Seq<u8>, Seq<FieldValue>)>|
            lists_entries(listing, doc.field.fields) && part == #[trigger] rewritten_doc(listing)
    } else {
        part == doc.ori_str
    }
}

/// `parts` holds, for each of `docs` in their order, what is written for it.
pub open spec fn render_all(docs: Seq<DocView>, parts: Seq<Seq<u8>>) -> bool {
    &&& parts.len() == docs.len()
    &&& forall|i: int| 0 <= i < docs.len() ==> renders(#[trigger] docs[i], parts[i])
}

/// `bytes` is a body written for `docs`: `<add>`, the documents in their
/// order, `</add>`.
pub open spec fn is_rewrite_of(bytes: Seq<u8>, docs: Seq<DocView>) -> bool {
    exists|parts: Seq<Seq<u8>>| #[trigger]
        render_all(docs, parts) && bytes == start_tag("add".spec_bytes()) + parts.flatten()
            + end_tag("add".spec_bytes())
}

/// Something was added to one of the documents.
pub open spec fn any_changed(docs: Seq<DocView>) -> bool {
    exists|i: int| 0 <= i < docs.len() && (#[trigger] docs[i]).field.has_changed
}

/// The sum of the lengths of the original bytes of the documents.
pub open spec fn original_len(docs: Seq<DocView>) -> nat
    decreases docs.len(),
{
    if docs.len() == 0 {
        0
    } else {
        original_len(docs.drop_last()) + docs.last().ori_str.len()
    }
}

/// A new body is written where something was added to a document and the
/// documents have original bytes at all.
pub open spec fn needs_rewrite(docs: Seq<DocView>) -> bool {
    any_changed(docs) && original_len(docs) > 0
}

fn from_xml(r: Result<(), quick_xml::Error>) -> (out: Result<(), ProcError>)
    ensures
        r is Ok <==> out is Ok,
        out matches Err(error) ==> error is Xml,
{
    match r {
        Ok(()) => Ok(()),
        Err(error) => Err(ProcError::Xml(error)),
    }
}

fn from_io(r: Result<(), std::io::Error>) -> (out: Result<(), ProcError>)
    ensures
        r is Ok <==> out is Ok,
        out matches Err(error) ==> error is Io,
{
    match r {
        Ok(()) => Ok(()),
        Err(error) => Err(ProcError::Io(error)),
    }
}

/// Writes one field element for each of `values`.
fn write_values(sink: &mut Writer<Vec<u8>>, name: &[u8], values: &Vec<BytesOrStr>) -> (r:
    Result<(), ProcError>)
    ensures
        r is Ok,
        written(*final(sink)) == written(*old(sink)) + values_bytes(name@, value_views(values@)),
{
    let ghost start = written(*sink);
    let ghost views = value_views(values@);
    let ghost pieces = views.map_values(|value: FieldValue| field_bytes(name@, value));
    let mut i: usize = 0;
    assert(pieces.take(0) =~= Seq::<Seq<u8>>::empty());
    while i < values.len()
        invariant
            i <= values.len(),
            views == value_views(values@),
            pieces == views.map_values(|value: FieldValue| field_bytes(name@, value)),
            written(*sink) == start + pieces.take(i as int).flatten(),
        decreases values.len() - i,
    {
        let ghost before = written(*sink);
        from_xml(write_start_with_attr(sink, "field", "name".as_bytes(), name))?;
        match &values[i] {
            BytesOrStr::Bytes(bytes) => {
                from_io(write_raw(sink, cow_bytes(bytes)))?;
            },
            BytesOrStr::Str(text, _) => {
                from_xml(write_text(sink, text.as_str()))?;
            },
        }
        from_xml(write_end(sink, "field"))?;
        proof {
            let piece = field_bytes(name@, values@[i as int]@);
            assert(views[i as int] == values@[i as int]@);
            assert(pieces[i as int] == piece);
            assert(written(*sink) =~= before + piece);
            assert(pieces.take(i + 1) =~= pieces.take(i as int).push(piece));
            Seq::lemma_flatten_push(pieces.take(i as int), piece);
        }
        i += 1;
    }
    assert(pieces.take(values.len() as int) =~= pieces);
    Ok(())
}

/// Writes the field elements of a listing.
fn write_listing(sink: &mut Writer<Vec<u8>>, entries: &Vec<(&[u8], Vec<BytesOrStr>)>) -> (r:
    Result<(), ProcError>)
    ensures
        r is Ok,
        written(*final(sink)) == written(*old(sink)) + listing_bytes(listing_view(entries@)),
{
    let ghost start = written(*sink);
    let ghost listing = listing_view(entries@);
    let ghost pieces = listing.map_values(
        |entry: (Seq<u8>, Seq<FieldValue>)| values_bytes(entry.0, entry.1),
    );
    let mut i: usize = 0;
    assert(pieces.take(0) =~= Seq::<Seq<u8>>::empty());
    while i < entries.len()
        invariant
            i <= entries.len(),
            listing == listing_view(entries@),
            pieces == listing.map_values(
                |entry: (Seq<u8>, Seq<FieldValue>)| values_bytes(entry.0, entry.1),
            ),
            written(*sink) == start + pieces.take(i as int).flatten(),
        decreases entries.len() - i,
    {
        let ghost before = written(*sink);
        write_values(sink, entries[i].0, &entries[i].1)?;
        proof {
            let piece = values_bytes(entries@[i as int].0@, value_views(entries@[i as int].1@));
            assert(pieces[i as int] == piece);
            assert(written(*sink) =~= before + piece);
            assert(pieces.take(i + 1) =~= pieces.take(i as int).push(piece));
            Seq::lemma_flatten_push(pieces.take(i as int), piece);
        }
        i += 1;
    }
    assert(pieces.take(entries.len() as int) =~= pieces);
    Ok(())
}

/// Writes one document: its original bytes where nothing was added to it,
/// else `<doc>`, its fields and `</doc>`.
fn write_doc(sink: &mut Writer<Vec<u8>>, doc: Doc) -> (r: Result<Ghost<Seq<u8>>, ProcError>)
    ensures
        r matches Ok(part) && renders(doc@, part@) && written(*final(sink)) == written(
            *old(sink),
        ) + part@,
{
    let ghost before = written(*sink);
    let (doc_field, ori_str) = doc.into_inner();
    let (entries, has_changed) = doc_field.into_entries();
    if has_changed {
        from_xml(write_start(sink, "doc"))?;
        write_listing(sink, &entries)?;
        from_xml(write_end(sink, "doc"))?;
        let ghost part = rewritten_doc(listing_view(entries@));
        assert(written(*sink) =~= before + part);
        Ok(Ghost(part))
    } else {
        from_io(write_raw(sink, ori_str))?;
        Ok(Ghost(ori_str@))
    }
}

/// Whether something was added to one of `docs`.
fn is_any_changed(docs: &Vec<Doc>) -> (r: bool)
    ensures
        r == any_changed(doc_views(docs@)),
{
    let mut i: usize = 0;
    while i < docs.len()
        invariant
            i <= docs.len(),
            forall|j: int| 0 <= j < i ==> !(#[trigger] doc_views(docs@)[j]).field.has_changed,
        decreases docs.len() - i,
    {
        if docs[i].field().has_changed() {
            assert(doc_views(docs@)[i as int].field.has_changed);
            return true;
        }
        i += 1;
    }
    false
}

/// The room to make for the new body: twice the original bytes of the
/// documents, as far as a buffer can be that large. The result is 0 exactly
/// when the documents have no original bytes.
fn buffer_capacity(docs: &Vec<Doc>) -> (capacity: usize)
    ensures
        capacity <= usize::MAX / 2,
        capacity == 0 <==> original_len(doc_views(docs@)) == 0,
{
    let limit: usize = usize::MAX / 4;
    let mut sum: usize = 0;
    let mut i: usize = 0;
    assert(doc_views(docs@).take(0) =~= Seq::<DocView>::empty());
    while i < docs.len()
        invariant
            i <= docs.len(),
            sum <= limit,
            limit == usize::MAX / 4,
            sum == 0 <==> original_len(doc_views(docs@).take(i as int)) == 0,
        decreases docs.len() - i,
    {
        let len = docs[i].ori_str().len();
        proof {
            let views = doc_views(docs@);
            assert(views.take(i + 1).drop_last() =~= views.take(i as int));
            assert(views.take(i + 1).last() == docs@[i as int]@);
        }
        if len > limit - sum {
            sum = limit;
        } else {
            sum = sum + len;
        }
        i += 1;
    }
    assert(doc_views(docs@).take(docs.len() as int) =~= doc_views(docs@));
    sum * 2
}

/// Writes the documents back into a body, or finds that the body that was
/// received can stand.
///
/// Writing never fails: the new body is gathered in memory. It is
/// `NoChanged` exactly where nothing was added to any document or the
/// documents have no original bytes, and `Changed` with the new body
/// otherwise; the count is the number of documents in both.
pub fn write_xml(docs: Vec<Doc>) -> (r: Result<WriteOk, ProcError>)
    ensures
        match r {
            Ok(WriteOk::NoChanged(doc_cnt)) => doc_cnt == docs.len() && !needs_rewrite(
                doc_views(docs@),
            ),
            Ok(WriteOk::Changed(bytes, doc_cnt)) => doc_cnt == docs.len() && needs_rewrite(
                doc_views(docs@),
            ) && is_rewrite_of(bytes@, doc_views(docs@)),
            Err(_) => false,
        },
{
    let doc_cnt = docs.len();
    if !is_any_changed(&docs) {
        return Ok(WriteOk::NoChanged(doc_cnt));
    }
    let capacity = buffer_capacity(&docs);
    if capacity == 0 {
        return Ok(WriteOk::NoChanged(doc_cnt));
    }
    let ghost all = doc_views(docs@);
    let ghost all_docs = docs@;
    let ghost mut parts: Seq<Seq<u8>> = Seq::empty();
    let mut sink = new_sink(capacity);
    from_xml(write_start(&mut sink, "add"))?;
    for doc in it: docs.into_iter()
        invariant
            it.seq() == all_docs,
            all_docs == docs@,
            all == doc_views(all_docs),
            needs_rewrite(all),
            render_all(all.take(it.index() as int), parts),
            written(sink) == start_tag("add".spec_bytes()) + parts.flatten(),
    {
        let ghost before = written(sink);
        let part = write_doc(&mut sink, doc)?;
        proof {
            let n = it.index() as int;
            assert(all[n] == doc@);
            assert(all.take(n + 1) =~= all.take(n).push(doc@));
            Seq::lemma_flatten_push(parts, part@);
            assert(written(sink) =~= start_tag("add".spec_bytes()) + (parts.flatten() + part@));
            parts = parts.push(part@);
        }
    }
    from_xml(write_end(&mut sink, "add"))?;
    let bytes = into_bytes(sink);
    proof {
        assert(all.take(all.len() as int) =~= all);
        assert(render_all(all, parts));
    }
    Ok(WriteOk::Changed(bytes, doc_cnt))
}

} // verus!
