//! The document model: field values, the field multimap with its dirty flag,
//! and a document with the bytes it was read from.

use smallvec::SmallVec;
use std::borrow::Cow;
use vstd::prelude::*;
use vstd::string::StringSliceAdditionalSpecFns;

verus! {

/// What a field value stands for.
pub enum FieldValue {
    /// Bytes taken from the request body as they stood there, entity
    /// references included.
    Raw(Seq<u8>),
    /// Literal text that the proxy put in.
    Text(Seq<char>),
}

/// One value of a field.
#[derive(Debug)]
pub enum BytesOrStr<'xml> {
    /// Text of the request body, still escaped.
    Bytes(Cow<'xml, [u8]>),
    /// Text that was added or changed, in literal form, with the original
    /// text that it superseded where there was one.
    Str(String, Option<Cow<'xml, [u8]>>),
}

impl<'xml> View for BytesOrStr<'xml> {
    type V = FieldValue;

    open spec fn view(&self) -> FieldValue {
        match self {
            BytesOrStr::Bytes(bytes) => FieldValue::Raw(bytes@),
            BytesOrStr::Str(text, _) => FieldValue::Text(text@),
        }
    }
}

/// The views of a run of values, in their order.
pub open spec fn value_views(values: Seq<BytesOrStr>) -> Seq<FieldValue> {
    values.map_values(|v: BytesOrStr| v@)
}

/// The text that `raw` stands for: `raw` decoded as UTF-8, with every
/// entity reference replaced by the character it names. `None` where `raw`
/// is not UTF-8 or holds a reference that cannot be resolved.
pub uninterp spec fn xml_unescaped(raw: Seq<u8>) -> Option<Seq<char>>;

/// `quick_xml::Error`: carried through as it is, never looked into.
#[verifier::external_type_specification]
#[verifier::external_body]
pub struct ExXmlError(quick_xml::Error);

/// `hashbrown::TryReserveError`: carried through as it is, never looked into.
#[verifier::external_type_specification]
#[verifier::external_body]
pub struct ExTryReserveError(hashbrown::TryReserveError);

/// Decodes `raw` with `std::str::from_utf8` and resolves its entity
/// references with `quick_xml::escape::unescape`, which is what
/// `BytesText::unescape` does with the text of an event. The result is a
/// function of `raw` alone; an error comes exactly where there is no result.
#[verifier::external_body]
fn unescape_bytes<'a>(raw: &'a [u8]) -> (r: Result<Cow<'a, str>, quick_xml::Error>)
    ensures
        match r {
            Ok(text) => xml_unescaped(raw@) == Some(text@),
            Err(_) => xml_unescaped(raw@) is None,
        },
{
    let text = std::str::from_utf8(raw)?;
    Ok(quick_xml::escape::unescape(text)?)
}

/// The bytes that a `Cow` holds, borrowed or owned.
pub fn cow_bytes<'a>(bytes: &'a Cow<'_, [u8]>) -> (r: &'a [u8])
    ensures
        r@ == bytes@,
{
    match bytes {
        Cow::Borrowed(b) => b,
        Cow::Owned(v) => v.as_slice(),
    }
}

impl<'xml> BytesOrStr<'xml> {
    /// The value as text: original bytes are decoded and unescaped, added
    /// text is handed out as it is.
    pub fn to_unescape_str(&self) -> (r: Result<Cow<'_, str>, quick_xml::Error>)
        ensures
            match self@ {
                FieldValue::Raw(raw) => match xml_unescaped(raw) {
                    Some(text) => r matches Ok(s) && s@ == text,
                    None => r is Err,
                },
                FieldValue::Text(text) => r matches Ok(s) && s@ == text,
            },
    {
        match self {
            BytesOrStr::Bytes(bytes) => unescape_bytes(cow_bytes(bytes)),
            BytesOrStr::Str(text, _) => Ok(Cow::Borrowed(text.as_str())),
        }
    }
}

/// The multimap from field name to values, kept in a `hashbrown::HashMap`
/// whose values are `SmallVec`s with room for one value inline.
#[verifier::external_body]
#[derive(Debug)]
pub struct FieldMap<'xml> {
    inner: hashbrown::HashMap<&'xml [u8], SmallVec<[BytesOrStr<'xml>; 1]>>,
}

/// What a field map holds: for each name that occurs, its values in the
/// order in which they were pushed.
pub uninterp spec fn field_map_entries(map: FieldMap) -> Map<Seq<u8>, Seq<FieldValue>>;

/// The entries of a map that holds nothing.
pub open spec fn no_fields() -> Map<Seq<u8>, Seq<FieldValue>> {
    Map::empty()
}

/// The values under `name`, none where the name does not occur.
pub open spec fn values_of(entries: Map<Seq<u8>, Seq<FieldValue>>, name: Seq<u8>) -> Seq<
    FieldValue,
> {
    if entries.contains_key(name) {
        entries[name]
    } else {
        Seq::empty()
    }
}

/// `listing` names every field of `entries` once, each with its values.
pub open spec fn lists_entries(
    listing: Seq<(Seq<u8>, Seq<FieldValue>)>,
    entries: Map<Seq<u8>, Seq<FieldValue>>,
) -> bool {
    &&& forall|i: int|
        0 <= i < listing.len() ==> entries.contains_key(#[trigger] listing[i].0)
            && entries[listing[i].0] == listing[i].1
    &&& forall|name: Seq<u8>| #[trigger]
        entries.contains_key(name) ==> exists|i: int|
            0 <= i < listing.len() && #[trigger] listing[i].0 == name
    &&& forall|i: int, j: int|
        0 <= i < j < listing.len() ==> #[trigger] listing[i].0 != #[trigger] listing[j].0
}

/// The view of what `FieldMap::into_entries` hands out.
pub open spec fn listing_view(items: Seq<(&[u8], Vec<BytesOrStr>)>) -> Seq<
    (Seq<u8>, Seq<FieldValue>),
> {
    items.map_values(|item: (&[u8], Vec<BytesOrStr>)| (item.0@, value_views(item.1@)))
}

impl<'xml> FieldMap<'xml> {
    /// `HashMap::new`: a map that holds nothing.
    #[verifier::external_body]
    pub(crate) fn new() -> (made: Self)
        ensures
            field_map_entries(made) == no_fields(),
    {
        FieldMap { inner: hashbrown::HashMap::new() }
    }

    /// `HashMap::try_reserve`: makes room for `additional` more names, or
    /// reports that the memory could not be had. What the map holds stays.
    #[verifier::external_body]
    pub(crate) fn try_reserve(&mut self, additional: usize) -> (r: Result<
        (),
        hashbrown::TryReserveError,
    >)
        ensures
            field_map_entries(*final(self)) == field_map_entries(*old(self)),
    {
        self.inner.try_reserve(additional)
    }

    /// `HashMap::get`: the values under `name`, where the name occurs.
    #[verifier::external_body]
    pub(crate) fn get(&self, name: &[u8]) -> (r: Option<&[BytesOrStr<'xml>]>)
        ensures
            match r {
                Some(values) => field_map_entries(*self).contains_key(name@) && value_views(
                    values@,
                ) == field_map_entries(*self)[name@],
                None => !field_map_entries(*self).contains_key(name@),
            },
    {
        self.inner.get(name).map(|values| values.as_slice())
    }

    /// `HashMap::entry` with `or_insert_with(SmallVec::new)`, then
    /// `SmallVec::push`: `value` goes behind the values that `name` has, or
    /// becomes its first.
    #[verifier::external_body]
    pub(crate) fn push(&mut self, name: &'xml [u8], value: BytesOrStr<'xml>)
        ensures
            field_map_entries(*final(self)) == field_map_entries(*old(self)).insert(
                name@,
                values_of(field_map_entries(*old(self)), name@).push(value@),
            ),
    {
        self.inner.entry(name).or_insert_with(SmallVec::new).push(value);
    }

    /// `HashMap::into_iter`: every name once, with its values in their
    /// order. The order of the names is the map's own and is not stated.
    #[verifier::external_body]
    pub(crate) fn into_entries(self) -> (items: Vec<(&'xml [u8], Vec<BytesOrStr<'xml>>)>)
        ensures
            lists_entries(listing_view(items@), field_map_entries(self)),
    {
        self.inner.into_iter().map(|(name, values)| (name, values.into_vec())).collect()
    }
}

/// Whether some value of `entries` is text that the proxy put in.
pub open spec fn holds_added_text(entries: Map<Seq<u8>, Seq<FieldValue>>) -> bool {
    exists|name: Seq<u8>, i: int|
        entries.contains_key(name) && 0 <= i < entries[name].len()
            && #[trigger] entries[name][i] is Text
}

/// What a `DocField` stands for.
pub struct DocFieldView {
    pub fields: Map<Seq<u8>, Seq<FieldValue>>,
    pub has_changed: bool,
}

/// The fields of one document, with a flag that says whether anything was
/// added to them since they were read.
#[derive(Debug)]
pub struct DocField<'xml> {
    field: FieldMap<'xml>,
    has_changed: bool,
}

impl<'xml> View for DocField<'xml> {
    type V = DocFieldView;

    closed spec fn view(&self) -> DocFieldView {
        DocFieldView { fields: field_map_entries(self.field), has_changed: self.has_changed }
    }
}

impl DocFieldView {
    /// The flag is set exactly when the fields hold some added text.
    pub open spec fn wf(self) -> bool {
        self.has_changed == holds_added_text(self.fields)
    }

    /// The fields after `value` has been pushed under `name`.
    pub open spec fn with_value(self, name: Seq<u8>, value: FieldValue) -> DocFieldView {
        DocFieldView {
            fields: self.fields.insert(name, values_of(self.fields, name).push(value)),
            has_changed: self.has_changed || value is Text,
        }
    }
}

/// Pushing a value keeps the flag in step with the fields.
pub proof fn lemma_with_value_wf(fields: DocFieldView, name: Seq<u8>, value: FieldValue)
    requires
        fields.wf(),
    ensures
        fields.with_value(name, value).wf(),
{
    let old_values = values_of(fields.fields, name);
    let after = fields.with_value(name, value);
    assert(after.fields[name] == old_values.push(value));
    if value is Text {
        assert(after.fields.contains_key(name) && after.fields[name][old_values.len() as int]
            is Text);
    } else if holds_added_text(fields.fields) {
        let (n, i) = choose|n: Seq<u8>, i: int|
            fields.fields.contains_key(n) && 0 <= i < fields.fields[n].len()
                && #[trigger] fields.fields[n][i] is Text;
        assert(after.fields.contains_key(n) && 0 <= i < after.fields[n].len()
            && after.fields[n][i] is Text);
    } else if holds_added_text(after.fields) {
        let (n, i) = choose|n: Seq<u8>, i: int|
            after.fields.contains_key(n) && 0 <= i < after.fields[n].len()
                && #[trigger] after.fields[n][i] is Text;
        if n == name {
            assert(i < old_values.len());
            assert(fields.fields.contains_key(n) && fields.fields[n][i] is Text);
        } else {
            assert(fields.fields.contains_key(n) && fields.fields[n][i] is Text);
        }
    }
}

impl<'xml> DocField<'xml> {
    pub fn new() -> (fields: Self)
        ensures
            fields@.fields == no_fields(),
            !fields@.has_changed,
            fields@.wf(),
    {
        Self { field: FieldMap::new(), has_changed: false }
    }

    pub fn has_changed(&self) -> (changed: bool)
        ensures
            changed == self@.has_changed,
    {
        self.has_changed
    }

    /// The values under `key`, in the order in which they were pushed.
    pub fn get(&self, key: &[u8]) -> (r: Option<&[BytesOrStr<'xml>]>)
        ensures
            match r {
                Some(values) => self@.fields.contains_key(key@) && value_views(values@)
                    == self@.fields[key@],
                None => !self@.fields.contains_key(key@),
            },
    {
        self.field.get(key)
    }

    /// Makes room for `size` more names. The fields stay as they are whether
    /// or not the memory could be had.
    pub fn try_reserve(&mut self, size: usize) -> (r: Result<(), hashbrown::TryReserveError>)
        ensures
            final(self)@ == old(self)@,
    {
        self.field.try_reserve(size)
    }

    /// The multimap and the flag.
    pub fn into_inner(self) -> (parts: (FieldMap<'xml>, bool))
        ensures
            field_map_entries(parts.0) == self@.fields,
            parts.1 == self@.has_changed,
    {
        (self.field, self.has_changed)
    }

    /// Every name once, with its values, and the flag. The order of the
    /// names is not fixed.
    pub fn into_entries(self) -> (parts: (Vec<(&'xml [u8], Vec<BytesOrStr<'xml>>)>, bool))
        ensures
            lists_entries(listing_view(parts.0@), self@.fields),
            parts.1 == self@.has_changed,
    {
        (self.field.into_entries(), self.has_changed)
    }

    /// Pushes text of the proxy's own under `name` and sets the flag.
    pub fn push_field_owned(&mut self, name: &'xml [u8], value: String)
        ensures
            final(self)@ == old(self)@.with_value(name@, FieldValue::Text(value@)),
            final(self)@.has_changed,
            old(self)@.wf() ==> final(self)@.wf(),
    {
        proof {
            if self@.wf() {
                lemma_with_value_wf(self@, name@, FieldValue::Text(value@));
            }
        }
        self.field.push(name, BytesOrStr::Str(value, None));
        self.has_changed = true;
    }

    /// Pushes text of the request body under `name`. The flag stays.
    pub fn push_field_borrowed(&mut self, name: &'xml [u8], bytes: Cow<'xml, [u8]>)
        ensures
            final(self)@ == old(self)@.with_value(name@, FieldValue::Raw(bytes@)),
            final(self)@.has_changed == old(self)@.has_changed,
            old(self)@.wf() ==> final(self)@.wf(),
    {
        proof {
            if self@.wf() {
                lemma_with_value_wf(self@, name@, FieldValue::Raw(bytes@));
            }
        }
        self.field.push(name, BytesOrStr::Bytes(bytes));
    }
}

/// What a `Doc` stands for.
pub struct DocView {
    pub field: DocFieldView,
    pub ori_str: Seq<u8>,
}

/// A document's bytes begin with `<doc` and end with `</doc>`.
pub open spec fn is_doc_slice(bytes: Seq<u8>) -> bool {
    "<doc".spec_bytes().is_prefix_of(bytes) && "</doc>".spec_bytes().is_suffix_of(bytes)
}

/// One document of a request: its fields, and the bytes from its `<doc` to
/// the end of its `</doc>` as they stood in the body.
#[derive(Debug)]
pub struct Doc<'xml> {
    field: DocField<'xml>,
    ori_str: &'xml [u8],
}

impl<'xml> View for Doc<'xml> {
    type V = DocView;

    closed spec fn view(&self) -> DocView {
        DocView { field: self.field@, ori_str: self.ori_str@ }
    }
}

impl<'xml> Doc<'xml> {
    pub fn new(field: DocField<'xml>, ori_str: &'xml [u8]) -> (doc: Self)
        ensures
            doc@.field == field@,
            doc@.ori_str == ori_str@,
    {
        Self { field, ori_str }
    }

    pub fn field(&self) -> (field: &DocField<'xml>)
        ensures
            field@ == self@.field,
    {
        &self.field
    }

    pub fn ori_str(&self) -> (bytes: &'xml [u8])
        ensures
            bytes@ == self@.ori_str,
    {
        self.ori_str
    }

    pub fn into_inner(self) -> (parts: (DocField<'xml>, &'xml [u8]))
        ensures
            parts.0@ == self@.field,
            parts.1@ == self@.ori_str,
    {
        (self.field, self.ori_str)
    }

    pub fn field_as_mut(&mut self) -> (field: &mut DocField<'xml>)
        ensures
            field@ == old(self)@.field,
            final(self)@.field == final(field)@,
            final(self)@.ori_str == old(self)@.ori_str,
    {
        &mut self.field
    }
}

} // verus!
