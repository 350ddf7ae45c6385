use solr_proxy::util::ProcError;
use solr_proxy::xml_events::XmlEvent;
use solr_proxy::xml_reader::{read_xml, DocReader};
use std::borrow::Cow;

fn start(name: &[u8], len: usize) -> XmlEvent<'static> {
    XmlEvent::Start { name: name.to_vec(), len }
}

fn end(name: &[u8]) -> XmlEvent<'static> {
    XmlEvent::End { name: name.to_vec() }
}

fn text(bytes: &[u8]) -> XmlEvent<'_> {
    XmlEvent::Text(Cow::Borrowed(bytes))
}

fn validation_failed(r: Result<(), ProcError>) -> bool {
    match r {
        Err(ProcError::Str(e)) => e.err_msg == "ORI_STR_VALIDATION_FAIL",
        _ => false,
    }
}

const SMALL: &[u8] = br#"<add><doc><field name="id">7</field></doc></add>"#;

#[test]
fn reader_state_follows_the_events() {
    let mut reader = DocReader::new(SMALL);
    reader.feed(start(b"add", 3), 5).unwrap();
    reader.feed(start(b"doc", 3), 10).unwrap();
    reader.feed(start(b"field", 15), 27).unwrap();
    reader.feed(text(b"7"), 28).unwrap();
    reader.feed(end(b"field"), 36).unwrap();
    reader.feed(end(b"doc"), 42).unwrap();
    reader.feed(end(b"add"), 48).unwrap();
    reader.feed(XmlEvent::Eof, 48).unwrap();
    let docs = reader.finish();
    assert_eq!(docs.len(), 1);
    assert_eq!(docs[0].ori_str(), &SMALL[5..42]);
    assert!(!docs[0].field().has_changed());
    let values = docs[0].field().get(b"id").unwrap();
    assert_eq!(values.len(), 1);
    assert_eq!(values[0].to_unescape_str().unwrap(), "7");
    assert!(docs[0].field().get(b"name").is_none());
}

#[test]
fn reader_ignores_fields_and_text_outside_a_doc() {
    let body = br#"<add><field name="x">v</field><doc><field name="id">1</field></doc><field name="y">w</field>tail</add>"#;
    let docs = read_xml(body).unwrap();
    assert_eq!(docs.len(), 1);
    assert!(docs[0].field().get(b"x").is_none());
    assert!(docs[0].field().get(b"y").is_none());
    assert_eq!(docs[0].field().get(b"id").unwrap().len(), 1);

    let mut reader = DocReader::new(SMALL);
    reader.feed(start(b"field", 15), 27).unwrap();
    reader.feed(text(b"7"), 28).unwrap();
    reader.feed(end(b"field"), 36).unwrap();
    // an end of a document that never began is passed over
    reader.feed(end(b"doc"), 42).unwrap();
    assert_eq!(reader.finish().len(), 0);
}

#[test]
fn reader_takes_text_only_behind_a_named_field() {
    let body = br#"<add><doc>loose<field name="a">1</field>more<field>2</field><field  name='b' other="x">3</field><other name="c">4</other><field name="d"><b>5</b></field><field name="e"/>6</doc></add>"#;
    let docs = read_xml(body).unwrap();
    assert_eq!(docs.len(), 1);
    let field = docs[0].field();
    assert_eq!(field.get(b"a").unwrap()[0].to_unescape_str().unwrap(), "1");
    assert_eq!(field.get(b"a").unwrap().len(), 1);
    assert_eq!(field.get(b"b").unwrap()[0].to_unescape_str().unwrap(), "3");
    assert!(field.get(b"c").is_none());
    // the start tag of another element does not clear the pending name
    assert_eq!(field.get(b"d").unwrap()[0].to_unescape_str().unwrap(), "5");
    assert!(field.get(b"e").is_none());
}

#[test]
fn reader_keeps_the_values_of_a_name_in_their_order() {
    let body = br#"<add><doc><field name="k">one</field><field name="j">x</field><field name="k">two</field><field name="k">three</field></doc></add>"#;
    let docs = read_xml(body).unwrap();
    let values = docs[0].field().get(b"k").unwrap();
    assert_eq!(values.len(), 3);
    assert_eq!(values[0].to_unescape_str().unwrap(), "one");
    assert_eq!(values[1].to_unescape_str().unwrap(), "two");
    assert_eq!(values[2].to_unescape_str().unwrap(), "three");
    // names are told apart by their exact bytes
    assert!(docs[0].field().get(b"K").is_none());
}

#[test]
fn reader_trims_text_and_keeps_entities() {
    let body = b"<add>\n <doc>\n  <field name=\"t\">  a &amp; b \n</field>\n </doc>\n</add>\n";
    let docs = read_xml(body).unwrap();
    assert_eq!(docs.len(), 1);
    assert_eq!(docs[0].ori_str(), &body[7..body.len() - 8]);
    assert!(docs[0].ori_str().starts_with(b"<doc"));
    assert!(docs[0].ori_str().ends_with(b"</doc>"));
    assert_eq!(docs[0].field().get(b"t").unwrap()[0].to_unescape_str().unwrap(), "a & b");
}

#[test]
fn reader_yields_docs_with_valid_bytes() {
    let body = br#"<add><doc a="1"><field name="id">1</field></doc><doc><field name="id">2</field></doc><doc></doc></add>"#;
    let docs = read_xml(body).unwrap();
    assert_eq!(docs.len(), 3);
    for doc in &docs {
        assert!(doc.ori_str().starts_with(b"<doc"));
        assert!(doc.ori_str().ends_with(b"</doc>"));
        assert!(!doc.field().has_changed());
    }
    assert_eq!(docs[2].ori_str(), b"<doc></doc>");
}

#[test]
fn reader_refuses_a_doc_whose_bytes_do_not_fit() {
    // behind a byte order mark the positions no longer point at the tags
    let body = b"\xef\xbb\xbf<add><doc><field name=\"id\">1</field></doc></add>";
    let error = read_xml(body).unwrap_err();
    assert!(validation_failed(Err(error)));

    let mut reader = DocReader::new(SMALL);
    reader.feed(start(b"doc", 3), 10).unwrap();
    assert!(validation_failed(reader.feed(end(b"doc"), 41)));

    let mut reader = DocReader::new(SMALL);
    reader.feed(start(b"doc", 3), 11).unwrap();
    assert!(validation_failed(reader.feed(end(b"doc"), 42)));

    // a position behind the end of the body
    let mut reader = DocReader::new(SMALL);
    reader.feed(start(b"doc", 3), 10).unwrap();
    assert!(validation_failed(reader.feed(end(b"doc"), 49)));

    // a position before the start of the document
    let mut reader = DocReader::new(SMALL);
    reader.feed(start(b"doc", 3), 10).unwrap();
    assert!(validation_failed(reader.feed(end(b"doc"), 4)));
}

#[test]
fn reader_passes_over_a_start_tag_that_cannot_stand_at_its_position() {
    let mut reader = DocReader::new(SMALL);
    // a tag of length 3 cannot end at position 4
    reader.feed(start(b"doc", 3), 4).unwrap();
    reader.feed(end(b"doc"), 42).unwrap();
    assert_eq!(reader.finish().len(), 0);

    let mut reader = DocReader::new(SMALL);
    reader.feed(start(b"doc", 3), 10).unwrap();
    // the region of this field would lie outside the body
    reader.feed(start(b"field", 15), 60).unwrap();
    reader.feed(text(b"7"), 28).unwrap();
    reader.feed(end(b"doc"), 42).unwrap();
    let docs = reader.finish();
    assert_eq!(docs.len(), 1);
    assert!(docs[0].field().get(b"id").is_none());
}

#[test]
fn reader_reports_what_the_xml_library_refuses() {
    assert!(matches!(read_xml(b"<add><doc></add>"), Err(ProcError::Xml(_))));
    assert!(matches!(read_xml(b"<add><doc"), Err(ProcError::Xml(_))));
    assert!(matches!(read_xml(b"</doc>"), Err(ProcError::Xml(_))));
}

#[test]
fn reader_leaves_out_a_doc_that_is_still_open_at_the_end() {
    let docs = read_xml(br#"<add><doc><field name="id">1</field></doc><doc><field name="id">2</field>"#).unwrap();
    assert_eq!(docs.len(), 1);
}

#[test]
fn reader_starts_a_nested_doc_anew_but_keeps_its_fields() {
    let body = br#"<doc><field name="a">1</field><doc><field name="b">2</field></doc></doc>"#;
    let docs = read_xml(body).unwrap();
    assert_eq!(docs.len(), 1);
    assert_eq!(docs[0].ori_str(), br#"<doc><field name="b">2</field></doc>"#);
    assert!(docs[0].field().get(b"a").is_some());
    assert!(docs[0].field().get(b"b").is_some());
}

#[test]
fn reader_takes_no_value_from_cdata_or_comments() {
    let body = br#"<add><doc><field name="c"><![CDATA[x < y]]></field><field name="d"><!-- gone -->kept</field><?pi data?></doc></add>"#;
    let docs = read_xml(body).unwrap();
    assert_eq!(docs.len(), 1);
    assert!(docs[0].field().get(b"c").is_none());
    assert_eq!(docs[0].field().get(b"d").unwrap()[0].to_unescape_str().unwrap(), "kept");
}

#[test]
fn reader_takes_owned_text_as_well() {
    let mut reader = DocReader::new(SMALL);
    reader.feed(start(b"doc", 3), 10).unwrap();
    reader.feed(start(b"field", 15), 27).unwrap();
    reader.feed(XmlEvent::Text(Cow::Owned(b"seven".to_vec())), 28).unwrap();
    reader.feed(XmlEvent::Other, 30).unwrap();
    reader.feed(end(b"doc"), 42).unwrap();
    let docs = reader.finish();
    assert_eq!(docs[0].field().get(b"id").unwrap()[0].to_unescape_str().unwrap(), "seven");
}
