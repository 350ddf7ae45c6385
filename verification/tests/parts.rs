use solr_proxy::bytes::{bytes_eq, ends_with, starts_with};
use solr_proxy::dispatch::{backend_url, plan_update, route, route_trimmed, Route};
use solr_proxy::seed_cache::{ResolverCache, CACHE_CAPACITY};
use solr_proxy::util::{ProcError, StrError};
use solr_proxy::working_cnt::WorkingCnt;
use solr_proxy::xml_doc::{cow_bytes, BytesOrStr, Doc, DocField};
use solr_proxy::xml_writer::WriteOk;
use std::borrow::Cow;
use std::time::Duration;

#[test]
fn str_error_is_its_message() {
    let error = StrError::new("UNKNOWN_PATH /x".to_string());
    assert_eq!(error.err_msg, "UNKNOWN_PATH /x");
    assert_eq!(error.to_string(), "UNKNOWN_PATH /x");
    assert_eq!(format!("{:?}", error), "StrError { err_msg: \"UNKNOWN_PATH /x\" }");
    let error = ProcError::from_message("NOT_FOUND_URL");
    assert!(matches!(error, ProcError::Str(e) if e.err_msg == "NOT_FOUND_URL"));
}

#[test]
fn byte_comparisons() {
    assert!(bytes_eq(b"doc", b"doc"));
    assert!(bytes_eq(b"", b""));
    assert!(!bytes_eq(b"doc", b"dOc"));
    assert!(!bytes_eq(b"doc", b"docs"));
    assert!(starts_with(b"<doc a='1'>", b"<doc"));
    assert!(starts_with(b"<doc", b"<doc"));
    assert!(starts_with(b"x", b""));
    assert!(!starts_with(b"<do", b"<doc"));
    assert!(!starts_with(b" <doc", b"<doc"));
    assert!(ends_with(b"x</doc>", b"</doc>"));
    assert!(ends_with(b"</doc>", b"</doc>"));
    assert!(ends_with(b"", b""));
    assert!(!ends_with(b"/doc>", b"</doc>"));
    assert!(!ends_with(b"</doc> ", b"</doc>"));
}

#[test]
fn routes() {
    assert_eq!(route("/solr/core/select").unwrap(), Route::Select);
    assert_eq!(route("/select").unwrap(), Route::Select);
    assert_eq!(route("/solr/core/update").unwrap(), Route::Update);
    assert_eq!(route("  /solr/core/update\n").unwrap(), Route::Update);
    assert_eq!(route("\t/solr/select ").unwrap(), Route::Select);
    // a path that ends in both is a query
    assert_eq!(route_trimmed("/update/select").unwrap(), Route::Select);
    assert_eq!(route_trimmed("/select/update").unwrap(), Route::Update);
}

#[test]
fn unknown_paths() {
    assert_eq!(route("/solr/core/delete").unwrap_err().err_msg, "UNKNOWN_PATH /solr/core/delete");
    assert_eq!(route("").unwrap_err().err_msg, "UNKNOWN_PATH ");
    assert_eq!(route(" /select/ ").unwrap_err().err_msg, "UNKNOWN_PATH /select/");
    assert_eq!(route("select").unwrap_err().err_msg, "UNKNOWN_PATH select");
    assert_eq!(route("/SELECT").unwrap_err().err_msg, "UNKNOWN_PATH /SELECT");
    // without trimming the white space counts
    assert_eq!(route_trimmed("/select ").unwrap_err().err_msg, "UNKNOWN_PATH /select ");
}

#[test]
fn backend_address() {
    assert_eq!(
        backend_url("http://solr.example:8983", "/solr/core/select?q=a%20b"),
        "http://solr.example:8983/solr/core/select?q=a%20b"
    );
    assert_eq!(backend_url("", ""), "");
}

#[test]
fn update_plans() {
    let plan = plan_update::<ProcError>(Ok(WriteOk::Changed(b"<add></add>".to_vec(), 3)));
    assert_eq!(plan.body, Some(b"<add></add>".to_vec()));
    assert_eq!(plan.doc_cnt, 3);
    assert!(plan.parse_error.is_none());

    let plan = plan_update::<ProcError>(Ok(WriteOk::NoChanged(5)));
    assert!(plan.body.is_none());
    assert_eq!(plan.doc_cnt, 5);
    assert!(plan.parse_error.is_none());

    let plan = plan_update(Err(ProcError::from_message("ORI_STR_VALIDATION_FAIL")));
    assert!(plan.body.is_none());
    assert_eq!(plan.doc_cnt, 0);
    assert!(matches!(plan.parse_error, Some(ProcError::Str(e)) if e.err_msg == "ORI_STR_VALIDATION_FAIL"));
}

#[test]
fn counters_start_fresh() {
    let cnt = WorkingCnt::new();
    assert_eq!(cnt.select_cnt, 0);
    assert_eq!(cnt.add_cnt, 0);
    assert_eq!(cnt.add_doc_cnt, 0);
    assert_eq!(cnt.err_cnt, 0);
    assert_eq!(cnt.add_duration_time_total, Duration::ZERO);
    assert_eq!(cnt.add_duration_time_min, Duration::MAX);
    assert_eq!(cnt.add_duration_time_max, (Duration::ZERO, 0, 0));
    assert_eq!(cnt.add_bytes_total, 0);
    assert_eq!(cnt.select_duration_time_total, Duration::ZERO);
    assert_eq!(cnt.select_duration_time_min, Duration::MAX);
    assert_eq!(cnt.select_duration_time_max, Duration::ZERO);
    assert_eq!(cnt.cache_hit_cnt, 0);
    assert_eq!(cnt.cache_miss_cnt, 0);
    assert_eq!(cnt.seed_id_insert_cnt, 0);
}

#[test]
fn counters_of_queries() {
    let mut cnt = WorkingCnt::new();
    cnt.record_select(Duration::from_millis(30));
    assert_eq!(cnt.select_cnt, 1);
    assert_eq!(cnt.select_duration_time_total, Duration::from_millis(30));
    assert_eq!(cnt.select_duration_time_min, Duration::from_millis(30));
    assert_eq!(cnt.select_duration_time_max, Duration::from_millis(30));
    cnt.record_select(Duration::from_millis(10));
    cnt.record_select(Duration::from_millis(20));
    assert_eq!(cnt.select_cnt, 3);
    assert_eq!(cnt.select_duration_time_total, Duration::from_millis(60));
    assert_eq!(cnt.select_duration_time_min, Duration::from_millis(10));
    assert_eq!(cnt.select_duration_time_max, Duration::from_millis(30));
    cnt.record_select(Duration::ZERO);
    assert_eq!(cnt.select_duration_time_min, Duration::ZERO);
    assert_eq!(cnt.select_duration_time_max, Duration::from_millis(30));
    assert_eq!(cnt.add_cnt, 0);
    assert_eq!(cnt.add_duration_time_min, Duration::MAX);
}

#[test]
fn counters_of_updates() {
    let mut cnt = WorkingCnt::new();
    cnt.record_update(Duration::from_millis(30), 4, 1000);
    assert_eq!(cnt.add_cnt, 1);
    assert_eq!(cnt.add_doc_cnt, 4);
    assert_eq!(cnt.add_bytes_total, 1000);
    assert_eq!(cnt.add_duration_time_total, Duration::from_millis(30));
    assert_eq!(cnt.add_duration_time_min, Duration::from_millis(30));
    assert_eq!(cnt.add_duration_time_max, (Duration::from_millis(30), 4, 1000));
    cnt.record_update(Duration::from_millis(50), 1, 200);
    cnt.record_update(Duration::from_millis(5), 0, 7);
    // as long as the slowest, but later: the earlier one stays
    cnt.record_update(Duration::from_millis(50), 9, 9);
    assert_eq!(cnt.add_cnt, 4);
    assert_eq!(cnt.add_doc_cnt, 14);
    assert_eq!(cnt.add_bytes_total, 1216);
    assert_eq!(cnt.add_duration_time_total, Duration::from_millis(135));
    assert_eq!(cnt.add_duration_time_min, Duration::from_millis(5));
    assert_eq!(cnt.add_duration_time_max, (Duration::from_millis(50), 1, 200));
    assert_eq!(cnt.select_cnt, 0);
}

#[test]
fn counters_of_errors_and_lookups() {
    let mut cnt = WorkingCnt::new();
    cnt.record_error();
    cnt.record_error();
    cnt.record_lookups(1, 2, 0);
    cnt.record_lookups(0, 1, 1);
    assert_eq!(cnt.err_cnt, 2);
    assert_eq!(cnt.cache_hit_cnt, 1);
    assert_eq!(cnt.cache_miss_cnt, 3);
    assert_eq!(cnt.seed_id_insert_cnt, 1);
    assert_eq!(cnt.select_cnt, 0);
}

#[test]
fn cache_holds_what_was_put() {
    let mut cache = ResolverCache::new();
    assert_eq!(cache.len(), 0);
    assert_eq!(cache.get("a.example"), None);
    cache.put("a.example".to_string(), "A".to_string());
    cache.put("b.example".to_string(), "B".to_string());
    assert_eq!(cache.len(), 2);
    assert_eq!(cache.get("a.example"), Some("A".to_string()));
    assert_eq!(cache.get("b.example"), Some("B".to_string()));
    assert_eq!(cache.get("A.example"), None);
    cache.put("a.example".to_string(), "A2".to_string());
    assert_eq!(cache.len(), 2);
    assert_eq!(cache.get("a.example"), Some("A2".to_string()));
}

#[test]
fn cache_gives_up_the_entry_used_least_recently() {
    let mut cache = ResolverCache::new();
    for i in 0..CACHE_CAPACITY {
        cache.put(format!("host-{}", i), format!("seed-{}", i));
    }
    assert_eq!(cache.len(), CACHE_CAPACITY);
    // host-0 is used, so host-1 is now the one used least recently
    assert_eq!(cache.get("host-0"), Some("seed-0".to_string()));
    cache.put("one-more".to_string(), "seed".to_string());
    assert_eq!(cache.len(), CACHE_CAPACITY);
    assert_eq!(cache.get("host-1"), None);
    assert_eq!(cache.get("host-0"), Some("seed-0".to_string()));
    assert_eq!(cache.get("host-2"), Some("seed-2".to_string()));
    assert_eq!(cache.get("one-more"), Some("seed".to_string()));
    // a put under a key that is held gives nothing up
    cache.put("host-2".to_string(), "again".to_string());
    assert_eq!(cache.len(), CACHE_CAPACITY);
    assert_eq!(cache.get("host-3"), Some("seed-3".to_string()));
    assert_eq!(cache.get("host-2"), Some("again".to_string()));
}

#[test]
fn doc_fields_and_their_flag() {
    let mut field = DocField::new();
    assert!(!field.has_changed());
    assert!(field.get(b"a").is_none());
    assert!(field.try_reserve(36).is_ok());
    field.push_field_borrowed(b"a", Cow::Borrowed(&b"1 &amp; 2"[..]));
    field.push_field_borrowed(b"a", Cow::Owned(b"3".to_vec()));
    assert!(!field.has_changed());
    field.push_field_owned(b"b", "x".to_string());
    assert!(field.has_changed());
    field.push_field_borrowed(b"b", Cow::Borrowed(&b"y"[..]));
    assert!(field.has_changed());

    let a = field.get(b"a").unwrap();
    assert_eq!(a.len(), 2);
    assert!(matches!(&a[0], BytesOrStr::Bytes(bytes) if cow_bytes(bytes) == b"1 &amp; 2"));
    assert_eq!(a[0].to_unescape_str().unwrap(), "1 & 2");
    assert_eq!(a[1].to_unescape_str().unwrap(), "3");
    let b = field.get(b"b").unwrap();
    assert_eq!(b.len(), 2);
    assert!(matches!(&b[0], BytesOrStr::Str(text, None) if text == "x"));
    // added text is handed out as it is, not unescaped
    let mut other = DocField::new();
    other.push_field_owned(b"t", "a &amp; b".to_string());
    assert_eq!(other.get(b"t").unwrap()[0].to_unescape_str().unwrap(), "a &amp; b");

    let (entries, changed) = field.into_entries();
    assert!(changed);
    assert_eq!(entries.len(), 2);
    let mut names: Vec<&[u8]> = entries.iter().map(|(name, _)| *name).collect();
    names.sort();
    assert_eq!(names, vec![&b"a"[..], &b"b"[..]]);
    for (_, values) in &entries {
        assert_eq!(values.len(), 2);
    }
}

#[test]
fn doc_and_its_parts() {
    let mut field = DocField::new();
    field.push_field_borrowed(b"id", Cow::Borrowed(&b"1"[..]));
    let bytes: &[u8] = b"<doc><field name=\"id\">1</field></doc>";
    let mut doc = Doc::new(field, bytes);
    assert_eq!(doc.ori_str(), bytes);
    assert!(!doc.field().has_changed());
    doc.field_as_mut().push_field_owned(b"seed_id", "S".to_string());
    assert!(doc.field().has_changed());
    assert_eq!(doc.ori_str(), bytes);
    let (field, ori_str) = doc.into_inner();
    assert_eq!(ori_str, bytes);
    assert_eq!(field.get(b"seed_id").unwrap().len(), 1);
    let (_map, changed) = field.into_inner();
    assert!(changed);
}

#[test]
fn routes_do_not_count_white_space_of_any_script() {
    assert_eq!(route("\u{3000}/solr/select\u{a0}").unwrap(), Route::Select);
    assert_eq!(route("\u{2003}\r\n/update\u{85}").unwrap(), Route::Update);
    // white space inside the path is part of it
    assert_eq!(route("/sel ect").unwrap_err().err_msg, "UNKNOWN_PATH /sel ect");
}

#[test]
fn full_counters_take_no_more_lookups() {
    let mut cnt = WorkingCnt::new();
    cnt.cache_hit_cnt = u32::MAX - 2;
    assert!(cnt.try_record_lookups(2, 1, 1));
    assert_eq!(cnt.cache_hit_cnt, u32::MAX);
    assert_eq!(cnt.cache_miss_cnt, 1);
    assert_eq!(cnt.seed_id_insert_cnt, 1);
    // no room for one more hit: nothing is counted, the misses neither
    assert!(!cnt.try_record_lookups(1, 1, 0));
    assert_eq!(cnt.cache_hit_cnt, u32::MAX);
    assert_eq!(cnt.cache_miss_cnt, 1);
    assert!(cnt.try_record_lookups(0, 1, 0));
    assert_eq!(cnt.cache_miss_cnt, 2);
    cnt.seed_id_insert_cnt = u32::MAX;
    assert!(!cnt.try_record_lookups(0, 0, 1));
    cnt.cache_miss_cnt = u32::MAX;
    assert!(!cnt.try_record_lookups(0, 1, 0));
    assert!(cnt.try_record_lookups(0, 0, 0));
    assert!(!cnt.try_record_lookups(usize::MAX, 0, 0));
}

#[test]
fn full_counters_take_no_more_queries() {
    let mut cnt = WorkingCnt::new();
    assert!(cnt.try_record_select(Duration::from_millis(30)));
    assert_eq!(cnt.select_cnt, 1);
    assert_eq!(cnt.select_duration_time_total, Duration::from_millis(30));
    assert_eq!(cnt.select_duration_time_min, Duration::from_millis(30));
    assert_eq!(cnt.select_duration_time_max, Duration::from_millis(30));
    // the total cannot grow beyond the longest duration
    assert!(!cnt.try_record_select(Duration::MAX));
    assert_eq!(cnt.select_cnt, 1);
    assert_eq!(cnt.select_duration_time_total, Duration::from_millis(30));
    assert_eq!(cnt.select_duration_time_max, Duration::from_millis(30));
    cnt.select_cnt = u32::MAX;
    assert!(!cnt.try_record_select(Duration::ZERO));
    assert_eq!(cnt.select_cnt, u32::MAX);
}

#[test]
fn full_counters_take_no_more_updates() {
    let mut cnt = WorkingCnt::new();
    assert!(cnt.try_record_update(Duration::from_millis(30), 4, 1000));
    assert_eq!(cnt.add_cnt, 1);
    assert_eq!(cnt.add_doc_cnt, 4);
    assert_eq!(cnt.add_bytes_total, 1000);
    assert_eq!(cnt.add_duration_time_max, (Duration::from_millis(30), 4, 1000));
    assert!(!cnt.try_record_update(Duration::MAX, 1, 1));
    assert!(!cnt.try_record_update(Duration::ZERO, usize::MAX, 1));
    assert!(!cnt.try_record_update(Duration::ZERO, 1, usize::MAX));
    assert_eq!(cnt.add_cnt, 1);
    assert_eq!(cnt.add_doc_cnt, 4);
    assert_eq!(cnt.add_bytes_total, 1000);
    assert_eq!(cnt.add_duration_time_total, Duration::from_millis(30));
    assert!(cnt.try_record_update(Duration::from_millis(1), usize::MAX - 4, 0));
    assert_eq!(cnt.add_doc_cnt, usize::MAX);
    assert_eq!(cnt.add_duration_time_min, Duration::from_millis(1));
    cnt.add_cnt = u32::MAX;
    assert!(!cnt.try_record_update(Duration::ZERO, 0, 0));
}

#[test]
fn white_space_around_a_path_is_what_unicode_calls_so() {
    assert_eq!(route("\u{a0}/a/select\u{3000}\u{85}").unwrap(), Route::Select);
    assert_eq!(route("\u{2003}\u{1680}/update\u{2028}\u{c}").unwrap(), Route::Update);
    // a zero width space is no white space
    assert_eq!(route("/select\u{200b}").unwrap_err().err_msg, "UNKNOWN_PATH /select\u{200b}");
    assert_eq!(route(" /update\u{180e} ").unwrap_err().err_msg, "UNKNOWN_PATH /update\u{180e}");
    assert_eq!(route(" \t\n ").unwrap_err().err_msg, "UNKNOWN_PATH ");
}
