//! What holds of the proxy as a whole, proved from what its parts state.

use crate::dispatch::{body_for, is_white_space, lemma_trimmed_is_same, route_of, trimmed};
use crate::proc_xml::{
    doc_seed_host, enriched, has_seed_id, proc_step, settle, visit, with_seed_id, ActionView,
    ProcOutcome, StepView,
};
use crate::seed_cache::{lemma_get_keeps_values, lemma_put_is_held, CacheView};
use crate::xml_doc::{
    is_doc_slice, lemma_with_value_wf, lists_entries, no_fields, DocView, FieldValue,
};
use crate::xml_events::{xml_steps, ReaderStep};
use crate::xml_reader::{
    as_read, lemma_read_from_valid, read_docs, read_from, step, ReadState,
};
use crate::xml_writer::{
    any_changed, is_rewrite_of, needs_rewrite, original_len, render_all, renders, rewritten_doc,
    WriteOk,
};
use crate::xml_sink::{end_tag, start_tag};
use vstd::prelude::*;
use vstd::string::StringSliceAdditionalSpecFns;

verus! {

/// Every document before index `upto` carries a `seed_id`.
pub open spec fn settled_upto(docs: Seq<DocView>, upto: int) -> bool {
    forall|i: int| 0 <= i < upto && i < docs.len() ==> has_seed_id(#[trigger] docs[i])
}

/// Every document carries a `seed_id`.
pub open spec fn all_settled(docs: Seq<DocView>) -> bool {
    settled_upto(docs, docs.len() as int)
}

/// A visit that changes nothing, counts nothing and asks nothing.
pub open spec fn idle(docs: Seq<DocView>, cache: CacheView) -> ProcOutcome {
    ProcOutcome { docs, cache, hits: 0, misses: 0, inserts: 0, result: Ok(ActionView::Done) }
}

/// A path that neither begins nor ends with white space leads where its
/// own text says: trimming changes nothing about it.
pub proof fn law_clean_path_routes_as_it_stands(path: Seq<char>)
    requires
        path.len() > 0 ==> !is_white_space(path[0]) && !is_white_space(path.last()),
    ensures
        trimmed(path) == path,
        route_of(trimmed(path)) == route_of(path),
{
    lemma_trimmed_is_same(path);
}

/// Every document that is read from a body has bytes that begin with `<doc`
/// and end with `</doc>`.
pub proof fn law_docs_are_valid(xml: Seq<u8>)
    ensures
        read_docs(xml) matches Ok(docs) ==> forall|i: int|
            0 <= i < docs.len() ==> is_doc_slice(#[trigger] docs[i].ori_str),
{
    lemma_read_from_valid(xml, xml_steps(xml, true), ReadState::initial());
    if let Ok(docs) = read_docs(xml) {
        assert forall|i: int| 0 <= i < docs.len() implies is_doc_slice(
            #[trigger] docs[i].ori_str,
        ) by {
            assert(as_read(docs[i]));
        }
    }
}

/// `bytes` stands somewhere in `xml`, byte for byte.
pub open spec fn is_run_of(bytes: Seq<u8>, xml: Seq<u8>) -> bool {
    exists|from: int, to: int|
        0 <= from <= to <= xml.len() && bytes == #[trigger] xml.subrange(from, to)
}

/// Reading adds only runs of the body to documents that are runs of it.
proof fn lemma_read_from_runs(xml: Seq<u8>, steps: Seq<ReaderStep>, state: ReadState)
    requires
        forall|i: int| 0 <= i < state.docs.len() ==> is_run_of(#[trigger] state.docs[i].ori_str, xml),
    ensures
        read_from(xml, steps, state) matches Ok(docs) ==> forall|i: int|
            0 <= i < docs.len() ==> is_run_of(#[trigger] docs[i].ori_str, xml),
    decreases steps.len(),
{
    if steps.len() > 0 {
        if let Some(event) = steps[0].outcome {
            if !(event is Eof) {
                if let Ok(next) = step(xml, state, event, steps[0].position) {
                    assert forall|i: int| 0 <= i < next.docs.len() implies is_run_of(
                        #[trigger] next.docs[i].ori_str,
                        xml,
                    ) by {
                        if i < state.docs.len() {
                            assert(next.docs[i] == state.docs[i]);
                        } else {
                            let from = state.doc_start->0 as int;
                            let to = steps[0].position as int;
                            assert(next.docs[i].ori_str == xml.subrange(from, to));
                        }
                    }
                    lemma_read_from_runs(xml, steps.drop_first(), next);
                }
            }
        }
    }
}

/// The bytes of every document that is read from a body stand in that body
/// as they are.
pub proof fn law_docs_are_runs_of_the_body(xml: Seq<u8>)
    ensures
        read_docs(xml) matches Ok(docs) ==> forall|i: int|
            0 <= i < docs.len() ==> is_run_of(#[trigger] docs[i].ori_str, xml),
{
    lemma_read_from_runs(xml, xml_steps(xml, true), ReadState::initial());
}

/// A visit leaves alone every document that carries a `seed_id` and every
/// document before its start, takes no `seed_id` away, and keeps the number
/// of documents.
pub proof fn law_visit_spares_settled(docs: Seq<DocView>, from: nat, cache: CacheView)
    ensures
        visit(docs, from, cache).docs.len() == docs.len(),
        forall|i: int|
            0 <= i < docs.len() && (i < from || has_seed_id(docs[i])) ==> #[trigger] visit(
                docs,
                from,
                cache,
            ).docs[i] == docs[i],
    decreases docs.len() - from,
{
    if from < docs.len() {
        if has_seed_id(docs[from as int]) {
            law_visit_spares_settled(docs, from + 1, cache);
        } else if let Ok(host) = doc_seed_host(docs[from as int]) {
            if let Some(seed_id) = cache.get(host) {
                let next = docs.update(from as int, with_seed_id(docs[from as int], seed_id));
                law_visit_spares_settled(next, from + 1, cache.touched(host));
                assert forall|i: int|
                    0 <= i < docs.len() && (i < from || has_seed_id(docs[i])) implies visit(
                    docs,
                    from,
                    cache,
                ).docs[i] == docs[i] by {
                    assert(next[i] == docs[i]);
                }
            }
        }
    }
}

/// Where a visit ends, every document it went past carries a `seed_id`:
/// all from its start on where it is done, and those before the document it
/// asks the store for where it asks. It asks only for a host that the cache
/// did not hold when the visit began.
pub proof fn law_visit_settles(docs: Seq<DocView>, from: nat, cache: CacheView)
    ensures
        match visit(docs, from, cache).result {
            Ok(ActionView::Done) => forall|i: int|
                from <= i < docs.len() ==> has_seed_id(#[trigger] visit(docs, from, cache).docs[i]),
            Ok(ActionView::Select { doc, host }) => {
                &&& from <= doc < docs.len()
                &&& cache.get(host) is None
                &&& doc_seed_host(visit(docs, from, cache).docs[doc as int]) == Ok::<
                    Seq<char>,
                    crate::proc_xml::HostFailure,
                >(host)
                &&& !has_seed_id(visit(docs, from, cache).docs[doc as int])
                &&& forall|i: int|
                    from <= i < doc ==> has_seed_id(#[trigger] visit(docs, from, cache).docs[i])
            },
            Ok(ActionView::InsertThenSelect { .. }) => false,
            Err(_) => true,
        },
    decreases docs.len() - from,
{
    if from < docs.len() {
        if has_seed_id(docs[from as int]) {
            law_visit_settles(docs, from + 1, cache);
            law_visit_spares_settled(docs, from + 1, cache);
        } else if let Ok(host) = doc_seed_host(docs[from as int]) {
            if let Some(seed_id) = cache.get(host) {
                let next = docs.update(from as int, with_seed_id(docs[from as int], seed_id));
                law_visit_settles(next, from + 1, cache.touched(host));
                law_visit_spares_settled(next, from + 1, cache.touched(host));
                assert(has_seed_id(next[from as int]));
                if let Ok(ActionView::Select { doc, host: asked }) = visit(
                    docs,
                    from,
                    cache,
                ).result {
                    lemma_get_keeps_values(cache, host, asked);
                }
            } else {
                assert(cache.touched(host) == cache);
            }
        }
    }
}

/// A visit keeps the flag of every document in step with its fields, and a
/// document that it changes has its flag set.
pub proof fn law_visit_keeps_flags(docs: Seq<DocView>, from: nat, cache: CacheView)
    ensures
        forall|i: int|
            0 <= i < docs.len() && docs[i].field.wf() ==> (#[trigger] visit(
                docs,
                from,
                cache,
            ).docs[i]).field.wf(),
        forall|i: int|
            0 <= i < docs.len() && visit(docs, from, cache).docs[i] != docs[i] ==> (#[trigger] visit(
                docs,
                from,
                cache,
            ).docs[i]).field.has_changed,
        forall|i: int|
            0 <= i < docs.len() ==> (#[trigger] visit(docs, from, cache).docs[i]).ori_str
                == docs[i].ori_str,
    decreases docs.len() - from,
{
    law_visit_spares_settled(docs, from, cache);
    if from < docs.len() {
        if has_seed_id(docs[from as int]) {
            law_visit_keeps_flags(docs, from + 1, cache);
        } else if let Ok(host) = doc_seed_host(docs[from as int]) {
            if let Some(seed_id) = cache.get(host) {
                let changed = with_seed_id(docs[from as int], seed_id);
                let next = docs.update(from as int, changed);
                law_visit_keeps_flags(next, from + 1, cache.touched(host));
                law_visit_spares_settled(next, from + 1, cache.touched(host));
                if docs[from as int].field.wf() {
                    lemma_with_value_wf(
                        docs[from as int].field,
                        "seed_id".spec_bytes(),
                        FieldValue::Text(seed_id),
                    );
                }
                assert(has_seed_id(changed));
                assert forall|i: int| 0 <= i < docs.len() implies (docs[i].field.wf() ==> (
                #[trigger] visit(docs, from, cache).docs[i]).field.wf()) && (visit(
                    docs,
                    from,
                    cache,
                ).docs[i] != docs[i] ==> visit(docs, from, cache).docs[i].field.has_changed)
                    && visit(docs, from, cache).docs[i].ori_str == docs[i].ori_str by {
                    if i == from {
                        assert(visit(docs, from, cache).docs[i] == next[i]);
                    } else {
                        assert(next[i] == docs[i]);
                    }
                }
            }
        }
    }
}

/// A visit takes no host out of the cache and changes no `seed_id` in it.
pub proof fn law_visit_keeps_cache(docs: Seq<DocView>, from: nat, cache: CacheView, host: Seq<char>)
    ensures
        visit(docs, from, cache).cache.get(host) == cache.get(host),
    decreases docs.len() - from,
{
    if from < docs.len() {
        if has_seed_id(docs[from as int]) {
            law_visit_keeps_cache(docs, from + 1, cache, host);
        } else if let Ok(found) = doc_seed_host(docs[from as int]) {
            lemma_get_keeps_values(cache, found, host);
            if let Some(seed_id) = cache.get(found) {
                let next = docs.update(from as int, with_seed_id(docs[from as int], seed_id));
                law_visit_keeps_cache(next, from + 1, cache.touched(found), host);
            }
        }
    }
}

/// Once the store has told the `seed_id` of a host, the cache holds it under
/// that host when the step is over, whatever else the step visits.
pub proof fn law_resolved_is_cached(
    docs: Seq<DocView>,
    doc: nat,
    host: Seq<char>,
    seed_id: Seq<char>,
    cache: CacheView,
)
    ensures
        settle(docs, doc, host, seed_id, cache).cache.get(host) == Some(seed_id),
        proc_step(
            docs,
            StepView::Selected { doc, host, seed_id: Some(seed_id) },
            cache,
        ).cache.get(host) == Some(seed_id),
        proc_step(
            docs,
            StepView::Reselected { doc, host, seed_id: Some(seed_id) },
            cache,
        ).cache.get(host) == Some(seed_id),
{
    lemma_put_is_held(cache, host, seed_id);
    law_visit_keeps_cache(
        docs.update(doc as int, with_seed_id(docs[doc as int], seed_id)),
        doc + 1,
        cache.with(host, seed_id),
        host,
    );
}

/// While the cache holds a host, a visit does not ask the store for it: a
/// document with that host gets the `seed_id` that the cache holds.
pub proof fn law_cached_host_needs_no_store(docs: Seq<DocView>, from: nat, cache: CacheView)
    ensures
        visit(docs, from, cache).result matches Ok(ActionView::Select { host, .. })
            ==> cache.get(host) is None,
        from < docs.len() && !has_seed_id(docs[from as int]) ==> match doc_seed_host(
            docs[from as int],
        ) {
            Ok(host) => match cache.get(host) {
                Some(seed_id) => visit(docs, from, cache).docs[from as int] == with_seed_id(
                    docs[from as int],
                    seed_id,
                ),
                None => true,
            },
            Err(_) => true,
        },
{
    law_visit_settles(docs, from, cache);
    if from < docs.len() && !has_seed_id(docs[from as int]) {
        if let Ok(host) = doc_seed_host(docs[from as int]) {
            if let Some(seed_id) = cache.get(host) {
                let next = docs.update(from as int, with_seed_id(docs[from as int], seed_id));
                law_visit_spares_settled(next, from + 1, cache.touched(host));
            }
        }
    }
}

/// Two documents with one host that the cache does not hold: the store is
/// asked once, for the first. Its answer settles both, the first from the
/// answer and the second from the cache, so that one host is counted as not
/// held and one as held, and nothing has to be inserted.
pub proof fn law_shared_host_is_asked_once(
    first: DocView,
    second: DocView,
    host: Seq<char>,
    seed_id: Seq<char>,
    cache: CacheView,
)
    requires
        !has_seed_id(first),
        !has_seed_id(second),
        doc_seed_host(first) == Ok::<Seq<char>, crate::proc_xml::HostFailure>(host),
        doc_seed_host(second) == Ok::<Seq<char>, crate::proc_xml::HostFailure>(host),
        cache.get(host) is None,
    ensures
        ({
            let docs = seq![first, second];
            let asked = visit(docs, 0, cache);
            let answered = proc_step(
                asked.docs,
                StepView::Selected { doc: 0, host, seed_id: Some(seed_id) },
                asked.cache,
            );
            &&& asked == (ProcOutcome {
                docs,
                cache,
                hits: 0,
                misses: 1,
                inserts: 0,
                result: Ok(ActionView::Select { doc: 0, host }),
            })
            &&& answered.result == Ok::<ActionView, crate::proc_xml::ProcFailure>(ActionView::Done)
            &&& answered.docs == seq![with_seed_id(first, seed_id), with_seed_id(second, seed_id)]
            &&& answered.hits == 1
            &&& answered.misses == 0
            &&& answered.inserts == 0
            &&& answered.cache.get(host) == Some(seed_id)
        }),
{
    let docs = seq![first, second];
    assert(docs[0] == first);
    assert(cache.touched(host) == cache);
    let one = docs.update(0, with_seed_id(first, seed_id));
    let held = cache.with(host, seed_id);
    lemma_put_is_held(cache, host, seed_id);
    assert(one[1] == second);
    let both = one.update(1, with_seed_id(second, seed_id));
    lemma_get_keeps_values(held, host, host);
    assert(visit(both, 2, held.touched(host)) == idle(both, held.touched(host)));
    assert(visit(one, 1, held).docs == both);
    assert(both =~= seq![with_seed_id(first, seed_id), with_seed_id(second, seed_id)]);
}

/// Documents that all carry a `seed_id` are left as they are: the visit
/// changes nothing, counts nothing and asks nothing.
pub proof fn law_settled_docs_are_left(docs: Seq<DocView>, from: nat, cache: CacheView)
    requires
        forall|i: int| from <= i < docs.len() ==> has_seed_id(#[trigger] docs[i]),
    ensures
        visit(docs, from, cache) == idle(docs, cache),
    decreases docs.len() - from,
{
    if from < docs.len() {
        assert(has_seed_id(docs[from as int]));
        law_settled_docs_are_left(docs, from + 1, cache);
    }
}

/// Enriching a document twice comes to the same as enriching it once: the
/// second time it carries a `seed_id` and is left alone.
pub proof fn law_enrich_once(doc: DocView, first: Seq<char>, second: Seq<char>)
    ensures
        has_seed_id(enriched(doc, first)),
        enriched(enriched(doc, first), second) == enriched(doc, first),
{
}

/// A second pass over documents that a first pass has gone through changes
/// nothing, counts nothing and asks nothing, whatever the cache holds by
/// then.
pub proof fn law_second_pass_is_idle(
    docs: Seq<DocView>,
    from: nat,
    cache: CacheView,
    later: CacheView,
)
    requires
        settled_upto(docs, from as int),
        visit(docs, from, cache).result == Ok::<ActionView, crate::proc_xml::ProcFailure>(
            ActionView::Done,
        ),
    ensures
        all_settled(visit(docs, from, cache).docs),
        visit(visit(docs, from, cache).docs, 0, later) == idle(
            visit(docs, from, cache).docs,
            later,
        ),
{
    let after = visit(docs, from, cache).docs;
    law_visit_settles(docs, from, cache);
    law_visit_spares_settled(docs, from, cache);
    assert forall|i: int| 0 <= i < after.len() implies has_seed_id(#[trigger] after[i]) by {
        if i < from {
            assert(after[i] == docs[i]);
            assert(has_seed_id(docs[i]));
        }
    }
    law_settled_docs_are_left(after, 0, later);
}

/// `after` is `before`, or `before` with a `seed_id` put in where it had
/// none.
pub open spec fn is_enriched(before: DocView, after: DocView) -> bool {
    after == before || (!has_seed_id(before) && exists|seed_id: Seq<char>|
        after == #[trigger] with_seed_id(before, seed_id))
}

/// `after` holds the documents of `before` in their order, each as it was or
/// with a `seed_id` put in where it had none.
pub open spec fn enriches(before: Seq<DocView>, after: Seq<DocView>) -> bool {
    &&& after.len() == before.len()
    &&& forall|i: int| 0 <= i < before.len() ==> is_enriched(before[i], #[trigger] after[i])
}

/// Enriching what was enriched comes to enriching once.
pub proof fn law_enriches_is_transitive(a: Seq<DocView>, b: Seq<DocView>, c: Seq<DocView>)
    requires
        enriches(a, b),
        enriches(b, c),
    ensures
        enriches(a, c),
{
    assert forall|i: int| 0 <= i < a.len() implies is_enriched(a[i], #[trigger] c[i]) by {
        assert(is_enriched(a[i], b[i]));
        assert(is_enriched(b[i], c[i]));
    }
}

/// All that a visit does to the documents is to put a `seed_id` into some
/// that had none.
pub proof fn law_visit_enriches(docs: Seq<DocView>, from: nat, cache: CacheView)
    ensures
        enriches(docs, visit(docs, from, cache).docs),
    decreases docs.len() - from,
{
    if from < docs.len() {
        if has_seed_id(docs[from as int]) {
            law_visit_enriches(docs, from + 1, cache);
        } else if let Ok(host) = doc_seed_host(docs[from as int]) {
            if let Some(seed_id) = cache.get(host) {
                let next = docs.update(from as int, with_seed_id(docs[from as int], seed_id));
                law_visit_enriches(next, from + 1, cache.touched(host));
                let after = visit(docs, from, cache).docs;
                assert forall|i: int| 0 <= i < docs.len() implies is_enriched(
                    docs[i],
                    #[trigger] after[i],
                ) by {
                    assert(is_enriched(next[i], after[i]));
                    if i == from {
                        assert(has_seed_id(next[i]));
                    } else {
                        assert(next[i] == docs[i]);
                    }
                }
            }
        }
    }
}

/// All that a step does to the documents is to put a `seed_id` into some
/// that had none, where an answer of the store is for a document that had
/// none.
pub proof fn law_step_enriches(docs: Seq<DocView>, step: StepView, cache: CacheView)
    requires
        match step {
            StepView::Visit(_) => true,
            StepView::Selected { doc, .. } => doc < docs.len() && !has_seed_id(docs[doc as int]),
            StepView::Reselected { doc, .. } => doc < docs.len() && !has_seed_id(docs[doc as int]),
        },
    ensures
        enriches(docs, proc_step(docs, step, cache).docs),
{
    match step {
        StepView::Visit(from) => {
            law_visit_enriches(docs, from, cache);
        },
        StepView::Selected { doc, host, seed_id: Some(seed_id) } => {
            lemma_settle_enriches(docs, doc, host, seed_id, cache);
        },
        StepView::Reselected { doc, host, seed_id: Some(seed_id) } => {
            lemma_settle_enriches(docs, doc, host, seed_id, cache);
        },
        _ => {},
    }
}

proof fn lemma_settle_enriches(
    docs: Seq<DocView>,
    doc: nat,
    host: Seq<char>,
    seed_id: Seq<char>,
    cache: CacheView,
)
    requires
        doc < docs.len(),
        !has_seed_id(docs[doc as int]),
    ensures
        enriches(docs, settle(docs, doc, host, seed_id, cache).docs),
{
    let next = docs.update(doc as int, with_seed_id(docs[doc as int], seed_id));
    assert forall|i: int| 0 <= i < docs.len() implies is_enriched(docs[i], #[trigger] next[i]) by {
        if i != doc {
            assert(next[i] == docs[i]);
        }
    }
    law_visit_enriches(next, doc + 1, cache.with(host, seed_id));
    law_enriches_is_transitive(docs, next, settle(docs, doc, host, seed_id, cache).docs);
}

/// Documents with bytes of their own have original bytes together.
proof fn lemma_original_len_of_docs(docs: Seq<DocView>, i: int)
    requires
        0 <= i < docs.len(),
    ensures
        original_len(docs) >= docs[i].ori_str.len(),
    decreases docs.len(),
{
    if i < docs.len() - 1 {
        lemma_original_len_of_docs(docs.drop_last(), i);
    }
}

/// Where enrichment of a body that was read ends with nothing to write, it
/// has changed nothing: every document carried its `seed_id` when it came.
/// The body goes on as it came, and a second pass over it finds the same
/// documents, changes nothing, counts nothing, asks nothing and has nothing
/// to write either.
pub proof fn law_unchanged_body_passes_again(
    xml: Seq<u8>,
    after: Seq<DocView>,
    later: CacheView,
    doc_cnt: usize,
)
    requires
        read_docs(xml) is Ok,
        enriches(read_docs(xml)->Ok_0, after),
        all_settled(after),
        !needs_rewrite(after),
    ensures
        after == read_docs(xml)->Ok_0,
        body_for(xml, WriteOk::NoChanged(doc_cnt)) == xml,
        visit(read_docs(xml)->Ok_0, 0, later) == idle(read_docs(xml)->Ok_0, later),
        !needs_rewrite(read_docs(xml)->Ok_0),
{
    let docs = read_docs(xml)->Ok_0;
    lemma_read_from_valid(xml, xml_steps(xml, true), ReadState::initial());
    assert forall|i: int| 0 <= i < docs.len() implies after[i] == docs[i] by {
        assert(is_enriched(docs[i], after[i]));
        if after[i] != docs[i] {
            assert(after[i].field.has_changed);
            assert(after[i].ori_str == docs[i].ori_str);
            assert(as_read(docs[i]));
            lemma_doc_slice_is_not_empty(docs[i].ori_str);
            lemma_original_len_of_docs(after, i);
        }
    }
    assert(after =~= docs);
    law_settled_docs_are_left(docs, 0, later);
}

/// The bytes of a document are four bytes at least.
proof fn lemma_doc_slice_is_not_empty(bytes: Seq<u8>)
    requires
        is_doc_slice(bytes),
    ensures
        bytes.len() >= 4,
{
    broadcast use vstd::string::is_ascii_spec_bytes;

    reveal_strlit("<doc");
    assert(vstd::string::is_ascii("<doc"));
}

/// A body whose documents all carry a `seed_id` goes through as it came:
/// enrichment leaves its documents alone, writing finds nothing to write,
/// and the body that is forwarded is the body that was received.
pub proof fn law_round_trip(xml: Seq<u8>, cache: CacheView, doc_cnt: usize)
    requires
        read_docs(xml) is Ok,
        all_settled(read_docs(xml)->Ok_0),
    ensures
        visit(read_docs(xml)->Ok_0, 0, cache) == idle(read_docs(xml)->Ok_0, cache),
        !needs_rewrite(read_docs(xml)->Ok_0),
        body_for(xml, WriteOk::NoChanged(doc_cnt)) == xml,
{
    let docs = read_docs(xml)->Ok_0;
    law_settled_docs_are_left(docs, 0, cache);
    lemma_read_from_valid(xml, xml_steps(xml, true), ReadState::initial());
    if any_changed(docs) {
        let i = choose|i: int| 0 <= i < docs.len() && (#[trigger] docs[i]).field.has_changed;
        assert(as_read(docs[i]));
    }
}

/// Where there are no documents, enrichment has nothing to visit and
/// writing nothing to write: the body goes on as it came.
pub proof fn law_no_docs_nothing_to_do(xml: Seq<u8>, cache: CacheView)
    ensures
        visit(Seq::<DocView>::empty(), 0, cache) == idle(Seq::<DocView>::empty(), cache),
        !needs_rewrite(Seq::<DocView>::empty()),
        body_for(xml, WriteOk::NoChanged(0)) == xml,
{
}

/// A changed document with fields of one name is written in one way only:
/// the order of the names is open, and here there is but one.
pub proof fn law_one_name_is_written_one_way(
    doc: DocView,
    name: Seq<u8>,
    values: Seq<FieldValue>,
    part: Seq<u8>,
)
    requires
        doc.field.has_changed,
        doc.field.fields == no_fields().insert(name, values),
        renders(doc, part),
    ensures
        part == rewritten_doc(seq![(name, values)]),
{
    let listing = choose|listing: Seq<(Seq<u8>, Seq<FieldValue>)>|
        lists_entries(listing, doc.field.fields) && part == #[trigger] rewritten_doc(listing);
    assert(doc.field.fields.contains_key(name));
    let at = choose|i: int| 0 <= i < listing.len() && #[trigger] listing[i].0 == name;
    assert forall|i: int| 0 <= i < listing.len() implies #[trigger] listing[i] == (name, values) by {
        assert(doc.field.fields.contains_key(listing[i].0));
    }
    if listing.len() > 1 {
        assert(listing[0].0 != listing[1].0);
    }
    assert(listing =~= seq![(name, values)]);
}

/// In a body that was written anew, every document to which nothing was
/// added stands byte for byte as it was read.
pub proof fn law_unchanged_docs_are_kept(bytes: Seq<u8>, docs: Seq<DocView>)
    requires
        is_rewrite_of(bytes, docs),
    ensures
        exists|parts: Seq<Seq<u8>>|
            {
                &&& #[trigger] parts.len() == docs.len()
                &&& bytes == start_tag("add".spec_bytes()) + parts.flatten() + end_tag(
                    "add".spec_bytes(),
                )
                &&& forall|i: int|
                    0 <= i < docs.len() && !(#[trigger] docs[i]).field.has_changed ==> parts[i]
                        == docs[i].ori_str
            },
{
    let parts = choose|parts: Seq<Seq<u8>>| #[trigger]
        render_all(docs, parts) && bytes == start_tag("add".spec_bytes()) + parts.flatten()
            + end_tag("add".spec_bytes());
    assert(parts.len() == docs.len());
}

} // verus!
