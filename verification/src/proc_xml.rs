//! Giving every document of a request its `seed_id`.
//!
//! The documents are visited in their order. One that has a `seed_id` is
//! left alone. For any other the host of its `url` is looked up in the cache
//! and, where the cache does not hold it, in the store. The store is not
//! reached from here: a step hands out what has to be asked and takes the
//! answer in with the next step.

use crate::seed_cache::{CacheView, ResolverCache};
use crate::seed_host::{no_match_message, seed_host_of, seed_host_str};
use crate::util::ProcError;
use crate::working_cnt::WorkingCnt;
use crate::xml_doc::{xml_unescaped, Doc, DocView, FieldValue};
use crate::xml_reader::doc_views;
use std::borrow::Cow;
use vstd::prelude::*;
use vstd::string::StringSliceAdditionalSpecFns;

verus! {

/// The document carries a `seed_id`.
pub open spec fn has_seed_id(doc: DocView) -> bool {
    doc.field.fields.contains_key("seed_id".spec_bytes())
}

/// The document with one more `seed_id`, put in by the proxy.
pub open spec fn with_seed_id(doc: DocView, seed_id: Seq<char>) -> DocView {
    DocView {
        field: doc.field.with_value("seed_id".spec_bytes(), FieldValue::Text(seed_id)),
        ..doc
    }
}

/// The document after enrichment with `seed_id`: one that carries a
/// `seed_id` stays as it is.
pub open spec fn enriched(doc: DocView, seed_id: Seq<char>) -> DocView {
    if has_seed_id(doc) {
        doc
    } else {
        with_seed_id(doc, seed_id)
    }
}

/// The first value under `url`.
pub open spec fn first_url(doc: DocView) -> Option<FieldValue> {
    let fields = doc.field.fields;
    if fields.contains_key("url".spec_bytes()) && fields["url".spec_bytes()].len() > 0 {
        Some(fields["url".spec_bytes()][0])
    } else {
        None
    }
}

/// A value as text: original bytes unescaped, added text as it is.
pub open spec fn value_text(value: FieldValue) -> Option<Seq<char>> {
    match value {
        FieldValue::Raw(raw) => xml_unescaped(raw),
        FieldValue::Text(text) => Some(text),
    }
}

/// Why a document has no host.
pub enum HostFailure {
    /// It has no `url`.
    NoUrl,
    /// Its `url` cannot be read as text.
    BadText,
    /// Its `url` is the address of a cafe or a blog and does not tell the
    /// site.
    NoMatch,
}

/// The host under which the `seed_id` of a document is kept.
pub open spec fn doc_seed_host(doc: DocView) -> Result<Seq<char>, HostFailure> {
    match first_url(doc) {
        None => Err(HostFailure::NoUrl),
        Some(value) => match value_text(value) {
            None => Err(HostFailure::BadText),
            Some(url) => match seed_host_of(url) {
                None => Err(HostFailure::NoMatch),
                Some(host) => Ok(host),
            },
        },
    }
}

/// `error` is the error that stands for `failure` on `doc`.
pub open spec fn reports_host(error: ProcError, doc: DocView, failure: HostFailure) -> bool {
    match failure {
        HostFailure::NoUrl => error.says("NOT_FOUND_URL"@),
        HostFailure::BadText => error is Xml,
        HostFailure::NoMatch => error.says(no_match_message(value_text(first_url(doc)->0)->0)),
    }
}

fn text_of<'a>(text: &'a Cow<'_, str>) -> (r: &'a str)
    ensures
        r@ == text@,
{
    match text {
        Cow::Borrowed(s) => s,
        Cow::Owned(s) => s.as_str(),
    }
}

fn into_string(text: Cow<'_, str>) -> (r: String)
    ensures
        r@ == text@,
{
    match text {
        Cow::Borrowed(s) => s.to_owned(),
        Cow::Owned(s) => s,
    }
}

/// The host under which the `seed_id` of `doc` is kept: that of the first
/// value of its `url`.
pub fn seed_host(doc: &Doc) -> (r: Result<String, ProcError>)
    ensures
        match doc_seed_host(doc@) {
            Ok(host) => r matches Ok(found) && found@ == host,
            Err(failure) => r matches Err(error) && reports_host(error, doc@, failure),
        },
{
    let values = match doc.field().get("url".as_bytes()) {
        Some(values) => values,
        None => {
            return Err(ProcError::from_message("NOT_FOUND_URL"));
        },
    };
    if values.len() == 0 {
        return Err(ProcError::from_message("NOT_FOUND_URL"));
    }
    let first = &values[0];
    assert(first@ == crate::xml_doc::value_views(values@)[0]);
    let url = match first.to_unescape_str() {
        Ok(url) => url,
        Err(error) => {
            return Err(ProcError::Xml(error));
        },
    };
    match seed_host_str(text_of(&url)) {
        Ok(host) => Ok(into_string(host)),
        Err(error) => Err(ProcError::Str(error)),
    }
}

/// What a step of enrichment is taken with: where to go on, and what the
/// store answered.
#[derive(Debug)]
pub enum ProcStep {
    /// Go on with the documents from this index on.
    Visit(usize),
    /// The store was asked for the `seed_id` of `host`, for the document at
    /// index `doc`, and this is its answer.
    Selected { doc: usize, host: String, seed_id: Option<String> },
    /// The store was asked again, after `host` was inserted, and this is its
    /// answer.
    Reselected { doc: usize, host: String, seed_id: Option<String> },
}

/// What a step of enrichment wants done before the next one.
#[derive(Debug)]
pub enum ProcAction {
    /// Ask the store for the `seed_id` of `host`, and come back with
    /// `ProcStep::Selected`.
    Select { doc: usize, host: String },
    /// Insert `host` into the store, ask for its `seed_id` again, and come
    /// back with `ProcStep::Reselected`.
    InsertThenSelect { doc: usize, host: String },
    /// Every document has its `seed_id`.
    Done,
}

/// What a `ProcStep` stands for.
pub enum StepView {
    Visit(nat),
    Selected { doc: nat, host: Seq<char>, seed_id: Option<Seq<char>> },
    Reselected { doc: nat, host: Seq<char>, seed_id: Option<Seq<char>> },
}

/// What a `ProcAction` stands for.
pub enum ActionView {
    Select { doc: nat, host: Seq<char> },
    InsertThenSelect { doc: nat, host: Seq<char> },
    Done,
}

/// The text of an optional string.
pub open spec fn text_view(text: Option<String>) -> Option<Seq<char>> {
    match text {
        Some(s) => Some(s@),
        None => None,
    }
}

impl View for ProcStep {
    type V = StepView;

    open spec fn view(&self) -> StepView {
        match self {
            ProcStep::Visit(from) => StepView::Visit(*from as nat),
            ProcStep::Selected { doc, host, seed_id } => StepView::Selected {
                doc: *doc as nat,
                host: host@,
                seed_id: text_view(*seed_id),
            },
            ProcStep::Reselected { doc, host, seed_id } => StepView::Reselected {
                doc: *doc as nat,
                host: host@,
                seed_id: text_view(*seed_id),
            },
        }
    }
}

impl View for ProcAction {
    type V = ActionView;

    open spec fn view(&self) -> ActionView {
        match self {
            ProcAction::Select { doc, host } => ActionView::Select { doc: *doc as nat, host: host@ },
            ProcAction::InsertThenSelect { doc, host } => ActionView::InsertThenSelect {
                doc: *doc as nat,
                host: host@,
            },
            ProcAction::Done => ActionView::Done,
        }
    }
}

/// Why enrichment fails.
pub enum ProcFailure {
    /// The document at this index has no host.
    Host(nat, HostFailure),
    /// The store holds no `seed_id` for a host that was just inserted.
    StillMissing,
}

/// What one step of enrichment comes to.
pub struct ProcOutcome {
    /// The documents afterwards.
    pub docs: Seq<DocView>,
    /// The cache afterwards.
    pub cache: CacheView,
    /// How many hosts the cache held.
    pub hits: nat,
    /// How many hosts the cache did not hold.
    pub misses: nat,
    /// How many hosts have to be inserted.
    pub inserts: nat,
    /// What is to be done next, or why nothing can be.
    pub result: Result<ActionView, ProcFailure>,
}

/// Visiting the documents from index `from` on, up to the first one for
/// which the store has to be asked or which has no host.
pub open spec fn visit(docs: Seq<DocView>, from: nat, cache: CacheView) -> ProcOutcome
    decreases docs.len() - from,
{
    if from >= docs.len() {
        ProcOutcome { docs, cache, hits: 0, misses: 0, inserts: 0, result: Ok(ActionView::Done) }
    } else if has_seed_id(docs[from as int]) {
        visit(docs, from + 1, cache)
    } else {
        match doc_seed_host(docs[from as int]) {
            Err(failure) => ProcOutcome {
                docs,
                cache,
                hits: 0,
                misses: 0,
                inserts: 0,
                result: Err(ProcFailure::Host(from, failure)),
            },
            Ok(host) => match cache.get(host) {
                Some(seed_id) => {
                    let rest = visit(
                        docs.update(from as int, with_seed_id(docs[from as int], seed_id)),
                        from + 1,
                        cache.touched(host),
                    );
                    ProcOutcome { hits: rest.hits + 1, ..rest }
                },
                None => ProcOutcome {
                    docs,
                    cache: cache.touched(host),
                    hits: 0,
                    misses: 1,
                    inserts: 0,
                    result: Ok(ActionView::Select { doc: from, host }),
                },
            },
        }
    }
}

/// The document at `doc` gets `seed_id`, the cache holds it for `host`, and
/// the visit goes on behind that document.
pub open spec fn settle(
    docs: Seq<DocView>,
    doc: nat,
    host: Seq<char>,
    seed_id: Seq<char>,
    cache: CacheView,
) -> ProcOutcome {
    visit(
        docs.update(doc as int, with_seed_id(docs[doc as int], seed_id)),
        doc + 1,
        cache.with(host, seed_id),
    )
}

/// What taking `step` comes to.
pub open spec fn proc_step(docs: Seq<DocView>, step: StepView, cache: CacheView) -> ProcOutcome {
    match step {
        StepView::Visit(from) => visit(docs, from, cache),
        StepView::Selected { doc, host, seed_id } => match seed_id {
            Some(seed_id) => settle(docs, doc, host, seed_id, cache),
            None => ProcOutcome {
                docs,
                cache,
                hits: 0,
                misses: 0,
                inserts: 1,
                result: Ok(ActionView::InsertThenSelect { doc, host }),
            },
        },
        StepView::Reselected { doc, host, seed_id } => match seed_id {
            Some(seed_id) => settle(docs, doc, host, seed_id, cache),
            None => ProcOutcome {
                docs,
                cache,
                hits: 0,
                misses: 0,
                inserts: 0,
                result: Err(ProcFailure::StillMissing),
            },
        },
    }
}

/// A step that carries an answer of the store names one of `doc_cnt`
/// documents.
pub open spec fn step_in_range(step: StepView, doc_cnt: nat) -> bool {
    match step {
        StepView::Visit(_) => true,
        StepView::Selected { doc, .. } => doc < doc_cnt,
        StepView::Reselected { doc, .. } => doc < doc_cnt,
    }
}

/// A step that carries an answer of the store names a document that is
/// there.
pub open spec fn step_fits(step: StepView, docs: Seq<DocView>) -> bool {
    step_in_range(step, docs.len())
}

/// `error` is the error that stands for `failure`, which came up on `docs`.
pub open spec fn reports_failure(error: ProcError, docs: Seq<DocView>, failure: ProcFailure) -> bool {
    match failure {
        ProcFailure::Host(doc, failure) => reports_host(error, docs[doc as int], failure),
        ProcFailure::StillMissing => error.says("SEED_ID_SELECT_AFTER_INSERT_FAIL"@),
    }
}

/// The counters can take what `outcome` counts.
pub open spec fn can_count(cnt: WorkingCnt, outcome: ProcOutcome) -> bool {
    cnt.can_record_lookups(outcome.hits, outcome.misses, outcome.inserts)
}

/// The counters after `outcome`.
pub open spec fn counted(cnt: WorkingCnt, outcome: ProcOutcome) -> WorkingCnt {
    cnt.with_lookups(outcome.hits, outcome.misses, outcome.inserts)
}

/// What one step of enrichment counted.
#[derive(Debug, Clone, Copy)]
pub struct Lookups {
    /// How many hosts the cache held.
    pub hits: usize,
    /// How many hosts the cache did not hold.
    pub misses: usize,
    /// How many hosts have to be inserted.
    pub inserts: usize,
}

impl Lookups {
    /// `self` is what `outcome` counts.
    pub open spec fn counts(self, outcome: ProcOutcome) -> bool {
        self.hits == outcome.hits && self.misses == outcome.misses && self.inserts
            == outcome.inserts
    }
}

impl ProcStep {
    /// Whether the step can be taken on `doc_cnt` documents: one that
    /// carries an answer of the store names a document that is there.
    pub fn fits(&self, doc_cnt: usize) -> (b: bool)
        ensures
            b == step_in_range(self@, doc_cnt as nat),
    {
        match self {
            ProcStep::Visit(_) => true,
            ProcStep::Selected { doc, .. } => *doc < doc_cnt,
            ProcStep::Reselected { doc, .. } => *doc < doc_cnt,
        }
    }
}

/// A visit keeps the number of documents, finds at most one host missing
/// and no more hosts held than there are documents left.
pub proof fn lemma_visit_counts(docs: Seq<DocView>, from: nat, cache: CacheView)
    ensures
        visit(docs, from, cache).docs.len() == docs.len(),
        visit(docs, from, cache).misses <= 1,
        visit(docs, from, cache).inserts == 0,
        from <= docs.len() ==> visit(docs, from, cache).hits <= docs.len() - from,
        from > docs.len() ==> visit(docs, from, cache).hits == 0,
    decreases docs.len() - from,
{
    if from < docs.len() {
        if has_seed_id(docs[from as int]) {
            lemma_visit_counts(docs, from + 1, cache);
        } else if let Ok(host) = doc_seed_host(docs[from as int]) {
            if let Some(seed_id) = cache.get(host) {
                lemma_visit_counts(
                    docs.update(from as int, with_seed_id(docs[from as int], seed_id)),
                    from + 1,
                    cache.touched(host),
                );
            }
        }
    }
}

fn add_seed_id(docs: &mut Vec<Doc>, i: usize, seed_id: String)
    requires
        i < old(docs).len(),
    ensures
        doc_views(final(docs)@) == doc_views(old(docs)@).update(
            i as int,
            with_seed_id(doc_views(old(docs)@)[i as int], seed_id@),
        ),
        final(docs).len() == old(docs).len(),
{
    let ghost before = doc_views(docs@);
    let doc = &mut docs[i];
    doc.field_as_mut().push_field_owned("seed_id".as_bytes(), seed_id);
    assert(doc_views(docs@) =~= before.update(i as int, with_seed_id(before[i as int], seed_id@)));
}

/// Takes one step of enrichment: takes the answer of the store in, where
/// `step` carries one, and visits the documents up to the next one for which
/// the store has to be asked. What the step counted is handed back with its
/// result.
///
/// A document that carries a `seed_id` is not touched. Any other gets the
/// `seed_id` of its host put in as added text: from the cache where the
/// cache holds the host, else from the answer of the store, which the cache
/// holds from then on.
pub fn take_step(docs: &mut Vec<Doc>, step: ProcStep, cache: &mut ResolverCache) -> (r: (
    Lookups,
    Result<ProcAction, ProcError>,
))
    requires
        step_fits(step@, doc_views(old(docs)@)),
    ensures
        ({
            let outcome = proc_step(doc_views(old(docs)@), step@, old(cache)@);
            &&& doc_views(final(docs)@) == outcome.docs
            &&& final(cache)@ == outcome.cache
            &&& r.0.counts(outcome)
            &&& match outcome.result {
                Ok(action) => r.1 matches Ok(next) && next@ == action,
                Err(failure) => r.1 matches Err(error) && reports_failure(
                    error,
                    outcome.docs,
                    failure,
                ),
            }
        }),
{
    let ghost step_view = step@;
    let ghost outcome = proc_step(doc_views(docs@), step_view, cache@);
    let ghost len = docs.len();
    let mut i: usize = match step {
        ProcStep::Visit(from) => from,
        ProcStep::Selected { doc, host, seed_id } => match seed_id {
            Some(seed_id) => {
                add_seed_id(docs, doc, seed_id.clone());
                cache.put(host, seed_id);
                doc + 1
            },
            None => {
                return (
                    Lookups { hits: 0, misses: 0, inserts: 1 },
                    Ok(ProcAction::InsertThenSelect { doc, host }),
                );
            },
        },
        ProcStep::Reselected { doc, host, seed_id } => match seed_id {
            Some(seed_id) => {
                add_seed_id(docs, doc, seed_id.clone());
                cache.put(host, seed_id);
                doc + 1
            },
            None => {
                return (
                    Lookups { hits: 0, misses: 0, inserts: 0 },
                    Err(ProcError::from_message("SEED_ID_SELECT_AFTER_INSERT_FAIL")),
                );
            },
        },
    };
    assert(outcome == visit(doc_views(docs@), i as nat, cache@));
    proof {
        lemma_visit_counts(doc_views(docs@), i as nat, cache@);
    }
    let mut hits: usize = 0;
    while i < docs.len()
        invariant
            docs.len() == len,
            step_view == step@,
            outcome == proc_step(doc_views(old(docs)@), step_view, old(cache)@),
            hits + visit(doc_views(docs@), i as nat, cache@).hits == outcome.hits,
            outcome == (ProcOutcome { hits: outcome.hits, ..visit(doc_views(docs@), i as nat, cache@) }),
            outcome.hits <= len,
        decreases docs.len() - i,
    {
        let ghost views = doc_views(docs@);
        assert(views[i as int] == docs@[i as int]@);
        if docs[i].field().get("seed_id".as_bytes()).is_none() {
            let host = match seed_host(&docs[i]) {
                Ok(host) => host,
                Err(error) => {
                    return (Lookups { hits, misses: 0, inserts: 0 }, Err(error));
                },
            };
            match cache.get(host.as_str()) {
                Some(seed_id) => {
                    proof {
                        lemma_visit_counts(
                            views.update(i as int, with_seed_id(views[i as int], seed_id@)),
                            (i + 1) as nat,
                            cache@,
                        );
                    }
                    add_seed_id(docs, i, seed_id);
                    hits = hits + 1;
                },
                None => {
                    return (
                        Lookups { hits, misses: 1, inserts: 0 },
                        Ok(ProcAction::Select { doc: i, host }),
                    );
                },
            }
        }
        i += 1;
    }
    (Lookups { hits, misses: 0, inserts: 0 }, Ok(ProcAction::Done))
}

/// Takes one step of enrichment and counts it: `take_step`, with each host
/// that the cache held or did not hold, and each host that has to be
/// inserted, added to the counters.
pub fn proc_xml(
    docs: &mut Vec<Doc>,
    step: ProcStep,
    cache: &mut ResolverCache,
    cnt: &mut WorkingCnt,
) -> (r: Result<ProcAction, ProcError>)
    requires
        step_fits(step@, doc_views(old(docs)@)),
        can_count(*old(cnt), proc_step(doc_views(old(docs)@), step@, old(cache)@)),
    ensures
        ({
            let outcome = proc_step(doc_views(old(docs)@), step@, old(cache)@);
            &&& doc_views(final(docs)@) == outcome.docs
            &&& final(cache)@ == outcome.cache
            &&& *final(cnt) == counted(*old(cnt), outcome)
            &&& match outcome.result {
                Ok(action) => r matches Ok(next) && next@ == action,
                Err(failure) => r matches Err(error) && reports_failure(
                    error,
                    outcome.docs,
                    failure,
                ),
            }
        }),
{
    let (lookups, result) = take_step(docs, step, cache);
    cnt.record_lookups(lookups.hits, lookups.misses, lookups.inserts);
    result
}

} // verus!
