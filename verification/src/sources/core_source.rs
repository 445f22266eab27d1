//! CORE, the largest aggregator of open-access research, with direct full-text
//! download URLs. It needs an API key: without one the source contributes
//! nothing.

use vstd::prelude::*;

use crate::sources;
use crate::sources::{Document, DocumentView, HttpRequest, HttpRequestView};
use crate::text;

verus! {

/// The search endpoint.
pub const BASE: &'static str = "https://api.core.ac.uk/v3/search/works";

/// The most records that one request asks for.
pub const PAGE_SIZE: usize = 100;

/// One page of answers.
#[derive(Debug, PartialEq, Eq)]
pub struct Resp {
    pub results: Vec<Work>,
}

/// One record of a page.
#[derive(Debug, PartialEq, Eq)]
pub struct Work {
    pub title: Option<String>,
    pub authors: Vec<Author>,
    pub year_published: Option<i64>,
    pub abstract_: Option<String>,
    pub download_url: Option<String>,
    pub doi: Option<String>,
}

/// An author of a record.
#[derive(Debug, PartialEq, Eq)]
pub struct Author {
    pub name: Option<String>,
}

/// The contents of a [`Work`].
pub struct WorkView {
    pub title: Option<Seq<char>>,
    pub authors: Seq<Option<Seq<char>>>,
    pub year_published: Option<i64>,
    pub abstract_: Option<Seq<char>>,
    pub download_url: Option<Seq<char>>,
    pub doi: Option<Seq<char>>,
}

impl DeepView for Author {
    type V = Option<Seq<char>>;

    open spec fn deep_view(&self) -> Option<Seq<char>> {
        self.name.deep_view()
    }
}

impl DeepView for Work {
    type V = WorkView;

    open spec fn deep_view(&self) -> WorkView {
        WorkView {
            title: self.title.deep_view(),
            authors: self.authors.deep_view(),
            year_published: self.year_published,
            abstract_: self.abstract_.deep_view(),
            download_url: self.download_url.deep_view(),
            doi: self.doi.deep_view(),
        }
    }
}

/// The names among `authors`: those without one are left out.
pub open spec fn author_names(authors: Seq<Option<Seq<char>>>) -> Seq<Seq<char>> {
    authors.filter(|a: Option<Seq<char>>| a is Some).map_values(|a: Option<Seq<char>>| a->0)
}

/// Whether a record can be downloaded.
pub open spec fn is_downloadable(w: WorkView) -> bool {
    w.download_url matches Some(url) && url.len() > 0
}

/// The document of a record that can be downloaded.
pub open spec fn core_document(w: WorkView) -> DocumentView {
    DocumentView {
        title: match w.title {
            Some(title) => title,
            None => "Untitled"@,
        },
        url: w.download_url->0,
        source: "core"@,
        authors: author_names(w.authors),
        year: match w.year_published {
            Some(year) => Some(text::signed_decimal(year as int)),
            None => None,
        },
        abstract_: w.abstract_,
        identifier: w.doi,
    }
}

/// The documents of a page: one for each record that can be downloaded, in order.
pub open spec fn core_documents(works: Seq<WorkView>) -> Seq<DocumentView> {
    works.filter(|w: WorkView| is_downloadable(w)).map_values(|w: WorkView| core_document(w))
}

/// A search of CORE under way, as a value.
pub struct CoreState {
    pub key: Seq<char>,
    pub query: Seq<char>,
    /// The most items that the search may yield.
    pub limit: nat,
    /// The records received so far.
    pub offset: nat,
    /// The documents found so far.
    pub yielded: nat,
    /// Whether the service has nothing more to give.
    pub done: bool,
}

impl CoreState {
    /// The items that the search may still yield.
    pub open spec fn room(self) -> nat {
        if self.yielded < self.limit {
            (self.limit - self.yielded) as nat
        } else {
            0
        }
    }

    /// Whether the search still has something to ask for.
    pub open spec fn active(self) -> bool {
        !self.done && self.yielded < self.limit
    }

    /// The records that the next request asks for: those still wanted, in pages.
    pub open spec fn page(self) -> nat {
        if self.room() < PAGE_SIZE {
            self.room()
        } else {
            PAGE_SIZE as nat
        }
    }

    /// The next request.
    pub open spec fn request(self) -> HttpRequestView {
        HttpRequestView {
            url: BASE@,
            authorization: Some("Bearer "@ + self.key),
            query: seq![
                ("q"@, self.query),
                ("limit"@, text::decimal(self.page())),
                ("offset"@, text::decimal(self.offset)),
            ],
        }
    }

    /// What an answered page adds to the search.
    pub open spec fn items<E>(self, works: Seq<WorkView>) -> Seq<Result<DocumentView, E>> {
        sources::all_ok(
            sources::at_most(core_documents(works), self.room()),
        )
    }

    /// The search after an answered page. A page that is not full is the last one.
    pub open spec fn after_page(self, works: Seq<WorkView>) -> CoreState {
        CoreState {
            offset: self.offset + works.len(),
            yielded: self.yielded + core_documents(works).len(),
            done: works.len() < self.page(),
            ..self
        }
    }

    /// The search after a request that failed: it is over.
    pub open spec fn after_failure(self) -> CoreState {
        CoreState { done: true, ..self }
    }
}

/// A search of CORE under way: it says what to ask the service next and takes
/// the answers.
pub struct CoreSearch {
    key: String,
    query: String,
    limit: usize,
    offset: usize,
    yielded: usize,
    done: bool,
}

impl View for CoreSearch {
    type V = CoreState;

    closed spec fn view(&self) -> CoreState {
        CoreState {
            key: self.key@,
            query: self.query@,
            limit: self.limit as nat,
            offset: self.offset as nat,
            yielded: self.yielded as nat,
            done: self.done,
        }
    }
}

/// The CORE source.
pub struct CoreSource {
    api_key: Option<String>,
}

impl CoreSource {
    /// The configured key.
    pub closed spec fn key(&self) -> Option<Seq<char>> {
        self.api_key.deep_view()
    }

    /// Whether a key is configured: blank text is none.
    pub open spec fn has_key(&self) -> bool {
        self.key() matches Some(key) && text::trim(key).len() > 0
    }

    pub fn new(api_key: Option<String>) -> (r: Self)
        ensures
            r.key() == api_key.deep_view(),
    {
        CoreSource { api_key }
    }

    pub fn name(&self) -> (r: &'static str)
        ensures
            r@ == "core"@,
    {
        "core"
    }

    /// Starts a search that yields at most `limit` items. Without a key there
    /// is none, and no error either.
    pub fn search(&self, keywords: &Vec<String>, limit: usize) -> (r: Option<CoreSearch>)
        ensures
            r is Some <==> self.has_key(),
            r matches Some(search) ==> search@ == (CoreState {
                key: self.key()->0,
                query: text::join(keywords.deep_view(), " "@),
                limit: limit as nat,
                offset: 0,
                yielded: 0,
                done: false,
            }),
    {
        match &self.api_key {
            Some(key) if !text::trimmed(key.as_str()).is_empty() => Some(
                CoreSearch {
                    key: key.clone(),
                    query: text::joined(keywords, " "),
                    limit,
                    offset: 0,
                    yielded: 0,
                    done: false,
                },
            ),
            _ => None,
        }
    }
}

/// The names among `authors`: those without one are left out.
fn names_of(authors: Vec<Author>) -> (r: Vec<String>)
    ensures
        r.deep_view() == author_names(authors.deep_view()),
{
    let mut names: Vec<String> = Vec::new();
    let ghost all = authors.deep_view();
    let ghost named = |a: Option<Seq<char>>| a is Some;
    let ghost name = |a: Option<Seq<char>>| a->0;
    proof {
        reveal(Seq::filter);
    }
    for author in it: authors
        invariant
            it.seq() == authors@,
            all == authors.deep_view(),
            named == (|a: Option<Seq<char>>| a is Some),
            name == (|a: Option<Seq<char>>| a->0),
            names.deep_view() == all.take(it.index() as int).filter(named).map_values(name),
    {
        let ghost before = names.deep_view();
        let ghost i = it.index() as int;
        proof {
            reveal(Seq::filter);
            assert(all.take(i + 1).drop_last() =~= all.take(i));
            assert(all.take(i + 1).last() == author.deep_view());
        }
        if let Some(text) = author.name {
            names.push(text);
            assert(names.deep_view() =~= before.push(text@));
        }
        assert(names.deep_view() =~= all.take(i + 1).filter(named).map_values(name));
    }
    assert(all.take(all.len() as int) =~= all);
    names
}

/// The document of a record, or none where it cannot be downloaded.
fn document_of(work: Work) -> (r: Option<Document>)
    ensures
        r is Some <==> is_downloadable(work.deep_view()),
        r matches Some(doc) ==> doc.deep_view() == core_document(work.deep_view()),
{
    let url = match work.download_url {
        Some(url) if !url.as_str().is_empty() => url,
        _ => {
            return None;
        },
    };
    let title = match work.title {
        Some(title) => title,
        None => "Untitled".to_owned(),
    };
    let year = match work.year_published {
        Some(year) => Some(text::signed_decimal_text(year)),
        None => None,
    };
    Some(
        Document {
            title,
            url,
            source: "core".to_owned(),
            authors: names_of(work.authors),
            year,
            abstract_: work.abstract_,
            identifier: work.doi,
        },
    )
}

/// The documents of a page, in order.
fn documents_of(works: Vec<Work>) -> (r: Vec<Document>)
    ensures
        r.deep_view() == core_documents(works.deep_view()),
        r.len() <= works.len(),
{
    let mut docs: Vec<Document> = Vec::new();
    let ghost all = works.deep_view();
    let ghost keep = |w: WorkView| is_downloadable(w);
    let ghost convert = |w: WorkView| core_document(w);
    proof {
        reveal(Seq::filter);
    }
    for work in it: works
        invariant
            it.seq() == works@,
            all == works.deep_view(),
            keep == (|w: WorkView| is_downloadable(w)),
            convert == (|w: WorkView| core_document(w)),
            docs.len() <= it.index(),
            docs.deep_view() == all.take(it.index() as int).filter(keep).map_values(convert),
    {
        let ghost before = docs.deep_view();
        let ghost i = it.index() as int;
        proof {
            reveal(Seq::filter);
            assert(all.take(i + 1).drop_last() =~= all.take(i));
            assert(all.take(i + 1).last() == work.deep_view());
        }
        if let Some(doc) = document_of(work) {
            docs.push(doc);
            assert(docs.deep_view() =~= before.push(doc.deep_view()));
        }
        assert(docs.deep_view() =~= all.take(i + 1).filter(keep).map_values(convert));
    }
    assert(all.take(all.len() as int) =~= all);
    docs
}

impl CoreSearch {
    /// Every document comes from a record of its own.
    #[verifier::type_invariant]
    spec fn inv(&self) -> bool {
        self.yielded <= self.offset
    }

    /// The next request to send; none where the search is over.
    pub fn next_request(&self) -> (r: Option<HttpRequest>)
        ensures
            r is Some <==> self@.active(),
            r matches Some(request) ==> request.deep_view() == self@.request(),
    {
        if self.done || self.yielded >= self.limit {
            return None;
        }
        let page = self.page();
        let mut authorization = "Bearer ".to_owned();
        authorization.append(self.key.as_str());
        let mut query: Vec<(String, String)> = Vec::new();
        query.push(("q".to_owned(), self.query.clone()));
        query.push(("limit".to_owned(), text::decimal_text(page as u64)));
        query.push(("offset".to_owned(), text::decimal_text(self.offset as u64)));
        assert(query.deep_view() =~= self@.request().query);
        Some(HttpRequest { url: BASE.to_owned(), authorization: Some(authorization), query })
    }

    /// The records that the next request asks for.
    fn page(&self) -> (r: usize)
        requires
            self@.active(),
        ensures
            r == self@.page(),
    {
        let wanted = self.limit - self.yielded;
        if wanted < PAGE_SIZE {
            wanted
        } else {
            PAGE_SIZE
        }
    }

    /// Takes the answer to the request of [`CoreSearch::next_request`] and
    /// gives the items that it adds to the search.
    pub fn on_reply<E>(&mut self, reply: Result<Resp, E>) -> (items: Vec<Result<Document, E>>)
        requires
            old(self)@.active(),
            reply matches Ok(resp) ==> old(self)@.offset + resp.results.len() <= usize::MAX,
        ensures
            match reply {
                Ok(resp) => {
                    &&& sources::items_view(items@) == old(self)@.items::<E>(
                        resp.results.deep_view(),
                    )
                    &&& final(self)@ == old(self)@.after_page(resp.results.deep_view())
                },
                Err(e) => {
                    &&& items@ == seq![Err::<Document, E>(e)]
                    &&& final(self)@ == old(self)@.after_failure()
                },
            },
    {
        proof {
            use_type_invariant(&*self);
        }
        match reply {
            Ok(resp) => {
                let wanted = self.limit - self.yielded;
                let page = self.page();
                let received = resp.results.len();
                let docs = documents_of(resp.results);
                let found = docs.len();
                self.offset = self.offset + received;
                self.yielded = self.yielded + found;
                self.done = received < page;
                sources::first_items(docs, wanted)
            },
            Err(e) => {
                self.done = true;
                let mut items: Vec<Result<Document, E>> = Vec::new();
                items.push(Err(e));
                items
            },
        }
    }
}

/// Everything that a search yields where its requests are answered by
/// `replies`, one after the other, until it is over.
pub open spec fn core_run<E>(
    state: CoreState,
    replies: Seq<Result<Seq<WorkView>, E>>,
) -> Seq<Result<DocumentView, E>>
    decreases replies.len(),
{
    if replies.len() == 0 || !state.active() {
        Seq::empty()
    } else {
        match replies.first() {
            Ok(works) => state.items::<E>(works) + core_run(
                state.after_page(works),
                replies.drop_first(),
            ),
            Err(e) => seq![Err(e)] + core_run(state.after_failure(), replies.drop_first()),
        }
    }
}

/// A search yields no more items than its limit leaves room for, whatever the
/// service answers, and nothing comes after an error.
pub proof fn law_run_is_bounded<E>(
    state: CoreState,
    replies: Seq<Result<Seq<WorkView>, E>>,
)
    ensures
        core_run(state, replies).len() <= state.room(),
        forall|i: int|
            0 <= i < core_run(state, replies).len() - 1 ==> (#[trigger] core_run(state, replies)[i])
                is Ok,
    decreases replies.len(),
{
    reveal_with_fuel(core_run, 2);
    if replies.len() > 0 && state.active() {
        match replies.first() {
            Ok(works) => {
                let next = state.after_page(works);
                if next.active() {
                    law_run_is_bounded(next, replies.drop_first());
                }
            },
            Err(e) => {},
        }
    }
}

/// Every document of a search names this source and has a URL.
pub proof fn law_documents_can_be_downloaded<E>(
    state: CoreState,
    replies: Seq<Result<Seq<WorkView>, E>>,
)
    ensures
        forall|i: int|
            0 <= i < core_run(state, replies).len() ==> ((#[trigger] core_run(state, replies)[i])
                matches Ok(doc) ==> doc.source == "core"@ && doc.url.len() > 0),
    decreases replies.len(),
{
    if replies.len() > 0 && state.active() {
        match replies.first() {
            Ok(works) => {
                let keep = |w: WorkView| is_downloadable(w);
                assert forall|j: int| 0 <= j < core_documents(works).len() implies (
                #[trigger] core_documents(works)[j]).source == "core"@ && core_documents(
                    works,
                )[j].url.len() > 0 by {
                    works.lemma_filter_pred(keep, j);
                }
                law_documents_can_be_downloaded(state.after_page(works), replies.drop_first());
            },
            Err(e) => {
                law_documents_can_be_downloaded(state.after_failure(), replies.drop_first());
            },
        }
    }
}

/// A request asks for at least one record, for no more than a page holds, and
/// for no more than the search still wants; it asks for the records behind
/// those that have come in.
pub proof fn law_request_asks_for_what_is_missing(state: CoreState, works: Seq<WorkView>)
    requires
        state.active(),
    ensures
        1 <= state.page() <= PAGE_SIZE,
        state.page() <= state.room(),
        state.after_page(works).offset == state.offset + works.len(),
        core_documents(works).len() <= works.len(),
{
    works.lemma_filter_len(|w: WorkView| is_downloadable(w));
}

/// The replies that a search takes before it is over.
pub open spec fn core_taken<E>(
    state: CoreState,
    replies: Seq<Result<Seq<WorkView>, E>>,
) -> Seq<Result<Seq<WorkView>, E>>
    decreases replies.len(),
{
    if replies.len() == 0 || !state.active() {
        Seq::empty()
    } else {
        let next = match replies.first() {
            Ok(works) => state.after_page(works),
            Err(_) => state.after_failure(),
        };
        seq![replies.first()] + core_taken(next, replies.drop_first())
    }
}

/// The documents of all pages among `replies`, page after page.
pub open spec fn core_pages_documents<E>(
    replies: Seq<Result<Seq<WorkView>, E>>,
) -> Seq<DocumentView>
    decreases replies.len(),
{
    if replies.len() == 0 {
        Seq::empty()
    } else {
        let rest = core_pages_documents(replies.drop_first());
        match replies.first() {
            Ok(works) => core_documents(works) + rest,
            Err(_) => rest,
        }
    }
}

/// A search yields the first documents of the pages that it takes, in order
/// and as many as it has room for, and behind them the error where the last
/// reply that it takes is one. It takes its replies from the first one on.
pub proof fn law_run_is_first_documents<E>(
    state: CoreState,
    replies: Seq<Result<Seq<WorkView>, E>>,
)
    ensures
        core_taken(state, replies).is_prefix_of(replies),
        core_run(state, replies) == sources::all_ok::<E>(
            sources::at_most(core_pages_documents(core_taken(state, replies)), state.room()),
        ) + sources::last_error(core_taken(state, replies)),
        (forall|i: int| 0 <= i < replies.len() ==> (#[trigger] replies[i]) is Ok) ==> core_run(
            state,
            replies,
        ) == sources::all_ok::<E>(
            sources::at_most(core_pages_documents(core_taken(state, replies)), state.room()),
        ),
    decreases replies.len(),
{
    let taken = core_taken(state, replies);
    if replies.len() > 0 && state.active() {
        let rest = replies.drop_first();
        let next = match replies.first() {
            Ok(works) => state.after_page(works),
            Err(_) => state.after_failure(),
        };
        law_run_is_first_documents(next, rest);
        let later = core_taken(next, rest);
        assert(taken.drop_first() =~= later);
        assert(taken =~= replies.take(taken.len() as int)) by {
            assert(later =~= rest.take(later.len() as int));
        }
        if next.active() {
            sources::lemma_at_most_of_longer(
                core_documents(replies.first()->Ok_0),
                core_pages_documents(later),
                state.room(),
            );
        } else {
            assert(later =~= Seq::empty());
            assert(core_pages_documents(taken) =~= match replies.first() {
                Ok(works) => core_documents(works),
                Err(_) => Seq::empty(),
            });
        }
    }
    assert(core_run(state, replies) =~= sources::all_ok::<E>(
        sources::at_most(core_pages_documents(taken), state.room()),
    ) + sources::last_error(taken));
    if forall|i: int| 0 <= i < replies.len() ==> (#[trigger] replies[i]) is Ok {
        assert(sources::last_error(taken) =~= Seq::<Result<DocumentView, E>>::empty()) by {
            if taken.len() > 0 {
                assert(taken.last() == replies[taken.len() - 1]);
            }
        }
    }
}

/// A failed request ends the search. An answered page ends it exactly where
/// the page is not full or the count is; after any other page the search goes
/// on, whatever was dropped for want of a URL.
pub proof fn law_search_ends(state: CoreState, works: Seq<WorkView>)
    requires
        state.active(),
    ensures
        !state.after_failure().active(),
        state.after_page(works).active() <==> {
            &&& works.len() >= state.page()
            &&& state.yielded + core_documents(works).len() < state.limit
        },
{
}

/// The names of the authors that have one, in order.
proof fn lemma_author_names(authors: Vec<Author>)
    ensures
        author_names(authors.deep_view()) == authors@.filter(
            |a: Author| a.name is Some,
        ).map_values(|a: Author| a.name->0@),
{
    let view = |a: Author| a.deep_view();
    let named = |a: Option<Seq<char>>| a is Some;
    assert(authors.deep_view() =~= authors@.map_values(view));
    text::lemma_filter_of_map(authors@, view, named);
    assert((|a: Author| named(view(a))) =~= (|a: Author| a.name is Some));
    let kept = authors@.filter(|a: Author| a.name is Some);
    assert forall|i: int| 0 <= i < kept.len() implies (#[trigger] kept[i]).name is Some by {
        authors@.lemma_filter_pred(|a: Author| a.name is Some, i);
    }
    assert(author_names(authors.deep_view()) =~= kept.map_values(|a: Author| a.name->0@));
}

/// The documents of a page, told from its records.
proof fn lemma_documents_of_records(works: Vec<Work>) -> (wanted: Seq<Work>)
    ensures
        wanted == works@.filter(
            |w: Work| w.download_url matches Some(url) && url@.len() > 0,
        ),
        core_documents(works.deep_view()) == wanted.map_values(
            |w: Work| core_document(w.deep_view()),
        ),
        forall|i: int|
            0 <= i < wanted.len() ==> ((#[trigger] wanted[i]).download_url matches Some(url)
                && url@.len() > 0),
{
    let view = |w: Work| w.deep_view();
    let keep = |w: WorkView| is_downloadable(w);
    let has_url = |w: Work| w.download_url matches Some(url) && url@.len() > 0;
    assert(works.deep_view() =~= works@.map_values(view));
    text::lemma_filter_of_map(works@, view, keep);
    assert((|w: Work| keep(view(w))) =~= has_url);
    let wanted = works@.filter(has_url);
    assert forall|i: int| 0 <= i < wanted.len() implies ((#[trigger] wanted[i]).download_url
        matches Some(url) && url@.len() > 0) by {
        works@.lemma_filter_pred(has_url, i);
    }
    assert(core_documents(works.deep_view()) =~= wanted.map_values(
        |w: Work| core_document(w.deep_view()),
    ));
    wanted
}

/// The documents that an answered page adds are, in order, those of its records
/// with a download URL, as many as there is room for; and each has the title,
/// URL, authors, year, abstract and DOI of its record.
pub proof fn law_each_record_gives_its_own_document<E>(
    run: &mut CoreSearch,
    resp: Resp,
    items: Vec<Result<Document, E>>,
    wanted: Seq<Work>,
)
    requires
        old(run)@.yielded < old(run)@.limit,
        call_ensures(CoreSearch::on_reply::<E>, (run, Ok(resp)), items),
        wanted == resp.results@.filter(
            |w: Work| w.download_url matches Some(url) && url@.len() > 0,
        ),
    ensures
        items@.len() == if wanted.len() < old(run)@.limit - old(run)@.yielded {
            wanted.len() as int
        } else {
            old(run)@.limit - old(run)@.yielded
        },
        forall|i: int|
            #![trigger items@[i]]
            0 <= i < items@.len() ==> {
                &&& items@[i] is Ok
                &&& items@[i]->Ok_0.title@ == match wanted[i].title {
                    Some(title) => title@,
                    None => "Untitled"@,
                }
                &&& items@[i]->Ok_0.url@ == wanted[i].download_url->0@
                &&& items@[i]->Ok_0.source@ == "core"@
                &&& items@[i]->Ok_0.authors.deep_view() == wanted[i].authors@.filter(
                    |a: Author| a.name is Some,
                ).map_values(|a: Author| a.name->0@)
                &&& items@[i]->Ok_0.year.deep_view() == match wanted[i].year_published {
                    Some(year) => Some(text::signed_decimal(year as int)),
                    None => None,
                }
                &&& items@[i]->Ok_0.abstract_.deep_view() == wanted[i].abstract_.deep_view()
                &&& items@[i]->Ok_0.identifier.deep_view() == wanted[i].doi.deep_view()
            },
{
    let again = lemma_documents_of_records(resp.results);
    let docs = core_documents(resp.results.deep_view());
    let shown = sources::items_view(items@);
    assert(shown == sources::all_ok::<E>(sources::at_most(docs, old(run)@.room())));
    assert(shown.len() == items@.len());
    assert forall|i: int|
        #![trigger items@[i]]
        0 <= i < items@.len() implies {
        &&& items@[i] is Ok
        &&& items@[i]->Ok_0.deep_view() == core_document(wanted[i].deep_view())
    } by {
        assert(shown[i] == sources::item_view(items@[i]));
        assert(shown[i] == Ok::<DocumentView, E>(docs[i]));
    }
    assert forall|i: int|
        #![trigger items@[i]]
        0 <= i < items@.len() implies items@[i]->Ok_0.authors.deep_view()
        == wanted[i].authors@.filter(|a: Author| a.name is Some).map_values(
        |a: Author| a.name->0@,
    ) by {
        lemma_author_names(wanted[i].authors);
    }
}

/// The search after `replies`, one after the other.
pub open spec fn core_after<E>(
    state: CoreState,
    replies: Seq<Result<Seq<WorkView>, E>>,
) -> CoreState
    decreases replies.len(),
{
    if replies.len() == 0 {
        state
    } else {
        let before = core_after(state, replies.drop_last());
        match replies.last() {
            Ok(works) => before.after_page(works),
            Err(_) => before.after_failure(),
        }
    }
}

/// All records among `replies`, page after page.
pub open spec fn core_records<E>(replies: Seq<Result<Seq<WorkView>, E>>) -> Seq<WorkView>
    decreases replies.len(),
{
    if replies.len() == 0 {
        Seq::empty()
    } else {
        let before = core_records(replies.drop_last());
        match replies.last() {
            Ok(works) => before + works,
            Err(_) => before,
        }
    }
}

/// What a search keeps, and what it counts.
proof fn lemma_core_after<E>(state: CoreState, replies: Seq<Result<Seq<WorkView>, E>>)
    ensures
        core_after(state, replies).key == state.key,
        core_after(state, replies).query == state.query,
        core_after(state, replies).limit == state.limit,
        core_after(state, replies).offset == state.offset + core_records(replies).len(),
        core_after(state, replies).yielded == state.yielded + core_records(replies).filter(
            |w: WorkView| w.download_url matches Some(url) && url.len() > 0,
        ).len(),
    decreases replies.len(),
{
    let has_url = |w: WorkView| w.download_url matches Some(url) && url.len() > 0;
    reveal(Seq::filter);
    if replies.len() > 0 {
        let front = replies.drop_last();
        lemma_core_after(state, front);
        if let Ok(works) = replies.last() {
            Seq::filter_distributes_over_add(core_records(front), works, has_url);
            assert((|w: WorkView| is_downloadable(w)) =~= has_url);
        }
    }
}

/// Every request of a search, after whatever replies, goes to the same place
/// with the key and the keywords that the search was started with. It asks for
/// the records behind all those that have come in, and for as many as documents
/// are still wanted, up to a hundred.
pub proof fn law_every_request_carries_key_and_keywords<E>(
    api_key: Option<String>,
    source: CoreSource,
    keywords: Vec<String>,
    limit: usize,
    start: CoreSearch,
    replies: Seq<Result<Seq<WorkView>, E>>,
    run: CoreSearch,
    request: HttpRequest,
    found: nat,
)
    requires
        call_ensures(CoreSource::new, (api_key,), source),
        call_ensures(CoreSource::search, (&source, &keywords, limit), Some(start)),
        run@ == core_after(start@, replies),
        call_ensures(CoreSearch::next_request, (&run,), Some(request)),
        found == core_records(replies).filter(
            |w: WorkView| w.download_url matches Some(url) && url.len() > 0,
        ).len(),
    ensures
        found < limit,
        api_key is Some,
        request.url@ == "https://api.core.ac.uk/v3/search/works"@,
        request.authorization.deep_view() == Some("Bearer "@ + api_key->0@),
        request.query@.len() == 3,
        request.query@[0].0@ == "q"@,
        request.query@[0].1@ == text::join(keywords.deep_view(), " "@),
        request.query@[1].0@ == "limit"@,
        request.query@[1].1@ == text::decimal(
            if limit - found < 100 {
                (limit - found) as nat
            } else {
                100
            },
        ),
        request.query@[2].0@ == "offset"@,
        request.query@[2].1@ == text::decimal(core_records(replies).len()),
{
    lemma_core_after(start@, replies);
    let view = run@.request();
    assert(request.deep_view() == view);
    assert(request.query.deep_view() == view.query);
    assert(request.query@.len() == 3);
    assert(request.query.deep_view()[0] == (request.query@[0].0@, request.query@[0].1@));
    assert(request.query.deep_view()[1] == (request.query@[1].0@, request.query@[1].1@));
    assert(request.query.deep_view()[2] == (request.query@[2].0@, request.query@[2].1@));
}

/// There is a search exactly where the key is not blank, and it asks for
/// something exactly where something is wanted.
pub proof fn law_search_needs_a_key(
    api_key: Option<String>,
    source: CoreSource,
    keywords: Vec<String>,
    limit: usize,
    r: Option<CoreSearch>,
    request: Option<HttpRequest>,
)
    requires
        call_ensures(CoreSource::new, (api_key,), source),
        call_ensures(CoreSource::search, (&source, &keywords, limit), r),
        r matches Some(start) ==> call_ensures(CoreSearch::next_request, (&start,), request),
    ensures
        r is Some <==> (api_key matches Some(key) && exists|i: int|
            0 <= i < key@.len() && !text::is_whitespace(#[trigger] key@[i])),
        r is Some ==> (request is Some <==> limit > 0),
{
    if let Some(key) = api_key {
        text::law_trim_is_empty(key@);
    }
}

/// A reply decides what comes next. An error is handed on as it is and ends the
/// search. After a page the search goes on exactly where the page held as many
/// records as were asked for and more documents are wanted, whatever records
/// had no URL; the counts go on by what came in.
pub proof fn law_reply_decides_what_comes_next<E>(
    run: &mut CoreSearch,
    reply: Result<Resp, E>,
    items: Vec<Result<Document, E>>,
    next: Option<HttpRequest>,
)
    requires
        old(run)@.yielded < old(run)@.limit,
        call_ensures(CoreSearch::on_reply::<E>, (run, reply), items),
        call_ensures(CoreSearch::next_request, (&*final(run),), next),
    ensures
        reply matches Err(e) ==> items@ == seq![Err::<Document, E>(e)] && next is None,
        reply matches Ok(resp) ==> {
            let found = resp.results@.filter(
                |w: Work| w.download_url matches Some(url) && url@.len() > 0,
            ).len();
            let asked = if old(run)@.limit - old(run)@.yielded < 100 {
                old(run)@.limit - old(run)@.yielded
            } else {
                100
            };
            &&& next is Some <==> resp.results@.len() >= asked && old(run)@.yielded + found
                < old(run)@.limit
            &&& final(run)@.offset == old(run)@.offset + resp.results@.len()
            &&& final(run)@.yielded == old(run)@.yielded + found
            &&& final(run)@.limit == old(run)@.limit
        },
{
    if let Ok(resp) = reply {
        let wanted = lemma_documents_of_records(resp.results);
        assert(core_documents(resp.results.deep_view()).len() == wanted.len());
    }
}

/// Every document says by which source it was found, by the name that the
/// source goes by.
pub proof fn law_documents_carry_the_name<E>(
    source: CoreSource,
    name: &'static str,
    run: &mut CoreSearch,
    reply: Result<Resp, E>,
    items: Vec<Result<Document, E>>,
)
    requires
        call_ensures(CoreSource::name, (&source,), name),
        old(run)@.yielded < old(run)@.limit,
        call_ensures(CoreSearch::on_reply::<E>, (run, reply), items),
    ensures
        forall|i: int|
            0 <= i < items@.len() ==> (#[trigger] items@[i] matches Ok(doc) ==> doc.source@
                == name@),
{
    if let Ok(resp) = reply {
        let wanted = lemma_documents_of_records(resp.results);
        law_each_record_gives_its_own_document(run, resp, items, wanted);
    }
}

/// Two requests in a row ask the same place for the same search, with the same
/// key: only the page and its size may differ. The next page starts behind the
/// records that the reply held.
pub proof fn law_next_request_repeats_the_search<E>(
    run: &mut CoreSearch,
    asked: HttpRequest,
    reply: Result<Resp, E>,
    items: Vec<Result<Document, E>>,
    next: HttpRequest,
    from: nat,
)
    requires
        call_ensures(CoreSearch::next_request, (&*old(run),), Some(asked)),
        call_ensures(CoreSearch::on_reply::<E>, (run, reply), items),
        call_ensures(CoreSearch::next_request, (&*final(run),), Some(next)),
    ensures
        next.url@ == asked.url@,
        next.authorization.deep_view() == asked.authorization.deep_view(),
        next.query@.len() == 3,
        asked.query@.len() == 3,
        forall|i: int|
            #![trigger next.query@[i]]
            0 <= i < 3 ==> next.query@[i].0@ == asked.query@[i].0@,
        next.query@[0].1@ == asked.query@[0].1@,
        reply is Ok,
        asked.query@[2].1@ == text::decimal(from) ==> next.query@[2].1@ == text::decimal(
            from + reply->Ok_0.results@.len(),
        ),
{
    let first = old(run)@.request();
    let second = final(run)@.request();
    assert(asked.deep_view() == first && next.deep_view() == second);
    assert(asked.query.deep_view() == first.query && next.query.deep_view() == second.query);
    assert(asked.query@.len() == 3 && next.query@.len() == 3);
    assert forall|i: int|
        #![trigger next.query@[i]]
        0 <= i < 3 implies (next.query@[i].0@, next.query@[i].1@) == second.query[i] && (
    asked.query@[i].0@, asked.query@[i].1@) == first.query[i] by {
        assert(next.query.deep_view()[i] == (next.query@[i].0@, next.query@[i].1@));
        assert(asked.query.deep_view()[i] == (asked.query@[i].0@, asked.query@[i].1@));
    }
    text::law_decimal(from);
    text::law_decimal(old(run)@.offset);
    assert(next.query@[2].1@ == text::decimal(final(run)@.offset));
    assert(asked.query@[2].1@ == text::decimal(old(run)@.offset));
}

} // verus!
