//! The embedded SearXNG-compatible search server: how it reads a query, and
//! how it turns the documents of a search into its answer. The answers have
//! SearXNG's shape, so that any of its clients can read them.

use vstd::prelude::*;

use crate::sources::{Document, DocumentView};
use crate::text;

verus! {

/// The results that a query gets where it does not say how many it wants.
pub const DEFAULT_LIMIT: usize = 30;

/// The most results that a query can get.
pub const MAX_LIMIT: usize = 100;

/// The parameters of a query.
#[derive(Debug, PartialEq, Eq)]
pub struct SearchParams {
    pub q: String,
    /// Accepted and not used: the answer is always JSON.
    pub format: Option<String>,
    /// The most results wanted.
    pub limit: Option<usize>,
}

/// One result.
#[derive(Debug, PartialEq, Eq)]
pub struct SearchResultRow {
    pub url: String,
    pub title: String,
    /// The snippet or abstract.
    pub content: String,
    /// The engine that found it.
    pub engine: String,
    pub published_date: Option<String>,
    pub author: Option<String>,
}

/// The contents of a [`SearchResultRow`].
pub struct SearchResultRowView {
    pub url: Seq<char>,
    pub title: Seq<char>,
    pub content: Seq<char>,
    pub engine: Seq<char>,
    pub published_date: Option<Seq<char>>,
    pub author: Option<Seq<char>>,
}

impl DeepView for SearchResultRow {
    type V = SearchResultRowView;

    open spec fn deep_view(&self) -> SearchResultRowView {
        SearchResultRowView {
            url: self.url@,
            title: self.title@,
            content: self.content@,
            engine: self.engine@,
            published_date: self.published_date.deep_view(),
            author: self.author.deep_view(),
        }
    }
}

/// The answer to a query.
#[derive(Debug, PartialEq, Eq)]
pub struct SearchResponse {
    pub query: String,
    pub number_of_results: usize,
    pub results: Vec<SearchResultRow>,
}

/// What the server says of itself.
#[derive(Debug, PartialEq, Eq)]
pub struct ConfigResponse {
    pub instance_name: &'static str,
    pub version: &'static str,
    pub backend: &'static str,
}

/// The answer to a health probe.
pub fn healthz() -> (r: &'static str)
    ensures
        r@ == "ok"@,
{
    "ok"
}

/// What the server of the given version says of itself.
pub fn config(version: &'static str) -> (r: ConfigResponse)
    ensures
        r.instance_name@ == "document-finder embedded"@,
        r.version == version,
        r.backend@ == "embedded"@,
{
    ConfigResponse { instance_name: "document-finder embedded", version, backend: "embedded" }
}

/// The results that a query gets at most: what it asks for, at least one and
/// not above the server's own cap.
pub open spec fn effective_limit(asked: Option<usize>) -> usize {
    match asked {
        Some(n) => if n < 1 {
            1
        } else if n > MAX_LIMIT {
            MAX_LIMIT
        } else {
            n
        },
        None => DEFAULT_LIMIT,
    }
}

/// The result of a document. The engine stands in the document's source,
/// behind the name of the aggregator.
pub open spec fn result_row(doc: DocumentView) -> SearchResultRowView {
    SearchResultRowView {
        url: doc.url,
        title: doc.title,
        content: match doc.abstract_ {
            Some(abstract_) => abstract_,
            None => Seq::empty(),
        },
        engine: text::strip_prefix(doc.source, "meta_search/"@),
        published_date: doc.year,
        author: if doc.authors.len() == 0 {
            None
        } else {
            Some(text::join(doc.authors, ", "@))
        },
    }
}

/// The result of a document.
fn row_of(doc: Document) -> (r: SearchResultRow)
    ensures
        r.deep_view() == result_row(doc.deep_view()),
{
    let engine = text::without_prefix(doc.source.as_str(), "meta_search/").to_owned();
    let author = if doc.authors.len() == 0 {
        None
    } else {
        Some(text::joined(&doc.authors, ", "))
    };
    let content = match doc.abstract_ {
        Some(abstract_) => abstract_,
        None => String::new(),
    };
    SearchResultRow {
        url: doc.url,
        title: doc.title,
        content,
        engine,
        published_date: doc.year,
        author,
    }
}

/// The results after one more item of the search: a document adds its result
/// as long as there is room, a failed item adds nothing.
pub open spec fn after_item<E>(
    rows: Seq<SearchResultRowView>,
    limit: nat,
    item: Result<DocumentView, E>,
) -> Seq<SearchResultRowView> {
    match item {
        Ok(doc) if rows.len() < limit => rows.push(result_row(doc)),
        _ => rows,
    }
}

/// A query being answered.
pub struct ServerSearch {
    query: String,
    limit: usize,
    results: Vec<SearchResultRow>,
}

/// The search that a query asks for.
pub struct SearchPlan {
    /// What to search for.
    pub keywords: Vec<String>,
    /// The most documents to ask for.
    pub limit: usize,
    /// Takes the documents found.
    pub search: ServerSearch,
}

/// What a query leads to.
pub enum SearchStart {
    /// The answer at once.
    Answered(SearchResponse),
    /// A search.
    Search(SearchPlan),
}

/// Reads a query. A blank one is answered at once, with no results.
pub fn begin_search(params: &SearchParams) -> (r: SearchStart)
    ensures
        match r {
            SearchStart::Answered(response) => {
                &&& text::trim(params.q@).len() == 0
                &&& response.query@ == text::trim(params.q@)
                &&& response.number_of_results == 0
                &&& response.results@.len() == 0
            },
            SearchStart::Search(plan) => {
                &&& text::trim(params.q@).len() > 0
                &&& plan.keywords.deep_view() == text::words(text::trim(params.q@))
                &&& plan.limit == effective_limit(params.limit)
                &&& plan.search.query() == text::trim(params.q@)
                &&& plan.search.limit() == plan.limit
                &&& plan.search.rows() == Seq::<SearchResultRowView>::empty()
            },
        },
{
    let q = text::trimmed(params.q.as_str());
    let results: Vec<SearchResultRow> = Vec::new();
    if q.is_empty() {
        return SearchStart::Answered(
            SearchResponse { query: q.to_owned(), number_of_results: 0, results },
        );
    }
    let limit: usize = match params.limit {
        Some(n) => if n < 1 {
            1
        } else if n > MAX_LIMIT {
            MAX_LIMIT
        } else {
            n
        },
        None => DEFAULT_LIMIT,
    };
    assert(results.deep_view() =~= Seq::<SearchResultRowView>::empty());
    SearchStart::Search(
        SearchPlan {
            keywords: text::split_words(q),
            limit,
            search: ServerSearch { query: q.to_owned(), limit, results },
        },
    )
}

impl ServerSearch {
    /// What is searched for.
    pub closed spec fn query(&self) -> Seq<char> {
        self.query@
    }

    /// The most results that the answer may hold.
    pub closed spec fn limit(&self) -> nat {
        self.limit as nat
    }

    /// The results so far.
    pub closed spec fn rows(&self) -> Seq<SearchResultRowView> {
        self.results.deep_view()
    }

    /// There are never more results than allowed.
    #[verifier::type_invariant]
    spec fn inv(&self) -> bool {
        self.results.len() <= self.limit
    }

    /// Whether there is room for another result.
    pub open spec fn wants_more(&self) -> bool {
        self.rows().len() < self.limit()
    }

    /// Takes one item of the search, and says whether another one is wanted.
    pub fn on_item<E>(&mut self, item: Result<Document, E>) -> (more: bool)
        ensures
            final(self).query() == old(self).query(),
            final(self).limit() == old(self).limit(),
            final(self).rows() == after_item(
                old(self).rows(),
                old(self).limit(),
                crate::sources::item_view(item),
            ),
            more == final(self).wants_more(),
    {
        let ghost before = self.results.deep_view();
        if let Ok(doc) = item {
            if self.results.len() < self.limit {
                let row = row_of(doc);
                let mut results: Vec<SearchResultRow> = Vec::new();
                std::mem::swap(&mut results, &mut self.results);
                results.push(row);
                self.results = results;
                assert(self.results.deep_view() =~= before.push(row.deep_view()));
            }
        }
        self.results.len() < self.limit
    }

    /// The answer.
    pub fn finish(self) -> (r: SearchResponse)
        ensures
            r.query@ == self.query(),
            r.results.deep_view() == self.rows(),
            r.number_of_results == r.results@.len(),
            r.number_of_results <= self.limit(),
    {
        proof {
            use_type_invariant(&self);
        }
        SearchResponse {
            number_of_results: self.results.len(),
            query: self.query,
            results: self.results,
        }
    }
}

/// The results that a query is answered with where its search brings `items`.
pub open spec fn served<E>(
    items: Seq<Result<DocumentView, E>>,
    limit: nat,
) -> Seq<SearchResultRowView>
    decreases items.len(),
{
    if items.len() == 0 {
        Seq::empty()
    } else {
        after_item(served(items.drop_last(), limit), limit, items.last())
    }
}

/// The documents among the items of a search, in order.
pub open spec fn found<E>(items: Seq<Result<DocumentView, E>>) -> Seq<DocumentView> {
    items.filter(|item: Result<DocumentView, E>| item is Ok).map_values(
        |item: Result<DocumentView, E>| item->Ok_0,
    )
}

/// A query is answered with the first documents that its search finds, in
/// order and as many as it may get; what fails is passed over.
pub proof fn law_first_documents_are_served<E>(items: Seq<Result<DocumentView, E>>, limit: nat)
    ensures
        served(items, limit) == crate::sources::at_most(found(items), limit).map_values(
            |doc: DocumentView| result_row(doc),
        ),
        served(items, limit).len() <= limit,
    decreases items.len(),
{
    reveal(Seq::filter);
    let row = |doc: DocumentView| result_row(doc);
    if items.len() == 0 {
        assert(served(items, limit) =~= crate::sources::at_most(found(items), limit).map_values(
            row,
        ));
    } else {
        let front = items.drop_last();
        law_first_documents_are_served(front, limit);
        match items.last() {
            Ok(doc) => {
                assert(found(items) =~= found(front).push(doc));
            },
            Err(e) => {
                assert(found(items) =~= found(front));
            },
        }
        assert(served(items, limit) =~= crate::sources::at_most(found(items), limit).map_values(
            row,
        ));
    }
}

/// A query gets at least one result and never more than the cap, and within
/// these bounds what it asks for.
pub proof fn law_limit_is_capped(asked: Option<usize>)
    ensures
        1 <= effective_limit(asked) <= MAX_LIMIT,
        asked matches Some(n) ==> 1 <= n <= MAX_LIMIT ==> effective_limit(asked) == n,
{
}

/// A query that is not blank leads to a search with keywords.
pub proof fn law_search_has_keywords(q: Seq<char>)
    requires
        text::trim(q).len() > 0,
    ensures
        text::words(text::trim(q)).len() > 0,
{
    text::lemma_text_has_words(q);
}

/// A query is answered at once exactly where it is blank, with no results. Else
/// it leads to a search for its words: one after the other they are the query
/// without its whitespace. It may get as many results as it asks for, from one
/// to a hundred, and thirty where it does not say.
pub proof fn law_query_is_read(params: SearchParams, r: SearchStart)
    requires
        call_ensures(begin_search, (&params,), r),
    ensures
        r is Answered <==> forall|i: int|
            0 <= i < params.q@.len() ==> text::is_whitespace(#[trigger] params.q@[i]),
        r matches SearchStart::Answered(response) ==> response.query@.len() == 0
            && response.number_of_results == 0 && response.results@.len() == 0,
        r matches SearchStart::Search(plan) ==> {
            &&& plan.keywords.deep_view() == text::words(text::trim(params.q@))
            &&& plan.keywords.deep_view().flatten() == params.q@.filter(
                |c: char| !text::is_whitespace(c),
            )
            &&& plan.keywords@.len() > 0
            &&& plan.limit == match params.limit {
                Some(n) => if n <= 1 {
                    1
                } else if n >= 100 {
                    100
                } else {
                    n
                },
                None => 30,
            }
            &&& plan.search.limit() == plan.limit
            &&& plan.search.query() == text::trim(params.q@)
            &&& plan.search.rows().len() == 0
        },
{
    text::law_trim_is_empty(params.q@);
    text::law_words_of_trimmed_text_lose_nothing(params.q@);
    if let SearchStart::Search(plan) = r {
        text::lemma_text_has_words(params.q@);
        assert(plan.keywords.deep_view().len() == plan.keywords@.len());
    }
}

/// A document that a search brings adds one result behind those that are there,
/// as long as there is room: with its own title, URL, year and abstract, with
/// all its authors, and with its source as the engine, without the
/// aggregator's name before it. Anything else changes nothing. More is wanted
/// exactly as long as there is room.
pub proof fn law_document_adds_its_result<E>(
    run: &mut ServerSearch,
    item: Result<Document, E>,
    more: bool,
)
    requires
        call_ensures(ServerSearch::on_item::<E>, (run, item), more),
    ensures
        final(run).query() == old(run).query(),
        final(run).limit() == old(run).limit(),
        more <==> final(run).rows().len() < old(run).limit(),
        item is Err || old(run).rows().len() >= old(run).limit() ==> final(run).rows()
            == old(run).rows(),
        item is Ok && old(run).rows().len() < old(run).limit() ==> {
            let doc = item->Ok_0;
            let row = final(run).rows().last();
            &&& final(run).rows() == old(run).rows().push(row)
            &&& row.url == doc.url@
            &&& row.title == doc.title@
            &&& row.content == match doc.abstract_ {
                Some(abstract_) => abstract_@,
                None => Seq::empty(),
            }
            &&& row.engine == text::strip_prefix(doc.source@, "meta_search/"@)
            &&& row.published_date == doc.year.deep_view()
            &&& doc.authors@.len() == 0 ==> row.author is None
            &&& doc.authors@.len() > 0 ==> row.author == Some(
                text::join(doc.authors.deep_view(), ", "@),
            )
        },
{
    if let Ok(doc) = item {
        assert(doc.authors.deep_view().len() == doc.authors@.len());
    }
}

/// The answer repeats the query, holds each result of the search in order, and
/// counts them.
pub proof fn law_answer_holds_the_results(search: ServerSearch, r: SearchResponse)
    requires
        call_ensures(ServerSearch::finish, (search,), r),
    ensures
        r.query@ == search.query(),
        r.number_of_results == search.rows().len(),
        r.results@.len() == search.rows().len(),
        forall|i: int|
            #![trigger r.results@[i]]
            0 <= i < r.results@.len() ==> {
                &&& r.results@[i].url@ == search.rows()[i].url
                &&& r.results@[i].title@ == search.rows()[i].title
                &&& r.results@[i].content@ == search.rows()[i].content
                &&& r.results@[i].engine@ == search.rows()[i].engine
                &&& r.results@[i].published_date.deep_view() == search.rows()[i].published_date
                &&& r.results@[i].author.deep_view() == search.rows()[i].author
            },
{
    assert(r.results.deep_view() == search.rows());
    assert(r.results.deep_view().len() == r.results@.len());
    assert forall|i: int|
        #![trigger r.results@[i]]
        0 <= i < r.results@.len() implies r.results@[i].deep_view() == search.rows()[i] by {
        assert(r.results.deep_view()[i] == r.results@[i].deep_view());
    }
}

/// A probe is told that all is well, and the server tells its name, its version
/// and what it is.
pub proof fn law_probes(health: &'static str, version: &'static str, r: ConfigResponse)
    requires
        call_ensures(healthz, (), health),
        call_ensures(config, (version,), r),
    ensures
        health@ == "ok"@,
        r.instance_name@ == "document-finder embedded"@,
        r.version@ == version@,
        r.backend@ == "embedded"@,
{
}

} // verus!
