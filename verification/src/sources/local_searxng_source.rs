//! The `searxng` source: it asks a SearXNG-compatible JSON endpoint, by
//! default the embedded server, else the instance that the user configured.

use vstd::prelude::*;

use crate::engine::local_searxng;
use crate::engine::local_searxng::SearchResultRowView;
use crate::sources::{Document, DocumentView, HttpRequest, HttpRequestView};
use crate::text;
use crate::text::CharClass;

verus! {

/// How long a query may take, in seconds.
pub const QUERY_TIMEOUT_SECS: u64 = 15;

/// The answer to a query.
#[derive(Debug, PartialEq, Eq)]
pub struct SearxResp {
    pub results: Vec<SearxResultRow>,
}

/// One row of an answer.
#[derive(Debug, PartialEq, Eq)]
pub struct SearxResultRow {
    pub url: String,
    pub title: String,
    pub content: Option<String>,
    pub engine: Option<String>,
    pub published_date: Option<String>,
    /// The authors, separated by commas.
    pub author: Option<String>,
}

/// The contents of a [`SearxResultRow`].
pub struct SearxResultRowView {
    pub url: Seq<char>,
    pub title: Seq<char>,
    pub content: Option<Seq<char>>,
    pub engine: Option<Seq<char>>,
    pub published_date: Option<Seq<char>>,
    pub author: Option<Seq<char>>,
}

impl DeepView for SearxResultRow {
    type V = SearxResultRowView;

    open spec fn deep_view(&self) -> SearxResultRowView {
        SearxResultRowView {
            url: self.url@,
            title: self.title@,
            content: self.content.deep_view(),
            engine: self.engine.deep_view(),
            published_date: self.published_date.deep_view(),
            author: self.author.deep_view(),
        }
    }
}

/// Whether a configured URL, already trimmed, means the embedded server: it is
/// empty, a word for that server, or the default of former versions.
pub open spec fn means_embedded(url: Seq<char>) -> bool {
    ||| url.len() == 0
    ||| text::same_ignoring_ascii_case(url, "embedded"@)
    ||| text::same_ignoring_ascii_case(url, "embedded://local"@)
    ||| text::same_ignoring_ascii_case(url, "http://localhost:8080"@)
}

/// The instance that a configured URL names, without slashes at its end; none
/// where the embedded server is meant.
pub open spec fn instance_url(configured: Option<Seq<char>>) -> Option<Seq<char>> {
    match configured {
        Some(url) => if means_embedded(text::trim(url)) {
            None
        } else {
            Some(text::trim_end(text::trim(url), CharClass::Only('/')))
        },
        None => None,
    }
}

/// The authors that a row names: what stands between commas, trimmed.
pub open spec fn row_authors(author: Option<Seq<char>>) -> Seq<Seq<char>> {
    match author {
        Some(names) => text::split(names, CharClass::Only(',')).map_values(
            |name: Seq<char>| text::trim(name),
        ),
        None => Seq::empty(),
    }
}

/// The document of a row.
pub open spec fn row_document(row: SearxResultRowView) -> DocumentView {
    DocumentView {
        title: row.title,
        url: row.url,
        source: "searxng"@,
        authors: row_authors(row.author),
        year: row.published_date,
        abstract_: row.content,
        identifier: row.engine,
    }
}

/// The documents of the first `n` rows, in order.
pub open spec fn row_documents(rows: Seq<SearxResultRowView>, n: nat) -> Seq<DocumentView> {
    let first = if rows.len() <= n {
        rows
    } else {
        rows.take(n as int)
    };
    first.map_values(|row: SearxResultRowView| row_document(row))
}

/// Why a search failed.
#[derive(Debug, PartialEq, Eq)]
pub enum SearxngError {
    /// The embedded server has no address yet.
    NotReady,
    /// No answer came in time.
    TimedOut,
    /// The request to `base` could not be carried out.
    RequestFailed { base: String, cause: String },
    /// The answer was not what it should be.
    NotJson { cause: String },
}

impl SearxngError {
    /// What the user is told.
    pub open spec fn text(self) -> Seq<char> {
        match self {
            SearxngError::NotReady => {
                "embedded SearXNG server not yet ready — retry in a moment"@
            },
            SearxngError::TimedOut => {
                "SearXNG request timed out after "@ + text::decimal(QUERY_TIMEOUT_SECS as nat)
                    + "s"@
            },
            SearxngError::RequestFailed { base, cause } => {
                "SearXNG request to "@ + base@ + " failed: "@ + cause@
            },
            SearxngError::NotJson { cause } => { "SearXNG returned non-JSON body: "@ + cause@ },
        }
    }

    /// What the user is told.
    pub fn message(&self) -> (r: String)
        ensures
            r@ == self.text(),
    {
        match self {
            SearxngError::NotReady => {
                "embedded SearXNG server not yet ready — retry in a moment".to_owned()
            },
            SearxngError::TimedOut => {
                let mut message = "SearXNG request timed out after ".to_owned();
                message.append(text::decimal_text(QUERY_TIMEOUT_SECS).as_str());
                message.append("s");
                message
            },
            SearxngError::RequestFailed { base, cause } => {
                let mut message = "SearXNG request to ".to_owned();
                message.append(base.as_str());
                message.append(" failed: ");
                message.append(cause.as_str());
                message
            },
            SearxngError::NotJson { cause } => {
                let mut message = "SearXNG returned non-JSON body: ".to_owned();
                message.append(cause.as_str());
                message
            },
        }
    }
}

/// What became of a request.
#[derive(Debug, PartialEq, Eq)]
pub enum Outcome {
    /// No answer came in time.
    TimedOut,
    /// The request could not be carried out, with the reason.
    Failed(String),
    /// The answer could not be read, with the reason.
    Unreadable(String),
    /// The answer.
    Answered(SearxResp),
}

/// A search of a SearXNG instance, to be carried out by one request.
#[derive(Debug, PartialEq, Eq)]
pub struct SearxngSearch {
    /// The instance.
    pub base: String,
    /// What is searched for.
    pub query: String,
    /// The most documents that the search yields.
    pub take_n: usize,
}

/// The `searxng` source.
pub struct LocalSearxngSource {
    explicit_url: Option<String>,
}

impl LocalSearxngSource {
    /// The configured instance; none where the embedded server is to be asked.
    pub closed spec fn explicit(&self) -> Option<Seq<char>> {
        self.explicit_url.deep_view()
    }

    /// The base URL to ask, given the embedded server's address, if it has one yet.
    pub open spec fn base(&self, embedded: Option<&str>) -> Option<Seq<char>> {
        match (self.explicit(), embedded) {
            (Some(url), _) => Some(url),
            (None, Some(addr)) => Some("http://"@ + addr@),
            (None, None) => None,
        }
    }

    pub fn new(explicit_url: Option<String>) -> (r: Self)
        ensures
            r.explicit() == instance_url(explicit_url.deep_view()),
    {
        let cleaned = match &explicit_url {
            Some(url) => {
                let t = text::trimmed(url.as_str());
                if t.is_empty() || text::eq_ignoring_ascii_case(t, "embedded")
                    || text::eq_ignoring_ascii_case(t, "embedded://local")
                    || text::eq_ignoring_ascii_case(t, "http://localhost:8080") {
                    None
                } else {
                    Some(text::trimmed_end(t, &CharClass::Only('/')).to_owned())
                }
            },
            None => None,
        };
        LocalSearxngSource { explicit_url: cleaned }
    }

    /// The base URL to ask, given the embedded server's address, if it has one yet.
    pub fn resolve_url(&self, embedded: Option<&str>) -> (r: Option<String>)
        ensures
            r.deep_view() == self.base(embedded),
    {
        if let Some(url) = &self.explicit_url {
            return Some(url.clone());
        }
        match embedded {
            Some(addr) => {
                let mut url = "http://".to_owned();
                url.append(addr);
                Some(url)
            },
            None => None,
        }
    }

    pub fn name(&self) -> (r: &'static str)
        ensures
            r@ == "searxng"@,
    {
        "searxng"
    }

    /// Starts a search. It fails where the embedded server is to be asked and
    /// has no address yet; blank keywords need no search.
    pub fn search(&self, embedded: Option<&str>, keywords: &Vec<String>, limit: usize) -> (r: Result<
        Option<SearxngSearch>,
        SearxngError,
    >)
        ensures
            match r {
                Err(e) => self.base(embedded) is None && e == SearxngError::NotReady,
                Ok(None) => {
                    &&& self.base(embedded) is Some
                    &&& text::trim(text::join(keywords.deep_view(), " "@)).len() == 0
                },
                Ok(Some(search)) => {
                    &&& self.base(embedded) == Some(search.base@)
                    &&& search.query@ == text::join(keywords.deep_view(), " "@)
                    &&& text::trim(search.query@).len() > 0
                    &&& search.take_n == if limit == 0 {
                        1
                    } else {
                        limit
                    }
                },
            },
    {
        let base = match self.resolve_url(embedded) {
            Some(base) => base,
            None => {
                return Err(SearxngError::NotReady);
            },
        };
        let query = text::joined(keywords, " ");
        if text::trimmed(query.as_str()).is_empty() {
            return Ok(None);
        }
        let take_n: usize = if limit == 0 {
            1
        } else {
            limit
        };
        Ok(Some(SearxngSearch { base, query, take_n }))
    }
}

/// The authors that a row names.
fn authors_of(author: Option<String>) -> (r: Vec<String>)
    ensures
        r.deep_view() == row_authors(author.deep_view()),
{
    let line = match author {
        Some(line) => line,
        None => {
            let none: Vec<String> = Vec::new();
            assert(none.deep_view() =~= Seq::<Seq<char>>::empty());
            return none;
        },
    };
    let pieces = text::split_at_class(line.as_str(), &CharClass::Only(','));
    let ghost clean = |name: Seq<char>| text::trim(name);
    let ghost all = pieces.deep_view();
    let mut names: Vec<String> = Vec::new();
    let mut i: usize = 0;
    while i < pieces.len()
        invariant
            i <= pieces.len(),
            all == pieces.deep_view(),
            clean == (|name: Seq<char>| text::trim(name)),
            names.deep_view() == all.take(i as int).map_values(clean),
        decreases pieces.len() - i,
    {
        let ghost before = names.deep_view();
        names.push(text::trimmed(pieces[i].as_str()).to_owned());
        assert(names.deep_view() =~= before.push(text::trim(all[i as int])));
        assert(names.deep_view() =~= all.take(i as int + 1).map_values(clean));
        i = i + 1;
    }
    assert(all.take(pieces.len() as int) =~= all);
    names
}

/// The document of a row.
fn document_of(row: SearxResultRow) -> (r: Document)
    ensures
        r.deep_view() == row_document(row.deep_view()),
{
    Document {
        title: row.title,
        url: row.url,
        source: "searxng".to_owned(),
        authors: authors_of(row.author),
        year: row.published_date,
        abstract_: row.content,
        identifier: row.engine,
    }
}

impl SearxngSearch {
    /// The request of the search.
    pub open spec fn request_view(self) -> HttpRequestView {
        HttpRequestView {
            url: self.base@ + "/search"@,
            authorization: None,
            query: seq![
                ("q"@, self.query@),
                ("format"@, "json"@),
                ("limit"@, text::decimal(self.take_n as nat)),
            ],
        }
    }

    /// The request to send.
    pub fn request(&self) -> (r: HttpRequest)
        ensures
            r.deep_view() == self.request_view(),
    {
        let mut url = self.base.clone();
        url.append("/search");
        let mut query: Vec<(String, String)> = Vec::new();
        query.push(("q".to_owned(), self.query.clone()));
        query.push(("format".to_owned(), "json".to_owned()));
        query.push(("limit".to_owned(), text::decimal_text(self.take_n as u64)));
        assert(query.deep_view() =~= self.request_view().query);
        HttpRequest { url, authorization: None, query }
    }

    /// What the search yields once its request has been dealt with.
    pub fn on_outcome(self, outcome: Outcome) -> (r: Result<Vec<Document>, SearxngError>)
        ensures
            match outcome {
                Outcome::TimedOut => r == Err::<Vec<Document>, SearxngError>(
                    SearxngError::TimedOut,
                ),
                Outcome::Failed(cause) => r == Err::<Vec<Document>, SearxngError>(
                    SearxngError::RequestFailed { base: self.base, cause },
                ),
                Outcome::Unreadable(cause) => r == Err::<Vec<Document>, SearxngError>(
                    SearxngError::NotJson { cause },
                ),
                Outcome::Answered(resp) => {
                    &&& r is Ok
                    &&& r->Ok_0.deep_view() == row_documents(
                        resp.results.deep_view(),
                        self.take_n as nat,
                    )
                },
            },
    {
        let mut rows = match outcome {
            Outcome::TimedOut => {
                return Err(SearxngError::TimedOut);
            },
            Outcome::Failed(cause) => {
                return Err(SearxngError::RequestFailed { base: self.base, cause });
            },
            Outcome::Unreadable(cause) => {
                return Err(SearxngError::NotJson { cause });
            },
            Outcome::Answered(resp) => resp.results,
        };
        let ghost all = rows.deep_view();
        rows.truncate(self.take_n);
        let ghost first = rows.deep_view();
        assert(first =~= if all.len() <= self.take_n {
            all
        } else {
            all.take(self.take_n as int)
        });
        let mut docs: Vec<Document> = Vec::new();
        for row in it: rows
            invariant
                it.seq() == rows@,
                first == rows.deep_view(),
                docs@.len() == it.index(),
                forall|j: int|
                    0 <= j < it.index() ==> (#[trigger] docs@[j]).deep_view() == row_document(
                        first[j],
                    ),
        {
            docs.push(document_of(row));
        }
        assert(docs.deep_view() =~= row_documents(all, self.take_n as nat));
        Ok(docs)
    }
}

/// A result of the embedded server as a client receives it.
pub open spec fn as_received(row: SearchResultRowView) -> SearxResultRowView {
    SearxResultRowView {
        url: row.url,
        title: row.title,
        content: Some(row.content),
        engine: Some(row.engine),
        published_date: row.published_date,
        author: row.author,
    }
}

/// A document that the embedded server serves is read back as it was, but for
/// what the answer does not tell: the source is this one, the engine is the
/// identifier, and a missing abstract is an empty one. Authors are told apart
/// by commas and read back trimmed.
pub proof fn law_served_document_is_read_back(doc: DocumentView)
    requires
        forall|i: int| 0 <= i < doc.authors.len() ==> text::is_list_item(#[trigger] doc.authors[i]),
    ensures
        row_document(as_received(local_searxng::result_row(doc))) == (DocumentView {
            source: "searxng"@,
            abstract_: Some(
                match doc.abstract_ {
                    Some(abstract_) => abstract_,
                    None => Seq::empty(),
                },
            ),
            identifier: Some(text::strip_prefix(doc.source, "meta_search/"@)),
            ..doc
        }),
{
    if doc.authors.len() > 0 {
        text::law_list_of_names_round_trip(doc.authors);
    } else {
        assert(doc.authors =~= Seq::<Seq<char>>::empty());
    }
}

/// A search yields a document for each row, in order, and no more documents
/// than it may.
pub proof fn law_search_is_bounded(rows: Seq<SearxResultRowView>, n: nat)
    ensures
        row_documents(rows, n).len() <= n,
        row_documents(rows, n).len() <= rows.len(),
        rows.len() <= n ==> row_documents(rows, n).len() == rows.len(),
        forall|i: int|
            0 <= i < row_documents(rows, n).len() ==> #[trigger] row_documents(rows, n)[i]
                == row_document(rows[i]),
{
}

/// A configured instance is asked under its own URL, whether or not the
/// embedded server has an address; else that address decides.
pub proof fn law_configured_instance_wins(source: LocalSearxngSource, embedded: Option<&str>)
    ensures
        source.explicit() is Some ==> source.base(embedded) == source.explicit(),
        source.explicit() is None ==> (source.base(embedded) is Some <==> embedded is Some),
{
}

/// The URL of a configured instance ends in no slash.
pub proof fn law_instance_url_has_no_slash_at_its_end(configured: Option<Seq<char>>)
    ensures
        instance_url(configured) matches Some(url) ==> url.len() > 0 ==> url.last() != '/',
{
    if let Some(url) = configured {
        text::law_trim_end(text::trim(url), CharClass::Only('/'));
    }
}

/// An author text is cut at each comma, wherever it stands: first the names
/// before it, then those behind it. A text without a comma names one author, by
/// the trimmed text; no text, no author.
pub proof fn law_row_authors(a: Seq<char>, b: Seq<char>)
    ensures
        row_authors(Some(a.push(',') + b)) == row_authors(Some(a)) + row_authors(Some(b)),
        (forall|i: int| 0 <= i < a.len() ==> #[trigger] a[i] != ',') ==> row_authors(Some(a))
            == seq![text::trim(a)],
        row_authors(None) == Seq::<Seq<char>>::empty(),
{
    let class = CharClass::Only(',');
    let clean = |name: Seq<char>| text::trim(name);
    text::law_split_at_separator(a, ',', b, class);
    assert((text::split(a, class) + text::split(b, class)).map_values(clean) =~= row_authors(
        Some(a),
    ) + row_authors(Some(b)));
    if forall|i: int| 0 <= i < a.len() ==> #[trigger] a[i] != ',' {
        text::law_split_without_separator(a, class);
        assert(seq![a].map_values(clean) =~= seq![text::trim(a)]);
    }
}

/// An answer gives a document for each of its first rows: for all of them where
/// they are no more than wanted, else for as many as wanted. Each document has
/// the title, URL, authors, date, content and engine of its row.
pub proof fn law_answer_gives_a_document_per_wanted_row(
    search: SearxngSearch,
    resp: SearxResp,
    r: Result<Vec<Document>, SearxngError>,
)
    requires
        call_ensures(SearxngSearch::on_outcome, (search, Outcome::Answered(resp)), r),
    ensures
        r is Ok,
        r->Ok_0@.len() == if resp.results@.len() < search.take_n {
            resp.results@.len() as int
        } else {
            search.take_n as int
        },
        forall|i: int|
            #![trigger r->Ok_0@[i]]
            0 <= i < r->Ok_0@.len() ==> {
                &&& r->Ok_0@[i].title@ == resp.results@[i].title@
                &&& r->Ok_0@[i].url@ == resp.results@[i].url@
                &&& r->Ok_0@[i].source@ == "searxng"@
                &&& r->Ok_0@[i].authors.deep_view() == row_authors(
                    resp.results@[i].author.deep_view(),
                )
                &&& r->Ok_0@[i].year.deep_view() == resp.results@[i].published_date.deep_view()
                &&& r->Ok_0@[i].abstract_.deep_view() == resp.results@[i].content.deep_view()
                &&& r->Ok_0@[i].identifier.deep_view() == resp.results@[i].engine.deep_view()
            },
{
    let docs = r->Ok_0;
    let shown = row_documents(resp.results.deep_view(), search.take_n as nat);
    assert(docs.deep_view() == shown);
    assert(docs.deep_view().len() == docs@.len());
    assert forall|i: int|
        #![trigger r->Ok_0@[i]]
        0 <= i < docs@.len() implies r->Ok_0@[i].deep_view() == row_document(
        resp.results@[i].deep_view(),
    ) by {
        assert(docs.deep_view()[i] == docs@[i].deep_view());
        assert(shown[i] == row_document(resp.results.deep_view()[i]));
    }
}

/// A search that fails says why, and to whom it spoke.
pub proof fn law_failure_says_why(
    search: SearxngSearch,
    outcome: Outcome,
    r: Result<Vec<Document>, SearxngError>,
    message: String,
)
    requires
        call_ensures(SearxngSearch::on_outcome, (search, outcome), r),
        r matches Err(e) ==> call_ensures(SearxngError::message, (&e,), message),
    ensures
        r is Ok <==> outcome is Answered,
        outcome is TimedOut ==> message@ == "SearXNG request timed out after "@ + text::decimal(15)
            + "s"@,
        outcome matches Outcome::Failed(cause) ==> message@ == "SearXNG request to "@ + search.base@
            + " failed: "@ + cause@,
        outcome matches Outcome::Unreadable(cause) ==> message@
            == "SearXNG returned non-JSON body: "@ + cause@,
{
}

/// A search fails exactly where there is nobody to ask, and then it says so; it
/// is left out exactly where no keyword holds anything but whitespace.
pub proof fn law_when_there_is_a_search(
    source: LocalSearxngSource,
    embedded: Option<&str>,
    keywords: Vec<String>,
    limit: usize,
    base: Option<String>,
    r: Result<Option<SearxngSearch>, SearxngError>,
    message: String,
)
    requires
        call_ensures(LocalSearxngSource::resolve_url, (&source, embedded), base),
        call_ensures(LocalSearxngSource::search, (&source, embedded, &keywords, limit), r),
        r matches Err(e) ==> call_ensures(SearxngError::message, (&e,), message),
    ensures
        r is Err <==> base is None,
        r is Err ==> message@ == "embedded SearXNG server not yet ready — retry in a moment"@,
        r is Ok ==> (r->Ok_0 is None <==> forall|i: int, j: int|
            0 <= i < keywords@.len() && 0 <= j < keywords@[i]@.len() ==> text::is_whitespace(
                #[trigger] keywords@[i]@[j],
            )),
{
    let parts = keywords.deep_view();
    reveal_strlit(" ");
    text::lemma_join_is_blank(parts, " "@);
    text::law_trim_is_empty(text::join(parts, " "@));
    let blank = forall|i: int, j: int|
        0 <= i < parts.len() && 0 <= j < parts[i].len() ==> text::is_whitespace(
            #[trigger] parts[i][j],
        );
    if blank {
        assert forall|i: int, j: int|
            0 <= i < keywords@.len() && 0 <= j < keywords@[i]@.len() implies text::is_whitespace(
            #[trigger] keywords@[i]@[j],
        ) by {
            assert(parts[i][j] == keywords@[i]@[j]);
        }
    } else {
        let (i, j) = choose|i: int, j: int|
            0 <= i < parts.len() && 0 <= j < parts[i].len() && !text::is_whitespace(
                #[trigger] parts[i][j],
            );
        assert(!text::is_whitespace(keywords@[i]@[j]));
    }
}

/// A search asks its instance for all its keywords, and for as many rows as
/// documents are wanted, at least one.
pub proof fn law_request_carries_the_keywords(
    source: LocalSearxngSource,
    embedded: Option<&str>,
    keywords: Vec<String>,
    limit: usize,
    base: Option<String>,
    search: SearxngSearch,
    request: HttpRequest,
)
    requires
        call_ensures(LocalSearxngSource::resolve_url, (&source, embedded), base),
        call_ensures(
            LocalSearxngSource::search,
            (&source, embedded, &keywords, limit),
            Ok(Some(search)),
        ),
        call_ensures(SearxngSearch::request, (&search,), request),
    ensures
        base is Some,
        search.base@ == base->0@,
        search.take_n == if limit > 1 {
            limit
        } else {
            1
        },
        request.url@ == base->0@ + "/search"@,
        request.authorization is None,
        request.query@.len() == 3,
        request.query@[0].0@ == "q"@,
        request.query@[0].1@ == text::join(keywords.deep_view(), " "@),
        request.query@[1].0@ == "format"@,
        request.query@[1].1@ == "json"@,
        request.query@[2].0@ == "limit"@,
        request.query@[2].1@ == text::decimal(search.take_n as nat),
{
    assert(base.deep_view() == Some(search.base@));
    let view = search.request_view();
    assert(request.deep_view() == view);
    assert(request.query.deep_view() == view.query);
    assert forall|i: int| 0 <= i < 3 implies (request.query@[i].0@, request.query@[i].1@)
        == #[trigger] view.query[i] by {
        assert(request.query.deep_view()[i] == (request.query@[i].0@, request.query@[i].1@));
    }
    assert(view.query[0].0 == "q"@);
    assert(view.query[1].0 == "format"@);
    assert(view.query[2].0 == "limit"@);
}

/// The URL to ask is the configured one, trimmed and without the slashes at its
/// end, unless nothing is configured or what is configured means the embedded
/// server; then it is that server's address, if it has one.
pub proof fn law_whom_to_ask(
    configured: Option<String>,
    source: LocalSearxngSource,
    embedded: Option<&str>,
    base: Option<String>,
)
    requires
        call_ensures(LocalSearxngSource::new, (configured,), source),
        call_ensures(LocalSearxngSource::resolve_url, (&source, embedded), base),
    ensures
        ({
            let own = configured matches Some(url) && {
                let t = text::trim(url@);
                &&& t.len() > 0
                &&& !text::same_ignoring_ascii_case(t, "embedded"@)
                &&& !text::same_ignoring_ascii_case(t, "embedded://local"@)
                &&& !text::same_ignoring_ascii_case(t, "http://localhost:8080"@)
            };
            &&& own ==> {
                let t = text::trim(configured->0@);
                &&& base is Some
                &&& base->0@.is_prefix_of(t)
                &&& forall|i: int| base->0@.len() <= i < t.len() ==> #[trigger] t[i] == '/'
                &&& base->0@.len() > 0 ==> base->0@.last() != '/'
            }
            &&& !own ==> base.deep_view() == match embedded {
                Some(addr) => Some("http://"@ + addr@),
                None => None,
            }
        }),
{
    if let Some(url) = configured {
        let t = text::trim(url@);
        let class = CharClass::Only('/');
        text::law_trim_end(t, class);
        let cut = text::trim_end(t, class);
        assert(cut.is_prefix_of(t)) by {
            assert(cut =~= t.subrange(0, cut.len() as int));
        }
        assert forall|i: int| cut.len() <= i < t.len() implies #[trigger] t[i] == '/' by {
            assert(class.has(t[i]));
        }
    }
}

/// Every document says by which source it was found, by the name that the
/// source goes by.
pub proof fn law_documents_carry_the_name(
    source: LocalSearxngSource,
    name: &'static str,
    search: SearxngSearch,
    resp: SearxResp,
    r: Result<Vec<Document>, SearxngError>,
)
    requires
        call_ensures(LocalSearxngSource::name, (&source,), name),
        call_ensures(SearxngSearch::on_outcome, (search, Outcome::Answered(resp)), r),
    ensures
        forall|i: int| 0 <= i < r->Ok_0@.len() ==> (#[trigger] r->Ok_0@[i]).source@ == name@,
{
    law_answer_gives_a_document_per_wanted_row(search, resp, r);
}

} // verus!
