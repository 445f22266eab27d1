//! Document sources: what a source asks of its service, and how it turns the
//! service's answers into documents.

use vstd::prelude::*;

pub mod core_source;
pub mod europe_pmc;
pub mod local_searxng_source;

verus! {

/// One document found by a source.
#[derive(Debug, PartialEq, Eq)]
pub struct Document {
    pub title: String,
    /// Where the document can be fetched.
    pub url: String,
    /// The name of the source that found it.
    pub source: String,
    pub authors: Vec<String>,
    pub year: Option<String>,
    pub abstract_: Option<String>,
    pub identifier: Option<String>,
}

/// The contents of a [`Document`].
pub struct DocumentView {
    pub title: Seq<char>,
    pub url: Seq<char>,
    pub source: Seq<char>,
    pub authors: Seq<Seq<char>>,
    pub year: Option<Seq<char>>,
    pub abstract_: Option<Seq<char>>,
    pub identifier: Option<Seq<char>>,
}

impl DeepView for Document {
    type V = DocumentView;

    open spec fn deep_view(&self) -> DocumentView {
        DocumentView {
            title: self.title@,
            url: self.url@,
            source: self.source@,
            authors: self.authors.deep_view(),
            year: self.year.deep_view(),
            abstract_: self.abstract_.deep_view(),
            identifier: self.identifier.deep_view(),
        }
    }
}

/// A `GET` request that a source wants sent.
#[derive(Debug, PartialEq, Eq)]
pub struct HttpRequest {
    pub url: String,
    /// The value of the `Authorization` header, where one is to be sent.
    pub authorization: Option<String>,
    /// The query parameters, in order.
    pub query: Vec<(String, String)>,
}

/// The contents of an [`HttpRequest`].
pub struct HttpRequestView {
    pub url: Seq<char>,
    pub authorization: Option<Seq<char>>,
    pub query: Seq<(Seq<char>, Seq<char>)>,
}

impl DeepView for HttpRequest {
    type V = HttpRequestView;

    open spec fn deep_view(&self) -> HttpRequestView {
        HttpRequestView {
            url: self.url@,
            authorization: self.authorization.deep_view(),
            query: self.query.deep_view(),
        }
    }
}

/// One item of a search: a document, or the error that ended the search.
pub open spec fn item_view<E>(item: Result<Document, E>) -> Result<DocumentView, E> {
    match item {
        Ok(doc) => Ok(doc.deep_view()),
        Err(e) => Err(e),
    }
}

/// The items of a search, in order.
pub open spec fn items_view<E>(items: Seq<Result<Document, E>>) -> Seq<Result<DocumentView, E>> {
    items.map_values(|item: Result<Document, E>| item_view(item))
}

/// `docs` as items of a search.
pub open spec fn all_ok<E>(docs: Seq<DocumentView>) -> Seq<Result<DocumentView, E>> {
    docs.map_values(|doc: DocumentView| Ok::<DocumentView, E>(doc))
}

/// The first `n` of `docs`, or all of them where there are fewer.
pub open spec fn at_most(docs: Seq<DocumentView>, n: nat) -> Seq<DocumentView> {
    if docs.len() <= n {
        docs
    } else {
        docs.take(n as int)
    }
}

/// The error of the last reply as an item of a search, where that reply is one.
pub open spec fn last_error<T, E>(replies: Seq<Result<T, E>>) -> Seq<Result<DocumentView, E>> {
    if replies.len() > 0 {
        match replies.last() {
            Ok(_) => Seq::empty(),
            Err(e) => seq![Err(e)],
        }
    } else {
        Seq::empty()
    }
}

/// Where there is room for all of `a`, what is left of it goes to `b`.
pub(crate) proof fn lemma_at_most_of_longer(a: Seq<DocumentView>, b: Seq<DocumentView>, n: nat)
    requires
        a.len() <= n,
    ensures
        at_most(a + b, n) == a + at_most(b, (n - a.len()) as nat),
{
    assert(at_most(a + b, n) =~= a + at_most(b, (n - a.len()) as nat));
}

/// The first `n` of `docs`, or all of them where there are fewer, as items of a search.
pub(crate) fn first_items<E>(docs: Vec<Document>, n: usize) -> (items: Vec<Result<Document, E>>)
    ensures
        items_view(items@) == all_ok::<E>(at_most(docs.deep_view(), n as nat)),
{
    let ghost all = docs.deep_view();
    let mut items: Vec<Result<Document, E>> = Vec::new();
    let mut docs = docs;
    docs.truncate(n);
    let ghost kept = docs.deep_view();
    assert(kept =~= at_most(all, n as nat));
    for doc in it: docs
        invariant
            it.seq() == docs@,
            kept == docs.deep_view(),
            items@.len() == it.index(),
            forall|j: int| 0 <= j < it.index() ==> item_view(#[trigger] items@[j]) == Ok::<DocumentView, E>(kept[j]),
    {
        items.push(Ok(doc));
    }
    assert(items_view(items@) =~= all_ok::<E>(kept));
    items
}

} // verus!
