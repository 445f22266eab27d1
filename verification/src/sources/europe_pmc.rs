//! Europe PMC: life-science abstracts and open-access full-text articles. Its
//! pages are linked by a cursor mark, and it needs no key.

use vstd::prelude::*;

use crate::sources;
use crate::sources::{Document, DocumentView, HttpRequest, HttpRequestView};
use crate::text;
use crate::text::CharClass;

verus! {

/// The search endpoint.
pub const BASE: &'static str = "https://www.ebi.ac.uk/europepmc/webservices/rest/search";

/// The most hits that one request asks for.
pub const PAGE_SIZE: usize = 100;

/// One page of answers.
#[derive(Debug, PartialEq, Eq)]
pub struct Resp {
    pub next_cursor_mark: Option<String>,
    pub result_list: ResultList,
}

/// The hits of a page.
#[derive(Debug, PartialEq, Eq)]
pub struct ResultList {
    pub result: Vec<Hit>,
}

/// One hit.
#[derive(Debug, PartialEq, Eq)]
pub struct Hit {
    pub title: Option<String>,
    /// The authors, separated by commas.
    pub author_string: Option<String>,
    pub pub_year: Option<String>,
    pub abstract_text: Option<String>,
    pub doi: Option<String>,
    pub full_text_url_list: Option<FullTextUrlList>,
}

/// Where the full text of a hit can be had.
#[derive(Debug, PartialEq, Eq)]
pub struct FullTextUrlList {
    pub full_text_url: Vec<FullTextUrl>,
}

/// One place where a full text can be had.
#[derive(Debug, PartialEq, Eq)]
pub struct FullTextUrl {
    pub document_style: Option<String>,
    pub url: Option<String>,
}

/// The contents of a [`FullTextUrl`].
pub struct FullTextUrlView {
    pub document_style: Option<Seq<char>>,
    pub url: Option<Seq<char>>,
}

/// The contents of a [`Hit`].
pub struct HitView {
    pub title: Option<Seq<char>>,
    pub author_string: Option<Seq<char>>,
    pub pub_year: Option<Seq<char>>,
    pub abstract_text: Option<Seq<char>>,
    pub doi: Option<Seq<char>>,
    pub full_text_url_list: Option<Seq<FullTextUrlView>>,
}

impl DeepView for FullTextUrl {
    type V = FullTextUrlView;

    open spec fn deep_view(&self) -> FullTextUrlView {
        FullTextUrlView {
            document_style: self.document_style.deep_view(),
            url: self.url.deep_view(),
        }
    }
}

impl DeepView for FullTextUrlList {
    type V = Seq<FullTextUrlView>;

    open spec fn deep_view(&self) -> Seq<FullTextUrlView> {
        self.full_text_url.deep_view()
    }
}

impl DeepView for Hit {
    type V = HitView;

    open spec fn deep_view(&self) -> HitView {
        HitView {
            title: self.title.deep_view(),
            author_string: self.author_string.deep_view(),
            pub_year: self.pub_year.deep_view(),
            abstract_text: self.abstract_text.deep_view(),
            doi: self.doi.deep_view(),
            full_text_url_list: self.full_text_url_list.deep_view(),
        }
    }
}

/// Whether an entry is labelled a PDF, in whatever case.
pub open spec fn is_pdf(u: FullTextUrlView) -> bool {
    u.document_style matches Some(style) && text::same_ignoring_ascii_case(style, "pdf"@)
}

/// Whether an entry has a URL and, where `pdf_only` says so, is labelled a PDF.
pub open spec fn is_link(u: FullTextUrlView, pdf_only: bool) -> bool {
    u.url is Some && (pdf_only ==> is_pdf(u))
}

/// The URL of the first link among the entries, of PDF links alone where
/// `pdf_only` says so.
pub open spec fn first_url(list: Seq<FullTextUrlView>, pdf_only: bool) -> Option<Seq<char>>
    decreases list.len(),
{
    if list.len() == 0 {
        None
    } else if is_link(list.first(), pdf_only) {
        list.first().url
    } else {
        first_url(list.drop_first(), pdf_only)
    }
}

/// The best URL of a hit: its first PDF link, else its first link of any kind.
pub open spec fn best_url(list: Seq<FullTextUrlView>) -> Option<Seq<char>> {
    match first_url(list, true) {
        Some(url) => Some(url),
        None => first_url(list, false),
    }
}

/// The first URL among the entries, of PDF entries alone where `pdf_only` says so.
fn find_url(list: &FullTextUrlList, pdf_only: bool) -> (r: Option<String>)
    ensures
        r.deep_view() == first_url(list.deep_view(), pdf_only),
{
    let entries = &list.full_text_url;
    let ghost all = list.deep_view();
    let mut i: usize = 0;
    assert(all.skip(0) =~= all);
    while i < entries.len()
        invariant
            i <= entries.len(),
            all == list.deep_view(),
            all == entries.deep_view(),
            first_url(all, pdf_only) == first_url(all.skip(i as int), pdf_only),
        decreases entries.len() - i,
    {
        assert(all.skip(i as int).drop_first() =~= all.skip(i as int + 1));
        assert(all[i as int] == entries[i as int].deep_view());
        if let Some(url) = &entries[i].url {
            let accepted = !pdf_only || match &entries[i].document_style {
                Some(style) => text::eq_ignoring_ascii_case(style.as_str(), "pdf"),
                None => false,
            };
            if accepted {
                return Some(url.clone());
            }
        }
        i = i + 1;
    }
    None
}

/// Picks the best downloadable URL of a hit: an explicit PDF full-text link
/// first, else the first full-text URL, a landing page that leads to a PDF.
/// `None` where the hit has no full-text URL at all.
pub fn pick_url(list: &FullTextUrlList) -> (r: Option<String>)
    ensures
        r.deep_view() == best_url(list.deep_view()),
{
    match find_url(list, true) {
        Some(url) => Some(url),
        None => find_url(list, false),
    }
}

/// An author's name without the blanks around it and the full stops behind it.
pub open spec fn clean_author(name: Seq<char>) -> Seq<char> {
    text::trim(text::trim_end(text::trim(name), CharClass::Only('.')))
}

/// The authors that an author line names.
pub open spec fn author_names(line: Option<Seq<char>>) -> Seq<Seq<char>> {
    match line {
        Some(names) => text::split(names, CharClass::Only(',')).map_values(
            |name: Seq<char>| clean_author(name),
        ).filter(text::nonempty()),
        None => Seq::empty(),
    }
}

/// The URL of a hit, where it has one.
pub open spec fn hit_url(h: HitView) -> Option<Seq<char>> {
    match h.full_text_url_list {
        Some(list) => best_url(list),
        None => None,
    }
}

/// The document of a hit that has a URL.
pub open spec fn epmc_document(h: HitView) -> DocumentView {
    DocumentView {
        title: match h.title {
            Some(title) => title,
            None => "Untitled"@,
        },
        url: hit_url(h)->0,
        source: "europe_pmc"@,
        authors: author_names(h.author_string),
        year: h.pub_year,
        abstract_: h.abstract_text,
        identifier: h.doi,
    }
}

/// The documents of a page: one for each hit that has a URL, in order.
pub open spec fn epmc_documents(hits: Seq<HitView>) -> Seq<DocumentView> {
    hits.filter(|h: HitView| hit_url(h) is Some).map_values(|h: HitView| epmc_document(h))
}

/// The authors that an author line names.
fn authors_of(line: Option<String>) -> (r: Vec<String>)
    ensures
        r.deep_view() == author_names(line.deep_view()),
{
    let line = match line {
        Some(line) => line,
        None => {
            let none: Vec<String> = Vec::new();
            assert(none.deep_view() =~= Seq::<Seq<char>>::empty());
            return none;
        },
    };
    let pieces = text::split_at_class(line.as_str(), &CharClass::Only(','));
    let ghost clean = |name: Seq<char>| clean_author(name);
    let ghost all = pieces.deep_view();
    let mut names: Vec<String> = Vec::new();
    let mut i: usize = 0;
    while i < pieces.len()
        invariant
            i <= pieces.len(),
            all == pieces.deep_view(),
            clean == (|name: Seq<char>| clean_author(name)),
            names.deep_view() == all.take(i as int).map_values(clean),
        decreases pieces.len() - i,
    {
        let ghost before = names.deep_view();
        let stopless = text::trimmed_end(
            text::trimmed(pieces[i].as_str()),
            &CharClass::Only('.'),
        );
        names.push(text::trimmed(stopless).to_owned());
        assert(names.deep_view() =~= before.push(clean_author(all[i as int])));
        assert(names.deep_view() =~= all.take(i as int + 1).map_values(clean));
        i = i + 1;
    }
    assert(all.take(pieces.len() as int) =~= all);
    text::keep_nonempty(names)
}

/// The document of a hit, or none where it has no URL.
fn document_of(hit: Hit) -> (r: Option<Document>)
    ensures
        r is Some <==> hit_url(hit.deep_view()) is Some,
        r matches Some(doc) ==> doc.deep_view() == epmc_document(hit.deep_view()),
{
    let picked = match &hit.full_text_url_list {
        Some(list) => pick_url(list),
        None => None,
    };
    let url = match picked {
        Some(url) => url,
        None => {
            return None;
        },
    };
    let title = match hit.title {
        Some(title) => title,
        None => "Untitled".to_owned(),
    };
    Some(
        Document {
            title,
            url,
            source: "europe_pmc".to_owned(),
            authors: authors_of(hit.author_string),
            year: hit.pub_year,
            abstract_: hit.abstract_text,
            identifier: hit.doi,
        },
    )
}

/// The documents of a page, in order.
fn documents_of(hits: Vec<Hit>) -> (r: Vec<Document>)
    ensures
        r.deep_view() == epmc_documents(hits.deep_view()),
        r.len() <= hits.len(),
{
    let mut docs: Vec<Document> = Vec::new();
    let ghost all = hits.deep_view();
    let ghost keep = |h: HitView| hit_url(h) is Some;
    let ghost convert = |h: HitView| epmc_document(h);
    proof {
        reveal(Seq::filter);
    }
    for hit in it: hits
        invariant
            it.seq() == hits@,
            all == hits.deep_view(),
            keep == (|h: HitView| hit_url(h) is Some),
            convert == (|h: HitView| epmc_document(h)),
            docs.len() <= it.index(),
            docs.deep_view() == all.take(it.index() as int).filter(keep).map_values(convert),
    {
        let ghost before = docs.deep_view();
        let ghost i = it.index() as int;
        proof {
            reveal(Seq::filter);
            assert(all.take(i + 1).drop_last() =~= all.take(i));
            assert(all.take(i + 1).last() == hit.deep_view());
        }
        if let Some(doc) = document_of(hit) {
            docs.push(doc);
            assert(docs.deep_view() =~= before.push(doc.deep_view()));
        }
        assert(docs.deep_view() =~= all.take(i + 1).filter(keep).map_values(convert));
    }
    assert(all.take(all.len() as int) =~= all);
    docs
}

/// A search of Europe PMC under way, as a value.
pub struct EuropePmcState {
    pub query: Seq<char>,
    /// The most items that the search may yield.
    pub limit: nat,
    /// The mark of the next page; none where there is no further page.
    pub cursor: Option<Seq<char>>,
    /// The documents found so far.
    pub yielded: nat,
}

impl EuropePmcState {
    /// The items that the search may still yield.
    pub open spec fn room(self) -> nat {
        if self.yielded < self.limit {
            (self.limit - self.yielded) as nat
        } else {
            0
        }
    }

    /// Whether the search still has something to ask for.
    pub open spec fn active(self) -> bool {
        self.cursor is Some && self.yielded < self.limit
    }

    /// The hits that the next request asks for: those still wanted, in pages.
    pub open spec fn page_size(self) -> nat {
        if self.room() < PAGE_SIZE {
            self.room()
        } else {
            PAGE_SIZE as nat
        }
    }

    /// The next request.
    pub open spec fn request(self) -> HttpRequestView {
        HttpRequestView {
            url: BASE@,
            authorization: None,
            query: seq![
                ("query"@, self.query),
                ("resultType"@, "core"@),
                ("format"@, "json"@),
                ("pageSize"@, text::decimal(self.page_size())),
                ("cursorMark"@, self.cursor->0),
            ],
        }
    }

    /// What an answered page adds to the search.
    pub open spec fn items<E>(self, hits: Seq<HitView>) -> Seq<Result<DocumentView, E>> {
        sources::all_ok(
            sources::at_most(epmc_documents(hits), self.room()),
        )
    }

    /// The mark after an answered page. The service repeats the mark on the
    /// last page; a page without hits is the last one too.
    pub open spec fn next_cursor(
        self,
        mark: Option<Seq<char>>,
        hits: Seq<HitView>,
    ) -> Option<Seq<char>> {
        if hits.len() == 0 || mark == self.cursor {
            None
        } else {
            mark
        }
    }

    /// The search after an answered page.
    pub open spec fn after_page(
        self,
        mark: Option<Seq<char>>,
        hits: Seq<HitView>,
    ) -> EuropePmcState {
        EuropePmcState {
            cursor: self.next_cursor(mark, hits),
            yielded: self.yielded + epmc_documents(hits).len(),
            ..self
        }
    }

    /// The search after a request that failed: it is over.
    pub open spec fn after_failure(self) -> EuropePmcState {
        EuropePmcState { cursor: None, ..self }
    }
}

/// A search of Europe PMC under way: it says what to ask the service next and
/// takes the answers.
pub struct EuropePmcSearch {
    query: String,
    limit: usize,
    cursor: Option<String>,
    yielded: usize,
}

impl View for EuropePmcSearch {
    type V = EuropePmcState;

    closed spec fn view(&self) -> EuropePmcState {
        EuropePmcState {
            query: self.query@,
            limit: self.limit as nat,
            cursor: self.cursor.deep_view(),
            yielded: self.yielded as nat,
        }
    }
}

/// The Europe PMC source.
pub struct EuropePmcSource {}

impl EuropePmcSource {
    pub fn new() -> (r: Self)
        ensures
            r == (EuropePmcSource {}),
    {
        EuropePmcSource {}
    }

    pub fn name(&self) -> (r: &'static str)
        ensures
            r@ == "europe_pmc"@,
    {
        "europe_pmc"
    }

    /// Starts a search that yields at most `limit` items.
    pub fn search(&self, keywords: &Vec<String>, limit: usize) -> (r: EuropePmcSearch)
        ensures
            r@ == (EuropePmcState {
                query: text::join(keywords.deep_view(), " "@) + " AND (OPEN_ACCESS:Y)"@,
                limit: limit as nat,
                cursor: Some("*"@),
                yielded: 0,
            }),
    {
        let mut query = text::joined(keywords, " ");
        query.append(" AND (OPEN_ACCESS:Y)");
        EuropePmcSearch { query, limit, cursor: Some("*".to_owned()), yielded: 0 }
    }
}

impl EuropePmcSearch {
    /// The next request to send; none where the search is over.
    pub fn next_request(&self) -> (r: Option<HttpRequest>)
        ensures
            r is Some <==> self@.active(),
            r matches Some(request) ==> request.deep_view() == self@.request(),
    {
        if self.yielded >= self.limit {
            return None;
        }
        let mark = match &self.cursor {
            Some(mark) => mark.clone(),
            None => {
                return None;
            },
        };
        let wanted = self.limit - self.yielded;
        let page_size = if wanted < PAGE_SIZE {
            wanted
        } else {
            PAGE_SIZE
        };
        let mut query: Vec<(String, String)> = Vec::new();
        query.push(("query".to_owned(), self.query.clone()));
        query.push(("resultType".to_owned(), "core".to_owned()));
        query.push(("format".to_owned(), "json".to_owned()));
        query.push(("pageSize".to_owned(), text::decimal_text(page_size as u64)));
        query.push(("cursorMark".to_owned(), mark));
        assert(query.deep_view() =~= self@.request().query);
        Some(HttpRequest { url: BASE.to_owned(), authorization: None, query })
    }

    /// Takes the answer to the request of [`EuropePmcSearch::next_request`]
    /// and gives the items that it adds to the search.
    pub fn on_reply<E>(&mut self, reply: Result<Resp, E>) -> (items: Vec<Result<Document, E>>)
        requires
            old(self)@.active(),
            reply matches Ok(resp) ==> old(self)@.yielded + resp.result_list.result.len()
                <= usize::MAX,
        ensures
            match reply {
                Ok(resp) => {
                    &&& sources::items_view(items@) == old(self)@.items::<E>(
                        resp.result_list.result.deep_view(),
                    )
                    &&& final(self)@ == old(self)@.after_page(
                        resp.next_cursor_mark.deep_view(),
                        resp.result_list.result.deep_view(),
                    )
                },
                Err(e) => {
                    &&& items@ == seq![Err::<Document, E>(e)]
                    &&& final(self)@ == old(self)@.after_failure()
                },
            },
    {
        match reply {
            Ok(resp) => {
                let wanted = self.limit - self.yielded;
                let hits = resp.result_list.result;
                let next = if hits.len() == 0 {
                    None
                } else {
                    match (resp.next_cursor_mark, &self.cursor) {
                        (Some(mark), Some(current)) if mark != *current => Some(mark),
                        _ => None,
                    }
                };
                let docs = documents_of(hits);
                let found = docs.len();
                self.cursor = next;
                self.yielded = self.yielded + found;
                sources::first_items(docs, wanted)
            },
            Err(e) => {
                self.cursor = None;
                let mut items: Vec<Result<Document, E>> = Vec::new();
                items.push(Err(e));
                items
            },
        }
    }
}

/// The first link of a list, if it has one, stands before all others.
proof fn lemma_first_url(list: Seq<FullTextUrlView>, pdf_only: bool) -> (i: int)
    ensures
        match first_url(list, pdf_only) {
            Some(url) => {
                &&& 0 <= i < list.len()
                &&& is_link(list[i], pdf_only)
                &&& list[i].url == Some(url)
                &&& forall|j: int| 0 <= j < i ==> !is_link(#[trigger] list[j], pdf_only)
            },
            None => forall|j: int| 0 <= j < list.len() ==> !is_link(#[trigger] list[j], pdf_only),
        },
    decreases list.len(),
{
    if list.len() == 0 || is_link(list.first(), pdf_only) {
        0
    } else {
        let rest = list.drop_first();
        let i = lemma_first_url(rest, pdf_only);
        assert forall|j: int| 0 < j < list.len() && (first_url(list, pdf_only) is None || j < i + 1)
            implies !is_link(#[trigger] list[j], pdf_only) by {
            assert(rest[j - 1] == list[j]);
        }
        i + 1
    }
}

/// The picked URL is that of the first PDF link; where there is none, that of
/// the first link; where there is no link at all, there is none.
pub proof fn law_pick_prefers_pdf(list: Seq<FullTextUrlView>)
    ensures
        match best_url(list) {
            Some(url) => exists|i: int|
                #![trigger list[i]]
                {
                    &&& 0 <= i < list.len()
                    &&& list[i].url == Some(url)
                    &&& forall|j: int| 0 <= j < i ==> !is_link(#[trigger] list[j], is_pdf(list[i]))
                    &&& !is_pdf(list[i]) ==> forall|j: int|
                        0 <= j < list.len() ==> !is_link(#[trigger] list[j], true)
                },
            None => forall|j: int| 0 <= j < list.len() ==> (#[trigger] list[j]).url is None,
        },
{
    let i = lemma_first_url(list, true);
    let k = lemma_first_url(list, false);
    if first_url(list, true) is Some {
        assert(list[i].url == best_url(list));
    } else if first_url(list, false) is Some {
        assert(list[k].url == best_url(list));
        assert(!is_link(list[k], true));
    } else {
        assert forall|j: int| 0 <= j < list.len() implies (#[trigger] list[j]).url is None by {
            assert(!is_link(list[j], false));
        }
    }
}

/// No author's name is empty, each is trimmed, and none holds a comma.
pub proof fn law_author_names_are_clean(line: Option<Seq<char>>)
    ensures
        forall|i: int|
            0 <= i < author_names(line).len() ==> {
                &&& (#[trigger] author_names(line)[i]).len() > 0
                &&& text::is_list_item(author_names(line)[i])
            },
{
    if let Some(names) = line {
        let class = CharClass::Only(',');
        let pieces = text::split(names, class);
        let cleaned = pieces.map_values(|name: Seq<char>| clean_author(name));
        text::law_split_pieces(names, class);
        assert forall|i: int| 0 <= i < author_names(line).len() implies {
            &&& (#[trigger] author_names(line)[i]).len() > 0
            &&& text::is_list_item(author_names(line)[i])
        } by {
            cleaned.lemma_filter_pred(text::nonempty(), i);
            text::lemma_filtered_is_from(cleaned, text::nonempty(), i);
            let k = choose|k: int| 0 <= k < cleaned.len() && cleaned[k] == author_names(line)[i];
            let piece = pieces[k];
            let stopless = text::trim_end(text::trim(piece), CharClass::Only('.'));
            assert forall|j: int| 0 <= j < piece.len() implies #[trigger] piece[j] != ',' by {
                assert(!class.has(pieces[k][j]));
            }
            text::lemma_trim_keeps_out(piece, ',');
            text::law_trim_end(text::trim(piece), CharClass::Only('.'));
            text::lemma_trim_keeps_out(stopless, ',');
            text::law_trim(stopless);
        }
    }
}

/// A page that the service answers with: its cursor mark and its hits.
pub struct Page {
    pub mark: Option<Seq<char>>,
    pub hits: Seq<HitView>,
}

/// Everything that a search yields where its requests are answered by
/// `replies`, one after the other, until it is over.
pub open spec fn epmc_run<E>(
    state: EuropePmcState,
    replies: Seq<Result<Page, E>>,
) -> Seq<Result<DocumentView, E>>
    decreases replies.len(),
{
    if replies.len() == 0 || !state.active() {
        Seq::empty()
    } else {
        match replies.first() {
            Ok(page) => state.items::<E>(page.hits) + epmc_run(
                state.after_page(page.mark, page.hits),
                replies.drop_first(),
            ),
            Err(e) => seq![Err(e)] + epmc_run(state.after_failure(), replies.drop_first()),
        }
    }
}

/// A search yields no more items than its limit leaves room for, whatever the
/// service answers, and nothing comes after an error.
pub proof fn law_run_is_bounded<E>(state: EuropePmcState, replies: Seq<Result<Page, E>>)
    ensures
        epmc_run(state, replies).len() <= state.room(),
        forall|i: int|
            0 <= i < epmc_run(state, replies).len() - 1 ==> (#[trigger] epmc_run(state, replies)[i])
                is Ok,
    decreases replies.len(),
{
    reveal_with_fuel(epmc_run, 2);
    if replies.len() > 0 && state.active() {
        match replies.first() {
            Ok(page) => {
                let next = state.after_page(page.mark, page.hits);
                if next.active() {
                    law_run_is_bounded(next, replies.drop_first());
                }
            },
            Err(e) => {},
        }
    }
}

/// The replies that a search takes before it is over.
pub open spec fn epmc_taken<E>(
    state: EuropePmcState,
    replies: Seq<Result<Page, E>>,
) -> Seq<Result<Page, E>>
    decreases replies.len(),
{
    if replies.len() == 0 || !state.active() {
        Seq::empty()
    } else {
        let next = match replies.first() {
            Ok(page) => state.after_page(page.mark, page.hits),
            Err(_) => state.after_failure(),
        };
        seq![replies.first()] + epmc_taken(next, replies.drop_first())
    }
}

/// The documents of all pages among `replies`, page after page.
pub open spec fn epmc_pages_documents<E>(
    replies: Seq<Result<Page, E>>,
) -> Seq<DocumentView>
    decreases replies.len(),
{
    if replies.len() == 0 {
        Seq::empty()
    } else {
        let rest = epmc_pages_documents(replies.drop_first());
        match replies.first() {
            Ok(page) => epmc_documents(page.hits) + rest,
            Err(_) => rest,
        }
    }
}

/// A search yields the first documents of the pages that it takes, in order
/// and as many as it has room for, and behind them the error where the last
/// reply that it takes is one. It takes its replies from the first one on.
pub proof fn law_run_is_first_documents<E>(
    state: EuropePmcState,
    replies: Seq<Result<Page, E>>,
)
    ensures
        epmc_taken(state, replies).is_prefix_of(replies),
        epmc_run(state, replies) == sources::all_ok::<E>(
            sources::at_most(epmc_pages_documents(epmc_taken(state, replies)), state.room()),
        ) + sources::last_error(epmc_taken(state, replies)),
        (forall|i: int| 0 <= i < replies.len() ==> (#[trigger] replies[i]) is Ok) ==> epmc_run(
            state,
            replies,
        ) == sources::all_ok::<E>(
            sources::at_most(epmc_pages_documents(epmc_taken(state, replies)), state.room()),
        ),
    decreases replies.len(),
{
    let taken = epmc_taken(state, replies);
    if replies.len() > 0 && state.active() {
        let rest = replies.drop_first();
        let next = match replies.first() {
            Ok(page) => state.after_page(page.mark, page.hits),
            Err(_) => state.after_failure(),
        };
        law_run_is_first_documents(next, rest);
        let later = epmc_taken(next, rest);
        assert(taken.drop_first() =~= later);
        assert(taken =~= replies.take(taken.len() as int)) by {
            assert(later =~= rest.take(later.len() as int));
        }
        if next.active() {
            sources::lemma_at_most_of_longer(
                epmc_documents(replies.first()->Ok_0.hits),
                epmc_pages_documents(later),
                state.room(),
            );
        } else {
            assert(later =~= Seq::empty());
            assert(epmc_pages_documents(taken) =~= match replies.first() {
                Ok(page) => epmc_documents(page.hits),
                Err(_) => Seq::empty(),
            });
        }
    }
    assert(epmc_run(state, replies) =~= sources::all_ok::<E>(
        sources::at_most(epmc_pages_documents(taken), state.room()),
    ) + sources::last_error(taken));
    if forall|i: int| 0 <= i < replies.len() ==> (#[trigger] replies[i]) is Ok {
        assert(sources::last_error(taken) =~= Seq::<Result<DocumentView, E>>::empty()) by {
            if taken.len() > 0 {
                assert(taken.last() == replies[taken.len() - 1]);
            }
        }
    }
}

/// Every document of a search names this source, and its URL is the best one
/// of a hit.
pub proof fn law_documents_come_from_hits(hits: Seq<HitView>)
    ensures
        forall|i: int|
            0 <= i < epmc_documents(hits).len() ==> {
                let doc = #[trigger] epmc_documents(hits)[i];
                &&& doc.source == "europe_pmc"@
                &&& exists|j: int|
                    0 <= j < hits.len() && hit_url(#[trigger] hits[j]) == Some(doc.url)
            },
        epmc_documents(hits).len() <= hits.len(),
{
    let keep = |h: HitView| hit_url(h) is Some;
    hits.lemma_filter_len(keep);
    assert forall|i: int| 0 <= i < epmc_documents(hits).len() implies {
        let doc = #[trigger] epmc_documents(hits)[i];
        &&& doc.source == "europe_pmc"@
        &&& exists|j: int| 0 <= j < hits.len() && hit_url(#[trigger] hits[j]) == Some(doc.url)
    } by {
        hits.lemma_filter_pred(keep, i);
        text::lemma_filtered_is_from(hits, keep, i);
        let j = choose|j: int| 0 <= j < hits.len() && hits[j] == hits.filter(keep)[i];
        assert(hit_url(hits[j]) == Some(epmc_documents(hits)[i].url));
    }
}

/// A request asks for at least one hit, for no more than a page holds, and for
/// no more than the search still wants.
pub proof fn law_request_asks_for_what_is_missing(state: EuropePmcState)
    requires
        state.active(),
    ensures
        1 <= state.page_size() <= PAGE_SIZE,
        state.page_size() <= state.room(),
{
}

/// A failed request, a page without hits, a mark that is missing or repeated
/// and a full count each end the search; a page with hits and a new mark is
/// followed by the page of that mark as long as more is wanted.
pub proof fn law_search_ends(state: EuropePmcState, mark: Option<Seq<char>>, hits: Seq<HitView>)
    requires
        state.active(),
    ensures
        !state.after_failure().active(),
        state.after_page(mark, hits).active() <==> {
            &&& hits.len() > 0
            &&& mark is Some
            &&& mark != state.cursor
            &&& state.yielded + epmc_documents(hits).len() < state.limit
        },
        state.after_page(mark, hits).active() ==> state.after_page(mark, hits).cursor == mark,
{
}

/// Whether a label spells "pdf", each letter in either case.
spec fn spells_pdf(label: Option<String>) -> bool {
    label matches Some(style) && {
        &&& style@.len() == 3
        &&& style@[0] == 'p' || style@[0] == 'P'
        &&& style@[1] == 'd' || style@[1] == 'D'
        &&& style@[2] == 'f' || style@[2] == 'F'
    }
}

/// A label is that of a PDF exactly where it spells so.
proof fn lemma_is_pdf(u: FullTextUrl)
    ensures
        is_pdf(u.deep_view()) <==> spells_pdf(u.document_style),
{
    reveal_strlit("pdf");
    if let Some(style) = u.document_style {
        text::law_same_ignoring_ascii_case(style@, "pdf"@);
        if style@.len() == 3 {
            assert("pdf"@[0] == 'p' && "pdf"@[1] == 'd' && "pdf"@[2] == 'f');
        }
    }
}

/// The URL of the first entry with a URL and the label "pdf", each letter in
/// either case, is picked, whatever stands before it under other labels. Where
/// no entry has both, the first URL is picked, and where there is no URL, none.
pub proof fn law_pick_url(
    list: FullTextUrlList,
    r: Option<String>,
    k: int,
    labelled: spec_fn(FullTextUrl) -> bool,
)
    requires
        call_ensures(pick_url, (&list,), r),
        forall|u: FullTextUrl| #[trigger]
            labelled(u) <==> (u.document_style matches Some(style) && {
                &&& style@.len() == 3
                &&& style@[0] == 'p' || style@[0] == 'P'
                &&& style@[1] == 'd' || style@[1] == 'D'
                &&& style@[2] == 'f' || style@[2] == 'F'
            }),
    ensures
        ({
            &&& 0 <= k < list.full_text_url@.len()
            &&& list.full_text_url@[k].url is Some
            &&& labelled(list.full_text_url@[k])
            &&& forall|j: int|
                #![trigger list.full_text_url@[j]]
                0 <= j < k ==> list.full_text_url@[j].url is None || !labelled(
                    list.full_text_url@[j],
                )
        }) ==> r.deep_view() == list.full_text_url@[k].url.deep_view(),
        ({
            &&& 0 <= k < list.full_text_url@.len()
            &&& list.full_text_url@[k].url is Some
            &&& forall|j: int|
                #![trigger list.full_text_url@[j]]
                0 <= j < k ==> list.full_text_url@[j].url is None
            &&& forall|j: int|
                #![trigger list.full_text_url@[j]]
                0 <= j < list.full_text_url@.len() ==> list.full_text_url@[j].url is None
                    || !labelled(list.full_text_url@[j])
        }) ==> r.deep_view() == list.full_text_url@[k].url.deep_view(),
        (forall|j: int|
            #![trigger list.full_text_url@[j]]
            0 <= j < list.full_text_url@.len() ==> list.full_text_url@[j].url is None)
            ==> r is None,
{
    let entries = list.full_text_url@;
    let views = list.deep_view();
    assert(views.len() == entries.len());
    assert forall|j: int| 0 <= j < entries.len() implies {
        &&& is_link(#[trigger] views[j], true) <==> entries[j].url is Some && labelled(entries[j])
        &&& is_link(views[j], false) <==> entries[j].url is Some
        &&& views[j].url == entries[j].url.deep_view()
    } by {
        assert(views[j] == entries[j].deep_view());
        lemma_is_pdf(entries[j]);
    }
    let i = lemma_first_url(views, true);
    let m = lemma_first_url(views, false);
    if 0 <= k < entries.len() && entries[k].url is Some {
        assert(is_link(views[k], false));
        if labelled(entries[k]) {
            assert(is_link(views[k], true));
            if forall|j: int|
                #![trigger list.full_text_url@[j]]
                0 <= j < k ==> list.full_text_url@[j].url is None || !labelled(
                    list.full_text_url@[j],
                ) {
                if i < k {
                    assert(is_link(views[i], true));
                    assert(list.full_text_url@[i].url is Some);
                }
                assert(i == k);
            }
        }
        if first_url(views, true) is Some {
            assert(is_link(views[i], true));
            assert(list.full_text_url@[i].url is Some);
        } else if m < k {
            assert(list.full_text_url@[m].url is Some);
        }
    }
    if first_url(views, true) is Some {
        assert(list.full_text_url@[i].url is Some);
    } else if first_url(views, false) is Some {
        assert(list.full_text_url@[m].url is Some);
    }
}

/// Where a cleaned name starts and ends in the name, and where the full stops
/// behind it do.
proof fn lemma_clean_author_bounds(name: Seq<char>) -> (r: (int, int, int, int))
    ensures
        0 <= r.0 <= r.1 <= r.2 <= r.3 <= name.len(),
        clean_author(name) == name.subrange(r.0, r.1),
        forall|x: int|
            0 <= x < r.0 || r.1 <= x < r.2 || r.3 <= x < name.len() ==> text::is_whitespace(
                #[trigger] name[x],
            ),
        forall|x: int| r.2 <= x < r.3 ==> #[trigger] name[x] == '.',
        r.0 < r.3 ==> !text::is_whitespace(name[r.0]) && !text::is_whitespace(name[r.3 - 1]),
        r.0 < r.2 ==> name[r.2 - 1] != '.',
        r.0 < r.1 ==> !text::is_whitespace(name[r.1 - 1]),
{
    let stop = CharClass::Only('.');
    let inner = text::trim(name);
    let (i, m) = text::lemma_trim_bounds(name);
    let stopless = text::trim_end(inner, stop);
    text::law_trim_end(inner, stop);
    let k = i + stopless.len();
    assert(stopless =~= name.subrange(i, k));
    assert forall|x: int| k <= x < m implies #[trigger] name[x] == '.' by {
        assert(inner[x - i] == name[x]);
        assert(stop.has(inner[x - i]));
    }
    let (a, b) = text::lemma_trim_bounds(stopless);
    if a > 0 {
        assert(text::is_whitespace(stopless[0]));
        assert(stopless[0] == name[i]);
        assert(false);
    }
    let j = i + b;
    assert(clean_author(name) =~= name.subrange(i, j));
    assert forall|x: int| 0 <= x < i || j <= x < k || m <= x < name.len() implies
        text::is_whitespace(#[trigger] name[x]) by {
        if j <= x < k {
            assert(stopless[x - i] == name[x]);
            assert(text::is_whitespace(stopless[x - i]));
        }
    }
    if i < k {
        assert(stopless.last() == name[k - 1]);
    }
    if i < j {
        assert(stopless[b - 1] == name[j - 1]);
    }
    (i, j, k, m)
}

/// A cleaned name is a part of the name. Before it stands nothing but
/// whitespace, and behind it whitespace, then full stops, then whitespace, as
/// much of each as there is; it has no whitespace at its own ends.
pub proof fn law_clean_author(name: Seq<char>)
    ensures
        exists|i: int, j: int, k: int, m: int|
            #![trigger name.subrange(i, j), name.subrange(k, m)]
            {
                &&& 0 <= i <= j <= k <= m <= name.len()
                &&& clean_author(name) == name.subrange(i, j)
                &&& forall|x: int|
                    0 <= x < i || j <= x < k || m <= x < name.len() ==> text::is_whitespace(
                        #[trigger] name[x],
                    )
                &&& forall|x: int| k <= x < m ==> #[trigger] name[x] == '.'
                &&& i < m ==> !text::is_whitespace(name[i]) && !text::is_whitespace(name[m - 1])
                &&& i < k ==> name[k - 1] != '.'
                &&& i < j ==> !text::is_whitespace(name[j - 1])
            },
{
    let (i, j, k, m) = lemma_clean_author_bounds(name);
    assert(clean_author(name) == name.subrange(i, j));
    assert(name.subrange(k, m).len() == m - k);
}

/// An author line is cut at each comma, wherever it stands: first the names
/// before it, then those behind it. A line without a comma names one author,
/// by the cleaned text, or none where nothing is left of it; no line, no author.
pub proof fn law_author_line(a: Seq<char>, b: Seq<char>)
    ensures
        author_names(Some(a.push(',') + b)) == author_names(Some(a)) + author_names(Some(b)),
        (forall|i: int| 0 <= i < a.len() ==> #[trigger] a[i] != ',') ==> author_names(Some(a))
            == if clean_author(a).len() > 0 {
            seq![clean_author(a)]
        } else {
            Seq::empty()
        },
        author_names(None) == Seq::<Seq<char>>::empty(),
{
    let class = CharClass::Only(',');
    let clean = |name: Seq<char>| clean_author(name);
    let before = text::split(a, class).map_values(clean);
    let behind = text::split(b, class).map_values(clean);
    text::law_split_at_separator(a, ',', b, class);
    assert((text::split(a, class) + text::split(b, class)).map_values(clean) =~= before + behind);
    Seq::filter_distributes_over_add(before, behind, text::nonempty());
    if forall|i: int| 0 <= i < a.len() ==> #[trigger] a[i] != ',' {
        text::law_split_without_separator(a, class);
        let one = seq![clean_author(a)];
        let none = Seq::<Seq<char>>::empty();
        assert(seq![a].map_values(clean) =~= one);
        reveal(Seq::filter);
        assert(one.drop_last() =~= none);
        assert(none.filter(text::nonempty()) =~= none);
        assert(text::nonempty()(clean_author(a)) <==> clean_author(a).len() > 0);
        if clean_author(a).len() > 0 {
            assert(one.filter(text::nonempty()) =~= one);
        } else {
            assert(one.filter(text::nonempty()) =~= none);
        }
    }
}

/// The documents of a page, told from its hits.
proof fn lemma_documents_of_hits(hits: Vec<Hit>) -> (wanted: Seq<Hit>)
    ensures
        wanted == hits@.filter(
            |h: Hit|
                h.full_text_url_list matches Some(list) && exists|j: int|
                    0 <= j < list.full_text_url@.len() && (#[trigger] list.full_text_url@[j]).url
                        is Some,
        ),
        epmc_documents(hits.deep_view()) == wanted.map_values(
            |h: Hit| epmc_document(h.deep_view()),
        ),
        forall|i: int|
            0 <= i < wanted.len() ==> (#[trigger] wanted[i]).full_text_url_list is Some && hit_url(
                wanted[i].deep_view(),
            ) is Some,
{
    let view = |h: Hit| h.deep_view();
    let keep = |h: HitView| hit_url(h) is Some;
    let has_url = |h: Hit|
        h.full_text_url_list matches Some(list) && exists|j: int|
            0 <= j < list.full_text_url@.len() && (#[trigger] list.full_text_url@[j]).url is Some;
    assert(hits.deep_view() =~= hits@.map_values(view));
    text::lemma_filter_of_map(hits@, view, keep);
    assert forall|h: Hit| #[trigger] has_url(h) <==> keep(view(h)) by {
        if let Some(list) = h.full_text_url_list {
            let views = list.deep_view();
            let i = lemma_first_url(views, true);
            let m = lemma_first_url(views, false);
            assert(views.len() == list.full_text_url@.len());
            assert forall|j: int| 0 <= j < views.len() implies (#[trigger] views[j]).url
                == list.full_text_url@[j].url.deep_view() by {
                assert(views[j] == list.full_text_url@[j].deep_view());
            }
            if hit_url(h.deep_view()) is Some {
                if first_url(views, true) is Some {
                    assert(views[i].url is Some);
                    assert(list.full_text_url@[i].url is Some);
                } else {
                    assert(views[m].url is Some);
                    assert(list.full_text_url@[m].url is Some);
                }
            }
            if has_url(h) {
                let j = choose|j: int|
                    0 <= j < list.full_text_url@.len() && (#[trigger] list.full_text_url@[j]).url
                        is Some;
                assert(is_link(views[j], false));
            }
        }
    }
    assert((|h: Hit| keep(view(h))) =~= has_url);
    let wanted = hits@.filter(has_url);
    assert forall|i: int| 0 <= i < wanted.len() implies (#[trigger] wanted[i]).full_text_url_list
        is Some && hit_url(wanted[i].deep_view()) is Some by {
        hits@.lemma_filter_pred(has_url, i);
        assert(has_url(wanted[i]));
    }
    assert(epmc_documents(hits.deep_view()) =~= wanted.map_values(
        |h: Hit| epmc_document(h.deep_view()),
    ));
    wanted
}

/// The documents that an answered page adds are, in order, those of its hits
/// with a full-text URL, as many as there is room for; and each has the title,
/// authors, year, abstract and DOI of its hit, and the URL that is picked of it.
pub proof fn law_each_hit_gives_its_own_document<E>(
    run: &mut EuropePmcSearch,
    resp: Resp,
    items: Vec<Result<Document, E>>,
    wanted: Seq<Hit>,
)
    requires
        old(run)@.yielded < old(run)@.limit,
        call_ensures(EuropePmcSearch::on_reply::<E>, (run, Ok(resp)), items),
        wanted == resp.result_list.result@.filter(
            |h: Hit|
                h.full_text_url_list matches Some(list) && exists|j: int|
                    0 <= j < list.full_text_url@.len() && (#[trigger] list.full_text_url@[j]).url
                        is Some,
        ),
    ensures
        items@.len() == if wanted.len() < old(run)@.limit - old(run)@.yielded {
            wanted.len() as int
        } else {
            old(run)@.limit - old(run)@.yielded
        },
        forall|i: int|
            #![trigger items@[i]]
            0 <= i < items@.len() ==> {
                &&& items@[i] is Ok
                &&& items@[i]->Ok_0.title@ == match wanted[i].title {
                    Some(title) => title@,
                    None => "Untitled"@,
                }
                &&& forall|picked: Option<String>|
                    #[trigger] call_ensures(
                        pick_url,
                        (&wanted[i].full_text_url_list->0,),
                        picked,
                    ) ==> picked.deep_view() == Some(items@[i]->Ok_0.url@)
                &&& items@[i]->Ok_0.source@ == "europe_pmc"@
                &&& items@[i]->Ok_0.authors.deep_view() == author_names(
                    wanted[i].author_string.deep_view(),
                )
                &&& items@[i]->Ok_0.year.deep_view() == wanted[i].pub_year.deep_view()
                &&& items@[i]->Ok_0.abstract_.deep_view() == wanted[i].abstract_text.deep_view()
                &&& items@[i]->Ok_0.identifier.deep_view() == wanted[i].doi.deep_view()
            },
{
    let again = lemma_documents_of_hits(resp.result_list.result);
    let docs = epmc_documents(resp.result_list.result.deep_view());
    let shown = sources::items_view(items@);
    assert(shown == sources::all_ok::<E>(sources::at_most(docs, old(run)@.room())));
    assert(shown.len() == items@.len());
    assert forall|i: int|
        #![trigger items@[i]]
        0 <= i < items@.len() implies {
        &&& items@[i] is Ok
        &&& items@[i]->Ok_0.deep_view() == epmc_document(wanted[i].deep_view())
        &&& hit_url(wanted[i].deep_view()) is Some
    } by {
        assert(shown[i] == sources::item_view(items@[i]));
        assert(shown[i] == Ok::<DocumentView, E>(docs[i]));
        assert(again[i] == wanted[i]);
    }
}

/// The search after `replies`, one after the other.
pub open spec fn epmc_after<E>(
    state: EuropePmcState,
    replies: Seq<Result<Page, E>>,
) -> EuropePmcState
    decreases replies.len(),
{
    if replies.len() == 0 {
        state
    } else {
        let before = epmc_after(state, replies.drop_last());
        match replies.last() {
            Ok(page) => before.after_page(page.mark, page.hits),
            Err(_) => before.after_failure(),
        }
    }
}

/// All hits among `replies`, page after page.
pub open spec fn epmc_hits<E>(replies: Seq<Result<Page, E>>) -> Seq<HitView>
    decreases replies.len(),
{
    if replies.len() == 0 {
        Seq::empty()
    } else {
        let before = epmc_hits(replies.drop_last());
        match replies.last() {
            Ok(page) => before + page.hits,
            Err(_) => before,
        }
    }
}

/// Whether a hit has a full-text URL.
pub open spec fn has_full_text_url(h: HitView) -> bool {
    h.full_text_url_list matches Some(list) && exists|j: int|
        0 <= j < list.len() && (#[trigger] list[j]).url is Some
}

/// A hit has a URL exactly where one of its entries has.
proof fn lemma_hit_url(h: HitView)
    ensures
        hit_url(h) is Some <==> has_full_text_url(h),
{
    if let Some(list) = h.full_text_url_list {
        let i = lemma_first_url(list, true);
        let m = lemma_first_url(list, false);
        if has_full_text_url(h) {
            let j = choose|j: int| 0 <= j < list.len() && (#[trigger] list[j]).url is Some;
            assert(is_link(list[j], false));
        }
        if hit_url(h) is Some {
            if first_url(list, true) is Some {
                assert(list[i].url is Some);
            } else {
                assert(list[m].url is Some);
            }
        }
    }
}

/// What a search keeps, what it counts and which page comes next.
proof fn lemma_epmc_after<E>(state: EuropePmcState, replies: Seq<Result<Page, E>>)
    ensures
        epmc_after(state, replies).query == state.query,
        epmc_after(state, replies).limit == state.limit,
        epmc_after(state, replies).yielded == state.yielded + epmc_hits(replies).filter(
            |h: HitView| has_full_text_url(h),
        ).len(),
        replies.len() > 0 && epmc_after(state, replies).cursor is Some ==> (replies.last()
            matches Ok(page) && page.mark == epmc_after(state, replies).cursor),
    decreases replies.len(),
{
    let has_url = |h: HitView| has_full_text_url(h);
    let keep = |h: HitView| hit_url(h) is Some;
    reveal(Seq::filter);
    if replies.len() > 0 {
        let front = replies.drop_last();
        lemma_epmc_after(state, front);
        if let Ok(page) = replies.last() {
            Seq::filter_distributes_over_add(epmc_hits(front), page.hits, has_url);
            assert forall|h: HitView| #[trigger] keep(h) <==> has_url(h) by {
                lemma_hit_url(h);
            }
            assert(keep =~= has_url);
        }
    }
}

/// Every request of a search, after whatever replies, goes to the same place
/// with the keywords that the search was started with, restricted to open
/// access. It asks for as many hits as documents are still wanted, up to a
/// hundred, and for the page that the last reply pointed to.
pub proof fn law_every_request_carries_the_keywords<E>(
    source: EuropePmcSource,
    keywords: Vec<String>,
    limit: usize,
    start: EuropePmcSearch,
    replies: Seq<Result<Page, E>>,
    run: EuropePmcSearch,
    request: HttpRequest,
    found: nat,
)
    requires
        call_ensures(EuropePmcSource::search, (&source, &keywords, limit), start),
        run@ == epmc_after(start@, replies),
        call_ensures(EuropePmcSearch::next_request, (&run,), Some(request)),
        found == epmc_hits(replies).filter(|h: HitView| has_full_text_url(h)).len(),
    ensures
        found < limit,
        request.url@ == "https://www.ebi.ac.uk/europepmc/webservices/rest/search"@,
        request.authorization is None,
        request.query@.len() == 5,
        request.query@[0].0@ == "query"@,
        request.query@[0].1@ == text::join(keywords.deep_view(), " "@) + " AND (OPEN_ACCESS:Y)"@,
        request.query@[1].0@ == "resultType"@,
        request.query@[1].1@ == "core"@,
        request.query@[2].0@ == "format"@,
        request.query@[2].1@ == "json"@,
        request.query@[3].0@ == "pageSize"@,
        request.query@[3].1@ == text::decimal(
            if limit - found < 100 {
                (limit - found) as nat
            } else {
                100
            },
        ),
        request.query@[4].0@ == "cursorMark"@,
        replies.len() == 0 ==> request.query@[4].1@ == "*"@,
        replies.len() > 0 ==> (replies.last() matches Ok(page) && page.mark == Some(
            request.query@[4].1@,
        )),
{
    lemma_epmc_after(start@, replies);
    let view = run@.request();
    assert(request.deep_view() == view);
    assert(request.query.deep_view() == view.query);
    assert(request.query@.len() == 5);
    assert forall|i: int| 0 <= i < 5 implies (request.query@[i].0@, request.query@[i].1@)
        == #[trigger] view.query[i] by {
        assert(request.query.deep_view()[i] == (request.query@[i].0@, request.query@[i].1@));
    }
    assert(view.query[0].0 == "query"@);
    assert(view.query[1].0 == "resultType"@);
    assert(view.query[2].0 == "format"@);
    assert(view.query[3].0 == "pageSize"@);
    assert(view.query[4].0 == "cursorMark"@);
}

/// A search asks for something at first exactly where something is wanted.
pub proof fn law_first_request(
    source: EuropePmcSource,
    keywords: Vec<String>,
    limit: usize,
    start: EuropePmcSearch,
    request: Option<HttpRequest>,
)
    requires
        call_ensures(EuropePmcSource::search, (&source, &keywords, limit), start),
        call_ensures(EuropePmcSearch::next_request, (&start,), request),
    ensures
        request is Some <==> limit > 0,
{
}

/// A reply decides what comes next. An error is handed on as it is and ends the
/// search. After a page the search goes on exactly where the page held a hit,
/// pointed to a page other than the one asked for, and more documents are
/// wanted; then it goes on with the page pointed to.
pub proof fn law_reply_decides_what_comes_next<E>(
    run: &mut EuropePmcSearch,
    asked: HttpRequest,
    reply: Result<Resp, E>,
    items: Vec<Result<Document, E>>,
    next: Option<HttpRequest>,
)
    requires
        call_ensures(EuropePmcSearch::next_request, (&*old(run),), Some(asked)),
        call_ensures(EuropePmcSearch::on_reply::<E>, (run, reply), items),
        call_ensures(EuropePmcSearch::next_request, (&*final(run),), next),
    ensures
        asked.query@.len() == 5,
        reply matches Err(e) ==> items@ == seq![Err::<Document, E>(e)] && next is None,
        reply matches Ok(resp) ==> {
            let found = resp.result_list.result@.filter(
                |h: Hit|
                    h.full_text_url_list matches Some(list) && exists|j: int|
                        0 <= j < list.full_text_url@.len() && (
                        #[trigger] list.full_text_url@[j]).url is Some,
            ).len();
            &&& next is Some <==> {
                &&& resp.result_list.result@.len() > 0
                &&& resp.next_cursor_mark is Some
                &&& resp.next_cursor_mark->0@ != asked.query@[4].1@
                &&& old(run)@.yielded + found < old(run)@.limit
            }
            &&& final(run)@.yielded == old(run)@.yielded + found
            &&& final(run)@.limit == old(run)@.limit
            &&& next matches Some(request) ==> request.query@.len() == 5
                && request.query@[4].1@ == resp.next_cursor_mark->0@
        },
{
    let view = old(run)@.request();
    assert(asked.query.deep_view() == view.query);
    assert(asked.query.deep_view()[4] == (asked.query@[4].0@, asked.query@[4].1@));
    if let Some(request) = next {
        let later = final(run)@.request();
        assert(request.query.deep_view() == later.query);
        assert(request.query.deep_view()[4] == (request.query@[4].0@, request.query@[4].1@));
    }
    if let Ok(resp) = reply {
        let wanted = lemma_documents_of_hits(resp.result_list.result);
        assert(epmc_documents(resp.result_list.result.deep_view()).len() == wanted.len());
    }
}

/// Every document says by which source it was found, by the name that the
/// source goes by.
pub proof fn law_documents_carry_the_name<E>(
    source: EuropePmcSource,
    name: &'static str,
    run: &mut EuropePmcSearch,
    reply: Result<Resp, E>,
    items: Vec<Result<Document, E>>,
)
    requires
        call_ensures(EuropePmcSource::name, (&source,), name),
        old(run)@.yielded < old(run)@.limit,
        call_ensures(EuropePmcSearch::on_reply::<E>, (run, reply), items),
    ensures
        forall|i: int|
            0 <= i < items@.len() ==> (#[trigger] items@[i] matches Ok(doc) ==> doc.source@
                == name@),
{
    if let Ok(resp) = reply {
        let wanted = lemma_documents_of_hits(resp.result_list.result);
        law_each_hit_gives_its_own_document(run, resp, items, wanted);
    }
}

/// Two requests in a row ask the same place for the same search: only the page
/// and its size may differ.
pub proof fn law_next_request_repeats_the_search<E>(
    run: &mut EuropePmcSearch,
    asked: HttpRequest,
    reply: Result<Resp, E>,
    items: Vec<Result<Document, E>>,
    next: HttpRequest,
)
    requires
        call_ensures(EuropePmcSearch::next_request, (&*old(run),), Some(asked)),
        call_ensures(EuropePmcSearch::on_reply::<E>, (run, reply), items),
        call_ensures(EuropePmcSearch::next_request, (&*final(run),), Some(next)),
    ensures
        next.url@ == asked.url@,
        next.authorization.deep_view() == asked.authorization.deep_view(),
        next.query@.len() == asked.query@.len(),
        forall|i: int|
            #![trigger next.query@[i]]
            0 <= i < 5 ==> next.query@[i].0@ == asked.query@[i].0@,
        forall|i: int|
            #![trigger next.query@[i]]
            0 <= i < 3 ==> next.query@[i].1@ == asked.query@[i].1@,
{
    let first = old(run)@.request();
    let second = final(run)@.request();
    assert(asked.deep_view() == first && next.deep_view() == second);
    assert(asked.query.deep_view() == first.query && next.query.deep_view() == second.query);
    assert(asked.query@.len() == 5 && next.query@.len() == 5);
    assert forall|i: int|
        #![trigger next.query@[i]]
        0 <= i < 5 implies (next.query@[i].0@, next.query@[i].1@) == second.query[i] && (
    asked.query@[i].0@, asked.query@[i].1@) == first.query[i] by {
        assert(next.query.deep_view()[i] == (next.query@[i].0@, next.query@[i].1@));
        assert(asked.query.deep_view()[i] == (asked.query@[i].0@, asked.query@[i].1@));
    }
}

} // verus!
