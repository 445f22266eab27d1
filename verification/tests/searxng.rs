use document_finder::engine::local_searxng::{
    begin_search, config, healthz, SearchParams, SearchPlan, SearchResponse, SearchStart,
};
use document_finder::sources::local_searxng_source::{
    LocalSearxngSource, Outcome, SearxResp, SearxResultRow, SearxngError, SearxngSearch,
};
use document_finder::sources::Document;

fn keywords(words: &[&str]) -> Vec<String> {
    words.iter().map(|w| w.to_string()).collect()
}

fn source(url: &str) -> LocalSearxngSource {
    LocalSearxngSource::new(Some(url.to_string()))
}

fn row(title: &str, author: Option<&str>) -> SearxResultRow {
    SearxResultRow {
        url: "https://r".to_string(),
        title: title.to_string(),
        content: Some("snippet".to_string()),
        engine: Some("brave".to_string()),
        published_date: Some("2020".to_string()),
        author: author.map(String::from),
    }
}

fn document(title: &str, source: &str, authors: &[&str]) -> Document {
    Document {
        title: title.to_string(),
        url: "https://d".to_string(),
        source: source.to_string(),
        authors: keywords(authors),
        year: Some("2019".to_string()),
        abstract_: None,
        identifier: Some("id".to_string()),
    }
}

fn params(q: &str, limit: Option<usize>) -> SearchParams {
    SearchParams {
        q: q.to_string(),
        format: Some("json".to_string()),
        limit,
    }
}

fn plan(q: &str, limit: Option<usize>) -> SearchPlan {
    match begin_search(&params(q, limit)) {
        SearchStart::Search(plan) => plan,
        SearchStart::Answered(_) => panic!("answered at once"),
    }
}

#[test]
fn searxng_words_for_the_embedded_server() {
    for url in ["", "  ", "embedded", " EMBEDDED ", "embedded://Local", "HTTP://localhost:8080"] {
        assert_eq!(source(url).resolve_url(None), None);
        assert_eq!(
            source(url).resolve_url(Some("127.0.0.1:4000")).as_deref(),
            Some("http://127.0.0.1:4000")
        );
    }
    assert_eq!(LocalSearxngSource::new(None).resolve_url(None), None);
}

#[test]
fn searxng_configured_instance_wins() {
    let s = source(" https://searx.example// ");
    assert_eq!(s.name(), "searxng");
    assert_eq!(s.resolve_url(None).as_deref(), Some("https://searx.example"));
    assert_eq!(
        s.resolve_url(Some("127.0.0.1:1")).as_deref(),
        Some("https://searx.example")
    );
    // Only the exact former default is taken for the embedded server.
    assert_eq!(
        source("http://localhost:8080/").resolve_url(None).as_deref(),
        Some("http://localhost:8080")
    );
}

#[test]
fn searxng_not_ready() {
    let e = source("embedded").search(None, &keywords(&["x"]), 3).unwrap_err();
    assert_eq!(e, SearxngError::NotReady);
    assert_eq!(
        e.message(),
        "embedded SearXNG server not yet ready — retry in a moment"
    );
}

#[test]
fn searxng_blank_keywords_need_no_search() {
    assert_eq!(source("http://s").search(None, &keywords(&[]), 3), Ok(None));
    assert_eq!(
        source("http://s").search(None, &keywords(&[" ", ""]), 3),
        Ok(None)
    );
}

#[test]
fn searxng_request() {
    let search = source("http://s/")
        .search(None, &keywords(&["a", "b"]), 0)
        .unwrap()
        .unwrap();
    assert_eq!(search.take_n, 1);
    let request = search.request();
    assert_eq!(request.url, "http://s/search");
    assert_eq!(request.authorization, None);
    let pairs: Vec<(&str, &str)> = request
        .query
        .iter()
        .map(|(n, v)| (n.as_str(), v.as_str()))
        .collect();
    assert_eq!(pairs, vec![("q", "a b"), ("format", "json"), ("limit", "1")]);
}

fn search_of(take_n: usize) -> SearxngSearch {
    SearxngSearch {
        base: "http://s".to_string(),
        query: "q".to_string(),
        take_n,
    }
}

#[test]
fn searxng_failures() {
    let timed_out = search_of(3).on_outcome(Outcome::TimedOut).unwrap_err();
    assert_eq!(timed_out, SearxngError::TimedOut);
    assert_eq!(timed_out.message(), "SearXNG request timed out after 15s");
    let failed = search_of(3)
        .on_outcome(Outcome::Failed("refused".to_string()))
        .unwrap_err();
    assert_eq!(failed.message(), "SearXNG request to http://s failed: refused");
    let unreadable = search_of(3)
        .on_outcome(Outcome::Unreadable("eof".to_string()))
        .unwrap_err();
    assert_eq!(unreadable.message(), "SearXNG returned non-JSON body: eof");
}

#[test]
fn searxng_rows_become_documents() {
    let docs = search_of(2)
        .on_outcome(Outcome::Answered(SearxResp {
            results: vec![
                row("one", Some(" Ada ,, Bob")),
                row("two", None),
                row("three", None),
            ],
        }))
        .unwrap();
    assert_eq!(docs.len(), 2);
    assert_eq!(docs[0].title, "one");
    assert_eq!(docs[0].url, "https://r");
    assert_eq!(docs[0].source, "searxng");
    assert_eq!(docs[0].authors, vec!["Ada", "", "Bob"]);
    assert_eq!(docs[0].year.as_deref(), Some("2020"));
    assert_eq!(docs[0].abstract_.as_deref(), Some("snippet"));
    assert_eq!(docs[0].identifier.as_deref(), Some("brave"));
    assert!(docs[1].authors.is_empty());
}

#[test]
fn server_probe_answers() {
    assert_eq!(healthz(), "ok");
    let c = config("1.2.3");
    assert_eq!(c.instance_name, "document-finder embedded");
    assert_eq!(c.version, "1.2.3");
    assert_eq!(c.backend, "embedded");
}

#[test]
fn server_blank_query() {
    match begin_search(&params(" \n ", Some(7))) {
        SearchStart::Answered(response) => assert_eq!(
            response,
            SearchResponse {
                query: String::new(),
                number_of_results: 0,
                results: vec![],
            }
        ),
        SearchStart::Search(_) => panic!("searched"),
    }
}

#[test]
fn server_reads_a_query() {
    let p = plan("  open  access\tjournals ", None);
    assert_eq!(p.keywords, vec!["open", "access", "journals"]);
    assert_eq!(p.limit, 30);
    assert_eq!(plan("x", Some(0)).limit, 1);
    assert_eq!(plan("x", Some(64)).limit, 64);
    assert_eq!(plan("x", Some(1000)).limit, 100);
}

#[test]
fn server_answers_with_the_first_documents() {
    let mut search = plan(" a b ", Some(2)).search;
    assert!(search.on_item(Err("engine down")));
    assert!(search.on_item::<&str>(Ok(document("one", "meta_search/brave", &["Ada", "Bob"]))));
    assert!(search.on_item(Err("engine down")));
    assert!(!search.on_item::<&str>(Ok(document("two", "arxiv", &[]))));
    assert!(!search.on_item::<&str>(Ok(document("three", "arxiv", &[]))));
    let response = search.finish();
    assert_eq!(response.query, "a b");
    assert_eq!(response.number_of_results, 2);
    assert_eq!(response.results.len(), 2);
    let first = &response.results[0];
    assert_eq!(first.url, "https://d");
    assert_eq!(first.title, "one");
    assert_eq!(first.content, "");
    assert_eq!(first.engine, "brave");
    assert_eq!(first.published_date.as_deref(), Some("2019"));
    assert_eq!(first.author.as_deref(), Some("Ada, Bob"));
    assert_eq!(response.results[1].title, "two");
    assert_eq!(response.results[1].engine, "arxiv");
    assert_eq!(response.results[1].author, None);
}

#[test]
fn served_document_is_read_back() {
    let mut search = plan("q", None).search;
    search.on_item::<&str>(Ok(document("one", "meta_search/brave", &["Ada L.", "Bob"])));
    let served = search.finish().results.remove(0);
    let received = SearxResultRow {
        url: served.url,
        title: served.title,
        content: Some(served.content),
        engine: Some(served.engine),
        published_date: served.published_date,
        author: served.author,
    };
    let docs = search_of(1)
        .on_outcome(Outcome::Answered(SearxResp {
            results: vec![received],
        }))
        .unwrap();
    assert_eq!(docs[0].title, "one");
    assert_eq!(docs[0].authors, vec!["Ada L.", "Bob"]);
    assert_eq!(docs[0].year.as_deref(), Some("2019"));
    assert_eq!(docs[0].abstract_.as_deref(), Some(""));
    assert_eq!(docs[0].identifier.as_deref(), Some("brave"));
}
