use document_finder::sources::core_source::{Author, CoreSource, Resp, Work, BASE};

fn keywords(words: &[&str]) -> Vec<String> {
    words.iter().map(|w| w.to_string()).collect()
}

fn work(title: Option<&str>, url: Option<&str>) -> Work {
    Work {
        title: title.map(String::from),
        authors: vec![
            Author {
                name: Some("Ada".to_string()),
            },
            Author { name: None },
            Author {
                name: Some("Bob".to_string()),
            },
        ],
        year_published: Some(1999),
        abstract_: None,
        download_url: url.map(String::from),
        doi: Some("10.2/y".to_string()),
    }
}

fn page(works: Vec<Work>) -> Result<Resp, String> {
    Ok(Resp { results: works })
}

#[test]
fn core_without_key_contributes_nothing() {
    assert!(CoreSource::new(None)
        .search(&keywords(&["x"]), 5)
        .is_none());
    assert!(CoreSource::new(Some(" \t".to_string()))
        .search(&keywords(&["x"]), 5)
        .is_none());
}

#[test]
fn core_first_request() {
    let source = CoreSource::new(Some(" k1 ".to_string()));
    assert_eq!(source.name(), "core");
    let search = source.search(&keywords(&["deep", "sea"]), 1000).unwrap();
    let request = search.next_request().unwrap();
    assert_eq!(request.url, BASE);
    assert_eq!(request.authorization.as_deref(), Some("Bearer  k1 "));
    let pairs: Vec<(&str, &str)> = request
        .query
        .iter()
        .map(|(n, v)| (n.as_str(), v.as_str()))
        .collect();
    assert_eq!(
        pairs,
        vec![("q", "deep sea"), ("limit", "100"), ("offset", "0")]
    );
}

#[test]
fn core_record_becomes_document() {
    let source = CoreSource::new(Some("k".to_string()));
    let mut search = source.search(&keywords(&["x"]), 5).unwrap();
    let items = search.on_reply(page(vec![
        work(None, Some("https://c/1")),
        work(Some("empty"), Some("")),
        work(Some("none"), None),
    ]));
    assert_eq!(items.len(), 1);
    let doc = items[0].as_ref().unwrap();
    assert_eq!(doc.title, "Untitled");
    assert_eq!(doc.url, "https://c/1");
    assert_eq!(doc.source, "core");
    assert_eq!(doc.authors, vec!["Ada", "Bob"]);
    assert_eq!(doc.year.as_deref(), Some("1999"));
    assert_eq!(doc.abstract_, None);
    assert_eq!(doc.identifier.as_deref(), Some("10.2/y"));
    // Three records where five were asked for: that was the last page.
    assert_eq!(search.next_request(), None);
}

#[test]
fn core_negative_year_keeps_its_sign() {
    let source = CoreSource::new(Some("k".to_string()));
    let mut search = source.search(&keywords(&["x"]), 2).unwrap();
    let mut ancient = work(Some("a"), Some("u"));
    ancient.year_published = Some(i64::MIN);
    let mut undated = work(Some("b"), Some("v"));
    undated.year_published = None;
    let items = search.on_reply(page(vec![ancient, undated]));
    assert_eq!(
        items[0].as_ref().unwrap().year.as_deref(),
        Some("-9223372036854775808")
    );
    assert_eq!(items[1].as_ref().unwrap().year, None);
}

#[test]
fn core_full_page_is_followed_by_the_next() {
    let source = CoreSource::new(Some("k".to_string()));
    let mut search = source.search(&keywords(&["x"]), 3).unwrap();
    let items = search.on_reply(page(vec![
        work(Some("a"), Some("1")),
        work(Some("b"), None),
        work(Some("c"), None),
    ]));
    assert_eq!(items.len(), 1);
    let request = search.next_request().unwrap();
    assert_eq!(request.query[1].1, "2");
    assert_eq!(request.query[2].1, "3");
}

#[test]
fn core_empty_page_ends_the_search() {
    let source = CoreSource::new(Some("k".to_string()));
    let mut search = source.search(&keywords(&["x"]), 3).unwrap();
    assert!(search.on_reply(page(vec![])).is_empty());
    assert_eq!(search.next_request(), None);
}

#[test]
fn core_error_is_the_last_item() {
    let source = CoreSource::new(Some("k".to_string()));
    let mut search = source.search(&keywords(&["x"]), 3).unwrap();
    assert_eq!(
        search.on_reply(Err("401".to_string())),
        vec![Err("401".to_string())]
    );
    assert_eq!(search.next_request(), None);
}

#[test]
fn core_yields_no_more_than_the_limit() {
    let source = CoreSource::new(Some("k".to_string()));
    let mut search = source.search(&keywords(&["x"]), 1).unwrap();
    let items = search.on_reply(page(vec![
        work(Some("a"), Some("1")),
        work(Some("b"), Some("2")),
    ]));
    assert_eq!(items.len(), 1);
    assert_eq!(items[0].as_ref().unwrap().title, "a");
    assert_eq!(search.next_request(), None);
    let none = source.search(&keywords(&["x"]), 0).unwrap();
    assert_eq!(none.next_request(), None);
}

#[test]
fn core_run_is_the_first_documents_of_its_pages() {
    let source = CoreSource::new(Some("k".to_string()));
    let mut search = source.search(&keywords(&["x"]), 3).unwrap();
    let pages = vec![
        vec![
            work(Some("a"), Some("1")),
            work(Some("b"), None),
            work(Some("c"), None),
        ],
        vec![work(Some("d"), None), work(Some("e"), Some("2"))],
        vec![work(Some("f"), Some("3")), work(Some("g"), Some("4"))],
        vec![work(Some("h"), Some("5"))],
    ];
    let mut titles = Vec::new();
    let mut taken = 0;
    for works in pages {
        if search.next_request().is_none() {
            break;
        }
        taken += 1;
        for item in search.on_reply(page(works)) {
            titles.push(item.unwrap().title);
        }
    }
    assert_eq!(titles, vec!["a", "e", "f"]);
    assert_eq!(taken, 3);
}
