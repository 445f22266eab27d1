use document_finder::sources::europe_pmc::{
    pick_url, EuropePmcSource, FullTextUrl, FullTextUrlList, Hit, Resp, ResultList, BASE,
};

fn ft(style: Option<&str>, url: &str) -> FullTextUrl {
    FullTextUrl {
        document_style: style.map(String::from),
        url: Some(url.to_string()),
    }
}

fn hit(title: Option<&str>, authors: Option<&str>, url: Option<&str>) -> Hit {
    Hit {
        title: title.map(String::from),
        author_string: authors.map(String::from),
        pub_year: Some("2021".to_string()),
        abstract_text: Some("about".to_string()),
        doi: Some("10.1/x".to_string()),
        full_text_url_list: url.map(|u| FullTextUrlList {
            full_text_url: vec![ft(Some("html"), u)],
        }),
    }
}

fn page(mark: Option<&str>, hits: Vec<Hit>) -> Result<Resp, String> {
    Ok(Resp {
        next_cursor_mark: mark.map(String::from),
        result_list: ResultList { result: hits },
    })
}

fn keywords(words: &[&str]) -> Vec<String> {
    words.iter().map(|w| w.to_string()).collect()
}

fn param(query: &[(String, String)], name: &str) -> String {
    query.iter().find(|(n, _)| n == name).unwrap().1.clone()
}

#[test]
fn prefers_pdf_then_first_full_text_url() {
    // PDF documentStyle wins even when an HTML link comes first.
    let list = FullTextUrlList {
        full_text_url: vec![
            ft(Some("html"), "https://x/landing"),
            ft(Some("pdf"), "https://x/paper.pdf"),
        ],
    };
    assert_eq!(pick_url(&list).as_deref(), Some("https://x/paper.pdf"));

    // No PDF → fall back to the first full-text URL (downloader resolves it).
    let no_pdf = FullTextUrlList {
        full_text_url: vec![ft(Some("html"), "https://x/landing")],
    };
    assert_eq!(pick_url(&no_pdf).as_deref(), Some("https://x/landing"));

    // No URLs at all → nothing to download.
    let none = FullTextUrlList {
        full_text_url: vec![],
    };
    assert_eq!(pick_url(&none), None);
}

#[test]
fn pdf_label_is_read_in_any_case() {
    let list = FullTextUrlList {
        full_text_url: vec![ft(None, "https://x/a"), ft(Some("PdF"), "https://x/b")],
    };
    assert_eq!(pick_url(&list).as_deref(), Some("https://x/b"));
}

#[test]
fn pdf_label_without_url_is_no_link() {
    let label_only = || FullTextUrl {
        document_style: Some("pdf".to_string()),
        url: None,
    };
    let with_later_pdf = FullTextUrlList {
        full_text_url: vec![
            label_only(),
            ft(Some("html"), "https://x/landing"),
            ft(Some("pdf"), "https://x/paper.pdf"),
        ],
    };
    assert_eq!(
        pick_url(&with_later_pdf).as_deref(),
        Some("https://x/paper.pdf")
    );
    let without = FullTextUrlList {
        full_text_url: vec![label_only(), ft(Some("html"), "https://x/landing")],
    };
    assert_eq!(pick_url(&without).as_deref(), Some("https://x/landing"));
    let nothing = FullTextUrlList {
        full_text_url: vec![label_only()],
    };
    assert_eq!(pick_url(&nothing), None);
}

#[test]
fn epmc_first_request() {
    let source = EuropePmcSource::new();
    assert_eq!(source.name(), "europe_pmc");
    let search = source.search(&keywords(&["gut", "flora"]), 250);
    let request = search.next_request().unwrap();
    assert_eq!(request.url, BASE);
    assert_eq!(request.authorization, None);
    let pairs: Vec<(&str, &str)> = request
        .query
        .iter()
        .map(|(n, v)| (n.as_str(), v.as_str()))
        .collect();
    assert_eq!(
        pairs,
        vec![
            ("query", "gut flora AND (OPEN_ACCESS:Y)"),
            ("resultType", "core"),
            ("format", "json"),
            ("pageSize", "100"),
            ("cursorMark", "*"),
        ]
    );
}

#[test]
fn epmc_limit_zero_asks_nothing() {
    let search = EuropePmcSource::new().search(&keywords(&["x"]), 0);
    assert_eq!(search.next_request(), None);
}

#[test]
fn epmc_hit_becomes_document() {
    let mut search = EuropePmcSource::new().search(&keywords(&["x"]), 5);
    let items = search.on_reply(page(
        Some("m1"),
        vec![
            hit(None, Some(" Smith J., Doe A. ,, ."), Some("https://x/1")),
            hit(Some("no url"), None, None),
        ],
    ));
    assert_eq!(items.len(), 1);
    let doc = items[0].as_ref().unwrap();
    assert_eq!(doc.title, "Untitled");
    assert_eq!(doc.url, "https://x/1");
    assert_eq!(doc.source, "europe_pmc");
    assert_eq!(doc.authors, vec!["Smith J", "Doe A"]);
    assert_eq!(doc.year.as_deref(), Some("2021"));
    assert_eq!(doc.abstract_.as_deref(), Some("about"));
    assert_eq!(doc.identifier.as_deref(), Some("10.1/x"));
    let request = search.next_request().unwrap();
    assert_eq!(param(&request.query, "cursorMark"), "m1");
    assert_eq!(param(&request.query, "pageSize"), "4");
}

#[test]
fn epmc_repeated_mark_is_the_last_page() {
    let mut search = EuropePmcSource::new().search(&keywords(&["x"]), 5);
    let items = search.on_reply(page(Some("*"), vec![hit(Some("t"), None, Some("u"))]));
    assert_eq!(items.len(), 1);
    assert_eq!(search.next_request(), None);
}

#[test]
fn epmc_missing_mark_is_the_last_page() {
    let mut search = EuropePmcSource::new().search(&keywords(&["x"]), 5);
    search.on_reply(page(None, vec![hit(Some("t"), None, Some("u"))]));
    assert_eq!(search.next_request(), None);
}

#[test]
fn epmc_page_without_hits_ends_the_search() {
    let mut search = EuropePmcSource::new().search(&keywords(&["x"]), 5);
    assert!(search.on_reply(page(Some("m1"), vec![])).is_empty());
    assert_eq!(search.next_request(), None);
}

#[test]
fn epmc_page_without_urls_goes_on() {
    let mut search = EuropePmcSource::new().search(&keywords(&["x"]), 5);
    let items = search.on_reply(page(Some("m1"), vec![hit(Some("t"), None, None)]));
    assert!(items.is_empty());
    assert!(search.next_request().is_some());
}

#[test]
fn epmc_error_is_the_last_item() {
    let mut search = EuropePmcSource::new().search(&keywords(&["x"]), 5);
    let items = search.on_reply(Err("down".to_string()));
    assert_eq!(items, vec![Err("down".to_string())]);
    assert_eq!(search.next_request(), None);
}

#[test]
fn epmc_yields_no_more_than_the_limit() {
    let mut search = EuropePmcSource::new().search(&keywords(&["x"]), 2);
    let items = search.on_reply(page(
        Some("m1"),
        vec![
            hit(Some("a"), None, Some("1")),
            hit(Some("b"), None, Some("2")),
            hit(Some("c"), None, Some("3")),
        ],
    ));
    let titles: Vec<&str> = items
        .iter()
        .map(|i| i.as_ref().unwrap().title.as_str())
        .collect();
    assert_eq!(titles, vec!["a", "b"]);
    assert_eq!(search.next_request(), None);
}

#[test]
fn epmc_run_is_the_first_documents_of_its_pages() {
    let mut search = EuropePmcSource::new().search(&keywords(&["x"]), 5);
    let replies = vec![
        page(Some("m1"), vec![hit(Some("a"), None, Some("1"))]),
        page(Some("m2"), vec![hit(Some("b"), None, None)]),
        page(Some("m3"), vec![hit(Some("c"), None, Some("3"))]),
        Err("down".to_string()),
        page(Some("m4"), vec![hit(Some("d"), None, Some("4"))]),
    ];
    let mut seen = Vec::new();
    for reply in replies {
        if search.next_request().is_none() {
            break;
        }
        for item in search.on_reply(reply) {
            seen.push(item.map(|doc| doc.title));
        }
    }
    assert_eq!(
        seen,
        vec![
            Ok("a".to_string()),
            Ok("c".to_string()),
            Err("down".to_string()),
        ]
    );
}
