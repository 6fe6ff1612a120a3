use blogpub::header::parse_header;
use blogpub::post::{load_posts, post_id, Post, PublishError, SourceFile};
use blogpub::settings::Settings;

fn settings(short: Option<&str>) -> Settings {
    let mut s = Settings::default();
    s.url = "https://example.org".to_owned();
    s.short_url = short.map(|v| v.to_owned());
    s
}

#[test]
fn id_is_the_number_before_the_first_underscore() {
    let (n, slug) = post_id("0042_hello_world.md").unwrap();
    assert_eq!(n, 42);
    assert_eq!(slug, "hello_world");
    let (n, slug) = post_id("7_x.y.md").unwrap();
    assert_eq!(n, 7);
    assert_eq!(slug, "x.y");
}

#[test]
fn id_ignores_the_slug() {
    assert_eq!(post_id("0123_a.md").unwrap().0, 123);
    assert_eq!(post_id("0123_zz_9_!.md").unwrap().0, 123);
    assert_eq!(post_id("+5_x.md").unwrap().0, 5);
}

#[test]
fn name_without_underscore_is_an_error() {
    assert!(matches!(post_id("0042.md"), Err(PublishError::PostProcessError(_))));
    match post_id("first.md") {
        Err(PublishError::PostProcessError(m)) => assert!(m.contains("first.md")),
        _ => panic!("expected an error"),
    }
    match Post::from_source(&settings(None), "00a1_x.md", "===\n", Some(1)) {
        Err(PublishError::PostProcessError(m)) => assert!(m.contains("00a1_x.md")),
        _ => panic!("expected an error"),
    }
}

#[test]
fn strict_loading_needs_the_delimiter() {
    match Post::from_source_strict(&settings(None), "0001_x.md", "# T\nno end\n", Some(1)) {
        Err(PublishError::PostProcessError(m)) => assert!(m.contains("0001_x.md")),
        _ => panic!("expected an error"),
    }
    let p = Post::from_source_strict(&settings(None), "0001_x.md", "# T\n===\nb\n", Some(1)).unwrap();
    assert_eq!(p.md_body, "b\n");
    assert!(Post::from_source(&settings(None), "0001_x.md", "# T\n", Some(1)).is_ok());
}

#[test]
fn name_without_number_is_an_error() {
    assert!(matches!(post_id("abc_x.md"), Err(PublishError::PostProcessError(_))));
    assert!(matches!(post_id("_x.md"), Err(PublishError::PostProcessError(_))));
    assert!(matches!(
        post_id("18446744073709551616_x.md"),
        Err(PublishError::PostProcessError(_))
    ));
    assert_eq!(post_id("18446744073709551615_x.md").unwrap().0, u64::MAX);
}

#[test]
fn post_is_loaded_with_links_and_creation_time() {
    let text = "# Second\n[news]\n> short\n===\nHello *world*\n";
    let p = Post::from_source(&settings(Some("https://ex.io")), "0002_second.md", text, Some(1000)).unwrap();
    assert_eq!(p.num, 2);
    assert_eq!(p.name, "second");
    assert_eq!(p.link, "https://example.org/0002");
    assert_eq!(p.shortlink, Some("https://ex.io/0002".to_owned()));
    assert_eq!(p.title, "Second");
    assert_eq!(p.tags, vec!["news".to_owned()]);
    assert_eq!(p.summary, Some("short".to_owned()));
    assert_eq!(p.md_body, "Hello *world*\n");
    assert_eq!(p.body, "<p>Hello <em>world</em></p>\n");
    assert_eq!(p.timestamp, Some(1000));
    assert_eq!(p.date, 1000);
}

#[test]
fn explicit_date_wins_over_creation_time() {
    let text = "<!-- Date: Tue, 1 Jul 2003 10:52:37 +0200 -->\n===\n";
    let p = Post::from_source(&settings(None), "12345_x.md", text, Some(5)).unwrap();
    assert_eq!(p.timestamp, Some(1057049557));
    assert_eq!(p.date, 1057049557);
    assert_eq!(p.link, "https://example.org/12345");
    assert_eq!(p.shortlink, None);
}

#[test]
fn unparseable_date_falls_back_to_creation_time() {
    let text = "<!-- Date: not a date -->\n===\n";
    let p = Post::from_source(&settings(None), "0001_x.md", text, Some(77)).unwrap();
    assert_eq!(p.date, 77);
}

#[test]
fn time_before_epoch_is_an_error() {
    let r = Post::from_source(&settings(None), "0001_x.md", "===\n", None);
    assert!(matches!(r, Err(PublishError::General(_))));
    let text = "<!-- Date: Tue, 1 Jul 1969 10:52:37 +0000 -->\n";
    let r = Post::from_source(&settings(None), "0001_x.md", text, Some(1));
    assert!(matches!(r, Err(PublishError::General(_))));
}

#[test]
fn loading_stops_at_the_first_bad_file() {
    let files = vec![
        SourceFile { name: "0001_a.md".to_owned(), text: "# A\n===\n".to_owned(), created: Some(1) },
        SourceFile { name: "bad.md".to_owned(), text: String::new(), created: Some(2) },
        SourceFile { name: "0003_c.md".to_owned(), text: String::new(), created: None },
    ];
    assert!(matches!(load_posts(&settings(None), &files), Err(PublishError::PostProcessError(_))));
    let first = vec![SourceFile { name: "0001_a.md".to_owned(), text: "# A\n===\n".to_owned(), created: Some(1) }];
    assert!(load_posts(&settings(None), &first).is_ok());
}

#[test]
fn loading_keeps_file_order() {
    let files = vec![
        SourceFile { name: "0001_a.md".to_owned(), text: "# A\n===\n".to_owned(), created: Some(1) },
        SourceFile { name: "0002_b.md".to_owned(), text: "# B\n===\n".to_owned(), created: Some(2) },
    ];
    let posts = load_posts(&settings(None), &files).unwrap();
    let nums: Vec<u64> = posts.iter().map(|p| p.num).collect();
    assert_eq!(nums, vec![1, 2]);
}

fn sample_post() -> Post {
    Post {
        link: String::new(),
        shortlink: None,
        title: "Round Trip".to_owned(),
        num: 9,
        tags: vec!["one".to_owned(), "two words".to_owned()],
        md_body: "First line\n\n  indented\n".to_owned(),
        body: String::new(),
        summary: Some("A summary".to_owned()),
        name: "round".to_owned(),
        timestamp: None,
        date: 0,
    }
}

#[test]
fn canonical_text_has_the_documented_shape() {
    let p = sample_post();
    let t = p.canonical_text("Thu, 1 Jan 1970 00:00:00 +0000");
    assert_eq!(
        t,
        "# Round Trip\n<!-- Date: Thu, 1 Jan 1970 00:00:00 +0000 -->\n[\"one\",\"two words\"]\n> A summary\n===\nFirst line\n\n  indented\n"
    );
}

#[test]
fn canonical_text_reads_back() {
    let p = sample_post();
    let h = parse_header(&p.canonical_text("Thu, 1 Jan 1970 00:00:00 +0000"));
    assert_eq!(h.title, p.title);
    assert_eq!(h.tags, p.tags);
    assert_eq!(h.summary, p.summary);
    assert_eq!(h.body, p.md_body);
    assert_eq!(h.date_text, Some("Thu, 1 Jan 1970 00:00:00 +0000".to_owned()));
    assert!(h.closed);
}

#[test]
fn tags_are_written_as_json() {
    let mut p = sample_post();
    p.tags = vec!["a\"b".to_owned(), "c\\d".to_owned(), "e\u{1}".to_owned()];
    p.summary = None;
    let t = p.canonical_text("x");
    assert!(t.contains("\n[\"a\\\"b\",\"c\\\\d\",\"e\\u0001\"]\n===\n"));
}

#[test]
fn written_post_loads_back_with_its_date() {
    let mut p = sample_post();
    p.date = 1057049557;
    p.timestamp = Some(1057049557);
    let t = p.to_text().unwrap();
    assert!(t.starts_with("# Round Trip\n<!-- Date: Tue, 1 Jul 2003 08:52:37 +0000 -->\n"));
    let q = Post::from_source(&settings(None), "0009_round.md", &t, Some(5)).unwrap();
    assert_eq!(q.title, p.title);
    assert_eq!(q.tags, p.tags);
    assert_eq!(q.summary, p.summary);
    assert_eq!(q.md_body, p.md_body);
    assert_eq!(q.timestamp, Some(1057049557));
    assert_eq!(q.date, 1057049557);
}

#[test]
fn post_without_tags_loads_back_without_tags() {
    let mut p = sample_post();
    p.tags = Vec::new();
    p.summary = None;
    let t = p.to_text().unwrap();
    let q = Post::from_source(&settings(None), "0009_round.md", &t, Some(5)).unwrap();
    assert!(q.tags.is_empty());
    assert_eq!(q.summary, None);
    assert_eq!(q.date, 0);
}

#[test]
fn text_needs_a_date_rfc2822_can_write() {
    let mut p = sample_post();
    p.date = 253_402_300_799;
    assert!(p.to_text().unwrap().contains("<!-- Date: Fri, 31 Dec 9999 23:59:59 +0000 -->"));
    p.date = 253_402_300_800;
    assert!(p.to_text().is_none());
}

#[test]
fn draft_follows_the_latest_post() {
    let latest = sample_post();
    let d = Post::draft(&latest, 1234).unwrap();
    assert_eq!(d.num, 10);
    assert_eq!(d.title, "To Be Determined");
    assert_eq!(d.name, "tbd");
    assert_eq!(d.tags, vec!["crap".to_owned()]);
    assert_eq!(d.date, 1234);
    assert_eq!(d.source_file_name(), "10_tbd.md");
    let mut last = sample_post();
    last.num = u64::MAX;
    assert!(Post::draft(&last, 1).is_none());
}
