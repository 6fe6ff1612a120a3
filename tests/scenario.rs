use blogpub::post::{load_posts, SourceFile};
use blogpub::publish::{
    archive_listing, category_file_name, category_tags, chain_renders, page_file_name,
    updated_category, PageRender,
};
use blogpub::select::select_latest;
use blogpub::settings::Settings;

#[test]
fn two_posts_end_to_end() {
    let mut settings = Settings::default();
    settings.url = "https://example.org".to_owned();
    let dir = vec!["0002_second.md".to_owned(), "0001_first.md".to_owned()];
    let chosen = select_latest(&dir, 10);
    assert_eq!(chosen, vec!["0001_first.md".to_owned(), "0002_second.md".to_owned()]);
    let texts = |n: &str| -> String {
        if n == "0001_first.md" {
            "# First\n===\nOne\n".to_owned()
        } else {
            "# Second\n[news]\n===\nTwo\n".to_owned()
        }
    };
    let files: Vec<SourceFile> = chosen
        .iter()
        .map(|n| SourceFile { name: n.clone(), text: texts(n), created: Some(100) })
        .collect();
    let mut posts = load_posts(&settings, &files).unwrap();
    posts.reverse();
    assert_eq!(posts[0].num, 2);
    assert_eq!(posts[1].num, 1);
    assert!(posts[1].tags.is_empty());

    let plan = chain_renders(posts.len());
    assert_eq!(
        plan,
        vec![
            PageRender { post: 0, prev: Some(1), next: None, mandatory: true },
            PageRender { post: 1, prev: None, next: Some(0), mandatory: false },
        ]
    );
    assert_eq!(page_file_name(posts[plan[0].post].num), "0002.php");
    assert_eq!(page_file_name(posts[plan[1].post].num), "0001.php");

    let tags = category_tags(&posts);
    assert_eq!(tags, vec!["news".to_owned()]);
    assert_eq!(category_file_name(&tags[0]), "news.inc");
    let news = updated_category("", &posts[0]).unwrap();
    assert_eq!(news, "<li><a href=\"https://example.org/0002\">Second</a></li>\n");

    assert_eq!(
        archive_listing(&posts),
        "<ul>\n<li><a href=\"https://example.org/0002\">Second</a></li>\n<li><a href=\"https://example.org/0001\">First</a></li>\n</ul>\n"
    );
}
