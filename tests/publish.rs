use blogpub::publish::{
    archive_listing, category_file_name, category_tags, chain_renders, feed_mod_time,
    page_file_name, updated_category, PageRender,
};
use blogpub::post::Post;

fn post(num: u64, title: &str, tags: &[&str], date: u64) -> Post {
    Post {
        link: format!("https://example.org/{:04}", num),
        shortlink: None,
        title: title.to_owned(),
        num,
        tags: tags.iter().map(|t| t.to_string()).collect(),
        md_body: String::new(),
        body: String::new(),
        summary: None,
        name: String::new(),
        timestamp: Some(date),
        date,
    }
}

#[test]
fn three_posts_chain_two_pages() {
    let r = chain_renders(3);
    assert_eq!(
        r,
        vec![
            PageRender { post: 0, prev: Some(1), next: None, mandatory: true },
            PageRender { post: 1, prev: Some(2), next: Some(0), mandatory: false },
        ]
    );
}

#[test]
fn short_lists_chain_what_there_is() {
    assert!(chain_renders(0).is_empty());
    assert_eq!(chain_renders(1), vec![PageRender { post: 0, prev: None, next: None, mandatory: true }]);
    assert_eq!(
        chain_renders(2),
        vec![
            PageRender { post: 0, prev: Some(1), next: None, mandatory: true },
            PageRender { post: 1, prev: None, next: Some(0), mandatory: false },
        ]
    );
    assert_eq!(chain_renders(10).len(), 2);
}

#[test]
fn page_names_are_padded_to_four_digits() {
    assert_eq!(page_file_name(2), "0002.php");
    assert_eq!(page_file_name(0), "0000.php");
    assert_eq!(page_file_name(1234567), "1234567.php");
}

#[test]
fn category_update_appends_once() {
    let p = post(2, "Second", &["news"], 5);
    let once = updated_category("", &p).unwrap();
    assert_eq!(once, "<li><a href=\"https://example.org/0002\">Second</a></li>\n");
    assert_eq!(updated_category(&once, &p), None);
    let older = "<li><a href=\"https://example.org/0001\">First</a></li>\n";
    let both = updated_category(older, &p).unwrap();
    assert_eq!(both, format!("{}{}", older, once));
    assert_eq!(updated_category(&both, &p), None);
}

#[test]
fn categories_come_from_the_newest_post() {
    let posts = vec![post(2, "B", &["news", "rust"], 2), post(1, "A", &["old"], 1)];
    assert_eq!(category_tags(&posts), vec!["news".to_owned(), "rust".to_owned()]);
    assert!(category_tags(&Vec::new()).is_empty());
    assert_eq!(category_file_name("news"), "news.inc");
}

#[test]
fn archive_lists_posts_in_order() {
    let posts = vec![post(2, "Second", &[], 2), post(1, "First", &[], 1)];
    let a = archive_listing(&posts);
    assert_eq!(
        a,
        "<ul>\n<li><a href=\"https://example.org/0002\">Second</a></li>\n<li><a href=\"https://example.org/0001\">First</a></li>\n</ul>\n"
    );
    assert_eq!(archive_listing(&posts), a);
    assert_eq!(archive_listing(&Vec::new()), "<ul>\n</ul>\n");
}

#[test]
fn feed_time_is_the_last_posts_date() {
    let posts = vec![post(2, "B", &[], 20), post(1, "A", &[], 10)];
    assert_eq!(feed_mod_time(&posts, 99), 10);
    assert_eq!(feed_mod_time(&Vec::new(), 99), 99);
}
