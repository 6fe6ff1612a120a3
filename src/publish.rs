//! What a run writes besides the source: the chained post pages, the
//! category listings, the archive listing and the feed's modification time.

use vstd::prelude::*;
use crate::post::{post_views, Post, PostView};
use crate::text::{
    append_str, chars_of, contains, has_substring, occurs_at, padded_decimal, push_padded_decimal,
    string_of, string_views,
};

verus! {

/// The extension of the rendered pages.
pub const PAGE_EXTENSION: &'static str = "php";

/// The alias that points at the newest page.
pub const INDEX_FILE: &'static str = "index.php";

/// The template of a post page.
pub const PAGE_TEMPLATE: &'static str = "index.php";

/// The archive listing.
pub const ARCHIVE_FILE: &'static str = "archive.inc";

/// The RSS feed, and its template.
pub const RSS_FILE: &'static str = "feed";

pub const RSS_TEMPLATE: &'static str = "template.rss";

/// The CDF feed, and its template.
pub const CDF_FILE: &'static str = "cdf";

pub const CDF_TEMPLATE: &'static str = "template.cdf";

/// One page to render: the post at index `post` of the newest-first list,
/// with the posts at `prev` and `next` as its neighbours. The run fails when
/// a mandatory page fails; other pages are best effort.
#[derive(Clone, Copy, Debug, PartialEq, Eq, Structural)]
pub struct PageRender {
    pub post: usize,
    pub prev: Option<usize>,
    pub next: Option<usize>,
    pub mandatory: bool,
}

/// The pages to render for a newest-first list of `count` posts: the newest
/// (mandatory), linked back to the one before it; then that one (best
/// effort), linked to the one before it and forward to the newest. Older
/// pages were written by earlier runs.
pub open spec fn chain_plan(count: nat) -> Seq<PageRender> {
    if count == 0 {
        Seq::empty()
    } else if count == 1 {
        seq![PageRender { post: 0, prev: None, next: None, mandatory: true }]
    } else {
        seq![
            PageRender { post: 0, prev: Some(1), next: None, mandatory: true },
            PageRender {
                post: 1,
                prev: if count >= 3 { Some(2) } else { None },
                next: Some(0),
                mandatory: false,
            },
        ]
    }
}

/// The pages to render for a newest-first list of `count` posts.
pub fn chain_renders(count: usize) -> (r: Vec<PageRender>)
    ensures
        r@ == chain_plan(count as nat),
        count >= 3 ==> r@ == seq![
            PageRender { post: 0, prev: Some(1), next: None, mandatory: true },
            PageRender { post: 1, prev: Some(2), next: Some(0), mandatory: false },
        ],
{
    let mut r: Vec<PageRender> = Vec::new();
    if count == 0 {
    } else if count == 1 {
        r.push(PageRender { post: 0, prev: None, next: None, mandatory: true });
    } else {
        r.push(PageRender { post: 0, prev: Some(1), next: None, mandatory: true });
        r.push(
            PageRender {
                post: 1,
                prev: if count >= 3 { Some(2) } else { None },
                next: Some(0),
                mandatory: false,
            },
        );
    }
    assert(r@ =~= chain_plan(count as nat));
    r
}

/// The file name of the page of post `num`.
pub open spec fn page_name(num: u64) -> Seq<char> {
    padded_decimal(num as nat, 4) + seq!['.', 'p', 'h', 'p']
}

/// The file name of the page of post `num`: the number padded with zeros to
/// four digits, then `.php`.
pub fn page_file_name(num: u64) -> (r: String)
    ensures
        r@ == page_name(num),
{
    let mut v: Vec<char> = Vec::new();
    push_padded_decimal(&mut v, num, 4);
    v.push('.');
    v.push('p');
    v.push('h');
    v.push('p');
    assert(v@ =~= page_name(num));
    string_of(&v)
}

/// The list item that links to `link` with text `title`.
pub open spec fn list_item(link: Seq<char>, title: Seq<char>) -> Seq<char> {
    seq!['<', 'l', 'i', '>', '<', 'a', ' ', 'h', 'r', 'e', 'f', '=', '"'] + link + seq!['"', '>']
        + title + seq!['<', '/', 'a', '>', '<', '/', 'l', 'i', '>', '\n']
}

/// The list item of a post.
pub fn list_item_of(post: &Post) -> (r: String)
    ensures
        r@ == list_item(post.link@, post.title@),
{
    let mut r = String::new();
    append_str(&mut r, "<li><a href=\"");
    append_str(&mut r, post.link.as_str());
    append_str(&mut r, "\">");
    append_str(&mut r, post.title.as_str());
    append_str(&mut r, "</a></li>\n");
    proof {
        reveal_strlit("<li><a href=\"");
        reveal_strlit("\">");
        reveal_strlit("</a></li>\n");
    }
    assert(r@ =~= list_item(post.link@, post.title@));
    r
}

/// The category listing of tag `tag`.
pub open spec fn category_name(tag: Seq<char>) -> Seq<char> {
    tag + seq!['.', 'i', 'n', 'c']
}

/// The file name of the category listing of `tag`: the tag, then `.inc`.
pub fn category_file_name(tag: &str) -> (r: String)
    ensures
        r@ == category_name(tag@),
{
    let mut v = chars_of(tag);
    v.push('.');
    v.push('i');
    v.push('n');
    v.push('c');
    string_of(&v)
}

/// The tags whose listings a run updates: those of the newest post (the
/// first of the list) only.
pub fn category_tags(posts: &Vec<Post>) -> (r: Vec<String>)
    ensures
        posts.len() == 0 ==> r@.len() == 0,
        posts.len() > 0 ==> string_views(r@) == string_views(posts@[0].tags@),
{
    let mut r: Vec<String> = Vec::new();
    if posts.len() == 0 {
        return r;
    }
    let tags = &posts[0].tags;
    for i in 0..tags.len()
        invariant
            tags == posts@[0].tags,
            string_views(r@) == string_views(tags@).take(i as int),
    {
        let ghost before = string_views(r@);
        r.push(tags[i].clone());
        assert(string_views(r@) =~= before.push(tags@[i as int]@));
        assert(string_views(tags@).take(i + 1) =~= string_views(tags@).take(i as int).push(
            tags@[i as int]@,
        ));
    }
    assert(string_views(tags@).take(tags.len() as int) == string_views(tags@));
    r
}

/// A category listing after a run for a post with link `link` and title
/// `title`: unchanged where it already holds the link, else with the post's
/// list item appended.
pub open spec fn category_after(content: Seq<char>, link: Seq<char>, title: Seq<char>) -> Seq<char> {
    if has_substring(content, link) {
        content
    } else {
        content + list_item(link, title)
    }
}

/// The new text of a category listing whose text is `content` (empty for a
/// listing that does not exist yet) for the newest post `post`; `None` where
/// the listing already holds the post's link and is left as it is.
pub fn updated_category(content: &str, post: &Post) -> (r: Option<String>)
    ensures
        r is None <==> has_substring(content@, post.link@),
        r matches Some(t) ==> t@ == category_after(content@, post.link@, post.title@),
{
    let c = chars_of(content);
    let l = chars_of(post.link.as_str());
    if contains(&c, &l) {
        return None;
    }
    let mut t = string_of(&c);
    let item = list_item_of(post);
    append_str(&mut t, item.as_str());
    Some(t)
}

/// The list items of `ps`, in order.
pub open spec fn archive_items(ps: Seq<PostView>) -> Seq<char>
    decreases ps.len(),
{
    if ps.len() == 0 {
        Seq::empty()
    } else {
        archive_items(ps.drop_last()) + list_item(ps.last().link, ps.last().title)
    }
}

/// The archive listing of the working set `ps`.
pub open spec fn archive_text(ps: Seq<PostView>) -> Seq<char> {
    seq!['<', 'u', 'l', '>', '\n'] + archive_items(ps) + seq!['<', '/', 'u', 'l', '>', '\n']
}

/// The archive listing of the working set: one list item per post, in the
/// order of `posts`, inside one list.
pub fn archive_listing(posts: &Vec<Post>) -> (r: String)
    ensures
        r@ == archive_text(post_views(posts@)),
{
    let ghost ps = post_views(posts@);
    let mut r = String::new();
    append_str(&mut r, "<ul>\n");
    proof {
        reveal_strlit("<ul>\n");
    }
    assert(ps.take(0) =~= Seq::<PostView>::empty());
    for i in 0..posts.len()
        invariant
            ps == post_views(posts@),
            r@ == seq!['<', 'u', 'l', '>', '\n'] + archive_items(ps.take(i as int)),
    {
        assert(ps.take(i + 1).drop_last() == ps.take(i as int));
        assert(ps[i as int] == posts@[i as int]@);
        let item = list_item_of(&posts[i]);
        append_str(&mut r, item.as_str());
        assert(r@ =~= seq!['<', 'u', 'l', '>', '\n'] + archive_items(ps.take(i + 1)));
    }
    assert(ps.take(posts.len() as int) == ps);
    append_str(&mut r, "</ul>\n");
    proof {
        reveal_strlit("</ul>\n");
    }
    assert(r@ =~= archive_text(ps));
    r
}

/// The feed's modification time: the date of the last post of the list,
/// the oldest of the working set; `now` for an empty list.
pub fn feed_mod_time(posts: &Vec<Post>, now: u64) -> (r: u64)
    ensures
        posts.len() == 0 ==> r == now,
        posts.len() > 0 ==> r == posts@.last().date,
{
    if posts.len() == 0 {
        now
    } else {
        posts[posts.len() - 1].date
    }
}

} // verus!

verus! {

/// Updating a category listing for the same post twice leaves it as the
/// first update did: the post's list item is never added a second time.
pub proof fn lemma_category_update_idempotent(content: Seq<char>, link: Seq<char>, title: Seq<char>)
    ensures
        category_after(category_after(content, link, title), link, title) == category_after(
            content,
            link,
            title,
        ),
{
    if !has_substring(content, link) {
        let once = content + list_item(link, title);
        let at: int = content.len() as int + 13;
        assert(once.subrange(at, at + link.len()) =~= link);
        assert(occurs_at(once, link, at));
    }
}

proof fn lemma_items_prefix(ps: Seq<PostView>, j: int)
    requires
        0 <= j <= ps.len(),
    ensures
        archive_items(ps.take(j)).len() <= archive_items(ps).len(),
        archive_items(ps).subrange(0, archive_items(ps.take(j)).len() as int) == archive_items(
            ps.take(j),
        ),
    decreases ps.len(),
{
    if j == ps.len() {
        assert(ps.take(j) == ps);
        assert(archive_items(ps).subrange(0, archive_items(ps).len() as int) =~= archive_items(ps));
    } else {
        let d = ps.drop_last();
        assert(d.take(j) == ps.take(j));
        lemma_items_prefix(d, j);
        let a = archive_items(d);
        let b = archive_items(ps.take(j));
        assert(archive_items(ps) == a + list_item(ps.last().link, ps.last().title));
        assert((a + list_item(ps.last().link, ps.last().title)).subrange(0, b.len() as int)
            =~= a.subrange(0, b.len() as int));
    }
}

/// The archive lists the posts of the working set in their order: the list
/// item of post `i` stands right after the list opening and the items of the
/// posts before it.
pub proof fn lemma_archive_in_order(ps: Seq<PostView>, i: int)
    requires
        0 <= i < ps.len(),
    ensures
        occurs_at(
            archive_text(ps),
            list_item(ps[i].link, ps[i].title),
            5 + archive_items(ps.take(i)).len() as int,
        ),
{
    let upto = ps.take(i + 1);
    assert(upto.drop_last() == ps.take(i));
    lemma_items_prefix(ps, i + 1);
    let before = archive_items(ps.take(i));
    let item = list_item(ps[i].link, ps[i].title);
    assert(archive_items(upto) == before + item);
    let all = archive_items(ps);
    let text = archive_text(ps);
    let at: int = 5 + before.len() as int;
    assert(all.subrange(0, (before + item).len() as int) == before + item);
    assert(text.subrange(at, at + item.len()) =~= all.subrange(before.len() as int, (before + item).len() as int));
    assert((before + item).subrange(before.len() as int, (before + item).len() as int) =~= item);
    assert(all.subrange(before.len() as int, (before + item).len() as int) =~= all.subrange(
        0,
        (before + item).len() as int,
    ).subrange(before.len() as int, (before + item).len() as int));
}

proof fn lemma_items_same(ps: Seq<PostView>, qs: Seq<PostView>)
    requires
        ps.len() == qs.len(),
        forall|i: int| 0 <= i < ps.len() ==> #[trigger] ps[i].link == qs[i].link && ps[i].title == qs[i].title,
    ensures
        archive_items(ps) == archive_items(qs),
    decreases ps.len(),
{
    if ps.len() > 0 {
        let (dp, dq) = (ps.drop_last(), qs.drop_last());
        assert forall|i: int| 0 <= i < dp.len() implies #[trigger] dp[i].link == dq[i].link && dp[i].title == dq[i].title by {
            assert(dp[i] == ps[i] && dq[i] == qs[i]);
        }
        lemma_items_same(dp, dq);
        assert(ps[ps.len() - 1].link == qs[ps.len() - 1].link);
    }
}

/// The archive depends on the posts' links and titles alone, in order: two
/// runs on working sets that agree on them write the same text.
pub proof fn lemma_archive_deterministic(ps: Seq<PostView>, qs: Seq<PostView>)
    requires
        ps.len() == qs.len(),
        forall|i: int| 0 <= i < ps.len() ==> #[trigger] ps[i].link == qs[i].link && ps[i].title == qs[i].title,
    ensures
        archive_text(ps) == archive_text(qs),
{
    lemma_items_same(ps, qs);
}

} // verus!
