//! Posts: loading one from its file name and text, and writing one back in
//! the canonical on-disk shape.

use vstd::prelude::*;
use crate::header::{header_of, parse_header, Header, HeaderView};
use crate::outside::{
    markdown_html, parse_rfc2822, render_markdown, rfc2822_seconds, rfc2822_text, tags_json,
    json_array, LAST_RFC2822_SECOND,
};
use crate::settings::Settings;
use crate::text::{
    append_chars, append_str, chars_of, copy_range, padded_decimal, parse_u64, parse_u64_chars,
    push_char, push_padded_decimal, string_of, string_views, decimal, push_decimal, opt_view,
    has_substring, occurs_at,
};

verus! {

/// The errors of a run.
#[derive(Debug)]
pub enum PublishError {
    /// Bad or unreadable settings.
    SettingsError(String),
    /// A file could not be read or written.
    IoError(std::io::Error),
    /// A post file's name does not give a post number.
    PostProcessError(String),
    /// A tag list could not be written.
    TagError(serde_json::Error),
    /// A template could not be rendered.
    TeraError(tera::Error),
    /// Anything else, such as a timestamp before the Unix epoch.
    General(String),
}

/// Which error a `PublishError` is.
pub enum ErrorKind {
    Settings,
    Io,
    PostProcess,
    Tag,
    Tera,
    General,
}

impl View for PublishError {
    type V = ErrorKind;

    open spec fn view(&self) -> ErrorKind {
        match self {
            PublishError::SettingsError(_) => ErrorKind::Settings,
            PublishError::IoError(_) => ErrorKind::Io,
            PublishError::PostProcessError(_) => ErrorKind::PostProcess,
            PublishError::TagError(_) => ErrorKind::Tag,
            PublishError::TeraError(_) => ErrorKind::Tera,
            PublishError::General(_) => ErrorKind::General,
        }
    }
}

/// The position of the last `c` in `s`.
pub open spec fn last_index_of(s: Seq<char>, c: char) -> Option<int>
    decreases s.len(),
{
    if s.len() == 0 {
        None
    } else if s.last() == c {
        Some(s.len() - 1)
    } else {
        last_index_of(s.drop_last(), c)
    }
}

/// The position of the first `c` in `s`.
pub open spec fn first_index_of(s: Seq<char>, c: char) -> Option<int>
    decreases s.len(),
{
    if s.len() == 0 {
        None
    } else {
        match first_index_of(s.drop_last(), c) {
            Some(i) => Some(i),
            None => if s.last() == c {
                Some(s.len() - 1)
            } else {
                None
            },
        }
    }
}

/// A file name without its extension, as `Path::file_stem` gives it: all of
/// it where it has no dot but a leading one, else what comes before the last
/// dot.
pub open spec fn file_stem(name: Seq<char>) -> Seq<char> {
    if name == seq!['.', '.'] {
        name
    } else {
        match last_index_of(name, '.') {
            Some(i) => if i > 0 {
                name.take(i)
            } else {
                name
            },
            None => name,
        }
    }
}

/// The post number and slug that a file name `NUMBER_SLUG.EXT` gives: the
/// stem is split at its first underscore, and what comes before it must read
/// as a `u64`.
pub open spec fn file_id(name: Seq<char>) -> Option<(u64, Seq<char>)> {
    let stem = file_stem(name);
    match first_index_of(stem, '_') {
        Some(i) => match parse_u64(stem.take(i)) {
            Some(n) => Some((n, stem.skip(i + 1))),
            None => None,
        },
        None => None,
    }
}

fn first_index(v: &Vec<char>, c: char) -> (r: Option<usize>)
    ensures
        r matches Some(i) ==> first_index_of(v@, c) == Some(i as int) && i < v.len() && v@[i as int] == c,
        r is None ==> first_index_of(v@, c) is None,
{
    let mut found: Option<usize> = None;
    assert(v@.take(0) =~= Seq::<char>::empty());
    for i in 0..v.len()
        invariant
            found matches Some(k) ==> first_index_of(v@.take(i as int), c) == Some(k as int) && k < i
                && v@[k as int] == c,
            found is None ==> first_index_of(v@.take(i as int), c) is None,
    {
        assert(v@.take(i + 1).drop_last() == v@.take(i as int));
        if found.is_none() && v[i] == c {
            found = Some(i);
        }
    }
    assert(v@.take(v.len() as int) == v@);
    found
}

fn last_index(v: &Vec<char>, c: char) -> (r: Option<usize>)
    ensures
        r matches Some(i) ==> last_index_of(v@, c) == Some(i as int) && i < v.len() && v@[i as int] == c,
        r is None ==> last_index_of(v@, c) is None,
{
    let mut found: Option<usize> = None;
    assert(v@.take(0) =~= Seq::<char>::empty());
    for i in 0..v.len()
        invariant
            found matches Some(k) ==> last_index_of(v@.take(i as int), c) == Some(k as int) && k < i
                && v@[k as int] == c,
            found is None ==> last_index_of(v@.take(i as int), c) is None,
    {
        assert(v@.take(i + 1).drop_last() == v@.take(i as int));
        if v[i] == c {
            found = Some(i);
        }
    }
    assert(v@.take(v.len() as int) == v@);
    found
}

/// `what`, followed by the file name.
fn naming(file_name: &str, what: &str) -> (r: String)
    ensures
        has_substring(r@, file_name@),
{
    let mut msg = String::new();
    append_str(&mut msg, what);
    append_str(&mut msg, file_name);
    let ghost at = what@.len() as int;
    assert(msg@.subrange(at, at + file_name@.len()) =~= file_name@);
    assert(occurs_at(msg@, file_name@, at));
    msg
}

/// The post number and slug of a file name; an error where the stem has no
/// underscore or what comes before it is not a number.
pub fn post_id(file_name: &str) -> (r: Result<(u64, String), PublishError>)
    ensures
        file_id(file_name@) is None <==> r is Err,
        r matches Err(e) ==> e@ == ErrorKind::PostProcess,
        r matches Err(PublishError::PostProcessError(m)) ==> has_substring(m@, file_name@),
        r matches Ok((n, slug)) ==> file_id(file_name@) == Some((n, slug@)),
{
    let name = chars_of(file_name);
    let stem = if name.len() == 2 && name[0] == '.' && name[1] == '.' {
        assert(name@ =~= seq!['.', '.']);
        copy_range(&name, 0, name.len())
    } else {
        assert(name@ != seq!['.', '.']) by {
            if name@ == seq!['.', '.'] {
                assert(name@[0] == '.' && name@[1] == '.');
            }
        }
        match last_index(&name, '.') {
            Some(i) => if i > 0 {
                copy_range(&name, 0, i)
            } else {
                copy_range(&name, 0, name.len())
            },
            None => copy_range(&name, 0, name.len()),
        }
    };
    assert(stem@ == file_stem(name@));
    match first_index(&stem, '_') {
        Some(i) => {
            let digits = copy_range(&stem, 0, i);
            match parse_u64_chars(&digits) {
                Some(n) => {
                    let slug = copy_range(&stem, i + 1, stem.len());
                    assert(slug@ == stem@.skip(i + 1));
                    Ok((n, string_of(&slug)))
                },
                None => {
                    let msg = naming(file_name, "Invalid post number in file name ");
                    Err(PublishError::PostProcessError(msg))
                },
            }
        },
        None => {
            let msg = naming(file_name, "Missing number separator in file name ");
            Err(PublishError::PostProcessError(msg))
        },
    }
}

} // verus!

verus! {

/// One post, as loaded from its file.
#[derive(Clone, Debug)]
pub struct Post {
    /// The URL of the post: the base URL, `/`, the number padded to 4 digits.
    pub link: String,
    /// The same on the short base URL, if there is one.
    pub shortlink: Option<String>,
    /// The title.
    pub title: String,
    /// The post number, from the file name.
    pub num: u64,
    /// The tags, as written.
    pub tags: Vec<String>,
    /// The markdown body.
    pub md_body: String,
    /// The body as HTML.
    pub body: String,
    /// The summary, if the header has one.
    pub summary: Option<String>,
    /// The slug, from the file name.
    pub name: String,
    /// The instant of the post in seconds since the Unix epoch, once loaded.
    pub timestamp: Option<u64>,
    /// The same instant, for templates that want a plain number.
    pub date: u64,
}

/// The mathematical content of a `Post`.
pub struct PostView {
    pub link: Seq<char>,
    pub shortlink: Option<Seq<char>>,
    pub title: Seq<char>,
    pub num: u64,
    pub tags: Seq<Seq<char>>,
    pub md_body: Seq<char>,
    pub body: Seq<char>,
    pub summary: Option<Seq<char>>,
    pub name: Seq<char>,
    pub timestamp: Option<u64>,
    pub date: u64,
}

impl View for Post {
    type V = PostView;

    open spec fn view(&self) -> PostView {
        PostView {
            link: self.link@,
            shortlink: opt_view(self.shortlink),
            title: self.title@,
            num: self.num,
            tags: string_views(self.tags@),
            md_body: self.md_body@,
            body: self.body@,
            summary: opt_view(self.summary),
            name: self.name@,
            timestamp: self.timestamp,
            date: self.date,
        }
    }
}

/// The link of post `num` under base URL `base`.
pub open spec fn permalink(base: Seq<char>, num: u64) -> Seq<char> {
    base + seq!['/'] + padded_decimal(num as nat, 4)
}

/// The instant of a post: the explicit date where the header gives one,
/// else the file's creation time; `None` where that instant is before the
/// Unix epoch (`created` is `None` for a creation time before it).
pub open spec fn post_time(explicit: Option<i64>, created: Option<u64>) -> Option<u64> {
    match explicit {
        Some(t) => if t >= 0 {
            Some(t as u64)
        } else {
            None
        },
        None => created,
    }
}

/// The post made from file `name` with header `h`, or the error that stops it.
pub open spec fn assembled(
    url: Seq<char>,
    short_url: Option<Seq<char>>,
    name: Seq<char>,
    h: HeaderView,
    explicit: Option<i64>,
    created: Option<u64>,
    html: Seq<char>,
) -> Result<PostView, ErrorKind> {
    match file_id(name) {
        None => Err(ErrorKind::PostProcess),
        Some((num, slug)) => match post_time(explicit, created) {
            None => Err(ErrorKind::General),
            Some(t) => Ok(
                PostView {
                    link: permalink(url, num),
                    shortlink: match short_url {
                        Some(s) => Some(permalink(s, num)),
                        None => None,
                    },
                    title: h.title,
                    num,
                    tags: h.tags,
                    md_body: h.body,
                    body: html,
                    summary: h.summary,
                    name: slug,
                    timestamp: Some(t),
                    date: t,
                },
            ),
        },
    }
}

/// The explicit instant that a header's date text gives.
pub open spec fn explicit_time(h: HeaderView) -> Option<i64> {
    match h.date_text {
        Some(d) => rfc2822_seconds(d),
        None => None,
    }
}

/// The post loaded from file `name` with text `text`.
pub open spec fn loaded(
    url: Seq<char>,
    short_url: Option<Seq<char>>,
    name: Seq<char>,
    text: Seq<char>,
    created: Option<u64>,
) -> Result<PostView, ErrorKind> {
    let h = header_of(text);
    assembled(url, short_url, name, h, explicit_time(h), created, markdown_html(h.body))
}

/// What a result of loading holds.
pub open spec fn loaded_view(r: Result<Post, PublishError>) -> Result<PostView, ErrorKind> {
    match r {
        Ok(p) => Ok(p@),
        Err(e) => Err(e@),
    }
}

fn link_of(base: &String, num: u64) -> (r: String)
    ensures
        r@ == permalink(base@, num),
{
    let mut r = base.clone();
    push_char(&mut r, '/');
    let mut digits: Vec<char> = Vec::new();
    push_padded_decimal(&mut digits, num, 4);
    append_chars(&mut r, &digits);
    r
}

impl Post {
    /// The post made from file `file_name`, its parsed header, the instant
    /// that the header's date names (if it names one), the file's creation
    /// time (`None` if before the Unix epoch) and the body's HTML.
    pub fn assemble(
        settings: &Settings,
        file_name: &str,
        header: Header,
        explicit: Option<i64>,
        created: Option<u64>,
        html: String,
    ) -> (r: Result<Post, PublishError>)
        ensures
            loaded_view(r) == assembled(
                settings.url@,
                opt_view(settings.short_url),
                file_name@,
                header@,
                explicit,
                created,
                html@,
            ),
            r matches Err(PublishError::PostProcessError(m)) ==> has_substring(m@, file_name@),
    {
        let (num, slug) = match post_id(file_name) {
            Ok(id) => id,
            Err(e) => return Err(e),
        };
        let time = match explicit {
            Some(t) => if t >= 0 {
                t as u64
            } else {
                return Err(PublishError::General("Timestamp before the Unix epoch".to_owned()));
            },
            None => match created {
                Some(c) => c,
                None => {
                    return Err(PublishError::General("Timestamp before the Unix epoch".to_owned()));
                },
            },
        };
        let shortlink = match &settings.short_url {
            Some(s) => Some(link_of(s, num)),
            None => None,
        };
        Ok(
            Post {
                link: link_of(&settings.url, num),
                shortlink,
                title: header.title,
                num,
                tags: header.tags,
                md_body: header.body,
                body: html,
                summary: header.summary,
                name: slug,
                timestamp: Some(time),
                date: time,
            },
        )
    }

    /// Loads the post as `from_source` does, but refuses a file whose header
    /// never reaches the delimiter line.
    pub fn from_source_strict(settings: &Settings, file_name: &str, text: &str, created: Option<u64>) -> (r:
        Result<Post, PublishError>)
        ensures
            !header_of(text@).closed ==> (r matches Err(e) && e@ == ErrorKind::PostProcess),
            header_of(text@).closed ==> loaded_view(r) == loaded(
                settings.url@,
                opt_view(settings.short_url),
                file_name@,
                text@,
                created,
            ),
            r matches Err(PublishError::PostProcessError(m)) ==> has_substring(m@, file_name@),
    {
        let header = parse_header(text);
        if !header.closed {
            return Err(PublishError::PostProcessError(naming(file_name, "No header delimiter in file ")));
        }
        Post::from_source(settings, file_name, text, created)
    }

    /// Loads the post of file `file_name` with text `text`, created at
    /// `created` seconds after the Unix epoch (`None` if before it).
    pub fn from_source(settings: &Settings, file_name: &str, text: &str, created: Option<u64>) -> (r:
        Result<Post, PublishError>)
        ensures
            loaded_view(r) == loaded(
                settings.url@,
                opt_view(settings.short_url),
                file_name@,
                text@,
                created,
            ),
            r matches Err(PublishError::PostProcessError(m)) ==> has_substring(m@, file_name@),
    {
        let header = parse_header(text);
        let explicit = match &header.date_text {
            Some(d) => parse_rfc2822(d.as_str()),
            None => None,
        };
        let html = render_markdown(header.body.as_str());
        Post::assemble(settings, file_name, header, explicit, created, html)
    }
}

} // verus!

verus! {

/// A post file as read from the source directory.
pub struct SourceFile {
    /// The file's name, without its directory.
    pub name: String,
    /// The file's text.
    pub text: String,
    /// The file's creation time in seconds since the Unix epoch; `None` if
    /// before it.
    pub created: Option<u64>,
}

/// The posts loaded from `files` in order, or the error of the first that
/// fails.
pub open spec fn loaded_all(url: Seq<char>, short_url: Option<Seq<char>>, files: Seq<SourceFile>) -> Result<
    Seq<PostView>,
    ErrorKind,
>
    decreases files.len(),
{
    if files.len() == 0 {
        Ok(Seq::empty())
    } else {
        match loaded_all(url, short_url, files.drop_last()) {
            Err(e) => Err(e),
            Ok(ps) => {
                let f = files.last();
                match loaded(url, short_url, f.name@, f.text@, f.created) {
                    Err(e) => Err(e),
                    Ok(p) => Ok(ps.push(p)),
                }
            },
        }
    }
}

/// The views of a sequence of posts.
pub open spec fn post_views(ps: Seq<Post>) -> Seq<PostView> {
    ps.map_values(|p: Post| p@)
}

/// Loads the post of each file, in order; stops at the first that fails.
pub fn load_posts(settings: &Settings, files: &Vec<SourceFile>) -> (r: Result<Vec<Post>, PublishError>)
    ensures
        match r {
            Ok(ps) => loaded_all(settings.url@, opt_view(settings.short_url), files@) == Ok::<
                Seq<PostView>,
                ErrorKind,
            >(post_views(ps@)),
            Err(e) => loaded_all(settings.url@, opt_view(settings.short_url), files@) == Err::<
                Seq<PostView>,
                ErrorKind,
            >(e@),
        },
{
    let ghost url = settings.url@;
    let ghost short = opt_view(settings.short_url);
    let mut posts: Vec<Post> = Vec::new();
    assert(files@.take(0) =~= Seq::<SourceFile>::empty());
    assert(post_views(posts@) =~= Seq::<PostView>::empty());
    for i in 0..files.len()
        invariant
            url == settings.url@,
            short == opt_view(settings.short_url),
            loaded_all(url, short, files@.take(i as int)) == Ok::<Seq<PostView>, ErrorKind>(
                post_views(posts@),
            ),
    {
        assert(files@.take(i + 1).drop_last() == files@.take(i as int));
        let f = &files[i];
        let p = Post::from_source(settings, f.name.as_str(), f.text.as_str(), f.created);
        match p {
            Ok(p) => {
                let ghost before = posts@;
                let ghost pv = p@;
                posts.push(p);
                assert(post_views(posts@) =~= post_views(before).push(pv));
            },
            Err(e) => {
                assert(loaded_all(url, short, files@.take(i + 1)) == Err::<Seq<PostView>, ErrorKind>(e@));
                proof {
                    lemma_first_error_stays(url, short, files@, i + 1);
                }
                return Err(e);
            },
        }
    }
    assert(files@.take(files.len() as int) == files@);
    Ok(posts)
}

/// Once loading a prefix of the files fails, loading all of them fails with
/// the same error.
proof fn lemma_first_error_stays(
    url: Seq<char>,
    short: Option<Seq<char>>,
    files: Seq<SourceFile>,
    k: int,
)
    requires
        0 <= k <= files.len(),
        loaded_all(url, short, files.take(k)) is Err,
    ensures
        loaded_all(url, short, files) == loaded_all(url, short, files.take(k)),
    decreases files.len() - k,
{
    if k < files.len() {
        assert(files.take(k + 1).drop_last() == files.take(k));
        lemma_first_error_stays(url, short, files, k + 1);
    } else {
        assert(files.take(k) == files);
    }
}

} // verus!

verus! {

/// The summary line of the canonical shape, if there is a summary.
pub open spec fn summary_line(summary: Option<Seq<char>>) -> Seq<char> {
    match summary {
        Some(s) => seq!['>', ' '] + s + seq!['\n'],
        None => Seq::empty(),
    }
}

/// The date-comment line of the canonical shape, without its line feed.
pub open spec fn date_line(stamp: Seq<char>) -> Seq<char> {
    seq!['<', '!', '-', '-', ' ', 'D', 'a', 't', 'e', ':', ' '] + stamp + seq![' ', '-', '-', '>']
}

/// The tag line of the canonical shape: the tags as a JSON array; no line
/// at all where there are no tags.
pub open spec fn tag_line(tags: Seq<Seq<char>>) -> Seq<char> {
    if tags.len() == 0 {
        Seq::empty()
    } else {
        json_array(tags) + seq!['\n']
    }
}

/// The canonical on-disk shape of a post: the title line, the date comment,
/// the tag line, the summary line if any, the delimiter, then the markdown
/// body.
pub open spec fn canonical_text(
    title: Seq<char>,
    stamp: Seq<char>,
    tags: Seq<Seq<char>>,
    summary: Option<Seq<char>>,
    body: Seq<char>,
) -> Seq<char> {
    seq!['#', ' '] + title + seq!['\n'] + date_line(stamp) + seq!['\n'] + tag_line(tags)
        + summary_line(summary) + seq!['=', '=', '=', '\n'] + body
}

/// The file name of a post in the source directory: the number, `_`, the
/// slug, `.md`.
pub open spec fn source_name(num: u64, slug: Seq<char>) -> Seq<char> {
    decimal(num as nat) + seq!['_'] + slug + seq!['.', 'm', 'd']
}

impl Post {
    /// The post in its canonical shape, with `stamp` as its date text.
    pub fn canonical_text(&self, stamp: &str) -> (r: String)
        ensures
            r@ == canonical_text(self.title@, stamp@, string_views(self.tags@), opt_view(self.summary), self.md_body@),
    {
        let mut r = String::new();
        push_char(&mut r, '#');
        push_char(&mut r, ' ');
        append_str(&mut r, self.title.as_str());
        push_char(&mut r, '\n');
        append_str(&mut r, "<!-- Date: ");
        append_str(&mut r, stamp);
        append_str(&mut r, " -->");
        proof {
            reveal_strlit("<!-- Date: ");
            reveal_strlit(" -->");
        }
        push_char(&mut r, '\n');
        let ghost head = r@;
        if self.tags.len() > 0 {
            let tags = tags_json(&self.tags);
            append_str(&mut r, tags.as_str());
            push_char(&mut r, '\n');
        }
        assert(r@ =~= head + tag_line(string_views(self.tags@)));
        let ghost head = r@;
        match &self.summary {
            Some(s) => {
                push_char(&mut r, '>');
                push_char(&mut r, ' ');
                append_str(&mut r, s.as_str());
                push_char(&mut r, '\n');
                assert(r@ =~= head + summary_line(opt_view(self.summary)));
            },
            None => {
                assert(r@ =~= head + summary_line(opt_view(self.summary)));
            },
        }
        push_char(&mut r, '=');
        push_char(&mut r, '=');
        push_char(&mut r, '=');
        push_char(&mut r, '\n');
        append_str(&mut r, self.md_body.as_str());
        assert(r@ =~= canonical_text(self.title@, stamp@, string_views(self.tags@), opt_view(self.summary), self.md_body@));
        r
    }

    /// The post in its canonical shape, its date comment giving `date` in
    /// RFC 2822 form; `None` where `date` is past the year 9999, which that
    /// form cannot write.
    pub fn to_text(&self) -> (r: Option<String>)
        ensures
            r is Some <==> self.date <= LAST_RFC2822_SECOND as u64,
            r matches Some(t) ==> exists|stamp: Seq<char>|
                rfc2822_seconds(stamp) == Some(self.date as i64) && !stamp.contains('\n')
                    && t@ == canonical_text(
                    self.title@,
                    stamp,
                    string_views(self.tags@),
                    opt_view(self.summary),
                    self.md_body@,
                ),
    {
        if self.date > LAST_RFC2822_SECOND as u64 {
            return None;
        }
        let stamp = rfc2822_text(self.date as i64);
        Some(self.canonical_text(stamp.as_str()))
    }

    /// The name of this post's file in the source directory.
    pub fn source_file_name(&self) -> (r: String)
        ensures
            r@ == source_name(self.num, self.name@),
    {
        let mut v: Vec<char> = Vec::new();
        push_decimal(&mut v, self.num);
        v.push('_');
        let mut r = string_of(&v);
        append_str(&mut r, self.name.as_str());
        append_str(&mut r, ".md");
        proof {
            reveal_strlit(".md");
        }
        assert(r@ =~= source_name(self.num, self.name@));
        r
    }

    /// A new post to be written after `latest`: the next number, placeholder
    /// title, slug, tag and summary, dated `now`. `None` where `latest` has
    /// the largest number there is.
    pub fn draft(latest: &Post, now: u64) -> (r: Option<Post>)
        ensures
            r is None <==> latest.num == u64::MAX,
            r matches Some(p) ==> {
                &&& p.num == latest.num + 1
                &&& p.title@ == "To Be Determined"@
                &&& p.name@ == "tbd"@
                &&& string_views(p.tags@) == seq!["crap"@]
                &&& opt_view(p.summary) == Some(
                    "Remember to change the name of this file to match the short summary!"@,
                )
                &&& p.date == now
                &&& p.timestamp is None
                &&& p.md_body@.len() == 0
                &&& p.body@.len() == 0
                &&& p.link@.len() == 0
                &&& p.shortlink is None
            },
    {
        if latest.num == u64::MAX {
            return None;
        }
        let tags: Vec<String> = vec!["crap".to_owned()];
        let p = Post {
            link: String::new(),
            shortlink: None,
            title: "To Be Determined".to_owned(),
            num: latest.num + 1,
            tags,
            md_body: String::new(),
            body: String::new(),
            summary: Some("Remember to change the name of this file to match the short summary!".to_owned()),
            name: "tbd".to_owned(),
            timestamp: None,
            date: now,
        };
        assert(string_views(p.tags@) =~= seq!["crap"@]);
        Some(p)
    }
}

} // verus!

verus! {

proof fn lemma_first_index_none(s: Seq<char>, c: char)
    requires
        forall|i: int| 0 <= i < s.len() ==> s[i] != c,
    ensures
        first_index_of(s, c) is None,
    decreases s.len(),
{
    if s.len() > 0 {
        lemma_first_index_none(s.drop_last(), c);
    }
}

proof fn lemma_first_index_found(s: Seq<char>, k: int, c: char)
    requires
        0 <= k < s.len(),
        s[k] == c,
        forall|i: int| 0 <= i < k ==> s[i] != c,
    ensures
        first_index_of(s, c) == Some(k),
    decreases s.len(),
{
    if s.len() == k + 1 {
        lemma_first_index_none(s.drop_last(), c);
    } else {
        lemma_first_index_found(s.drop_last(), k, c);
    }
}

/// The post number of a file named `DIGITS_SLUG.md` is the value of its
/// digits, whatever the slug holds, and the slug is the rest of the stem.
pub proof fn lemma_file_id_from_digits(digits: Seq<char>, slug: Seq<char>)
    requires
        digits.len() > 0,
        crate::text::all_digits(digits),
        crate::text::digits_value(digits) <= u64::MAX,
    ensures
        file_id(digits + seq!['_'] + slug + seq!['.', 'm', 'd']) == Some(
            (crate::text::digits_value(digits) as u64, slug),
        ),
{
    let stem = digits + seq!['_'] + slug;
    let name = stem + seq!['.', 'm', 'd'];
    let n = name.len();
    assert(name.drop_last().drop_last() =~= stem.push('.'));
    assert(last_index_of(stem.push('.'), '.') == Some(n - 3));
    assert(name.drop_last() =~= stem.push('.').push('m'));
    assert(last_index_of(name.drop_last(), '.') == Some(n - 3));
    assert(last_index_of(name, '.') == Some(n - 3));
    assert(name != seq!['.', '.']) by {
        assert(name.len() >= 4);
    }
    assert(name.take(n - 3) =~= stem);
    assert(file_stem(name) == stem);
    assert forall|i: int| 0 <= i < digits.len() implies stem[i] != '_' by {
        assert(stem[i] == digits[i]);
        assert(crate::text::is_digit(digits[i]));
    }
    lemma_first_index_found(stem, digits.len() as int, '_');
    assert(stem.take(digits.len() as int) =~= digits);
    assert(digits[0] != '+') by {
        assert(crate::text::is_digit(digits[0]));
    }
    assert(stem.skip(digits.len() as int + 1) =~= slug);
}

proof fn lemma_last_index_range(s: Seq<char>, c: char)
    ensures
        last_index_of(s, c) matches Some(i) ==> 0 <= i < s.len(),
    decreases s.len(),
{
    if s.len() > 0 {
        lemma_last_index_range(s.drop_last(), c);
    }
}

/// A file name without an underscore gives no post number: loading it is an
/// error.
pub proof fn lemma_file_id_needs_underscore(name: Seq<char>)
    requires
        !name.contains('_'),
    ensures
        file_id(name) is None,
{
    let stem = file_stem(name);
    lemma_last_index_range(name, '.');
    assert forall|i: int| 0 <= i < stem.len() implies stem[i] != '_' by {
        assert(stem[i] == name[i]);
    }
    lemma_first_index_none(stem, '_');
}

} // verus!

verus! {

/// A post file whose name gives a number and a slug loads as the post of
/// that number and slug, with the links of that number, whatever its text
/// holds, once the post's instant is known.
pub proof fn lemma_loaded_id(
    url: Seq<char>,
    short_url: Option<Seq<char>>,
    name: Seq<char>,
    text: Seq<char>,
    created: Option<u64>,
)
    requires
        file_id(name) is Some,
        post_time(explicit_time(header_of(text)), created) is Some,
    ensures
        loaded(url, short_url, name, text, created) matches Ok(p) && p.num == (file_id(name)->0).0
            && p.name == (file_id(name)->0).1 && p.link == permalink(url, p.num),
{
}

} // verus!
