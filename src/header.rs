//! The header micro-format of a post file: a few marked lines, then a
//! delimiter line, then the markdown body.

use vstd::prelude::*;
use crate::text::{
    append_chars, char_views, chars_of, copy_range, extend_chars, has_prefix, lines, matches_at,
    occurs_at, opt_view, pieces, push_char, split_lines, split_pieces,
    starts_with, string_of, string_views, trim, trimmed,
};

verus! {

/// The line that ends the header.
pub open spec fn delimiter() -> Seq<char> {
    seq!['=', '=', '=']
}

/// The start of a date-comment line.
pub open spec fn date_marker() -> Seq<char> {
    seq!['<', '!', '-', '-', ' ', 'D', 'a', 't', 'e', ':']
}

/// The end of a date comment.
pub open spec fn comment_end() -> Seq<char> {
    seq![' ', '-', '-', '>']
}

/// The start of the title line.
pub open spec fn title_marker() -> Seq<char> {
    seq!['#', ' ']
}

/// The start of a summary line.
pub open spec fn summary_marker() -> Seq<char> {
    seq!['>', ' ']
}

/// What a header line is, by its first characters. The markers begin with
/// different characters, so at most one rule applies to a line.
pub enum LineKind {
    Blank,
    Delimiter,
    Tags,
    Date,
    Title,
    Summary,
    Other,
}

/// The kind of header line `l`.
pub open spec fn line_kind(l: Seq<char>) -> LineKind {
    if l.len() == 0 {
        LineKind::Blank
    } else if l == delimiter() {
        LineKind::Delimiter
    } else if l[0] == '[' {
        LineKind::Tags
    } else if has_prefix(l, date_marker()) {
        LineKind::Date
    } else if has_prefix(l, title_marker()) {
        LineKind::Title
    } else if has_prefix(l, summary_marker()) {
        LineKind::Summary
    } else {
        LineKind::Other
    }
}

/// The kind of header line `l`.
pub fn classify(l: &Vec<char>) -> (r: LineKind)
    ensures
        r == line_kind(l@),
{
    let delim: Vec<char> = vec!['=', '=', '='];
    let date: Vec<char> = vec!['<', '!', '-', '-', ' ', 'D', 'a', 't', 'e', ':'];
    let title: Vec<char> = vec!['#', ' '];
    let summary: Vec<char> = vec!['>', ' '];
    assert(delim@ == delimiter());
    assert(date@ == date_marker());
    assert(title@ == title_marker());
    assert(summary@ == summary_marker());
    if l.len() == 0 {
        LineKind::Blank
    } else if l.len() == 3 && starts_with(l, &delim) {
        assert(l@ == l@.subrange(0, 3));
        LineKind::Delimiter
    } else if l[0] == '[' {
        assert(l@ != delimiter()) by {
            if l@ == delimiter() {
                assert(l@[0] == '=');
            }
        }
        LineKind::Tags
    } else if starts_with(l, &date) {
        assert(l@ != delimiter());
        LineKind::Date
    } else if starts_with(l, &title) {
        assert(l@ != delimiter()) by {
            if l@ == delimiter() {
                assert(l@.subrange(0, 2)[0] == '=');
            }
        }
        LineKind::Title
    } else if starts_with(l, &summary) {
        assert(l@ != delimiter()) by {
            if l@ == delimiter() {
                assert(l@.subrange(0, 2)[0] == '=');
            }
        }
        LineKind::Summary
    } else {
        assert(l@ != delimiter()) by {
            if l@ == delimiter() {
                assert(l@.len() == 3 && l@.subrange(0, 3) == delim@);
            }
        }
        LineKind::Other
    }
}

} // verus!

verus! {

/// Whether `c` is stripped from a tag line before it is split.
pub open spec fn is_tag_mark(c: char) -> bool {
    c == '[' || c == ']' || c == '"'
}

/// `s` without brackets and double quotes.
pub open spec fn without_marks(s: Seq<char>) -> Seq<char>
    decreases s.len(),
{
    if s.len() == 0 {
        s
    } else if is_tag_mark(s.last()) {
        without_marks(s.drop_last())
    } else {
        without_marks(s.drop_last()).push(s.last())
    }
}

/// The tags of a tag line: brackets and quotes dropped, split at commas,
/// each piece trimmed; order, case and repeats are kept.
pub open spec fn tag_list(l: Seq<char>) -> Seq<Seq<char>> {
    pieces(without_marks(l), ',').map_values(|p: Seq<char>| trim(p))
}

/// The last position in `lo..=hi` where `p` occurs in `s`.
pub open spec fn last_occurrence(s: Seq<char>, p: Seq<char>, lo: int, hi: int) -> Option<int>
    decreases hi - lo + 1,
{
    if hi < lo {
        None
    } else if occurs_at(s, p, hi) {
        Some(hi)
    } else {
        last_occurrence(s, p, lo, hi - 1)
    }
}

/// The timestamp text of a date-comment line `<!-- Date: TEXT -->`: the text
/// between `<!-- Date: ` and the last ` -->`, followed by whatever comes after
/// that. `None` where the line does not have that shape.
pub open spec fn date_field(l: Seq<char>) -> Option<Seq<char>> {
    if l.len() >= 11 && has_prefix(l, date_marker()) && l[10] == ' ' {
        match last_occurrence(l, comment_end(), 11, l.len() - 4) {
            Some(j) => Some(l.subrange(11, j) + l.subrange(j + 4, l.len() as int)),
            None => None,
        }
    } else {
        None
    }
}

fn without_marks_chars(s: &Vec<char>) -> (r: Vec<char>)
    ensures
        r@ == without_marks(s@),
{
    let mut r: Vec<char> = Vec::new();
    assert(s@.take(0) =~= Seq::<char>::empty());
    for i in 0..s.len()
        invariant
            r@ == without_marks(s@.take(i as int)),
    {
        assert(s@.take(i + 1).drop_last() == s@.take(i as int));
        let c = s[i];
        if !(c == '[' || c == ']' || c == '"') {
            r.push(c);
        }
    }
    assert(s@.take(s.len() as int) == s@);
    r
}

/// The tags of tag line `l`.
pub fn parse_tags(l: &Vec<char>) -> (r: Vec<String>)
    ensures
        string_views(r@) == tag_list(l@),
{
    let bare = without_marks_chars(l);
    let parts = split_pieces(&bare, ',');
    let mut r: Vec<String> = Vec::new();
    for i in 0..parts.len()
        invariant
            char_views(parts@) == pieces(without_marks(l@), ','),
            string_views(r@) == tag_list(l@).take(i as int),
    {
        let t = trimmed(&parts[i]);
        let ghost before = r@;
        r.push(string_of(&t));
        assert(string_views(r@) =~= string_views(before).push(t@));
        assert(char_views(parts@)[i as int] == parts@[i as int]@);
        assert(tag_list(l@).take(i + 1) =~= tag_list(l@).take(i as int).push(t@));
    }
    assert(tag_list(l@).take(parts.len() as int) =~= tag_list(l@));
    r
}

/// The timestamp text of date-comment line `l`.
pub fn date_text(l: &Vec<char>) -> (r: Option<String>)
    ensures
        r is Some <==> date_field(l@) is Some,
        r matches Some(s) ==> s@ == date_field(l@)->0,
{
    let marker: Vec<char> = vec!['<', '!', '-', '-', ' ', 'D', 'a', 't', 'e', ':'];
    let end: Vec<char> = vec![' ', '-', '-', '>'];
    assert(marker@ == date_marker());
    assert(end@ == comment_end());
    if !(l.len() >= 11 && starts_with(l, &marker) && l[10] == ' ') {
        return None;
    }
    let mut j: usize = l.len() - 4;
    loop
        invariant
            11 <= l.len(),
            has_prefix(l@, date_marker()),
            l@[10] == ' ',
            end@ == comment_end(),
            j <= l.len() - 4,
            last_occurrence(l@, end@, 11, l.len() - 4) == last_occurrence(l@, end@, 11, j as int),
        decreases j,
    {
        if j < 11 {
            assert(last_occurrence(l@, end@, 11, j as int) is None);
            return None;
        }
        if matches_at(l, &end, j) {
            assert(last_occurrence(l@, end@, 11, j as int) == Some(j as int));
            let mut t = copy_range(l, 11, j);
            let rest = copy_range(l, j + 4, l.len());
            extend_chars(&mut t, &rest);
            return Some(string_of(&t));
        }
        j -= 1;
    }
}

} // verus!

verus! {

/// What the header parser takes from one file.
pub struct Header {
    /// The title line's text, without `# `, trimmed; empty when absent.
    pub title: String,
    /// The last tag line's tags; empty when absent.
    pub tags: Vec<String>,
    /// The timestamp text of the last date-comment line, if it had one.
    pub date_text: Option<String>,
    /// The summary lines' texts, trimmed and joined by single spaces.
    pub summary: Option<String>,
    /// Every line after the delimiter, each ended by a line feed.
    pub body: String,
    /// Whether the delimiter line was seen. A file without one has an empty
    /// body; the caller decides whether that is an error.
    pub closed: bool,
}

/// The mathematical content of a `Header`.
pub struct HeaderView {
    pub title: Seq<char>,
    pub tags: Seq<Seq<char>>,
    pub date_text: Option<Seq<char>>,
    pub summary: Option<Seq<char>>,
    pub body: Seq<char>,
    pub closed: bool,
}

impl View for Header {
    type V = HeaderView;

    open spec fn view(&self) -> HeaderView {
        HeaderView {
            title: self.title@,
            tags: string_views(self.tags@),
            date_text: opt_view(self.date_text),
            summary: opt_view(self.summary),
            body: self.body@,
            closed: self.closed,
        }
    }
}

/// The state before any line is read.
pub open spec fn empty_header() -> HeaderView {
    HeaderView {
        title: Seq::empty(),
        tags: Seq::empty(),
        date_text: None,
        summary: None,
        body: Seq::empty(),
        closed: false,
    }
}

/// The running summary after a summary line whose text after `> ` is
/// `rest`: the trimmed remainders, joined by single spaces.
pub open spec fn joined_summary(old: Option<Seq<char>>, rest: Seq<char>) -> Seq<char> {
    match old {
        Some(s) => s + seq![' '] + trim(rest),
        None => trim(rest),
    }
}

/// The effect of one line on the header state.
pub open spec fn header_step(h: HeaderView, l: Seq<char>) -> HeaderView {
    if h.closed {
        HeaderView { body: h.body + l.push('\n'), ..h }
    } else {
        match line_kind(l) {
            LineKind::Delimiter => HeaderView { closed: true, ..h },
            LineKind::Tags => HeaderView { tags: tag_list(l), ..h },
            LineKind::Date => HeaderView { date_text: date_field(l), ..h },
            LineKind::Title => HeaderView { title: trim(l.skip(2)), ..h },
            LineKind::Summary => HeaderView {
                summary: Some(joined_summary(h.summary, l.skip(2))),
                ..h
            },
            _ => h,
        }
    }
}

/// The header state after reading `ls` in order.
pub open spec fn header_fold(ls: Seq<Seq<char>>) -> HeaderView
    decreases ls.len(),
{
    if ls.len() == 0 {
        empty_header()
    } else {
        header_step(header_fold(ls.drop_last()), ls.last())
    }
}

/// The header state once all lines are read: the joined summary trimmed.
pub open spec fn finished(h: HeaderView) -> HeaderView {
    HeaderView {
        summary: match h.summary {
            Some(s) => Some(trim(s)),
            None => None,
        },
        ..h
    }
}

/// What the header parser makes of the text of a file.
pub open spec fn header_of(t: Seq<char>) -> HeaderView {
    finished(header_fold(lines(t)))
}

impl Header {
    /// The state before any line is read.
    pub fn new() -> (r: Header)
        ensures
            r@ == empty_header(),
    {
        let r = Header {
            title: String::new(),
            tags: Vec::new(),
            date_text: None,
            summary: None,
            body: String::new(),
            closed: false,
        };
        assert(string_views(r.tags@) =~= Seq::<Seq<char>>::empty());
        r
    }

    /// Applies one line of the file.
    pub fn absorb(&mut self, l: &Vec<char>)
        ensures
            final(self)@ == header_step(old(self)@, l@),
    {
        if self.closed {
            append_chars(&mut self.body, l);
            push_char(&mut self.body, '\n');
            assert(old(self)@.body + l@.push('\n') =~= old(self)@.body + l@ + seq!['\n']);
            return;
        }
        match classify(l) {
            LineKind::Delimiter => {
                self.closed = true;
            },
            LineKind::Tags => {
                self.tags = parse_tags(l);
            },
            LineKind::Date => {
                self.date_text = date_text(l);
            },
            LineKind::Title => {
                let rest = copy_range(l, 2, l.len());
                assert(rest@ == l@.skip(2));
                self.title = string_of(&trimmed(&rest));
            },
            LineKind::Summary => {
                let rest = copy_range(l, 2, l.len());
                assert(rest@ == l@.skip(2));
                let tail = trimmed(&rest);
                let joined = match &self.summary {
                    Some(s) => {
                        let mut j = chars_of(s.as_str());
                        j.push(' ');
                        extend_chars(&mut j, &tail);
                        j
                    },
                    None => tail,
                };
                assert(joined@ =~= joined_summary(old(self)@.summary, l@.skip(2)));
                self.summary = Some(string_of(&joined));
            },
            _ => {},
        }
    }
}

/// Reads the header and body of the text of a post file.
pub fn parse_header(text: &str) -> (h: Header)
    ensures
        h@ == header_of(text@),
{
    let chars = chars_of(text);
    let ls = split_lines(&chars);
    let mut h = Header::new();
    let ghost all = char_views(ls@);
    assert(all.take(0) =~= Seq::<Seq<char>>::empty());
    for i in 0..ls.len()
        invariant
            all == char_views(ls@),
            h@ == header_fold(all.take(i as int)),
    {
        assert(all.take(i + 1).drop_last() == all.take(i as int));
        assert(all[i as int] == ls@[i as int]@);
        h.absorb(&ls[i]);
    }
    assert(all.take(ls.len() as int) == all);
    let summary = match &h.summary {
        Some(s) => Some(string_of(&trimmed(&chars_of(s.as_str())))),
        None => None,
    };
    h.summary = summary;
    h
}

} // verus!
