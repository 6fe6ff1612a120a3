//! Writing a post in the canonical shape and reading it back gives back
//! what was written.

use vstd::prelude::*;
use crate::header::{
    comment_end, date_field, date_marker, delimiter, empty_header, header_fold, header_of, header_step, is_tag_mark,
    joined_summary, last_occurrence, line_kind, summary_marker, tag_list, title_marker, without_marks, HeaderView,
    LineKind,
};
use crate::post::{canonical_text, date_line, file_id, loaded, summary_line, tag_line};
use crate::outside::{json_array, json_char, json_escaped, json_items, json_string, rfc2822_seconds};
use crate::text::{
    has_prefix, is_space, occurs_at, line_scan, lines, piece_scan, pieces, strip_cr, trim,
    trim_end, trim_start,
};

verus! {

/// Whether `s` has no white space at either end.
pub open spec fn is_trimmed(s: Seq<char>) -> bool {
    s.len() == 0 || (!is_space(s[0]) && !is_space(s.last()))
}

/// Whether `s` fits on one header line and reads back as it is.
pub open spec fn is_line_text(s: Seq<char>) -> bool {
    is_trimmed(s) && !s.contains('\n')
}

/// Whether `c` may stand in a tag that reads back as it is: no comma,
/// bracket, quote, backslash or control character.
pub open spec fn is_tag_char(c: char) -> bool {
    c != ',' && c != '[' && c != ']' && c != '"' && c != '\\' && c >= ' '
}

/// Whether tag `t` reads back as it is.
pub open spec fn is_plain_tag(t: Seq<char>) -> bool {
    is_trimmed(t) && forall|i: int| 0 <= i < t.len() ==> is_tag_char(#[trigger] t[i])
}

/// Whether `b` is a body as the parser gives it back: empty or ended by a
/// line feed, and no carriage return right before a line feed.
pub open spec fn is_body_text(b: Seq<char>) -> bool {
    &&& (b.len() == 0 || b.last() == '\n')
    &&& forall|i: int| 0 < i < b.len() && #[trigger] b[i] == '\n' ==> b[i - 1] != '\r'
}

/// The lines `ls`, each followed by a line feed.
pub open spec fn joined_lines(ls: Seq<Seq<char>>) -> Seq<char>
    decreases ls.len(),
{
    if ls.len() == 0 {
        Seq::empty()
    } else {
        joined_lines(ls.drop_last()) + ls.last().push('\n')
    }
}

/// The header state after reading `ls` from state `h`.
pub open spec fn fold_from(h: HeaderView, ls: Seq<Seq<char>>) -> HeaderView
    decreases ls.len(),
{
    if ls.len() == 0 {
        h
    } else {
        header_step(fold_from(h, ls.drop_last()), ls.last())
    }
}

proof fn lemma_trimmed(s: Seq<char>)
    requires
        is_trimmed(s),
    ensures
        trim(s) == s,
        trim(seq![' '] + s) == s,
{
    assert((seq![' '] + s).drop_first() =~= s);
    if s.len() > 0 {
        assert(trim_start(s) == s);
        assert(trim_end(s) == s);
    }
}

proof fn lemma_scan_no_newline(l: Seq<char>)
    requires
        !l.contains('\n'),
    ensures
        line_scan(l) == (Seq::<Seq<char>>::empty(), l),
    decreases l.len(),
{
    if l.len() > 0 {
        assert(l.drop_last().push(l.last()) =~= l);
        assert(!l.drop_last().contains('\n')) by {
            if l.drop_last().contains('\n') {
                let i = choose|i: int| 0 <= i < l.drop_last().len() && l.drop_last()[i] == '\n';
                assert(l[i] == '\n');
            }
        }
        lemma_scan_no_newline(l.drop_last());
        assert(l[l.len() - 1] != '\n');
    }
}

proof fn lemma_scan_concat(a: Seq<char>, b: Seq<char>)
    requires
        line_scan(a).1.len() == 0,
    ensures
        line_scan(a + b) == (line_scan(a).0 + line_scan(b).0, line_scan(b).1),
    decreases b.len(),
{
    if b.len() == 0 {
        assert(a + b =~= a);
        assert(line_scan(a).0 + Seq::<Seq<char>>::empty() =~= line_scan(a).0);
        assert(line_scan(a).1 =~= Seq::<char>::empty());
    } else {
        assert((a + b).drop_last() =~= a + b.drop_last());
        lemma_scan_concat(a, b.drop_last());
        let (d, c) = line_scan(b.drop_last());
        if b.last() == '\n' {
            assert(line_scan(a).0 + d.push(strip_cr(c)) =~= (line_scan(a).0 + d).push(strip_cr(c)));
        }
    }
}

/// Lines joined with line feeds read back as the same lines.
proof fn lemma_lines_of_joined(ls: Seq<Seq<char>>, rest: Seq<char>)
    requires
        forall|i: int| 0 <= i < ls.len() ==> !(#[trigger] ls[i]).contains('\n'),
        forall|i: int| 0 <= i < ls.len() ==> strip_cr(#[trigger] ls[i]) == ls[i],
    ensures
        line_scan(joined_lines(ls) + rest) == (ls + line_scan(rest).0, line_scan(rest).1),
    decreases ls.len(),
{
    if ls.len() == 0 {
        assert(joined_lines(ls) + rest =~= rest);
        assert(ls + line_scan(rest).0 =~= line_scan(rest).0);
    } else {
        let front = ls.drop_last();
        let l = ls.last();
        lemma_lines_of_joined(front, Seq::empty());
        assert(joined_lines(front) + Seq::<char>::empty() =~= joined_lines(front));
        assert(front + Seq::<Seq<char>>::empty() =~= front);
        lemma_scan_no_newline(l);
        lemma_scan_concat(joined_lines(front), l);
        assert(joined_lines(front) + l.push('\n') =~= (joined_lines(front) + l).push('\n'));
        assert((joined_lines(front) + l).push('\n').drop_last() =~= joined_lines(front) + l);
        assert(line_scan(joined_lines(ls)) == (ls, Seq::<char>::empty())) by {
            assert(front.push(strip_cr(l)) =~= ls);
        }
        lemma_scan_concat(joined_lines(ls), rest);
    }
}

proof fn lemma_body_scan(b: Seq<char>, m: int)
    requires
        0 <= m <= b.len(),
        forall|i: int| 0 < i < b.len() && #[trigger] b[i] == '\n' ==> b[i - 1] != '\r',
    ensures
        joined_lines(line_scan(b.take(m)).0) + line_scan(b.take(m)).1 == b.take(m),
        line_scan(b.take(m)).1.len() > 0 ==> line_scan(b.take(m)).1.last() == b[m - 1],
    decreases m,
{
    if m == 0 {
        assert(b.take(0) =~= Seq::<char>::empty());
        assert(joined_lines(Seq::<Seq<char>>::empty()) + Seq::<char>::empty() =~= Seq::<char>::empty());
    } else {
        lemma_body_scan(b, m - 1);
        let t = b.take(m);
        assert(t.drop_last() =~= b.take(m - 1));
        let (d, c) = line_scan(b.take(m - 1));
        if b[m - 1] == '\n' {
            if c.len() > 0 {
                assert(c.last() != '\r');
            }
            assert(strip_cr(c) == c);
            assert(d.push(c).drop_last() =~= d);
            assert(joined_lines(d.push(c)) + Seq::<char>::empty() =~= joined_lines(d) + c + seq!['\n']);
            assert(t =~= b.take(m - 1).push('\n'));
        } else {
            assert(joined_lines(d) + c.push(b[m - 1]) =~= (joined_lines(d) + c).push(b[m - 1]));
            assert(t =~= b.take(m - 1).push(b[m - 1]));
        }
    }
}

/// A body as the parser gives it back splits into lines that join back to it.
proof fn lemma_body_lines(b: Seq<char>)
    requires
        is_body_text(b),
    ensures
        joined_lines(lines(b)) == b,
{
    lemma_body_scan(b, b.len() as int);
    assert(b.take(b.len() as int) =~= b);
    if b.len() > 0 {
        assert(b.drop_last().push('\n') =~= b);
        assert(line_scan(b).1.len() == 0);
    } else {
        assert(line_scan(b).1.len() == 0);
    }
    assert(joined_lines(line_scan(b).0) + Seq::<char>::empty() =~= joined_lines(line_scan(b).0));
}

proof fn lemma_fold_concat(a: Seq<Seq<char>>, b: Seq<Seq<char>>)
    ensures
        header_fold(a + b) == fold_from(header_fold(a), b),
    decreases b.len(),
{
    if b.len() == 0 {
        assert(a + b =~= a);
    } else {
        assert((a + b).drop_last() =~= a + b.drop_last());
        lemma_fold_concat(a, b.drop_last());
    }
}

proof fn lemma_fold_closed(h: HeaderView, ls: Seq<Seq<char>>)
    requires
        h.closed,
    ensures
        fold_from(h, ls) == (HeaderView { body: h.body + joined_lines(ls), ..h }),
    decreases ls.len(),
{
    if ls.len() == 0 {
        assert(h.body + joined_lines(ls) =~= h.body);
    } else {
        lemma_fold_closed(h, ls.drop_last());
        assert(h.body + joined_lines(ls.drop_last()) + ls.last().push('\n') =~= h.body + joined_lines(ls));
    }
}

} // verus!

verus! {

/// The tags `ts` separated by commas.
pub open spec fn comma_joined(ts: Seq<Seq<char>>) -> Seq<char>
    decreases ts.len(),
{
    if ts.len() == 0 {
        Seq::empty()
    } else if ts.len() == 1 {
        ts[0]
    } else {
        comma_joined(ts.drop_last()) + seq![','] + ts.last()
    }
}

proof fn lemma_marks_concat(a: Seq<char>, b: Seq<char>)
    ensures
        without_marks(a + b) == without_marks(a) + without_marks(b),
    decreases b.len(),
{
    if b.len() == 0 {
        assert(a + b =~= a);
        assert(without_marks(a) + without_marks(b) =~= without_marks(a));
    } else {
        assert((a + b).drop_last() =~= a + b.drop_last());
        lemma_marks_concat(a, b.drop_last());
        if !is_tag_mark(b.last()) {
            assert(without_marks(a) + without_marks(b.drop_last()).push(b.last()) =~= (without_marks(a)
                + without_marks(b.drop_last())).push(b.last()));
        }
    }
}

proof fn lemma_marks_single(c: char)
    ensures
        without_marks(seq![c]) == (if is_tag_mark(c) { Seq::<char>::empty() } else { seq![c] }),
{
    let s = seq![c];
    assert(s.drop_last() =~= Seq::<char>::empty());
    assert(without_marks(Seq::<char>::empty()) == Seq::<char>::empty());
    assert(s.last() == c);
    assert(Seq::<char>::empty().push(c) =~= s);
}

proof fn lemma_marks_plain(t: Seq<char>)
    requires
        forall|i: int| 0 <= i < t.len() ==> is_tag_char(#[trigger] t[i]),
    ensures
        without_marks(t) == t,
        json_escaped(t) == t,
    decreases t.len(),
{
    if t.len() > 0 {
        lemma_marks_plain(t.drop_last());
        let c = t.last();
        assert(is_tag_char(t[t.len() - 1]));
        assert(json_char(c) == seq![c]);
        assert(t.drop_last().push(c) =~= t);
        assert(t.drop_last() + seq![c] =~= t);
    }
}

proof fn lemma_marks_items(ts: Seq<Seq<char>>)
    requires
        forall|i: int| 0 <= i < ts.len() ==> is_plain_tag(#[trigger] ts[i]),
    ensures
        without_marks(json_items(ts)) == comma_joined(ts),
        !json_items(ts).contains('\n'),
    decreases ts.len(),
{
    if ts.len() > 0 {
        let t = ts.last();
        assert(is_plain_tag(ts[ts.len() - 1]));
        lemma_marks_plain(t);
        let q = json_string(t);
        lemma_marks_concat(seq!['"'] + t, seq!['"']);
        lemma_marks_concat(seq!['"'], t);
        lemma_marks_single('"');
        assert(without_marks(q) =~= t);
        assert(!q.contains('\n')) by {
            if q.contains('\n') {
                let i = choose|i: int| 0 <= i < q.len() && q[i] == '\n';
                assert(is_tag_char(t[i - 1]));
            }
        }
        if ts.len() == 1 {
        } else {
            let front = ts.drop_last();
            assert forall|i: int| 0 <= i < front.len() implies is_plain_tag(#[trigger] front[i]) by {
                assert(front[i] == ts[i]);
            }
            lemma_marks_items(front);
            lemma_marks_concat(json_items(front) + seq![','], q);
            lemma_marks_concat(json_items(front), seq![',']);
            lemma_marks_single(',');
            let all = json_items(front) + seq![','] + q;
            assert(!all.contains('\n')) by {
                if all.contains('\n') {
                    let i = choose|i: int| 0 <= i < all.len() && all[i] == '\n';
                    if i < json_items(front).len() {
                        assert(json_items(front)[i] == '\n');
                    } else if i > json_items(front).len() {
                        assert(q[i - json_items(front).len() - 1] == '\n');
                    }
                }
            }
        }
    }
}

proof fn lemma_pieces_no_sep(t: Seq<char>, sep: char)
    requires
        forall|i: int| 0 <= i < t.len() ==> #[trigger] t[i] != sep,
    ensures
        piece_scan(t, sep) == (Seq::<Seq<char>>::empty(), t),
    decreases t.len(),
{
    if t.len() > 0 {
        lemma_pieces_no_sep(t.drop_last(), sep);
        assert(t[t.len() - 1] != sep);
        assert(t.drop_last().push(t.last()) =~= t);
    }
}

proof fn lemma_pieces_concat(a: Seq<char>, b: Seq<char>, sep: char)
    ensures
        piece_scan(a + seq![sep] + b, sep) == (piece_scan(a, sep).0.push(piece_scan(a, sep).1)
            + piece_scan(b, sep).0, piece_scan(b, sep).1),
    decreases b.len(),
{
    let (d, c) = piece_scan(a, sep);
    if b.len() == 0 {
        assert(a + seq![sep] + b =~= a.push(sep));
        assert(a.push(sep).drop_last() =~= a);
        assert(d.push(c) + Seq::<Seq<char>>::empty() =~= d.push(c));
    } else {
        assert((a + seq![sep] + b).drop_last() =~= a + seq![sep] + b.drop_last());
        lemma_pieces_concat(a, b.drop_last(), sep);
        let (bd, bc) = piece_scan(b.drop_last(), sep);
        if b.last() == sep {
            assert(d.push(c) + bd.push(bc) =~= (d.push(c) + bd).push(bc));
        }
    }
}

proof fn lemma_pieces_joined(ts: Seq<Seq<char>>)
    requires
        ts.len() > 0,
        forall|i: int| 0 <= i < ts.len() ==> is_plain_tag(#[trigger] ts[i]),
    ensures
        pieces(comma_joined(ts), ',') == ts,
    decreases ts.len(),
{
    let t = ts.last();
    assert(is_plain_tag(ts[ts.len() - 1]));
    assert forall|i: int| 0 <= i < t.len() implies #[trigger] t[i] != ',' by {
        assert(is_tag_char(t[i]));
    }
    lemma_pieces_no_sep(t, ',');
    if ts.len() == 1 {
        assert(seq![t] =~= ts);
    } else {
        let front = ts.drop_last();
        assert forall|i: int| 0 <= i < front.len() implies is_plain_tag(#[trigger] front[i]) by {
            assert(front[i] == ts[i]);
        }
        lemma_pieces_joined(front);
        lemma_pieces_concat(comma_joined(front), t, ',');
        let (d, c) = piece_scan(comma_joined(front), ',');
        assert(d.push(c) + Seq::<Seq<char>>::empty() =~= front);
        assert(front.push(t) =~= ts);
    }
}

/// A tag line written as a JSON array of plain tags reads back as those tags.
proof fn lemma_tags_round_trip(ts: Seq<Seq<char>>)
    requires
        ts.len() > 0,
        forall|i: int| 0 <= i < ts.len() ==> is_plain_tag(#[trigger] ts[i]),
    ensures
        tag_list(json_array(ts)) == ts,
        !json_array(ts).contains('\n'),
{
    lemma_marks_items(ts);
    lemma_marks_concat(seq!['['] + json_items(ts), seq![']']);
    lemma_marks_concat(seq!['['], json_items(ts));
    lemma_marks_single('[');
    lemma_marks_single(']');
    assert(without_marks(json_array(ts)) =~= comma_joined(ts));
    lemma_pieces_joined(ts);
    assert forall|i: int| 0 <= i < ts.len() implies trim(#[trigger] ts[i]) == ts[i] by {
        lemma_trimmed(ts[i]);
    }
    assert(tag_list(json_array(ts)) =~= ts);
    let a = json_array(ts);
    assert(!a.contains('\n')) by {
        if a.contains('\n') {
            let i = choose|i: int| 0 <= i < a.len() && a[i] == '\n';
            assert(json_items(ts)[i - 1] == '\n');
        }
    }
}

} // verus!

verus! {

proof fn lemma_joined_push(ls: Seq<Seq<char>>, l: Seq<char>)
    ensures
        joined_lines(ls.push(l)) == joined_lines(ls) + l.push('\n'),
{
    assert(ls.push(l).drop_last() =~= ls);
}

proof fn lemma_fold_push(ls: Seq<Seq<char>>, l: Seq<char>)
    ensures
        header_fold(ls.push(l)) == header_step(header_fold(ls), l),
{
    assert(ls.push(l).drop_last() =~= ls);
}

/// A marked line `m` followed by trimmed one-line text `s`.
proof fn lemma_marked_line(m: Seq<char>, s: Seq<char>)
    requires
        m.len() == 2,
        m[1] == ' ',
        m[0] != '\n',
        is_line_text(s),
    ensures
        !(m + s).contains('\n'),
        strip_cr(m + s) == m + s,
        (m + s).skip(2) == s,
{
    let l = m + s;
    assert(l.skip(2) =~= s);
    assert(!l.contains('\n')) by {
        if l.contains('\n') {
            let i = choose|i: int| 0 <= i < l.len() && l[i] == '\n';
            if i >= 2 {
                assert(s.contains('\n')) by {
                    assert(s[i - 2] == '\n');
                }
            }
        }
    }
    if s.len() > 0 {
        assert(l.last() == s.last());
    }
}

/// The lines of the canonical shape before the body, in order.
pub open spec fn header_lines(
    title: Seq<char>,
    stamp: Seq<char>,
    tags: Seq<Seq<char>>,
    summary: Option<Seq<char>>,
) -> Seq<Seq<char>> {
    seq![seq!['#', ' '] + title, date_line(stamp)] + tag_lines(tags) + summary_lines(summary)
        + seq![seq!['=', '=', '=']]
}

/// The tag line, where there are tags.
pub open spec fn tag_lines(tags: Seq<Seq<char>>) -> Seq<Seq<char>> {
    if tags.len() == 0 {
        Seq::empty()
    } else {
        seq![json_array(tags)]
    }
}

/// The summary line, where there is a summary.
pub open spec fn summary_lines(summary: Option<Seq<char>>) -> Seq<Seq<char>> {
    match summary {
        Some(s) => seq![seq!['>', ' '] + s],
        None => Seq::empty(),
    }
}

/// Whether `l` can stand on a line of its own and read back as it is.
pub open spec fn is_whole_line(l: Seq<char>) -> bool {
    !l.contains('\n') && strip_cr(l) == l
}

proof fn lemma_joined_concat(a: Seq<Seq<char>>, b: Seq<Seq<char>>)
    ensures
        joined_lines(a + b) == joined_lines(a) + joined_lines(b),
    decreases b.len(),
{
    if b.len() == 0 {
        assert(a + b =~= a);
        assert(joined_lines(a) + joined_lines(b) =~= joined_lines(a));
    } else {
        assert((a + b).drop_last() =~= a + b.drop_last());
        lemma_joined_concat(a, b.drop_last());
        assert(joined_lines(a) + joined_lines(b.drop_last()) + b.last().push('\n') =~= joined_lines(a)
            + joined_lines(b));
    }
}

proof fn lemma_joined_single(l: Seq<char>)
    ensures
        joined_lines(seq![l]) == l.push('\n'),
{
    assert(seq![l].drop_last() =~= Seq::<Seq<char>>::empty());
    assert(seq![l].last() == l);
    assert(joined_lines(Seq::<Seq<char>>::empty()) == Seq::<char>::empty());
    assert(Seq::<char>::empty() + l.push('\n') =~= l.push('\n'));
}

proof fn lemma_fold_single(h: HeaderView, l: Seq<char>)
    ensures
        fold_from(h, seq![l]) == header_step(h, l),
{
    assert(seq![l].drop_last() =~= Seq::<Seq<char>>::empty());
    assert(seq![l].last() == l);
    assert(fold_from(h, Seq::<Seq<char>>::empty()) == h);
}

proof fn lemma_fold_from_concat(h: HeaderView, a: Seq<Seq<char>>, b: Seq<Seq<char>>)
    ensures
        fold_from(h, a + b) == fold_from(fold_from(h, a), b),
    decreases b.len(),
{
    if b.len() == 0 {
        assert(a + b =~= a);
    } else {
        assert((a + b).drop_last() =~= a + b.drop_last());
        lemma_fold_from_concat(h, a, b.drop_last());
    }
}

proof fn lemma_fold_is_from_empty(ls: Seq<Seq<char>>)
    ensures
        header_fold(ls) == fold_from(empty_header(), ls),
    decreases ls.len(),
{
    if ls.len() > 0 {
        lemma_fold_is_from_empty(ls.drop_last());
    }
}

proof fn lemma_date_line(stamp: Seq<char>)
    requires
        !stamp.contains('\n'),
    ensures
        line_kind(date_line(stamp)) == LineKind::Date,
        date_field(date_line(stamp)) == Some(stamp),
        is_whole_line(date_line(stamp)),
{
    let l = date_line(stamp);
    let n = l.len() as int;
    assert(l[0] == '<');
    assert(l != delimiter()) by {
        assert(delimiter()[0] == '=');
    }
    assert(l.subrange(0, 10) =~= date_marker());
    assert(l[10] == ' ');
    assert(l.subrange(n - 4, n) =~= comment_end());
    assert(occurs_at(l, comment_end(), n - 4));
    assert(last_occurrence(l, comment_end(), 11, n - 4) == Some(n - 4));
    assert(l.subrange(11, n - 4) + l.subrange(n, n) =~= stamp);
    assert(!l.contains('\n')) by {
        if l.contains('\n') {
            let i = choose|i: int| 0 <= i < l.len() && l[i] == '\n';
            if 11 <= i < n - 4 {
                assert(stamp[i - 11] == '\n');
            }
        }
    }
    assert(l.last() == '>');
}

proof fn lemma_title_line(title: Seq<char>)
    requires
        is_line_text(title),
    ensures
        line_kind(seq!['#', ' '] + title) == LineKind::Title,
        trim((seq!['#', ' '] + title).skip(2)) == title,
        is_whole_line(seq!['#', ' '] + title),
{
    let l1 = seq!['#', ' '] + title;
    lemma_marked_line(seq!['#', ' '], title);
    assert(l1[0] == '#');
    assert(l1 != delimiter()) by {
        assert(delimiter()[0] == '=');
    }
    if has_prefix(l1, date_marker()) {
        assert(l1.subrange(0, 10)[0] == '<');
    }
    assert(l1.subrange(0, 2) =~= title_marker());
    lemma_trimmed(title);
}

proof fn lemma_summary_line(s: Seq<char>)
    requires
        is_line_text(s),
    ensures
        line_kind(seq!['>', ' '] + s) == LineKind::Summary,
        joined_summary(None, (seq!['>', ' '] + s).skip(2)) == s,
        is_whole_line(seq!['>', ' '] + s),
{
    let l4 = seq!['>', ' '] + s;
    lemma_marked_line(seq!['>', ' '], s);
    assert(l4[0] == '>');
    assert(l4 != delimiter()) by {
        assert(delimiter()[0] == '=');
    }
    if has_prefix(l4, date_marker()) {
        assert(l4.subrange(0, 10)[0] == '<');
    }
    if has_prefix(l4, title_marker()) {
        assert(l4.subrange(0, 2)[0] == '#');
    }
    assert(l4.subrange(0, 2) =~= summary_marker());
    lemma_trimmed(s);
}

proof fn lemma_tag_line(tags: Seq<Seq<char>>)
    requires
        tags.len() > 0,
        forall|i: int| 0 <= i < tags.len() ==> is_plain_tag(#[trigger] tags[i]),
    ensures
        line_kind(json_array(tags)) == LineKind::Tags,
        tag_list(json_array(tags)) == tags,
        is_whole_line(json_array(tags)),
{
    let l3 = json_array(tags);
    lemma_tags_round_trip(tags);
    assert(l3[0] == '[');
    assert(l3 != delimiter()) by {
        assert(delimiter()[0] == '=');
    }
    assert(l3.last() == ']');
}

/// The canonical text splits into its header lines and the body's lines.
proof fn lemma_canonical_lines(
    title: Seq<char>,
    stamp: Seq<char>,
    tags: Seq<Seq<char>>,
    summary: Option<Seq<char>>,
    body: Seq<char>,
)
    requires
        is_line_text(title),
        !stamp.contains('\n'),
        forall|i: int| 0 <= i < tags.len() ==> is_plain_tag(#[trigger] tags[i]),
        summary matches Some(s) ==> is_line_text(s),
    ensures
        lines(canonical_text(title, stamp, tags, summary, body)) == header_lines(title, stamp, tags, summary)
            + lines(body),
{
    let l1 = seq!['#', ' '] + title;
    let d = date_line(stamp);
    let l5 = seq!['=', '=', '='];
    let a = seq![l1, d];
    let t = tag_lines(tags);
    let m = summary_lines(summary);
    let pre = header_lines(title, stamp, tags, summary);
    lemma_title_line(title);
    lemma_date_line(stamp);
    if tags.len() > 0 {
        lemma_tag_line(tags);
        lemma_joined_single(json_array(tags));
    }
    if let Some(s) = summary {
        lemma_summary_line(s);
        lemma_joined_single(seq!['>', ' '] + s);
    }
    assert(!l5.contains('\n')) by {
        if l5.contains('\n') {
            let i = choose|i: int| 0 <= i < l5.len() && l5[i] == '\n';
        }
    }
    assert forall|i: int| 0 <= i < pre.len() implies is_whole_line(#[trigger] pre[i]) by {
        if i < 2 {
            assert(pre[i] == a[i]);
        } else if i < 2 + t.len() {
            assert(pre[i] == t[i - 2]);
        } else if i < 2 + t.len() + m.len() {
            assert(pre[i] == m[i - 2 - t.len()]);
        } else {
            assert(pre[i] == l5);
        }
    }
    assert(joined_lines(t) == tag_line(tags));
    assert(joined_lines(m) == summary_line(summary));
    lemma_joined_single(l5);
    lemma_joined_single(l1);
    assert(a =~= seq![l1] + seq![d]);
    lemma_joined_concat(seq![l1], seq![d]);
    lemma_joined_single(d);
    lemma_joined_concat(a, t);
    lemma_joined_concat(a + t, m);
    lemma_joined_concat(a + t + m, seq![l5]);
    let text = canonical_text(title, stamp, tags, summary, body);
    assert(text =~= joined_lines(pre) + body);
    lemma_lines_of_joined(pre, body);
    assert(lines(text) =~= pre + lines(body));
}

/// Reading the header lines of the canonical shape.
proof fn lemma_read_header_lines(
    title: Seq<char>,
    stamp: Seq<char>,
    tags: Seq<Seq<char>>,
    summary: Option<Seq<char>>,
)
    requires
        is_line_text(title),
        !stamp.contains('\n'),
        forall|i: int| 0 <= i < tags.len() ==> is_plain_tag(#[trigger] tags[i]),
        summary matches Some(s) ==> is_line_text(s),
    ensures
        header_fold(header_lines(title, stamp, tags, summary)) == (HeaderView {
            title,
            tags,
            date_text: Some(stamp),
            summary,
            body: Seq::empty(),
            closed: true,
        }),
{
    let l1 = seq!['#', ' '] + title;
    let d = date_line(stamp);
    let l5 = seq!['=', '=', '='];
    let a = seq![l1, d];
    let t = tag_lines(tags);
    let m = summary_lines(summary);
    let h0 = empty_header();
    lemma_title_line(title);
    lemma_date_line(stamp);
    assert(a =~= seq![l1] + seq![d]);
    lemma_fold_from_concat(h0, seq![l1], seq![d]);
    lemma_fold_single(h0, l1);
    let h1 = HeaderView { title, ..h0 };
    lemma_fold_single(h1, d);
    let h2 = HeaderView { date_text: Some(stamp), ..h1 };
    assert(fold_from(h0, a) == h2);
    lemma_fold_from_concat(h0, a, t);
    let h3 = HeaderView { tags, ..h2 };
    if tags.len() > 0 {
        lemma_tag_line(tags);
        lemma_fold_single(h2, json_array(tags));
    } else {
        assert(tags =~= Seq::<Seq<char>>::empty());
    }
    assert(fold_from(h0, a + t) == h3);
    lemma_fold_from_concat(h0, a + t, m);
    let h4 = HeaderView { summary, ..h3 };
    if let Some(s) = summary {
        lemma_summary_line(s);
        lemma_fold_single(h3, seq!['>', ' '] + s);
    }
    assert(fold_from(h0, a + t + m) == h4);
    lemma_fold_from_concat(h0, a + t + m, seq![l5]);
    assert(line_kind(l5) == LineKind::Delimiter);
    lemma_fold_single(h4, l5);
    lemma_fold_is_from_empty(header_lines(title, stamp, tags, summary));
}

/// Writing a post in the canonical shape and parsing the text back gives
/// the same title, date text, tags, summary and body. The tags must read
/// back through a tag line (none with a comma, bracket, quote, backslash,
/// control character or outer white space), the title and summary must fit
/// on one line without outer white space, the date text on one line, and
/// the body must be as the parser gives bodies back.
pub proof fn lemma_canonical_round_trip(
    title: Seq<char>,
    stamp: Seq<char>,
    tags: Seq<Seq<char>>,
    summary: Option<Seq<char>>,
    body: Seq<char>,
)
    requires
        is_line_text(title),
        !stamp.contains('\n'),
        forall|i: int| 0 <= i < tags.len() ==> is_plain_tag(#[trigger] tags[i]),
        summary matches Some(s) ==> is_line_text(s),
        is_body_text(body),
    ensures
        header_of(canonical_text(title, stamp, tags, summary, body)) == (HeaderView {
            title,
            tags,
            date_text: Some(stamp),
            summary,
            body,
            closed: true,
        }),
{
    let pre = header_lines(title, stamp, tags, summary);
    lemma_canonical_lines(title, stamp, tags, summary, body);
    lemma_fold_concat(pre, lines(body));
    lemma_read_header_lines(title, stamp, tags, summary);
    let h5 = header_fold(pre);
    lemma_fold_closed(h5, lines(body));
    lemma_body_lines(body);
    assert(h5.body + joined_lines(lines(body)) =~= body);
    if let Some(s) = summary {
        lemma_trimmed(s);
    }
}

/// A post written in the canonical shape with the RFC 2822 text of its date
/// loads back with the same title, tags, summary, markdown body and date,
/// whatever the file's creation time.
pub proof fn lemma_post_round_trip(
    url: Seq<char>,
    short_url: Option<Seq<char>>,
    name: Seq<char>,
    title: Seq<char>,
    stamp: Seq<char>,
    date: u64,
    tags: Seq<Seq<char>>,
    summary: Option<Seq<char>>,
    body: Seq<char>,
    created: Option<u64>,
)
    requires
        file_id(name) is Some,
        rfc2822_seconds(stamp) == Some(date as i64),
        date <= i64::MAX,
        is_line_text(title),
        !stamp.contains('\n'),
        forall|i: int| 0 <= i < tags.len() ==> is_plain_tag(#[trigger] tags[i]),
        summary matches Some(s) ==> is_line_text(s),
        is_body_text(body),
    ensures
        loaded(url, short_url, name, canonical_text(title, stamp, tags, summary, body), created) matches Ok(
            p,
        ) && p.title == title && p.tags == tags && p.summary == summary && p.md_body == body
            && p.timestamp == Some(date) && p.date == date,
{
    lemma_canonical_round_trip(title, stamp, tags, summary, body);
}

} // verus!
