//! Choosing the working set: the most recent post files of the source
//! directory.

use vstd::prelude::*;
use vstd::relations::sorted_by;
use vstd::seq_lib::to_multiset_insert;
use vstd::seq_lib::lemma_sorted_unique;
use crate::text::{
    all_digits, chars_of, lemma_text_le_connected, lemma_text_le_total, lemma_text_le_transitive,
    string_views, text_le, text_le_chars,
};

verus! {

/// Whether a file name is a post file's: four ASCII digits, then anything
/// but a line feed, then `.md` at the very end.
pub open spec fn is_post_file_name(n: Seq<char>) -> bool {
    &&& n.len() >= 7
    &&& all_digits(n.take(4))
    &&& n.skip(n.len() - 3) == seq!['.', 'm', 'd']
    &&& forall|i: int| 4 <= i < n.len() - 3 ==> #[trigger] n[i] != '\n'
}

/// The post file names among `names`, in their order.
pub open spec fn eligible(names: Seq<Seq<char>>) -> Seq<Seq<char>>
    decreases names.len(),
{
    if names.len() == 0 {
        Seq::empty()
    } else if is_post_file_name(names.last()) {
        eligible(names.drop_last()).push(names.last())
    } else {
        eligible(names.drop_last())
    }
}

/// The order in which names are compared.
pub open spec fn name_order() -> spec_fn(Seq<char>, Seq<char>) -> bool {
    |a: Seq<char>, b: Seq<char>| text_le(a, b)
}

/// The working set: the post file names among `names` in ascending order,
/// the last `recent` of them (all of them where there are fewer).
pub open spec fn selected(names: Seq<Seq<char>>, recent: nat) -> Seq<Seq<char>> {
    let s = eligible(names).sort_by(name_order());
    let k = if recent < s.len() { recent as int } else { s.len() as int };
    s.subrange(s.len() - k, s.len() as int)
}

/// Whether a file name is a post file's.
pub fn is_post_file(name: &str) -> (r: bool)
    ensures
        r == is_post_file_name(name@),
{
    let n = chars_of(name);
    if n.len() < 7 {
        return false;
    }
    let mut i: usize = 0;
    while i < 4
        invariant
            n.len() >= 7,
            n@ == name@,
            i <= 4,
            forall|j: int| 0 <= j < i ==> crate::text::is_digit(#[trigger] n@[j]),
        decreases 4 - i,
    {
        if !('0' <= n[i] && n[i] <= '9') {
            assert(!crate::text::is_digit(n@.take(4)[i as int]));
            return false;
        }
        i += 1;
    }
    assert(all_digits(n@.take(4)));
    let e = n.len() - 3;
    if !(n[e] == '.' && n[e + 1] == 'm' && n[e + 2] == 'd') {
        assert(n@.skip(e as int)[0] == n@[e as int]);
        assert(n@.skip(e as int)[1] == n@[e + 1]);
        assert(n@.skip(e as int)[2] == n@[e + 2]);
        return false;
    }
    assert(n@.skip(e as int) =~= seq!['.', 'm', 'd']);
    let mut j: usize = 4;
    while j < e
        invariant
            e == n.len() - 3,
            n@ == name@,
            4 <= j <= e,
            forall|k: int| 4 <= k < j ==> #[trigger] n@[k] != '\n',
        decreases e - j,
    {
        if n[j] == '\n' {
            assert(!(forall|k: int| 4 <= k < n@.len() - 3 ==> #[trigger] n@[k] != '\n'));
            return false;
        }
        j += 1;
    }
    true
}

/// The working set among the file names `names` of a directory: its post
/// files in ascending lexicographic order, the last `recent` of them.
pub fn select_latest(names: &Vec<String>, recent: u32) -> (r: Vec<String>)
    ensures
        string_views(r@) == selected(string_views(names@), recent as nat),
{
    let ghost all = string_views(names@);
    let ghost leq = name_order();
    proof {
        lemma_text_le_total();
    }
    let mut sorted: Vec<String> = Vec::new();
    assert(all.take(0) =~= Seq::<Seq<char>>::empty());
    assert(string_views(sorted@) =~= Seq::<Seq<char>>::empty());
    for i in 0..names.len()
        invariant
            all == string_views(names@),
            leq == name_order(),
            vstd::relations::total_ordering(leq),
            sorted_by(string_views(sorted@), leq),
            string_views(sorted@).to_multiset() == eligible(all.take(i as int)).to_multiset(),
    {
        assert(all.take(i + 1).drop_last() == all.take(i as int));
        assert(all[i as int] == names@[i as int]@);
        if is_post_file(names[i].as_str()) {
            let x = chars_of(names[i].as_str());
            let mut p: usize = 0;
            while p < sorted.len() && text_le_chars(&chars_of(sorted[p].as_str()), &x)
                invariant
                    p <= sorted.len(),
                    x@ == all[i as int],
                    forall|q: int| 0 <= q < p ==> text_le(#[trigger] string_views(sorted@)[q], x@),
                decreases sorted.len() - p,
            {
                p += 1;
            }
            let ghost before = string_views(sorted@);
            proof {
                if p < sorted.len() {
                    lemma_text_le_connected(before[p as int], x@);
                }
                assert forall|q: int| p <= q < before.len() implies text_le(x@, #[trigger] before[q]) by {
                    lemma_text_le_connected(before[p as int], x@);
                    if q > p {
                        assert(leq(before[p as int], before[q]));
                        lemma_text_le_transitive(x@, before[p as int], before[q]);
                    }
                }
            }
            sorted.insert(p, names[i].clone());
            assert(string_views(sorted@) =~= before.insert(p as int, x@));
            proof {
                to_multiset_insert(before, p as int, x@);
                vstd::seq_lib::to_multiset_build(eligible(all.take(i as int)), x@);
                let after = string_views(sorted@);
                assert forall|a: int, b: int| 0 <= a < b < after.len() implies #[trigger] leq(after[a], after[b]) by {
                    if a < p && b == p {
                    } else if a == p && b > p {
                    } else if a < p && b > p {
                        assert(leq(before[a], before[b - 1]));
                    } else if b < p {
                        assert(leq(before[a], before[b]));
                    } else {
                        assert(leq(before[a - 1], before[b - 1]));
                    }
                }
            }
        }
    }
    assert(all.take(names.len() as int) == all);
    proof {
        let e = eligible(all);
        e.lemma_sort_by_ensures(leq);
        lemma_sorted_unique(string_views(sorted@), e.sort_by(leq), leq);
    }
    let n = sorted.len();
    let k: usize = if (recent as usize) < n { recent as usize } else { n };
    let mut r: Vec<String> = Vec::new();
    let mut j: usize = n - k;
    assert(string_views(r@) =~= string_views(sorted@).subrange((n - k) as int, (n - k) as int));
    while j < n
        invariant
            n == sorted.len(),
            k <= n,
            n - k <= j <= n,
            string_views(r@) == string_views(sorted@).subrange((n - k) as int, j as int),
        decreases n - j,
    {
        let ghost before = string_views(r@);
        r.push(sorted[j].clone());
        assert(string_views(r@) =~= before.push(sorted@[j as int]@));
        assert(string_views(sorted@).subrange((n - k) as int, j + 1) =~= string_views(sorted@).subrange((n - k) as int, j as int).push(sorted@[j as int]@));
        j += 1;
    }
    r
}

} // verus!

verus! {

/// With no more post files than `recent`, all of them are selected; with
/// at least `recent`, exactly `recent` are; and no post file left out comes
/// after a selected one in lexicographic order.
pub proof fn lemma_selection_boundary(names: Seq<Seq<char>>, recent: nat)
    ensures
        eligible(names).len() <= recent ==> selected(names, recent).to_multiset()
            == eligible(names).to_multiset(),
        eligible(names).len() >= recent ==> selected(names, recent).len() == recent,
        forall|x: Seq<char>, j: int|
            #![trigger selected(names, recent).to_multiset().count(x), selected(names, recent)[j]]
            0 <= j < selected(names, recent).len() && eligible(names).to_multiset().count(x)
                > selected(names, recent).to_multiset().count(x) ==> text_le(
                x,
                selected(names, recent)[j],
            ),
{
    let e = eligible(names);
    let leq = name_order();
    lemma_text_le_total();
    e.lemma_sort_by_ensures(leq);
    let s = e.sort_by(leq);
    e.to_multiset_ensures();
    s.to_multiset_ensures();
    assert(s.len() == e.len());
    let k = if recent < s.len() { recent as int } else { s.len() as int };
    let sel = selected(names, recent);
    let pre = s.take(s.len() - k);
    assert(sel == s.subrange(s.len() - k, s.len() as int));
    assert(s =~= pre + sel);
    vstd::seq_lib::lemma_multiset_commutative(pre, sel);
    if e.len() <= recent {
        assert(sel =~= s);
    }
    assert forall|x: Seq<char>, j: int|
        #![trigger sel.to_multiset().count(x), sel[j]]
        0 <= j < sel.len() && e.to_multiset().count(x) > sel.to_multiset().count(x)
            implies text_le(x, sel[j]) by {
        pre.to_multiset_ensures();
        assert(pre.to_multiset().count(x) > 0);
        assert(pre.contains(x));
        let i = choose|i: int| 0 <= i < pre.len() && pre[i] == x;
        assert(s[i] == x);
        assert(sel[j] == s[s.len() - k + j]);
        assert(leq(s[i], s[s.len() - k + j]));
    }
}

} // verus!
