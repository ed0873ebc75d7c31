//! Comma-separated lists: the text is cut at every comma, each piece is
//! trimmed, and the pieces left empty are dropped.

use vstd::prelude::*;

use crate::text::{is_white_space, trim, trim_back, trim_front, trim_bounds, string_of_range};

verus! {

/// The pieces of `s` between commas, as `str::split(',')` gives them
/// (an empty text is one empty piece).
pub open spec fn split_commas(s: Seq<char>) -> Seq<Seq<char>>
    decreases s.len(),
{
    if s.len() == 0 {
        seq![Seq::empty()]
    } else {
        let p = split_commas(s.drop_last());
        if s.last() == ',' {
            p.push(Seq::empty())
        } else {
            p.update(p.len() - 1, p.last().push(s.last()))
        }
    }
}

/// The pieces of `ps`, trimmed, without those that are left empty.
pub open spec fn kept_items(ps: Seq<Seq<char>>) -> Seq<Seq<char>>
    decreases ps.len(),
{
    if ps.len() == 0 {
        Seq::empty()
    } else {
        let rest = kept_items(ps.drop_last());
        let t = trim(ps.last());
        if t.len() == 0 {
            rest
        } else {
            rest.push(t)
        }
    }
}

/// The items of a comma-separated list: none when the text is blank,
/// otherwise the trimmed pieces between commas that are not empty.
pub open spec fn list_items(s: Seq<char>) -> Seq<Seq<char>> {
    if trim(s).len() == 0 {
        Seq::empty()
    } else {
        kept_items(split_commas(s))
    }
}

pub proof fn lemma_split_nonempty(s: Seq<char>)
    ensures
        split_commas(s).len() >= 1,
    decreases s.len(),
{
    if s.len() > 0 {
        lemma_split_nonempty(s.drop_last());
    }
}

/// The bounds of the pieces of `chars` between commas, in order.
fn piece_bounds(chars: &Vec<char>) -> (b: Vec<(usize, usize)>)
    ensures
        b.len() == split_commas(chars@).len(),
        forall|j: int|
            0 <= j < b.len() ==> {
                &&& (#[trigger] b@[j]).0 <= b@[j].1 <= chars.len()
                &&& chars@.subrange(b@[j].0 as int, b@[j].1 as int) == split_commas(chars@)[j]
            },
{
    let mut b: Vec<(usize, usize)> = Vec::new();
    let mut start: usize = 0;
    let mut i: usize = 0;
    assert(chars@.take(0) =~= Seq::<char>::empty());
    while i < chars.len()
        invariant
            start <= i <= chars.len(),
            b.len() + 1 == split_commas(chars@.take(i as int)).len(),
            forall|j: int|
                0 <= j < b.len() ==> {
                    &&& (#[trigger] b@[j]).0 <= b@[j].1 <= chars.len()
                    &&& chars@.subrange(b@[j].0 as int, b@[j].1 as int) == split_commas(
                        chars@.take(i as int),
                    )[j]
                },
            chars@.subrange(start as int, i as int) == split_commas(chars@.take(i as int)).last(),
        decreases chars.len() - i,
    {
        let ghost prev = split_commas(chars@.take(i as int));
        assert(chars@.take(i + 1).drop_last() =~= chars@.take(i as int));
        assert(chars@.take(i + 1).last() == chars@[i as int]);
        proof {
            lemma_split_nonempty(chars@.take(i as int));
        }
        if chars[i] == ',' {
            b.push((start, i));
            start = i + 1;
            i = i + 1;
            assert(chars@.subrange(start as int, i as int) =~= Seq::<char>::empty());
        } else {
            i = i + 1;
            assert(chars@.subrange(start as int, i as int) =~= prev.last().push(chars@[i - 1]));
        }
    }
    assert(chars@.take(chars.len() as int) =~= chars@);
    b.push((start, i));
    b
}

/// The items of the comma-separated list written in `chars`, as `list_items`
/// says.
pub fn list_item_strings(chars: &Vec<char>) -> (items: Vec<String>)
    ensures
        items.deep_view() == kept_items(split_commas(chars@)),
{
    let bounds = piece_bounds(chars);
    let ghost pieces = split_commas(chars@);
    let mut items: Vec<String> = Vec::new();
    let mut j: usize = 0;
    assert(pieces.take(0) =~= Seq::<Seq<char>>::empty());
    assert(items.deep_view() =~= Seq::<Seq<char>>::empty());
    while j < bounds.len()
        invariant
            0 <= j <= bounds.len(),
            pieces == split_commas(chars@),
            bounds.len() == pieces.len(),
            forall|k: int|
                0 <= k < bounds.len() ==> {
                    &&& (#[trigger] bounds@[k]).0 <= bounds@[k].1 <= chars.len()
                    &&& chars@.subrange(bounds@[k].0 as int, bounds@[k].1 as int) == pieces[k]
                },
            items.deep_view() == kept_items(pieces.take(j as int)),
        decreases bounds.len() - j,
    {
        let (from, to) = bounds[j];
        let (lo, hi) = trim_bounds(chars, from, to);
        assert(pieces.take(j + 1).drop_last() =~= pieces.take(j as int));
        assert(pieces.take(j + 1).last() == pieces[j as int]);
        if lo < hi {
            let s = string_of_range(chars, lo, hi);
            let ghost before = items.deep_view();
            items.push(s);
            assert(items.deep_view() =~= before.push(s@));
        }
        j = j + 1;
    }
    assert(pieces.take(bounds.len() as int) =~= pieces);
    items
}

/// The index of the first of `items[i..]` that `rejects` holds of, or
/// `items.len()` when there is none.
pub open spec fn first_index(items: Seq<Seq<char>>, i: int, rejects: spec_fn(Seq<char>) -> bool) -> int
    decreases items.len() - i,
{
    if i >= items.len() {
        items.len() as int
    } else if rejects(items[i]) {
        i
    } else {
        first_index(items, i + 1, rejects)
    }
}

pub proof fn lemma_first_index(items: Seq<Seq<char>>, i: int, k: int, rejects: spec_fn(Seq<char>) -> bool)
    requires
        0 <= i <= k <= items.len(),
        forall|j: int| i <= j < k ==> !rejects(#[trigger] items[j]),
        k < items.len() ==> rejects(items[k]),
    ensures
        first_index(items, i, rejects) == k,
    decreases k - i,
{
    if i < k {
        lemma_first_index(items, i + 1, k, rejects);
    }
}

proof fn lemma_trim_front_clean(s: Seq<char>)
    ensures
        trim_front(s).len() > 0 ==> !is_white_space(trim_front(s)[0]),
    decreases s.len(),
{
    if s.len() > 0 && is_white_space(s[0]) {
        lemma_trim_front_clean(s.drop_first());
    }
}

proof fn lemma_trim_back_clean(s: Seq<char>)
    ensures
        trim_back(s).len() <= s.len(),
        trim_back(s) == s.subrange(0, trim_back(s).len() as int),
        trim_back(s).len() > 0 ==> !is_white_space(trim_back(s).last()),
    decreases s.len(),
{
    if s.len() > 0 && is_white_space(s.last()) {
        lemma_trim_back_clean(s.drop_last());
        assert(s.drop_last().subrange(0, trim_back(s).len() as int) =~= s.subrange(
            0,
            trim_back(s).len() as int,
        ));
    } else {
        assert(s.subrange(0, s.len() as int) =~= s);
    }
}

proof fn lemma_trim_front_drops_white_space(s: Seq<char>)
    ensures
        trim_front(s).len() <= s.len(),
        trim_front(s) == s.subrange(s.len() - trim_front(s).len(), s.len() as int),
        forall|i: int| 0 <= i < s.len() - trim_front(s).len() ==> is_white_space(#[trigger] s[i]),
    decreases s.len(),
{
    if s.len() > 0 && is_white_space(s[0]) {
        let t = s.drop_first();
        lemma_trim_front_drops_white_space(t);
        assert(t.subrange(t.len() - trim_front(t).len(), t.len() as int) =~= s.subrange(
            s.len() - trim_front(s).len(),
            s.len() as int,
        ));
        assert forall|i: int| 0 <= i < s.len() - trim_front(s).len() implies is_white_space(
            #[trigger] s[i],
        ) by {
            if i > 0 {
                assert(s[i] == t[i - 1]);
            }
        }
    } else {
        assert(s.subrange(0, s.len() as int) =~= s);
    }
}

proof fn lemma_trim_back_drops_white_space(s: Seq<char>)
    ensures
        trim_back(s).len() <= s.len(),
        trim_back(s) == s.subrange(0, trim_back(s).len() as int),
        forall|i: int| trim_back(s).len() <= i < s.len() ==> is_white_space(#[trigger] s[i]),
    decreases s.len(),
{
    lemma_trim_back_clean(s);
    if s.len() > 0 && is_white_space(s.last()) {
        let t = s.drop_last();
        lemma_trim_back_drops_white_space(t);
        assert forall|i: int| trim_back(s).len() <= i < s.len() implies is_white_space(#[trigger] s[i]) by {
            if i < t.len() {
                assert(s[i] == t[i]);
            }
        }
    }
}

/// Trimming removes whitespace and nothing else: the trimmed text is a run
/// of the text, and every character before or after that run is whitespace.
pub proof fn lemma_trim_removes_only_white_space(s: Seq<char>)
    ensures
        exists|a: int, b: int|
            0 <= a <= b <= s.len() && trim(s) == s.subrange(a, b) && (forall|i: int|
                0 <= i < a ==> is_white_space(#[trigger] s[i])) && (forall|i: int|
                b <= i < s.len() ==> is_white_space(#[trigger] s[i])),
{
    lemma_trim_front_drops_white_space(s);
    let f = trim_front(s);
    lemma_trim_back_drops_white_space(f);
    let a = s.len() - f.len();
    let b = a + trim_back(f).len();
    assert(trim(s) =~= s.subrange(a, b));
    assert forall|i: int| b <= i < s.len() implies is_white_space(#[trigger] s[i]) by {
        assert(s[i] == f[i - a]);
    }
}

/// A trimmed text neither starts nor ends with whitespace.
pub proof fn lemma_trim_clean(s: Seq<char>)
    ensures
        trim(s).len() > 0 ==> !is_white_space(trim(s)[0]) && !is_white_space(trim(s).last()),
{
    lemma_trim_front_clean(s);
    lemma_trim_back_clean(trim_front(s));
    if trim(s).len() > 0 {
        assert(trim(s)[0] == trim_front(s)[0]);
    }
}

proof fn lemma_kept_items_clean(ps: Seq<Seq<char>>)
    ensures
        forall|j: int|
            0 <= j < kept_items(ps).len() ==> {
                &&& (#[trigger] kept_items(ps)[j]).len() > 0
                &&& !is_white_space(kept_items(ps)[j][0])
                &&& !is_white_space(kept_items(ps)[j].last())
            },
    decreases ps.len(),
{
    if ps.len() > 0 {
        lemma_kept_items_clean(ps.drop_last());
        lemma_trim_clean(ps.last());
        let rest = kept_items(ps.drop_last());
        let t = trim(ps.last());
        if t.len() > 0 {
            assert forall|j: int| 0 <= j < kept_items(ps).len() implies {
                &&& (#[trigger] kept_items(ps)[j]).len() > 0
                &&& !is_white_space(kept_items(ps)[j][0])
                &&& !is_white_space(kept_items(ps)[j].last())
            } by {
                if j < rest.len() {
                    assert(kept_items(ps)[j] == rest[j]);
                } else {
                    assert(kept_items(ps)[j] == t);
                }
            }
        }
    }
}

/// Every item of a comma-separated list is non-empty (leading, trailing and
/// repeated commas give no item) and has no surrounding whitespace.
pub proof fn lemma_list_items_clean(s: Seq<char>)
    ensures
        forall|j: int|
            0 <= j < list_items(s).len() ==> {
                &&& (#[trigger] list_items(s)[j]).len() > 0
                &&& !is_white_space(list_items(s)[j][0])
                &&& !is_white_space(list_items(s)[j].last())
            },
{
    lemma_kept_items_clean(split_commas(s));
}

/// The pieces `ps` written one after the other with a comma between each
/// two.
pub open spec fn join_commas(ps: Seq<Seq<char>>) -> Seq<char>
    decreases ps.len(),
{
    if ps.len() == 0 {
        Seq::empty()
    } else if ps.len() == 1 {
        ps[0]
    } else {
        join_commas(ps.drop_last()) + seq![','] + ps.last()
    }
}

/// Cutting a text at its commas gives pieces that hold no comma and that,
/// joined again with commas, give back the text.
pub proof fn lemma_split_commas_rejoins(s: Seq<char>)
    ensures
        join_commas(split_commas(s)) == s,
        forall|j: int, k: int|
            0 <= j < split_commas(s).len() && 0 <= k < split_commas(s)[j].len() ==> #[trigger] split_commas(
                s,
            )[j][k] != ',',
    decreases s.len(),
{
    if s.len() == 0 {
        assert(split_commas(s) =~= seq![Seq::<char>::empty()]);
        assert(s =~= Seq::<char>::empty());
    } else {
        let q = s.drop_last();
        let c = s.last();
        let p = split_commas(q);
        lemma_split_commas_rejoins(q);
        lemma_split_nonempty(q);
        let r = split_commas(s);
        if c == ',' {
            assert(r == p.push(Seq::empty()));
            assert(r.drop_last() =~= p);
            assert(join_commas(r) == join_commas(p) + seq![','] + Seq::<char>::empty());
            assert(join_commas(r) =~= s);
            assert forall|j: int, k: int| 0 <= j < r.len() && 0 <= k < r[j].len() implies #[trigger] r[j][k]
                != ',' by {
                assert(r[j] == p[j]);
            }
        } else {
            let last = p.last().push(c);
            assert(r == p.update(p.len() - 1, last));
            if p.len() == 1 {
                assert(join_commas(r) == r[0]);
                assert(join_commas(p) == p[0]);
                assert(join_commas(r) =~= s);
            } else {
                assert(r.drop_last() =~= p.drop_last());
                assert(join_commas(r) == join_commas(p.drop_last()) + seq![','] + last);
                assert(join_commas(p) == join_commas(p.drop_last()) + seq![','] + p.last());
                assert(join_commas(r) =~= join_commas(p).push(c));
                assert(s =~= q.push(c));
            }
            assert forall|j: int, k: int| 0 <= j < r.len() && 0 <= k < r[j].len() implies #[trigger] r[j][k]
                != ',' by {
                if j < p.len() - 1 {
                    assert(r[j] == p[j]);
                } else if k < p.last().len() {
                    assert(r[j][k] == p.last()[k]);
                } else {
                    assert(r[j][k] == c);
                }
            }
        }
    }
}

/// The items kept from the pieces `ps` are the trimmed pieces, in order,
/// without those that are left empty, and nothing else: every piece that is
/// not blank gives one item, whatever the items before it.
pub proof fn lemma_kept_items_are_nonblank_pieces(ps: Seq<Seq<char>>)
    ensures
        kept_items(ps) == ps.map_values(|p: Seq<char>| trim(p)).filter(|t: Seq<char>| t.len() > 0),
    decreases ps.len(),
{
    let f = |p: Seq<char>| trim(p);
    let keep = |t: Seq<char>| t.len() > 0;
    if ps.len() > 0 {
        lemma_kept_items_are_nonblank_pieces(ps.drop_last());
        let ts = ps.map_values(f);
        assert(ts.drop_last() =~= ps.drop_last().map_values(f));
        assert(ts.last() == trim(ps.last()));
        reveal(Seq::filter);
    } else {
        assert(ps.map_values(f) =~= Seq::<Seq<char>>::empty());
    }
}

/// The items of a comma-separated list are its comma-separated pieces,
/// trimmed, without the blank ones: an item equal to the one before it is
/// kept like any other.
pub proof fn lemma_list_items_are_nonblank_pieces(s: Seq<char>)
    ensures
        trim(s).len() > 0 ==> list_items(s) == split_commas(s).map_values(|p: Seq<char>| trim(p)).filter(
            |t: Seq<char>| t.len() > 0,
        ),
        trim(s).len() == 0 ==> list_items(s).len() == 0,
{
    lemma_kept_items_are_nonblank_pieces(split_commas(s));
}

} // verus!
