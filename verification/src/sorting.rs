//! Deterministic ordering of results: a total lexicographic order over
//! path strings by Unicode scalar value, a total order over scored
//! results (score descending, then path ascending), and verified sorts
//! for both. Because both orders are total, a sorted result list is
//! pinned by its contents alone, which makes every search a function of
//! its inputs.

use vstd::prelude::*;

use vstd::multiset::Multiset;
use vstd::relations::{sorted_by, total_ordering};
use vstd::seq_lib::lemma_multiset_commutative;
use vstd::seq_lib::lemma_sorted_unique;

use crate::text::chars_of;

verus! {

/// Lexicographic order on character sequences by Unicode scalar value:
/// a prefix comes before every extension of it.
pub open spec fn path_le(a: Seq<char>, b: Seq<char>) -> bool
    decreases a.len(),
{
    if a.len() == 0 {
        true
    } else if b.len() == 0 {
        false
    } else if a.first() == b.first() {
        path_le(a.drop_first(), b.drop_first())
    } else {
        (a.first() as u32) < (b.first() as u32)
    }
}

/// Distinct characters have distinct scalar values.
proof fn lemma_char_scalar_distinct(x: char, y: char)
    requires
        x != y,
    ensures
        x as u32 != y as u32,
{
}

/// Any two sequences compare one way or the other.
pub proof fn lemma_path_le_total(a: Seq<char>, b: Seq<char>)
    ensures
        path_le(a, b) || path_le(b, a),
    decreases a.len(),
{
    if a.len() == 0 || b.len() == 0 {
    } else if a.first() == b.first() {
        lemma_path_le_total(a.drop_first(), b.drop_first());
    } else {
        lemma_char_scalar_distinct(a.first(), b.first());
    }
}

/// Sequences that compare both ways are equal.
pub proof fn lemma_path_le_antisym(a: Seq<char>, b: Seq<char>)
    requires
        path_le(a, b),
        path_le(b, a),
    ensures
        a == b,
    decreases a.len(),
{
    if a.len() == 0 {
        assert(b.len() == 0);
        assert(a =~= b);
    } else {
        assert(b.len() > 0);
        if a.first() == b.first() {
            lemma_path_le_antisym(a.drop_first(), b.drop_first());
            assert(a.drop_first() == b.drop_first());
            assert(a.drop_first().len() == b.drop_first().len());
            assert(a =~= b) by {
                assert(a.len() == b.len());
                assert(forall|i: int|
                    1 <= i < a.len() ==> a[i] == a.drop_first()[i - 1] && b[i] == b.drop_first()[i
                        - 1]);
            }
        } else {
            lemma_char_scalar_distinct(a.first(), b.first());
        }
    }
}

/// The order is transitive.
pub proof fn lemma_path_le_trans(a: Seq<char>, b: Seq<char>, c: Seq<char>)
    requires
        path_le(a, b),
        path_le(b, c),
    ensures
        path_le(a, c),
    decreases a.len(),
{
    if a.len() == 0 || b.len() == 0 || c.len() == 0 {
    } else if a.first() == b.first() && b.first() == c.first() {
        lemma_path_le_trans(a.drop_first(), b.drop_first(), c.drop_first());
    }
}

/// The views of a list of strings.
pub open spec fn views_of(s: Seq<String>) -> Seq<Seq<char>> {
    s.map_values(|p: String| p@)
}

/// A list of paths in ascending lexicographic order.
pub open spec fn paths_sorted(s: Seq<Seq<char>>) -> bool {
    forall|i: int, j: int| 0 <= i < j < s.len() ==> path_le(#[trigger] s[i], #[trigger] s[j])
}

/// `path_le`, as a relation value.
pub open spec fn path_le_rel() -> spec_fn(Seq<char>, Seq<char>) -> bool {
    |a: Seq<char>, b: Seq<char>| path_le(a, b)
}

/// The lexicographic order is a total order.
pub proof fn lemma_path_le_total_ordering()
    ensures
        total_ordering(path_le_rel()),
{
    let r = path_le_rel();
    assert forall|a: Seq<char>| #[trigger] r(a, a) by {
        lemma_path_le_total(a, a);
    }
    assert forall|a: Seq<char>, b: Seq<char>| #[trigger] r(a, b) && #[trigger] r(b, a) implies a
        == b by {
        lemma_path_le_antisym(a, b);
    }
    assert forall|a: Seq<char>, b: Seq<char>, c: Seq<char>|
        #[trigger] r(a, b) && #[trigger] r(b, c) implies r(a, c) by {
        lemma_path_le_trans(a, b, c);
    }
    assert forall|a: Seq<char>, b: Seq<char>| #[trigger] r(a, b) || #[trigger] r(b, a) by {
        lemma_path_le_total(a, b);
    }
}

/// Two sorted path lists with the same contents are the same list:
/// a matcher whose contract fixes the contents and the order therefore
/// returns one and the same list on every call with the same inputs.
pub proof fn lemma_sorted_paths_unique(x: Seq<Seq<char>>, y: Seq<Seq<char>>)
    requires
        paths_sorted(x),
        paths_sorted(y),
        x.to_multiset() == y.to_multiset(),
    ensures
        x == y,
{
    lemma_path_le_total_ordering();
    assert(sorted_by(x, path_le_rel()));
    assert(sorted_by(y, path_le_rel()));
    lemma_sorted_unique(x, y, path_le_rel());
}

/// Whether `a` comes no later than `b` in lexicographic order.
pub fn chars_le(a: &Vec<char>, b: &Vec<char>) -> (r: bool)
    ensures
        r == path_le(a@, b@),
{
    let la = a.len();
    let lb = b.len();
    let mut i: usize = 0;
    proof {
        assert(a@.skip(0) =~= a@);
        assert(b@.skip(0) =~= b@);
    }
    loop
        invariant
            la == a@.len(),
            lb == b@.len(),
            i <= la,
            i <= lb,
            path_le(a@, b@) == path_le(a@.skip(i as int), b@.skip(i as int)),
            path_le(b@, a@) == path_le(b@.skip(i as int), a@.skip(i as int)),
        decreases la - i,
    {
        if i == la {
            assert(a@.skip(i as int).len() == 0);
            return true;
        }
        if i == lb {
            assert(b@.skip(i as int).len() == 0);
            assert(a@.skip(i as int).len() > 0);
            return false;
        }
        let ca = a[i];
        let cb = b[i];
        proof {
            let sa = a@.skip(i as int);
            let sb = b@.skip(i as int);
            assert(sa.first() == a@[i as int]);
            assert(sb.first() == b@[i as int]);
            assert(sa.drop_first() =~= a@.skip(i + 1));
            assert(sb.drop_first() =~= b@.skip(i + 1));
        }
        if ca != cb {
            return (ca as u32) < (cb as u32);
        }
        i = i + 1;
    }
}

/// Inserting an element anywhere adds exactly that element to the
/// contents.
proof fn lemma_insert_to_multiset<A>(s: Seq<A>, pos: int, e: A)
    requires
        0 <= pos <= s.len(),
    ensures
        s.insert(pos, e).to_multiset() == s.to_multiset().insert(e),
{
    broadcast use vstd::seq_lib::group_to_multiset_ensures;
    broadcast use vstd::multiset::group_multiset_axioms;

    let left = s.take(pos);
    let right = s.skip(pos);
    assert(s.insert(pos, e) =~= left + (seq![e] + right));
    assert(s =~= left + right);
    lemma_multiset_commutative(left, seq![e] + right);
    lemma_multiset_commutative(seq![e], right);
    lemma_multiset_commutative(left, right);
    assert(seq![e].to_multiset() =~= Multiset::empty().insert(e)) by {
        assert(seq![e].drop_first() =~= Seq::<A>::empty());
    }
    assert(s.insert(pos, e).to_multiset() =~= s.to_multiset().insert(e));
}

/// Sorts paths ascending by the lexicographic order, keeping exactly
/// the given contents.
pub fn sort_paths(v: Vec<String>) -> (r: Vec<String>)
    ensures
        paths_sorted(views_of(r@)),
        views_of(r@).to_multiset() == views_of(v@).to_multiset(),
{
    broadcast use vstd::seq_lib::group_to_multiset_ensures;
    broadcast use vstd::multiset::group_multiset_axioms;

    let mut src = v;
    let mut out: Vec<String> = Vec::new();
    proof {
        assert(views_of(out@) =~= Seq::<Seq<char>>::empty());
        assert(views_of(out@).to_multiset().add(views_of(src@).to_multiset()) =~= views_of(
            v@,
        ).to_multiset());
    }
    loop
        invariant_except_break
            paths_sorted(views_of(out@)),
            views_of(out@).to_multiset().add(views_of(src@).to_multiset()) == views_of(
                v@,
            ).to_multiset(),
        ensures
            paths_sorted(views_of(out@)),
            views_of(out@).to_multiset() == views_of(v@).to_multiset(),
        decreases src@.len(),
    {
        if src.len() == 0 {
            proof {
                broadcast use vstd::multiset::lemma_multiset_empty_len;

                assert(views_of(src@) =~= Seq::<Seq<char>>::empty());
                views_of(src@).to_multiset_ensures();
                assert(views_of(src@).to_multiset().len() == 0);
                assert(views_of(src@).to_multiset() =~= Multiset::empty());
                assert(views_of(out@).to_multiset().add(Multiset::empty()) =~= views_of(
                    out@,
                ).to_multiset());
            }
            break ;
        }
        let ghost src_pre = src@;
        let x = src.pop().unwrap();
        proof {
            assert(views_of(src_pre).drop_last() =~= views_of(src@));
            assert(views_of(src_pre).to_multiset() =~= views_of(src@).to_multiset().insert(x@)) by {
                assert(views_of(src_pre) =~= views_of(src@).push(x@));
                views_of(src@).to_multiset_ensures();
                assert(views_of(src@).push(x@).to_multiset() =~= views_of(src@).to_multiset().insert(
                    x@,
                ));
            }
        }
        let xc = chars_of(x.as_str());
        let mut pos: usize = 0;
        loop
            invariant_except_break
                pos <= out@.len(),
                xc@ == x@,
                forall|k: int| 0 <= k < pos ==> path_le(#[trigger] views_of(out@)[k], x@),
            ensures
                pos <= out@.len(),
                forall|k: int| 0 <= k < pos ==> path_le(#[trigger] views_of(out@)[k], x@),
                pos < out@.len() ==> !path_le(views_of(out@)[pos as int], x@),
            decreases out@.len() - pos,
        {
            if pos == out.len() {
                break ;
            }
            let oc = chars_of(out[pos].as_str());
            if !chars_le(&oc, &xc) {
                break ;
            }
            pos = pos + 1;
        }
        proof {
            if pos < out@.len() {
                assert(!path_le(views_of(out@)[pos as int], x@));
                lemma_path_le_total(views_of(out@)[pos as int], x@);
                assert(path_le(x@, views_of(out@)[pos as int]));
                assert forall|k: int| pos <= k < out@.len() implies path_le(
                    x@,
                    #[trigger] views_of(out@)[k],
                ) by {
                    if k > pos {
                        assert(path_le(views_of(out@)[pos as int], views_of(out@)[k]));
                        lemma_path_le_trans(x@, views_of(out@)[pos as int], views_of(out@)[k]);
                    }
                }
            }
        }
        let ghost out_pre = out@;
        out.insert(pos, x);
        proof {
            assert(views_of(out@) =~= views_of(out_pre).insert(pos as int, x@));
            lemma_insert_to_multiset(views_of(out_pre), pos as int, x@);
            assert forall|i: int, j: int| 0 <= i < j < views_of(out@).len() implies path_le(
                #[trigger] views_of(out@)[i],
                #[trigger] views_of(out@)[j],
            ) by {
                let s = views_of(out_pre).insert(pos as int, x@);
                assert(forall|k: int| 0 <= k < pos ==> s[k] == views_of(out_pre)[k]);
                assert(s[pos as int] == x@);
                assert(forall|k: int|
                    pos < k < s.len() ==> s[k] == views_of(out_pre)[k - 1]);
                if j < pos {
                } else if i == pos {
                    assert(path_le(x@, views_of(out_pre)[j - 1]));
                } else if j == pos {
                    assert(path_le(views_of(out_pre)[i], x@));
                } else if i < pos && j > pos {
                } else {
                }
            }
        }
    }
    out
}

/// Order on scored results: larger scores first, ties broken by the
/// path order ascending.
pub open spec fn scored_le(x: (Seq<char>, u64), y: (Seq<char>, u64)) -> bool {
    x.1 > y.1 || (x.1 == y.1 && path_le(x.0, y.0))
}

/// The views of a list of scored paths.
pub open spec fn scored_views(s: Seq<(String, u64)>) -> Seq<(Seq<char>, u64)> {
    s.map_values(|p: (String, u64)| (p.0@, p.1))
}

/// A list of scored results in order: scores never increase, equal
/// scores keep paths ascending.
pub open spec fn scored_sorted(s: Seq<(Seq<char>, u64)>) -> bool {
    forall|i: int, j: int| 0 <= i < j < s.len() ==> scored_le(#[trigger] s[i], #[trigger] s[j])
}

/// `scored_le`, as a relation value.
pub open spec fn scored_le_rel() -> spec_fn((Seq<char>, u64), (Seq<char>, u64)) -> bool {
    |x: (Seq<char>, u64), y: (Seq<char>, u64)| scored_le(x, y)
}

/// The scored order is a total order.
pub proof fn lemma_scored_le_total_ordering()
    ensures
        total_ordering(scored_le_rel()),
{
    let r = scored_le_rel();
    assert forall|a: (Seq<char>, u64)| #[trigger] r(a, a) by {
        lemma_path_le_total(a.0, a.0);
    }
    assert forall|a: (Seq<char>, u64), b: (Seq<char>, u64)|
        #[trigger] r(a, b) && #[trigger] r(b, a) implies a == b by {
        lemma_path_le_antisym(a.0, b.0);
    }
    assert forall|a: (Seq<char>, u64), b: (Seq<char>, u64), c: (Seq<char>, u64)|
        #[trigger] r(a, b) && #[trigger] r(b, c) implies r(a, c) by {
        if a.1 == b.1 && b.1 == c.1 {
            lemma_path_le_trans(a.0, b.0, c.0);
        }
    }
    assert forall|a: (Seq<char>, u64), b: (Seq<char>, u64)| #[trigger] r(a, b) || #[trigger] r(
        b,
        a,
    ) by {
        lemma_path_le_total(a.0, b.0);
    }
}

/// Two sorted scored lists with the same contents are the same list.
pub proof fn lemma_sorted_scored_unique(x: Seq<(Seq<char>, u64)>, y: Seq<(Seq<char>, u64)>)
    requires
        scored_sorted(x),
        scored_sorted(y),
        x.to_multiset() == y.to_multiset(),
    ensures
        x == y,
{
    lemma_scored_le_total_ordering();
    assert(sorted_by(x, scored_le_rel()));
    assert(sorted_by(y, scored_le_rel()));
    lemma_sorted_unique(x, y, scored_le_rel());
}

/// Sorts scored results by descending score, ties by path ascending,
/// keeping exactly the given contents.
pub fn sort_scored(v: Vec<(String, u64)>) -> (r: Vec<(String, u64)>)
    ensures
        scored_sorted(scored_views(r@)),
        scored_views(r@).to_multiset() == scored_views(v@).to_multiset(),
{
    broadcast use vstd::seq_lib::group_to_multiset_ensures;
    broadcast use vstd::multiset::group_multiset_axioms;

    let mut src = v;
    let mut out: Vec<(String, u64)> = Vec::new();
    proof {
        assert(scored_views(out@) =~= Seq::<(Seq<char>, u64)>::empty());
        assert(scored_views(out@).to_multiset().add(scored_views(src@).to_multiset())
            =~= scored_views(v@).to_multiset());
    }
    loop
        invariant_except_break
            scored_sorted(scored_views(out@)),
            scored_views(out@).to_multiset().add(scored_views(src@).to_multiset()) == scored_views(
                v@,
            ).to_multiset(),
        ensures
            scored_sorted(scored_views(out@)),
            scored_views(out@).to_multiset() == scored_views(v@).to_multiset(),
        decreases src@.len(),
    {
        if src.len() == 0 {
            proof {
                broadcast use vstd::multiset::lemma_multiset_empty_len;

                assert(scored_views(src@) =~= Seq::<(Seq<char>, u64)>::empty());
                scored_views(src@).to_multiset_ensures();
                assert(scored_views(src@).to_multiset().len() == 0);
                assert(scored_views(src@).to_multiset() =~= Multiset::empty());
                assert(scored_views(out@).to_multiset().add(Multiset::empty()) =~= scored_views(
                    out@,
                ).to_multiset());
            }
            break ;
        }
        let ghost src_pre = src@;
        let x = src.pop().unwrap();
        let ghost xv = (x.0@, x.1);
        proof {
            assert(scored_views(src_pre).drop_last() =~= scored_views(src@));
            assert(scored_views(src_pre).to_multiset() =~= scored_views(src@).to_multiset().insert(
                xv,
            )) by {
                assert(scored_views(src_pre) =~= scored_views(src@).push(xv));
                scored_views(src@).to_multiset_ensures();
                assert(scored_views(src@).push(xv).to_multiset() =~= scored_views(
                    src@,
                ).to_multiset().insert(xv));
            }
        }
        let xc = chars_of(x.0.as_str());
        let xs = x.1;
        let mut pos: usize = 0;
        loop
            invariant_except_break
                pos <= out@.len(),
                xc@ == x.0@,
                xs == x.1,
                xv == (x.0@, x.1),
                forall|k: int| 0 <= k < pos ==> scored_le(#[trigger] scored_views(out@)[k], xv),
            ensures
                pos <= out@.len(),
                forall|k: int| 0 <= k < pos ==> scored_le(#[trigger] scored_views(out@)[k], xv),
                pos < out@.len() ==> !scored_le(scored_views(out@)[pos as int], xv),
            decreases out@.len() - pos,
        {
            if pos == out.len() {
                break ;
            }
            let keeps_going = if out[pos].1 > xs {
                true
            } else if out[pos].1 == xs {
                let oc = chars_of(out[pos].0.as_str());
                chars_le(&oc, &xc)
            } else {
                false
            };
            if !keeps_going {
                break ;
            }
            pos = pos + 1;
        }
        proof {
            if pos < out@.len() {
                assert(!scored_le(scored_views(out@)[pos as int], xv));
                let p = scored_views(out@)[pos as int];
                lemma_path_le_total(xv.0, p.0);
                assert(scored_le(xv, p));
                assert forall|k: int| pos <= k < out@.len() implies scored_le(
                    xv,
                    #[trigger] scored_views(out@)[k],
                ) by {
                    if k > pos {
                        let q = scored_views(out@)[k];
                        assert(scored_le(p, q));
                        if xv.1 == p.1 && p.1 == q.1 {
                            lemma_path_le_trans(xv.0, p.0, q.0);
                        }
                    }
                }
            }
        }
        let ghost out_pre = out@;
        out.insert(pos, x);
        proof {
            assert(scored_views(out@) =~= scored_views(out_pre).insert(pos as int, xv));
            lemma_insert_to_multiset(scored_views(out_pre), pos as int, xv);
            assert forall|i: int, j: int| 0 <= i < j < scored_views(out@).len() implies scored_le(
                #[trigger] scored_views(out@)[i],
                #[trigger] scored_views(out@)[j],
            ) by {
                let s = scored_views(out_pre).insert(pos as int, xv);
                assert(forall|k: int| 0 <= k < pos ==> s[k] == scored_views(out_pre)[k]);
                assert(s[pos as int] == xv);
                assert(forall|k: int|
                    pos < k < s.len() ==> s[k] == scored_views(out_pre)[k - 1]);
                if j < pos {
                } else if i == pos {
                    assert(scored_le(xv, scored_views(out_pre)[j - 1]));
                } else if j == pos {
                    assert(scored_le(scored_views(out_pre)[i], xv));
                } else {
                }
            }
        }
    }
    out
}

} // verus!
