//! The similarity scorer: edit-distance, subsequence and bigram measures
//! over character sequences, combined into one confidence score.
//!
//! Scores are held in fixed point: the unit score `1.0` is
//! `SCORE_SCALE`, and every reported score lies in `[0, SCORE_SCALE]`.
//! Each component mirrors a real-valued formula with division rounded
//! toward zero.

use vstd::prelude::*;

use vstd::arithmetic::div_mod::{lemma_div_is_ordered, lemma_div_multiples_vanish};

use crate::text::{chars_of, fold_case, contains_seq, folded, is_substring};

verus! {

/// The fixed-point representation of the score `1.0`.
pub const SCORE_SCALE: u64 = 1_000_000;

/// The larger of two integers.
pub open spec fn max2(a: int, b: int) -> int {
    if a >= b {
        a
    } else {
        b
    }
}

/// The smaller of two integers.
pub open spec fn min2(a: int, b: int) -> int {
    if a <= b {
        a
    } else {
        b
    }
}

/// The Levenshtein edit distance between `a` and `b`: the least number
/// of single-character insertions, deletions and substitutions that
/// turns one into the other.
pub open spec fn lev_dist(a: Seq<char>, b: Seq<char>) -> int
    decreases a.len(), b.len(),
{
    if a.len() == 0 {
        b.len() as int
    } else if b.len() == 0 {
        a.len() as int
    } else {
        let d_del = lev_dist(a.drop_last(), b) + 1;
        let d_ins = lev_dist(a, b.drop_last()) + 1;
        let d_sub = lev_dist(a.drop_last(), b.drop_last()) + (if a.last() == b.last() {
            0int
        } else {
            1int
        });
        min2(d_del, min2(d_ins, d_sub))
    }
}

/// The edit distance is at least zero and at most the longer length.
pub proof fn lemma_lev_dist_bounds(a: Seq<char>, b: Seq<char>)
    ensures
        0 <= lev_dist(a, b),
        lev_dist(a, b) <= max2(a.len() as int, b.len() as int),
    decreases a.len(), b.len(),
{
    if a.len() == 0 {
    } else if b.len() == 0 {
    } else {
        lemma_lev_dist_bounds(a.drop_last(), b);
        lemma_lev_dist_bounds(a, b.drop_last());
        lemma_lev_dist_bounds(a.drop_last(), b.drop_last());
    }
}

/// For `0 <= x <= m` and positive `m`, `s`: the scaled ratio `x*s/m`
/// lies in `[0, s]`.
pub proof fn lemma_scaled_ratio_bounds(x: int, m: int, s: int)
    requires
        0 <= x <= m,
        0 < m,
        0 < s,
    ensures
        0 <= (x * s) / m <= s,
{
    assert(0 <= x * s) by (nonlinear_arith)
        requires
            0 <= x,
            0 < s,
    ;
    assert(x * s <= m * s) by (nonlinear_arith)
        requires
            x <= m,
            0 < s,
    ;
    lemma_div_is_ordered(0, x * s, m);
    lemma_div_is_ordered(x * s, m * s, m);
    lemma_div_multiples_vanish(s, m);
}

/// The edit-distance component: `1 - distance/max(len)` in fixed point,
/// `1.0` when both sequences are empty.
pub open spec fn lev_scaled(a: Seq<char>, b: Seq<char>) -> int {
    let m = max2(a.len() as int, b.len() as int);
    if m == 0 {
        SCORE_SCALE as int
    } else {
        ((m - lev_dist(a, b)) * (SCORE_SCALE as int)) / m
    }
}

/// The edit-distance component always lies in `[0, SCORE_SCALE]`.
pub proof fn lemma_lev_scaled_range(a: Seq<char>, b: Seq<char>)
    ensures
        0 <= lev_scaled(a, b) <= SCORE_SCALE as int,
{
    let m = max2(a.len() as int, b.len() as int);
    if m != 0 {
        lemma_lev_dist_bounds(a, b);
        lemma_scaled_ratio_bounds(m - lev_dist(a, b), m, SCORE_SCALE as int);
    }
}

/// The Levenshtein distance, by the classic two-row dynamic program over
/// character prefixes.
pub fn levenshtein_distance(a: &Vec<char>, b: &Vec<char>) -> (d: u128)
    ensures
        d as int == lev_dist(a@, b@),
{
    let la = a.len();
    let lb = b.len();
    if la == 0 {
        assert(a@.len() == 0);
        return lb as u128;
    }
    if lb == 0 {
        return la as u128;
    }
    let mut prev: Vec<u128> = Vec::new();
    let mut j: usize = 0;
    loop
        invariant_except_break
            lb == b@.len(),
            la == a@.len(),
            j <= lb,
            prev@.len() == j,
            forall|k: int| 0 <= k < j ==> #[trigger] prev@[k] == lev_dist(a@.take(0), b@.take(k)),
        ensures
            lb == b@.len(),
            la == a@.len(),
            prev@.len() == lb + 1,
            forall|k: int| 0 <= k <= lb ==> #[trigger] prev@[k] == lev_dist(a@.take(0), b@.take(k)),
        decreases lb - j,
    {
        proof {
            assert(a@.take(0) =~= Seq::<char>::empty());
            assert(b@.take(j as int).len() == j);
        }
        prev.push(j as u128);
        if j == lb {
            break ;
        }
        j = j + 1;
    }
    let mut i: usize = 1;
    loop
        invariant_except_break
            1 <= i <= la,
            lb == b@.len(),
            la == a@.len(),
            la >= 1,
            lb >= 1,
            prev@.len() == lb + 1,
            forall|k: int|
                0 <= k <= lb ==> #[trigger] prev@[k] == lev_dist(a@.take(i - 1), b@.take(k)),
        ensures
            lb == b@.len(),
            la == a@.len(),
            prev@.len() == lb + 1,
            forall|k: int|
                0 <= k <= lb ==> #[trigger] prev@[k] == lev_dist(a@.take(la as int), b@.take(k)),
        decreases la - i,
    {
        let mut curr: Vec<u128> = Vec::new();
        proof {
            assert(b@.take(0) =~= Seq::<char>::empty());
            assert(a@.take(i as int).len() == i);
        }
        curr.push(i as u128);
        let mut j: usize = 1;
        loop
            invariant_except_break
                1 <= i <= la,
                1 <= j <= lb,
                lb == b@.len(),
                la == a@.len(),
                prev@.len() == lb + 1,
                forall|k: int|
                    0 <= k <= lb ==> #[trigger] prev@[k] == lev_dist(a@.take(i - 1), b@.take(k)),
                curr@.len() == j,
                forall|k: int|
                    0 <= k < j ==> #[trigger] curr@[k] == lev_dist(a@.take(i as int), b@.take(k)),
            ensures
                curr@.len() == lb + 1,
                forall|k: int|
                    0 <= k <= lb ==> #[trigger] curr@[k] == lev_dist(a@.take(i as int), b@.take(k)),
            decreases lb - j,
        {
            let cost: u128 = if a[i - 1] == b[j - 1] {
                0
            } else {
                1
            };
            proof {
                lemma_lev_dist_bounds(a@.take(i as int), b@.take(j - 1));
                lemma_lev_dist_bounds(a@.take(i - 1), b@.take(j as int));
                lemma_lev_dist_bounds(a@.take(i - 1), b@.take(j - 1));
                assert(a@.len() == a.len());
                assert(b@.len() == b.len());
            }
            let d_ins = curr[j - 1] + 1;
            let d_del = prev[j] + 1;
            let d_sub = prev[j - 1] + cost;
            let mut best = d_ins;
            if d_del < best {
                best = d_del;
            }
            if d_sub < best {
                best = d_sub;
            }
            proof {
                let ai = a@.take(i as int);
                let bj = b@.take(j as int);
                assert(ai.drop_last() =~= a@.take(i - 1));
                assert(bj.drop_last() =~= b@.take(j - 1));
                assert(ai.last() == a@[i - 1]);
                assert(bj.last() == b@[j - 1]);
                assert(lev_dist(ai, bj) == min2(
                    lev_dist(ai.drop_last(), bj) + 1,
                    min2(
                        lev_dist(ai, bj.drop_last()) + 1,
                        lev_dist(ai.drop_last(), bj.drop_last()) + (if ai.last() == bj.last() {
                            0int
                        } else {
                            1int
                        }),
                    ),
                ));
            }
            curr.push(best);
            if j == lb {
                break ;
            }
            j = j + 1;
        }
        prev = curr;
        if i == la {
            break ;
        }
        i = i + 1;
    }
    proof {
        assert(a@.take(la as int) =~= a@);
        assert(b@.take(lb as int) =~= b@);
    }
    prev[lb]
}

/// The state of the greedy subsequence scan after some prefix of the
/// filename has been read: how many query characters were matched
/// (`qi`), the current and best run of consecutive matches (`run`,
/// `best`), and the accumulated raw score in tenths (`raw`; each match
/// adds ten plus the run length).
pub ghost struct SubseqScan {
    pub qi: int,
    pub run: int,
    pub best: int,
    pub raw: int,
}

/// The greedy left-to-right subsequence scan of `f` against `q`.
pub open spec fn subseq_scan(f: Seq<char>, q: Seq<char>) -> SubseqScan
    decreases f.len(),
{
    if f.len() == 0 {
        SubseqScan { qi: 0, run: 0, best: 0, raw: 0 }
    } else {
        let st = subseq_scan(f.drop_last(), q);
        if st.qi < q.len() && f.last() == q[st.qi] {
            SubseqScan {
                qi: st.qi + 1,
                run: st.run + 1,
                best: max2(st.best, st.run + 1),
                raw: st.raw + 10 + (st.run + 1),
            }
        } else {
            SubseqScan { qi: st.qi, run: 0, best: st.best, raw: st.raw }
        }
    }
}

/// Bounds that the scan state keeps at every prefix.
pub proof fn lemma_subseq_scan_bounds(f: Seq<char>, q: Seq<char>)
    ensures
        0 <= subseq_scan(f, q).qi <= min2(f.len() as int, q.len() as int),
        0 <= subseq_scan(f, q).run <= subseq_scan(f, q).qi,
        subseq_scan(f, q).run <= subseq_scan(f, q).best <= subseq_scan(f, q).qi,
        0 <= subseq_scan(f, q).raw,
        2 * subseq_scan(f, q).raw <= 20 * subseq_scan(f, q).qi + subseq_scan(f, q).qi
            * subseq_scan(f, q).qi + subseq_scan(f, q).qi,
    decreases f.len(),
{
    if f.len() == 0 {
    } else {
        lemma_subseq_scan_bounds(f.drop_last(), q);
        let st = subseq_scan(f.drop_last(), q);
        let st2 = subseq_scan(f, q);
        if st.qi < q.len() && f.last() == q[st.qi] {
            assert(2 * st2.raw <= 20 * st2.qi + st2.qi * st2.qi + st2.qi) by (nonlinear_arith)
                requires
                    st2.raw == st.raw + 10 + (st.run + 1),
                    st2.qi == st.qi + 1,
                    0 <= st.run <= st.qi,
                    2 * st.raw <= 20 * st.qi + st.qi * st.qi + st.qi,
            ;
        }
    }
}

/// For `0 <= x <= k*m` and positive `m`, `s`: the scaled ratio `x*s/m`
/// lies in `[0, k*s]`.
proof fn lemma_scaled_ratio_bounds_k(x: int, m: int, s: int, k: int)
    requires
        0 <= x <= k * m,
        0 < m,
        0 < s,
        0 <= k,
    ensures
        0 <= (x * s) / m <= k * s,
{
    assert(0 <= x * s) by (nonlinear_arith)
        requires
            0 <= x,
            0 < s,
    ;
    assert(x * s <= m * (k * s)) by (nonlinear_arith)
        requires
            x <= k * m,
            0 < s,
            0 < m,
    ;
    lemma_div_is_ordered(0, x * s, m);
    lemma_div_is_ordered(x * s, m * (k * s), m);
    lemma_div_multiples_vanish(k * s, m);
}

/// The subsequence component in fixed point: coverage, completeness and
/// consecutiveness are blended 4:4:2 when the whole query was found in
/// order, and the component is zero otherwise. An empty query counts as
/// fully covered. Coverage saturates at ten times the unit score, which
/// never changes the final (clamped) fuzzy score.
pub open spec fn subseq_scaled(f: Seq<char>, q: Seq<char>) -> int {
    if q.len() == 0 {
        SCORE_SCALE as int
    } else {
        let st = subseq_scan(f, q);
        if st.qi == q.len() {
            let cov = if st.raw >= 100 * f.len() {
                10 * SCORE_SCALE as int
            } else {
                (st.raw * (SCORE_SCALE as int)) / (10 * f.len() as int)
            };
            let cons = (st.best * (SCORE_SCALE as int)) / (q.len() as int);
            (4 * cov + 4 * (SCORE_SCALE as int) + 2 * cons) / 10
        } else {
            0
        }
    }
}

/// The subsequence component always lies in `[0, 4_600_000]`.
pub proof fn lemma_subseq_scaled_range(f: Seq<char>, q: Seq<char>)
    ensures
        0 <= subseq_scaled(f, q) <= 4_600_000,
{
    if q.len() != 0 {
        let st = subseq_scan(f, q);
        lemma_subseq_scan_bounds(f, q);
        if st.qi == q.len() {
            let s = SCORE_SCALE as int;
            if st.raw < 100 * f.len() {
                lemma_scaled_ratio_bounds_k(st.raw, 10 * f.len() as int, s, 10);
            }
            lemma_scaled_ratio_bounds_k(st.best, q.len() as int, s, 1);
        }
    }
}

/// The subsequence component of the fuzzy score, by one greedy pass
/// over the filename.
pub fn subsequence_score_scaled(f: &Vec<char>, q: &Vec<char>) -> (s: u64)
    ensures
        s as int == subseq_scaled(f@, q@),
        0 <= s <= 4_600_000,
{
    proof {
        lemma_subseq_scaled_range(f@, q@);
    }
    let lq = q.len();
    if lq == 0 {
        return SCORE_SCALE;
    }
    let lf = f.len();
    let mut qi: usize = 0;
    let mut run: usize = 0;
    let mut best: usize = 0;
    let mut raw: u128 = 0;
    let mut i: usize = 0;
    while i < lf
        invariant
            lf == f@.len(),
            lq == q@.len(),
            i <= lf,
            qi as int == subseq_scan(f@.take(i as int), q@).qi,
            run as int == subseq_scan(f@.take(i as int), q@).run,
            best as int == subseq_scan(f@.take(i as int), q@).best,
            raw as int == subseq_scan(f@.take(i as int), q@).raw,
        decreases lf - i,
    {
        proof {
            assert(f@.take(i + 1).drop_last() =~= f@.take(i as int));
            assert(f@.take(i + 1).last() == f@[i as int]);
            lemma_subseq_scan_bounds(f@.take(i + 1), q@);
            lemma_subseq_scan_bounds(f@.take(i as int), q@);
            assert(q@.len() == q.len());
            assert(f@.len() == f.len());
        }
        if qi < lq && f[i] == q[qi] {
            proof {
                let st2 = subseq_scan(f@.take(i + 1), q@);
                assert(st2.qi <= q@.len());
                assert(2 * st2.raw <= 20 * st2.qi + st2.qi * st2.qi + st2.qi);
                assert(st2.raw < u128::MAX) by (nonlinear_arith)
                    requires
                        2 * st2.raw <= 20 * st2.qi + st2.qi * st2.qi + st2.qi,
                        0 <= st2.qi <= 0xffff_ffff_ffff_ffff,
                ;
            }
            qi = qi + 1;
            run = run + 1;
            if run > best {
                best = run;
            }
            raw = raw + 10 + (run as u128);
        } else {
            run = 0;
        }
        i = i + 1;
    }
    proof {
        assert(f@.take(lf as int) =~= f@);
    }
    if qi != lq {
        return 0;
    }
    let s: u128 = SCORE_SCALE as u128;
    let ghost st = subseq_scan(f@, q@);
    proof {
        lemma_subseq_scan_bounds(f@, q@);
        assert(st.qi == lq);
        assert(lf >= 1);
    }
    let cov: u128 = if raw >= 100 * (lf as u128) {
        10 * s
    } else {
        proof {
            lemma_scaled_ratio_bounds_k(st.raw, 10 * lf as int, SCORE_SCALE as int, 10);
        }
        (raw * s) / (10 * (lf as u128))
    };
    proof {
        lemma_scaled_ratio_bounds_k(st.best, lq as int, SCORE_SCALE as int, 1);
    }
    let cons: u128 = ((best as u128) * s) / (lq as u128);
    let total: u128 = (4 * cov + 4 * s + 2 * cons) / 10;
    assert(total as int == subseq_scaled(f@, q@));
    total as u64
}

/// The two-character window of `s` that starts at `i`.
pub open spec fn bigram_at(s: Seq<char>, i: int) -> (char, char) {
    (s[i], s[i + 1])
}

/// The set of all two-character contiguous windows of `s`.
pub open spec fn bigrams(s: Seq<char>) -> Set<(char, char)> {
    Set::new(|p: (char, char)| exists|i: int| 0 <= i < s.len() - 1 && p == #[trigger] bigram_at(s, i))
}

/// The windows of a sequence of two or more characters form a finite,
/// nonempty set of at most `len - 1` elements.
pub proof fn lemma_bigrams_finite(s: Seq<char>)
    requires
        s.len() >= 2,
    ensures
        bigrams(s).finite(),
        1 <= bigrams(s).len() <= s.len() - 1,
{
    broadcast use vstd::set::group_set_axioms;
    broadcast use vstd::seq_lib::seq_to_set_is_finite;

    let w = Seq::new((s.len() - 1) as nat, |i: int| bigram_at(s, i));
    assert forall|p: (char, char)| bigrams(s).contains(p) implies w.to_set().contains(p) by {
        let i = choose|i: int| 0 <= i < s.len() - 1 && p == #[trigger] bigram_at(s, i);
        assert(w[i] == p);
        assert(w.contains(p));
    }
    assert forall|p: (char, char)| w.to_set().contains(p) implies bigrams(s).contains(p) by {
        let i = choose|i: int| 0 <= i < w.len() && w[i] == p;
        assert(p == bigram_at(s, i));
    }
    assert(bigrams(s) =~= w.to_set());
    lemma_to_set_len_le(w);
    assert(bigrams(s).contains(bigram_at(s, 0)));
    if bigrams(s).len() == 0 {
        vstd::set_lib::lemma_set_empty_equivalency_len(bigrams(s));
    }
}

/// A sequence's set has at most as many elements as the sequence.
proof fn lemma_to_set_len_le<A>(s: Seq<A>)
    ensures
        s.to_set().finite(),
        s.to_set().len() <= s.len(),
    decreases s.len(),
{
    broadcast use vstd::set::group_set_axioms;
    broadcast use vstd::seq_lib::seq_to_set_is_finite;
    broadcast use vstd::seq_lib::group_seq_properties;

    if s.len() == 0 {
        assert(s.to_set() =~= Set::<A>::empty());
    } else {
        lemma_to_set_len_le(s.drop_last());
        s.drop_last().lemma_push_to_set_commute(s.last());
        assert(s.drop_last().push(s.last()) =~= s);
        assert(s.to_set() =~= s.drop_last().to_set().insert(s.last()));
    }
}

/// The bigram-overlap component in fixed point: the shared windows over
/// the larger window count. A string shorter than two characters has
/// the whole string as its only window, so two such strings score the
/// unit when equal and zero otherwise, and a short string shares no
/// window with a longer one.
pub open spec fn ngram_scaled(a: Seq<char>, b: Seq<char>) -> int {
    if a.len() < 2 && b.len() < 2 {
        if a == b {
            SCORE_SCALE as int
        } else {
            0
        }
    } else if a.len() < 2 || b.len() < 2 {
        0
    } else {
        let common = bigrams(a).intersect(bigrams(b)).len();
        (common * (SCORE_SCALE as int)) / max2(bigrams(a).len() as int, bigrams(b).len() as int)
    }
}

/// The bigram component always lies in `[0, SCORE_SCALE]`.
pub proof fn lemma_ngram_scaled_range(a: Seq<char>, b: Seq<char>)
    ensures
        0 <= ngram_scaled(a, b) <= SCORE_SCALE as int,
{
    if a.len() >= 2 && b.len() >= 2 {
        lemma_bigrams_finite(a);
        lemma_bigrams_finite(b);
        vstd::set_lib::lemma_len_intersect(bigrams(a), bigrams(b));
        let common = bigrams(a).intersect(bigrams(b)).len();
        let mx = max2(bigrams(a).len() as int, bigrams(b).len() as int);
        lemma_scaled_ratio_bounds(common as int, mx, SCORE_SCALE as int);
    }
}

/// Whether the pair `p` occurs in `v`.
fn vec_has_pair(v: &Vec<(char, char)>, p: (char, char)) -> (r: bool)
    ensures
        r == v@.contains(p),
{
    let mut i: usize = 0;
    while i < v.len()
        invariant
            i <= v@.len(),
            forall|k: int| 0 <= k < i ==> v@[k] != p,
        decreases v@.len() - i,
    {
        if v[i].0 == p.0 && v[i].1 == p.1 {
            assert(v@[i as int] == p);
            return true;
        }
        i = i + 1;
    }
    false
}

/// The distinct two-character windows of `v`, in order of first
/// occurrence.
fn distinct_bigrams(v: &Vec<char>) -> (r: Vec<(char, char)>)
    requires
        v@.len() >= 2,
    ensures
        r@.no_duplicates(),
        r@.to_set() == bigrams(v@),
        r@.len() == bigrams(v@).len(),
        1 <= r@.len(),
{
    broadcast use vstd::set::group_set_axioms;

    let mut r: Vec<(char, char)> = Vec::new();
    let n = v.len();
    let mut i: usize = 0;
    while i < n - 1
        invariant
            n == v@.len(),
            n >= 2,
            i <= n - 1,
            r@.no_duplicates(),
            forall|p: (char, char)|
                r@.contains(p) <==> exists|k: int|
                    0 <= k < i && p == #[trigger] bigram_at(v@, k),
        decreases n - 1 - i,
    {
        let p = (v[i], v[i + 1]);
        assert(p == bigram_at(v@, i as int));
        let ghost r_old = r@;
        let present = vec_has_pair(&r, p);
        if !present {
            r.push(p);
            proof {
                assert(r@.drop_last() =~= r_old);
                assert(r@.last() == p);
                assert(forall|j: int| 0 <= j < r_old.len() ==> r@[j] == r_old[j]);
            }
        }
        proof {
            assert forall|q: (char, char)| r@.contains(q) implies (exists|k: int|
                0 <= k < i + 1 && q == #[trigger] bigram_at(v@, k)) by {
                let j = choose|j: int| 0 <= j < r@.len() && r@[j] == q;
                if j < r_old.len() {
                    assert(r_old.contains(q));
                    let k = choose|k: int| 0 <= k < i && q == #[trigger] bigram_at(v@, k);
                } else {
                    assert(q == p);
                    assert(q == bigram_at(v@, i as int));
                }
            }
            assert forall|q: (char, char)|
                (exists|k: int| 0 <= k < i + 1 && q == #[trigger] bigram_at(v@, k)) implies r@.contains(
                q,
            ) by {
                let k = choose|k: int| 0 <= k < i + 1 && q == #[trigger] bigram_at(v@, k);
                if k < i {
                    assert(r_old.contains(q));
                    let j = choose|j: int| 0 <= j < r_old.len() && r_old[j] == q;
                    assert(r@[j] == q);
                } else {
                    assert(q == p);
                    if present {
                        assert(r@.contains(p));
                    } else {
                        assert(r@[r@.len() - 1] == p);
                    }
                }
            }
        }
        i = i + 1;
    }
    proof {
        assert forall|p: (char, char)| r@.contains(p) implies bigrams(v@).contains(p) by {}
        assert forall|p: (char, char)| bigrams(v@).contains(p) implies r@.contains(p) by {
            let k = choose|k: int| 0 <= k < v@.len() - 1 && p == #[trigger] bigram_at(v@, k);
        }
        assert(r@.to_set() =~= bigrams(v@));
        r@.unique_seq_to_set();
        lemma_bigrams_finite(v@);
    }
    r
}

/// How many distinct windows of `ra` also occur in `rb`.
fn count_common_bigrams(ra: &Vec<(char, char)>, rb: &Vec<(char, char)>) -> (c: usize)
    requires
        ra@.no_duplicates(),
    ensures
        c == ra@.to_set().intersect(rb@.to_set()).len(),
{
    broadcast use vstd::set::group_set_axioms;
    broadcast use vstd::seq_lib::seq_to_set_is_finite;

    let mut c: usize = 0;
    let mut i: usize = 0;
    proof {
        assert(ra@.take(0) =~= Seq::<(char, char)>::empty());
        assert(ra@.take(0).to_set() =~= Set::<(char, char)>::empty());
        assert(ra@.take(0).to_set().intersect(rb@.to_set()) =~= Set::<(char, char)>::empty());
    }
    while i < ra.len()
        invariant
            ra@.no_duplicates(),
            i <= ra@.len(),
            c <= i,
            c == ra@.take(i as int).to_set().intersect(rb@.to_set()).len(),
        decreases ra@.len() - i,
    {
        let p = ra[i];
        let ghost pre = ra@.take(i as int);
        let ghost pre2 = ra@.take(i + 1);
        proof {
            assert(pre2 =~= pre.push(p));
            pre.lemma_push_to_set_commute(p);
            assert(pre2.to_set() =~= pre.to_set().insert(p));
            if pre.to_set().contains(p) {
                let k = choose|k: int| 0 <= k < pre.len() && pre[k] == p;
                assert(ra@[k] == ra@[i as int]);
                assert(false);
            }
        }
        if vec_has_pair(rb, p) {
            proof {
                assert(rb@.to_set().contains(p));
                assert(pre2.to_set().intersect(rb@.to_set()) =~= pre.to_set().intersect(
                    rb@.to_set(),
                ).insert(p));
                assert(!pre.to_set().intersect(rb@.to_set()).contains(p));
            }
            c = c + 1;
        } else {
            proof {
                assert(!rb@.to_set().contains(p));
                assert(pre2.to_set().intersect(rb@.to_set()) =~= pre.to_set().intersect(
                    rb@.to_set(),
                ));
            }
        }
        i = i + 1;
    }
    proof {
        assert(ra@.take(ra@.len() as int) =~= ra@);
    }
    c
}

/// The bigram component of the fuzzy score.
pub fn ngram_score_scaled(a: &Vec<char>, b: &Vec<char>) -> (s: u64)
    ensures
        s as int == ngram_scaled(a@, b@),
        0 <= s <= SCORE_SCALE,
{
    proof {
        lemma_ngram_scaled_range(a@, b@);
    }
    if a.len() < 2 && b.len() < 2 {
        let equal = if a.len() != b.len() {
            false
        } else if a.len() == 0 {
            assert(a@ =~= b@);
            true
        } else {
            let same = a[0] == b[0];
            proof {
                if same {
                    assert(a@ =~= b@);
                }
            }
            same
        };
        if equal {
            SCORE_SCALE
        } else {
            0
        }
    } else if a.len() < 2 || b.len() < 2 {
        0
    } else {
        let ra = distinct_bigrams(a);
        let rb = distinct_bigrams(b);
        let common = count_common_bigrams(&ra, &rb);
        let ca = ra.len();
        let cb = rb.len();
        let mx: u128 = if ca >= cb {
            ca as u128
        } else {
            cb as u128
        };
        proof {
            lemma_bigrams_finite(a@);
            lemma_bigrams_finite(b@);
            vstd::set_lib::lemma_len_intersect(bigrams(a@), bigrams(b@));
            lemma_scaled_ratio_bounds(common as int, mx as int, SCORE_SCALE as int);
        }
        let s128: u128 = ((common as u128) * (SCORE_SCALE as u128)) / mx;
        assert(s128 as int == ngram_scaled(a@, b@));
        s128 as u64
    }
}

/// The edit-distance component of the fuzzy score.
pub fn levenshtein_score_scaled(a: &Vec<char>, b: &Vec<char>) -> (s: u64)
    ensures
        s as int == lev_scaled(a@, b@),
        0 <= s <= SCORE_SCALE,
{
    let la = a.len();
    let lb = b.len();
    let m: u128 = if la >= lb {
        la as u128
    } else {
        lb as u128
    };
    if m == 0 {
        return SCORE_SCALE;
    }
    let d = levenshtein_distance(a, b);
    proof {
        lemma_lev_dist_bounds(a@, b@);
        lemma_scaled_ratio_bounds(m as int - d as int, m as int, SCORE_SCALE as int);
    }
    let s128 = ((m - d) * (SCORE_SCALE as u128)) / m;
    assert(s128 as int == lev_scaled(a@, b@));
    s128 as u64
}

/// A contiguous occurrence is never longer than its host, and an
/// occurrence of the same length is the host itself.
pub proof fn lemma_substring_len(needle: Seq<char>, hay: Seq<char>)
    requires
        is_substring(needle, hay),
    ensures
        needle.len() <= hay.len(),
        needle.len() == hay.len() ==> needle == hay,
{
    let i = choose|i: int|
        0 <= i <= hay.len() - needle.len() && #[trigger] hay.subrange(i, i + needle.len())
            == needle;
    if needle.len() == hay.len() {
        assert(hay.subrange(0, hay.len() as int) =~= hay);
    }
}

/// The three components blended 4:4:2, floored to zero when the blend
/// stays under `0.3`, and clamped to the unit score.
pub open spec fn fuzzy_combined(ff: Seq<char>, fq: Seq<char>) -> int {
    let c = (4 * lev_scaled(ff, fq) + 4 * subseq_scaled(ff, fq) + 2 * ngram_scaled(ff, fq)) / 10;
    if c < 300_000 {
        0
    } else if c > SCORE_SCALE as int {
        SCORE_SCALE as int
    } else {
        c
    }
}

/// The blend always lies in `[0, SCORE_SCALE]`, and is zero or at least
/// `0.3`.
pub proof fn lemma_fuzzy_combined_range(ff: Seq<char>, fq: Seq<char>)
    ensures
        0 <= fuzzy_combined(ff, fq) <= SCORE_SCALE as int,
        fuzzy_combined(ff, fq) == 0 || fuzzy_combined(ff, fq) >= 300_000,
{
    lemma_lev_scaled_range(ff, fq);
    lemma_subseq_scaled_range(ff, fq);
    lemma_ngram_scaled_range(ff, fq);
}

/// The fuzzy score of a filename against a query under a case policy,
/// in fixed point. Equal folded strings score the unit; a contained
/// query scores `0.9` less a penalty that grows with the length
/// difference; anything else gets the blended component score.
pub open spec fn score_spec(f: Seq<char>, q: Seq<char>, case_sensitive: bool) -> int {
    let ff = folded(f, case_sensitive);
    let fq = folded(q, case_sensitive);
    if ff == fq {
        SCORE_SCALE as int
    } else if is_substring(fq, ff) {
        900_000 - (((ff.len() - fq.len()) * 100_000) / (ff.len() as int))
    } else {
        fuzzy_combined(ff, fq)
    }
}

/// A filename scored against itself always gets the unit score,
/// whatever the case policy.
pub proof fn lemma_score_self(f: Seq<char>, case_sensitive: bool)
    ensures
        score_spec(f, f, case_sensitive) == SCORE_SCALE as int,
{
}

/// A query contained in the filename after folding, other than the
/// whole filename, scores between `0.8` and `0.9`.
pub proof fn lemma_score_substring(f: Seq<char>, q: Seq<char>, case_sensitive: bool)
    requires
        is_substring(folded(q, case_sensitive), folded(f, case_sensitive)),
        folded(f, case_sensitive) != folded(q, case_sensitive),
    ensures
        800_000 <= score_spec(f, q, case_sensitive) <= 900_000,
{
    let ff = folded(f, case_sensitive);
    let fq = folded(q, case_sensitive);
    lemma_substring_len(fq, ff);
    assert(fq.len() < ff.len());
    lemma_scaled_ratio_bounds(ff.len() - fq.len(), ff.len() as int, 100_000);
}

/// The fuzzy score always lies in `[0, SCORE_SCALE]`, for every pair of
/// strings and either case policy.
pub proof fn lemma_score_range(f: Seq<char>, q: Seq<char>, case_sensitive: bool)
    ensures
        0 <= score_spec(f, q, case_sensitive) <= SCORE_SCALE as int,
{
    let ff = folded(f, case_sensitive);
    let fq = folded(q, case_sensitive);
    if ff == fq {
    } else if is_substring(fq, ff) {
        lemma_score_substring(f, q, case_sensitive);
    } else {
        lemma_fuzzy_combined_range(ff, fq);
    }
}

/// The fuzzy score of `filename` against `query` under the case policy,
/// in fixed point.
pub fn fuzzy_score_scaled(filename: &str, query: &str, case_sensitive: bool) -> (s: u64)
    ensures
        s as int == score_spec(filename@, query@, case_sensitive),
        0 <= s <= SCORE_SCALE,
{
    proof {
        lemma_score_range(filename@, query@, case_sensitive);
    }
    let ff_s = fold_case(filename, case_sensitive);
    let fq_s = fold_case(query, case_sensitive);
    if ff_s == fq_s {
        return SCORE_SCALE;
    }
    let ff = chars_of(ff_s.as_str());
    let fq = chars_of(fq_s.as_str());
    if contains_seq(&ff, &fq) {
        proof {
            lemma_substring_len(fq@, ff@);
            lemma_scaled_ratio_bounds(ff@.len() - fq@.len(), ff@.len() as int, 100_000);
            assert(ff@.len() == ff.len());
            assert(fq@.len() == fq.len());
        }
        let lf: u128 = ff.len() as u128;
        let lq: u128 = fq.len() as u128;
        let penalty: u128 = ((lf - lq) * 100_000) / lf;
        return (900_000 - penalty) as u64;
    }
    let lv = levenshtein_score_scaled(&ff, &fq);
    let sb = subsequence_score_scaled(&ff, &fq);
    let ng = ngram_score_scaled(&ff, &fq);
    let c: u64 = (4 * lv + 4 * sb + 2 * ng) / 10;
    if c < 300_000 {
        0
    } else if c > SCORE_SCALE {
        SCORE_SCALE
    } else {
        c
    }
}

} // verus!
