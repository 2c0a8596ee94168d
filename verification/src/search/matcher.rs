//! A single-pattern matcher: one match policy, the case flag, and an
//! optionally precompiled regular expression, applied to one filename
//! at a time. Its fuzzy measure is a simpler one than the search
//! engine's: a greedy subsequence scan with a small bonus for runs.

use vstd::prelude::*;

use crate::foreign::{regex_compiles, regex_matched, regex_source, glob_compiles, glob_matched};
use crate::score::{min2, SCORE_SCALE};
use crate::search::regex_query;
use crate::text::{chars_of, contains_char, contains_seq, fold_case, folded, is_substring};

verus! {

/// Types of pattern matching supported.
pub enum MatchType {
    /// Exact string matching
    Exact,
    /// Substring matching
    Substring,
    /// Regular expression matching
    Regex,
    /// Fuzzy matching with typo tolerance
    Fuzzy,
}

/// Pattern matcher with configurable matching behavior.
pub struct Matcher {
    /// The match policy.
    pub match_type: MatchType,
    /// Whether comparisons keep case.
    pub case_sensitive: bool,
    /// The precompiled pattern, for the regex policy.
    pub compiled_regex: Option<regex::Regex>,
}

/// The pattern text the matcher's compiled regex holds, if any.
pub open spec fn regex_text(m: Matcher) -> Option<Seq<char>> {
    match m.compiled_regex {
        Some(re) => Some(regex_source(re)),
        None => None,
    }
}

/// The state of the matcher's greedy subsequence scan: matched query
/// characters and current run, with the raw score in twentieths (each
/// match adds two plus the run length).
pub ghost struct MatcherScan {
    pub qi: int,
    pub run: int,
    pub raw: int,
}

/// The matcher's greedy left-to-right scan of `f` against `q`.
pub open spec fn matcher_scan(f: Seq<char>, q: Seq<char>) -> MatcherScan
    decreases f.len(),
{
    if f.len() == 0 {
        MatcherScan { qi: 0, run: 0, raw: 0 }
    } else {
        let st = matcher_scan(f.drop_last(), q);
        if st.qi < q.len() && f.last() == q[st.qi] {
            MatcherScan { qi: st.qi + 1, run: st.run + 1, raw: st.raw + 2 + (st.run + 1) }
        } else {
            MatcherScan { qi: st.qi, run: 0, raw: st.raw }
        }
    }
}

/// Bounds the matcher's scan state keeps at every prefix.
pub proof fn lemma_matcher_scan_bounds(f: Seq<char>, q: Seq<char>)
    ensures
        0 <= matcher_scan(f, q).qi <= min2(f.len() as int, q.len() as int),
        0 <= matcher_scan(f, q).run <= matcher_scan(f, q).qi,
        0 <= matcher_scan(f, q).raw,
        2 * matcher_scan(f, q).raw <= 4 * matcher_scan(f, q).qi + matcher_scan(f, q).qi
            * matcher_scan(f, q).qi + matcher_scan(f, q).qi,
    decreases f.len(),
{
    if f.len() == 0 {
    } else {
        lemma_matcher_scan_bounds(f.drop_last(), q);
        let st = matcher_scan(f.drop_last(), q);
        let st2 = matcher_scan(f, q);
        if st.qi < q.len() && f.last() == q[st.qi] {
            assert(2 * st2.raw <= 4 * st2.qi + st2.qi * st2.qi + st2.qi) by (nonlinear_arith)
                requires
                    st2.raw == st.raw + 2 + (st.run + 1),
                    st2.qi == st.qi + 1,
                    0 <= st.run <= st.qi,
                    2 * st.raw <= 4 * st.qi + st.qi * st.qi + st.qi,
            ;
        }
    }
}

/// The matcher's fuzzy score in fixed point: the unit for equal folded
/// strings, `0.8` for a contained query, otherwise the scan's raw
/// score over the filename length, capped at the unit, and zero when
/// the query was not fully found.
pub open spec fn matcher_fuzzy_spec(f: Seq<char>, q: Seq<char>, case_sensitive: bool) -> int {
    let ff = folded(f, case_sensitive);
    let fq = folded(q, case_sensitive);
    if ff == fq {
        SCORE_SCALE as int
    } else if is_substring(fq, ff) {
        800_000
    } else {
        let st = matcher_scan(ff, fq);
        if st.qi == fq.len() {
            if st.raw >= 20 * ff.len() {
                SCORE_SCALE as int
            } else {
                (st.raw * (SCORE_SCALE as int)) / (20 * ff.len() as int)
            }
        } else {
            0
        }
    }
}

/// Whether the matcher accepts the filename for the query.
pub open spec fn matcher_accepts(m: Matcher, filename: Seq<char>, query: Seq<char>) -> bool {
    match m.match_type {
        MatchType::Exact => folded(filename, m.case_sensitive) == folded(query, m.case_sensitive),
        MatchType::Substring => is_substring(
            folded(query, m.case_sensitive),
            folded(filename, m.case_sensitive),
        ),
        MatchType::Regex => regex_text(m) matches Some(p) && regex_matched(p, filename),
        MatchType::Fuzzy => matcher_fuzzy_spec(filename, query, m.case_sensitive) > 0,
    }
}

/// The matcher's score: the fuzzy measure under the fuzzy policy, and
/// all or nothing under the others.
pub open spec fn matcher_score(m: Matcher, filename: Seq<char>, query: Seq<char>) -> int {
    match m.match_type {
        MatchType::Fuzzy => matcher_fuzzy_spec(filename, query, m.case_sensitive),
        _ => if matcher_accepts(m, filename, query) {
            SCORE_SCALE as int
        } else {
            0
        },
    }
}

impl Matcher {
    /// Create a new matcher with the specified type and case policy.
    pub fn new(match_type: MatchType, case_sensitive: bool) -> (r: Self)
        ensures
            r.match_type == match_type,
            r.case_sensitive == case_sensitive,
            r.compiled_regex is None,
    {
        Matcher { match_type, case_sensitive, compiled_regex: None }
    }

    /// Create a regex matcher with a precompiled pattern; under the
    /// case-insensitive policy an inline flag is prefixed.
    pub fn with_regex(pattern: &str, case_sensitive: bool) -> (r: Result<Self, regex::Error>)
        ensures
            r is Ok <==> regex_compiles(regex_query(pattern@, case_sensitive)),
            r matches Ok(m) ==> m.match_type is Regex && m.case_sensitive == case_sensitive
                && regex_text(m) == Some(regex_query(pattern@, case_sensitive)),
    {
        let full_pattern = if case_sensitive {
            String::from_str(pattern)
        } else {
            String::from_str("(?i)").concat(pattern)
        };
        match regex::Regex::new(full_pattern.as_str()) {
            Ok(re) => Ok(
                Matcher {
                    match_type: MatchType::Regex,
                    case_sensitive,
                    compiled_regex: Some(re),
                },
            ),
            Err(e) => Err(e),
        }
    }

    /// Whether the filename matches the query under the configured
    /// policy.
    pub fn matches(&self, filename: &str, query: &str) -> (r: bool)
        ensures
            r == matcher_accepts(*self, filename@, query@),
    {
        match self.match_type {
            MatchType::Exact => self.exact_match(filename, query),
            MatchType::Substring => self.substring_match(filename, query),
            MatchType::Regex => self.regex_match(filename),
            MatchType::Fuzzy => self.fuzzy_match(filename, query) > 0,
        }
    }

    /// The matching score for the filename, in fixed point.
    pub fn fuzzy_score(&self, filename: &str, query: &str) -> (s: u64)
        ensures
            s as int == matcher_score(*self, filename@, query@),
            0 <= s <= SCORE_SCALE,
    {
        match self.match_type {
            MatchType::Fuzzy => self.fuzzy_match(filename, query),
            _ => {
                if self.matches(filename, query) {
                    SCORE_SCALE
                } else {
                    0
                }
            },
        }
    }

    /// Whether the folded filename equals the folded query.
    fn exact_match(&self, filename: &str, query: &str) -> (r: bool)
        ensures
            r == (folded(filename@, self.case_sensitive) == folded(query@, self.case_sensitive)),
    {
        let ff = fold_case(filename, self.case_sensitive);
        let fq = fold_case(query, self.case_sensitive);
        ff == fq
    }

    /// Whether the folded query occurs in the folded filename.
    fn substring_match(&self, filename: &str, query: &str) -> (r: bool)
        ensures
            r == is_substring(
                folded(query@, self.case_sensitive),
                folded(filename@, self.case_sensitive),
            ),
    {
        let ff = fold_case(filename, self.case_sensitive);
        let fq = fold_case(query, self.case_sensitive);
        let ffc = chars_of(ff.as_str());
        let fqc = chars_of(fq.as_str());
        contains_seq(&ffc, &fqc)
    }

    /// Whether the precompiled pattern matches the filename; a matcher
    /// without one matches nothing.
    fn regex_match(&self, filename: &str) -> (r: bool)
        ensures
            r == (regex_text(*self) matches Some(p) && regex_matched(p, filename@)),
    {
        match &self.compiled_regex {
            Some(re) => re.is_match(filename),
            None => false,
        }
    }

    /// The fuzzy measure of the filename against the query.
    fn fuzzy_match(&self, filename: &str, query: &str) -> (s: u64)
        ensures
            s as int == matcher_fuzzy_spec(filename@, query@, self.case_sensitive),
            0 <= s <= SCORE_SCALE,
    {
        let cs = self.case_sensitive;
        let ff_s = fold_case(filename, cs);
        let fq_s = fold_case(query, cs);
        if ff_s == fq_s {
            return SCORE_SCALE;
        }
        let ff = chars_of(ff_s.as_str());
        let fq = chars_of(fq_s.as_str());
        if contains_seq(&ff, &fq) {
            return 800_000;
        }
        let lf = ff.len();
        let lq = fq.len();
        proof {
            if lq == 0 {
                assert(fq@ =~= Seq::<char>::empty());
                assert(ff@.subrange(0, 0 + fq@.len() as int) == fq@);
                assert(is_substring(fq@, ff@));
            }
        }
        let mut qi: usize = 0;
        let mut run: usize = 0;
        let mut raw: u128 = 0;
        let mut i: usize = 0;
        while i < lf
            invariant
                lf == ff@.len(),
                lq == fq@.len(),
                i <= lf,
                qi as int == matcher_scan(ff@.take(i as int), fq@).qi,
                run as int == matcher_scan(ff@.take(i as int), fq@).run,
                raw as int == matcher_scan(ff@.take(i as int), fq@).raw,
            decreases lf - i,
        {
            proof {
                assert(ff@.take(i + 1).drop_last() =~= ff@.take(i as int));
                assert(ff@.take(i + 1).last() == ff@[i as int]);
                lemma_matcher_scan_bounds(ff@.take(i + 1), fq@);
                lemma_matcher_scan_bounds(ff@.take(i as int), fq@);
                assert(fq@.len() == fq.len());
                assert(ff@.len() == ff.len());
            }
            if qi < lq && ff[i] == fq[qi] {
                proof {
                    let st2 = matcher_scan(ff@.take(i + 1), fq@);
                    assert(st2.raw < u128::MAX) by (nonlinear_arith)
                        requires
                            2 * st2.raw <= 4 * st2.qi + st2.qi * st2.qi + st2.qi,
                            0 <= st2.qi <= 0xffff_ffff_ffff_ffff,
                    ;
                }
                qi = qi + 1;
                run = run + 1;
                raw = raw + 2 + (run as u128);
            } else {
                run = 0;
            }
            i = i + 1;
        }
        proof {
            assert(ff@.take(lf as int) =~= ff@);
        }
        if qi != lq {
            return 0;
        }
        proof {
            lemma_matcher_scan_bounds(ff@, fq@);
            assert(lf >= 1);
        }
        let s: u128 = SCORE_SCALE as u128;
        if raw >= 20 * (lf as u128) {
            SCORE_SCALE
        } else {
            proof {
                crate::score::lemma_scaled_ratio_bounds(
                    matcher_scan(ff@, fq@).raw,
                    20 * lf as int,
                    SCORE_SCALE as int,
                );
            }
            let out: u128 = (raw * s) / (20 * (lf as u128));
            out as u64
        }
    }
}

/// Whether a filename matches a loose pattern: a pattern with a
/// wildcard is tried as a glob, and a plain pattern (or one whose glob
/// form does not compile) must occur in the filename.
pub open spec fn name_pattern_matches(filename: Seq<char>, pattern: Seq<char>) -> bool {
    if (pattern.contains('*') || pattern.contains('?')) && glob_compiles(pattern) {
        glob_matched(pattern, filename)
    } else {
        is_substring(pattern, filename)
    }
}

/// Matches a filename against a loose pattern, glob or substring.
pub fn matches_name_pattern(filename: &str, pattern: &str) -> (r: bool)
    ensures
        r == name_pattern_matches(filename@, pattern@),
{
    let pchars = chars_of(pattern);
    if contains_char(&pchars, '*') || contains_char(&pchars, '?') {
        match glob::Pattern::new(pattern) {
            Ok(p) => {
                return p.matches(filename);
            },
            Err(_) => {},
        }
    }
    let fchars = chars_of(filename);
    contains_seq(&fchars, &pchars)
}

} // verus!
