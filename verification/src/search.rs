//! The search engine: a pattern classifier that infers whether a query
//! is meant as a regular expression, a glob or a plain substring, and
//! four matchers that apply a query to every entry of the index. Exact
//! matchers return the matching entries' paths in lexicographic order;
//! the fuzzy matcher returns scored paths, best first.

pub mod matcher;

use vstd::prelude::*;

use crate::config::Config;
use crate::error::FileSearchError;
use crate::foreign::{glob_compiles, glob_matched, glob_source, regex_compiles, regex_matched,
    regex_source};
use crate::indexer::{entry_views, FileIndex};
use crate::score::{fuzzy_score_scaled, score_spec, SCORE_SCALE};
use crate::sorting::{paths_sorted, scored_sorted, scored_views, sort_paths, sort_scored, views_of};
use crate::text::{chars_of, contains_char, contains_char_after_first, contains_digit,
    contains_pair, contains_seq, fold_case, folded, has_digit, has_pair, is_substring};

verus! {

/// Search modes supported by the search engine.
#[derive(Debug, Clone, Copy, PartialEq, Eq, Structural)]
pub enum SearchMode {
    /// Simple substring matching
    Substring,
    /// Shell-style glob patterns with wildcards
    Glob,
    /// Full regular expression support
    Regex,
    /// Fuzzy matching with typo tolerance
    Fuzzy,
}

/// Whether the query reads like a regular expression: an escape
/// indicator, an anchor, a character class, a counted brace group, an
/// alternation, a group, or a quantifier after the first character.
pub open spec fn regex_like(q: Seq<char>) -> bool {
    ||| (q.contains('\\') && (has_pair(q, '\\', 'd') || has_pair(q, '\\', 'w') || has_pair(
        q,
        '\\',
        's',
    ) || has_pair(q, '\\', '.') || has_pair(q, '\\', '^') || has_pair(q, '\\', '$')))
    ||| (q.len() > 0 && (q[0] == '^' || q[q.len() - 1] == '$'))
    ||| (q.contains('[') && q.contains(']'))
    ||| (q.contains('{') && q.contains('}') && has_digit(q))
    ||| q.contains('|')
    ||| (q.contains('(') && q.contains(')'))
    ||| (q.len() > 1 && exists|i: int| 1 <= i < q.len() && #[trigger] q[i] == '+')
}

/// Whether the query reads like a glob: it has a wildcard and none of
/// the characters that suggest a regular expression instead.
pub open spec fn glob_like(q: Seq<char>) -> bool {
    &&& (q.contains('*') || q.contains('?'))
    &&& !regex_like(q)
    &&& !(q.contains('[') || q.contains('(') || q.contains('\\') || q.contains('|'))
}

/// The mode the classifier infers for a query: regex-likeness is
/// checked first, then glob-likeness, and plain substring is the
/// fallback. Fuzzy matching is never inferred.
pub open spec fn classify_spec(q: Seq<char>) -> SearchMode {
    if regex_like(q) {
        SearchMode::Regex
    } else if glob_like(q) {
        SearchMode::Glob
    } else {
        SearchMode::Substring
    }
}

/// The pattern text handed to the regex compiler: the query itself,
/// with an inline case-insensitivity flag prefixed under the
/// case-insensitive policy.
pub open spec fn regex_query(q: Seq<char>, case_sensitive: bool) -> Seq<char> {
    if case_sensitive {
        q
    } else {
        "(?i)"@ + q
    }
}

/// The substring matcher's acceptance: the folded query occurs in the
/// folded filename.
pub open spec fn substring_pred(q: Seq<char>, case_sensitive: bool) -> spec_fn(Seq<char>) -> bool {
    |f: Seq<char>| is_substring(folded(q, case_sensitive), folded(f, case_sensitive))
}

/// The glob matcher's acceptance: the glob compiled from the folded
/// query matches the folded filename.
pub open spec fn glob_pred(q: Seq<char>, case_sensitive: bool) -> spec_fn(Seq<char>) -> bool {
    |f: Seq<char>| glob_matched(folded(q, case_sensitive), folded(f, case_sensitive))
}

/// The regex matcher's acceptance: the compiled query matches the
/// filename as given.
pub open spec fn regex_pred(q: Seq<char>, case_sensitive: bool) -> spec_fn(Seq<char>) -> bool {
    |f: Seq<char>| regex_matched(regex_query(q, case_sensitive), f)
}

/// All paths of the index entries whose filename the predicate
/// accepts, in index order.
pub open spec fn gathered_paths(
    ix: Seq<(Seq<char>, Seq<Seq<char>>)>,
    m: spec_fn(Seq<char>) -> bool,
) -> Seq<Seq<char>>
    decreases ix.len(),
{
    if ix.len() == 0 {
        Seq::empty()
    } else {
        gathered_paths(ix.drop_last(), m) + (if m(ix.last().0) {
            ix.last().1
        } else {
            Seq::empty()
        })
    }
}

/// All (path, score) pairs of the index entries whose filename scores
/// above zero against the query, in index order.
pub open spec fn gathered_scored(
    ix: Seq<(Seq<char>, Seq<Seq<char>>)>,
    q: Seq<char>,
    case_sensitive: bool,
) -> Seq<(Seq<char>, u64)>
    decreases ix.len(),
{
    if ix.len() == 0 {
        Seq::empty()
    } else {
        let rest = gathered_scored(ix.drop_last(), q, case_sensitive);
        let sc = score_spec(ix.last().0, q, case_sensitive);
        if sc > 0 {
            rest + ix.last().1.map_values(|p: Seq<char>| (p, sc as u64))
        } else {
            rest
        }
    }
}

/// Every gathered score is positive and at most the unit score.
pub proof fn lemma_gathered_scored_positive(
    ix: Seq<(Seq<char>, Seq<Seq<char>>)>,
    q: Seq<char>,
    case_sensitive: bool,
)
    ensures
        forall|k: int|
            0 <= k < gathered_scored(ix, q, case_sensitive).len() ==> 0 < (
            #[trigger] gathered_scored(ix, q, case_sensitive)[k]).1 <= SCORE_SCALE,
    decreases ix.len(),
{
    if ix.len() > 0 {
        lemma_gathered_scored_positive(ix.drop_last(), q, case_sensitive);
        crate::score::lemma_score_range(ix.last().0, q, case_sensitive);
        let rest = gathered_scored(ix.drop_last(), q, case_sensitive);
        let sc = score_spec(ix.last().0, q, case_sensitive);
        let whole = gathered_scored(ix, q, case_sensitive);
        if sc > 0 {
            let mapped = ix.last().1.map_values(|p: Seq<char>| (p, sc as u64));
            assert forall|k: int| 0 <= k < whole.len() implies 0 < (#[trigger] whole[k]).1
                <= SCORE_SCALE by {
                if k < rest.len() {
                    assert(whole[k] == rest[k]);
                } else {
                    assert(whole[k] == mapped[k - rest.len()]);
                    assert(mapped[k - rest.len()].1 == sc as u64);
                }
            }
        }
    }
}

/// A correct result for a substring search: the matching entries'
/// paths, sorted lexicographically.
pub open spec fn substring_result(
    ixv: Seq<(Seq<char>, Seq<Seq<char>>)>,
    q: Seq<char>,
    case_sensitive: bool,
    v: Seq<String>,
) -> bool {
    &&& paths_sorted(views_of(v))
    &&& views_of(v).to_multiset() == gathered_paths(ixv, substring_pred(q, case_sensitive)).to_multiset()
}

/// A correct outcome for a glob search: an error exactly when the
/// folded query does not compile as a glob, carrying that query;
/// otherwise the matching entries' paths, sorted.
pub open spec fn glob_result(
    ixv: Seq<(Seq<char>, Seq<Seq<char>>)>,
    q: Seq<char>,
    case_sensitive: bool,
    r: Result<Vec<String>, FileSearchError>,
) -> bool {
    &&& (r is Ok <==> glob_compiles(folded(q, case_sensitive)))
    &&& (r matches Ok(v) ==> paths_sorted(views_of(v@)) && views_of(v@).to_multiset()
        == gathered_paths(ixv, glob_pred(q, case_sensitive)).to_multiset())
    &&& (r matches Err(e) ==> e matches FileSearchError::InvalidGlob { source: _, pattern: p }
        && p@ == q)
}

/// A correct outcome for a regex search: an error exactly when the
/// query (with its case flag) does not compile, carrying the query;
/// otherwise the matching entries' paths, sorted.
pub open spec fn regex_result(
    ixv: Seq<(Seq<char>, Seq<Seq<char>>)>,
    q: Seq<char>,
    case_sensitive: bool,
    r: Result<Vec<String>, FileSearchError>,
) -> bool {
    &&& (r is Ok <==> regex_compiles(regex_query(q, case_sensitive)))
    &&& (r matches Ok(v) ==> paths_sorted(views_of(v@)) && views_of(v@).to_multiset()
        == gathered_paths(ixv, regex_pred(q, case_sensitive)).to_multiset())
    &&& (r matches Err(e) ==> e matches FileSearchError::InvalidRegex { source: _, pattern: p }
        && p@ == q)
}

/// A correct result for a fuzzy search: the positively scored paths,
/// scores never increasing, ties in path order.
pub open spec fn fuzzy_result(
    ixv: Seq<(Seq<char>, Seq<Seq<char>>)>,
    q: Seq<char>,
    case_sensitive: bool,
    v: Seq<(String, u64)>,
) -> bool {
    &&& scored_sorted(scored_views(v))
    &&& scored_views(v).to_multiset() == gathered_scored(ixv, q, case_sensitive).to_multiset()
}

/// Search engine that supports multiple search modes and automatic
/// pattern detection.
pub struct SearchEngine {
    /// The active configuration.
    pub config: Config,
}

impl SearchEngine {
    /// Create a new search engine with the given configuration.
    pub fn new(config: Config) -> (r: Self)
        ensures
            r.config == config,
    {
        SearchEngine { config }
    }

    /// Whether the query reads like a regular expression.
    pub fn looks_like_regex(&self, query: &str) -> (r: bool)
        ensures
            r == regex_like(query@),
    {
        let v = chars_of(query);
        if contains_char(&v, '\\') {
            if contains_pair(&v, '\\', 'd') || contains_pair(&v, '\\', 'w') || contains_pair(
                &v,
                '\\',
                's',
            ) || contains_pair(&v, '\\', '.') || contains_pair(&v, '\\', '^') || contains_pair(
                &v,
                '\\',
                '$',
            ) {
                return true;
            }
        }
        if v.len() > 0 {
            if v[0] == '^' {
                return true;
            }
            if v[v.len() - 1] == '$' {
                return true;
            }
        }
        if contains_char(&v, '[') && contains_char(&v, ']') {
            return true;
        }
        if contains_char(&v, '{') && contains_char(&v, '}') && contains_digit(&v) {
            return true;
        }
        if contains_char(&v, '|') {
            return true;
        }
        if contains_char(&v, '(') && contains_char(&v, ')') {
            return true;
        }
        if v.len() > 1 && contains_char_after_first(&v, '+') {
            return true;
        }
        false
    }

    /// Whether the query reads like a glob.
    pub fn looks_like_glob(&self, query: &str) -> (r: bool)
        ensures
            r == glob_like(query@),
    {
        let v = chars_of(query);
        if !contains_char(&v, '*') && !contains_char(&v, '?') {
            return false;
        }
        if self.looks_like_regex(query) {
            return false;
        }
        let has_complex = contains_char(&v, '[') || contains_char(&v, '(') || contains_char(
            &v,
            '\\',
        ) || contains_char(&v, '|');
        !has_complex
    }

    /// The search mode the query's own shape suggests; fuzzy matching
    /// is never inferred.
    pub fn detect_search_mode(&self, query: &str) -> (m: SearchMode)
        ensures
            m == classify_spec(query@),
            m != SearchMode::Fuzzy,
    {
        if self.looks_like_regex(query) {
            return SearchMode::Regex;
        }
        if self.looks_like_glob(query) {
            return SearchMode::Glob;
        }
        SearchMode::Substring
    }

    /// Search using substring matching: every path whose filename
    /// contains the folded query, in lexicographic order.
    pub fn search_substring(&self, index: &FileIndex, query: &str) -> (r: Vec<String>)
        ensures
            substring_result(entry_views(index@), query@, self.config.case_sensitive, r@),
    {
        let cs = self.config.case_sensitive;
        let fq = fold_case(query, cs);
        let fqc = chars_of(fq.as_str());
        let ghost pred = substring_pred(query@, cs);
        let mut results: Vec<String> = Vec::new();
        proof {
            assert(entry_views(index@).take(0) =~= Seq::<(Seq<char>, Seq<Seq<char>>)>::empty());
            assert(views_of(results@) =~= Seq::<Seq<char>>::empty());
        }
        let mut i: usize = 0;
        while i < index.len()
            invariant
                cs == self.config.case_sensitive,
                fqc@ == folded(query@, cs),
                pred == substring_pred(query@, cs),
                i <= index@.len(),
                views_of(results@) == gathered_paths(entry_views(index@).take(i as int), pred),
            decreases index@.len() - i,
        {
            let fname = fold_case(index[i].0.as_str(), cs);
            let fnc = chars_of(fname.as_str());
            let hit = contains_seq(&fnc, &fqc);
            proof {
                assert(entry_views(index@)[i as int].0 == index@[i as int].0@);
                assert(hit == pred(entry_views(index@)[i as int].0));
            }
            if hit {
                let paths = &index[i].1;
                let ghost base = views_of(results@);
                let mut j: usize = 0;
                while j < paths.len()
                    invariant
                        j <= paths@.len(),
                        paths@ == index@[i as int].1@,
                        i < index@.len(),
                        views_of(results@) == base + views_of(paths@).take(j as int),
                    decreases paths@.len() - j,
                {
                    let ghost res_pre = results@;
                    results.push(paths[j].clone());
                    proof {
                        assert(views_of(results@) =~= views_of(res_pre).push(paths@[j as int]@));
                        assert(views_of(results@) =~= base + views_of(paths@).take(j + 1));
                    }
                    j = j + 1;
                }
                proof {
                    assert(views_of(paths@).take(paths@.len() as int) =~= views_of(paths@));
                    assert(views_of(paths@) =~= entry_views(index@)[i as int].1);
                }
            }
            proof {
                let ev = entry_views(index@);
                assert(ev.take(i + 1).drop_last() =~= ev.take(i as int));
                assert(ev.take(i + 1).last() == ev[i as int]);
                if !hit {
                    assert(views_of(results@) =~= gathered_paths(ev.take(i as int), pred) + Seq::<
                        Seq<char>,
                    >::empty());
                }
            }
            i = i + 1;
        }
        proof {
            assert(entry_views(index@).take(index@.len() as int) =~= entry_views(index@));
        }
        let sorted = sort_paths(results);
        sorted
    }

    /// Search using glob matching: the folded query is compiled once;
    /// an invalid pattern is reported with the query attached.
    pub fn search_glob(&self, index: &FileIndex, pattern: &str) -> (r: Result<
        Vec<String>,
        FileSearchError,
    >)
        ensures
            glob_result(entry_views(index@), pattern@, self.config.case_sensitive, r),
    {
        let cs = self.config.case_sensitive;
        let fq = fold_case(pattern, cs);
        let compiled = match glob::Pattern::new(fq.as_str()) {
            Ok(p) => p,
            Err(e) => {
                return Err(FileSearchError::glob_error(e, String::from_str(pattern)));
            },
        };
        let ghost pred = glob_pred(pattern@, cs);
        let mut results: Vec<String> = Vec::new();
        proof {
            assert(entry_views(index@).take(0) =~= Seq::<(Seq<char>, Seq<Seq<char>>)>::empty());
            assert(views_of(results@) =~= Seq::<Seq<char>>::empty());
        }
        let mut i: usize = 0;
        while i < index.len()
            invariant
                cs == self.config.case_sensitive,
                glob_source(compiled) == folded(pattern@, cs),
                pred == glob_pred(pattern@, cs),
                i <= index@.len(),
                views_of(results@) == gathered_paths(entry_views(index@).take(i as int), pred),
            decreases index@.len() - i,
        {
            let fname = fold_case(index[i].0.as_str(), cs);
            let hit = compiled.matches(fname.as_str());
            proof {
                assert(entry_views(index@)[i as int].0 == index@[i as int].0@);
                assert(hit == pred(entry_views(index@)[i as int].0));
            }
            if hit {
                let paths = &index[i].1;
                let ghost base = views_of(results@);
                let mut j: usize = 0;
                while j < paths.len()
                    invariant
                        j <= paths@.len(),
                        paths@ == index@[i as int].1@,
                        i < index@.len(),
                        views_of(results@) == base + views_of(paths@).take(j as int),
                    decreases paths@.len() - j,
                {
                    let ghost res_pre = results@;
                    results.push(paths[j].clone());
                    proof {
                        assert(views_of(results@) =~= views_of(res_pre).push(paths@[j as int]@));
                        assert(views_of(results@) =~= base + views_of(paths@).take(j + 1));
                    }
                    j = j + 1;
                }
                proof {
                    assert(views_of(paths@).take(paths@.len() as int) =~= views_of(paths@));
                    assert(views_of(paths@) =~= entry_views(index@)[i as int].1);
                }
            }
            proof {
                let ev = entry_views(index@);
                assert(ev.take(i + 1).drop_last() =~= ev.take(i as int));
                assert(ev.take(i + 1).last() == ev[i as int]);
                if !hit {
                    assert(views_of(results@) =~= gathered_paths(ev.take(i as int), pred) + Seq::<
                        Seq<char>,
                    >::empty());
                }
            }
            i = i + 1;
        }
        proof {
            assert(entry_views(index@).take(index@.len() as int) =~= entry_views(index@));
        }
        Ok(sort_paths(results))
    }

    /// Search using regular expressions: the query is compiled once,
    /// with an inline flag under the case-insensitive policy, and run
    /// against each filename as given.
    pub fn search_regex(&self, index: &FileIndex, pattern: &str) -> (r: Result<
        Vec<String>,
        FileSearchError,
    >)
        ensures
            regex_result(entry_views(index@), pattern@, self.config.case_sensitive, r),
    {
        let cs = self.config.case_sensitive;
        let full_pattern = if cs {
            String::from_str(pattern)
        } else {
            String::from_str("(?i)").concat(pattern)
        };
        let compiled = match regex::Regex::new(full_pattern.as_str()) {
            Ok(re) => re,
            Err(e) => {
                return Err(FileSearchError::regex_error(e, String::from_str(pattern)));
            },
        };
        let ghost pred = regex_pred(pattern@, cs);
        let mut results: Vec<String> = Vec::new();
        proof {
            assert(entry_views(index@).take(0) =~= Seq::<(Seq<char>, Seq<Seq<char>>)>::empty());
            assert(views_of(results@) =~= Seq::<Seq<char>>::empty());
        }
        let mut i: usize = 0;
        while i < index.len()
            invariant
                cs == self.config.case_sensitive,
                regex_source(compiled) == regex_query(pattern@, cs),
                pred == regex_pred(pattern@, cs),
                i <= index@.len(),
                views_of(results@) == gathered_paths(entry_views(index@).take(i as int), pred),
            decreases index@.len() - i,
        {
            let hit = compiled.is_match(index[i].0.as_str());
            proof {
                assert(entry_views(index@)[i as int].0 == index@[i as int].0@);
                assert(hit == pred(entry_views(index@)[i as int].0));
            }
            if hit {
                let paths = &index[i].1;
                let ghost base = views_of(results@);
                let mut j: usize = 0;
                while j < paths.len()
                    invariant
                        j <= paths@.len(),
                        paths@ == index@[i as int].1@,
                        i < index@.len(),
                        views_of(results@) == base + views_of(paths@).take(j as int),
                    decreases paths@.len() - j,
                {
                    let ghost res_pre = results@;
                    results.push(paths[j].clone());
                    proof {
                        assert(views_of(results@) =~= views_of(res_pre).push(paths@[j as int]@));
                        assert(views_of(results@) =~= base + views_of(paths@).take(j + 1));
                    }
                    j = j + 1;
                }
                proof {
                    assert(views_of(paths@).take(paths@.len() as int) =~= views_of(paths@));
                    assert(views_of(paths@) =~= entry_views(index@)[i as int].1);
                }
            }
            proof {
                let ev = entry_views(index@);
                assert(ev.take(i + 1).drop_last() =~= ev.take(i as int));
                assert(ev.take(i + 1).last() == ev[i as int]);
                if !hit {
                    assert(views_of(results@) =~= gathered_paths(ev.take(i as int), pred) + Seq::<
                        Seq<char>,
                    >::empty());
                }
            }
            i = i + 1;
        }
        proof {
            assert(entry_views(index@).take(index@.len() as int) =~= entry_views(index@));
        }
        Ok(sort_paths(results))
    }

    /// Search using fuzzy matching: each positively scoring filename
    /// contributes its paths with the score, sorted best first with
    /// ties in path order.
    pub fn search_fuzzy(&self, index: &FileIndex, query: &str) -> (r: Vec<(String, u64)>)
        ensures
            fuzzy_result(entry_views(index@), query@, self.config.case_sensitive, r@),
            forall|k: int| 0 <= k < r@.len() ==> 0 < (#[trigger] r@[k]).1 <= SCORE_SCALE,
    {
        let cs = self.config.case_sensitive;
        let mut scored: Vec<(String, u64)> = Vec::new();
        proof {
            assert(entry_views(index@).take(0) =~= Seq::<(Seq<char>, Seq<Seq<char>>)>::empty());
            assert(scored_views(scored@) =~= Seq::<(Seq<char>, u64)>::empty());
        }
        let mut i: usize = 0;
        while i < index.len()
            invariant
                cs == self.config.case_sensitive,
                i <= index@.len(),
                scored_views(scored@) == gathered_scored(
                    entry_views(index@).take(i as int),
                    query@,
                    cs,
                ),
            decreases index@.len() - i,
        {
            let s = fuzzy_score_scaled(index[i].0.as_str(), query, cs);
            proof {
                assert(entry_views(index@)[i as int].0 == index@[i as int].0@);
            }
            if s > 0 {
                let paths = &index[i].1;
                let ghost base = scored_views(scored@);
                let ghost entry_paths = entry_views(index@)[i as int].1;
                let mut j: usize = 0;
                while j < paths.len()
                    invariant
                        j <= paths@.len(),
                        paths@ == index@[i as int].1@,
                        i < index@.len(),
                        s as int == score_spec(index@[i as int].0@, query@, cs),
                        entry_paths == entry_views(index@)[i as int].1,
                        scored_views(scored@) == base + entry_paths.take(j as int).map_values(
                            |p: Seq<char>| (p, s),
                        ),
                    decreases paths@.len() - j,
                {
                    let ghost sc_pre = scored@;
                    scored.push((paths[j].clone(), s));
                    proof {
                        assert(scored_views(scored@) =~= scored_views(sc_pre).push(
                            (paths@[j as int]@, s),
                        ));
                        assert(entry_paths.take(j + 1).map_values(|p: Seq<char>| (p, s))
                            =~= entry_paths.take(j as int).map_values(|p: Seq<char>| (p, s)).push(
                            (entry_paths[j as int], s),
                        ));
                        assert(entry_paths[j as int] == paths@[j as int]@);
                        assert(scored_views(scored@) =~= base + entry_paths.take(j + 1).map_values(
                            |p: Seq<char>| (p, s),
                        ));
                    }
                    j = j + 1;
                }
                proof {
                    assert(entry_paths.take(entry_paths.len() as int) =~= entry_paths);
                }
            }
            proof {
                let ev = entry_views(index@);
                assert(ev.take(i + 1).drop_last() =~= ev.take(i as int));
                assert(ev.take(i + 1).last() == ev[i as int]);
                let sc = score_spec(ev[i as int].0, query@, cs);
                if s > 0 {
                    assert(sc == s as int);
                    assert(gathered_scored(ev.take(i + 1), query@, cs) =~= gathered_scored(
                        ev.take(i as int),
                        query@,
                        cs,
                    ) + ev[i as int].1.map_values(|p: Seq<char>| (p, sc as u64)));
                    assert(ev[i as int].1.map_values(|p: Seq<char>| (p, sc as u64))
                        =~= ev[i as int].1.map_values(|p: Seq<char>| (p, s)));
                } else {
                    assert(sc <= 0) by {
                        assert(s as int == sc);
                    }
                }
            }
            i = i + 1;
        }
        proof {
            assert(entry_views(index@).take(index@.len() as int) =~= entry_views(index@));
        }
        let out = sort_scored(scored);
        proof {
            lemma_gathered_scored_positive(entry_views(index@), query@, cs);
            let gs = gathered_scored(entry_views(index@), query@, cs);
            assert forall|k: int| 0 <= k < out@.len() implies 0 < (#[trigger] out@[k]).1
                <= SCORE_SCALE by {
                broadcast use vstd::seq_lib::group_to_multiset_ensures;

                let sv = scored_views(out@);
                assert(sv[k] == (out@[k].0@, out@[k].1));
                assert(sv.contains(sv[k]));
                assert(sv.to_multiset().count(sv[k]) > 0);
                assert(gs.to_multiset().count(sv[k]) > 0);
                assert(gs.contains(sv[k]));
                let m = choose|m: int| 0 <= m < gs.len() && gs[m] == sv[k];
                assert(0 < gs[m].1 <= SCORE_SCALE);
            }
        }
        out
    }

    /// Smart search that detects the pattern kind and runs the fitting
    /// matcher.
    pub fn search_auto(&self, index: &FileIndex, query: &str) -> (r: Result<
        Vec<String>,
        FileSearchError,
    >)
        ensures
            classify_spec(query@) is Substring ==> {
                &&& r matches Ok(v)
                &&& substring_result(
                    entry_views(index@),
                    query@,
                    self.config.case_sensitive,
                    v@,
                )
            },
            classify_spec(query@) is Glob ==> glob_result(
                entry_views(index@),
                query@,
                self.config.case_sensitive,
                r,
            ),
            classify_spec(query@) is Regex ==> regex_result(
                entry_views(index@),
                query@,
                self.config.case_sensitive,
                r,
            ),
    {
        let mode = self.detect_search_mode(query);
        match mode {
            SearchMode::Regex => self.search_regex(index, query),
            SearchMode::Glob => self.search_glob(index, query),
            SearchMode::Substring => Ok(self.search_substring(index, query)),
            SearchMode::Fuzzy => Ok(scored_to_paths(self.search_fuzzy(index, query))),
        }
    }

    /// Smart search that also reports which mode was detected.
    pub fn search_auto_with_mode(&self, index: &FileIndex, query: &str) -> (r: Result<
        (Vec<String>, SearchMode),
        FileSearchError,
    >)
        ensures
            r matches Ok(t) ==> t.1 == classify_spec(query@),
            classify_spec(query@) is Substring ==> {
                &&& r matches Ok(t)
                &&& substring_result(
                    entry_views(index@),
                    query@,
                    self.config.case_sensitive,
                    t.0@,
                )
            },
            classify_spec(query@) is Glob ==> {
                &&& (r is Ok <==> glob_compiles(folded(query@, self.config.case_sensitive)))
                &&& (r matches Ok(t) ==> substituted_glob_ok(
                    entry_views(index@),
                    query@,
                    self.config.case_sensitive,
                    t.0@,
                ))
                &&& (r matches Err(e) ==> e matches FileSearchError::InvalidGlob {
                    source: _,
                    pattern: p,
                } && p@ == query@)
            },
            classify_spec(query@) is Regex ==> {
                &&& (r is Ok <==> regex_compiles(
                    regex_query(query@, self.config.case_sensitive),
                ))
                &&& (r matches Ok(t) ==> substituted_regex_ok(
                    entry_views(index@),
                    query@,
                    self.config.case_sensitive,
                    t.0@,
                ))
                &&& (r matches Err(e) ==> e matches FileSearchError::InvalidRegex {
                    source: _,
                    pattern: p,
                } && p@ == query@)
            },
    {
        let mode = self.detect_search_mode(query);
        let results = match mode {
            SearchMode::Regex => self.search_regex(index, query),
            SearchMode::Glob => self.search_glob(index, query),
            SearchMode::Substring => Ok(self.search_substring(index, query)),
            SearchMode::Fuzzy => Ok(scored_to_paths(self.search_fuzzy(index, query))),
        };
        match results {
            Ok(v) => Ok((v, mode)),
            Err(e) => Err(e),
        }
    }
}

/// A correct glob hit list: the matching entries' paths, sorted.
pub open spec fn substituted_glob_ok(
    ixv: Seq<(Seq<char>, Seq<Seq<char>>)>,
    q: Seq<char>,
    case_sensitive: bool,
    v: Seq<String>,
) -> bool {
    &&& paths_sorted(views_of(v))
    &&& views_of(v).to_multiset() == gathered_paths(ixv, glob_pred(q, case_sensitive)).to_multiset()
}

/// A correct regex hit list: the matching entries' paths, sorted.
pub open spec fn substituted_regex_ok(
    ixv: Seq<(Seq<char>, Seq<Seq<char>>)>,
    q: Seq<char>,
    case_sensitive: bool,
    v: Seq<String>,
) -> bool {
    &&& paths_sorted(views_of(v))
    &&& views_of(v).to_multiset() == gathered_paths(ixv, regex_pred(q, case_sensitive)).to_multiset()
}

/// Substring search is a function of its inputs: any two lists that
/// meet its contract for the same index, query and case policy hold
/// the same paths in the same order.
pub proof fn lemma_substring_search_deterministic(
    ixv: Seq<(Seq<char>, Seq<Seq<char>>)>,
    q: Seq<char>,
    case_sensitive: bool,
    v1: Seq<String>,
    v2: Seq<String>,
)
    requires
        substring_result(ixv, q, case_sensitive, v1),
        substring_result(ixv, q, case_sensitive, v2),
    ensures
        views_of(v1) == views_of(v2),
{
    crate::sorting::lemma_sorted_paths_unique(views_of(v1), views_of(v2));
}

/// Glob search is a function of its inputs, in the same sense.
pub proof fn lemma_glob_search_deterministic(
    ixv: Seq<(Seq<char>, Seq<Seq<char>>)>,
    q: Seq<char>,
    case_sensitive: bool,
    v1: Seq<String>,
    v2: Seq<String>,
)
    requires
        substituted_glob_ok(ixv, q, case_sensitive, v1),
        substituted_glob_ok(ixv, q, case_sensitive, v2),
    ensures
        views_of(v1) == views_of(v2),
{
    crate::sorting::lemma_sorted_paths_unique(views_of(v1), views_of(v2));
}

/// Regex search is a function of its inputs, in the same sense.
pub proof fn lemma_regex_search_deterministic(
    ixv: Seq<(Seq<char>, Seq<Seq<char>>)>,
    q: Seq<char>,
    case_sensitive: bool,
    v1: Seq<String>,
    v2: Seq<String>,
)
    requires
        substituted_regex_ok(ixv, q, case_sensitive, v1),
        substituted_regex_ok(ixv, q, case_sensitive, v2),
    ensures
        views_of(v1) == views_of(v2),
{
    crate::sorting::lemma_sorted_paths_unique(views_of(v1), views_of(v2));
}

/// Fuzzy search is a function of its inputs: any two scored lists that
/// meet its contract hold the same paths and scores in the same order.
pub proof fn lemma_fuzzy_search_deterministic(
    ixv: Seq<(Seq<char>, Seq<Seq<char>>)>,
    q: Seq<char>,
    case_sensitive: bool,
    v1: Seq<(String, u64)>,
    v2: Seq<(String, u64)>,
)
    requires
        fuzzy_result(ixv, q, case_sensitive, v1),
        fuzzy_result(ixv, q, case_sensitive, v2),
    ensures
        scored_views(v1) == scored_views(v2),
{
    crate::sorting::lemma_sorted_scored_unique(scored_views(v1), scored_views(v2));
}

/// The paths of a scored result list, in the same order.
pub fn scored_to_paths(v: Vec<(String, u64)>) -> (r: Vec<String>)
    ensures
        views_of(r@) == scored_views(v@).map_values(|p: (Seq<char>, u64)| p.0),
{
    let mut r: Vec<String> = Vec::new();
    proof {
        assert(views_of(r@) =~= Seq::<Seq<char>>::empty());
        assert(scored_views(v@).take(0).map_values(|p: (Seq<char>, u64)| p.0) =~= Seq::<
            Seq<char>,
        >::empty());
    }
    let mut i: usize = 0;
    while i < v.len()
        invariant
            i <= v@.len(),
            views_of(r@) == scored_views(v@).take(i as int).map_values(
                |p: (Seq<char>, u64)| p.0,
            ),
        decreases v@.len() - i,
    {
        let ghost r_pre = r@;
        r.push(v[i].0.clone());
        proof {
            assert(views_of(r@) =~= views_of(r_pre).push(v@[i as int].0@));
            assert(scored_views(v@).take(i + 1).map_values(|p: (Seq<char>, u64)| p.0)
                =~= scored_views(v@).take(i as int).map_values(|p: (Seq<char>, u64)| p.0).push(
                v@[i as int].0@,
            ));
        }
        i = i + 1;
    }
    proof {
        assert(scored_views(v@).take(v@.len() as int) =~= scored_views(v@));
    }
    r
}

} // verus!
