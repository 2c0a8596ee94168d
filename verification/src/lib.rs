//! A file search library with verified matching: filename queries are
//! resolved against a prebuilt index by substring, glob, regex or
//! fuzzy matching, with automatic detection of the pattern kind.
//!
//! The index maps filenames to the full paths that carry them; walking
//! the file system to build it is left to the caller, who hands the
//! walked entries to the indexer. Exact searches return paths in
//! lexicographic order; fuzzy searches return scored paths, best
//! first, with fixed-point scores (`score::SCORE_SCALE` is the unit).

use vstd::prelude::*;

pub mod config;
pub mod error;
pub mod foreign;
pub mod indexer;
pub mod score;
pub mod search;
pub mod settings;
pub mod sorting;
pub mod text;

pub use crate::config::Config;
pub use crate::error::FileSearchError;
pub use crate::indexer::FileIndex;
pub use crate::search::SearchMode;

use crate::config::{clone_config, config_is_default};
use crate::indexer::entry_views;
use crate::score::SCORE_SCALE;
use crate::search::{classify_spec, fuzzy_result, glob_result, regex_result, scored_to_paths,
    substring_result, SearchEngine};
use crate::sorting::{scored_sorted, scored_views, views_of};

verus! {

/// A configuration the builder accepts: positive limits where a limit
/// is set, and no empty ignore pattern.
pub open spec fn valid_config(c: Config) -> bool {
    &&& c.max_depth != Some(0usize)
    &&& c.max_file_size != Some(0u64)
    &&& forall|k: int|
        0 <= k < c.ignore_patterns@.len() ==> (#[trigger] c.ignore_patterns@[k])@.len() > 0
}

/// A correct fuzzy result with the scores dropped: the paths of the
/// sorted scored list, in its order.
pub open spec fn fuzzy_paths_result(
    ixv: Seq<(Seq<char>, Seq<Seq<char>>)>,
    q: Seq<char>,
    case_sensitive: bool,
    v: Seq<String>,
) -> bool {
    exists|sc: Seq<(Seq<char>, u64)>|
        #![trigger scored_sorted(sc)]
        {
            &&& scored_sorted(sc)
            &&& sc.to_multiset() == search::gathered_scored(ixv, q, case_sensitive).to_multiset()
            &&& views_of(v) == sc.map_values(|p: (Seq<char>, u64)| p.0)
        }
}

/// Builder for `FileSearcher` instances with custom configuration.
#[derive(Debug, Clone)]
pub struct FileSearcherBuilder {
    /// The configuration being assembled.
    pub config: Config,
}

impl FileSearcherBuilder {
    /// A builder starting from the default configuration.
    pub fn new() -> (r: Self)
        ensures
            config_is_default(r.config),
    {
        FileSearcherBuilder { config: Config::default() }
    }

    /// Set the maximum depth for directory traversal.
    pub fn max_depth(self, depth: usize) -> (r: Self)
        ensures
            r.config == (Config { max_depth: Some(depth), ..self.config }),
    {
        let mut config = self.config;
        config.max_depth = Some(depth);
        FileSearcherBuilder { config }
    }

    /// Remove the depth limit.
    pub fn unlimited_depth(self) -> (r: Self)
        ensures
            r.config == (Config { max_depth: None, ..self.config }),
    {
        let mut config = self.config;
        config.max_depth = None;
        FileSearcherBuilder { config }
    }

    /// Set whether hidden files and directories are ignored.
    pub fn ignore_hidden(self, ignore: bool) -> (r: Self)
        ensures
            r.config == (Config { ignore_hidden: ignore, ..self.config }),
    {
        let mut config = self.config;
        config.ignore_hidden = ignore;
        FileSearcherBuilder { config }
    }

    /// Set whether search is case-sensitive.
    pub fn case_sensitive(self, sensitive: bool) -> (r: Self)
        ensures
            r.config == (Config { case_sensitive: sensitive, ..self.config }),
    {
        let mut config = self.config;
        config.case_sensitive = sensitive;
        FileSearcherBuilder { config }
    }

    /// Add a pattern to ignore during search.
    pub fn ignore_pattern(self, pattern: String) -> (r: Self)
        ensures
            r.config.ignore_patterns@ == self.config.ignore_patterns@.push(pattern),
            r.config.max_depth == self.config.max_depth,
            r.config.ignore_hidden == self.config.ignore_hidden,
            r.config.case_sensitive == self.config.case_sensitive,
            r.config.max_file_size == self.config.max_file_size,
    {
        let mut config = self.config;
        config.ignore_patterns.push(pattern);
        FileSearcherBuilder { config }
    }

    /// Add several patterns to ignore during search.
    pub fn ignore_patterns(self, patterns: Vec<String>) -> (r: Self)
        ensures
            r.config.ignore_patterns@ == self.config.ignore_patterns@ + patterns@,
            r.config.max_depth == self.config.max_depth,
            r.config.ignore_hidden == self.config.ignore_hidden,
            r.config.case_sensitive == self.config.case_sensitive,
            r.config.max_file_size == self.config.max_file_size,
    {
        let mut config = self.config;
        let mut patterns = patterns;
        let ghost added = patterns@;
        let mut i: usize = 0;
        proof {
            assert(config.ignore_patterns@ + added.take(0) =~= config.ignore_patterns@);
        }
        let ghost base = config.ignore_patterns@;
        while i < patterns.len()
            invariant
                i <= patterns@.len(),
                patterns@ == added,
                config.ignore_patterns@ == base + added.take(i as int),
                config.max_depth == self.config.max_depth,
                config.ignore_hidden == self.config.ignore_hidden,
                config.case_sensitive == self.config.case_sensitive,
                config.max_file_size == self.config.max_file_size,
            decreases patterns@.len() - i,
        {
            config.ignore_patterns.push(patterns[i].clone());
            proof {
                assert(config.ignore_patterns@ =~= base + added.take(i + 1));
            }
            i = i + 1;
        }
        proof {
            assert(added.take(added.len() as int) =~= added);
        }
        FileSearcherBuilder { config }
    }

    /// Clear all ignore patterns.
    pub fn clear_ignore_patterns(self) -> (r: Self)
        ensures
            r.config.ignore_patterns@.len() == 0,
            r.config.max_depth == self.config.max_depth,
            r.config.ignore_hidden == self.config.ignore_hidden,
            r.config.case_sensitive == self.config.case_sensitive,
            r.config.max_file_size == self.config.max_file_size,
    {
        let mut config = self.config;
        config.ignore_patterns = Vec::new();
        FileSearcherBuilder { config }
    }

    /// Set the maximum file size to consider.
    pub fn max_file_size(self, size: u64) -> (r: Self)
        ensures
            r.config == (Config { max_file_size: Some(size), ..self.config }),
    {
        let mut config = self.config;
        config.max_file_size = Some(size);
        FileSearcherBuilder { config }
    }

    /// Remove the file size limit.
    pub fn unlimited_file_size(self) -> (r: Self)
        ensures
            r.config == (Config { max_file_size: None, ..self.config }),
    {
        let mut config = self.config;
        config.max_file_size = None;
        FileSearcherBuilder { config }
    }

    /// Replace the whole configuration.
    pub fn config(self, config: Config) -> (r: Self)
        ensures
            r.config == config,
    {
        FileSearcherBuilder { config }
    }

    /// Validate the configuration and build the searcher: a zero depth
    /// or size limit, or an empty ignore pattern, is rejected.
    pub fn build(self) -> (r: Result<FileSearcher, FileSearchError>)
        ensures
            r is Ok <==> valid_config(self.config),
            r matches Ok(s) ==> s.config == self.config,
            r matches Err(e) ==> e matches FileSearchError::InvalidConfig { .. },
    {
        if let Some(depth) = self.config.max_depth {
            if depth == 0 {
                return Err(
                    FileSearchError::invalid_config(
                        String::from_str(
                            "max_depth cannot be 0. Use unlimited_depth() for no limit or set a positive value.",
                        ),
                    ),
                );
            }
        }
        if let Some(size) = self.config.max_file_size {
            if size == 0 {
                return Err(
                    FileSearchError::invalid_config(
                        String::from_str(
                            "max_file_size cannot be 0. Use unlimited_file_size() for no limit or set a positive value.",
                        ),
                    ),
                );
            }
        }
        let mut k: usize = 0;
        while k < self.config.ignore_patterns.len()
            invariant
                k <= self.config.ignore_patterns@.len(),
                forall|m: int|
                    0 <= m < k ==> (#[trigger] self.config.ignore_patterns@[m])@.len() > 0,
            decreases self.config.ignore_patterns@.len() - k,
        {
            if self.config.ignore_patterns[k].as_str().is_empty() {
                return Err(
                    FileSearchError::invalid_config(
                        String::from_str("ignore patterns cannot be empty"),
                    ),
                );
            }
            k = k + 1;
        }
        Ok(FileSearcher { config: self.config })
    }

    /// Build the searcher without validating the configuration.
    pub fn build_unchecked(self) -> (r: FileSearcher)
        ensures
            r.config == self.config,
    {
        FileSearcher { config: self.config }
    }
}

/// Main entry point for the file search library: holds a configuration
/// and runs searches over a caller-built index.
#[derive(Debug, Clone)]
pub struct FileSearcher {
    /// The active configuration.
    pub config: Config,
}

impl FileSearcher {
    /// A searcher with the default configuration.
    pub fn new() -> (r: Self)
        ensures
            config_is_default(r.config),
    {
        FileSearcher { config: Config::default() }
    }

    /// A builder for fluent configuration.
    pub fn builder() -> (r: FileSearcherBuilder)
        ensures
            config_is_default(r.config),
    {
        FileSearcherBuilder::new()
    }

    /// A searcher with the given configuration.
    pub fn with_config(config: Config) -> (r: Self)
        ensures
            r.config == config,
    {
        FileSearcher { config }
    }

    /// Search the index with automatic pattern detection.
    pub fn search_auto(&self, index: &FileIndex, query: &str) -> (r: Result<
        Vec<String>,
        FileSearchError,
    >)
        ensures
            classify_spec(query@) is Substring ==> {
                &&& r matches Ok(v)
                &&& substring_result(
                    entry_views(index@),
                    query@,
                    self.config.case_sensitive,
                    v@,
                )
            },
            classify_spec(query@) is Glob ==> glob_result(
                entry_views(index@),
                query@,
                self.config.case_sensitive,
                r,
            ),
            classify_spec(query@) is Regex ==> regex_result(
                entry_views(index@),
                query@,
                self.config.case_sensitive,
                r,
            ),
    {
        let engine = SearchEngine::new(clone_config(&self.config));
        engine.search_auto(index, query)
    }

    /// Search the index with automatic detection, reporting the mode.
    pub fn search_auto_with_mode(&self, index: &FileIndex, query: &str) -> (r: Result<
        (Vec<String>, SearchMode),
        FileSearchError,
    >)
        ensures
            r matches Ok(t) ==> t.1 == classify_spec(query@),
            classify_spec(query@) is Substring ==> {
                &&& r matches Ok(t)
                &&& substring_result(
                    entry_views(index@),
                    query@,
                    self.config.case_sensitive,
                    t.0@,
                )
            },
            classify_spec(query@) is Glob ==> {
                &&& (r is Ok <==> crate::foreign::glob_compiles(
                    crate::text::folded(query@, self.config.case_sensitive),
                ))
                &&& (r matches Ok(t) ==> search::substituted_glob_ok(
                    entry_views(index@),
                    query@,
                    self.config.case_sensitive,
                    t.0@,
                ))
                &&& (r matches Err(e) ==> e matches FileSearchError::InvalidGlob {
                    source: _,
                    pattern: p,
                } && p@ == query@)
            },
            classify_spec(query@) is Regex ==> {
                &&& (r is Ok <==> crate::foreign::regex_compiles(
                    search::regex_query(query@, self.config.case_sensitive),
                ))
                &&& (r matches Ok(t) ==> search::substituted_regex_ok(
                    entry_views(index@),
                    query@,
                    self.config.case_sensitive,
                    t.0@,
                ))
                &&& (r matches Err(e) ==> e matches FileSearchError::InvalidRegex {
                    source: _,
                    pattern: p,
                } && p@ == query@)
            },
    {
        let engine = SearchEngine::new(clone_config(&self.config));
        engine.search_auto_with_mode(index, query)
    }

    /// Search the index with a caller-chosen mode.
    pub fn search(&self, index: &FileIndex, query: &str, mode: SearchMode) -> (r: Result<
        Vec<String>,
        FileSearchError,
    >)
        ensures
            mode is Substring ==> {
                &&& r matches Ok(v)
                &&& substring_result(
                    entry_views(index@),
                    query@,
                    self.config.case_sensitive,
                    v@,
                )
            },
            mode is Glob ==> glob_result(
                entry_views(index@),
                query@,
                self.config.case_sensitive,
                r,
            ),
            mode is Regex ==> regex_result(
                entry_views(index@),
                query@,
                self.config.case_sensitive,
                r,
            ),
            mode is Fuzzy ==> {
                &&& r matches Ok(v)
                &&& fuzzy_paths_result(
                    entry_views(index@),
                    query@,
                    self.config.case_sensitive,
                    v@,
                )
            },
    {
        let engine = SearchEngine::new(clone_config(&self.config));
        match mode {
            SearchMode::Substring => Ok(engine.search_substring(index, query)),
            SearchMode::Glob => engine.search_glob(index, query),
            SearchMode::Regex => engine.search_regex(index, query),
            SearchMode::Fuzzy => {
                let scored = engine.search_fuzzy(index, query);
                let ghost witness = scored_views(scored@);
                let paths = scored_to_paths(scored);
                proof {
                    assert(scored_sorted(witness));
                    assert(views_of(paths@) == witness.map_values(|p: (Seq<char>, u64)| p.0));
                }
                Ok(paths)
            },
        }
    }

    /// Fuzzy search with scores: each path of a positively scoring
    /// filename, best first, scores in fixed point.
    pub fn search_fuzzy(&self, index: &FileIndex, query: &str) -> (r: Vec<(String, u64)>)
        ensures
            fuzzy_result(entry_views(index@), query@, self.config.case_sensitive, r@),
            forall|k: int| 0 <= k < r@.len() ==> 0 < (#[trigger] r@[k]).1 <= SCORE_SCALE,
    {
        let engine = SearchEngine::new(clone_config(&self.config));
        engine.search_fuzzy(index, query)
    }

    /// The current configuration.
    pub fn config(&self) -> (r: &Config)
        ensures
            *r == self.config,
    {
        &self.config
    }

    /// Replace the configuration.
    pub fn set_config(&mut self, config: Config)
        ensures
            final(self).config == config,
    {
        self.config = config;
    }
}

} // verus!
