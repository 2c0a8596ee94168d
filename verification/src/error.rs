//! Error types for the file search library.

use vstd::prelude::*;

verus! {

/// Main error type for the file search library.
#[derive(Debug)]
pub enum FileSearchError {
    /// An I/O failure during file operations
    Io {
        /// What the underlying operation reported
        message: String,
        /// Context about what operation failed
        context: String,
        /// Optional path where the failure occurred
        path: Option<String>,
    },
    /// Invalid regular expression pattern
    InvalidRegex {
        /// The compiler's diagnostic
        source: regex::Error,
        /// The pattern that failed to compile
        pattern: String,
    },
    /// Invalid glob pattern
    InvalidGlob {
        /// The compiler's diagnostic
        source: glob::PatternError,
        /// The pattern that failed to compile
        pattern: String,
    },
    /// A failure during directory traversal
    WalkDir {
        /// What the traversal reported
        message: String,
        /// The root path being traversed
        root_path: String,
    },
    /// Index is empty or invalid
    EmptyIndex {
        /// The path that was indexed
        path: String,
    },
    /// Search query is empty or invalid
    InvalidQuery {
        /// Why the query is invalid
        reason: String,
        /// The invalid query
        query: String,
    },
    /// Path conversion failure
    InvalidPath {
        /// The path that could not be converted
        path: String,
        /// Why the conversion failed
        reason: String,
    },
    /// Configuration failure
    InvalidConfig {
        /// What is wrong with the configuration
        reason: String,
    },
}

impl FileSearchError {
    /// An I/O error with context.
    pub fn io_error(message: String, context: String) -> (r: Self)
        ensures
            (r matches FileSearchError::Io { message: m, context: c, path: p } && m == message && c
                == context && p is None),
    {
        FileSearchError::Io { message, context, path: None }
    }

    /// An I/O error with context and path.
    pub fn io_error_with_path(message: String, context: String, path: String) -> (r: Self)
        ensures
            (r matches FileSearchError::Io { message: m, context: c, path: p } && m == message && c
                == context && p == Some(path)),
    {
        FileSearchError::Io { message, context, path: Some(path) }
    }

    /// A regex compilation error, with the offending pattern.
    pub fn regex_error(source: regex::Error, pattern: String) -> (r: Self)
        ensures
            (r matches FileSearchError::InvalidRegex { source: _, pattern: p } && p == pattern),
    {
        FileSearchError::InvalidRegex { source, pattern }
    }

    /// A glob compilation error, with the offending pattern.
    pub fn glob_error(source: glob::PatternError, pattern: String) -> (r: Self)
        ensures
            (r matches FileSearchError::InvalidGlob { source: _, pattern: p } && p == pattern),
    {
        FileSearchError::InvalidGlob { source, pattern }
    }

    /// A traversal error, with the root being walked.
    pub fn walkdir_error(message: String, root_path: String) -> (r: Self)
        ensures
            (r matches FileSearchError::WalkDir { message: m, root_path: rp } && m == message && rp
                == root_path),
    {
        FileSearchError::WalkDir { message, root_path }
    }

    /// An empty-index error.
    pub fn empty_index(path: String) -> (r: Self)
        ensures
            (r matches FileSearchError::EmptyIndex { path: p } && p == path),
    {
        FileSearchError::EmptyIndex { path }
    }

    /// An invalid-query error.
    pub fn invalid_query(reason: String, query: String) -> (r: Self)
        ensures
            (r matches FileSearchError::InvalidQuery { reason: rs, query: q } && rs == reason && q
                == query),
    {
        FileSearchError::InvalidQuery { reason, query }
    }

    /// An invalid-path error.
    pub fn invalid_path(path: String, reason: String) -> (r: Self)
        ensures
            (r matches FileSearchError::InvalidPath { path: p, reason: rs } && p == path && rs
                == reason),
    {
        FileSearchError::InvalidPath { path, reason }
    }

    /// An invalid-configuration error.
    pub fn invalid_config(reason: String) -> (r: Self)
        ensures
            (r matches FileSearchError::InvalidConfig { reason: rs } && rs == reason),
    {
        FileSearchError::InvalidConfig { reason }
    }
}

} // verus!
