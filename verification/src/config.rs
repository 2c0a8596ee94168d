//! Configuration for search operations. Only the case policy is read
//! by the matching engine itself; the traversal limits and ignore
//! patterns drive the indexer.

use vstd::prelude::*;

verus! {

/// Configuration options for file search operations.
#[derive(Debug, Clone)]
pub struct Config {
    /// Maximum depth to traverse in the directory tree (`None` for unlimited)
    pub max_depth: Option<usize>,
    /// Whether to ignore hidden files and directories
    pub ignore_hidden: bool,
    /// Glob patterns to ignore during search
    pub ignore_patterns: Vec<String>,
    /// Whether search should be case-sensitive
    pub case_sensitive: bool,
    /// Maximum file size to consider (`None` for no limit)
    pub max_file_size: Option<u64>,
}

/// The out-of-the-box configuration: unlimited depth and size, hidden
/// files ignored, case-insensitive, and the usual build and scratch
/// directories ignored.
pub open spec fn config_is_default(c: Config) -> bool {
    &&& c.max_depth is None
    &&& c.ignore_hidden == true
    &&& c.case_sensitive == false
    &&& c.max_file_size is None
    &&& c.ignore_patterns@.len() == 5
    &&& c.ignore_patterns@[0]@ == "*.tmp"@
    &&& c.ignore_patterns@[1]@ == "*.log"@
    &&& c.ignore_patterns@[2]@ == ".git"@
    &&& c.ignore_patterns@[3]@ == "node_modules"@
    &&& c.ignore_patterns@[4]@ == "target"@
}

/// Two configurations with the same settings.
pub open spec fn config_equiv(a: Config, b: Config) -> bool {
    &&& a.max_depth == b.max_depth
    &&& a.ignore_hidden == b.ignore_hidden
    &&& a.case_sensitive == b.case_sensitive
    &&& a.max_file_size == b.max_file_size
    &&& a.ignore_patterns@ == b.ignore_patterns@
}

impl Default for Config {
    /// The default configuration.
    fn default() -> (r: Config)
        ensures
            config_is_default(r),
    {
        Config {
            max_depth: None,
            ignore_hidden: true,
            ignore_patterns: vec![
                String::from_str("*.tmp"),
                String::from_str("*.log"),
                String::from_str(".git"),
                String::from_str("node_modules"),
                String::from_str("target"),
            ],
            case_sensitive: false,
            max_file_size: None,
        }
    }
}

/// A field-for-field copy of a configuration, with the settings known
/// to carry over.
pub fn clone_config(c: &Config) -> (r: Config)
    ensures
        config_equiv(r, *c),
{
    let mut patterns: Vec<String> = Vec::new();
    let mut i: usize = 0;
    while i < c.ignore_patterns.len()
        invariant
            i <= c.ignore_patterns@.len(),
            patterns@.len() == i,
            forall|k: int| 0 <= k < i ==> patterns@[k] == c.ignore_patterns@[k],
        decreases c.ignore_patterns@.len() - i,
    {
        patterns.push(c.ignore_patterns[i].clone());
        i = i + 1;
    }
    proof {
        assert(patterns@ =~= c.ignore_patterns@);
    }
    Config {
        max_depth: c.max_depth,
        ignore_hidden: c.ignore_hidden,
        ignore_patterns: patterns,
        case_sensitive: c.case_sensitive,
        max_file_size: c.max_file_size,
    }
}

} // verus!
