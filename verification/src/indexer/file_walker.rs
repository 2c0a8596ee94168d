//! The decision rules a file system walk applies while it runs: which
//! entries are skipped for being hidden, ignored by pattern, or too
//! large. The walk itself happens outside; it hands each entry's
//! filename, path, kind and size to these rules.

use vstd::prelude::*;

use crate::config::{clone_config, config_equiv, Config};
use crate::indexer::{ignore_pattern_matches, pattern_matches};
use crate::text::chars_of;

verus! {

/// Whether the walk skips this entry: hidden files when so configured,
/// any ignore pattern that hits, or a file over the size limit.
/// `size` carries the file's size where the walk could read it.
pub open spec fn should_skip_spec(
    c: Config,
    filename: Seq<char>,
    path: Seq<char>,
    is_file: bool,
    size: Option<u64>,
) -> bool {
    ||| (c.ignore_hidden && filename.len() > 0 && filename[0] == '.')
    ||| exists|k: int|
        0 <= k < c.ignore_patterns@.len() && pattern_matches(
            filename,
            path,
            (#[trigger] c.ignore_patterns@[k])@,
        )
    ||| {
        &&& is_file
        &&& c.max_file_size matches Some(mx)
        &&& size matches Some(s)
        &&& s > mx
    }
}

/// File system walker that applies the configuration's rules.
pub struct FileWalker {
    /// The active configuration.
    pub config: Config,
}

impl FileWalker {
    /// Create a new file walker with the given configuration.
    pub fn new(config: &Config) -> (r: Self)
        ensures
            config_equiv(r.config, *config),
    {
        FileWalker { config: clone_config(config) }
    }

    /// Whether the walk skips the entry with this filename, path, kind
    /// and size under the given configuration.
    pub fn should_skip_entry_with_config(
        filename: &str,
        path: &str,
        is_file: bool,
        size: Option<u64>,
        config: &Config,
    ) -> (r: bool)
        ensures
            r == should_skip_spec(*config, filename@, path@, is_file, size),
    {
        if config.ignore_hidden {
            let fchars = chars_of(filename);
            if fchars.len() > 0 {
                let c0 = fchars[0];
                if c0 == '.' {
                    return true;
                }
            }
        }
        let mut k: usize = 0;
        while k < config.ignore_patterns.len()
            invariant
                k <= config.ignore_patterns@.len(),
                forall|m: int|
                    0 <= m < k ==> !pattern_matches(
                        filename@,
                        path@,
                        (#[trigger] config.ignore_patterns@[m])@,
                    ),
            decreases config.ignore_patterns@.len() - k,
        {
            if ignore_pattern_matches(filename, path, config.ignore_patterns[k].as_str()) {
                return true;
            }
            k = k + 1;
        }
        if is_file {
            if let Some(mx) = config.max_file_size {
                if let Some(s) = size {
                    if s > mx {
                        return true;
                    }
                }
            }
        }
        false
    }
}

} // verus!
