//! Building the searchable index: filenames, folded under the active
//! case policy, each mapped to the full paths that share that name.
//! The walking of the file system happens outside; the indexer turns
//! the walked (filename, path) pairs into the index and decides which
//! paths the ignore rules exclude.

pub mod file_walker;

use vstd::prelude::*;

use crate::config::Config;
use crate::foreign::{regex_compiles, regex_matched, regex_source, replace_star,
    replace_star_with_dot_star};
use crate::text::{chars_eq, chars_of, contains_char, contains_seq, fold_case, folded,
    is_substring};

verus! {

/// File index mapping each filename to the full paths that carry it.
pub type FileIndex = Vec<(String, Vec<String>)>;

/// The views of the index entries: folded filename and path list.
pub open spec fn entry_views(ix: Seq<(String, Vec<String>)>) -> Seq<(Seq<char>, Seq<Seq<char>>)> {
    ix.map_values(|e: (String, Vec<String>)| (e.0@, crate::sorting::views_of(e.1@)))
}

/// The views of walked files: filename and full path.
pub open spec fn file_views(files: Seq<(String, String)>) -> Seq<(Seq<char>, Seq<char>)> {
    files.map_values(|e: (String, String)| (e.0@, e.1@))
}

/// The position of the first entry with the given key, or `-1`.
pub open spec fn find_key(ix: Seq<(Seq<char>, Seq<Seq<char>>)>, key: Seq<char>) -> int
    decreases ix.len(),
{
    if ix.len() == 0 {
        -1
    } else if ix.first().0 == key {
        0
    } else {
        let r = find_key(ix.drop_first(), key);
        if r == -1 {
            -1
        } else {
            r + 1
        }
    }
}

/// When no entry carries the key, `find_key` reports none.
pub proof fn lemma_find_key_none(ix: Seq<(Seq<char>, Seq<Seq<char>>)>, key: Seq<char>)
    requires
        forall|k: int| 0 <= k < ix.len() ==> (#[trigger] ix[k]).0 != key,
    ensures
        find_key(ix, key) == -1,
    decreases ix.len(),
{
    if ix.len() > 0 {
        assert(ix[0].0 != key);
        lemma_find_key_none(ix.drop_first(), key);
    }
}

/// When `j` is the first position whose entry carries the key,
/// `find_key` reports `j`.
pub proof fn lemma_find_key_at(ix: Seq<(Seq<char>, Seq<Seq<char>>)>, key: Seq<char>, j: int)
    requires
        0 <= j < ix.len(),
        ix[j].0 == key,
        forall|k: int| 0 <= k < j ==> (#[trigger] ix[k]).0 != key,
    ensures
        find_key(ix, key) == j,
    decreases ix.len(),
{
    if j == 0 {
    } else {
        assert(ix[0].0 != key);
        assert(ix.drop_first()[j - 1].0 == key);
        lemma_find_key_at(ix.drop_first(), key, j - 1);
    }
}

/// One walked file added to the index: its path joins the entry that
/// already carries the folded filename, or a new entry is appended.
pub open spec fn add_to_index(
    ix: Seq<(Seq<char>, Seq<Seq<char>>)>,
    key: Seq<char>,
    path: Seq<char>,
) -> Seq<(Seq<char>, Seq<Seq<char>>)> {
    let j = find_key(ix, key);
    if j == -1 {
        ix.push((key, seq![path]))
    } else {
        ix.update(j, (ix[j].0, ix[j].1.push(path)))
    }
}

/// The index that a list of walked files builds, in order.
pub open spec fn build_index_spec(files: Seq<(Seq<char>, Seq<char>)>, case_sensitive: bool) -> Seq<
    (Seq<char>, Seq<Seq<char>>),
>
    decreases files.len(),
{
    if files.len() == 0 {
        Seq::empty()
    } else {
        add_to_index(
            build_index_spec(files.drop_last(), case_sensitive),
            folded(files.last().0, case_sensitive),
            files.last().1,
        )
    }
}

/// Whether an ignore pattern hits: a pattern with a wildcard is matched
/// as a regular expression (each `*` standing for any run) against the
/// filename; a plain pattern must equal the filename or occur in the
/// full path.
pub open spec fn pattern_matches(filename: Seq<char>, path: Seq<char>, pattern: Seq<char>) -> bool {
    if pattern.contains('*') {
        regex_compiles(replace_star(pattern)) && regex_matched(replace_star(pattern), filename)
    } else {
        filename == pattern || is_substring(pattern, path)
    }
}

/// Whether the configuration tells the indexer to skip this path:
/// hidden files when so configured, or any ignore pattern that hits.
pub open spec fn should_ignore_spec(c: Config, filename: Seq<char>, path: Seq<char>) -> bool {
    ||| (c.ignore_hidden && filename.len() > 0 && filename[0] == '.')
    ||| exists|k: int|
        0 <= k < c.ignore_patterns@.len() && pattern_matches(
            filename,
            path,
            (#[trigger] c.ignore_patterns@[k])@,
        )
}

/// Whether one ignore pattern hits the given filename and path.
pub fn ignore_pattern_matches(filename: &str, path: &str, pattern: &str) -> (r: bool)
    ensures
        r == pattern_matches(filename@, path@, pattern@),
{
    let pchars = chars_of(pattern);
    if contains_char(&pchars, '*') {
        let expanded = replace_star_with_dot_star(pattern);
        match regex::Regex::new(expanded.as_str()) {
            Ok(re) => re.is_match(filename),
            Err(_) => false,
        }
    } else {
        let fchars = chars_of(filename);
        if chars_eq(&fchars, &pchars) {
            true
        } else {
            let pathchars = chars_of(path);
            contains_seq(&pathchars, &pchars)
        }
    }
}

/// File system indexer that builds searchable indexes of files.
pub struct FileIndexer {
    /// The active configuration.
    pub config: Config,
}

impl FileIndexer {
    /// Create a new file indexer with the given configuration.
    pub fn new(config: Config) -> (r: Self)
        ensures
            r.config == config,
    {
        FileIndexer { config }
    }

    /// Build the index from the walked files: each path is recorded
    /// under its filename, folded per the case policy.
    pub fn build_index(&self, files: &Vec<(String, String)>) -> (ix: FileIndex)
        ensures
            entry_views(ix@) == build_index_spec(file_views(files@), self.config.case_sensitive),
    {
        let cs = self.config.case_sensitive;
        let mut ix: FileIndex = Vec::new();
        proof {
            assert(file_views(files@).take(0) =~= Seq::<(Seq<char>, Seq<char>)>::empty());
            assert(entry_views(ix@) =~= Seq::<(Seq<char>, Seq<Seq<char>>)>::empty());
        }
        let mut i: usize = 0;
        while i < files.len()
            invariant
                cs == self.config.case_sensitive,
                i <= files@.len(),
                entry_views(ix@) == build_index_spec(file_views(files@).take(i as int), cs),
            decreases files@.len() - i,
        {
            let key = fold_case(files[i].0.as_str(), cs);
            let path = &files[i].1;
            let ghost pre = entry_views(ix@);
            let mut j: usize = 0;
            let mut found = false;
            loop
                invariant_except_break
                    j <= ix@.len(),
                    !found,
                    forall|k: int| 0 <= k < j ==> (#[trigger] entry_views(ix@)[k]).0 != key@,
                    pre == entry_views(ix@),
                ensures
                    pre == entry_views(ix@),
                    found ==> j < ix@.len() && entry_views(ix@)[j as int].0 == key@ && (forall|
                        k: int,
                    | 0 <= k < j ==> (#[trigger] entry_views(ix@)[k]).0 != key@),
                    !found ==> forall|k: int|
                        0 <= k < ix@.len() ==> (#[trigger] entry_views(ix@)[k]).0 != key@,
                decreases ix@.len() - j,
            {
                if j == ix.len() {
                    break ;
                }
                if ix[j].0 == key {
                    assert(entry_views(ix@)[j as int].0 == key@);
                    found = true;
                    break ;
                }
                assert(entry_views(ix@)[j as int].0 != key@);
                j = j + 1;
            }
            if found {
                proof {
                    lemma_find_key_at(entry_views(ix@), key@, j as int);
                }
                let ghost ix_pre = ix@;
                let mut entry = ix.remove(j);
                entry.1.push(path.clone());
                let ghost entry_snap = entry;
                ix.insert(j, entry);
                proof {
                    assert(ix@ =~= ix_pre.update(j as int, entry_snap));
                    assert(crate::sorting::views_of(entry_snap.1@) =~= pre[j as int].1.push(path@));
                    assert(entry_views(ix@) =~= add_to_index(pre, key@, path@)) by {
                        assert(forall|k: int|
                            0 <= k < ix@.len() && k != j ==> ix@[k] == ix_pre[k]);
                        assert(entry_views(ix@)[j as int] == (
                            entry_snap.0@,
                            crate::sorting::views_of(entry_snap.1@),
                        ));
                    }
                }
            } else {
                proof {
                    lemma_find_key_none(entry_views(ix@), key@);
                }
                let ghost ix_pre = ix@;
                let mut paths: Vec<String> = Vec::new();
                paths.push(path.clone());
                ix.push((key, paths));
                proof {
                    assert(crate::sorting::views_of(ix@[ix@.len() - 1].1@) =~= seq![path@]);
                    assert(entry_views(ix@) =~= add_to_index(pre, key@, path@)) by {
                        assert(forall|k: int|
                            0 <= k < ix_pre.len() ==> ix@[k] == ix_pre[k]);
                    }
                }
            }
            proof {
                let fv = file_views(files@);
                assert(fv.take(i + 1).drop_last() =~= fv.take(i as int));
                assert(fv.take(i + 1).last() == fv[i as int]);
                assert(fv[i as int].0 == files@[i as int].0@);
                assert(fv[i as int].1 == files@[i as int].1@);
            }
            i = i + 1;
        }
        proof {
            assert(file_views(files@).take(files@.len() as int) =~= file_views(files@));
        }
        ix
    }

    /// Whether the configuration excludes this file from the index.
    pub fn should_ignore(&self, filename: &str, path: &str) -> (r: bool)
        ensures
            r == should_ignore_spec(self.config, filename@, path@),
    {
        if self.config.ignore_hidden {
            let fchars = chars_of(filename);
            if fchars.len() > 0 {
                let c0 = fchars[0];
                if c0 == '.' {
                    return true;
                }
            }
        }
        let mut k: usize = 0;
        while k < self.config.ignore_patterns.len()
            invariant
                k <= self.config.ignore_patterns@.len(),
                forall|m: int|
                    0 <= m < k ==> !pattern_matches(
                        filename@,
                        path@,
                        (#[trigger] self.config.ignore_patterns@[m])@,
                    ),
                !(self.config.ignore_hidden && filename@.len() > 0 && filename@[0] == '.'),
            decreases self.config.ignore_patterns@.len() - k,
        {
            if ignore_pattern_matches(filename, path, self.config.ignore_patterns[k].as_str()) {
                return true;
            }
            k = k + 1;
        }
        false
    }
}

} // verus!
