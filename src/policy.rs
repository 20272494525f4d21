//! The discovery policy: path-exclusion prefixes, the hidden-entry rule,
//! extension allow and deny lists, and the file-size ceiling.
use vstd::prelude::*;
use crate::pathname::{extension, file_name, file_name_spec, path_extension_spec};
use crate::text::{lower_of, lowercase, starts_with, starts_with_spec};

verus! {

/// What the discoverer admits. Names and extensions compare ignoring case.
pub struct IndexingPolicy {
    pub excluded_paths: Vec<String>,
    pub excluded_extensions: Vec<String>,
    pub included_extensions: Vec<String>,
    pub max_file_size_mb: u64,
    pub include_hidden: bool,
}

/// One entry met by the directory walk.
pub struct WalkEntry {
    pub path: String,
    pub size: u64,
    pub is_file: bool,
}

pub open spec fn path_excluded_by(excluded: Seq<String>, path: Seq<char>) -> bool {
    exists|i: int| 0 <= i < excluded.len() && starts_with_spec(lower_of(path), lower_of((#[trigger] excluded[i])@))
}

pub open spec fn ext_listed(list: Seq<String>, ext: Seq<char>) -> bool {
    exists|i: int| 0 <= i < list.len() && lower_of((#[trigger] list[i])@) == lower_of(ext)
}

pub open spec fn admits_with(
    excluded_paths: Seq<String>,
    excluded_extensions: Seq<String>,
    included_extensions: Seq<String>,
    max_file_size_mb: u64,
    path: Seq<char>,
    size: u64,
) -> bool {
    &&& !path_excluded_by(excluded_paths, path)
    &&& size as int <= max_file_size_mb as int * 1024 * 1024
    &&& match path_extension_spec(path) {
        Some(e) => !ext_listed(excluded_extensions, e) && (included_extensions.len() > 0
            ==> ext_listed(included_extensions, e)),
        None => true,
    }
}

/// The policy admits a file at `path` of `size` bytes: the path is not
/// excluded, the size is within the ceiling, and an extension, when there is
/// one, is not denied and is allowed (when an allow list is given).
pub open spec fn admits(p: IndexingPolicy, path: Seq<char>, size: u64) -> bool {
    admits_with(
        p.excluded_paths@,
        p.excluded_extensions@,
        p.included_extensions@,
        p.max_file_size_mb,
        path,
        size,
    )
}

/// The walk skips an entry (and, for a directory, all below it) when its
/// path is excluded, or when its name starts with a dot and hidden entries
/// are not included.
pub open spec fn skips(p: IndexingPolicy, path: Seq<char>) -> bool {
    path_excluded_by(p.excluded_paths@, path) || (!p.include_hidden && file_name_spec(path).len() > 0
        && file_name_spec(path)[0] == '.')
}

/// The walk entries that become candidates: regular files the policy admits.
pub open spec fn candidates(p: IndexingPolicy, entries: Seq<WalkEntry>) -> Seq<Seq<char>> {
    entries.filter(|e: WalkEntry| e.is_file && admits(p, e.path@, e.size)).map_values(|e: WalkEntry| e.path@)
}

pub(crate) fn listed(list: &Vec<String>, ext: &str) -> (r: bool)
    ensures
        r == ext_listed(list@, ext@),
{
    let el = lowercase(ext);
    let mut i: usize = 0;
    while i < list.len()
        invariant
            i <= list@.len(),
            el@ == lower_of(ext@),
            forall|k: int| 0 <= k < i ==> lower_of((#[trigger] list@[k])@) != lower_of(ext@),
        decreases list@.len() - i,
    {
        let l = lowercase(list[i].as_str());
        if l == el {
            assert(lower_of(list@[i as int]@) == lower_of(ext@));
            return true;
        }
        i = i + 1;
    }
    false
}

/// Whether `path` starts with one of the prefixes `excluded`, ignoring case.
pub(crate) fn excluded_by(excluded: &Vec<String>, path: &str) -> (r: bool)
    ensures
        r == path_excluded_by(excluded@, path@),
{
    let pl = lowercase(path);
    let mut i: usize = 0;
    while i < excluded.len()
        invariant
            i <= excluded@.len(),
            pl@ == lower_of(path@),
            forall|k: int|
                0 <= k < i ==> !starts_with_spec(lower_of(path@), lower_of((#[trigger] excluded@[k])@)),
        decreases excluded@.len() - i,
    {
        let el = lowercase(excluded[i].as_str());
        if starts_with(pl.as_str(), el.as_str()) {
            assert(starts_with_spec(lower_of(path@), lower_of(excluded@[i as int]@)));
            return true;
        }
        i = i + 1;
    }
    false
}

/// Whether a file at `path` of `size` bytes passes the exclusion prefixes,
/// the size ceiling and the extension lists.
pub(crate) fn admits_file(
    excluded_paths: &Vec<String>,
    excluded_extensions: &Vec<String>,
    included_extensions: &Vec<String>,
    max_file_size_mb: u64,
    path: &str,
    size: u64,
) -> (r: bool)
    ensures
        r == admits_with(
            excluded_paths@,
            excluded_extensions@,
            included_extensions@,
            max_file_size_mb,
            path@,
            size,
        ),
{
    if excluded_by(excluded_paths, path) {
        return false;
    }
    let max_size: u128 = (max_file_size_mb as u128) * 1024 * 1024;
    if size as u128 > max_size {
        return false;
    }
    match extension(path) {
        Some(ext) => {
            if listed(excluded_extensions, ext.as_str()) {
                return false;
            }
            if included_extensions.len() > 0 {
                return listed(included_extensions, ext.as_str());
            }
            true
        },
        None => true,
    }
}

impl IndexingPolicy {
    /// Whether `path` starts with an excluded prefix, ignoring case.
    pub fn is_path_excluded(&self, path: &str) -> (r: bool)
        ensures
            r == path_excluded_by(self.excluded_paths@, path@),
    {
        excluded_by(&self.excluded_paths, path)
    }

    /// Whether `extension` is on the deny list, ignoring case.
    pub fn is_extension_excluded(&self, extension: &str) -> (r: bool)
        ensures
            r == ext_listed(self.excluded_extensions@, extension@),
    {
        listed(&self.excluded_extensions, extension)
    }

    /// Whether a file at `path` of `size` bytes is to be indexed.
    pub fn should_index_file(&self, path: &str, size: u64) -> (r: bool)
        ensures
            r == admits(*self, path@, size),
    {
        admits_file(
            &self.excluded_paths,
            &self.excluded_extensions,
            &self.included_extensions,
            self.max_file_size_mb,
            path,
            size,
        )
    }

    /// Whether the walk skips the entry at `path`.
    pub fn is_hidden_or_excluded(&self, path: &str) -> (r: bool)
        ensures
            r == skips(*self, path@),
    {
        if self.is_path_excluded(path) {
            return true;
        }
        let name = file_name(path);
        if !self.include_hidden && name.as_str().unicode_len() > 0 {
            if name.as_str().get_char(0) == '.' {
                return true;
            }
        }
        false
    }

    /// The candidates among the walk's entries: the regular files that the
    /// policy admits, in walk order. Directories are walked, not yielded.
    pub fn select_candidates(&self, entries: &Vec<WalkEntry>) -> (r: Vec<String>)
        ensures
            r@.map_values(|s: String| s@) == candidates(*self, entries@),
    {
        let ghost pred = |e: WalkEntry| e.is_file && admits(*self, e.path@, e.size);
        let ghost kept = entries@.take(0).filter(pred);
        let mut out: Vec<String> = Vec::new();
        let mut i: usize = 0;
        assert(entries@.take(0) =~= Seq::<WalkEntry>::empty());
        proof {
            reveal(Seq::filter);
        }
        assert(out@.map_values(|s: String| s@) =~= kept.map_values(|e: WalkEntry| e.path@));
        while i < entries.len()
            invariant
                i <= entries@.len(),
                pred == (|e: WalkEntry| e.is_file && admits(*self, e.path@, e.size)),
                kept == entries@.take(i as int).filter(pred),
                out@.map_values(|s: String| s@) == kept.map_values(|e: WalkEntry| e.path@),
            decreases entries@.len() - i,
        {
            assert(entries@.take(i + 1).drop_last() =~= entries@.take(i as int));
            assert(entries@.take(i + 1).last() == entries@[i as int]);
            let e = &entries[i];
            let keep = e.is_file && self.should_index_file(e.path.as_str(), e.size);
            proof {
                reveal(Seq::filter);
            }
            if keep {
                let ghost before = out@;
                let ghost kb = kept;
                out.push(e.path.clone());
                proof {
                    kept = kept.push(*e);
                    assert(out@.map_values(|s: String| s@) =~= before.map_values(|s: String| s@).push(e.path@));
                    assert(kept.map_values(|x: WalkEntry| x.path@) =~= kb.map_values(|x: WalkEntry| x.path@).push(e.path@));
                }
            }
            assert(kept == entries@.take(i + 1).filter(pred));
            i = i + 1;
        }
        assert(entries@.take(entries@.len() as int) =~= entries@);
        out
    }
}

} // verus!
