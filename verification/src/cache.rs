//! The ping cache: the last measured pings, kept beside the configuration so
//! that the dashboard can show them before new measurements come in.
use vstd::prelude::*;
use std::path::{Path, PathBuf};
use crate::ping::PingMap;

verus! {

#[verifier::external_type_specification]
#[verifier::external_body]
pub struct ExPath(Path);

#[verifier::external_type_specification]
#[verifier::external_body]
pub struct ExPathBuf(PathBuf);

/// What `Path::parent` gives for a path: the path without its last
/// component, none for a root or an empty path.
pub uninterp spec fn parent_of(p: &Path) -> Option<&Path>;

/// What `Path::join` gives: `p` with `name` appended as a further component.
pub uninterp spec fn joined(p: &Path, name: Seq<char>) -> PathBuf;

/// What `PathBuf::from` gives for a text.
pub uninterp spec fn path_of(name: Seq<char>) -> PathBuf;

/// The last component of a path, as `Path::file_name` reads it.
pub uninterp spec fn file_name_of(p: PathBuf) -> Option<Seq<char>>;

/// A single ordinary path component: letters, digits, `.`, `_` and `-`, not
/// only dots, so neither a separator, a drive prefix, `.` nor `..`.
pub open spec fn is_plain_component(s: Seq<char>) -> bool {
    &&& s.len() > 0
    &&& forall|i: int|
        0 <= i < s.len() ==> ('a' <= #[trigger] s[i] <= 'z' || 'A' <= s[i] <= 'Z' || '0' <= s[i] <= '9'
            || s[i] == '.' || s[i] == '_' || s[i] == '-')
    &&& exists|i: int| 0 <= i < s.len() && #[trigger] s[i] != '.'
}

/// Calls `Path::parent`; the result is named `parent_of` of the path.
#[verifier::external_body]
fn path_parent(p: &Path) -> (r: Option<&Path>)
    ensures
        r == parent_of(p),
{
    p.parent()
}

/// Calls `Path::join`; the result is named `joined` of its arguments. Joining
/// a single plain component makes it the last component of the result, as
/// the documentation of `Path::join` (which appends it) and of
/// `Path::file_name` (the final component) give it.
#[verifier::external_body]
fn path_join(p: &Path, name: &str) -> (r: PathBuf)
    requires
        is_plain_component(name@),
    ensures
        r == joined(p, name@),
        file_name_of(r) == Some(name@),
{
    p.join(name)
}

/// Calls `PathBuf::from` on a text; the result is named `path_of` of it. A
/// single plain component is the whole path, so it is its last component.
#[verifier::external_body]
fn path_from(name: &str) -> (r: PathBuf)
    requires
        is_plain_component(name@),
    ensures
        r == path_of(name@),
        file_name_of(r) == Some(name@),
{
    PathBuf::from(name)
}

/// The name of the cache file.
pub const CACHE_FILE_NAME: &'static str = "cache.json";

proof fn lemma_cache_file_name_plain()
    ensures
        is_plain_component(CACHE_FILE_NAME@),
{
    reveal_strlit("cache.json");
    assert(CACHE_FILE_NAME@[0] != '.');
}

/// The cache file beside the configuration file: `cache.json` in the
/// configuration's directory, or in the working directory when the
/// configuration path has no parent.
pub fn get_cache_path(config_path: &Path) -> (r: PathBuf)
    ensures
        r == (match parent_of(config_path) {
            Some(dir) => joined(dir, CACHE_FILE_NAME@),
            None => path_of(CACHE_FILE_NAME@),
        }),
        file_name_of(r) == Some(CACHE_FILE_NAME@),
{
    proof {
        lemma_cache_file_name_plain();
    }
    match path_parent(config_path) {
        Some(parent) => path_join(parent, CACHE_FILE_NAME),
        None => path_from(CACHE_FILE_NAME),
    }
}

/// The cached pings and when they were saved (Unix seconds).
pub struct PingCache {
    pub updated_at: u64,
    pub pings: PingMap,
}

impl Default for PingCache {
    fn default() -> (r: PingCache)
        ensures
            r.updated_at == 0,
            r.pings@ == Map::<Seq<char>, u32>::empty(),
    {
        PingCache { updated_at: 0, pings: PingMap::new() }
    }
}

impl PingCache {
    /// The cache after saving `new_pings` at `now` (Unix seconds): every
    /// region in `new_pings` takes its new value, every other keeps its old
    /// one, and the time is `now` (zero before 1970). None when there is
    /// nothing new, in which case the cache is left as it is.
    pub fn merged(self, new_pings: &PingMap, now: i64) -> (r: Option<PingCache>)
        ensures
            new_pings@.dom() == Set::<Seq<char>>::empty() <==> r is None,
            r matches Some(c) ==> c.pings@ == self.pings@.union_prefer_right(new_pings@)
                && c.updated_at == (if now > 0 {
                now as u64
            } else {
                0
            }),
    {
        if new_pings.is_empty() {
            return None;
        }
        let mut pings = self.pings;
        pings.merge(new_pings);
        let updated_at: u64 = if now > 0 {
            now as u64
        } else {
            0
        };
        Some(PingCache { updated_at, pings })
    }
}

} // verus!
