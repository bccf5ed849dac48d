//! The trusted boundary to the filesystem-facing crates: the directory
//! walker, path canonicalization, and the local clock.
//!
//! What these calls return depends on the state of the disk and of the
//! clock, so their contracts state only what holds of every outcome.

use vstd::prelude::*;

verus! {

/// One entry produced by walking a directory tree: the full path of the
/// entry and whether it is a directory.
pub struct WalkEntry {
    pub path: String,
    pub is_dir: bool,
}

/// Relies on walkdir::WalkDir: walks the tree rooted at `root` depth-first,
/// sorted by file name so the order is deterministic for a stable tree.
/// Every yielded path is formed by joining `root` with the names below it,
/// so `root` is a prefix of each; entries that cannot be read (permission
/// errors, broken links) are skipped rather than fatal. If `root` does not
/// exist, the walk yields nothing.
#[verifier::external_body]
pub(crate) fn walk_raw(root: &str) -> (r: Vec<WalkEntry>)
    ensures
        forall|i: int|
            0 <= i < r@.len() ==> crate::text::is_prefix_of(root@, #[trigger] r@[i].path@),
{
    let mut out = Vec::new();
    for entry in walkdir::WalkDir::new(root).sort_by_file_name() {
        if let Ok(entry) = entry {
            out.push(
                WalkEntry {
                    path: entry.path().to_string_lossy().into_owned(),
                    is_dir: entry.file_type().is_dir(),
                },
            );
        }
    }
    out
}

/// Relies on dunce::canonicalize: the canonical, absolute form of the path
/// with intermediate components normalized and symbolic links resolved; it
/// fails if the path does not exist.
#[verifier::external_body]
pub(crate) fn canonicalize_path(path: &str) -> Option<String> {
    match dunce::canonicalize(path) {
        Ok(p) => Some(p.to_string_lossy().into_owned()),
        Err(_) => None,
    }
}

/// Whether `s` ends in the timestamp tail `-MM-DD HH:MM:SS` preceded by a
/// year of at least four characters: the shape of the clock's output below.
pub open spec fn timestamp_shaped(s: Seq<char>) -> bool {
    let n = s.len() as int;
    &&& n >= 19
    &&& s[n - 15] == '-'
    &&& s[n - 12] == '-'
    &&& s[n - 9] == ' '
    &&& s[n - 6] == ':'
    &&& s[n - 3] == ':'
    &&& forall|i: int|
        n - 14 <= i < n && i != n - 12 && i != n - 9 && i != n - 6 && i != n - 3 ==> '0' <= #[trigger] s[i] <= '9'
}

/// Relies on chrono::Local::now, formatted with `%Y-%m-%d %H:%M:%S`: the
/// current local time, with month through second zero-padded to two digits
/// and the year to at least four.
#[verifier::external_body]
pub(crate) fn local_timestamp() -> (r: String)
    ensures
        timestamp_shaped(r@),
{
    chrono::Local::now().format("%Y-%m-%d %H:%M:%S").to_string()
}

} // verus!
