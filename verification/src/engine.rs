//! The synchronization engine: turns a routine's declared directory into a
//! Git commit. Each invocation re-derives the repository's state from disk:
//! it opens or creates the repository, stages the walked files minus the
//! excluded ones, and commits, creating a root commit first when the
//! repository has no history.

use vstd::prelude::*;
use vstd::string::StrSliceExecFns;
use crate::errors::ActError;
use crate::fsops::WalkEntry;
use crate::glob::{any_glob_matches, any_glob_match};
use crate::text::is_prefix_of;
use crate::routine::view_strings;

verus! {

/// The path of a walked entry, relative to the walk's root: the root prefix
/// is removed, and one leading separator after it.
pub open spec fn rel_of(p: Seq<char>, root: Seq<char>) -> Seq<char> {
    let r = p.skip(root.len() as int);
    if r.len() > 0 && r[0] == '/' {
        r.drop_first()
    } else {
        r
    }
}

/// The version-control metadata directory: the subdirectory of the root
/// literally named after the VCS.
pub open spec fn vcs_dir(root: Seq<char>) -> Seq<char> {
    if root.len() > 0 && root.last() == '/' {
        root + ".git"@
    } else {
        root + "/.git"@
    }
}

/// Whether a path lies under the version-control metadata directory: it is
/// that directory itself, or extends it past a separator. A sibling whose
/// name merely begins with the directory's name does not lie under it.
pub open spec fn under_vcs(p: Seq<char>, root: Seq<char>) -> bool {
    p == vcs_dir(root) || is_prefix_of(vcs_dir(root) + "/"@, p)
}

/// The two texts the metadata test compares against: the metadata directory
/// itself, and that directory extended by a separator.
fn vcs_strings(root: &str) -> (r: (String, String))
    ensures
        r.0@ == vcs_dir(root@),
        r.1@ == vcs_dir(root@) + "/"@,
{
    let mut vcs = root.to_owned();
    let rn = root.unicode_len();
    if rn > 0 && root.get_char(rn - 1) == '/' {
        vcs.append(".git");
    } else {
        vcs.append("/.git");
    }
    proof {
        assert(root@.last() == root@[root@.len() - 1]);
        assert(vcs@ == vcs_dir(root@));
    }
    let mut vcs_slash = vcs.clone();
    vcs_slash.append("/");
    (vcs, vcs_slash)
}

/// Whether a walked entry is staged: a file below the root, not the root
/// itself, not version-control metadata, and not matched by any exclude
/// pattern.
pub open spec fn keep_entry(
    p: Seq<char>,
    is_dir: bool,
    root: Seq<char>,
    excludes: Seq<Seq<char>>,
) -> bool {
    &&& !is_dir
    &&& p != root
    &&& is_prefix_of(root, p)
    &&& !under_vcs(p, root)
    &&& !any_glob_matches(excludes, rel_of(p, root))
}

/// The relative paths of the walked entries that are staged, in walk order.
pub open spec fn plan_spec(
    entries: Seq<(Seq<char>, bool)>,
    root: Seq<char>,
    excludes: Seq<Seq<char>>,
) -> Seq<Seq<char>>
    decreases entries.len(),
{
    if entries.len() == 0 {
        Seq::empty()
    } else {
        let head: Seq<Seq<char>> = if keep_entry(entries[0].0, entries[0].1, root, excludes) {
            seq![rel_of(entries[0].0, root)]
        } else {
            Seq::empty()
        };
        head + plan_spec(entries.drop_first(), root, excludes)
    }
}

/// The walked entries' contents.
pub open spec fn walk_views(es: Seq<WalkEntry>) -> Seq<(Seq<char>, bool)> {
    es.map_values(|e: WalkEntry| (e.path@, e.is_dir))
}

/// No excluded path is ever staged: whatever the walker produced, a
/// relative path matched by an exclude pattern is absent from the plan.
pub proof fn lemma_excluded_absent(
    entries: Seq<(Seq<char>, bool)>,
    root: Seq<char>,
    excludes: Seq<Seq<char>>,
)
    ensures
        forall|k: int|
            0 <= k < plan_spec(entries, root, excludes).len() ==> !any_glob_matches(
                excludes,
                #[trigger] plan_spec(entries, root, excludes)[k],
            ),
    decreases entries.len(),
{
    if entries.len() > 0 {
        lemma_excluded_absent(entries.drop_first(), root, excludes);
        let rest = plan_spec(entries.drop_first(), root, excludes);
        if keep_entry(entries[0].0, entries[0].1, root, excludes) {
            assert(forall|k: int|
                1 <= k < plan_spec(entries, root, excludes).len() ==> plan_spec(
                    entries,
                    root,
                    excludes,
                )[k] == rest[k - 1]);
        } else {
            assert(plan_spec(entries, root, excludes) =~= rest);
        }
    }
}

/// The relative path of one walked entry.
fn rel_exec(p: &str, root: &str) -> (r: String)
    requires
        is_prefix_of(root@, p@),
    ensures
        r@ == rel_of(p@, root@),
{
    let n = p.unicode_len();
    let k = root.unicode_len();
    let rest = p.substring_char(k, n);
    proof {
        assert(rest@ =~= p@.skip(root@.len() as int));
    }
    if rest.unicode_len() > 0 && rest.get_char(0) == '/' {
        let r = rest.substring_char(1, rest.unicode_len()).to_owned();
        proof {
            assert(r@ =~= p@.skip(root@.len() as int).drop_first());
        }
        r
    } else {
        rest.to_owned()
    }
}

/// Computes the staged relative paths from the walked entries.
pub fn plan_paths(entries: &Vec<WalkEntry>, root: &str, excludes: &Vec<String>) -> (r: Vec<
    String,
>)
    ensures
        crate::codec::line_views(r@) == plan_spec(
            walk_views(entries@),
            root@,
            view_strings(excludes@),
        ),
{
    let ghost wv = walk_views(entries@);
    let ghost ex = view_strings(excludes@);
    let (vcs, vcs_slash) = vcs_strings(root);
    let mut r: Vec<String> = Vec::new();
    let n = entries.len();
    let mut i: usize = 0;
    proof {
        assert(wv.skip(0) =~= wv);
        assert(crate::codec::line_views(r@) + plan_spec(wv, root@, ex) =~= plan_spec(
            wv,
            root@,
            ex,
        ));
    }
    while i < n
        invariant
            n == entries@.len(),
            wv == walk_views(entries@),
            ex == view_strings(excludes@),
            vcs@ == vcs_dir(root@),
            vcs_slash@ == vcs_dir(root@) + "/"@,
            i <= n,
            plan_spec(wv, root@, ex) == crate::codec::line_views(r@) + plan_spec(
                wv.skip(i as int),
                root@,
                ex,
            ),
        decreases n - i,
    {
        proof {
            assert(wv.skip(i as int)[0] == wv[i as int]);
            assert(wv.skip(i as int).drop_first() =~= wv.skip(i as int + 1));
            assert(wv[i as int] == (entries@[i as int].path@, entries@[i as int].is_dir));
        }
        let e = &entries[i];
        let keep = !e.is_dir && !crate::text::string_eq(e.path.as_str(), root)
            && crate::text::starts_with(e.path.as_str(), root) && !crate::text::string_eq(
            e.path.as_str(),
            vcs.as_str(),
        ) && !crate::text::starts_with(e.path.as_str(), vcs_slash.as_str());
        if keep {
            let rel = rel_exec(e.path.as_str(), root);
            if !any_glob_match(excludes, rel.as_str()) {
                r.push(rel);
                proof {
                    assert(keep_entry(wv[i as int].0, wv[i as int].1, root@, ex));
                    assert(crate::codec::line_views(r@) =~= crate::codec::line_views(
                        r@.drop_last(),
                    ).push(rel_of(wv[i as int].0, root@)));
                    assert(plan_spec(wv.skip(i as int), root@, ex) =~= seq![
                        rel_of(wv[i as int].0, root@),
                    ] + plan_spec(wv.skip(i as int + 1), root@, ex));
                }
            } else {
                proof {
                    assert(!keep_entry(wv[i as int].0, wv[i as int].1, root@, ex));
                    assert(plan_spec(wv.skip(i as int), root@, ex) =~= plan_spec(
                        wv.skip(i as int + 1),
                        root@,
                        ex,
                    ));
                }
            }
        } else {
            proof {
                assert(!keep_entry(wv[i as int].0, wv[i as int].1, root@, ex));
                assert(plan_spec(wv.skip(i as int), root@, ex) =~= plan_spec(
                    wv.skip(i as int + 1),
                    root@,
                    ex,
                ));
            }
        }
        i += 1;
    }
    proof {
        assert(wv.skip(n as int) =~= Seq::<(Seq<char>, bool)>::empty());
        assert(crate::codec::line_views(r@) =~= plan_spec(wv, root@, ex));
    }
    r
}

/// Walks the directory and keeps every entry below the root, excluding the
/// root itself and the version-control metadata directory.
/// Whether a walked entry survives the walk's own filter: below the root,
/// not the root itself, and not version-control metadata. Directories stay.
pub open spec fn keep_walk(p: Seq<char>, root: Seq<char>) -> bool {
    &&& p != root
    &&& is_prefix_of(root, p)
    &&& !under_vcs(p, root)
}

/// Exactly the walked paths that the walk keeps, in walk order.
pub open spec fn kept_spec(entries: Seq<(Seq<char>, bool)>, root: Seq<char>) -> Seq<Seq<char>>
    decreases entries.len(),
{
    if entries.len() == 0 {
        Seq::empty()
    } else {
        let head: Seq<Seq<char>> = if keep_walk(entries[0].0, root) {
            seq![entries[0].0]
        } else {
            Seq::empty()
        };
        head + kept_spec(entries.drop_first(), root)
    }
}

/// Every kept path satisfies the walk's filter.
pub proof fn lemma_kept_spec_sound(entries: Seq<(Seq<char>, bool)>, root: Seq<char>)
    ensures
        forall|k: int|
            0 <= k < kept_spec(entries, root).len() ==> keep_walk(
                #[trigger] kept_spec(entries, root)[k],
                root,
            ),
    decreases entries.len(),
{
    if entries.len() > 0 {
        lemma_kept_spec_sound(entries.drop_first(), root);
        let rest = kept_spec(entries.drop_first(), root);
        if keep_walk(entries[0].0, root) {
            assert(forall|k: int|
                1 <= k < kept_spec(entries, root).len() ==> kept_spec(entries, root)[k] == rest[k
                    - 1]);
        } else {
            assert(kept_spec(entries, root) =~= rest);
        }
    }
}

/// Keeps exactly one path per walked entry besides the root and the
/// version-control metadata subtree, in walk order.
pub fn filter_walk(entries: &Vec<WalkEntry>, root: &str) -> (r: Vec<String>)
    ensures
        crate::codec::line_views(r@) == kept_spec(walk_views(entries@), root@),
{
    let ghost wv = walk_views(entries@);
    let (vcs, vcs_slash) = vcs_strings(root);
    let mut r: Vec<String> = Vec::new();
    let n = entries.len();
    let mut i: usize = 0;
    proof {
        assert(wv.skip(0) =~= wv);
        assert(crate::codec::line_views(r@) + kept_spec(wv, root@) =~= kept_spec(wv, root@));
    }
    while i < n
        invariant
            n == entries@.len(),
            wv == walk_views(entries@),
            vcs@ == vcs_dir(root@),
            vcs_slash@ == vcs_dir(root@) + "/"@,
            i <= n,
            kept_spec(wv, root@) == crate::codec::line_views(r@) + kept_spec(
                wv.skip(i as int),
                root@,
            ),
        decreases n - i,
    {
        proof {
            assert(wv.skip(i as int)[0] == wv[i as int]);
            assert(wv.skip(i as int).drop_first() =~= wv.skip(i as int + 1));
            assert(wv[i as int] == (entries@[i as int].path@, entries@[i as int].is_dir));
        }
        let e = &entries[i];
        let keep = !crate::text::string_eq(e.path.as_str(), root) && crate::text::starts_with(
            e.path.as_str(),
            root,
        ) && !crate::text::string_eq(e.path.as_str(), vcs.as_str())
            && !crate::text::starts_with(e.path.as_str(), vcs_slash.as_str());
        if keep {
            r.push(e.path.clone());
            proof {
                assert(keep_walk(wv[i as int].0, root@));
                assert(crate::codec::line_views(r@) =~= crate::codec::line_views(
                    r@.drop_last(),
                ).push(wv[i as int].0));
                assert(kept_spec(wv.skip(i as int), root@) =~= seq![wv[i as int].0] + kept_spec(
                    wv.skip(i as int + 1),
                    root@,
                ));
            }
        } else {
            proof {
                assert(!keep_walk(wv[i as int].0, root@));
                assert(kept_spec(wv.skip(i as int), root@) =~= kept_spec(
                    wv.skip(i as int + 1),
                    root@,
                ));
            }
        }
        i += 1;
    }
    proof {
        assert(wv.skip(n as int) =~= Seq::<(Seq<char>, bool)>::empty());
        assert(crate::codec::line_views(r@) =~= kept_spec(wv, root@));
    }
    r
}

/// Walks the directory and keeps exactly the entries the walker saw below
/// the root, excluding the root itself and the version-control metadata
/// subtree: the filtering is total and exact over the walked entries
/// (`filter_walk`); what the walker saw depends on the disk.
pub fn walk_directory(path: &str) -> (r: Vec<String>)
    ensures
        forall|k: int| 0 <= k < r@.len() ==> keep_walk(#[trigger] r@[k]@, path@),
{
    let entries = crate::fsops::walk_raw(path);
    let r = filter_walk(&entries, path);
    proof {
        lemma_kept_spec_sound(walk_views(entries@), path@);
        assert(forall|k: int|
            0 <= k < r@.len() ==> crate::codec::line_views(r@)[k] == #[trigger] r@[k]@);
    }
    r
}

/// The staged paths and the commit message of one stage operation.
pub struct StagePlan {
    pub files: Vec<String>,
    pub message: String,
}

/// Decides one stage operation from the walked entries: the operation is
/// refused unless the walk saw the root as a directory; otherwise the plan
/// holds the staged relative paths and the commit message — the caller's
/// if one was given, the current timestamp otherwise.
pub fn stage_plan(
    entries: &Vec<WalkEntry>,
    root: &str,
    excludes: &Vec<String>,
    message: &Option<String>,
    now: String,
) -> (r: Result<StagePlan, ActError>)
    ensures
        match r {
            Ok(plan) => {
                &&& (exists|k: int|
                    0 <= k < entries@.len() && (#[trigger] entries@[k].path@) == root@
                        && entries@[k].is_dir)
                &&& crate::codec::line_views(plan.files@) == plan_spec(
                    walk_views(entries@),
                    root@,
                    view_strings(excludes@),
                )
                &&& plan.message@ == (match message {
                    Some(m) => m@,
                    None => now@,
                })
            },
            Err(e) => e is NotFound && (forall|k: int|
                0 <= k < entries@.len() ==> !((#[trigger] entries@[k].path@) == root@
                    && entries@[k].is_dir)),
        },
{
    let n = entries.len();
    let mut i: usize = 0;
    let mut found = false;
    while i < n
        invariant
            n == entries@.len(),
            i <= n,
            found <==> exists|k: int|
                0 <= k < i && (#[trigger] entries@[k].path@) == root@ && entries@[k].is_dir,
        decreases n - i,
    {
        if entries[i].is_dir && crate::text::string_eq(entries[i].path.as_str(), root) {
            found = true;
        }
        i += 1;
    }
    if !found {
        return Err(ActError::NotFound);
    }
    let files = plan_paths(entries, root, excludes);
    let msg = match message {
        Some(m) => m.clone(),
        None => now,
    };
    Ok(StagePlan { files, message: msg })
}

/// Attaches the routine's title and the failing step to a repository
/// failure's message; other error kinds pass through unchanged.
fn with_context(title: &str, step: &str, e: ActError) -> (r: ActError)
    ensures
        r is RepositoryError <==> e is RepositoryError,
        r is LockContention <==> e is LockContention,
        r is NotFound <==> e is NotFound,
        r matches ActError::RepositoryError(m) ==> is_prefix_of(
            title@ + ": "@ + step@ + ": "@,
            m@,
        ),
{
    match e {
        ActError::RepositoryError(msg) => {
            let mut ctx = title.to_owned();
            ctx.append(": ");
            ctx.append(step);
            ctx.append(": ");
            let ghost pre = ctx@;
            ctx.append(msg.as_str());
            proof {
                assert(ctx@.subrange(0, pre.len() as int) =~= pre);
            }
            ActError::RepositoryError(ctx)
        },
        other => other,
    }
}

/// Creates the repository's root commit, with no parents, from the given
/// tree; its message marks the repository as initialized by this tool.
pub fn init_repo(
    repo: &git2::Repository,
    publisher: &git2::Signature<'_>,
    tree: &git2::Tree<'_>,
) -> (r: Result<git2::Oid, ActError>)
    ensures
        r is Err ==> (r->Err_0 is RepositoryError || r->Err_0 is LockContention),
{
    match crate::gitops::commit_root(repo, publisher, "ACT-IV Init", tree) {
        Ok(oid) => Ok(oid),
        Err(e) => Err(crate::gitops::repo_error(e)),
    }
}

impl crate::routine::Routine {
    /// Stages the routine: walks its directory, adds every kept file to the
    /// repository's index, writes the index as a tree, and commits it —
    /// after a root commit first when the repository has no history. The
    /// commit's message is the caller's, or the current local timestamp.
    /// Returns the created commit's hex identifier; staging is strictly
    /// local and no remote is touched.
    pub fn stage(&self, message: &Option<String>) -> (r: Result<String, ActError>)
        ensures
            r matches Ok(id) ==> id@.len() == 40,
            r matches Err(e) ==> (e is NotFound || e is RepositoryError || e is LockContention),
    {
        let root = self.base.path.as_str();
        let title = self.base.title.as_str();
        let entries = crate::fsops::walk_raw(root);
        let now = crate::fsops::local_timestamp();
        let plan = match stage_plan(&entries, root, &self.advanced.exclude, message, now) {
            Ok(p) => p,
            Err(_) => {
                return Err(ActError::NotFound);
            },
        };
        let repo = match crate::gitops::repo_open(root) {
            Ok(repo) => repo,
            Err(_) => {
                match crate::gitops::repo_init(root) {
                    Ok(repo) => repo,
                    Err(e) => {
                        return Err(
                            with_context(title, "init", crate::gitops::repo_error(e)),
                        );
                    },
                }
            },
        };
        let mut index = match crate::gitops::repo_index(&repo) {
            Ok(ix) => ix,
            Err(e) => {
                return Err(with_context(title, "index", crate::gitops::repo_error(e)));
            },
        };
        let n = plan.files.len();
        let mut i: usize = 0;
        while i < n
            invariant
                n == plan.files@.len(),
                i <= n,
            decreases n - i,
        {
            match crate::gitops::index_add_path(&mut index, plan.files[i].as_str()) {
                Ok(_) => {
                },
                Err(e) => {
                    return Err(
                        with_context(title, "index add", crate::gitops::repo_error(e)),
                    );
                },
            }
            i += 1;
        }
        match crate::gitops::index_write(&mut index) {
            Ok(_) => {
            },
            Err(e) => {
                return Err(
                    with_context(title, "index write", crate::gitops::repo_error(e)),
                );
            },
        }
        let tree_oid = match crate::gitops::index_write_tree(&mut index) {
            Ok(oid) => oid,
            Err(e) => {
                return Err(
                    with_context(title, "write tree", crate::gitops::repo_error(e)),
                );
            },
        };
        let tree = match crate::gitops::find_tree(&repo, &tree_oid) {
            Ok(t) => t,
            Err(e) => {
                return Err(
                    with_context(title, "find tree", crate::gitops::repo_error(e)),
                );
            },
        };
        let publisher = match crate::gitops::signature_now("test", "test@example.com") {
            Ok(s) => s,
            Err(e) => {
                return Err(
                    with_context(title, "signature", crate::gitops::repo_error(e)),
                );
            },
        };
        let head_oid = match crate::gitops::refname_to_id(&repo, "HEAD") {
            Ok(oid) => oid,
            Err(_) => {
                match init_repo(&repo, &publisher, &tree) {
                    Ok(oid) => oid,
                    Err(e) => {
                        return Err(with_context(title, "root commit", e));
                    },
                }
            },
        };
        let parent = match crate::gitops::find_commit(&repo, &head_oid) {
            Ok(c) => c,
            Err(e) => {
                return Err(
                    with_context(title, "find commit", crate::gitops::repo_error(e)),
                );
            },
        };
        let commit_oid = match crate::gitops::commit_with_parent(
            &repo,
            &publisher,
            plan.message.as_str(),
            &tree,
            &parent,
        ) {
            Ok(oid) => oid,
            Err(e) => {
                return Err(with_context(title, "commit", crate::gitops::repo_error(e)));
            },
        };
        Ok(crate::gitops::oid_hex(&commit_oid))
    }
}

/// Reads a routine definition and stages it: the collaborator entry point
/// behind the command line's `stage`.
pub fn stage(routine_str: &str, message: &Option<String>) -> (r: Result<String, ActError>)
    ensures
        match crate::codec::read_spec(routine_str@) {
            Err(f) => r matches Err(e) && (e matches ActError::ParseError(m) && m@ == f),
            Ok(_) => (r matches Err(e) ==> (e is NotFound || e is RepositoryError
                || e is LockContention)),
        },
        r matches Ok(id) ==> id@.len() == 40 && crate::codec::read_spec(routine_str@) is Ok,
{
    let routine = match crate::routine::Routine::read(routine_str) {
        Ok(rt) => rt,
        Err(e) => {
            return Err(e);
        },
    };
    routine.stage(message)
}

} // verus!
