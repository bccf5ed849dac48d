use std::io::Write;

use tempfile::{Builder, NamedTempFile, TempDir};

fn routine_text(dir: &str, excludes: &[&str]) -> String {
    let list = excludes
        .iter()
        .map(|e| format!("\"{}\"", e))
        .collect::<Vec<_>>()
        .join(", ");
    format!(
        "[base]\ntitle = \"Scenario\"\npath = \"{}\"\n[base.interval]\n\
         timestamp = true\ncommit_interval = \"1d\"\nsync_method = \"thorough\"\n\
         time_zone = \"UTC\"\n[crypt]\nencrypt = false\n[press]\ncompression = \"none\"\n\
         [advanced]\nexclude = [{}]\nsync_on_startup = false\n[ntfy]\nntfy_topic = \"t\"\n\
         notification_on_success = false\nnotification_on_failure = false\n[git]\n\
         remote = \"origin\"\nbranch = \"main\"\nforce_push = false\n",
        dir, list
    )
}

fn make_file(dir: &TempDir, name: &str, contents: &str) -> NamedTempFile {
    let dot = name.rfind('.').unwrap();
    let mut file = Builder::new()
        .prefix(&name[..dot])
        .suffix(&name[dot..])
        .rand_bytes(0)
        .tempfile_in(dir.path())
        .unwrap();
    file.write_all(contents.as_bytes()).unwrap();
    file.flush().unwrap();
    file
}

fn head_commit(dir: &str) -> (String, usize, Option<String>, String) {
    let repo = git2::Repository::open(dir).unwrap();
    let commit = repo.head().unwrap().peel_to_commit().unwrap();
    let parent = if commit.parent_count() > 0 {
        Some(commit.parent(0).unwrap().id().to_string())
    } else {
        None
    };
    (
        commit.id().to_string(),
        commit.parent_count(),
        parent,
        commit.message().unwrap_or("").to_string(),
    )
}

fn count_root_commits(dir: &str) -> usize {
    let repo = git2::Repository::open(dir).unwrap();
    let mut walk = repo.revwalk().unwrap();
    walk.push_head().unwrap();
    walk.filter_map(|oid| oid.ok())
        .filter(|oid| repo.find_commit(*oid).unwrap().parent_count() == 0)
        .count()
}

fn is_timestamp(msg: &str) -> bool {
    let b = msg.as_bytes();
    if b.len() < 19 {
        return false;
    }
    let n = b.len();
    let seps = [(n - 15, b'-'), (n - 12, b'-'), (n - 9, b' '), (n - 6, b':'), (n - 3, b':')];
    if seps.iter().any(|&(i, c)| b[i] != c) {
        return false;
    }
    (n - 14..n).all(|i| seps.iter().any(|&(s, _)| s == i) || b[i].is_ascii_digit())
        && b[..n - 15].iter().all(|c| c.is_ascii_digit())
}

#[test]
fn stage_with_message_commits_only_unexcluded_files() {
    let dir = tempfile::tempdir().unwrap();
    let root = dir.path().to_str().unwrap().to_string();
    let _a = make_file(&dir, "a.txt", "alpha");
    let _b = make_file(&dir, "b.txt", "beta");
    let routine =
        act_iv::routine::Routine::read(&routine_text(&root, &["b.txt"])).unwrap();

    let id = routine.stage(&Some("first".to_string())).unwrap();
    assert_eq!(id.len(), 40);

    let repo = git2::Repository::open(&root).unwrap();
    let commit = repo.head().unwrap().peel_to_commit().unwrap();
    assert_eq!(commit.id().to_string(), id);
    assert_eq!(commit.message().unwrap(), "first");
    let tree = commit.tree().unwrap();
    assert!(tree.get_name("a.txt").is_some());
    assert!(tree.get_name("b.txt").is_none());
}

#[test]
fn stage_creates_one_root_commit_then_chains() {
    let dir = tempfile::tempdir().unwrap();
    let root = dir.path().to_str().unwrap().to_string();
    let mut a = make_file(&dir, "a.txt", "one");
    let routine = act_iv::routine::Routine::read(&routine_text(&root, &[])).unwrap();

    let first_id = routine.stage(&Some("first".to_string())).unwrap();
    assert_eq!(count_root_commits(&root), 1);
    let (head1, parents1, parent1, msg1) = head_commit(&root);
    assert_eq!(head1, first_id);
    assert_eq!(parents1, 1);
    assert_eq!(msg1, "first");
    let root_id = parent1.unwrap();

    a.write_all(b" and more").unwrap();
    a.flush().unwrap();
    let second_id = routine.stage(&Some("second".to_string())).unwrap();
    assert_ne!(second_id, first_id);
    assert_eq!(count_root_commits(&root), 1);
    let (head2, parents2, parent2, msg2) = head_commit(&root);
    assert_eq!(head2, second_id);
    assert_eq!(parents2, 1);
    assert_eq!(parent2.unwrap(), first_id);
    assert_ne!(second_id, root_id);
    assert_eq!(msg2, "second");
}

#[test]
fn stage_twice_without_message_uses_timestamps_and_chains() {
    let dir = tempfile::tempdir().unwrap();
    let root = dir.path().to_str().unwrap().to_string();
    let mut a = make_file(&dir, "a.txt", "one");
    let routine = act_iv::routine::Routine::read(&routine_text(&root, &[])).unwrap();

    let first_id = routine.stage(&None).unwrap();
    let (_, _, _, msg1) = head_commit(&root);
    a.write_all(b" two").unwrap();
    a.flush().unwrap();
    let second_id = routine.stage(&None).unwrap();
    let (head2, _, parent2, msg2) = head_commit(&root);

    assert_ne!(first_id, second_id);
    assert_eq!(head2, second_id);
    assert_eq!(parent2.unwrap(), first_id);
    assert!(is_timestamp(&msg1), "not a timestamp: {}", msg1);
    assert!(is_timestamp(&msg2), "not a timestamp: {}", msg2);
}

#[test]
fn stage_on_a_missing_directory_reports_not_found() {
    let routine = act_iv::routine::Routine::read(&routine_text(
        "/nowhere/that/exists",
        &[],
    ))
    .unwrap();
    let err = routine.stage(&None).unwrap_err();
    assert_eq!(err.describe(), "routine not found");
}

#[test]
fn stage_entry_point_reports_parse_failures() {
    let err = act_iv::engine::stage("[base]\n", &None).unwrap_err();
    assert_eq!(err.describe(), "parse error: base.title");
}

#[test]
fn walk_directory_skips_the_metadata_directory() {
    let dir = tempfile::tempdir().unwrap();
    let root = dir.path().to_str().unwrap().to_string();
    let _a = make_file(&dir, "a.txt", "alpha");
    git2::Repository::init(&root).unwrap();

    let walked = act_iv::engine::walk_directory(&root);
    assert!(walked.iter().any(|p| p.ends_with("a.txt")));
    assert!(walked.iter().all(|p| !p.contains(".git")));
    assert!(walked.iter().all(|p| p != &root));
}

#[test]
fn plan_keeps_files_below_the_root_only() {
    let entry = |path: &str, is_dir: bool| act_iv::fsops::WalkEntry {
        path: path.to_string(),
        is_dir,
    };
    let entries = vec![
        entry("/r", true),
        entry("/r/.git", true),
        entry("/r/.git/config", false),
        entry("/r/a.txt", false),
        entry("/r/b.txt", false),
        entry("/r/sub", true),
        entry("/r/sub/c.tmp", false),
    ];
    let excludes = vec!["*.tmp".to_string(), "b.txt".to_string()];
    let plan = act_iv::engine::plan_paths(&entries, "/r", &excludes);
    assert_eq!(plan, vec!["a.txt".to_string()]);

    let no_excludes: Vec<String> = Vec::new();
    let plan = act_iv::engine::plan_paths(&entries, "/r", &no_excludes);
    assert_eq!(plan, vec!["a.txt".to_string(), "b.txt".to_string(), "sub/c.tmp".to_string()]);
}
