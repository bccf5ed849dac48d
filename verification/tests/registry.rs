use std::io::Write;

use act_iv::errors::ActError;
use act_iv::registry::{reconcile_entries, Lister, ListerEntry};

fn mock_definition(title: &str) -> String {
    format!(
        "[base]\ntitle = \"{}\"\npath = \"/path/to/notes\"\n[base.interval]\n\
         timestamp = true\ncommit_interval = \"1d\"\nsync_method = \"thorough\"\n\
         time_zone = \"UTC\"\n[crypt]\nencrypt = false\n[press]\ncompression = \"gz\"\n\
         [advanced]\nexclude = []\nsync_on_startup = true\n[ntfy]\nntfy_topic = \"t\"\n\
         notification_on_success = true\nnotification_on_failure = true\n[git]\n\
         remote = \"r\"\nbranch = \"main\"\nforce_push = false\n",
        title
    )
}

fn entry(title: &str, path: &str) -> ListerEntry {
    ListerEntry { title: title.to_string(), path: path.to_string() }
}

#[test]
fn parse_lister_file_reads_title_path_lines() {
    let text = "\nNotes: ./tasks.toml\nTasks: ./tasks.toml\n";
    let entries = Lister::parse_lister_file(text).unwrap();
    assert_eq!(entries.len(), 2);
    assert_eq!(entries[0].title, "Notes");
    assert_eq!(entries[0].path, "./tasks.toml");
    assert_eq!(entries[1].title, "Tasks");
    assert_eq!(entries[1].path, "./tasks.toml");
}

#[test]
fn parse_lister_file_keeps_the_last_line_per_title() {
    let text = "# Lister file start\nNotes: ./old.toml\nNotes: ./new.toml\n";
    let entries = Lister::parse_lister_file(text).unwrap();
    assert_eq!(entries.len(), 1);
    assert_eq!(entries[0].path, "./new.toml");
}

#[test]
fn parse_lister_file_rejects_a_malformed_line() {
    assert!(Lister::parse_lister_file("Notes ./broken.toml\n").is_err());
}

#[test]
fn dump_writes_one_line_per_entry() {
    let mut lister = Lister::new("lister".to_string());
    lister.insert_entry("DumpTest".to_string(), "/tmp/a.toml".to_string());
    lister.insert_entry("Other".to_string(), "/tmp/b.toml".to_string());
    let text = lister.dump();
    assert_eq!(
        text,
        "\"DumpTest\": \"/tmp/a.toml\"\n\"Other\": \"/tmp/b.toml\"\n"
    );
    let back = Lister::parse_lister_file(&text).unwrap();
    assert_eq!(back.len(), 2);
    assert_eq!(back[0].title, "DumpTest");
    assert_eq!(back[1].path, "/tmp/b.toml");
}

#[test]
fn resolve_is_exact_match_only() {
    let mut lister = Lister::new("lister".to_string());
    lister.insert_entry("Notes".to_string(), "/tmp/notes.toml".to_string());
    assert_eq!(lister.resolve("Notes").as_deref(), Some("/tmp/notes.toml"));
    assert!(lister.resolve("Note").is_none());
    assert!(lister.resolve("notes").is_none());
    assert!(lister.resolve("").is_none());
}

#[test]
fn add_file_with_explicit_name_registers_under_it() {
    let mut lister = Lister::new("lister".to_string());
    let path = "/nowhere/new_routine.toml".to_string();
    lister.add_file(&path, Some("CustomName".to_string()), None).unwrap();
    assert_eq!(lister.get_data().len(), 1);
    assert_eq!(lister.resolve("CustomName").as_deref(), Some("/nowhere/new_routine.toml"));
}

#[test]
fn add_file_without_name_uses_the_definition_title_canonicalized() {
    let dir = tempfile::tempdir().unwrap();
    let mut file = tempfile::Builder::new()
        .prefix("notes")
        .suffix(".toml")
        .rand_bytes(0)
        .tempfile_in(dir.path())
        .unwrap();
    let text = mock_definition("Notes");
    file.write_all(text.as_bytes()).unwrap();
    file.flush().unwrap();
    let path = dir.path().join("notes.toml").to_str().unwrap().to_string();

    let mut lister = Lister::new("lister".to_string());
    lister.add_file(&path, None, Some(&text)).unwrap();

    let expected = dunce::canonicalize(&path).unwrap().to_str().unwrap().to_string();
    assert_eq!(lister.resolve("Notes"), Some(expected));
}

#[test]
fn add_file_without_name_reports_a_parse_failure() {
    let mut lister = Lister::new("lister".to_string());
    let path = "/nowhere/broken.toml".to_string();
    let bad = "[base]\n".to_string();
    let err = lister.add_file(&path, None, Some(&bad)).unwrap_err();
    assert_eq!(err.describe(), "parse error: base.title");
    assert!(lister.get_data().is_empty());
}

#[test]
fn reconcile_prunes_dead_and_upserts_scanned() {
    let existing = vec![entry("Dead", "/gone.toml"), entry("Kept", "/kept.toml")];
    let scanned = vec![entry("Kept", "/moved.toml"), entry("New", "/new.toml")];
    let alive = vec![false, true];
    let out = reconcile_entries(&existing, &scanned, &alive);
    assert_eq!(out.len(), 2);
    assert_eq!(out[0].title, "Kept");
    assert_eq!(out[0].path, "/moved.toml");
    assert_eq!(out[1].title, "New");
    assert_eq!(out[1].path, "/new.toml");
}

#[test]
fn reconcile_twice_with_no_changes_is_idempotent() {
    let existing = vec![
        entry("A", "/a.toml"),
        entry("B", "/b.toml"),
        entry("C", "/c.toml"),
    ];
    let scanned = vec![entry("B", "/b2.toml"), entry("D", "/d.toml")];
    let alive = vec![true, true, false];
    let first = reconcile_entries(&existing, &scanned, &alive);
    let all_alive = vec![true; first.len()];
    let second = reconcile_entries(&first, &scanned, &all_alive);
    assert_eq!(first.len(), second.len());
    for (a, b) in first.iter().zip(second.iter()) {
        assert_eq!(a.title, b.title);
        assert_eq!(a.path, b.path);
    }
}

#[test]
fn read_library_matches_the_lister_store() {
    let entries = act_iv::config::read_library("Notes: /tmp/n.toml\n").unwrap();
    assert_eq!(entries.len(), 1);
    assert_eq!(entries[0].title, "Notes");
}

#[test]
fn config_text_round_trips() {
    let items = vec![
        ("editor".to_string(), "vi".to_string()),
        ("pager".to_string(), "less".to_string()),
    ];
    let text = act_iv::config::write_config(&items);
    assert_eq!(text, "editor = \"vi\"\npager = \"less\"\n");
    let back = act_iv::config::read_config(&text).unwrap();
    assert_eq!(back, items);
}

#[test]
fn config_dir_depends_on_the_platform() {
    assert_eq!(act_iv::config::get_config_dir(act_iv::config::OSType::Unix), "~/.config/active/");
    assert_eq!(
        act_iv::config::get_config_dir(act_iv::config::OSType::Windows),
        "%USERPROFILE%/active/"
    );
}

#[test]
fn config_directory_counts_its_files() {
    let files = vec!["a.toml".to_string(), "b.toml".to_string()];
    let dir = act_iv::config::ConfigDirectory::get_config("active".to_string(), files);
    assert_eq!(dir.count, 2);
    assert_eq!(dir.name, "active");
    assert_eq!(dir.files.len(), 2);
}

#[test]
fn error_messages_name_each_kind() {
    assert_eq!(ActError::NotFound.describe(), "routine not found");
    assert_eq!(ActError::ParseError("x".to_string()).describe(), "parse error: x");
    assert_eq!(ActError::RepositoryError("y".to_string()).describe(), "repository error: y");
    assert_eq!(ActError::IoError("z".to_string()).describe(), "i/o error: z");
    assert_eq!(
        ActError::LockContention.describe(),
        "another writer holds the repository lock"
    );
}
