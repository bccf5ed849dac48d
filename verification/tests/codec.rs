use act_iv::routine::Routine;

fn mock_routine_text() -> &'static str {
    "[base]\n\
     title = \"Notes\"\n\
     path = \"/path/to/notes\"\n\
     \n\
     [base.interval]\n\
     commit_interval = \"1d\"\n\
     sync_method = \"thorough\"\n\
     timestamp = true\n\
     time_zone = \"UTC\"\n\
     \n\
     [crypt]\n\
     encrypt = true\n\
     password = \"pw\"\n\
     \n\
     [press]\n\
     compression = \"gz\"\n\
     \n\
     [advanced]\n\
     exclude = [\"*.tmp\", \"cache/\", \"logs/\"]\n\
     sync_on_startup = true\n\
     \n\
     [ntfy]\n\
     ntfy_topic = \"sync-updates\"\n\
     notification_on_success = true\n\
     notification_on_failure = true\n\
     \n\
     [git]\n\
     remote = \"https://github.com/exam/ple\"\n\
     branch = \"main\"\n\
     force_push = false\n"
}

#[test]
fn read_accepts_a_full_definition() {
    let routine = Routine::read(mock_routine_text()).unwrap();
    assert_eq!(routine.base.title, "Notes");
    assert_eq!(routine.base.path, "/path/to/notes");
    assert_eq!(routine.base.interval.commit_interval, "1d");
    assert_eq!(routine.base.interval.sync_method, "thorough");
    assert!(routine.base.interval.timestamp);
    assert_eq!(routine.base.interval.time_zone, "UTC");
    assert!(routine.base.interval.last_sync_time.is_none());
    assert!(routine.crypt.encrypt);
    assert_eq!(routine.crypt.password.as_deref(), Some("pw"));
    assert!(routine.crypt.password_eval.is_none());
    assert_eq!(routine.press.compression, "gz");
    assert_eq!(routine.advanced.exclude, vec!["*.tmp", "cache/", "logs/"]);
    assert!(routine.advanced.sync_on_startup);
    assert_eq!(routine.ntfy.ntfy_topic, "sync-updates");
    assert_eq!(routine.git.remote, "https://github.com/exam/ple");
    assert_eq!(routine.git.branch, "main");
    assert!(!routine.git.force_push);
}

#[test]
fn read_ignores_comments_and_unknown_keys() {
    let text = "# a comment\n[base]\ntitle = \"T\"\npath = \"/p\"\ncolour = \"blue\"\n\
                [base.interval]\ntimestamp = false\ncommit_interval = \"2h\"\n\
                sync_method = \"delta\"\ntime_zone = \"UTC\"\n[crypt]\nencrypt = false\n\
                [press]\ncompression = \"none\"\n[advanced]\nexclude = []\n\
                sync_on_startup = false\n[ntfy]\nntfy_topic = \"t\"\n\
                notification_on_success = false\nnotification_on_failure = false\n\
                [git]\nremote = \"r\"\nbranch = \"b\"\nforce_push = true\n";
    let routine = Routine::read(text).unwrap();
    assert_eq!(routine.base.title, "T");
    assert!(routine.advanced.exclude.is_empty());
    assert!(routine.git.force_push);
}

#[test]
fn read_names_the_missing_field() {
    let text = mock_routine_text().replace("title = \"Notes\"\n", "");
    let err = Routine::read(&text).unwrap_err();
    assert_eq!(err.describe(), "parse error: base.title");
}

#[test]
fn read_names_the_ill_typed_field() {
    let text = mock_routine_text().replace("encrypt = true", "encrypt = \"yes\"");
    let err = Routine::read(&text).unwrap_err();
    assert_eq!(err.describe(), "parse error: crypt.encrypt");
}

#[test]
fn read_rejects_a_malformed_line() {
    let text = mock_routine_text().replace("compression = \"gz\"", "compression");
    let err = Routine::read(&text).unwrap_err();
    assert_eq!(err.describe(), "parse error: syntax");
}

#[test]
fn serialize_writes_the_exact_canonical_text() {
    let routine = Routine::read(
        "[base]\ntitle = \"T\"\npath = \"/p\"\n[base.interval]\ntimestamp = true\n\
         commit_interval = \"1d\"\nsync_method = \"delta\"\ntime_zone = \"UTC\"\n\
         [crypt]\nencrypt = false\n[press]\ncompression = \"gz\"\n[advanced]\n\
         exclude = [\"b.txt\"]\nsync_on_startup = false\n[ntfy]\nntfy_topic = \"n\"\n\
         notification_on_success = true\nnotification_on_failure = false\n[git]\n\
         remote = \"r\"\nbranch = \"main\"\nforce_push = false\n",
    )
    .unwrap();
    let expected = "[base]\ntitle = \"T\"\npath = \"/p\"\n[base.interval]\ntimestamp = true\n\
                    commit_interval = \"1d\"\nsync_method = \"delta\"\ntime_zone = \"UTC\"\n\
                    [crypt]\nencrypt = false\n[press]\ncompression = \"gz\"\n[advanced]\n\
                    exclude = [\"b.txt\"]\nsync_on_startup = false\n[ntfy]\nntfy_topic = \"n\"\n\
                    notification_on_success = true\nnotification_on_failure = false\n[git]\n\
                    remote = \"r\"\nbranch = \"main\"\nforce_push = false\n";
    assert_eq!(routine.serialize(), expected);
}

#[test]
fn read_serialize_read_round_trips() {
    let first = Routine::read(mock_routine_text()).unwrap();
    let written = first.serialize();
    let second = Routine::read(&written).unwrap();
    assert_eq!(second.serialize(), written);
    assert_eq!(second.base.title, first.base.title);
    assert_eq!(second.base.path, first.base.path);
    assert_eq!(second.base.interval.commit_interval, first.base.interval.commit_interval);
    assert_eq!(second.base.interval.sync_method, first.base.interval.sync_method);
    assert_eq!(second.base.interval.timestamp, first.base.interval.timestamp);
    assert_eq!(second.base.interval.time_zone, first.base.interval.time_zone);
    assert_eq!(second.base.interval.last_sync_time, first.base.interval.last_sync_time);
    assert_eq!(second.crypt.encrypt, first.crypt.encrypt);
    assert_eq!(second.crypt.password, first.crypt.password);
    assert_eq!(second.crypt.password_eval, first.crypt.password_eval);
    assert_eq!(second.press.compression, first.press.compression);
    assert_eq!(second.advanced.exclude, first.advanced.exclude);
    assert_eq!(second.advanced.sync_on_startup, first.advanced.sync_on_startup);
    assert_eq!(second.ntfy.ntfy_topic, first.ntfy.ntfy_topic);
    assert_eq!(second.ntfy.notification_on_success, first.ntfy.notification_on_success);
    assert_eq!(second.ntfy.notification_on_failure, first.ntfy.notification_on_failure);
    assert_eq!(second.git.remote, first.git.remote);
    assert_eq!(second.git.branch, first.git.branch);
    assert_eq!(second.git.force_push, first.git.force_push);
}

#[test]
fn info_reports_not_found_without_content() {
    let err = act_iv::info::info(&None).unwrap_err();
    assert_eq!(err.describe(), "routine not found");
}

#[test]
fn info_renders_every_field_as_a_row() {
    let rows = act_iv::info::info(&Some(mock_routine_text().to_string())).unwrap();
    assert_eq!(rows.len(), 19);
    assert_eq!(rows[0].name, "Title");
    assert_eq!(rows[0].value, "Notes");
    assert_eq!(rows[6].name, "Last Sync Time");
    assert_eq!(rows[6].value, "None");
    assert_eq!(rows[11].name, "Exclude");
    assert_eq!(rows[11].value, "[\"*.tmp\", \"cache/\", \"logs/\"]");
    assert_eq!(rows[18].name, "Force Push");
    assert_eq!(rows[18].value, "false");
}

#[test]
fn glob_matches_whole_names() {
    assert!(act_iv::glob::glob_match("*.tmp", "junk.tmp"));
    assert!(act_iv::glob::glob_match("b.txt", "b.txt"));
    assert!(act_iv::glob::glob_match("cache/*", "cache/x"));
    assert!(act_iv::glob::glob_match("a?c", "abc"));
    assert!(!act_iv::glob::glob_match("*.tmp", "junk.tmp.bak"));
    assert!(!act_iv::glob::glob_match("b.txt", "ab.txt"));
}
