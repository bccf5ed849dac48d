use act_iv::cli::{Args, Commands};

#[test]
fn test_info_command() {
    let args = vec!["cli_tool", "info", "routine_path"];
    let parsed = Args::parse_from(args).unwrap();

    if let Commands::Info { routine } = parsed.command {
        assert_eq!(routine, "routine_path");
    } else {
        panic!("Expected `info` command");
    }
}

#[test]
fn test_stage_command_with_message() {
    let args = vec!["cli_tool", "stage", "routine_path", "Test commit"];
    let parsed = Args::parse_from(args).unwrap();

    if let Commands::Stage { routine, message } = parsed.command {
        assert_eq!(routine, "routine_path");
        assert_eq!(message.unwrap(), "Test commit");
    } else {
        panic!("Expected `stage` command");
    }
}

#[test]
fn test_stage_command_without_message() {
    let args = vec!["cli_tool", "stage", "routine_path"];
    let parsed = Args::parse_from(args).unwrap();

    if let Commands::Stage { routine, message } = parsed.command {
        assert_eq!(routine, "routine_path");
        assert!(message.is_none());
    } else {
        panic!("Expected `stage` command");
    }
}

#[test]
fn test_throw_command() {
    let args = vec!["cli_tool", "throw"];
    let parsed = Args::parse_from(args).unwrap();

    if let Commands::Throw {} = parsed.command {
    } else {
        panic!("Expected `throw` command");
    }
}

#[test]
fn test_catch_command() {
    let args = vec!["cli_tool", "catch"];
    let parsed = Args::parse_from(args).unwrap();

    if let Commands::Catch = parsed.command {
    } else {
        panic!("Expected `catch` command");
    }
}

#[test]
fn test_wind_command() {
    let args = vec!["cli_tool", "wind"];
    let parsed = Args::parse_from(args).unwrap();

    if let Commands::Wind = parsed.command {
    } else {
        panic!("Expected `wind` command");
    }
}

#[test]
fn test_unknown_command_is_an_error() {
    let args = vec!["cli_tool", "dance"];
    assert!(Args::parse_from(args).is_err());
}

#[test]
fn test_missing_command_is_an_error() {
    let args = vec!["cli_tool"];
    assert!(Args::parse_from(args).is_err());
}
