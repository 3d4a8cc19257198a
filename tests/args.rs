use fstools::command::{parse_command, parse_find_options, ArgumentError, Command};
use fstools::query::Kind;

fn strings(v: &[&str]) -> Vec<String> {
    v.iter().map(|s| s.to_string()).collect()
}

#[test]
fn too_few_arguments_are_refused() {
    assert_eq!(parse_command(&strings(&["tools", "echo"])).unwrap_err(), ArgumentError::MissingArguments);
    assert_eq!(parse_command(&strings(&["tools", "grep", "x"])).unwrap_err(), ArgumentError::MissingArguments);
}

#[test]
fn echo_ls_and_unknown_tools() {
    match parse_command(&strings(&["tools", "echo", "hi there"])).unwrap() {
        Command::Echo { text } => assert_eq!(text, "hi there"),
        other => panic!("unexpected {:?}", other),
    }
    match parse_command(&strings(&["tools", "ls", "/tmp"])).unwrap() {
        Command::List { path } => assert_eq!(path, "/tmp"),
        other => panic!("unexpected {:?}", other),
    }
    match parse_command(&strings(&["tools", "cp", "a"])).unwrap() {
        Command::Unknown { tool } => assert_eq!(tool, "cp"),
        other => panic!("unexpected {:?}", other),
    }
}

#[test]
fn cat_prints_one_file_or_appends_to_the_last() {
    match parse_command(&strings(&["tools", "cat", "f"])).unwrap() {
        Command::PrintFile { path } => assert_eq!(path, "f"),
        other => panic!("unexpected {:?}", other),
    }
    match parse_command(&strings(&["tools", "cat", "a", "b", "out"])).unwrap() {
        Command::AppendFiles { target, sources } => {
            assert_eq!(target, "out");
            assert_eq!(sources, strings(&["a", "b"]));
        }
        other => panic!("unexpected {:?}", other),
    }
}

#[test]
fn grep_takes_pattern_then_file_then_flag() {
    match parse_command(&strings(&["tools", "grep", "pat", "file.txt", "-i"])).unwrap() {
        Command::Grep { pattern, path, case_insensitive } => {
            assert_eq!((pattern.as_str(), path.as_str(), case_insensitive), ("pat", "file.txt", true));
        }
        other => panic!("unexpected {:?}", other),
    }
    match parse_command(&strings(&["tools", "grep", "pat", "file.txt", "-x"])).unwrap() {
        Command::Grep { case_insensitive, .. } => assert!(!case_insensitive),
        other => panic!("unexpected {:?}", other),
    }
}

#[test]
fn find_reads_type_and_name() {
    match parse_command(&strings(&["tools", "find", "/r", "-type", "d", "-name", "missing"])).unwrap() {
        Command::Find { root, query, type_arg } => {
            assert_eq!(root, "/r");
            assert_eq!(query.name, "missing");
            assert_eq!(query.kind, Kind::Directory);
            assert_eq!(type_arg, "d");
        }
        other => panic!("unexpected {:?}", other),
    }
    assert_eq!(parse_command(&strings(&["tools", "find", "/r", "-type", "f"])).unwrap_err(), ArgumentError::MissingName);
}

#[test]
fn find_options_default_to_file_and_last_wins() {
    let (q, t) = parse_find_options(&strings(&["-name", "a", "-type", "x", "-name", "b"])).unwrap();
    assert_eq!((q.name.as_str(), q.kind, t.as_str()), ("b", Kind::File, "x"));
    let (q, _) = parse_find_options(&strings(&["-name", "a"])).unwrap();
    assert_eq!(q.kind, Kind::File);
    assert_eq!(parse_find_options(&strings(&["-name"])).unwrap_err(), ArgumentError::MissingName);
    assert_eq!(parse_find_options(&strings(&["-name", ""])).unwrap_err(), ArgumentError::MissingName);
    assert_eq!(parse_find_options(&strings(&[])).unwrap_err(), ArgumentError::MissingName);
}
