use codecrafters_shell::lookup::{
    candidate_paths, executable, executable_candidates, find_executables_in_path, first_answered,
    path_in_dir, select_kept, PathDir,
};
use codecrafters_shell::parser::parser;
use codecrafters_shell::run::{
    is_builtin, missing_directory_message, type_report_text, Action,
};
use codecrafters_shell::command::{Command, StderrKind, StdoutKind};

fn parse(line: &str) -> Command {
    match parser(line) {
        Ok(c) => c,
        Err(_) => panic!("line {:?} should parse", line),
    }
}

fn no_dirs() -> Vec<String> {
    Vec::new()
}

#[test]
fn echo_prints_arguments_joined_by_spaces() {
    match parse("echo  hello   'big  world'").action(&no_dirs()) {
        Action::Print(t) => assert_eq!(t, "hello big  world\n"),
        _ => panic!("print expected"),
    }
    match parse("echo").action(&no_dirs()) {
        Action::Print(t) => assert_eq!(t, "\n"),
        _ => panic!("print expected"),
    }
}

#[test]
fn type_reports_builtins_whatever_the_path() {
    for name in ["echo", "type", "cd", "pwd", "exit"] {
        let line = format!("type {}", name);
        let dirs = vec!["/bin".to_string(), "/usr/bin".to_string()];
        match parse(&line).action(&dirs) {
            Action::Print(t) => assert_eq!(t, format!("{} is a shell builtin\n", name)),
            _ => panic!("print expected"),
        }
    }
}

#[test]
fn type_reports_missing_programs() {
    match parse("type no_such_program_here").action(&no_dirs()) {
        Action::Print(t) => assert_eq!(t, "no_such_program_here: not found\n"),
        _ => panic!("print expected"),
    }
}

#[test]
fn type_reports_where_a_program_is() {
    let dirs = vec!["/nonexistent_dir_x".to_string(), "/bin".to_string()];
    match parse("type sh").action(&dirs) {
        Action::Print(t) => assert_eq!(t, "sh is /bin/sh\n"),
        _ => panic!("print expected"),
    }
}

#[test]
fn type_report_text_formats() {
    assert_eq!(type_report_text("ls", Some("/bin/ls".to_string())), "ls is /bin/ls\n");
    assert_eq!(type_report_text("ls", None), "ls: not found\n");
    assert_eq!(type_report_text("pwd", Some("/bin/pwd".to_string())), "pwd is a shell builtin\n");
    assert!(is_builtin("cd"));
    assert!(!is_builtin("cat"));
}

#[test]
fn cd_targets() {
    match parse("cd ~").action(&no_dirs()) {
        Action::ChangeDir { to_home, arg } => {
            assert!(to_home);
            assert_eq!(arg, "~");
        }
        _ => panic!("cd expected"),
    }
    match parse("cd /tmp/x y").action(&no_dirs()) {
        Action::ChangeDir { to_home, arg } => {
            assert!(!to_home);
            assert_eq!(arg, "/tmp/x");
        }
        _ => panic!("cd expected"),
    }
    assert_eq!(missing_directory_message("nowhere"), "cd: nowhere: No such file or directory\n");
}

#[test]
fn pwd_and_exit() {
    assert!(matches!(parse("pwd").action(&no_dirs()), Action::PrintWorkingDir));
    assert!(matches!(parse("exit").action(&no_dirs()), Action::Exit));
}

#[test]
fn unknown_programs_are_reported_on_stderr() {
    match parse("frobnicate  a b").action(&no_dirs()) {
        Action::PrintError(t) => assert_eq!(t, "frobnicate a b: command not found\n"),
        _ => panic!("error expected"),
    }
}

#[test]
fn found_programs_are_started() {
    let dirs = vec!["/bin".to_string()];
    match parse("sh -c 'echo hi'").action(&dirs) {
        Action::Spawn { program, args } => {
            assert_eq!(program, "sh");
            assert_eq!(args, vec!["-c".to_string(), "echo hi".to_string()]);
        }
        _ => panic!("spawn expected"),
    }
}

#[test]
fn runnable_commands() {
    assert!(!parse("type").is_runnable());
    assert!(!parse("cd").is_runnable());
    assert!(parse("pwd").is_runnable());
    assert!(parse("echo").is_runnable());
}

#[test]
fn executable_lookup() {
    assert_eq!(path_in_dir("/usr/bin", "ls"), "/usr/bin/ls");
    assert_eq!(executable(&vec!["/bin".to_string()], "sh"), Some("/bin/sh".to_string()));
    assert_eq!(executable(&vec!["/bin".to_string()], "no_such_program_here"), None);
    assert_eq!(executable(&Vec::new(), "sh"), None);
}

#[test]
fn executables_with_prefix() {
    let dirs = vec![
        PathDir {
            dir: "/bin".to_string(),
            names: vec!["sh".to_string(), "shnotthere".to_string(), "ls".to_string()],
        },
        PathDir { dir: "/nonexistent_dir_x".to_string(), names: vec!["sh".to_string()] },
    ];
    assert_eq!(find_executables_in_path(&dirs, "sh"), vec!["sh".to_string()]);
    assert!(find_executables_in_path(&dirs, "zz").is_empty());
}

#[test]
fn redirect_files_and_their_directories() {
    let c = parse("echo a > logs/today/out.txt 2> err.txt");
    let f = c.stdout.file_sink().unwrap();
    assert_eq!(f.path, "logs/today/out.txt");
    assert_eq!(f.parent, "logs/today");
    assert!(!f.append);
    let e = c.stderr.file_sink().unwrap();
    assert_eq!(e.path, "err.txt");
    assert_eq!(e.parent, "");
    assert!(StdoutKind::Normal.file_sink().is_none());
    let a = StderrKind::Append("/var/log/x".to_string()).file_sink().unwrap();
    assert_eq!(a.parent, "/var/log");
    assert!(a.append);
    let r = StdoutKind::Redirect("/x".to_string()).file_sink().unwrap();
    assert_eq!(r.parent, "");
}

#[test]
fn names_asked_of_the_search_path() {
    assert_eq!(parse("type echo").lookup_name(), None);
    assert_eq!(parse("type ls").lookup_name(), Some("ls"));
    assert_eq!(parse("ls -l").lookup_name(), Some("ls"));
    assert_eq!(parse("pwd").lookup_name(), None);
    assert_eq!(parse("echo ls").lookup_name(), None);
}

#[test]
fn decisions_follow_the_lookup() {
    match parse("ls -l x").decide(Some("/bin/ls".to_string())) {
        Action::Spawn { program, args } => {
            assert_eq!(program, "ls");
            assert_eq!(args, vec!["-l".to_string(), "x".to_string()]);
        }
        _ => panic!("spawn expected"),
    }
    match parse("ls -l x").decide(None) {
        Action::PrintError(t) => assert_eq!(t, "ls -l x: command not found\n"),
        _ => panic!("error expected"),
    }
    match parse("type ls").decide(Some("/usr/bin/ls".to_string())) {
        Action::Print(t) => assert_eq!(t, "ls is /usr/bin/ls\n"),
        _ => panic!("print expected"),
    }
    match parse("type exit").decide(Some("/usr/bin/exit".to_string())) {
        Action::Print(t) => assert_eq!(t, "exit is a shell builtin\n"),
        _ => panic!("print expected"),
    }
}

#[test]
fn only_exit_leaves() {
    assert!(matches!(parse("exit 3").decide(None), Action::Exit));
    for line in ["echo exit", "type exit", "pwd", "cd exit", "exits"] {
        assert!(!matches!(parse(line).decide(None), Action::Exit), "line {:?}", line);
    }
}

#[test]
fn first_yes_answer_wins() {
    let names = vec!["a".to_string(), "b".to_string(), "c".to_string()];
    assert_eq!(first_answered(&names, &vec![false, true, true]), Some(1));
    assert_eq!(first_answered(&names, &vec![true, true, false]), Some(0));
    assert_eq!(first_answered(&names, &vec![false, false, false]), None);
}

#[test]
fn names_answered_yes_are_kept_in_order() {
    let names = vec!["a".to_string(), "b".to_string(), "c".to_string()];
    assert_eq!(select_kept(&names, &vec![true, false, true]), vec!["a".to_string(), "c".to_string()]);
    assert!(select_kept(&names, &vec![false, false, false]).is_empty());
}

#[test]
fn candidates_on_the_search_path() {
    let dirs = vec!["/x".to_string(), "/y/z".to_string()];
    assert_eq!(candidate_paths(&dirs, "ls"), vec!["/x/ls".to_string(), "/y/z/ls".to_string()]);
    let listing = vec![
        PathDir { dir: "/a".to_string(), names: vec!["gcc".to_string(), "ls".to_string(), "gdb".to_string()] },
        PathDir { dir: "/b".to_string(), names: vec!["g++".to_string()] },
    ];
    let (names, paths) = executable_candidates(&listing, "g");
    assert_eq!(names, vec!["gcc".to_string(), "gdb".to_string(), "g++".to_string()]);
    assert_eq!(paths, vec!["/a/gcc".to_string(), "/a/gdb".to_string(), "/b/g++".to_string()]);
}

#[test]
fn search_path_order_decides() {
    let dirs = vec!["/nonexistent_dir_x".to_string(), "/bin".to_string(), "/usr/bin".to_string()];
    assert_eq!(executable(&dirs, "sh"), Some("/bin/sh".to_string()));
}

#[test]
fn longer_prefix_keeps_a_subset() {
    let dirs = vec![PathDir {
        dir: "/bin".to_string(),
        names: vec!["sh".to_string(), "shnotthere".to_string(), "ls".to_string()],
    }];
    let short: Vec<String> = find_executables_in_path(&dirs, "s");
    let long = find_executables_in_path(&dirs, "sh");
    let filtered: Vec<String> = short.into_iter().filter(|s| s.starts_with("sh")).collect();
    assert_eq!(long, filtered);
}
