use codecrafters_shell::command::{
    has_argument, BuiltinCommand, Command, CommandKind, CommandToken, StderrKind, StdoutKind,
};
use codecrafters_shell::parser::{parser, tokenize};

fn words(v: &[&str]) -> Vec<String> {
    v.iter().map(|s| s.to_string()).collect()
}

fn parse(line: &str) -> Command {
    match parser(line) {
        Ok(c) => c,
        Err(_) => panic!("line {:?} should parse", line),
    }
}

fn args_of(t: &[CommandToken]) -> Vec<String> {
    t.iter()
        .filter_map(|t| match t {
            CommandToken::Argument(a) => Some(a.clone()),
            _ => None,
        })
        .collect()
}

#[test]
fn echo_with_words() {
    let c = parse("echo hello   world");
    match c.command_kind {
        CommandKind::Builtin(BuiltinCommand::Echo(a)) => assert_eq!(a, words(&["hello", "world"])),
        _ => panic!("echo expected"),
    }
    assert!(c.stdout.is_normal());
    assert!(c.stderr.is_normal());
}

#[test]
fn builtins_are_recognised() {
    assert!(matches!(parse("pwd").command_kind, CommandKind::Builtin(BuiltinCommand::Pwd)));
    assert!(matches!(parse("exit").command_kind, CommandKind::Builtin(BuiltinCommand::Exit)));
    assert!(matches!(parse("exit 0").command_kind, CommandKind::Builtin(BuiltinCommand::Exit)));
    match parse("type ls").command_kind {
        CommandKind::Builtin(BuiltinCommand::Type(a)) => assert_eq!(a, words(&["ls"])),
        _ => panic!("type expected"),
    }
    match parse("cd ~").command_kind {
        CommandKind::Builtin(BuiltinCommand::Cd(a)) => assert_eq!(a, words(&["~"])),
        _ => panic!("cd expected"),
    }
    match parse("'echo'").command_kind {
        CommandKind::Builtin(BuiltinCommand::Echo(a)) => assert!(a.is_empty()),
        _ => panic!("quoted echo is still echo"),
    }
}

#[test]
fn other_programs_are_external() {
    match parse("cat  a.txt 'b c'").command_kind {
        CommandKind::External(a) => assert_eq!(a, words(&["cat", "a.txt", "b c"])),
        _ => panic!("external expected"),
    }
    match parse("Echo x").command_kind {
        CommandKind::External(a) => assert_eq!(a, words(&["Echo", "x"])),
        _ => panic!("names are case sensitive"),
    }
}

#[test]
fn redirections_are_taken_out_of_the_arguments() {
    let c = parse("ls -1 > out.txt 2>err.txt");
    match &c.command_kind {
        CommandKind::External(a) => assert_eq!(*a, words(&["ls", "-1"])),
        _ => panic!("external expected"),
    }
    assert!(matches!(&c.stdout, StdoutKind::Redirect(p) if p == "out.txt"));
    assert!(matches!(&c.stderr, StderrKind::Redirect(p) if p == "err.txt"));
    assert!(!c.stdout.is_normal());
    assert!(!c.stderr.is_normal());
}

#[test]
fn first_redirection_wins() {
    let c = parse("echo a 1> first > second");
    assert!(matches!(&c.stdout, StdoutKind::Redirect(p) if p == "first"));
    match &c.command_kind {
        CommandKind::Builtin(BuiltinCommand::Echo(a)) => assert_eq!(*a, words(&["a"])),
        _ => panic!("echo expected"),
    }
}

#[test]
fn double_redirect_sign_is_a_redirect_to_a_file_named_gt() {
    let c = parse("echo a >> log");
    assert!(matches!(&c.stdout, StdoutKind::Redirect(p) if p == ">"));
    match &c.command_kind {
        CommandKind::Builtin(BuiltinCommand::Echo(a)) => assert_eq!(*a, words(&["a", "log"])),
        _ => panic!("echo expected"),
    }
}

#[test]
fn quoting_and_escapes() {
    let t = tokenize(r#"echo 'a  b' "c \" \\ d" e\ f "x"'y'z \'"#).unwrap();
    assert_eq!(args_of(&t), words(&["echo", "a  b", "c \" \\ d", "e f", "xyz", "'"]));
}

#[test]
fn single_quotes_keep_backslashes() {
    let t = tokenize(r#"echo 'a\nb'"#).unwrap();
    assert_eq!(args_of(&t), words(&["echo", "a\\nb"]));
}

#[test]
fn lines_that_do_not_parse() {
    assert!(tokenize("").is_none());
    assert!(tokenize("   ").is_none());
    assert!(tokenize("echo 'open").is_none());
    assert!(tokenize("echo \"open").is_none());
    assert!(tokenize("echo \"\\n\"").is_none());
    assert!(tokenize("echo a\\").is_none());
    assert!(tokenize("echo a\nb").is_none());
    assert!(parser("echo 'open").is_err());
}

#[test]
fn a_line_of_redirections_only_has_no_argument() {
    let t = tokenize("> out").unwrap();
    assert_eq!(t.len(), 1);
    assert!(args_of(&t).is_empty());
}

#[test]
fn surrounding_whitespace_does_not_matter() {
    let plain = tokenize("echo a 'b'").unwrap();
    let padded = tokenize("\u{a0}\t  echo a 'b' \u{3000}\n").unwrap();
    assert_eq!(args_of(&plain), args_of(&padded));
    assert_eq!(plain.len(), padded.len());
}

#[test]
fn single_quoted_text_is_one_argument() {
    for w in ["", "a b", "\\\"", "  ", "x\ty"] {
        let line = format!("'{}'", w);
        let t = tokenize(&line).unwrap();
        assert_eq!(args_of(&t), words(&[w]));
    }
}

#[test]
fn double_quoted_round_trip() {
    for w in ["", "a b", "\\", "\"", "a\\\"b", "'", "> x", "ü"] {
        let escaped: String = w
            .chars()
            .flat_map(|c| {
                if c == '\\' || c == '"' {
                    vec!['\\', c]
                } else {
                    vec![c]
                }
            })
            .collect();
        let line = format!("\"{}\"", escaped);
        let t = tokenize(&line).unwrap();
        assert_eq!(t.len(), 1);
        assert_eq!(args_of(&t), words(&[w]));
    }
}

#[test]
fn simple_words_read_back() {
    let ws = ["ls", "-la", "a.txt", "1", "x>y", "éé"];
    let line = ws.join(" ");
    let t = tokenize(&line).unwrap();
    assert_eq!(args_of(&t), words(&ws));
    assert_eq!(t.len(), ws.len());
}

#[test]
fn token_text_of_an_argument() {
    let t = CommandToken::Argument("abc".to_string());
    assert_eq!(t.to_string(), "abc");
}

#[test]
fn command_from_tokens() {
    let tokens = vec![
        CommandToken::Stderr(StderrKind::Append("e".to_string())),
        CommandToken::Argument("type".to_string()),
        CommandToken::Stdout(StdoutKind::Append("o".to_string())),
        CommandToken::Argument("x".to_string()),
        CommandToken::Stdout(StdoutKind::Redirect("p".to_string())),
    ];
    let c = Command::new(tokens);
    assert!(matches!(&c.stdout, StdoutKind::Append(p) if p == "o"));
    assert!(matches!(&c.stderr, StderrKind::Append(p) if p == "e"));
    match &c.command_kind {
        CommandKind::Builtin(BuiltinCommand::Type(a)) => assert_eq!(*a, words(&["x"])),
        _ => panic!("type expected"),
    }
}

#[test]
fn lines_need_an_argument_to_make_a_command() {
    assert!(!has_argument(&tokenize("> out 2> err").unwrap()));
    assert!(has_argument(&tokenize("> out cat").unwrap()));
    assert!(!has_argument(&Vec::new()));
}

#[test]
fn redirections_may_stand_anywhere() {
    let a = parse("ls -l > out 2> err");
    let b = parse("> out ls 2> err -l");
    match (&a.command_kind, &b.command_kind) {
        (CommandKind::External(x), CommandKind::External(y)) => assert_eq!(x, y),
        _ => panic!("external expected"),
    }
    assert!(matches!(&b.stdout, StdoutKind::Redirect(p) if p == "out"));
    assert!(matches!(&b.stderr, StderrKind::Redirect(p) if p == "err"));
}
