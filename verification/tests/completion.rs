use codecrafters_shell::shell_helper::{CompletionTarget, EntryInfo, ShellHelper};

fn strings(v: &[&str]) -> Vec<String> {
    v.iter().map(|s| s.to_string()).collect()
}

fn path_target(line: &str, pos: usize) -> (usize, String, String) {
    let r = ShellHelper {}.request(line, pos);
    match r.target {
        CompletionTarget::Path { relative, partial } => (r.start, relative, partial),
        CompletionTarget::Command(_) => panic!("path expected for {:?}", line),
    }
}

#[test]
fn words_at_the_start_are_commands() {
    let r = ShellHelper {}.request("ec", 2);
    assert_eq!(r.start, 0);
    assert!(matches!(r.target, CompletionTarget::Command(w) if w == "ec"));
    let r = ShellHelper {}.request("", 0);
    assert!(matches!(r.target, CompletionTarget::Command(w) if w.is_empty()));
}

#[test]
fn later_words_are_paths() {
    assert_eq!(path_target("cat sr", 6), (4, String::new(), "sr".to_string()));
    assert_eq!(path_target("cat src/ma", 10), (4, "src".to_string(), "ma".to_string()));
    assert_eq!(path_target("cat a/b/", 8), (4, "a/b".to_string(), String::new()));
    assert_eq!(path_target("cat /ab", 7), (4, String::new(), "/ab".to_string()));
    assert_eq!(path_target("ls x\tyz", 7), (5, String::new(), "yz".to_string()));
    assert_eq!(path_target("cat a\\ b", 8), (4, String::new(), "a\\ b".to_string()));
    assert_eq!(path_target("cat srcXX", 6), (4, String::new(), "sr".to_string()));
}

#[test]
fn command_candidates_start_with_builtins() {
    let h = ShellHelper {};
    assert_eq!(h.command_candidates("e", strings(&["ed"])), strings(&["echo", "exit", "ed"]));
    assert_eq!(
        h.command_candidates("", Vec::new()),
        strings(&["echo", "type", "cd", "pwd", "exit"])
    );
    assert_eq!(h.command_candidates("x", strings(&["xz"])), strings(&["xz"]));
}

#[test]
fn path_candidates_by_kind() {
    let h = ShellHelper {};
    let entries = vec![
        EntryInfo { name: "src".to_string(), is_dir: true },
        EntryInfo { name: "script.sh".to_string(), is_dir: false },
        EntryInfo { name: "other".to_string(), is_dir: false },
    ];
    assert_eq!(h.path_candidates("", "s", &entries, true), strings(&["src", "script.sh"]));
    assert_eq!(
        h.path_candidates("a", "s", &entries, false),
        strings(&["a/src", "a/script.sh"])
    );
    assert_eq!(h.path_candidates("", "", &entries, false), strings(&["src", "/script.sh", "/other"]));
    assert_eq!(h.path_candidates(".", "sc", &entries, true), strings(&["script.sh"]));
}

#[test]
fn candidates_are_sorted_once_each() {
    let h = ShellHelper {};
    let c = strings(&["pwd", "echo", "exit", "echo", "Zed", "ähm", "e"]);
    let mut expected = c.clone();
    expected.sort();
    expected.dedup();
    assert_eq!(h.sorted_candidates(&c), expected);
    assert!(h.sorted_candidates(&Vec::new()).is_empty());
}

#[test]
fn candidates_ignore_order_and_repeats() {
    let h = ShellHelper {};
    let a = strings(&["b", "a", "c", "a"]);
    let b = strings(&["c", "b", "a"]);
    assert_eq!(h.sorted_candidates(&a), h.sorted_candidates(&b));
}

#[test]
fn a_single_candidate_is_finished() {
    let h = ShellHelper {};
    assert_eq!(h.offer(strings(&["src"]), true), strings(&["src/"]));
    assert_eq!(h.offer(strings(&["echo"]), false), strings(&["echo "]));
    assert_eq!(h.offer(strings(&["a", "b"]), true), strings(&["a", "b"]));
    assert!(h.offer(Vec::new(), true).is_empty());
}

#[test]
fn only_text_before_the_cursor_counts() {
    assert_eq!(path_target("cat src/ma", 10), path_target("cat src/main.rs --x", 10));
    let a = ShellHelper {}.request("ec", 2);
    let b = ShellHelper {}.request("echo hi", 2);
    assert_eq!(a.start, b.start);
    assert!(matches!(b.target, CompletionTarget::Command(w) if w == "ec"));
}

#[test]
fn escaped_blanks_stay_in_the_word() {
    assert_eq!(path_target("cat \\\\ b", 8), (4, String::new(), "\\\\ b".to_string()));
    assert_eq!(path_target("é ab", 5), (3, String::new(), "ab".to_string()));
}
