use codecrafters_shell::command::{CommandToken, StderrKind, StdoutKind};
use codecrafters_shell::parser::tokenize;
use nom::{
    branch::alt,
    bytes::complete::{escaped_transform, is_not, tag, take},
    character::complete::{char, space0, space1},
    combinator::{all_consuming, opt, value},
    multi::{many1, separated_list1},
    sequence::{delimited, preceded, terminated},
    IResult, Parser,
};

#[derive(Debug, Clone, PartialEq)]
enum Tok {
    Arg(String),
    Out(String),
    ErrTo(String),
}

fn unquoted(input: &str) -> IResult<&str, String> {
    alt((is_not(" \t\r\n\"'\\"), preceded(char('\\'), take(1usize))))
        .map(String::from)
        .parse(input)
}

fn single_quoted(input: &str) -> IResult<&str, String> {
    delimited(tag("'"), opt(is_not("'")), tag("'"))
        .map(|s: Option<&str>| String::from(s.unwrap_or_default()))
        .parse(input)
}

fn double_quoted(input: &str) -> IResult<&str, String> {
    delimited(
        char('"'),
        opt(escaped_transform(
            is_not("\"\\"),
            '\\',
            alt((value("\\", tag("\\")), value("\"", tag("\"")))),
        )),
        char('"'),
    )
    .map(|s: Option<String>| s.unwrap_or_default())
    .parse(input)
}

fn content(input: &str) -> IResult<&str, String> {
    many1(alt((single_quoted, double_quoted, unquoted)))
        .map(|parts: Vec<String>| parts.join(""))
        .parse(input)
}

fn stdout_token(input: &str) -> IResult<&str, Tok> {
    preceded(terminated(alt((tag(">"), tag("1>"))), space0), content)
        .map(Tok::Out)
        .parse(input)
}

fn stderr_token(input: &str) -> IResult<&str, Tok> {
    preceded(terminated(tag("2>"), space0), content)
        .map(Tok::ErrTo)
        .parse(input)
}

fn argument_token(input: &str) -> IResult<&str, Tok> {
    content.map(Tok::Arg).parse(input)
}

fn token(input: &str) -> IResult<&str, Tok> {
    alt((stdout_token, stderr_token, argument_token)).parse(input)
}

fn combinator_tokens(input: &str) -> Option<Vec<Tok>> {
    let input = input.trim();
    all_consuming(separated_list1(space1, token))
        .parse(input)
        .ok()
        .map(|(_, t)| t)
}

fn library_tokens(input: &str) -> Option<Vec<Tok>> {
    tokenize(input).map(|ts| {
        ts.into_iter()
            .map(|t| match t {
                CommandToken::Argument(a) => Tok::Arg(a),
                CommandToken::Stdout(StdoutKind::Redirect(p)) => Tok::Out(p),
                CommandToken::Stderr(StderrKind::Redirect(p)) => Tok::ErrTo(p),
                _ => panic!("the grammar makes no other token"),
            })
            .collect()
    })
}

fn all_strings(alphabet: &[char], max_len: usize) -> Vec<String> {
    let mut out = vec![String::new()];
    let mut frontier = vec![String::new()];
    for _ in 0..max_len {
        let mut next = Vec::new();
        for s in &frontier {
            for c in alphabet {
                let mut t = s.clone();
                t.push(*c);
                next.push(t);
            }
        }
        out.extend(next.iter().cloned());
        frontier = next;
    }
    out
}

#[test]
fn agrees_with_combinator_grammar_on_all_short_lines() {
    let alphabet = ['a', ' ', '\t', '\'', '"', '\\', '>', '1', '2'];
    for line in all_strings(&alphabet, 5) {
        assert_eq!(combinator_tokens(&line), library_tokens(&line), "line {:?}", line);
    }
}

#[test]
fn agrees_with_combinator_grammar_on_sample_lines() {
    let lines = [
        "echo hello world",
        "  echo   'a  b'  \"c \\\" d\" ",
        "cat file > out.txt",
        "ls 1>out 2> err",
        "echo \\n\\ x",
        "echo \"unterminated",
        "echo 'x'\"y\"z",
        "echo a\u{a0}",
        "\u{3000}echo b\u{2028}",
        "echo é ü 漢字",
        "echo \"\\n\"",
        "echo >> log",
        "> only",
        "",
        "   ",
        "a\nb",
    ];
    for line in lines {
        assert_eq!(combinator_tokens(line), library_tokens(line), "line {:?}", line);
    }
}
