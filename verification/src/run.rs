//! What running a command does, as decisions on plain values.  The caller
//! opens the output streams, performs the returned action (writing text,
//! changing directory, starting a program) and reports back where needed.

use vstd::prelude::*;
use crate::command::{
    BuiltinCommand, BuiltinView, Command, CommandKind, CommandView, KindView, SinkView, StderrKind,
    StdoutKind,
};
use crate::lookup::{candidate_paths_of, executable, first_found};
use crate::text::{before_last_slash, before_last_slash_of, join_seqs, join_with, str_eq};

verus! {

/// The first thing to do for a command once its streams are open.
pub enum Action {
    /// Write the text to the command's standard output.
    Print(String),
    /// Write the text to the command's standard error.
    PrintError(String),
    /// Change to the home directory (`to_home`) or to the directory `arg`;
    /// where it does not exist, print `missing_directory_message(arg)`.
    ChangeDir { to_home: bool, arg: String },
    /// Print the current directory followed by a newline.
    PrintWorkingDir,
    /// Start `program` with `args` and pass on what it writes.
    Spawn { program: String, args: Vec<String> },
    /// Leave the shell.
    Exit,
}

/// An action as a spec value.
pub enum ActionView {
    Print(Seq<char>),
    PrintError(Seq<char>),
    ChangeDir { to_home: bool, arg: Seq<char> },
    PrintWorkingDir,
    Spawn { program: Seq<char>, args: Seq<Seq<char>> },
    Exit,
}

impl View for Action {
    type V = ActionView;

    open spec fn view(&self) -> ActionView {
        match self {
            Action::Print(t) => ActionView::Print(t@),
            Action::PrintError(t) => ActionView::PrintError(t@),
            Action::ChangeDir { to_home, arg } => ActionView::ChangeDir {
                to_home: *to_home,
                arg: arg@,
            },
            Action::PrintWorkingDir => ActionView::PrintWorkingDir,
            Action::Spawn { program, args } => ActionView::Spawn {
                program: program@,
                args: args.deep_view(),
            },
            Action::Exit => ActionView::Exit,
        }
    }
}

/// The names of the builtin commands.
pub open spec fn is_builtin_name(n: Seq<char>) -> bool {
    n == "exit"@ || n == "echo"@ || n == "type"@ || n == "pwd"@ || n == "cd"@
}

/// What `echo` prints: its arguments separated by single spaces, and a newline.
pub open spec fn echo_text(args: Seq<Seq<char>>) -> Seq<char> {
    join_seqs(args, " "@) + "\n"@
}

/// What `type name` prints, given where (if anywhere) the search path has
/// `name`: builtins are reported as such whatever the search path holds.
pub open spec fn type_report(name: Seq<char>, found: Option<Seq<char>>) -> Seq<char> {
    if is_builtin_name(name) {
        name + " is a shell builtin\n"@
    } else {
        match found {
            Some(p) => name + " is "@ + p + "\n"@,
            None => name + ": not found\n"@,
        }
    }
}

/// What `cd arg` prints when the directory does not exist.
pub open spec fn missing_directory_text(arg: Seq<char>) -> Seq<char> {
    "cd: "@ + arg + ": No such file or directory\n"@
}

/// What is written to standard error when no program of that name is found.
pub open spec fn not_found_text(args: Seq<Seq<char>>) -> Seq<char> {
    join_seqs(args, " "@) + ": command not found\n"@
}

/// The name that a command asks the search path about, if any.
pub open spec fn lookup_name_of(c: CommandView) -> Option<Seq<char>> {
    match c.kind {
        KindView::Builtin(BuiltinView::Type(a)) => if is_builtin_name(a[0]) {
            None
        } else {
            Some(a[0])
        },
        KindView::External(a) => Some(a[0]),
        _ => None,
    }
}

/// What a command does, given where the search path has the name it asks
/// about.
pub open spec fn decision(c: CommandView, found: Option<Seq<char>>) -> ActionView {
    match c.kind {
        KindView::Builtin(BuiltinView::Echo(a)) => ActionView::Print(echo_text(a)),
        KindView::Builtin(BuiltinView::Type(a)) => ActionView::Print(type_report(a[0], found)),
        KindView::Builtin(BuiltinView::Cd(a)) => ActionView::ChangeDir {
            to_home: a[0] == "~"@,
            arg: a[0],
        },
        KindView::Builtin(BuiltinView::Pwd) => ActionView::PrintWorkingDir,
        KindView::Builtin(BuiltinView::Exit) => ActionView::Exit,
        KindView::External(a) => match found {
            Some(_) => ActionView::Spawn { program: a[0], args: a.drop_first() },
            None => ActionView::PrintError(not_found_text(a)),
        },
    }
}

/// Commands that can run: `type` and `cd` need an argument, and an external
/// command needs a program name.
pub open spec fn runnable(c: CommandView) -> bool {
    match c.kind {
        KindView::Builtin(BuiltinView::Type(a)) => a.len() > 0,
        KindView::Builtin(BuiltinView::Cd(a)) => a.len() > 0,
        KindView::External(a) => a.len() > 0,
        _ => true,
    }
}

/// Whether `n` names a builtin command.
pub fn is_builtin(n: &str) -> (r: bool)
    ensures
        r == is_builtin_name(n@),
{
    str_eq(n, "exit") || str_eq(n, "echo") || str_eq(n, "type") || str_eq(n, "pwd") || str_eq(
        n,
        "cd",
    )
}

/// The text that `type name` prints, given the search path's answer.
pub fn type_report_text(name: &str, found: Option<String>) -> (r: String)
    ensures
        r@ == type_report(
            name@,
            match found {
                Some(p) => Some(p@),
                None => None,
            },
        ),
{
    let mut r = String::from_str(name);
    if is_builtin(name) {
        r.append(" is a shell builtin\n");
    } else {
        match found {
            Some(p) => {
                r.append(" is ");
                r.append(p.as_str());
                r.append("\n");
            },
            None => {
                r.append(": not found\n");
            },
        }
    }
    r
}

/// The text that `cd arg` prints when the directory does not exist.
pub fn missing_directory_message(arg: &str) -> (r: String)
    ensures
        r@ == missing_directory_text(arg@),
{
    let mut r = String::from_str("cd: ");
    r.append(arg);
    r.append(": No such file or directory\n");
    r
}

impl Command {
    /// Whether the command can run (see `runnable`).
    pub fn is_runnable(&self) -> (r: bool)
        ensures
            r == runnable(self@),
    {
        match &self.command_kind {
            CommandKind::Builtin(BuiltinCommand::Type(a)) => a.len() > 0,
            CommandKind::Builtin(BuiltinCommand::Cd(a)) => a.len() > 0,
            CommandKind::External(a) => a.len() > 0,
            _ => true,
        }
    }

    /// The name that the search path is asked about: the argument of a
    /// `type` that is not a builtin, or the program of an external command.
    pub fn lookup_name(&self) -> (r: Option<&str>)
        requires
            runnable(self@),
        ensures
            (match r {
                Some(n) => Some(n@),
                None => None,
            }) == lookup_name_of(self@),
    {
        match &self.command_kind {
            CommandKind::Builtin(BuiltinCommand::Type(a)) => {
                if is_builtin(a[0].as_str()) {
                    None
                } else {
                    Some(a[0].as_str())
                }
            },
            CommandKind::External(a) => Some(a[0].as_str()),
            _ => None,
        }
    }

    /// What to do for this command, given where the search path has the
    /// name asked about (`found`, see `lookup_name`).  `echo` prints its
    /// arguments; `type` reports a builtin, or where the name was found, or
    /// that it is not found; `cd` changes directory (`~` meaning home); `pwd`
    /// prints the directory; `exit` leaves; anything else starts the program
    /// when it was found, and otherwise reports on standard error that it is
    /// not found.
    pub fn decide(&self, found: Option<String>) -> (r: Action)
        requires
            runnable(self@),
        ensures
            r@ == decision(
                self@,
                match found {
                    Some(p) => Some(p@),
                    None => None,
                },
            ),
    {
        match &self.command_kind {
            CommandKind::Builtin(BuiltinCommand::Echo(a)) => {
                let mut t = join_with(a, " ");
                t.append("\n");
                Action::Print(t)
            },
            CommandKind::Builtin(BuiltinCommand::Type(a)) => {
                Action::Print(type_report_text(a[0].as_str(), found))
            },
            CommandKind::Builtin(BuiltinCommand::Cd(a)) => {
                let arg = a[0].clone();
                let to_home = str_eq(arg.as_str(), "~");
                Action::ChangeDir { to_home, arg }
            },
            CommandKind::Builtin(BuiltinCommand::Pwd) => Action::PrintWorkingDir,
            CommandKind::Builtin(BuiltinCommand::Exit) => Action::Exit,
            CommandKind::External(a) => {
                match found {
                    Some(_) => {
                        let mut args: Vec<String> = Vec::new();
                        let mut i: usize = 1;
                        while i < a.len()
                            invariant
                                1 <= i <= a.len(),
                                args.deep_view() == a.deep_view().subrange(1, i as int),
                            decreases a.len() - i,
                        {
                            let ghost before = args.deep_view();
                            let c = a[i].clone();
                            args.push(c);
                            assert(args.deep_view() =~= before.push(a@[i as int]@));
                            assert(args.deep_view() =~= a.deep_view().subrange(1, i + 1));
                            i = i + 1;
                        }
                        assert(a.deep_view().subrange(1, a.len() as int) =~= a.deep_view().drop_first());
                        Action::Spawn { program: a[0].clone(), args }
                    },
                    None => {
                        let mut t = join_with(a, " ");
                        t.append(": command not found\n");
                        Action::PrintError(t)
                    },
                }
            },
        }
    }

    /// What to do for this command, looking the name it asks about up in
    /// `dirs` (the search path, in order): the decision for what the search
    /// found, which is the name inside the first directory where the file
    /// system answered that it is an executable file.
    pub fn action(&self, dirs: &Vec<String>) -> (r: Action)
        requires
            runnable(self@),
        ensures
            lookup_name_of(self@) is None ==> r@ == decision(self@, None),
            lookup_name_of(self@) is Some ==> exists|f: Option<Seq<char>>, answers: Seq<bool>|
                #![trigger first_found(candidate_paths_of(dirs.deep_view(), lookup_name_of(self@)->Some_0), answers, f)]
                answers.len() == dirs.len() && first_found(
                    candidate_paths_of(dirs.deep_view(), lookup_name_of(self@)->Some_0),
                    answers,
                    f,
                ) && r@ == decision(self@, f),
    {
        match self.lookup_name() {
            None => self.decide(None),
            Some(name) => {
                let found = executable(dirs, name);
                let ghost fv = match &found {
                    Some(p) => Some(p@),
                    None => None,
                };
                let r = self.decide(found);
                proof {
                    let answers = choose|answers: Seq<bool>|
                        answers.len() == dirs.len() && first_found(
                            candidate_paths_of(dirs.deep_view(), name@),
                            answers,
                            fv,
                        );
                    assert(answers.len() == dirs.len() && first_found(
                        candidate_paths_of(dirs.deep_view(), name@),
                        answers,
                        fv,
                    ) && r@ == decision(self@, fv));
                    assert(lookup_name_of(self@)->Some_0 == name@);
                }
                r
            },
        }
    }
}

/// A file that a stream is redirected to: the file, the directory that is
/// created first (empty when the path names none), and whether output is
/// appended rather than replacing what the file held.
pub struct FileSink {
    pub path: String,
    pub parent: String,
    pub append: bool,
}

/// The file sink of a stream, as spec values: `None` for the terminal, else
/// (path, parent directory, append).
pub open spec fn file_sink_of(k: SinkView) -> Option<(Seq<char>, Seq<char>, bool)> {
    match k {
        SinkView::Normal => None,
        SinkView::Redirect(p) => Some((p, before_last_slash(p), false)),
        SinkView::Append(p) => Some((p, before_last_slash(p), true)),
    }
}

/// The spec value of a file sink.
pub open spec fn file_sink_view(r: Option<FileSink>) -> Option<(Seq<char>, Seq<char>, bool)> {
    match r {
        Some(f) => Some((f.path@, f.parent@, f.append)),
        None => None,
    }
}

fn file_sink_for(path: &String, append: bool) -> (r: FileSink)
    ensures
        r.path@ == path@,
        r.parent@ == before_last_slash(path@),
        r.append == append,
{
    FileSink { path: path.clone(), parent: before_last_slash_of(path.as_str()), append }
}

impl StdoutKind {
    /// Where standard output is written: the terminal (`None`) or a file.
    pub fn file_sink(&self) -> (r: Option<FileSink>)
        ensures
            file_sink_view(r) == file_sink_of(self@),
    {
        match self {
            StdoutKind::Normal => None,
            StdoutKind::Redirect(p) => Some(file_sink_for(p, false)),
            StdoutKind::Append(p) => Some(file_sink_for(p, true)),
        }
    }
}

impl StderrKind {
    /// Where standard error is written: the terminal (`None`) or a file.
    pub fn file_sink(&self) -> (r: Option<FileSink>)
        ensures
            file_sink_view(r) == file_sink_of(self@),
    {
        match self {
            StderrKind::Normal => None,
            StderrKind::Redirect(p) => Some(file_sink_for(p, false)),
            StderrKind::Append(p) => Some(file_sink_for(p, true)),
        }
    }
}

/// `type` answers for a builtin name the same whatever the search path holds.
pub proof fn law_type_builtin_ignores_search_path(
    name: Seq<char>,
    found: Option<Seq<char>>,
)
    requires
        is_builtin_name(name),
    ensures
        type_report(name, found) == name + " is a shell builtin\n"@,
        type_report(name, found) == type_report(name, None),
{
}

/// The shell leaves after a command exactly when the command is `exit`,
/// whatever the search path found.
pub proof fn law_exit_only_for_exit(c: CommandView, found: Option<Seq<char>>)
    ensures
        (decision(c, found) is Exit) <==> (c.kind == KindView::Builtin(BuiltinView::Exit)),
{
}

} // verus!
