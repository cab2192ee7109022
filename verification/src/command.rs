//! The command model: tokens of a line, where output goes, and what a
//! command is, together with the spec values that they stand for.

use vstd::prelude::*;
use crate::text::str_eq;

verus! {

/// Where a stream goes, as a spec value.
pub enum SinkView {
    Normal,
    Redirect(Seq<char>),
    Append(Seq<char>),
}

/// A token of a command line, as a spec value.
pub enum TokenView {
    Argument(Seq<char>),
    Stdout(SinkView),
    Stderr(SinkView),
}

/// A builtin command with its arguments, as a spec value.
pub enum BuiltinView {
    Echo(Seq<Seq<char>>),
    Type(Seq<Seq<char>>),
    Cd(Seq<Seq<char>>),
    Pwd,
    Exit,
}

/// What a command runs, as a spec value.
pub enum KindView {
    Builtin(BuiltinView),
    External(Seq<Seq<char>>),
}

/// A whole command, as a spec value.
pub struct CommandView {
    pub kind: KindView,
    pub stdout: SinkView,
    pub stderr: SinkView,
}

/// Where standard output goes.
pub enum StdoutKind {
    Normal,
    Redirect(String),
    Append(String),
}

/// Where standard error goes.
pub enum StderrKind {
    Normal,
    Redirect(String),
    Append(String),
}

/// A token of a command line.
pub enum CommandToken {
    Argument(String),
    Stdout(StdoutKind),
    Stderr(StderrKind),
}

/// The commands that the shell runs itself.
pub enum BuiltinCommand {
    Echo(Vec<String>),
    Type(Vec<String>),
    Cd(Vec<String>),
    Pwd,
    Exit,
}

/// A builtin, or a program to run with its arguments (the program first).
pub enum CommandKind {
    Builtin(BuiltinCommand),
    External(Vec<String>),
}

/// A parsed command line.
pub struct Command {
    pub command_kind: CommandKind,
    pub stdout: StdoutKind,
    pub stderr: StderrKind,
}

impl View for StdoutKind {
    type V = SinkView;

    open spec fn view(&self) -> SinkView {
        match self {
            StdoutKind::Normal => SinkView::Normal,
            StdoutKind::Redirect(p) => SinkView::Redirect(p@),
            StdoutKind::Append(p) => SinkView::Append(p@),
        }
    }
}

impl View for StderrKind {
    type V = SinkView;

    open spec fn view(&self) -> SinkView {
        match self {
            StderrKind::Normal => SinkView::Normal,
            StderrKind::Redirect(p) => SinkView::Redirect(p@),
            StderrKind::Append(p) => SinkView::Append(p@),
        }
    }
}

impl View for CommandToken {
    type V = TokenView;

    open spec fn view(&self) -> TokenView {
        match self {
            CommandToken::Argument(a) => TokenView::Argument(a@),
            CommandToken::Stdout(k) => TokenView::Stdout(k@),
            CommandToken::Stderr(k) => TokenView::Stderr(k@),
        }
    }
}

impl DeepView for CommandToken {
    type V = TokenView;

    open spec fn deep_view(&self) -> TokenView {
        self@
    }
}

impl View for BuiltinCommand {
    type V = BuiltinView;

    open spec fn view(&self) -> BuiltinView {
        match self {
            BuiltinCommand::Echo(a) => BuiltinView::Echo(a.deep_view()),
            BuiltinCommand::Type(a) => BuiltinView::Type(a.deep_view()),
            BuiltinCommand::Cd(a) => BuiltinView::Cd(a.deep_view()),
            BuiltinCommand::Pwd => BuiltinView::Pwd,
            BuiltinCommand::Exit => BuiltinView::Exit,
        }
    }
}

impl View for CommandKind {
    type V = KindView;

    open spec fn view(&self) -> KindView {
        match self {
            CommandKind::Builtin(b) => KindView::Builtin(b@),
            CommandKind::External(a) => KindView::External(a.deep_view()),
        }
    }
}

impl View for Command {
    type V = CommandView;

    open spec fn view(&self) -> CommandView {
        CommandView { kind: self.command_kind@, stdout: self.stdout@, stderr: self.stderr@ }
    }
}

impl StdoutKind {
    /// Whether output goes to the terminal.
    pub fn is_normal(&self) -> (r: bool)
        ensures
            r == (self@ is Normal),
    {
        match self {
            StdoutKind::Normal => true,
            _ => false,
        }
    }
}

impl StderrKind {
    /// Whether errors go to the terminal.
    pub fn is_normal(&self) -> (r: bool)
        ensures
            r == (self@ is Normal),
    {
        match self {
            StderrKind::Normal => true,
            _ => false,
        }
    }
}

impl Clone for StdoutKind {
    fn clone(&self) -> (r: Self)
        ensures
            r@ == self@,
    {
        match self {
            StdoutKind::Normal => StdoutKind::Normal,
            StdoutKind::Redirect(p) => StdoutKind::Redirect(p.clone()),
            StdoutKind::Append(p) => StdoutKind::Append(p.clone()),
        }
    }
}

impl Clone for StderrKind {
    fn clone(&self) -> (r: Self)
        ensures
            r@ == self@,
    {
        match self {
            StderrKind::Normal => StderrKind::Normal,
            StderrKind::Redirect(p) => StderrKind::Redirect(p.clone()),
            StderrKind::Append(p) => StderrKind::Append(p.clone()),
        }
    }
}

impl Clone for CommandToken {
    fn clone(&self) -> (r: Self)
        ensures
            r@ == self@,
    {
        match self {
            CommandToken::Argument(a) => CommandToken::Argument(a.clone()),
            CommandToken::Stdout(k) => CommandToken::Stdout(k.clone()),
            CommandToken::Stderr(k) => CommandToken::Stderr(k.clone()),
        }
    }
}

/// The stdout sink named by the first stdout token, or `Normal`.
pub open spec fn first_stdout(ts: Seq<TokenView>) -> SinkView
    decreases ts.len(),
{
    if ts.len() == 0 {
        SinkView::Normal
    } else {
        match ts[0] {
            TokenView::Stdout(k) => k,
            _ => first_stdout(ts.drop_first()),
        }
    }
}

/// The stderr sink named by the first stderr token, or `Normal`.
pub open spec fn first_stderr(ts: Seq<TokenView>) -> SinkView
    decreases ts.len(),
{
    if ts.len() == 0 {
        SinkView::Normal
    } else {
        match ts[0] {
            TokenView::Stderr(k) => k,
            _ => first_stderr(ts.drop_first()),
        }
    }
}

/// The argument tokens, in order.
pub open spec fn arguments(ts: Seq<TokenView>) -> Seq<Seq<char>>
    decreases ts.len(),
{
    if ts.len() == 0 {
        seq![]
    } else {
        match ts[0] {
            TokenView::Argument(a) => seq![a] + arguments(ts.drop_first()),
            _ => arguments(ts.drop_first()),
        }
    }
}

/// What a non-empty list of arguments runs: a builtin when the first
/// argument names one (with the remaining arguments), else an external
/// program with all of them.
pub open spec fn kind_of(args: Seq<Seq<char>>) -> KindView
    recommends
        args.len() > 0,
{
    let first = args[0];
    let rest = args.drop_first();
    if first == "echo"@ {
        KindView::Builtin(BuiltinView::Echo(rest))
    } else if first == "type"@ {
        KindView::Builtin(BuiltinView::Type(rest))
    } else if first == "cd"@ {
        KindView::Builtin(BuiltinView::Cd(rest))
    } else if first == "pwd"@ {
        KindView::Builtin(BuiltinView::Pwd)
    } else if first == "exit"@ {
        KindView::Builtin(BuiltinView::Exit)
    } else {
        KindView::External(args)
    }
}

/// The command that a list of tokens makes.
pub open spec fn command_of(ts: Seq<TokenView>) -> CommandView {
    CommandView { kind: kind_of(arguments(ts)), stdout: first_stdout(ts), stderr: first_stderr(ts) }
}

impl CommandToken {
    /// The text of an argument token.
    pub fn to_string(&self) -> (r: String)
        requires
            self@ is Argument,
        ensures
            r@ == self@->Argument_0,
    {
        match self {
            CommandToken::Argument(a) => a.clone(),
            _ => String::new(),
        }
    }
}

fn first_stdout_exec(ts: &Vec<CommandToken>) -> (r: StdoutKind)
    ensures
        r@ == first_stdout(ts.deep_view()),
{
    let ghost dv = ts.deep_view();
    let mut i: usize = 0;
    assert(dv.skip(0) =~= dv);
    while i < ts.len()
        invariant
            i <= ts.len(),
            dv == ts.deep_view(),
            first_stdout(dv) == first_stdout(dv.skip(i as int)),
        decreases ts.len() - i,
    {
        assert(dv.skip(i as int).drop_first() =~= dv.skip(i + 1));
        if let CommandToken::Stdout(k) = &ts[i] {
            return k.clone();
        }
        i = i + 1;
    }
    StdoutKind::Normal
}

fn first_stderr_exec(ts: &Vec<CommandToken>) -> (r: StderrKind)
    ensures
        r@ == first_stderr(ts.deep_view()),
{
    let ghost dv = ts.deep_view();
    let mut i: usize = 0;
    assert(dv.skip(0) =~= dv);
    while i < ts.len()
        invariant
            i <= ts.len(),
            dv == ts.deep_view(),
            first_stderr(dv) == first_stderr(dv.skip(i as int)),
        decreases ts.len() - i,
    {
        assert(dv.skip(i as int).drop_first() =~= dv.skip(i + 1));
        if let CommandToken::Stderr(k) = &ts[i] {
            return k.clone();
        }
        i = i + 1;
    }
    StderrKind::Normal
}

fn arguments_exec(ts: &Vec<CommandToken>) -> (r: Vec<String>)
    ensures
        r.deep_view() == arguments(ts.deep_view()),
{
    let ghost dv = ts.deep_view();
    let mut out: Vec<String> = Vec::new();
    let mut i: usize = 0;
    assert(dv.skip(0) =~= dv);
    assert(out.deep_view() + arguments(dv) =~= arguments(dv));
    while i < ts.len()
        invariant
            i <= ts.len(),
            dv == ts.deep_view(),
            out.deep_view() + arguments(dv.skip(i as int)) == arguments(dv),
        decreases ts.len() - i,
    {
        assert(dv.skip(i as int).drop_first() =~= dv.skip(i + 1));
        if let CommandToken::Argument(a) = &ts[i] {
            let ghost before = out.deep_view();
            out.push(a.clone());
            assert(out.deep_view() =~= before.push(a@));
            assert(before + (seq![a@] + arguments(dv.skip(i + 1))) =~= before.push(a@)
                + arguments(dv.skip(i + 1)));
        }
        i = i + 1;
    }
    assert(dv.skip(ts.len() as int) =~= seq![]);
    assert(out.deep_view() + seq![] =~= out.deep_view());
    out
}

/// All strings of `v` but the first.
fn tail_of(v: &Vec<String>) -> (r: Vec<String>)
    requires
        v.len() > 0,
    ensures
        r.deep_view() == v.deep_view().drop_first(),
{
    let mut out: Vec<String> = Vec::new();
    let mut i: usize = 1;
    while i < v.len()
        invariant
            1 <= i <= v.len(),
            out.deep_view() == v.deep_view().subrange(1, i as int),
        decreases v.len() - i,
    {
        let ghost before = out.deep_view();
        let c = v[i].clone();
        out.push(c);
        assert(out.deep_view() =~= before.push(v@[i as int]@));
        assert(out.deep_view() =~= v.deep_view().subrange(1, i + 1));
        i = i + 1;
    }
    assert(v.deep_view().subrange(1, v.len() as int) =~= v.deep_view().drop_first());
    out
}

fn kind_of_exec(args: Vec<String>) -> (r: CommandKind)
    requires
        args.len() > 0,
    ensures
        r@ == kind_of(args.deep_view()),
{
    let first = args[0].as_str();
    assert(first@ == args.deep_view()[0]);
    if str_eq(first, "echo") {
        CommandKind::Builtin(BuiltinCommand::Echo(tail_of(&args)))
    } else if str_eq(first, "type") {
        CommandKind::Builtin(BuiltinCommand::Type(tail_of(&args)))
    } else if str_eq(first, "cd") {
        CommandKind::Builtin(BuiltinCommand::Cd(tail_of(&args)))
    } else if str_eq(first, "pwd") {
        CommandKind::Builtin(BuiltinCommand::Pwd)
    } else if str_eq(first, "exit") {
        CommandKind::Builtin(BuiltinCommand::Exit)
    } else {
        CommandKind::External(args)
    }
}

/// Whether some token is an argument: what `Command::new` needs.
pub fn has_argument(tokens: &Vec<CommandToken>) -> (r: bool)
    ensures
        r == (arguments(tokens.deep_view()).len() > 0),
{
    let args = arguments_exec(tokens);
    args.len() > 0
}

impl Command {
    /// The command that `tokens` make: output and errors go where the
    /// first redirection of each names (the terminal if none does), and the
    /// arguments, in order, say what runs.
    pub fn new(tokens: Vec<CommandToken>) -> (r: Command)
        requires
            arguments(tokens.deep_view()).len() > 0,
        ensures
            r@ == command_of(tokens.deep_view()),
    {
        let stdout = first_stdout_exec(&tokens);
        let stderr = first_stderr_exec(&tokens);
        let args = arguments_exec(&tokens);
        let command_kind = kind_of_exec(args);
        Command { command_kind, stdout, stderr }
    }
}

/// The stdout sinks named by the tokens, in order.
pub open spec fn stdout_sinks(ts: Seq<TokenView>) -> Seq<SinkView>
    decreases ts.len(),
{
    if ts.len() == 0 {
        seq![]
    } else {
        match ts[0] {
            TokenView::Stdout(k) => seq![k] + stdout_sinks(ts.drop_first()),
            _ => stdout_sinks(ts.drop_first()),
        }
    }
}

/// The stderr sinks named by the tokens, in order.
pub open spec fn stderr_sinks(ts: Seq<TokenView>) -> Seq<SinkView>
    decreases ts.len(),
{
    if ts.len() == 0 {
        seq![]
    } else {
        match ts[0] {
            TokenView::Stderr(k) => seq![k] + stderr_sinks(ts.drop_first()),
            _ => stderr_sinks(ts.drop_first()),
        }
    }
}

proof fn lemma_first_sinks(ts: Seq<TokenView>)
    ensures
        first_stdout(ts) == (if stdout_sinks(ts).len() > 0 {
            stdout_sinks(ts)[0]
        } else {
            SinkView::Normal
        }),
        first_stderr(ts) == (if stderr_sinks(ts).len() > 0 {
            stderr_sinks(ts)[0]
        } else {
            SinkView::Normal
        }),
    decreases ts.len(),
{
    if ts.len() > 0 {
        lemma_first_sinks(ts.drop_first());
    }
}

/// Where redirections stand among the arguments does not matter: token
/// lists with the same arguments, the same stdout redirections and the same
/// stderr redirections, each in the same order, make the same command.
pub proof fn law_command_ignores_interleaving(t1: Seq<TokenView>, t2: Seq<TokenView>)
    requires
        arguments(t1) == arguments(t2),
        stdout_sinks(t1) == stdout_sinks(t2),
        stderr_sinks(t1) == stderr_sinks(t2),
    ensures
        command_of(t1) == command_of(t2),
{
    lemma_first_sinks(t1);
    lemma_first_sinks(t2);
}

} // verus!
