//! What a command does: which built-in runs and with what, or that an
//! outside program is to be started, and the text that the built-ins
//! write. Opening files, asking the system and starting programs is the
//! caller's part.
use vstd::prelude::*;

use crate::parser::strings_view;
use crate::text::{push_char, same_text};

verus! {

/// What the main loop does after a command finishes.
#[derive(Debug, PartialEq, Eq)]
pub enum ShellAction {
    Continue,
    Exit,
}

/// Where `cd` goes.
#[derive(Debug, PartialEq, Eq)]
pub enum CdTarget {
    /// The directory named by `HOME`.
    Home,
    Directory(String),
}

/// A built-in command, with what it needs to run.
#[derive(Debug, PartialEq, Eq)]
pub enum BuiltinCommand {
    /// Close the shell.
    Exit,
    /// Write `line` to standard output.
    Echo { line: String },
    /// Tell what `name` is, when a name was given.
    Type { name: Option<String> },
    /// Write the current directory.
    Pwd,
    /// Change the current directory.
    Cd { target: CdTarget },
}

/// What running a command takes.
#[derive(Debug, PartialEq, Eq)]
pub enum CommandPlan {
    /// One of the shell's own commands; it writes to the shell's streams.
    Builtin(BuiltinCommand),
    /// A program found through `PATH`, started with the command's name and
    /// arguments.
    External,
}

pub enum CdTargetView {
    Home,
    Directory(Seq<char>),
}

pub enum BuiltinView {
    Exit,
    Echo { line: Seq<char> },
    Type { name: Option<Seq<char>> },
    Pwd,
    Cd { target: CdTargetView },
}

pub enum CommandPlanView {
    Builtin(BuiltinView),
    External,
}

impl View for CdTarget {
    type V = CdTargetView;

    open spec fn view(&self) -> CdTargetView {
        match self {
            CdTarget::Home => CdTargetView::Home,
            CdTarget::Directory(d) => CdTargetView::Directory(d@),
        }
    }
}

impl View for BuiltinCommand {
    type V = BuiltinView;

    open spec fn view(&self) -> BuiltinView {
        match self {
            BuiltinCommand::Exit => BuiltinView::Exit,
            BuiltinCommand::Echo { line } => BuiltinView::Echo { line: line@ },
            BuiltinCommand::Type { name } => BuiltinView::Type {
                name: match name {
                    Some(n) => Some(n@),
                    None => None,
                },
            },
            BuiltinCommand::Pwd => BuiltinView::Pwd,
            BuiltinCommand::Cd { target } => BuiltinView::Cd { target: target@ },
        }
    }
}

impl View for CommandPlan {
    type V = CommandPlanView;

    open spec fn view(&self) -> CommandPlanView {
        match self {
            CommandPlan::Builtin(b) => CommandPlanView::Builtin(b@),
            CommandPlan::External => CommandPlanView::External,
        }
    }
}

/// The names of the shell's own commands.
pub open spec fn is_builtin_name(name: Seq<char>) -> bool {
    name == "exit"@ || name == "echo"@ || name == "type"@ || name == "pwd"@ || name == "cd"@
}

/// The words joined with one space between each two.
pub open spec fn join_words(words: Seq<Seq<char>>) -> Seq<char>
    decreases words.len(),
{
    if words.len() == 0 {
        Seq::empty()
    } else if words.len() == 1 {
        words[0]
    } else {
        join_words(words.drop_last()) + seq![' '] + words.last()
    }
}

/// The line that `echo` writes: its arguments joined by spaces, then a
/// line break.
pub open spec fn echo_text(arguments: Seq<Seq<char>>) -> Seq<char> {
    join_words(arguments).push('\n')
}

/// `cd` and `cd ~` go home; `cd dir` goes to `dir`. Only the first
/// argument counts.
pub open spec fn cd_destination(arguments: Seq<Seq<char>>) -> CdTargetView {
    if arguments.len() == 0 || arguments[0] == "~"@ {
        CdTargetView::Home
    } else {
        CdTargetView::Directory(arguments[0])
    }
}

/// The built-in that a built-in command name stands for.
pub open spec fn builtin_plan(command: Seq<char>, arguments: Seq<Seq<char>>) -> BuiltinView {
    if command == "exit"@ {
        BuiltinView::Exit
    } else if command == "echo"@ {
        BuiltinView::Echo { line: echo_text(arguments) }
    } else if command == "type"@ {
        BuiltinView::Type { name: if arguments.len() > 0 { Some(arguments[0]) } else { None } }
    } else if command == "pwd"@ {
        BuiltinView::Pwd
    } else {
        BuiltinView::Cd { target: cd_destination(arguments) }
    }
}

/// What a command with these arguments takes to run.
pub open spec fn plan(command: Seq<char>, arguments: Seq<Seq<char>>) -> CommandPlanView {
    if is_builtin_name(command) {
        CommandPlanView::Builtin(builtin_plan(command, arguments))
    } else {
        CommandPlanView::External
    }
}

/// Only `exit` closes the shell; every other command that succeeds
/// continues.
pub open spec fn plan_action(p: CommandPlanView) -> ShellAction {
    match p {
        CommandPlanView::Builtin(BuiltinView::Exit) => ShellAction::Exit,
        _ => ShellAction::Continue,
    }
}

/// What `type name` writes, given the program that a `PATH` search found
/// for `name`, if any. The shell's own commands come first.
pub open spec fn type_text(name: Seq<char>, found_path: Option<Seq<char>>) -> Seq<char> {
    if is_builtin_name(name) {
        name + " is a shell builtin\n"@
    } else {
        match found_path {
            Some(path) => name + " is "@ + path + "\n"@,
            None => name + ": not found\n"@,
        }
    }
}

/// Whether `name` is one of the shell's own commands.
pub fn is_builtin(name: &str) -> (r: bool)
    ensures
        r == is_builtin_name(name@),
{
    same_text(name, "exit") || same_text(name, "echo") || same_text(name, "type") || same_text(
        name,
        "pwd",
    ) || same_text(name, "cd")
}

/// Decides what running `command` with `arguments` takes: a built-in with
/// what it needs, or an outside program.
pub fn dispatch_command(command: &str, arguments: &[String]) -> (p: CommandPlan)
    ensures
        p@ == plan(command@, strings_view(arguments@)),
{
    // Built-ins use the shell's writers. Outside programs receive their files when started.
    if is_builtin(command) {
        return CommandPlan::Builtin(execute_builtin(command, arguments));
    }
    CommandPlan::External
}

/// The built-in that `command` names, with what it needs.
pub fn execute_builtin(command: &str, arguments: &[String]) -> (b: BuiltinCommand)
    requires
        is_builtin_name(command@),
    ensures
        b@ == builtin_plan(command@, strings_view(arguments@)),
{
    let ghost args = strings_view(arguments@);
    if same_text(command, "exit") {
        BuiltinCommand::Exit
    } else if same_text(command, "echo") {
        BuiltinCommand::Echo { line: echo_command(arguments) }
    } else if same_text(command, "type") {
        let name = if arguments.len() > 0 {
            Some(arguments[0].clone())
        } else {
            None
        };
        BuiltinCommand::Type { name }
    } else if same_text(command, "pwd") {
        BuiltinCommand::Pwd
    } else {
        // Both `cd` and `cd ~` use the home directory.
        let target = if arguments.len() == 0 {
            CdTarget::Home
        } else if same_text(arguments[0].as_str(), "~") {
            CdTarget::Home
        } else {
            CdTarget::Directory(arguments[0].clone())
        };
        BuiltinCommand::Cd { target }
    }
}

/// The line that `echo` writes.
pub fn echo_command(arguments: &[String]) -> (line: String)
    ensures
        line@ == echo_text(strings_view(arguments@)),
{
    let ghost words = strings_view(arguments@);
    let mut line = String::new();
    let n = arguments.len();
    let mut i: usize = 0;
    assert(words.take(0) =~= Seq::<Seq<char>>::empty());
    while i < n
        invariant
            n == arguments@.len(),
            words == strings_view(arguments@),
            i <= n,
            line@ == join_words(words.take(i as int)),
        decreases n - i,
    {
        let ghost before = line@;
        if i > 0 {
            push_char(&mut line, ' ');
        }
        line.append(arguments[i].as_str());
        assert(words[i as int] == arguments@[i as int]@);
        assert(words.take(i + 1).drop_last() =~= words.take(i as int));
        if i == 0 {
            assert(before =~= Seq::<char>::empty());
            assert(line@ =~= words[0]);
        }
        i = i + 1;
    }
    assert(words.take(n as int) =~= words);
    push_char(&mut line, '\n');
    line
}

/// What `type` writes: nothing when no name was given; otherwise the line
/// for the name, given what a `PATH` search found for it (the caller
/// searches only for names that are not built-ins).
pub fn type_command(argument: Option<&str>, found_path: Option<&str>) -> (text: String)
    ensures
        text@ == match argument {
            None => Seq::<char>::empty(),
            Some(name) => type_text(
                name@,
                match found_path {
                    Some(p) => Some(p@),
                    None => None,
                },
            ),
        },
{
    // If the user typed only `type`, there is no command name to check.
    let name = match argument {
        Some(name) => name,
        None => {
            return String::new();
        },
    };
    // Check the shell's commands first, then the program found in PATH.
    let mut text = String::from_str(name);
    if is_builtin(name) {
        text.append(" is a shell builtin\n");
    } else {
        match found_path {
            Some(path) => {
                text.append(" is ");
                text.append(path);
                text.append("\n");
            },
            None => {
                text.append(": not found\n");
            },
        }
    }
    text
}

/// The message that `cd` writes to its error stream when it cannot enter
/// `path`.
pub fn cd_error_message(path: &str) -> (text: String)
    ensures
        text@ == "cd: "@ + path@ + ": No such file or directory\n"@,
{
    let mut text = String::from_str("cd: ");
    text.append(path);
    text.append(": No such file or directory\n");
    text
}

/// The message written when no program named `command` is found.
pub fn command_not_found_message(command: &str) -> (text: String)
    ensures
        text@ == command@ + ": command not found\n"@,
{
    let mut text = String::from_str(command);
    text.append(": command not found\n");
    text
}

/// A file found in `PATH` may be run when it is a regular file and one of
/// its three "may run" permission bits (`0o111`) is set.
pub open spec fn may_run(is_file: bool, mode: u32) -> bool {
    is_file && (mode & 0o111u32) != 0
}

/// Whether a file found in `PATH` may be run.
pub fn is_runnable_file(is_file: bool, mode: u32) -> (r: bool)
    ensures
        r == may_run(is_file, mode),
{
    is_file && (mode & 0o111u32) != 0
}

impl CommandPlan {
    /// What the main loop does once the command has run without error.
    pub fn action(&self) -> (a: ShellAction)
        ensures
            a == plan_action(self@),
    {
        match self {
            CommandPlan::Builtin(BuiltinCommand::Exit) => ShellAction::Exit,
            _ => ShellAction::Continue,
        }
    }
}

/// Only `exit` closes the shell: a command's plan says to close the shell
/// exactly when the command is `exit`, whatever its arguments.
pub proof fn lemma_only_exit_closes(command: Seq<char>, arguments: Seq<Seq<char>>)
    ensures
        (plan_action(plan(command, arguments)) == ShellAction::Exit) <==> command == "exit"@,
{
}

/// A built-in name never starts an outside program, and any other name
/// always does.
pub proof fn lemma_builtins_run_inside(command: Seq<char>, arguments: Seq<Seq<char>>)
    ensures
        (plan(command, arguments) is Builtin) <==> is_builtin_name(command),
{
}

/// The names of the built-ins are five distinct words.
proof fn lemma_builtin_names_differ()
    ensures
        "exit"@ != "echo"@,
        "exit"@ != "type"@,
        "exit"@ != "pwd"@,
        "exit"@ != "cd"@,
        "echo"@ != "type"@,
        "echo"@ != "pwd"@,
        "echo"@ != "cd"@,
        "type"@ != "pwd"@,
        "type"@ != "cd"@,
        "pwd"@ != "cd"@,
{
    reveal_strlit("exit");
    reveal_strlit("echo");
    reveal_strlit("type");
    reveal_strlit("pwd");
    reveal_strlit("cd");
    assert("exit"@.len() == 4 && "echo"@.len() == 4 && "type"@.len() == 4);
    assert("pwd"@.len() == 3 && "cd"@.len() == 2);
    assert("exit"@[1] != "echo"@[1]);
    assert("exit"@[0] != "type"@[0]);
    assert("echo"@[0] != "type"@[0]);
}

/// `exit`, `echo`, `type`, `pwd` and `cd` are the shell's own commands.
pub proof fn lemma_builtin_names()
    ensures
        is_builtin_name("exit"@),
        is_builtin_name("echo"@),
        is_builtin_name("type"@),
        is_builtin_name("pwd"@),
        is_builtin_name("cd"@),
{
}

/// What each built-in is given: `exit` and `pwd` nothing; `echo` the line
/// of all its arguments; `type` its first argument, when there is one;
/// `cd` home when it has no argument or its first is `~`, and otherwise
/// the directory its first argument names.
pub proof fn lemma_builtin_plans(arguments: Seq<Seq<char>>)
    ensures
        plan("exit"@, arguments) == CommandPlanView::Builtin(BuiltinView::Exit),
        plan("echo"@, arguments) == CommandPlanView::Builtin(BuiltinView::Echo { line: echo_text(arguments) }),
        plan("pwd"@, arguments) == CommandPlanView::Builtin(BuiltinView::Pwd),
        arguments.len() == 0 ==> plan("type"@, arguments) == CommandPlanView::Builtin(
            BuiltinView::Type { name: None },
        ),
        arguments.len() > 0 ==> plan("type"@, arguments) == CommandPlanView::Builtin(
            BuiltinView::Type { name: Some(arguments[0]) },
        ),
        arguments.len() == 0 ==> plan("cd"@, arguments) == CommandPlanView::Builtin(
            BuiltinView::Cd { target: CdTargetView::Home },
        ),
        arguments.len() > 0 && arguments[0] == "~"@ ==> plan("cd"@, arguments) == CommandPlanView::Builtin(
            BuiltinView::Cd { target: CdTargetView::Home },
        ),
        arguments.len() > 0 && arguments[0] != "~"@ ==> plan("cd"@, arguments) == CommandPlanView::Builtin(
            BuiltinView::Cd { target: CdTargetView::Directory(arguments[0]) },
        ),
{
    lemma_builtin_names_differ();
}

/// The total number of characters in `words`.
pub open spec fn total_length(words: Seq<Seq<char>>) -> int
    decreases words.len(),
{
    if words.len() == 0 {
        0
    } else {
        total_length(words.drop_last()) + words.last().len()
    }
}

/// The line of `echo`: with no argument it is only a line break; with one,
/// that argument and a line break; and one more argument adds a space and
/// that argument before the line break.
pub proof fn lemma_echo_line(words: Seq<Seq<char>>, w: Seq<char>)
    ensures
        echo_text(Seq::empty()) == seq!['\n'],
        echo_text(seq![w]) == w.push('\n'),
        words.len() > 0 ==> echo_text(words.push(w)) == echo_text(words).drop_last() + seq![' '] + w.push('\n'),
{
    assert(Seq::<char>::empty().push('\n') =~= seq!['\n']);
    if words.len() > 0 {
        assert(words.push(w).drop_last() =~= words);
        assert(echo_text(words).drop_last() =~= join_words(words));
        assert(join_words(words.push(w)).push('\n') =~= join_words(words) + seq![' '] + w.push('\n'));
    }
}

/// `echo` writes every character of every argument: its line is as long as
/// all the arguments together, plus one space between each two, plus the
/// line break.
pub proof fn lemma_echo_length(words: Seq<Seq<char>>)
    ensures
        echo_text(words).len() == total_length(words) + (if words.len() > 0 { words.len() - 1 } else { 0 }) + 1,
    decreases words.len(),
{
    if words.len() == 1 {
        assert(words.drop_last().len() == 0);
        assert(total_length(words.drop_last()) == 0);
    } else if words.len() > 1 {
        lemma_echo_length(words.drop_last());
        assert(echo_text(words.drop_last()).len() == join_words(words.drop_last()).len() + 1);
    }
}

/// What `type name` writes: every built-in name is reported as a built-in,
/// whatever a `PATH` search found; any other name is reported with the
/// program found for it, or as not found.
pub proof fn lemma_type_text(name: Seq<char>, found_path: Option<Seq<char>>)
    ensures
        is_builtin_name(name) ==> type_text(name, found_path) == name + " is a shell builtin\n"@,
        type_text("exit"@, found_path) == "exit"@ + " is a shell builtin\n"@,
        type_text("echo"@, found_path) == "echo"@ + " is a shell builtin\n"@,
        type_text("type"@, found_path) == "type"@ + " is a shell builtin\n"@,
        type_text("pwd"@, found_path) == "pwd"@ + " is a shell builtin\n"@,
        type_text("cd"@, found_path) == "cd"@ + " is a shell builtin\n"@,
        !is_builtin_name(name) && found_path is Some ==> type_text(name, found_path) == name + " is "@
            + found_path->Some_0 + "\n"@,
        !is_builtin_name(name) && found_path is None ==> type_text(name, found_path) == name
            + ": not found\n"@,
{
}

/// A file may be run exactly when it is a regular file that its owner, its
/// group or anyone else is allowed to run; the other permission bits and
/// the file type bits play no part.
pub proof fn lemma_may_run(is_file: bool, mode: u32)
    ensures
        may_run(is_file, mode) <==> is_file && ((mode & 0o100u32) != 0 || (mode & 0o010u32) != 0 || (mode
            & 0o001u32) != 0),
        may_run(is_file, mode) == may_run(is_file, mode & 0o111u32),
{
    assert((mode & 0o111u32) != 0 <==> ((mode & 0o100u32) != 0 || (mode & 0o010u32) != 0 || (mode
        & 0o001u32) != 0)) by (bit_vector);
    assert((mode & 0o111u32) & 0o111u32 == mode & 0o111u32) by (bit_vector);
}

} // verus!
