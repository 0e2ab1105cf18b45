//! The logic of a small interactive shell: the command-line parser, the
//! choice of what a command does, and the line editor that collects keys.
//! Reading the terminal, opening files and starting programs is left to
//! the program that drives this library.
mod text;

pub mod commands;
pub mod input;
pub mod parser;
pub mod parser_laws;

pub use commands::{
    command_not_found_message, cd_error_message, dispatch_command, echo_command, execute_builtin, is_builtin,
    is_runnable_file, type_command, BuiltinCommand, CdTarget, CommandPlan, ShellAction,
};
pub use input::{KeyOutcome, LineEditor};
pub use parser::{parse_arguments, ParsedCommand, Redirection, Redirections, WriteMode};
