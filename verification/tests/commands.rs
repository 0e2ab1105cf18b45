use shell::{
    cd_error_message, command_not_found_message, dispatch_command, echo_command, execute_builtin,
    is_builtin, is_runnable_file, type_command, BuiltinCommand, CdTarget, CommandPlan, ShellAction,
};

fn args(list: &[&str]) -> Vec<String> {
    list.iter().map(|w| w.to_string()).collect()
}

#[test]
fn builtin_names() {
    for name in ["exit", "echo", "type", "pwd", "cd"] {
        assert!(is_builtin(name), "{}", name);
    }
    for name in ["ls", "Exit", "", "echo ", "cdx", "ech"] {
        assert!(!is_builtin(name), "{}", name);
    }
}

#[test]
fn exit_closes_the_shell() {
    let plan = dispatch_command("exit", &args(&[]));
    assert_eq!(plan, CommandPlan::Builtin(BuiltinCommand::Exit));
    assert_eq!(plan.action(), ShellAction::Exit);
    let plan = dispatch_command("exit", &args(&["0"]));
    assert_eq!(plan.action(), ShellAction::Exit);
}

#[test]
fn other_commands_continue() {
    for name in ["echo", "type", "pwd", "cd", "ls", "Exit"] {
        assert_eq!(dispatch_command(name, &args(&["x"])).action(), ShellAction::Continue, "{}", name);
    }
}

#[test]
fn echo_joins_arguments() {
    let plan = dispatch_command("echo", &args(&["hello", "big", "world"]));
    assert_eq!(plan, CommandPlan::Builtin(BuiltinCommand::Echo { line: "hello big world\n".to_string() }));
    assert_eq!(echo_command(&args(&[])), "\n");
    assert_eq!(echo_command(&args(&["a b", "", "c"])), "a b  c\n");
}

#[test]
fn type_takes_first_argument() {
    assert_eq!(
        dispatch_command("type", &args(&["ls", "cd"])),
        CommandPlan::Builtin(BuiltinCommand::Type { name: Some("ls".to_string()) })
    );
    assert_eq!(dispatch_command("type", &args(&[])), CommandPlan::Builtin(BuiltinCommand::Type { name: None }));
}

#[test]
fn type_messages() {
    assert_eq!(type_command(Some("echo"), None), "echo is a shell builtin\n");
    assert_eq!(type_command(Some("cd"), Some("/usr/bin/cd")), "cd is a shell builtin\n");
    assert_eq!(type_command(Some("ls"), Some("/bin/ls")), "ls is /bin/ls\n");
    assert_eq!(type_command(Some("nope"), None), "nope: not found\n");
}

#[test]
fn bare_type_writes_nothing() {
    assert_eq!(type_command(None, None), "");
    assert_eq!(type_command(None, Some("/bin/ls")), "");
}

#[test]
fn pwd_plan() {
    assert_eq!(dispatch_command("pwd", &args(&["extra"])), CommandPlan::Builtin(BuiltinCommand::Pwd));
}

#[test]
fn cd_targets() {
    assert_eq!(
        dispatch_command("cd", &args(&[])),
        CommandPlan::Builtin(BuiltinCommand::Cd { target: CdTarget::Home })
    );
    assert_eq!(
        dispatch_command("cd", &args(&["~"])),
        CommandPlan::Builtin(BuiltinCommand::Cd { target: CdTarget::Home })
    );
    assert_eq!(
        dispatch_command("cd", &args(&["/tmp", "x"])),
        CommandPlan::Builtin(BuiltinCommand::Cd { target: CdTarget::Directory("/tmp".to_string()) })
    );
    assert_eq!(
        dispatch_command("cd", &args(&["~/docs"])),
        CommandPlan::Builtin(BuiltinCommand::Cd { target: CdTarget::Directory("~/docs".to_string()) })
    );
}

#[test]
fn execute_builtin_matches_dispatch() {
    assert_eq!(execute_builtin("pwd", &args(&[])), BuiltinCommand::Pwd);
    assert_eq!(execute_builtin("echo", &args(&["x"])), BuiltinCommand::Echo { line: "x\n".to_string() });
}

#[test]
fn outside_programs() {
    assert_eq!(dispatch_command("ls", &args(&["-l"])), CommandPlan::External);
    assert_eq!(dispatch_command("", &args(&[])), CommandPlan::External);
    assert_eq!(dispatch_command("exit2", &args(&[])), CommandPlan::External);
}

#[test]
fn messages() {
    assert_eq!(cd_error_message("/nope"), "cd: /nope: No such file or directory\n");
    assert_eq!(command_not_found_message("foo"), "foo: command not found\n");
}

#[test]
fn runnable_files() {
    assert!(is_runnable_file(true, 0o755));
    assert!(is_runnable_file(true, 0o100));
    assert!(is_runnable_file(true, 0o001));
    assert!(is_runnable_file(true, 0o100644 | 0o010));
    assert!(!is_runnable_file(true, 0o644));
    assert!(!is_runnable_file(false, 0o755));
}

#[test]
fn law_only_exit_closes() {
    for name in ["exit", "echo", "type", "pwd", "cd", "ls", "exit ", "EXIT"] {
        let closes = dispatch_command(name, &args(&["a"])).action() == ShellAction::Exit;
        assert_eq!(closes, name == "exit", "{}", name);
    }
}

#[test]
fn law_builtins_run_inside() {
    for name in ["exit", "echo", "type", "pwd", "cd", "ls", "true"] {
        let inside = matches!(dispatch_command(name, &args(&[])), CommandPlan::Builtin(_));
        assert_eq!(inside, is_builtin(name), "{}", name);
    }
}
