use dsh::editor::{Key, LineEditor, Outcome};
use dsh::env::EnvOp;
use dsh::error::CommandError;
use dsh::internals::InternalFunc;
use dsh::lexer::LexError;
use dsh::shell::{host_binding, on_signal, publish_host, Dispatch, Shell, ShellState, SignalAction};
use dsh::vars::VarMap;

fn started() -> Shell {
    let mut shell = Shell::new();
    shell.start();
    shell
}

#[test]
fn a_new_shell_runs_with_status_zero() {
    let shell = Shell::new();
    assert_eq!(shell.state(), ShellState::Running);
    assert_eq!(shell.status(), 0);
}

#[test]
fn starting_sets_up_the_cursor() {
    let mut shell = Shell::new();
    assert_eq!(shell.start(), "\x1b[6 q\x1b[5 q".to_string());
    assert_eq!(shell.state(), ShellState::Running);
}

#[test]
fn exit_stops_the_shell_without_running_anything() {
    let mut shell = started();
    let dispatch = shell.dispatch("exit", &VarMap::new());
    assert!(matches!(dispatch, Dispatch::Exit));
    assert_eq!(shell.state(), ShellState::Stopping);
    assert_eq!(shell.status(), 0);
}

#[test]
fn exit_typed_into_the_editor_stops_the_shell() {
    let mut shell = started();
    let mut editor = LineEditor::new();
    let env = VarMap::new();
    let prompt = shell.prompt(&env);
    for c in "exit\n".chars() {
        assert_eq!(shell.state(), ShellState::Running);
        let reaction = editor.handle_key(Key::Char(c), &prompt);
        let dispatch = shell.step(reaction.outcome, &env);
        assert!(matches!(dispatch, Dispatch::Wait | Dispatch::Exit));
    }
    assert_eq!(shell.state(), ShellState::Stopping);
}

#[test]
fn exit_with_arguments_or_assignments_still_exits() {
    let mut shell = started();
    assert!(matches!(shell.dispatch("A=1 exit 3", &VarMap::new()), Dispatch::Exit));
    assert_eq!(shell.state(), ShellState::Stopping);
}

#[test]
fn a_line_without_a_name_is_skipped() {
    let mut shell = started();
    for line in ["", " ", "   ", "A=1", "A=1 B=2", " ls"] {
        assert!(matches!(shell.dispatch(line, &VarMap::new()), Dispatch::Skip));
        assert_eq!(shell.state(), ShellState::Running);
    }
}

#[test]
fn a_registered_name_is_a_built_in() {
    let mut shell = started();
    match shell.dispatch("cd /tmp", &VarMap::new()) {
        Dispatch::Internal(func, cmd) => {
            assert_eq!(func, InternalFunc::Cd);
            assert_eq!(cmd.name, "cd");
            assert_eq!(cmd.args, vec!["/tmp".to_string()]);
        }
        other => panic!("{:?}", other),
    }
    match shell.dispatch("clear", &VarMap::new()) {
        Dispatch::Internal(func, _) => assert_eq!(func, InternalFunc::Clear),
        other => panic!("{:?}", other),
    }
    assert_eq!(shell.state(), ShellState::Running);
}

#[test]
fn any_other_name_is_an_external_program() {
    let mut shell = started();
    let mut env = VarMap::new();
    env.insert("status".to_string(), "3".to_string());
    match shell.dispatch("A=1 echo $A $status", &env) {
        Dispatch::External(cmd) => {
            assert_eq!(cmd.name, "echo");
            assert_eq!(cmd.args, vec!["1".to_string(), "3".to_string()]);
            assert_eq!(cmd.variables_overrides.get("A"), Some(&"1".to_string()));
        }
        other => panic!("{:?}", other),
    }
    assert_eq!(shell.state(), ShellState::Running);
}

#[test]
fn before_the_start_no_built_in_is_registered() {
    let mut shell = Shell::new();
    assert!(matches!(shell.dispatch("cd", &VarMap::new()), Dispatch::External(_)));
    assert!(matches!(shell.dispatch("exit", &VarMap::new()), Dispatch::Exit));
}

#[test]
fn a_key_that_only_edits_asks_for_nothing() {
    let mut shell = started();
    assert!(matches!(shell.step(Outcome::Editing, &VarMap::new()), Dispatch::Wait));
    assert_eq!(shell.state(), ShellState::Running);
}

#[test]
fn a_request_to_quit_stops_the_shell() {
    let mut shell = started();
    assert!(matches!(shell.step(Outcome::Quit, &VarMap::new()), Dispatch::Exit));
    assert_eq!(shell.state(), ShellState::Stopping);
}

#[test]
fn a_line_that_cannot_be_lexed_stops_the_shell() {
    let mut shell = started();
    let error = LexError::UnexpectedDigitSeparator { line: 0, column: 2 };
    match shell.step(Outcome::Failed(error), &VarMap::new()) {
        Dispatch::Fatal(e) => assert_eq!(e, error),
        other => panic!("{:?}", other),
    }
    assert_eq!(shell.state(), ShellState::Stopping);
}

#[test]
fn a_completed_line_is_dispatched() {
    let mut shell = started();
    let dispatch = shell.step(Outcome::Line("ls -la".to_string()), &VarMap::new());
    match dispatch {
        Dispatch::External(cmd) => {
            assert_eq!(cmd.name, "ls");
            assert_eq!(cmd.args, vec!["-la".to_string()]);
        }
        other => panic!("{:?}", other),
    }
}

#[test]
fn stop_stops_the_shell() {
    let mut shell = started();
    shell.stop();
    assert_eq!(shell.state(), ShellState::Stopping);
    shell.stop();
    assert_eq!(shell.state(), ShellState::Stopping);
}

#[test]
fn the_prompt_shows_user_host_and_status() {
    let mut shell = started();
    let mut env = VarMap::new();
    assert_eq!(shell.prompt(&env), "@ [0] ".to_string());
    env.insert("USERNAME".to_string(), "me".to_string());
    env.insert("hostname".to_string(), "box".to_string());
    assert_eq!(shell.prompt(&env), "me@box [0] ".to_string());
    shell.finish(&Ok(127));
    assert_eq!(shell.prompt(&env), "me@box [127] ".to_string());
    shell.finish(&Ok(-1));
    assert_eq!(shell.prompt(&env), "me@box [-1] ".to_string());
}

#[test]
fn the_status_is_recorded_and_published() {
    let mut shell = started();
    let publish = shell.finish(&Ok(3));
    assert_eq!(publish, EnvOp::Assign("status".to_string(), "3".to_string()));
    assert_eq!(shell.status(), 3);
    let failed = Err(CommandError::ChildSpawnError("x".to_string(), "y".to_string(), 127));
    let publish = shell.finish(&failed);
    assert_eq!(publish, EnvOp::Assign("status".to_string(), "127".to_string()));
    assert_eq!(shell.status(), 127);
    let publish = shell.finish(&Err(CommandError::IOError("x".to_string())));
    assert_eq!(publish, EnvOp::Assign("status".to_string(), "1".to_string()));
    let publish = shell.finish(&Err(CommandError::ChildExit("x".to_string(), 130)));
    assert_eq!(publish, EnvOp::Assign("status".to_string(), "130".to_string()));
    assert_eq!(shell.state(), ShellState::Running);
}

#[test]
fn the_host_name_is_trimmed_and_published() {
    assert_eq!(
        host_binding("  mybox\n"),
        Some(EnvOp::Assign("hostname".to_string(), "mybox".to_string()))
    );
    assert_eq!(
        host_binding("\n"),
        Some(EnvOp::Assign("hostname".to_string(), "".to_string()))
    );
    assert_eq!(host_binding(""), None);
    assert_eq!(publish_host("a b"), EnvOp::Assign("hostname".to_string(), "a b".to_string()));
}

#[test]
fn signals() {
    assert_eq!(on_signal(true, true), SignalAction::Terminate { need_stop: true });
    assert_eq!(on_signal(true, false), SignalAction::Terminate { need_stop: false });
    assert_eq!(on_signal(false, true), SignalAction::Ignore);
    assert_eq!(on_signal(false, false), SignalAction::Ignore);
}

#[test]
fn the_stop_flag_is_looked_at_between_keys() {
    let mut shell = started();
    assert_eq!(shell.poll(false), ShellState::Running);
    assert_eq!(shell.state(), ShellState::Running);
    assert_eq!(shell.poll(true), ShellState::Stopping);
    assert_eq!(shell.poll(false), ShellState::Stopping);
    assert_eq!(shell.state(), ShellState::Stopping);
}
