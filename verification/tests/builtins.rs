use dsh::cmd::Cmd;
use dsh::error::CommandError;
use dsh::internals::{
    cd, clear, finish, get_internal_functions_map, run, ChildOutcome, Effect, InternalFunc,
    InternalFuncMap,
};
use dsh::vars::VarMap;

fn home() -> VarMap {
    let mut env = VarMap::new();
    env.insert("HOME".to_string(), "/home/me".to_string());
    env
}

fn parsed(line: &str) -> Cmd {
    Cmd::new(line, &VarMap::new()).unwrap()
}

#[test]
fn the_registry_holds_the_built_ins() {
    let map = get_internal_functions_map();
    assert_eq!(map.get("cd"), Some(InternalFunc::Cd));
    assert_eq!(map.get("clear"), Some(InternalFunc::Clear));
    assert_eq!(map.get("exit"), None);
    assert_eq!(map.get("ls"), None);
    assert_eq!(map.get(""), None);
}

#[test]
fn a_later_registration_wins() {
    let mut map = InternalFuncMap::new();
    assert_eq!(map.get("x"), None);
    map.insert("x".to_string(), InternalFunc::Cd);
    map.insert("y".to_string(), InternalFunc::Cd);
    map.insert("x".to_string(), InternalFunc::Clear);
    assert_eq!(map.get("x"), Some(InternalFunc::Clear));
    assert_eq!(map.get("y"), Some(InternalFunc::Cd));
}

#[test]
fn clear_asks_for_the_screen_to_be_cleared() {
    assert_eq!(clear(parsed("clear")), Ok(Effect::Write("\x1b[2J\x1b[H".to_string())));
    assert_eq!(clear(parsed("clear x y")), Ok(Effect::Write("\x1b[2J\x1b[H".to_string())));
}

#[test]
fn cd_without_an_argument_goes_home() {
    assert_eq!(cd(parsed("cd"), &home()), Ok(Effect::ChangeDir("/home/me".to_string())));
}

#[test]
fn cd_without_an_argument_and_without_a_home_fails() {
    assert_eq!(
        cd(parsed("cd"), &VarMap::new()),
        Err(CommandError::Custom {
            prog_name: "cd".to_string(),
            message: "No Argument provided".to_string(),
            status: 1,
        })
    );
}

#[test]
fn cd_goes_to_its_first_argument() {
    assert_eq!(cd(parsed("cd /tmp /usr"), &home()), Ok(Effect::ChangeDir("/tmp".to_string())));
    assert_eq!(cd(parsed("cd /tmp"), &VarMap::new()), Ok(Effect::ChangeDir("/tmp".to_string())));
}

#[test]
fn cd_replaces_every_tilde_by_home() {
    assert_eq!(cd(parsed("cd ~"), &home()), Ok(Effect::ChangeDir("/home/me".to_string())));
    assert_eq!(
        cd(parsed("cd ~/src"), &home()),
        Ok(Effect::ChangeDir("/home/me/src".to_string()))
    );
    assert_eq!(
        cd(parsed("cd ~/a~b"), &home()),
        Ok(Effect::ChangeDir("/home/me/a/home/meb".to_string()))
    );
}

#[test]
fn cd_keeps_the_tilde_without_a_home() {
    assert_eq!(cd(parsed("cd ~/src"), &VarMap::new()), Ok(Effect::ChangeDir("~/src".to_string())));
}

#[test]
fn a_built_in_that_was_carried_out_exits_with_zero() {
    assert_eq!(finish(InternalFunc::Cd, Ok(())), Ok(0));
    assert_eq!(finish(InternalFunc::Clear, Ok(())), Ok(0));
}

#[test]
fn a_failed_change_of_directory_is_a_custom_error() {
    assert_eq!(
        finish(InternalFunc::Cd, Err("No such file or directory (os error 2)".to_string())),
        Err(CommandError::Custom {
            prog_name: "cmd".to_string(),
            message: "No such file or directory (os error 2)".to_string(),
            status: 1,
        })
    );
}

#[test]
fn a_failed_flush_is_an_io_error() {
    assert_eq!(
        finish(InternalFunc::Clear, Err("broken pipe".to_string())),
        Err(CommandError::IOError("broken pipe".to_string()))
    );
}

#[test]
fn a_program_that_ran_gives_its_status() {
    assert_eq!(run(parsed("ls"), ChildOutcome::Exited(0)), Ok(0));
    assert_eq!(run(parsed("false"), ChildOutcome::Exited(1)), Ok(1));
    assert_eq!(run(parsed("x"), ChildOutcome::Exited(-1)), Ok(-1));
}

#[test]
fn a_program_that_could_not_be_started_is_status_127() {
    assert_eq!(
        run(parsed("A=1 nosuch -x"), ChildOutcome::SpawnFailed("not found".to_string())),
        Err(CommandError::ChildSpawnError("not found".to_string(), "nosuch".to_string(), 127))
    );
}

#[test]
fn a_program_that_could_not_be_waited_for_is_status_130() {
    assert_eq!(
        run(parsed("sleep 1"), ChildOutcome::WaitFailed("interrupted".to_string())),
        Err(CommandError::ChildExit("interrupted".to_string(), 130))
    );
}

#[test]
fn error_texts() {
    assert_eq!(CommandError::IOError("oops".to_string()).to_string(), "[io]: oops".to_string());
    assert_eq!(
        CommandError::Custom {
            prog_name: "cd".to_string(),
            message: "nope".to_string(),
            status: 1
        }
        .to_string(),
        "[cd]: nope".to_string()
    );
    assert_eq!(
        CommandError::ChildSpawnError("not found".to_string(), "prog".to_string(), 127)
            .to_string(),
        "[prog]: Unable to launch this program\nCause: not found".to_string()
    );
    assert_eq!(CommandError::ChildExit("gone".to_string(), 130).to_string(), "".to_string());
}

#[test]
fn error_statuses() {
    assert_eq!(CommandError::IOError("oops".to_string()).status(), 1);
    assert_eq!(
        CommandError::Custom { prog_name: "x".to_string(), message: "y".to_string(), status: 7 }
            .status(),
        7
    );
    assert_eq!(CommandError::ChildSpawnError("a".to_string(), "b".to_string(), 127).status(), 127);
    assert_eq!(CommandError::ChildExit("a".to_string(), 130).status(), 130);
}
