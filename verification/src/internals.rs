//! The built-in commands and the rules for running an external program.
//!
//! Nothing here performs the work on the operating system. A built-in says
//! what is to be done, as an `Effect`; the caller does it and reports back,
//! and `finish` and `run` turn the report into an exit status or an error.

use vstd::prelude::*;
use crate::cmd::{texts, Cmd};
use crate::vars::VarMap;

pub use crate::error::CommandError;

verus! {

/// The built-in commands.
#[derive(Debug, Clone, Copy, PartialEq, Eq, Structural)]
pub enum InternalFunc {
    Clear,
    Cd,
}

/// The map that a list of registrations denotes, later ones winning.
pub open spec fn registry_of(entries: Seq<(Seq<char>, InternalFunc)>) -> Map<
    Seq<char>,
    InternalFunc,
>
    decreases entries.len(),
{
    if entries.len() == 0 {
        Map::empty()
    } else {
        registry_of(entries.drop_last()).insert(entries.last().0, entries.last().1)
    }
}

/// The registry of built-ins by name.
#[derive(Debug)]
pub struct InternalFuncMap {
    entries: Vec<(String, InternalFunc)>,
}

impl View for InternalFuncMap {
    type V = Map<Seq<char>, InternalFunc>;

    closed spec fn view(&self) -> Map<Seq<char>, InternalFunc> {
        registry_of(Seq::new(self.entries.len() as nat, |i: int| (self.entries[i].0@, self.entries[i].1)))
    }
}

impl InternalFuncMap {
    /// An empty registry.
    pub fn new() -> (map: Self)
        ensures
            map@ == Map::<Seq<char>, InternalFunc>::empty(),
    {
        Self { entries: Vec::new() }
    }

    /// Registers `func` under `name`, in place of what was there.
    pub fn insert(&mut self, name: String, func: InternalFunc)
        ensures
            final(self)@ == old(self)@.insert(name@, func),
    {
        let ghost before = Seq::new(
            self.entries.len() as nat,
            |i: int| (self.entries[i].0@, self.entries[i].1),
        );
        self.entries.push((name, func));
        assert(Seq::new(
            self.entries.len() as nat,
            |i: int| (self.entries[i].0@, self.entries[i].1),
        ).drop_last() == before);
    }

    /// The built-in registered under `name`, if any.
    pub fn get(&self, name: &str) -> (func: Option<InternalFunc>)
        ensures
            func == (if self@.contains_key(name@) {
                Some(self@[name@])
            } else {
                None
            }),
    {
        let key = name.to_owned();
        let ghost all = Seq::new(
            self.entries.len() as nat,
            |i: int| (self.entries[i].0@, self.entries[i].1),
        );
        let mut at: usize = self.entries.len();
        assert(all.take(at as int) == all);
        while at > 0
            invariant
                at <= self.entries.len(),
                key@ == name@,
                all == Seq::new(
                    self.entries.len() as nat,
                    |i: int| (self.entries[i].0@, self.entries[i].1),
                ),
                registry_of(all).contains_key(name@) == registry_of(
                    all.take(at as int),
                ).contains_key(name@),
                registry_of(all).contains_key(name@) ==> registry_of(all)[name@] == registry_of(
                    all.take(at as int),
                )[name@],
            decreases at,
        {
            at -= 1;
            assert(all.take(at + 1).drop_last() == all.take(at as int));
            assert(all.take(at + 1).last() == all[at as int]);
            if self.entries[at].0 == key {
                return Some(self.entries[at].1);
            }
        }
        None
    }
}

/// The registry of all built-ins: `clear` and `cd`.
pub open spec fn builtin_registry() -> Map<Seq<char>, InternalFunc> {
    Map::<Seq<char>, InternalFunc>::empty().insert("clear"@, InternalFunc::Clear).insert(
        "cd"@,
        InternalFunc::Cd,
    )
}

/// The registry with every built-in under its name.
pub fn get_internal_functions_map() -> (map: InternalFuncMap)
    ensures
        map@ == builtin_registry(),
{
    let mut map = InternalFuncMap::new();
    map.insert("clear".to_owned(), InternalFunc::Clear);
    map.insert("cd".to_owned(), InternalFunc::Cd);
    map
}

/// What a built-in asks its caller to do.
#[derive(Debug, PartialEq, Eq)]
pub enum Effect {
    /// Write the text to standard output and flush.
    Write(String),
    /// Make the directory the working directory.
    ChangeDir(String),
}

/// An effect as a mathematical value.
pub enum EffectModel {
    Write(Seq<char>),
    ChangeDir(Seq<char>),
}

impl View for Effect {
    type V = EffectModel;

    open spec fn view(&self) -> EffectModel {
        match self {
            Effect::Write(text) => EffectModel::Write(text@),
            Effect::ChangeDir(path) => EffectModel::ChangeDir(path@),
        }
    }
}

/// The exit status of a built-in that failed.
pub const BUILTIN_FAILURE_STATUS: i32 = 1;

/// The exit status for a program that could not be started.
pub const SPAWN_FAILURE_STATUS: i32 = 127;

/// The exit status for a program that could not be waited for.
pub const WAIT_FAILURE_STATUS: i32 = 130;

/// The control sequences that clear the screen and bring the cursor home.
pub open spec fn clear_screen_seq() -> Seq<char> {
    "\x1b[2J\x1b[H"@
}

/// `path` with every `~` replaced by `home`.
pub open spec fn replace_tilde(path: Seq<char>, home: Seq<char>) -> Seq<char>
    decreases path.len(),
{
    if path.len() == 0 {
        Seq::empty()
    } else if path[0] == '~' {
        home + replace_tilde(path.drop_first(), home)
    } else {
        seq![path[0]] + replace_tilde(path.drop_first(), home)
    }
}

/// Where `cd` goes. Without an argument it goes to `HOME`, and nowhere if
/// `HOME` is not bound. With arguments it goes to the first, in which
/// every `~` stands for the value of `HOME` if that is bound.
pub open spec fn cd_target(args: Seq<Seq<char>>, env: Map<Seq<char>, Seq<char>>) -> Option<
    Seq<char>,
> {
    if args.len() == 0 {
        if env.contains_key("HOME"@) {
            Some(env["HOME"@])
        } else {
            None
        }
    } else if env.contains_key("HOME"@) {
        Some(replace_tilde(args[0], env["HOME"@]))
    } else {
        Some(args[0])
    }
}

/// The `clear` built-in: asks for the screen to be cleared.
pub fn clear(_cmd: Cmd) -> (result: Result<Effect, CommandError>)
    ensures
        result matches Ok(effect) && effect@ == EffectModel::Write(clear_screen_seq()),
{
    Ok(Effect::Write("\x1b[2J\x1b[H".to_owned()))
}

/// The `cd` built-in: asks for the working directory to be changed, or
/// fails when there is nowhere to go.
pub fn cd(cmd: Cmd, env: &VarMap) -> (result: Result<Effect, CommandError>)
    ensures
        match cd_target(cmd@.args, env@) {
            Some(path) => result matches Ok(effect) && effect@ == EffectModel::ChangeDir(path),
            None => result matches Err(CommandError::Custom { prog_name, message, status })
                && prog_name@ == "cd"@ && message@ == "No Argument provided"@ && status
                == BUILTIN_FAILURE_STATUS,
        },
{
    let Cmd { args, .. } = cmd;
    let home = env.get("HOME");
    if args.len() == 0 {
        match home {
            Some(dir_path) => Ok(Effect::ChangeDir(dir_path.clone())),
            None => Err(
                CommandError::Custom {
                    prog_name: "cd".to_owned(),
                    message: "No Argument provided".to_owned(),
                    status: BUILTIN_FAILURE_STATUS,
                },
            ),
        }
    } else {
        assert(texts(args@)[0] == args[0]@);
        match home {
            Some(home) => {
                let path = crate::text::chars_of(args[0].as_str());
                let mut dir_path = String::new();
                let mut at: usize = 0;
                assert(path@.skip(0) == path@);
                while at < path.len()
                    invariant
                        at <= path.len(),
                        dir_path@ + replace_tilde(path@.skip(at as int), home@) == replace_tilde(
                            path@,
                            home@,
                        ),
                    decreases path.len() - at,
                {
                    let ghost before = dir_path@;
                    let ghost rest = replace_tilde(path@.skip(at + 1), home@);
                    assert(path@.skip(at as int).drop_first() == path@.skip(at + 1));
                    if path[at] == '~' {
                        dir_path.append(home.as_str());
                        assert(before + (home@ + rest) == (before + home@) + rest);
                    } else {
                        dir_path.push(path[at]);
                        assert(before + (seq![path@[at as int]] + rest) == before.push(
                            path@[at as int],
                        ) + rest);
                    }
                    at += 1;
                }
                assert(dir_path@ + Seq::<char>::empty() == dir_path@);
                Ok(Effect::ChangeDir(dir_path))
            },
            None => Ok(Effect::ChangeDir(args[0].clone())),
        }
    }
}

/// The result of a built-in whose effect was carried out: `outcome` is
/// `Ok`, or the text of the error that the operating system gave.
pub fn finish(func: InternalFunc, outcome: Result<(), String>) -> (result: Result<
    i32,
    CommandError,
>)
    ensures
        match outcome {
            Ok(_) => result == Ok::<i32, CommandError>(0),
            Err(cause) => match func {
                InternalFunc::Clear => result == Err::<i32, CommandError>(
                    CommandError::IOError(cause),
                ),
                InternalFunc::Cd => result matches Err(
                    CommandError::Custom { prog_name, message, status },
                ) && prog_name@ == "cmd"@ && message == cause && status
                    == BUILTIN_FAILURE_STATUS,
            },
        },
{
    match outcome {
        Ok(_) => Ok(0),
        Err(cause) => match func {
            InternalFunc::Clear => Err(CommandError::IOError(cause)),
            InternalFunc::Cd => Err(
                CommandError::Custom {
                    prog_name: "cmd".to_owned(),
                    message: cause,
                    status: BUILTIN_FAILURE_STATUS,
                },
            ),
        },
    }
}

/// How the attempt to run a program ended.
#[derive(Debug, PartialEq, Eq)]
pub enum ChildOutcome {
    /// The program could not be started; holds the cause.
    SpawnFailed(String),
    /// The program was started but could not be waited for; holds the cause.
    WaitFailed(String),
    /// The program ran and exited with this status.
    Exited(i32),
}

/// The result of running `cmd` as an external program, given how the
/// attempt ended.
pub fn run(cmd: Cmd, outcome: ChildOutcome) -> (result: Result<i32, CommandError>)
    ensures
        match outcome {
            ChildOutcome::Exited(status) => result == Ok::<i32, CommandError>(status),
            ChildOutcome::WaitFailed(cause) => result == Err::<i32, CommandError>(
                CommandError::ChildExit(cause, WAIT_FAILURE_STATUS),
            ),
            ChildOutcome::SpawnFailed(cause) => result == Err::<i32, CommandError>(
                CommandError::ChildSpawnError(cause, cmd.name, SPAWN_FAILURE_STATUS),
            ),
        },
{
    let Cmd { name, .. } = cmd;
    match outcome {
        ChildOutcome::Exited(status) => Ok(status),
        ChildOutcome::WaitFailed(cause) => Err(CommandError::ChildExit(cause, WAIT_FAILURE_STATUS)),
        ChildOutcome::SpawnFailed(cause) => Err(
            CommandError::ChildSpawnError(cause, name, SPAWN_FAILURE_STATUS),
        ),
    }
}

} // verus!
