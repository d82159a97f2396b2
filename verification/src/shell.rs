//! The shell loop as a state machine.
//!
//! The loop itself runs outside the library: it reads keys, writes text and
//! starts programs. What it is to do next is decided here, from the state of
//! the shell and what just happened.

use vstd::prelude::*;
use crate::cmd::{parse, Cmd, CmdModel, CmdParser};
use crate::editor::{Outcome, OutcomeModel};
use crate::env::{
    apply_op, apply_ops, lemma_environment_restored, reset_ops, set_ops, EnvOp, EnvOpModel,
};
use crate::error::{CmdParsingError, CommandError};
use crate::internals::{
    builtin_registry, get_internal_functions_map, InternalFunc, InternalFuncMap,
};
use crate::lexer::LexError;
use crate::term::{bar_cursor, bar_cursor_seq};
use crate::text::{signed_decimal, signed_decimal_string};
use crate::vars::{map_of, VarMap};

verus! {

/// Whether the loop goes on.
#[derive(Debug, Clone, Copy, PartialEq, Eq, Structural)]
pub enum ShellState {
    Running,
    /// The loop is over; no state follows this one.
    Stopping,
}

/// What the loop is to do after an event.
#[derive(Debug)]
pub enum Dispatch {
    /// Nothing: go on reading keys.
    Wait,
    /// Nothing: the line held no command. Show the prompt again.
    Skip,
    /// Leave the loop.
    Exit,
    /// Leave the loop because the input could not be lexed.
    Fatal(LexError),
    /// Report that the line could not be parsed.
    Invalid(CmdParsingError),
    /// Run the built-in.
    Internal(InternalFunc, Cmd),
    /// Run the command as an external program.
    External(Cmd),
}

/// A dispatch as a mathematical value.
pub enum DispatchModel {
    Wait,
    Skip,
    Exit,
    Fatal(LexError),
    Invalid(CmdParsingError),
    Internal(InternalFunc, CmdModel),
    External(CmdModel),
}

impl View for Dispatch {
    type V = DispatchModel;

    open spec fn view(&self) -> DispatchModel {
        match self {
            Dispatch::Wait => DispatchModel::Wait,
            Dispatch::Skip => DispatchModel::Skip,
            Dispatch::Exit => DispatchModel::Exit,
            Dispatch::Fatal(error) => DispatchModel::Fatal(*error),
            Dispatch::Invalid(error) => DispatchModel::Invalid(*error),
            Dispatch::Internal(func, cmd) => DispatchModel::Internal(*func, cmd@),
            Dispatch::External(cmd) => DispatchModel::External(cmd@),
        }
    }
}

/// What a signal handler is to do.
#[derive(Debug, Clone, Copy, PartialEq, Eq, Structural)]
pub enum SignalAction {
    /// Return to the interrupted code.
    Ignore,
    /// Record whether a stop was asked for, then end the process.
    Terminate { need_stop: bool },
}

/// The name under which the last exit status is published.
pub open spec fn status_name() -> Seq<char> {
    "status"@
}

/// The name under which the host name is published.
pub open spec fn host_name() -> Seq<char> {
    "hostname"@
}

/// The name of the variable that holds the user's name.
pub open spec fn user_name() -> Seq<char> {
    "USERNAME"@
}

/// The value of `name` in `env`, or the empty text.
pub open spec fn value_or_empty(env: Map<Seq<char>, Seq<char>>, name: Seq<char>) -> Seq<char> {
    if env.contains_key(name) {
        env[name]
    } else {
        Seq::empty()
    }
}

/// The prompt: `<user>@<host> [<status>] `.
pub open spec fn prompt_text(env: Map<Seq<char>, Seq<char>>, status: int) -> Seq<char> {
    value_or_empty(env, user_name()) + "@"@ + value_or_empty(env, host_name()) + " ["@
        + signed_decimal(status) + "] "@
}

/// What a completed line asks for. A line without a command name is
/// skipped, `exit` leaves the loop, a registered name is a built-in, and
/// every other name is an external program.
pub open spec fn dispatch_of(
    registry: Map<Seq<char>, InternalFunc>,
    line: Seq<char>,
    env: Map<Seq<char>, Seq<char>>,
) -> DispatchModel {
    let cmd = parse(line, env);
    if line.len() > u32::MAX {
        DispatchModel::Invalid(CmdParsingError::LineTooLong)
    } else if cmd.name.len() == 0 {
        DispatchModel::Skip
    } else if cmd.name == "exit"@ {
        DispatchModel::Exit
    } else if registry.contains_key(cmd.name) {
        DispatchModel::Internal(registry[cmd.name], cmd)
    } else {
        DispatchModel::External(cmd)
    }
}

/// What the outcome of a key asks for.
pub open spec fn reaction_of(
    registry: Map<Seq<char>, InternalFunc>,
    outcome: OutcomeModel,
    env: Map<Seq<char>, Seq<char>>,
) -> DispatchModel {
    match outcome {
        OutcomeModel::Editing => DispatchModel::Wait,
        OutcomeModel::Quit => DispatchModel::Exit,
        OutcomeModel::Failed(error) => DispatchModel::Fatal(error),
        OutcomeModel::Line(line) => dispatch_of(registry, line, env),
    }
}

/// Whether a dispatch ends the loop.
pub open spec fn ends_loop(dispatch: DispatchModel) -> bool {
    dispatch is Exit || dispatch is Fatal
}

/// A line whose command is `exit` asks to leave the loop and for nothing
/// to be run, whatever its assignments and arguments are and whatever is
/// registered.
pub proof fn lemma_exit_is_never_run(
    registry: Map<Seq<char>, InternalFunc>,
    line: Seq<char>,
    env: Map<Seq<char>, Seq<char>>,
)
    requires
        line.len() <= u32::MAX,
        parse(line, env).name == "exit"@,
    ensures
        dispatch_of(registry, line, env) == DispatchModel::Exit,
        ends_loop(reaction_of(registry, OutcomeModel::Line(line), env)),
{
    reveal_strlit("exit");
}

/// Running an external command changes nothing in the environment but the
/// published status: after the overlay, the reset from the snapshot taken
/// before it, and the publishing of the status, every other name is bound
/// as it was before.
pub proof fn lemma_only_the_status_changes(
    env: Map<Seq<char>, Seq<char>>,
    overrides: Seq<(Seq<char>, Seq<char>)>,
    snapshot: Seq<(Seq<char>, Seq<char>)>,
    status: int,
)
    requires
        map_of(snapshot) == env,
    ensures
        apply_op(
            apply_ops(apply_ops(env, set_ops(overrides)), reset_ops(overrides, snapshot)),
            EnvOpModel::Assign(status_name(), signed_decimal(status)),
        ) == env.insert(status_name(), signed_decimal(status)),
{
    lemma_environment_restored(env, overrides, snapshot);
}

/// The exit status that a result stands for.
pub open spec fn status_of(result: Result<i32, CommandError>) -> i32 {
    match result {
        Ok(status) => status,
        Err(error) => error.spec_status(),
    }
}

/// The state of the shell loop.
#[derive(Debug)]
pub struct Shell {
    internals: Option<InternalFuncMap>,
    state: ShellState,
    last_status: i32,
}

impl Shell {
    /// Whether the loop goes on.
    pub closed spec fn spec_state(&self) -> ShellState {
        self.state
    }

    /// The exit status of the last command.
    pub closed spec fn spec_status(&self) -> i32 {
        self.last_status
    }

    /// The registry of built-ins; empty until the shell is started.
    pub closed spec fn registry(&self) -> Map<Seq<char>, InternalFunc> {
        match self.internals {
            Some(map) => map@,
            None => Map::empty(),
        }
    }

    /// A running shell with status 0 and no built-ins registered yet.
    pub fn new() -> (shell: Self)
        ensures
            shell.registry() == Map::<Seq<char>, InternalFunc>::empty(),
            shell.spec_state() == ShellState::Running,
            shell.spec_status() == 0,
    {
        Self { internals: None, state: ShellState::Running, last_status: 0 }
    }

    /// Whether the loop goes on.
    pub fn state(&self) -> (state: ShellState)
        ensures
            state == self.spec_state(),
    {
        self.state
    }

    /// The exit status of the last command.
    pub fn status(&self) -> (status: i32)
        ensures
            status == self.spec_status(),
    {
        self.last_status
    }

    /// Registers the built-ins and gives the text that sets up the cursor.
    pub fn start(&mut self) -> (text: String)
        ensures
            text@ == bar_cursor_seq(),
            final(self).registry() == builtin_registry(),
            final(self).spec_state() == old(self).spec_state(),
            final(self).spec_status() == old(self).spec_status(),
    {
        self.internals = Some(get_internal_functions_map());
        bar_cursor()
    }

    /// The prompt for the next line.
    pub fn prompt(&self, env: &VarMap) -> (text: String)
        ensures
            text@ == prompt_text(env@, self.spec_status() as int),
    {
        let mut text = String::new();
        match env.get("USERNAME") {
            Some(user) => {
                text.append(user.as_str());
            },
            None => {},
        }
        text.append("@");
        match env.get("hostname") {
            Some(host) => {
                text.append(host.as_str());
            },
            None => {},
        }
        text.append(" [");
        let status = signed_decimal_string(self.last_status);
        text.append(status.as_str());
        text.append("] ");
        assert(text@ == prompt_text(env@, self.spec_status() as int));
        text
    }

    /// Decides what a completed line asks for. `exit` stops the shell here
    /// and now; nothing else changes its state.
    pub fn dispatch(&mut self, line: &str, env: &VarMap) -> (dispatch: Dispatch)
        ensures
            dispatch@ == dispatch_of(old(self).registry(), line@, env@),
            final(self).spec_state() == (if dispatch@ is Exit {
                ShellState::Stopping
            } else {
                old(self).spec_state()
            }),
            final(self).spec_status() == old(self).spec_status(),
            final(self).registry() == old(self).registry(),
    {
        let cmd = match CmdParser::parse(line, env) {
            Ok(mut cmds) => {
                match cmds.pop() {
                    Some(cmd) => cmd,
                    None => {
                        return Dispatch::Skip;
                    },
                }
            },
            Err(error) => {
                return Dispatch::Invalid(error);
            },
        };
        if cmd.name.as_str().unicode_len() == 0 {
            return Dispatch::Skip;
        }
        if cmd.name == "exit".to_owned() {
            self.state = ShellState::Stopping;
            return Dispatch::Exit;
        }
        let found = match &self.internals {
            Some(map) => map.get(cmd.name.as_str()),
            None => None,
        };
        match found {
            Some(func) => Dispatch::Internal(func, cmd),
            None => Dispatch::External(cmd),
        }
    }

    /// Decides what the outcome of a key asks for. A request to quit and a
    /// line that cannot be lexed stop the shell.
    pub fn step(&mut self, outcome: Outcome, env: &VarMap) -> (dispatch: Dispatch)
        ensures
            dispatch@ == reaction_of(old(self).registry(), outcome@, env@),
            final(self).spec_state() == (if ends_loop(dispatch@) {
                ShellState::Stopping
            } else {
                old(self).spec_state()
            }),
            final(self).spec_status() == old(self).spec_status(),
            final(self).registry() == old(self).registry(),
    {
        match outcome {
            Outcome::Editing => Dispatch::Wait,
            Outcome::Quit => {
                self.state = ShellState::Stopping;
                Dispatch::Exit
            },
            Outcome::Failed(error) => {
                self.state = ShellState::Stopping;
                Dispatch::Fatal(error)
            },
            Outcome::Line(line) => self.dispatch(line.as_str(), env),
        }
    }

    /// Stops the shell: the input has ended or a stop was asked for from
    /// outside.
    pub fn stop(&mut self)
        ensures
            final(self).spec_state() == ShellState::Stopping,
            final(self).spec_status() == old(self).spec_status(),
            final(self).registry() == old(self).registry(),
    {
        self.state = ShellState::Stopping;
    }

    /// Looks at the stop flag at the top of an iteration: a stop that was
    /// asked for stops the shell, and nothing else changes.
    pub fn poll(&mut self, need_stop: bool) -> (state: ShellState)
        ensures
            state == final(self).spec_state(),
            final(self).spec_state() == (if need_stop {
                ShellState::Stopping
            } else {
                old(self).spec_state()
            }),
            final(self).spec_status() == old(self).spec_status(),
            final(self).registry() == old(self).registry(),
    {
        if need_stop {
            self.state = ShellState::Stopping;
        }
        self.state
    }

    /// Records the result of the command that was run and gives the change
    /// that publishes its exit status.
    pub fn finish(&mut self, result: &Result<i32, CommandError>) -> (publish: EnvOp)
        ensures
            final(self).spec_status() == status_of(*result),
            final(self).spec_state() == old(self).spec_state(),
            final(self).registry() == old(self).registry(),
            publish@ == EnvOpModel::Assign(
                status_name(),
                signed_decimal(status_of(*result) as int),
            ),
    {
        let status = match result {
            Ok(status) => *status,
            Err(error) => error.status(),
        };
        self.last_status = status;
        EnvOp::Assign("status".to_owned(), signed_decimal_string(status))
    }
}

/// What `str::trim` of the standard library leaves of `text`: the text
/// without the white space at its two ends.
pub uninterp spec fn trimmed(text: Seq<char>) -> Seq<char>;

/// `str::trim` of the standard library.
#[verifier::external_body]
fn trim(text: &str) -> (rest: &str)
    ensures
        rest@ == trimmed(text@),
{
    text.trim()
}

/// The change that publishes `host` as the host name.
pub fn publish_host(host: &str) -> (publish: EnvOp)
    ensures
        publish@ == EnvOpModel::Assign(host_name(), host@),
{
    EnvOp::Assign("hostname".to_owned(), host.to_owned())
}

/// The change that publishes the host name found in `content`, the text of
/// the host-identity file. An empty text publishes nothing.
pub fn host_binding(content: &str) -> (publish: Option<EnvOp>)
    ensures
        match publish {
            Some(op) => content@.len() > 0 && op@ == EnvOpModel::Assign(
                host_name(),
                trimmed(content@),
            ),
            None => content@.len() == 0,
        },
{
    if content.unicode_len() == 0 {
        None
    } else {
        Some(publish_host(trim(content)))
    }
}

/// What a handler for the hang-up and interrupt signals is to do: nothing
/// while stopping is not allowed, and otherwise record whether it was a
/// hang-up and end the process.
pub fn on_signal(can_stop: bool, hangup: bool) -> (action: SignalAction)
    ensures
        action == (if can_stop {
            SignalAction::Terminate { need_stop: hangup }
        } else {
            SignalAction::Ignore
        }),
{
    if can_stop {
        SignalAction::Terminate { need_stop: hangup }
    } else {
        SignalAction::Ignore
    }
}

} // verus!
