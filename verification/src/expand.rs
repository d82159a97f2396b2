//! Quote stripping and `$NAME` expansion of one raw argument.
//!
//! Expansion is a three-state machine over the characters of the argument:
//! ordinary text, the name after a `$`, and the character after a `\`.

use vstd::prelude::*;
use crate::text::{chars_of, string_of};
use crate::vars::VarMap;

verus! {

/// Where the expander stands between two characters.
pub enum ExpandState {
    /// Ordinary text.
    Next,
    /// Inside a variable name; holds the characters read since the `$`.
    ParsingVarName(Seq<char>),
    /// Just after an escaping `\`.
    Escaped,
}

/// The characters a variable name is made of: ASCII letters, ASCII digits and `_`.
pub open spec fn is_name_char(c: char) -> bool {
    ('a' <= c <= 'z') || ('A' <= c <= 'Z') || ('0' <= c <= '9') || c == '_'
}

/// The value of `name`: the override if there is one, else the environment's
/// value, else the empty string.
pub open spec fn resolve(
    overrides: Map<Seq<char>, Seq<char>>,
    env: Map<Seq<char>, Seq<char>>,
    name: Seq<char>,
) -> Seq<char> {
    if overrides.contains_key(name) {
        overrides[name]
    } else if env.contains_key(name) {
        env[name]
    } else {
        Seq::empty()
    }
}

/// One transition: the next state and the text that reading `c` appends.
pub open spec fn expand_step(
    overrides: Map<Seq<char>, Seq<char>>,
    env: Map<Seq<char>, Seq<char>>,
    state: ExpandState,
    c: char,
) -> (ExpandState, Seq<char>) {
    match state {
        ExpandState::Next => {
            if c == '$' {
                (ExpandState::ParsingVarName(Seq::empty()), Seq::empty())
            } else if c == '\\' {
                (ExpandState::Escaped, Seq::empty())
            } else {
                (ExpandState::Next, seq![c])
            }
        },
        ExpandState::Escaped => (ExpandState::Next, seq![c]),
        ExpandState::ParsingVarName(name) => {
            if c == '$' {
                (ExpandState::ParsingVarName(Seq::empty()), resolve(overrides, env, name))
            } else if c == '\\' {
                (ExpandState::Escaped, resolve(overrides, env, name))
            } else if is_name_char(c) {
                (ExpandState::ParsingVarName(name.push(c)), Seq::empty())
            } else {
                (ExpandState::Next, resolve(overrides, env, name).push(c))
            }
        },
    }
}

/// What the end of the input appends: a pending name is resolved, and a
/// dangling `\` is kept as it stands.
pub open spec fn expand_flush(
    overrides: Map<Seq<char>, Seq<char>>,
    env: Map<Seq<char>, Seq<char>>,
    state: ExpandState,
) -> Seq<char> {
    match state {
        ExpandState::Next => Seq::empty(),
        ExpandState::Escaped => seq!['\\'],
        ExpandState::ParsingVarName(name) => resolve(overrides, env, name),
    }
}

/// The text produced by running the machine from `state` over `input`.
pub open spec fn expand_from(
    overrides: Map<Seq<char>, Seq<char>>,
    env: Map<Seq<char>, Seq<char>>,
    state: ExpandState,
    input: Seq<char>,
) -> Seq<char>
    decreases input.len(),
{
    if input.len() == 0 {
        expand_flush(overrides, env, state)
    } else {
        let (next, appended) = expand_step(overrides, env, state, input[0]);
        appended + expand_from(overrides, env, next, input.drop_first())
    }
}

/// The expansion of `arg`.
pub open spec fn expand(
    overrides: Map<Seq<char>, Seq<char>>,
    env: Map<Seq<char>, Seq<char>>,
    arg: Seq<char>,
) -> Seq<char> {
    expand_from(overrides, env, ExpandState::Next, arg)
}

/// Whether `text` holds neither `$` nor `\`.
pub open spec fn is_plain(text: Seq<char>) -> bool {
    forall|i: int| 0 <= i < text.len() ==> text[i] != '$' && text[i] != '\\'
}

/// Whether `text` is made of name characters only.
pub open spec fn is_name(text: Seq<char>) -> bool {
    forall|i: int| 0 <= i < text.len() ==> is_name_char(#[trigger] text[i])
}

/// Plain text at the head of the input is copied, and expansion goes on
/// behind it.
pub proof fn lemma_plain_prefix(
    overrides: Map<Seq<char>, Seq<char>>,
    env: Map<Seq<char>, Seq<char>>,
    plain: Seq<char>,
    rest: Seq<char>,
)
    requires
        is_plain(plain),
    ensures
        expand_from(overrides, env, ExpandState::Next, plain + rest) == plain + expand_from(
            overrides,
            env,
            ExpandState::Next,
            rest,
        ),
    decreases plain.len(),
{
    if plain.len() == 0 {
        assert(plain + rest == rest);
        assert(plain + expand_from(overrides, env, ExpandState::Next, rest) == expand_from(
            overrides,
            env,
            ExpandState::Next,
            rest,
        ));
    } else {
        let input = plain + rest;
        let tail = plain.drop_first();
        assert(input[0] == plain[0]);
        assert(input.drop_first() == tail + rest);
        assert(is_plain(tail)) by {
            assert forall|i: int| 0 <= i < tail.len() implies tail[i] != '$' && tail[i]
                != '\\' by {
                assert(tail[i] == plain[i + 1]);
            }
        }
        lemma_plain_prefix(overrides, env, tail, rest);
        assert(seq![plain[0]] + (tail + expand_from(overrides, env, ExpandState::Next, rest))
            == plain + expand_from(overrides, env, ExpandState::Next, rest));
    }
}

/// Name characters at the head of the input extend the name under way.
pub proof fn lemma_name_prefix(
    overrides: Map<Seq<char>, Seq<char>>,
    env: Map<Seq<char>, Seq<char>>,
    begun: Seq<char>,
    name: Seq<char>,
    rest: Seq<char>,
)
    requires
        is_name(name),
    ensures
        expand_from(overrides, env, ExpandState::ParsingVarName(begun), name + rest)
            == expand_from(overrides, env, ExpandState::ParsingVarName(begun + name), rest),
    decreases name.len(),
{
    if name.len() == 0 {
        assert(name + rest == rest);
        assert(begun + name == begun);
    } else {
        let input = name + rest;
        let tail = name.drop_first();
        assert(input[0] == name[0]);
        assert(is_name_char(name[0]));
        assert(input.drop_first() == tail + rest);
        assert(is_name(tail)) by {
            assert forall|i: int| 0 <= i < tail.len() implies is_name_char(#[trigger] tail[i]) by {
                assert(tail[i] == name[i + 1]);
            }
        }
        lemma_name_prefix(overrides, env, begun.push(name[0]), tail, rest);
        assert(begun.push(name[0]) + tail == begun + name);
        assert(Seq::<char>::empty() + expand_from(
            overrides,
            env,
            ExpandState::ParsingVarName(begun.push(name[0])),
            tail + rest,
        ) == expand_from(
            overrides,
            env,
            ExpandState::ParsingVarName(begun.push(name[0])),
            tail + rest,
        ));
    }
}

/// Text without `$` and `\` expands to itself.
pub proof fn lemma_plain_text_expands_to_itself(
    overrides: Map<Seq<char>, Seq<char>>,
    env: Map<Seq<char>, Seq<char>>,
    text: Seq<char>,
)
    requires
        is_plain(text),
    ensures
        expand(overrides, env, text) == text,
{
    lemma_plain_prefix(overrides, env, text, Seq::empty());
    assert(text + Seq::<char>::empty() == text);
}

/// `$NAME` expands to the value of `NAME`: the override if there is one,
/// else the environment's value, else nothing.
pub proof fn lemma_variable_expands_to_its_value(
    overrides: Map<Seq<char>, Seq<char>>,
    env: Map<Seq<char>, Seq<char>>,
    name: Seq<char>,
)
    requires
        is_name(name),
    ensures
        expand(overrides, env, seq!['$'] + name) == resolve(overrides, env, name),
        !overrides.contains_key(name) && !env.contains_key(name) ==> expand(
            overrides,
            env,
            seq!['$'] + name,
        ) == Seq::<char>::empty(),
{
    let input = seq!['$'] + name;
    assert(input[0] == '$');
    assert(input.drop_first() == name);
    lemma_name_prefix(overrides, env, Seq::empty(), name, Seq::empty());
    assert(name + Seq::<char>::empty() == name);
    assert(Seq::<char>::empty() + name == name);
    assert(Seq::<char>::empty() + resolve(overrides, env, name) == resolve(overrides, env, name));
}

/// `$A$B` expands to the value of `A` followed by the value of `B`.
pub proof fn lemma_variables_back_to_back(
    overrides: Map<Seq<char>, Seq<char>>,
    env: Map<Seq<char>, Seq<char>>,
    first: Seq<char>,
    second: Seq<char>,
)
    requires
        is_name(first),
        is_name(second),
    ensures
        expand(overrides, env, seq!['$'] + first + seq!['$'] + second) == resolve(
            overrides,
            env,
            first,
        ) + resolve(overrides, env, second),
{
    let behind = seq!['$'] + second;
    let input = seq!['$'] + first + seq!['$'] + second;
    assert(input[0] == '$');
    assert(input.drop_first() == first + behind);
    lemma_name_prefix(overrides, env, Seq::empty(), first, behind);
    assert(Seq::<char>::empty() + first == first);
    assert(behind[0] == '$');
    assert(behind.drop_first() == second);
    lemma_name_prefix(overrides, env, Seq::empty(), second, Seq::empty());
    assert(second + Seq::<char>::empty() == second);
    assert(Seq::<char>::empty() + second == second);
    let tail = expand_from(overrides, env, ExpandState::ParsingVarName(Seq::empty()), second);
    assert(tail == resolve(overrides, env, second));
    assert(Seq::<char>::empty() + (resolve(overrides, env, first) + tail) == resolve(
        overrides,
        env,
        first,
    ) + tail);
}

/// A `\` behind a name ends the name and makes the next character literal:
/// `$NAME\c` followed by plain text expands to the value of `NAME`, then
/// `c`, then the plain text.
pub proof fn lemma_escape_ends_a_name(
    overrides: Map<Seq<char>, Seq<char>>,
    env: Map<Seq<char>, Seq<char>>,
    name: Seq<char>,
    c: char,
    plain: Seq<char>,
)
    requires
        is_name(name),
        is_plain(plain),
    ensures
        expand(overrides, env, seq!['$'] + name + seq!['\\', c] + plain) == resolve(
            overrides,
            env,
            name,
        ).push(c) + plain,
{
    let behind = seq!['\\', c] + plain;
    let input = seq!['$'] + name + seq!['\\', c] + plain;
    assert(input[0] == '$');
    assert(input.drop_first() == name + behind);
    lemma_name_prefix(overrides, env, Seq::empty(), name, behind);
    assert(Seq::<char>::empty() + name == name);
    assert(behind[0] == '\\');
    let escaped = behind.drop_first();
    assert(escaped[0] == c);
    assert(escaped.drop_first() == plain);
    lemma_plain_text_expands_to_itself(overrides, env, plain);
    let value = resolve(overrides, env, name);
    assert(expand_from(overrides, env, ExpandState::Escaped, escaped) == seq![c] + plain);
    assert(expand_from(overrides, env, ExpandState::ParsingVarName(name), behind) == value + (
    seq![c] + plain));
    assert(value + (seq![c] + plain) == value.push(c) + plain);
    assert(Seq::<char>::empty() + (value + (seq![c] + plain)) == value + (seq![c] + plain));
}

/// The expander's state as the running code holds it.
pub enum ArgReplacementState {
    ParsingVar(Vec<char>),
    IsEscaped,
    Next,
}

impl View for ArgReplacementState {
    type V = ExpandState;

    open spec fn view(&self) -> ExpandState {
        match self {
            ArgReplacementState::ParsingVar(name) => ExpandState::ParsingVarName(name@),
            ArgReplacementState::IsEscaped => ExpandState::Escaped,
            ArgReplacementState::Next => ExpandState::Next,
        }
    }
}

/// Whether `c` may stand in a variable name.
pub fn name_char(c: char) -> (yes: bool)
    ensures
        yes == is_name_char(c),
{
    ('a' <= c && c <= 'z') || ('A' <= c && c <= 'Z') || ('0' <= c && c <= '9') || c == '_'
}

/// Appends the value of `name` to `out`.
fn push_resolved(out: &mut String, override_maps: &VarMap, env: &VarMap, name: &Vec<char>)
    ensures
        final(out)@ == old(out)@ + resolve(override_maps@, env@, name@),
{
    let key = string_of(name);
    match override_maps.get(key.as_str()) {
        Some(value) => {
            out.append(value.as_str());
        },
        None => {
            match env.get(key.as_str()) {
                Some(value) => {
                    out.append(value.as_str());
                },
                None => {
                    assert(old(out)@ + Seq::<char>::empty() == old(out)@);
                },
            }
        },
    }
}

/// Expands every `$NAME` in `arg`. A name is looked up in `override_maps`
/// first and in `env` second, and expands to nothing when neither binds it.
/// A `\` makes the next character literal; a `\` at the very end is kept.
pub fn expand_vars_into_arg(override_maps: &VarMap, env: &VarMap, arg: &str) -> (final_arg: String)
    ensures
        final_arg@ == expand(override_maps@, env@, arg@),
{
    let chars = chars_of(arg);
    let mut final_arg = String::new();
    let mut state = ArgReplacementState::Next;
    let mut at: usize = 0;
    assert(chars@.skip(0) == chars@);
    while at < chars.len()
        invariant
            at <= chars.len(),
            chars@ == arg@,
            final_arg@ + expand_from(override_maps@, env@, state@, chars@.skip(at as int))
                == expand(override_maps@, env@, arg@),
        decreases chars.len() - at,
    {
        let character = chars[at];
        let ghost before = final_arg@;
        let ghost rest = chars@.skip(at as int);
        let ghost step = expand_step(override_maps@, env@, state@, character);
        proof {
            assert(rest[0] == character);
            assert(rest.drop_first() == chars@.skip(at + 1));
        }
        match state {
            ArgReplacementState::ParsingVar(mut name) => {
                if character == '$' {
                    push_resolved(&mut final_arg, override_maps, env, &name);
                    state = ArgReplacementState::ParsingVar(Vec::new());
                } else if character == '\\' {
                    push_resolved(&mut final_arg, override_maps, env, &name);
                    state = ArgReplacementState::IsEscaped;
                } else if name_char(character) {
                    name.push(character);
                    state = ArgReplacementState::ParsingVar(name);
                } else {
                    push_resolved(&mut final_arg, override_maps, env, &name);
                    final_arg.push(character);
                    state = ArgReplacementState::Next;
                }
            },
            ArgReplacementState::IsEscaped => {
                final_arg.push(character);
                state = ArgReplacementState::Next;
            },
            ArgReplacementState::Next => {
                if character == '$' {
                    state = ArgReplacementState::ParsingVar(Vec::new());
                } else if character == '\\' {
                    state = ArgReplacementState::IsEscaped;
                } else {
                    final_arg.push(character);
                    state = ArgReplacementState::Next;
                }
            },
        }
        at += 1;
        proof {
            assert(state@ == step.0);
            assert(final_arg@ == before + step.1);
            assert((before + step.1) + expand_from(
                override_maps@,
                env@,
                step.0,
                chars@.skip(at as int),
            ) == before + (step.1 + expand_from(
                override_maps@,
                env@,
                step.0,
                chars@.skip(at as int),
            )));
        }
    }
    assert(chars@.skip(at as int).len() == 0);
    match state {
        ArgReplacementState::ParsingVar(name) => {
            push_resolved(&mut final_arg, override_maps, env, &name);
        },
        ArgReplacementState::IsEscaped => {
            final_arg.push('\\');
        },
        ArgReplacementState::Next => {
            assert(final_arg@ + Seq::<char>::empty() == final_arg@);
        },
    }
    final_arg
}

/// Whether `text` is wrapped in a pair of matching quotes, single or double.
pub open spec fn is_quoted(text: Seq<char>) -> bool {
    text.len() >= 2 && (text[0] == '\'' || text[0] == '"') && text[text.len() - 1] == text[0]
}

/// `text` without its one outer layer of matching quotes, if it has one.
pub open spec fn strip_quotes(text: Seq<char>) -> Seq<char> {
    if is_quoted(text) {
        text.subrange(1, text.len() - 1)
    } else {
        text
    }
}

/// Text that is not wrapped in matching quotes passes through quote
/// stripping unchanged, however often it is applied.
pub proof fn lemma_unquoted_text_is_kept(text: Seq<char>)
    requires
        !is_quoted(text),
    ensures
        strip_quotes(text) == text,
        strip_quotes(strip_quotes(text)) == text,
{
}

/// Removes one layer of matching outer quotes from `s`. Text that does not
/// both begin and end with the same quote character is returned as it is.
pub fn string_match(s: &str) -> (stripped: String)
    ensures
        stripped@ == strip_quotes(s@),
{
    let chars = chars_of(s);
    let n = chars.len();
    if n >= 2 && (chars[0] == '\'' || chars[0] == '"') && chars[n - 1] == chars[0] {
        let mut stripped = String::new();
        let mut at: usize = 1;
        while at < n - 1
            invariant
                n == chars.len(),
                n >= 2,
                1 <= at <= n - 1,
                stripped@ == chars@.subrange(1, at as int),
            decreases n - at,
        {
            stripped.push(chars[at]);
            at += 1;
            assert(chars@.subrange(1, at as int) == chars@.subrange(1, at - 1).push(
                chars@[at - 1],
            ));
        }
        stripped
    } else {
        s.to_owned()
    }
}

} // verus!
