//! The command parser: from a line to its overrides, its name and its
//! expanded arguments.
//!
//! A line is cut at every single space. Empty parts are kept as they are, so
//! two spaces in a row yield an empty part between them.

use vstd::prelude::*;
use crate::error::CmdParsingError;
use crate::expand::{expand, strip_quotes};
use crate::text::{chars_of, string_of};
use crate::vars::VarMap;

pub use crate::expand::{expand_vars_into_arg, string_match};
pub use crate::token::{Col, Sym, Token};

verus! {

/// The parts of `text` from `at` on, cut at every `sep`, where the part
/// under way began at `start`.
pub open spec fn split_from(text: Seq<char>, sep: char, start: int, at: int) -> Seq<Seq<char>>
    decreases text.len() - at,
{
    if at < 0 || at >= text.len() {
        seq![text.subrange(start, text.len() as int)]
    } else if text[at] == sep {
        seq![text.subrange(start, at)] + split_from(text, sep, at + 1, at + 1)
    } else {
        split_from(text, sep, start, at + 1)
    }
}

/// The parts of `text` between the occurrences of `sep`. There is always at
/// least one part, and a part may be empty.
pub open spec fn split(text: Seq<char>, sep: char) -> Seq<Seq<char>> {
    split_from(text, sep, 0, 0)
}

/// The position of the first `c` in `text`, or its length if there is none.
pub open spec fn first_index_of(text: Seq<char>, c: char) -> int
    decreases text.len(),
{
    if text.len() == 0 || text[0] == c {
        0
    } else {
        1 + first_index_of(text.drop_first(), c)
    }
}

/// `first_index_of` is the least position that holds `c`.
pub proof fn lemma_first_index_of(text: Seq<char>, c: char)
    ensures
        0 <= first_index_of(text, c) <= text.len(),
        first_index_of(text, c) < text.len() ==> text[first_index_of(text, c)] == c,
        forall|i: int| 0 <= i < first_index_of(text, c) ==> text[i] != c,
    decreases text.len(),
{
    if text.len() > 0 && text[0] != c {
        let rest = text.drop_first();
        lemma_first_index_of(rest, c);
        assert forall|i: int| 0 <= i < first_index_of(text, c) implies text[i] != c by {
            if i > 0 {
                assert(text[i] == rest[i - 1]);
            }
        }
    }
}

/// Whether `part` is an assignment, that is, holds an `=`.
pub open spec fn is_assignment(part: Seq<char>) -> bool {
    first_index_of(part, '=') < part.len()
}

/// The name and the value of an assignment: what stands before and behind
/// its first `=`.
pub open spec fn assignment(part: Seq<char>) -> (Seq<char>, Seq<char>) {
    let at = first_index_of(part, '=');
    (part.take(at), part.skip(at + 1))
}

/// How many assignments stand at the head of `parts`.
pub open spec fn leading_assignments(parts: Seq<Seq<char>>) -> int
    decreases parts.len(),
{
    if parts.len() == 0 || !is_assignment(parts[0]) {
        0
    } else {
        1 + leading_assignments(parts.drop_first())
    }
}

/// The bindings that the first `n` parts make, later ones winning.
pub open spec fn overrides_of(parts: Seq<Seq<char>>, n: int) -> Map<Seq<char>, Seq<char>>
    decreases n,
{
    if n <= 0 {
        Map::empty()
    } else {
        overrides_of(parts, n - 1).insert(assignment(parts[n - 1]).0, assignment(parts[n - 1]).1)
    }
}

/// `parts` put together again with `sep` between them.
pub open spec fn join(parts: Seq<Seq<char>>, sep: char) -> Seq<char>
    decreases parts.len(),
{
    if parts.len() == 0 {
        Seq::empty()
    } else if parts.len() == 1 {
        parts[0]
    } else {
        parts[0] + seq![sep] + join(parts.drop_first(), sep)
    }
}

/// Whether `part` holds no `sep`.
pub open spec fn free_of(part: Seq<char>, sep: char) -> bool {
    forall|i: int| 0 <= i < part.len() ==> part[i] != sep
}

/// Cutting from `at` on, with a part under way that holds no `sep` so far,
/// gives parts without `sep` that join to the text from `start` on.
pub proof fn lemma_split_from(text: Seq<char>, sep: char, start: int, at: int)
    requires
        0 <= start <= at <= text.len(),
        forall|i: int| start <= i < at ==> text[i] != sep,
    ensures
        split_from(text, sep, start, at).len() >= 1,
        forall|k: int|
            0 <= k < split_from(text, sep, start, at).len() ==> free_of(
                #[trigger] split_from(text, sep, start, at)[k],
                sep,
            ),
        join(split_from(text, sep, start, at), sep) == text.subrange(start, text.len() as int),
    decreases text.len() - at,
{
    let parts = split_from(text, sep, start, at);
    if at >= text.len() {
    } else if text[at] == sep {
        lemma_split_from(text, sep, at + 1, at + 1);
        let rest = split_from(text, sep, at + 1, at + 1);
        let head = text.subrange(start, at);
        assert(parts == seq![head] + rest);
        assert(parts.drop_first() == rest);
        assert forall|k: int| 0 <= k < parts.len() implies free_of(#[trigger] parts[k], sep) by {
            if k > 0 {
                assert(parts[k] == rest[k - 1]);
            }
        }
        assert(head + seq![sep] + text.subrange(at + 1, text.len() as int) == text.subrange(
            start,
            text.len() as int,
        ));
    } else {
        lemma_split_from(text, sep, start, at + 1);
    }
}

/// The parts of a text hold no separator, and joined with the separator
/// they give the text back.
pub proof fn lemma_split_then_join(text: Seq<char>, sep: char)
    ensures
        split(text, sep).len() >= 1,
        forall|k: int|
            0 <= k < split(text, sep).len() ==> free_of(#[trigger] split(text, sep)[k], sep),
        join(split(text, sep), sep) == text,
{
    lemma_split_from(text, sep, 0, 0);
    assert(text.subrange(0, text.len() as int) == text);
}

/// An assignment is its name, an `=`, and its value, and the name holds no
/// `=`.
pub proof fn lemma_assignment_parts(part: Seq<char>)
    requires
        is_assignment(part),
    ensures
        part == assignment(part).0 + seq!['='] + assignment(part).1,
        free_of(assignment(part).0, '='),
{
    lemma_first_index_of(part, '=');
}

/// The overrides are exactly the names assigned at the head of the line,
/// and each has the value of the last assignment to it.
pub proof fn lemma_last_assignment_wins(parts: Seq<Seq<char>>, n: int)
    requires
        0 <= n <= parts.len(),
    ensures
        forall|name: Seq<char>| #[trigger]
            overrides_of(parts, n).contains_key(name) <==> exists|i: int|
                0 <= i < n && (#[trigger] assignment(parts[i])).0 == name,
        forall|i: int|
            0 <= i < n && (forall|j: int|
                i < j < n ==> (#[trigger] assignment(parts[j])).0 != assignment(parts[i]).0)
                ==> overrides_of(parts, n)[(#[trigger] assignment(parts[i])).0] == assignment(
                parts[i],
            ).1,
    decreases n,
{
    if n > 0 {
        lemma_last_assignment_wins(parts, n - 1);
        let last = assignment(parts[n - 1]);
        assert forall|name: Seq<char>| #[trigger]
            overrides_of(parts, n).contains_key(name) <==> exists|i: int|
                0 <= i < n && (#[trigger] assignment(parts[i])).0 == name by {
            if overrides_of(parts, n).contains_key(name) {
                if name == last.0 {
                    assert(assignment(parts[n - 1]).0 == name);
                } else {
                    assert(overrides_of(parts, n - 1).contains_key(name));
                    let i = choose|i: int|
                        0 <= i < n - 1 && (#[trigger] assignment(parts[i])).0 == name;
                    assert(0 <= i < n && assignment(parts[i]).0 == name);
                }
            }
            if exists|i: int| 0 <= i < n && (#[trigger] assignment(parts[i])).0 == name {
                let i = choose|i: int| 0 <= i < n && (#[trigger] assignment(parts[i])).0 == name;
                if i < n - 1 {
                    assert(overrides_of(parts, n - 1).contains_key(name));
                }
            }
        }
        assert forall|i: int|
            0 <= i < n && (forall|j: int|
                i < j < n ==> (#[trigger] assignment(parts[j])).0 != assignment(
                    parts[i],
                ).0) implies overrides_of(parts, n)[(#[trigger] assignment(parts[i])).0]
            == assignment(parts[i]).1 by {
            if i < n - 1 {
                assert(assignment(parts[n - 1]).0 != assignment(parts[i]).0);
            }
        }
    }
}

/// A parsed command as a mathematical value.
pub struct CmdModel {
    pub overrides: Map<Seq<char>, Seq<char>>,
    pub name: Seq<char>,
    pub args: Seq<Seq<char>>,
}

/// The command that `line` denotes. The assignments at its head become the
/// overrides, the first part that is no assignment is the name, and every
/// part behind the name, stripped of its quotes and expanded under the
/// overrides and `env`, is an argument.
pub open spec fn parse(line: Seq<char>, env: Map<Seq<char>, Seq<char>>) -> CmdModel {
    let parts = split(line, ' ');
    let n = leading_assignments(parts);
    let overrides = overrides_of(parts, n);
    if n >= parts.len() {
        CmdModel { overrides, name: Seq::empty(), args: Seq::empty() }
    } else {
        CmdModel {
            overrides,
            name: parts[n],
            args: Seq::new(
                (parts.len() - n - 1) as nat,
                |i: int| expand(overrides, env, strip_quotes(parts[n + 1 + i])),
            ),
        }
    }
}

/// The views of a vector of strings.
pub open spec fn texts(strings: Seq<String>) -> Seq<Seq<char>> {
    Seq::new(strings.len(), |i: int| strings[i]@)
}

/// The views of a vector of character vectors.
pub open spec fn parts_of(parts: Seq<Vec<char>>) -> Seq<Seq<char>> {
    Seq::new(parts.len(), |i: int| parts[i]@)
}

/// One input line, parsed and expanded.
#[derive(Debug)]
pub struct Cmd {
    pub variables_overrides: VarMap,
    pub name: String,
    pub args: Vec<String>,
}

impl View for Cmd {
    type V = CmdModel;

    open spec fn view(&self) -> CmdModel {
        CmdModel {
            overrides: self.variables_overrides@,
            name: self.name@,
            args: texts(self.args@),
        }
    }
}

/// Cuts `text` at every `sep`.
pub fn split_chars(text: &Vec<char>, sep: char) -> (parts: Vec<Vec<char>>)
    ensures
        parts_of(parts@) == split(text@, sep),
{
    let mut parts: Vec<Vec<char>> = Vec::new();
    let mut part: Vec<char> = Vec::new();
    let mut at: usize = 0;
    let ghost mut start: int = 0;
    assert(parts_of(parts@) + split_from(text@, sep, 0, 0) == split(text@, sep));
    assert(part@ == text@.subrange(0, 0));
    while at < text.len()
        invariant
            0 <= start <= at <= text.len(),
            part@ == text@.subrange(start, at as int),
            parts_of(parts@) + split_from(text@, sep, start, at as int) == split(text@, sep),
        decreases text.len() - at,
    {
        let ghost done = parts_of(parts@);
        let ghost rest = split_from(text@, sep, at + 1, at + 1);
        if text[at] == sep {
            parts.push(part);
            part = Vec::new();
            proof {
                assert(parts_of(parts@) == done.push(text@.subrange(start, at as int)));
                assert(done + (seq![text@.subrange(start, at as int)] + rest) == done.push(
                    text@.subrange(start, at as int),
                ) + rest);
                start = at + 1;
                assert(part@ == text@.subrange(start, at + 1));
            }
        } else {
            part.push(text[at]);
            assert(part@ == text@.subrange(start, at + 1));
        }
        at += 1;
    }
    let ghost done = parts_of(parts@);
    parts.push(part);
    assert(parts_of(parts@) == done.push(text@.subrange(start, text@.len() as int)));
    assert(done + seq![text@.subrange(start, text@.len() as int)] == done.push(
        text@.subrange(start, text@.len() as int),
    ));
    parts
}

/// The position of the first `c` in `text`, or its length.
pub fn find_char(text: &Vec<char>, c: char) -> (at: usize)
    ensures
        at == first_index_of(text@, c),
        at <= text.len(),
{
    let mut at: usize = 0;
    assert(text@.skip(0) == text@);
    while at < text.len() && text[at] != c
        invariant
            at <= text.len(),
            first_index_of(text@, c) == at + first_index_of(text@.skip(at as int), c),
        decreases text.len() - at,
    {
        assert(text@.skip(at as int).drop_first() == text@.skip(at + 1));
        at += 1;
    }
    at
}

/// The characters of `text` from `from` up to `to`.
fn slice_chars(text: &Vec<char>, from: usize, to: usize) -> (piece: String)
    requires
        from <= to <= text.len(),
    ensures
        piece@ == text@.subrange(from as int, to as int),
{
    let mut piece = String::new();
    let mut at: usize = from;
    while at < to
        invariant
            from <= at <= to <= text.len(),
            piece@ == text@.subrange(from as int, at as int),
        decreases to - at,
    {
        piece.push(text[at]);
        at += 1;
        assert(text@.subrange(from as int, at as int) == text@.subrange(from as int, at - 1).push(
            text@[at - 1],
        ));
    }
    piece
}

impl Cmd {
    /// Parses `raw_cmd`. Variables that the line's own assignments do not
    /// bind are looked up in `env`. This never fails.
    pub fn new(raw_cmd: &str, env: &VarMap) -> (result: Result<Self, ()>)
        ensures
            result matches Ok(cmd) && cmd@ == parse(raw_cmd@, env@),
    {
        let line = chars_of(raw_cmd);
        let parts = split_chars(&line, ' ');
        let ghost all = parts_of(parts@);
        let mut vars = VarMap::new();
        let mut at: usize = 0;
        assert(all.skip(0) == all);
        while at < parts.len() && find_char(&parts[at], '=') < parts[at].len()
            invariant
                at <= parts.len(),
                all == parts_of(parts@),
                vars@ == overrides_of(all, at as int),
                leading_assignments(all) == at + leading_assignments(all.skip(at as int)),
            decreases parts.len() - at,
        {
            let part = &parts[at];
            let eq = find_char(part, '=');
            let var = slice_chars(part, 0, eq);
            let value = slice_chars(part, eq + 1, part.len());
            proof {
                assert(all[at as int] == part@);
                assert(part@.take(eq as int) == part@.subrange(0, eq as int));
                assert(part@.skip(eq + 1) == part@.subrange(eq + 1, part@.len() as int));
                assert(all.skip(at as int).drop_first() == all.skip(at + 1));
            }
            vars.insert(var, value);
            at += 1;
        }
        proof {
            if at < parts.len() {
                assert(all.skip(at as int)[0] == all[at as int]);
            }
            assert(leading_assignments(all) == at);
        }
        let mut name = String::new();
        let mut args: Vec<String> = Vec::new();
        if at < parts.len() {
            name = string_of(&parts[at]);
            let first = at + 1;
            let mut next: usize = first;
            while next < parts.len()
                invariant
                    first <= next <= parts.len(),
                    all == parts_of(parts@),
                    args.len() == next - first,
                    forall|i: int|
                        0 <= i < args.len() ==> (#[trigger] args[i])@ == expand(
                            vars@,
                            env@,
                            strip_quotes(all[first + i]),
                        ),
                decreases parts.len() - next,
            {
                let raw = string_of(&parts[next]);
                let stripped = string_match(raw.as_str());
                let arg = expand_vars_into_arg(&vars, env, stripped.as_str());
                assert(all[next as int] == raw@);
                args.push(arg);
                next += 1;
            }
        }
        let cmd = Self { variables_overrides: vars, name, args };
        assert(cmd@.args =~= parse(raw_cmd@, env@).args);
        Ok(cmd)
    }
}

/// The parser for whole lines.
pub struct CmdParser;

impl CmdParser {
    /// Tokenizes `line` and parses it. A line holds one command, so the
    /// result holds exactly one; the only error is the tokenizer's.
    pub fn parse(line: &str, env: &VarMap) -> (result: Result<Vec<Cmd>, CmdParsingError>)
        ensures
            match result {
                Ok(cmds) => line@.len() <= u32::MAX && cmds.len() == 1 && cmds[0]@ == parse(
                    line@,
                    env@,
                ),
                Err(error) => line@.len() > u32::MAX && error == CmdParsingError::LineTooLong,
            },
    {
        let mut cmds: Vec<Cmd> = Vec::new();
        match Token::tokenize(line) {
            Ok(_tokens) => {},
            Err(error) => {
                return Err(error);
            },
        }
        match Cmd::new(line, env) {
            Ok(cmd) => {
                cmds.push(cmd);
            },
            Err(_) => {},
        }
        Ok(cmds)
    }
}

} // verus!
