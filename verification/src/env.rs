//! Changes to the environment as values.
//!
//! The library never touches the process environment. It says which
//! variables are to be set and removed, in which order; the caller carries
//! the changes out. The same changes can be applied to a `VarMap`, which is
//! how their effect is stated and proved.

use vstd::prelude::*;
use crate::vars::{map_of, VarMap};

verus! {

/// One change to the environment.
#[derive(Debug, PartialEq, Eq)]
pub enum EnvOp {
    /// Bind the name to the value.
    Assign(String, String),
    /// Unbind the name.
    Unset(String),
}

/// A change as a mathematical value.
pub enum EnvOpModel {
    Assign(Seq<char>, Seq<char>),
    Unset(Seq<char>),
}

impl View for EnvOp {
    type V = EnvOpModel;

    open spec fn view(&self) -> EnvOpModel {
        match self {
            EnvOp::Assign(name, value) => EnvOpModel::Assign(name@, value@),
            EnvOp::Unset(name) => EnvOpModel::Unset(name@),
        }
    }
}

/// The models of a sequence of changes.
pub open spec fn op_models(ops: Seq<EnvOp>) -> Seq<EnvOpModel> {
    Seq::new(ops.len(), |i: int| ops[i]@)
}

/// The environment after one change.
pub open spec fn apply_op(env: Map<Seq<char>, Seq<char>>, op: EnvOpModel) -> Map<
    Seq<char>,
    Seq<char>,
> {
    match op {
        EnvOpModel::Assign(name, value) => env.insert(name, value),
        EnvOpModel::Unset(name) => env.remove(name),
    }
}

/// The environment after the changes `ops`, carried out from first to last.
pub open spec fn apply_ops(env: Map<Seq<char>, Seq<char>>, ops: Seq<EnvOpModel>) -> Map<
    Seq<char>,
    Seq<char>,
>
    decreases ops.len(),
{
    if ops.len() == 0 {
        env
    } else {
        apply_op(apply_ops(env, ops.drop_last()), ops.last())
    }
}

/// The changes that bind every entry of `entries`, in order.
pub open spec fn set_ops(entries: Seq<(Seq<char>, Seq<char>)>) -> Seq<EnvOpModel> {
    Seq::new(entries.len(), |i: int| EnvOpModel::Assign(entries[i].0, entries[i].1))
}

/// The changes that unbind every name of `entries`, in order.
pub open spec fn remove_ops(entries: Seq<(Seq<char>, Seq<char>)>) -> Seq<EnvOpModel> {
    Seq::new(entries.len(), |i: int| EnvOpModel::Unset(entries[i].0))
}

/// The changes that undo an overlay: unbind every overridden name, then
/// bind every entry of the snapshot again.
pub open spec fn reset_ops(
    overrides: Seq<(Seq<char>, Seq<char>)>,
    snapshot: Seq<(Seq<char>, Seq<char>)>,
) -> Seq<EnvOpModel> {
    remove_ops(overrides) + set_ops(snapshot)
}

/// Carrying out `first + second` is carrying out `first` and then `second`.
pub proof fn lemma_apply_ops_concat(
    env: Map<Seq<char>, Seq<char>>,
    first: Seq<EnvOpModel>,
    second: Seq<EnvOpModel>,
)
    ensures
        apply_ops(env, first + second) == apply_ops(apply_ops(env, first), second),
    decreases second.len(),
{
    if second.len() == 0 {
        assert(first + second == first);
    } else {
        lemma_apply_ops_concat(env, first, second.drop_last());
        assert((first + second).drop_last() == first + second.drop_last());
    }
}

/// Binding every entry of `entries` lays the map they denote over the
/// environment.
pub proof fn lemma_apply_set_ops(
    env: Map<Seq<char>, Seq<char>>,
    entries: Seq<(Seq<char>, Seq<char>)>,
)
    ensures
        apply_ops(env, set_ops(entries)) == env.union_prefer_right(map_of(entries)),
    decreases entries.len(),
{
    if entries.len() == 0 {
        assert(env.union_prefer_right(map_of(entries)) == env);
    } else {
        lemma_apply_set_ops(env, entries.drop_last());
        assert(set_ops(entries).drop_last() == set_ops(entries.drop_last()));
        assert(env.union_prefer_right(map_of(entries.drop_last())).insert(
            entries.last().0,
            entries.last().1,
        ) == env.union_prefer_right(map_of(entries)));
    }
}

/// Unbinding every name of `entries` removes the keys of the map they
/// denote.
pub proof fn lemma_apply_remove_ops(
    env: Map<Seq<char>, Seq<char>>,
    entries: Seq<(Seq<char>, Seq<char>)>,
)
    ensures
        apply_ops(env, remove_ops(entries)) == env.remove_keys(map_of(entries).dom()),
    decreases entries.len(),
{
    if entries.len() == 0 {
        assert(env.remove_keys(map_of(entries).dom()) == env);
    } else {
        lemma_apply_remove_ops(env, entries.drop_last());
        assert(remove_ops(entries).drop_last() == remove_ops(entries.drop_last()));
        assert(env.remove_keys(map_of(entries.drop_last()).dom()).remove(entries.last().0)
            == env.remove_keys(map_of(entries).dom()));
    }
}

/// Overlaying a command's overrides and then resetting from a snapshot
/// taken just before the overlay gives back exactly the environment that
/// the snapshot was taken of, whatever happened in between outside it.
pub proof fn lemma_environment_restored(
    env: Map<Seq<char>, Seq<char>>,
    overrides: Seq<(Seq<char>, Seq<char>)>,
    snapshot: Seq<(Seq<char>, Seq<char>)>,
)
    requires
        map_of(snapshot) == env,
    ensures
        apply_ops(apply_ops(env, set_ops(overrides)), reset_ops(overrides, snapshot)) == env,
{
    let overlaid = apply_ops(env, set_ops(overrides));
    lemma_apply_set_ops(env, overrides);
    lemma_apply_ops_concat(overlaid, remove_ops(overrides), set_ops(snapshot));
    lemma_apply_remove_ops(overlaid, overrides);
    let removed = apply_ops(overlaid, remove_ops(overrides));
    lemma_apply_set_ops(removed, snapshot);
    assert(removed.union_prefer_right(env) == env);
}

/// While the overlay is in place, every overridden name has its override
/// and every other name has the value it had before.
pub proof fn lemma_overlay_is_visible(
    env: Map<Seq<char>, Seq<char>>,
    overrides: Seq<(Seq<char>, Seq<char>)>,
    name: Seq<char>,
)
    ensures
        ({
            let overlaid = apply_ops(env, set_ops(overrides));
            if map_of(overrides).contains_key(name) {
                overlaid.contains_key(name) && overlaid[name] == map_of(overrides)[name]
            } else {
                overlaid.contains_key(name) == env.contains_key(name) && (env.contains_key(name)
                    ==> overlaid[name] == env[name])
            }
        }),
{
    lemma_apply_set_ops(env, overrides);
}

/// The changes that bind every entry of `vars`.
pub fn overlay(vars: &VarMap) -> (ops: Vec<EnvOp>)
    ensures
        op_models(ops@) == set_ops(vars.entries()),
{
    let mut ops: Vec<EnvOp> = Vec::new();
    let n = vars.len();
    let mut at: usize = 0;
    while at < n
        invariant
            at <= n,
            n == vars.entries().len(),
            op_models(ops@) == set_ops(vars.entries().take(at as int)),
        decreases n - at,
    {
        let ghost done = op_models(ops@);
        let ghost entry = vars.entries()[at as int];
        ops.push(EnvOp::Assign(vars.name_at(at).clone(), vars.value_at(at).clone()));
        at += 1;
        assert(op_models(ops@) == done.push(EnvOpModel::Assign(entry.0, entry.1)));
        assert(vars.entries().take(at as int) == vars.entries().take(at - 1).push(entry));
        assert(set_ops(vars.entries().take(at as int)) == set_ops(
            vars.entries().take(at - 1),
        ).push(EnvOpModel::Assign(entry.0, entry.1)));
    }
    assert(vars.entries().take(at as int) == vars.entries());
    ops
}

/// The changes that undo the overlay of `overrides`, given the snapshot
/// `before_run` of the environment from before it.
pub fn resetvars(overrides: &VarMap, before_run: &VarMap) -> (ops: Vec<EnvOp>)
    ensures
        op_models(ops@) == reset_ops(overrides.entries(), before_run.entries()),
{
    let mut ops: Vec<EnvOp> = Vec::new();
    let n = overrides.len();
    let mut at: usize = 0;
    while at < n
        invariant
            at <= n,
            n == overrides.entries().len(),
            op_models(ops@) == remove_ops(overrides.entries().take(at as int)),
        decreases n - at,
    {
        let ghost done = op_models(ops@);
        let ghost entry = overrides.entries()[at as int];
        ops.push(EnvOp::Unset(overrides.name_at(at).clone()));
        at += 1;
        assert(op_models(ops@) == done.push(EnvOpModel::Unset(entry.0)));
        assert(overrides.entries().take(at as int) == overrides.entries().take(at - 1).push(
            entry,
        ));
        assert(remove_ops(overrides.entries().take(at as int)) == remove_ops(
            overrides.entries().take(at - 1),
        ).push(EnvOpModel::Unset(entry.0)));
    }
    assert(overrides.entries().take(at as int) == overrides.entries());
    let m = before_run.len();
    let mut next: usize = 0;
    assert(before_run.entries().take(0) == Seq::<(Seq<char>, Seq<char>)>::empty());
    assert(op_models(ops@) == remove_ops(overrides.entries()) + set_ops(
        before_run.entries().take(0),
    ));
    while next < m
        invariant
            next <= m,
            m == before_run.entries().len(),
            op_models(ops@) == remove_ops(overrides.entries()) + set_ops(
                before_run.entries().take(next as int),
            ),
        decreases m - next,
    {
        let ghost done = op_models(ops@);
        let ghost entry = before_run.entries()[next as int];
        ops.push(EnvOp::Assign(before_run.name_at(next).clone(), before_run.value_at(next).clone()));
        next += 1;
        assert(op_models(ops@) == done.push(EnvOpModel::Assign(entry.0, entry.1)));
        assert(before_run.entries().take(next as int) == before_run.entries().take(
            next - 1,
        ).push(entry));
        assert(set_ops(before_run.entries().take(next as int)) == set_ops(
            before_run.entries().take(next - 1),
        ).push(EnvOpModel::Assign(entry.0, entry.1)));
    }
    assert(before_run.entries().take(next as int) == before_run.entries());
    ops
}

/// Carries out `ops` on `env`, from first to last.
pub fn apply_all(env: &mut VarMap, ops: &Vec<EnvOp>)
    ensures
        final(env)@ == apply_ops(old(env)@, op_models(ops@)),
{
    let mut at: usize = 0;
    assert(op_models(ops@).take(0) == Seq::<EnvOpModel>::empty());
    while at < ops.len()
        invariant
            at <= ops.len(),
            env@ == apply_ops(old(env)@, op_models(ops@).take(at as int)),
        decreases ops.len() - at,
    {
        match &ops[at] {
            EnvOp::Assign(name, value) => {
                env.insert(name.clone(), value.clone());
            },
            EnvOp::Unset(name) => {
                env.remove(name.as_str());
            },
        }
        at += 1;
        assert(op_models(ops@).take(at as int).drop_last() == op_models(ops@).take(at - 1));
    }
    assert(op_models(ops@).take(at as int) == op_models(ops@));
}

} // verus!
