use dsh::env::{apply_all, overlay, resetvars, EnvOp};
use dsh::vars::VarMap;

fn store(pairs: &[(&str, &str)]) -> VarMap {
    let mut vars = VarMap::new();
    for (name, value) in pairs {
        vars.insert(name.to_string(), value.to_string());
    }
    vars
}

fn pairs(vars: &VarMap) -> Vec<(String, String)> {
    let mut all = vec![];
    for i in 0..vars.len() {
        all.push((vars.name_at(i).clone(), vars.value_at(i).clone()));
    }
    all.sort();
    all
}

#[test]
fn the_overlay_binds_every_override_in_order() {
    let overrides = store(&[("A", "1"), ("B", "2")]);
    assert_eq!(
        overlay(&overrides),
        vec![
            EnvOp::Assign("A".to_string(), "1".to_string()),
            EnvOp::Assign("B".to_string(), "2".to_string()),
        ]
    );
    assert_eq!(overlay(&VarMap::new()), vec![]);
}

#[test]
fn the_reset_unbinds_the_overrides_and_binds_the_snapshot() {
    let overrides = store(&[("A", "1"), ("B", "2")]);
    let before_run = store(&[("HOME", "/root"), ("A", "0")]);
    assert_eq!(
        resetvars(&overrides, &before_run),
        vec![
            EnvOp::Unset("A".to_string()),
            EnvOp::Unset("B".to_string()),
            EnvOp::Assign("HOME".to_string(), "/root".to_string()),
            EnvOp::Assign("A".to_string(), "0".to_string()),
        ]
    );
}

#[test]
fn changes_are_carried_out_from_first_to_last() {
    let mut env = store(&[("A", "0")]);
    let ops = vec![
        EnvOp::Assign("B".to_string(), "1".to_string()),
        EnvOp::Unset("A".to_string()),
        EnvOp::Assign("A".to_string(), "2".to_string()),
        EnvOp::Assign("B".to_string(), "3".to_string()),
        EnvOp::Unset("C".to_string()),
    ];
    apply_all(&mut env, &ops);
    assert_eq!(pairs(&env), pairs(&store(&[("A", "2"), ("B", "3")])));
}

#[test]
fn the_environment_is_restored_after_a_command() {
    let mut env = store(&[("HOME", "/root"), ("PATH", "/bin"), ("A", "old")]);
    let before_run = store(&[("HOME", "/root"), ("PATH", "/bin"), ("A", "old")]);
    let overrides = store(&[("A", "new"), ("B", "fresh"), ("PATH", "/tmp")]);

    apply_all(&mut env, &overlay(&overrides));
    assert_eq!(env.get("A"), Some(&"new".to_string()));
    assert_eq!(env.get("B"), Some(&"fresh".to_string()));
    assert_eq!(env.get("PATH"), Some(&"/tmp".to_string()));
    assert_eq!(env.get("HOME"), Some(&"/root".to_string()));

    apply_all(&mut env, &resetvars(&overrides, &before_run));
    assert_eq!(pairs(&env), pairs(&before_run));
    assert_eq!(env.get("B"), None);
}

#[test]
fn the_environment_is_restored_without_overrides() {
    let mut env = store(&[("HOME", "/root")]);
    let before_run = store(&[("HOME", "/root")]);
    let overrides = VarMap::new();
    apply_all(&mut env, &overlay(&overrides));
    apply_all(&mut env, &resetvars(&overrides, &before_run));
    assert_eq!(pairs(&env), pairs(&before_run));
}
