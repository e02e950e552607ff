use indexmap::IndexMap;
use scriv::binding::{action, actions, entries, example_aliases, example_bindings, resolve, Bound, Kind};
use scriv::config::{Bindings, ShellConfig};

fn table(pairs: &[(&str, &str)]) -> Bindings {
    pairs
        .iter()
        .map(|(key, value)| ((*key).to_string(), (*value).to_string()))
        .collect::<IndexMap<String, String>>()
}

fn triggers(bound: &[Bound]) -> Vec<&str> {
    bound.iter().map(|bound| bound.trigger.as_str()).collect()
}

#[test]
fn an_empty_configuration_binds_nothing() {
    let resolved = resolve(&ShellConfig::default()).unwrap();

    assert!(resolved.bindings.is_empty(), "{resolved:?}");
    assert!(resolved.aliases.is_empty(), "{resolved:?}");
}

#[test]
fn every_example_names_an_action_that_exists() {
    let config = ShellConfig {
        bindings: Some(table(&example_bindings())),
        aliases: Some(table(&example_aliases())),
    };
    resolve(&config).expect("the examples do not resolve");
}

#[test]
fn a_table_is_the_whole_of_what_is_bound() {
    let config = ShellConfig {
        bindings: Some(table(&[("f6", "repo-cd")])),
        aliases: Some(table(&[])),
    };
    let resolved = resolve(&config).unwrap();

    assert_eq!(triggers(&resolved.bindings), vec!["f6"]);
    assert!(resolved.aliases.is_empty(), "{resolved:?}");
}

#[test]
fn the_order_a_table_is_written_in_is_the_order_it_is_emitted_in() {
    let config = ShellConfig {
        bindings: Some(table(&[
            ("f8", "edit"),
            ("ctrl-o", "repo-cd"),
            ("f6", "pr-open"),
        ])),
        ..ShellConfig::default()
    };

    assert_eq!(
        triggers(&resolve(&config).unwrap().bindings),
        vec!["f8", "ctrl-o", "f6"]
    );
}

#[test]
fn an_action_nobody_defines_names_itself_and_the_ones_that_exist() {
    let config = ShellConfig {
        bindings: Some(table(&[("ctrl-o", "repo-jump")])),
        ..ShellConfig::default()
    };
    let error = resolve(&config).unwrap_err().to_string();

    assert!(error.contains("ctrl-o"), "{error}");
    assert!(error.contains("repo-jump"), "{error}");
    assert!(error.contains("repo-cd"), "{error}");
}

#[test]
fn an_alias_is_refused_by_the_same_rule_a_binding_is() {
    let config = ShellConfig {
        aliases: Some(table(&[("x", "nope")])),
        ..ShellConfig::default()
    };
    let error = resolve(&config).unwrap_err().to_string();

    assert!(error.contains("alias `x`"), "{error}");
}

#[test]
fn one_action_bound_to_two_keys_is_defined_once() {
    let config = ShellConfig {
        bindings: Some(table(&[
            ("f6", "repo-cd"),
            ("f8", "repo-cd"),
            ("f9", "edit"),
        ])),
        ..ShellConfig::default()
    };
    let actions = resolve(&config).unwrap().bound_actions();

    assert_eq!(
        actions.iter().map(|action| action.id).collect::<Vec<_>>(),
        vec!["repo-cd", "edit"]
    );
}

#[test]
fn no_two_actions_share_an_id() {
    let mut ids: Vec<&str> = actions().iter().map(|action| action.id).collect();
    let total = ids.len();
    ids.sort_unstable();
    ids.dedup();
    assert_eq!(ids.len(), total, "two actions answer to one name");
}

#[test]
fn every_action_runs_a_command() {
    for action in actions() {
        assert!(!action.args.is_empty(), "{} runs nothing", action.id);
        assert!(
            !action.description.is_empty(),
            "{} says nothing about itself",
            action.id
        );
    }
}

#[test]
fn the_whole_refusal_lists_every_action_in_order() {
    let config = ShellConfig {
        bindings: Some(table(&[("f6", "repo-cd"), ("ctrl-o", "repo-jump"), ("f7", "nope")])),
        ..ShellConfig::default()
    };
    assert_eq!(
        resolve(&config).unwrap_err(),
        "the binding `ctrl-o` names `repo-jump`, which is not one of: repo-cd, worktree-cd, \
         repo-open, file-edit, edit, note-edit, branch-checkout, pr-checkout, pr-open, proc-kill, \
         project-deps, project-build, history-select, history-up"
    );
}

#[test]
fn a_bad_binding_is_reported_before_a_bad_alias() {
    let config = ShellConfig {
        bindings: Some(table(&[("f6", "gone")])),
        aliases: Some(table(&[("x", "nope")])),
    };
    assert!(resolve(&config).unwrap_err().starts_with("the binding `f6` names `gone`"));
}

#[test]
fn an_action_is_found_by_its_id() {
    let found = action("history-up").unwrap();
    assert_eq!(found.kind, Kind::LineOrUp);
    assert_eq!(found.args, &["history", "sel"]);
    assert!(action("history").is_none());
    assert_eq!(action("repo-cd").unwrap().kind, Kind::Cd);
}

#[test]
fn entries_keep_an_unknown_action_and_the_written_order() {
    let t = table(&[("b", "nope"), ("a", "edit")]);
    assert_eq!(entries(Some(&t)), vec![("b", "nope"), ("a", "edit")]);
    assert!(entries(None).is_empty());
}

#[test]
fn aliases_resolve_to_their_actions() {
    let config = ShellConfig {
        aliases: Some(table(&[("fe", "edit"), ("b", "project-build")])),
        ..ShellConfig::default()
    };
    let resolved = resolve(&config).unwrap();
    assert_eq!(triggers(&resolved.aliases), vec!["fe", "b"]);
    assert_eq!(resolved.aliases[1].action.args, &["project", "build"]);
    assert!(resolved.bindings.is_empty());
}
