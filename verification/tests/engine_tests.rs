use care::engine::{
    apply_plan, check_decide, check_union_paths, draft_plan, stage_decision, CheckAction,
    EngineError, StageOp, StatusKind,
};
use care::script::Script;

fn s(v: &str) -> String {
    v.to_string()
}

fn script_with(paths: Vec<(&str, &str)>, ignores: Vec<&str>) -> Script {
    Script {
        ignores: ignores.into_iter().map(s).collect(),
        paths: paths
            .into_iter()
            .map(|(k, v)| (s(k), s(v)))
            .collect(),
        ..Default::default()
    }
}

#[test]
fn check_decides_gather_or_removal() {
    assert_eq!(check_decide(true), CheckAction::Gather);
    // An absent resource means: remove the shadow file, where a missing
    // file is not an error.
    assert_eq!(check_decide(false), CheckAction::RemoveShadowFile);
}

#[test]
fn check_union_merges_and_sorts() {
    let script = script_with(vec![("files/etc/motd", "hello\n")], vec![]);
    let git = vec![s("pkgs/vim"), s("files/etc/motd"), s("apps/editor")];
    let union = check_union_paths(&git, &script).unwrap();
    assert_eq!(
        union,
        vec![s("apps/editor"), s("files/etc/motd"), s("pkgs/vim")]
    );
}

#[test]
fn check_union_excludes_ignored_tracked_paths() {
    // A tracked path under an ignored prefix stays out of the union even
    // though the repository lists it.
    let script = script_with(vec![("files/a", "x")], vec!["secrets"]);
    let git = vec![s("secrets/key.pem"), s("files/b")];
    let union = check_union_paths(&git, &script).unwrap();
    assert_eq!(union, vec![s("files/a"), s("files/b")]);
}

#[test]
fn check_union_rejects_ignored_script_path() {
    let script = script_with(vec![("secrets/key.pem", "x")], vec!["secrets"]);
    match check_union_paths(&vec![], &script) {
        Err(EngineError::IgnoredScriptPath(p)) => assert_eq!(p, s("secrets/key.pem")),
        other => panic!("expected an ignored-path error, got {:?}", other),
    }
}

#[test]
fn check_union_rejects_case_collision() {
    let script = script_with(vec![("files/Motd", "x")], vec![]);
    let git = vec![s("files/motd")];
    match check_union_paths(&git, &script) {
        Err(EngineError::CaseCollision(g, p)) => {
            assert_eq!(g, s("files/motd"));
            assert_eq!(p, s("files/Motd"));
        }
        other => panic!("expected a case-collision error, got {:?}", other),
    }
}

#[test]
fn check_union_rejects_case_collision_between_tracked_paths() {
    // Two tracked paths that differ only by letter case would silently
    // alias each other on a case-insensitive filesystem.
    let script = script_with(vec![], vec![]);
    let git = vec![s("files/motd"), s("files/Motd")];
    match check_union_paths(&git, &script) {
        Err(EngineError::CaseCollision(a, b)) => {
            assert_eq!(a, s("files/motd"));
            assert_eq!(b, s("files/Motd"));
        }
        other => panic!("expected a case-collision error, got {:?}", other),
    }
    // An ignored tracked path takes no part in the comparison.
    let script = script_with(vec![], vec!["files"]);
    assert!(check_union_paths(&git, &script).is_ok());
}

#[test]
fn check_union_rejects_case_collision_between_script_paths() {
    let script = script_with(vec![("files/Motd", "x"), ("files/motd", "y")], vec![]);
    match check_union_paths(&vec![], &script) {
        Err(EngineError::CaseCollision(a, b)) => {
            assert_eq!(a, s("files/Motd"));
            assert_eq!(b, s("files/motd"));
        }
        other => panic!("expected a case-collision error, got {:?}", other),
    }
}

#[test]
fn draft_plans_writes_and_deletes() {
    // The desired state is written, and tracked content the desired state
    // does not mention is pruned.
    let script = script_with(vec![("files/etc/motd", "hello\n")], vec!["secrets"]);
    let git = vec![s("files/old"), s("files/etc/motd"), s("secrets/key.pem")];
    let plan = draft_plan(&git, &script).unwrap();
    assert_eq!(plan.writes, vec![(s("files/etc/motd"), s("hello\n"))]);
    assert_eq!(plan.deletes, vec![s("files/old")]);
}

#[test]
fn draft_is_idempotent_over_its_own_output() {
    // After one Draft run the tracked paths are exactly the desired paths;
    // a second run then writes the same contents and deletes nothing.
    let script = script_with(vec![("files/a", "1"), ("files/b", "2")], vec![]);
    let git1 = vec![s("files/a"), s("files/stale")];
    let plan1 = draft_plan(&git1, &script).unwrap();
    assert_eq!(plan1.deletes, vec![s("files/stale")]);
    let git2: Vec<String> = plan1.writes.iter().map(|p| p.0.clone()).collect();
    let plan2 = draft_plan(&git2, &script).unwrap();
    assert_eq!(plan2.writes, plan1.writes);
    assert!(plan2.deletes.is_empty());
}

#[test]
fn draft_rejects_ignored_script_path() {
    let script = script_with(vec![("secrets/key.pem", "x")], vec!["secrets"]);
    match draft_plan(&vec![], &script) {
        Err(EngineError::IgnoredScriptPath(p)) => assert_eq!(p, s("secrets/key.pem")),
        other => panic!("expected an ignored-path error, got {:?}", other),
    }
}

#[test]
fn apply_processes_pending_paths_in_lexicographic_order() {
    let script = script_with(vec![], vec![]);
    let pending = vec![
        (s("z/1"), StatusKind::Added),
        (s("a/2"), StatusKind::Modified),
        (s("m/3"), StatusKind::Deleted),
    ];
    let steps = apply_plan(&pending, &script);
    let order: Vec<&str> = steps.iter().map(|st| st.path.as_str()).collect();
    assert_eq!(order, vec!["a/2", "m/3", "z/1"]);
    assert_eq!(steps[0].prefix, s("a"));
    assert_eq!(steps[0].subpath, s("2"));
    assert_eq!(stage_decision(&steps[0]).unwrap(), StageOp::Add);
    assert_eq!(stage_decision(&steps[1]).unwrap(), StageOp::Remove);
    assert_eq!(stage_decision(&steps[2]).unwrap(), StageOp::Add);
}

#[test]
fn apply_stages_a_new_file_for_its_effector() {
    // One drafted file pending as new: Apply routes it to the `files`
    // effector and stages it.
    let script = script_with(vec![("files/etc/motd", "hello\n")], vec![]);
    let pending = vec![(s("files/etc/motd"), StatusKind::Added)];
    let steps = apply_plan(&pending, &script);
    assert_eq!(steps.len(), 1);
    assert_eq!(steps[0].path, s("files/etc/motd"));
    assert_eq!(steps[0].prefix, s("files"));
    assert_eq!(steps[0].subpath, s("etc/motd"));
    assert_eq!(stage_decision(&steps[0]).unwrap(), StageOp::Add);
}

#[test]
fn apply_skips_ignored_paths() {
    // A modified path under an ignored prefix is excluded from Apply's
    // pending enumeration.
    let script = script_with(vec![], vec!["secrets"]);
    let pending = vec![
        (s("secrets/key.pem"), StatusKind::Modified),
        (s("files/a"), StatusKind::Added),
    ];
    let steps = apply_plan(&pending, &script);
    assert_eq!(steps.len(), 1);
    assert_eq!(steps[0].path, s("files/a"));
}

#[test]
fn apply_aborts_at_the_unsupported_status() {
    // The bad path is planned like any other; the run aborts only when the
    // staging decision for it is reached, leaving the earlier steps
    // applied.
    let script = script_with(vec![], vec![]);
    let pending = vec![
        (s("files/b"), StatusKind::Other),
        (s("files/a"), StatusKind::Added),
    ];
    let steps = apply_plan(&pending, &script);
    assert_eq!(steps.len(), 2);
    assert_eq!(steps[0].path, s("files/a"));
    assert_eq!(stage_decision(&steps[0]).unwrap(), StageOp::Add);
    match stage_decision(&steps[1]) {
        Err(EngineError::UnsupportedStatus(p)) => assert_eq!(p, s("files/b")),
        other => panic!("expected an unsupported-status error, got {:?}", other),
    }
}

#[test]
fn end_to_end_draft_then_apply() {
    // Desired state: one file under the `files` effector. Draft writes it
    // into the shadow tree; Apply sees it pending as new, routes it to the
    // effector, and stages it.
    let config = vec![
        (
            s("shadow_dir"),
            care::config::ConfigValue::Text(s("/shadow")),
        ),
        (
            s("effectors"),
            care::config::ConfigValue::Table(vec![(
                s("files"),
                care::config::ConfigValue::Text(s("*scp --host h --user u --key-agent")),
            )]),
        ),
        (
            s("tree"),
            care::config::ConfigValue::Table(vec![(
                s("files"),
                care::config::ConfigValue::Table(vec![(
                    s("etc"),
                    care::config::ConfigValue::Table(vec![(
                        s("motd"),
                        care::config::ConfigValue::Text(s("hello\n")),
                    )]),
                )]),
            )]),
        ),
    ];
    let script = care::script::Script::parse_toml(&config, "/").unwrap();
    assert_eq!(script.validate(), Ok(()));

    let plan = draft_plan(&vec![], &script).unwrap();
    assert_eq!(plan.writes, vec![(s("files/etc/motd"), s("hello\n"))]);
    assert!(plan.deletes.is_empty());

    let pending = vec![(s("files/etc/motd"), StatusKind::Added)];
    let steps = apply_plan(&pending, &script);
    assert_eq!(steps.len(), 1);
    assert_eq!(steps[0].prefix, s("files"));
    assert_eq!(steps[0].subpath, s("etc/motd"));
    assert_eq!(stage_decision(&steps[0]).unwrap(), StageOp::Add);

    let registry = care::effectors::Effectors::init(&script.effectors).unwrap();
    match registry.affect_plan(&steps[0].prefix, &steps[0].subpath, &script.shadow_dir) {
        Ok(care::effectors::EffectorCall::ChildLine(line)) => {
            assert_eq!(line, s("affect etc%2Fmotd %2Fshadow%2Ffiles"));
        }
        _ => panic!("expected a child protocol line"),
    }
}
