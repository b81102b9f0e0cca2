use care::effectors::{
    classify_command, BackendKind, EffectorCall, Effectors, EffectorsError,
};

fn s(v: &str) -> String {
    v.to_string()
}

fn cmd(words: Vec<&str>) -> Vec<String> {
    words.into_iter().map(s).collect()
}

#[test]
fn classification_follows_the_fixed_precedence() {
    // Embedded-script binding shape first.
    match classify_command(&cmd(vec!["lua53", "files.lua", "arg1"])) {
        Some(BackendKind::Embedded { script, args }) => {
            assert_eq!(script, s("files.lua"));
            assert_eq!(args, vec![s("arg1")]);
        }
        _ => panic!("expected an embedded binding"),
    }
    // Then known native names.
    match classify_command(&cmd(vec!["zeroinstall"])) {
        Some(BackendKind::Native { name }) => assert_eq!(name, s("zeroinstall")),
        _ => panic!("expected a native binding"),
    }
    // Then known child-process names.
    match classify_command(&cmd(vec!["*scp", "--host", "h"])) {
        Some(BackendKind::Child { name, args }) => {
            assert_eq!(name, s("*scp"));
            assert_eq!(args, vec![s("--host"), s("h")]);
        }
        _ => panic!("expected a child binding"),
    }
    match classify_command(&cmd(vec!["*lua", "winfs"])) {
        Some(BackendKind::Child { name, .. }) => assert_eq!(name, s("*lua")),
        _ => panic!("expected a child binding"),
    }
    match classify_command(&cmd(vec!["*zeroinstall"])) {
        Some(BackendKind::Child { name, .. }) => assert_eq!(name, s("*zeroinstall")),
        _ => panic!("expected a child binding"),
    }
    // Anything else selects no backend.
    assert!(classify_command(&cmd(vec!["frobnicate"])).is_none());
    assert!(classify_command(&cmd(vec!["lua53"])).is_none());
    assert!(classify_command(&cmd(vec![])).is_none());
    assert!(classify_command(&cmd(vec!["zeroinstall", "extra"])).is_none());
}

fn registry() -> Effectors {
    let spec = vec![
        (s("apps"), cmd(vec!["zeroinstall"])),
        (s("files"), cmd(vec!["*scp", "--host", "h", "--user", "u", "--key-agent"])),
        (s("pkgs"), cmd(vec!["lua53", "pkgs.lua"])),
    ];
    Effectors::init(&spec).unwrap()
}

#[test]
fn registry_rejects_unknown_commands_at_startup() {
    let spec = vec![(s("files"), cmd(vec!["frobnicate", "x"]))];
    match Effectors::init(&spec) {
        Err(EffectorsError::UnknownCommand(c)) => assert_eq!(c, cmd(vec!["frobnicate", "x"])),
        _ => panic!("expected an unknown-command error"),
    }
}

#[test]
fn registry_rejects_unbound_prefixes() {
    let e = registry();
    match e.detect_plan("nosuch", "x") {
        Err(EffectorsError::NotFound(p)) => assert_eq!(p, s("nosuch")),
        _ => panic!("expected a not-found error"),
    }
}

#[test]
fn registry_plans_child_protocol_lines() {
    let e = registry();
    match e.detect_plan("files", "etc/motd") {
        Ok(EffectorCall::ChildLine(line)) => assert_eq!(line, s("detect etc%2Fmotd")),
        _ => panic!("expected a child line"),
    }
    match e.gather_plan("files", "etc/motd", "/shadow") {
        Ok(EffectorCall::ChildLine(line)) => {
            assert_eq!(line, s("gather etc%2Fmotd %2Fshadow%2Ffiles"))
        }
        _ => panic!("expected a child line"),
    }
    match e.affect_plan("files", "etc/motd", "/shadow") {
        Ok(EffectorCall::ChildLine(line)) => {
            assert_eq!(line, s("affect etc%2Fmotd %2Fshadow%2Ffiles"))
        }
        _ => panic!("expected a child line"),
    }
}

#[test]
fn registry_plans_embedded_calls_with_rewritten_shadow_path() {
    let e = registry();
    match e.detect_plan("pkgs", "vim") {
        Ok(EffectorCall::EmbeddedCall { method, args }) => {
            assert_eq!(method, s("exists"));
            assert_eq!(args, vec![s("vim")]);
        }
        _ => panic!("expected an embedded call"),
    }
    // The shadow-side path is always shadow_root/prefix/subpath, derived by
    // the registry, never by the backend.
    match e.gather_plan("pkgs", "vim", "/shadow") {
        Ok(EffectorCall::EmbeddedCall { method, args }) => {
            assert_eq!(method, s("query"));
            assert_eq!(args, vec![s("vim"), s("/shadow/pkgs/vim")]);
        }
        _ => panic!("expected an embedded call"),
    }
    match e.affect_plan("pkgs", "vim", "/shadow") {
        Ok(EffectorCall::EmbeddedCall { method, args }) => {
            assert_eq!(method, s("apply"));
            assert_eq!(args, vec![s("vim"), s("/shadow/pkgs/vim")]);
        }
        _ => panic!("expected an embedded call"),
    }
}

#[test]
fn registry_plans_native_invocations() {
    let e = registry();
    match e.detect_plan("apps", "https/example.com/app.xml") {
        Ok(EffectorCall::Native { name }) => assert_eq!(name, s("zeroinstall")),
        _ => panic!("expected a native invocation"),
    }
}
