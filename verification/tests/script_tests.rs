use care::script::Script;
use care::script::ValidationError;
use care::script::ValidationError::DoubleDotInPath;
use care::script::ValidationError::DoubleSlashInPath;
use care::script::ValidationError::TrailingSlashInPath;
use care::config::ConfigValue;
use care::config::ScriptError;

fn s(string: &str) -> String {
    string.to_string()
}

fn vsp<'a>(paths: impl IntoIterator<Item = &'a str>) -> Result<(), ValidationError> {
    Script {
        paths: paths
            .into_iter()
            .map(|s| (s.to_string(), "".to_string()))
            .collect(),
        ..Default::default()
    }
    .validate()
}

#[test]
fn validate_problems_in_paths() {
    assert_eq!(vsp(["a/../b"]), Err(DoubleDotInPath(s("a/../b"))));
    assert_eq!(vsp(["foo//bar"]), Err(DoubleSlashInPath(s("foo//bar"))));
    assert_eq!(
        vsp(["foo/bar//baz"]),
        Err(DoubleSlashInPath(s("foo/bar//baz")))
    );
    assert_eq!(
        vsp(["ok_a/ok_b", "foo/bar//baz"]),
        Err(DoubleSlashInPath(s("foo/bar//baz")))
    );
    assert_eq!(
        vsp(["ok_a/ok_b", "foo/bar/"]),
        Err(TrailingSlashInPath(s("foo/bar/")))
    );
    assert_eq!(vsp(["ok_a/ok_b", "foo/"]), Err(TrailingSlashInPath(s("foo/"))));
}

#[test]
fn validate_accepts_plain_keys() {
    assert_eq!(vsp(["a/b/c"]), Ok(()));
    assert_eq!(vsp(["files/etc/motd", "pkgs/vim"]), Ok(()));
    assert_eq!(vsp([]), Ok(()));
}

#[test]
fn ignores_path_first_segment_only() {
    let script = Script {
        ignores: vec![s("secrets"), s("tmp")],
        ..Default::default()
    };
    assert!(script.ignores_path("secrets/key.pem"));
    assert!(script.ignores_path("tmp"));
    assert!(!script.ignores_path("files/secrets/key.pem"));
    assert!(!script.ignores_path("secretsandmore/x"));
}

fn text(v: &str) -> ConfigValue {
    ConfigValue::Text(s(v))
}

fn table(entries: Vec<(&str, ConfigValue)>) -> ConfigValue {
    ConfigValue::Table(entries.into_iter().map(|(k, v)| (s(k), v)).collect())
}

fn base_config() -> Vec<(String, ConfigValue)> {
    vec![
        (s("shadow_dir"), text("/var/shadow")),
        (
            s("effectors"),
            table(vec![("files", text("*scp --host h --user u --key-agent"))]),
        ),
        (
            s("tree"),
            table(vec![(
                "files",
                table(vec![("etc", table(vec![("motd", text("hello\n"))]))]),
            )]),
        ),
    ]
}

#[test]
fn parse_toml_flattens_tree() {
    let script = Script::parse_toml(&base_config(), "/base").unwrap();
    assert_eq!(script.shadow_dir, s("/var/shadow"));
    assert!(script.ignores.is_empty());
    assert_eq!(script.effectors.len(), 1);
    assert_eq!(script.effectors[0].0, s("files"));
    assert_eq!(
        script.effectors[0].1,
        vec![s("*scp"), s("--host"), s("h"), s("--user"), s("u"), s("--key-agent")]
    );
    assert_eq!(script.paths, vec![(s("files/etc/motd"), s("hello\n"))]);
}

#[test]
fn parse_toml_joins_relative_shadow_dir() {
    let mut config = base_config();
    config[0].1 = text("shadow");
    let script = Script::parse_toml(&config, "/base").unwrap();
    assert_eq!(script.shadow_dir, s("/base/shadow"));
    // An absent shadow_dir defaults to `.` under the base directory.
    config.remove(0);
    let script = Script::parse_toml(&config, "/base").unwrap();
    assert_eq!(script.shadow_dir, s("/base/."));
}

#[test]
fn parse_toml_reads_ignores() {
    let mut config = base_config();
    config.push((
        s("ignores"),
        ConfigValue::List(vec![text("secrets"), text("tmp")]),
    ));
    let script = Script::parse_toml(&config, ".").unwrap();
    assert_eq!(script.ignores, vec![s("secrets"), s("tmp")]);
}

#[test]
fn parse_toml_rejects_each_malformed_shape() {
    // shadow_dir of a wrong kind.
    let mut config = base_config();
    config[0].1 = ConfigValue::Other;
    assert!(matches!(
        Script::parse_toml(&config, "."),
        Err(ScriptError::ExpectedShadowDirText)
    ));
    // ignores of a wrong kind.
    let mut config = base_config();
    config.push((s("ignores"), text("secrets")));
    assert!(matches!(
        Script::parse_toml(&config, "."),
        Err(ScriptError::ExpectedIgnoresList)
    ));
    // an ignores entry of a wrong kind.
    let mut config = base_config();
    config.push((
        s("ignores"),
        ConfigValue::List(vec![text("ok"), ConfigValue::Other]),
    ));
    assert!(matches!(
        Script::parse_toml(&config, "."),
        Err(ScriptError::ExpectedIgnoreText(1))
    ));
    // no effectors table at all.
    let config: Vec<(String, ConfigValue)> = vec![(s("tree"), table(vec![]))];
    assert!(matches!(
        Script::parse_toml(&config, "."),
        Err(ScriptError::MissingEffectors)
    ));
    // effectors of a wrong kind.
    let mut config = base_config();
    config[1].1 = text("nope");
    assert!(matches!(
        Script::parse_toml(&config, "."),
        Err(ScriptError::ExpectedEffectorsTable)
    ));
    // an effector binding of a wrong kind.
    let mut config = base_config();
    config[1].1 = table(vec![("files", ConfigValue::Other)]);
    match Script::parse_toml(&config, ".") {
        Err(ScriptError::ExpectedEffectorText(k)) => assert_eq!(k, s("files")),
        other => panic!("expected an effector-text error, got {:?}", other),
    }
    // no tree at all.
    let mut config = base_config();
    config.remove(2);
    assert!(matches!(
        Script::parse_toml(&config, "."),
        Err(ScriptError::MissingTree)
    ));
    // tree of a wrong kind.
    let mut config = base_config();
    config[2].1 = text("nope");
    assert!(matches!(
        Script::parse_toml(&config, "."),
        Err(ScriptError::ExpectedTreeTable)
    ));
    // a tree node of a kind the desired state cannot hold.
    let mut config = base_config();
    config[2].1 = table(vec![("files", table(vec![("bad", ConfigValue::Other)]))]);
    match Script::parse_toml(&config, ".") {
        Err(ScriptError::UnexpectedValueInTree(p)) => assert_eq!(p, s("files/bad")),
        other => panic!("expected a tree-value error, got {:?}", other),
    }
}

#[test]
fn parse_toml_keeps_paths_sorted() {
    let mut config = base_config();
    config[2].1 = table(vec![
        ("zeta", text("z")),
        ("alpha", table(vec![("b", text("ab"))])),
        ("mid", text("m")),
    ]);
    let script = Script::parse_toml(&config, ".").unwrap();
    assert_eq!(
        script.paths,
        vec![(s("alpha/b"), s("ab")), (s("mid"), s("m")), (s("zeta"), s("z"))]
    );
}

#[test]
fn parse_toml_last_binding_wins_for_equal_keys() {
    // A nested table and a key holding a slash can name the same path; the
    // binding read later wins, as in a plain mapping insert.
    let mut config = base_config();
    config[2].1 = table(vec![
        ("a", table(vec![("b", text("nested"))])),
        ("a/b", text("flat")),
    ]);
    let script = Script::parse_toml(&config, ".").unwrap();
    assert_eq!(script.paths, vec![(s("a/b"), s("flat"))]);
}

#[test]
fn validation_errors_describe_themselves() {
    let err = vsp(["foo/"]).unwrap_err();
    assert_eq!(err.describe(), s("path ends with a slash: foo/"));
    let err = vsp(["a//b"]).unwrap_err();
    assert_eq!(err.describe(), s("path contains double slash: a//b"));
    let err = vsp(["a/../b"]).unwrap_err();
    assert_eq!(err.describe(), s("path contains double dot: a/../b"));
}
