use care::handlers::{NativeHandler, RustHandlers};
use care::manaprotocol::callee::AffectAction;
use care::scp::{based, key_selection, Args, KeySelection};
use care::winfeat::{Handler as WinfeatHandler, Win32OptFeat};
use care::zeroinstall::{
    affect_action, disk_path_of_url_parts, url_of_app_path, Handler as ZeroHandler,
};

fn s(v: &str) -> String {
    v.to_string()
}

#[test]
fn winfeat_handler_answers_membership() {
    let handler = WinfeatHandler::new(vec![
        Win32OptFeat { name: s("TelnetClient") },
        Win32OptFeat { name: s("Hyper-V") },
    ]);
    assert!(handler.detect_feat("TelnetClient"));
    assert!(handler.detect_feat("Hyper-V"));
    assert!(!handler.detect_feat("Containers"));
}

#[test]
fn zeroinstall_handler_serves_catalog_entries() {
    let handler = ZeroHandler::new(vec![
        (s("https/example.com/app.xml"), s("<app one/>")),
        (s("https/other.org/tool.xml"), s("<app two/>")),
    ]);
    assert!(handler.detect_app("https/example.com/app.xml"));
    assert!(!handler.detect_app("https/example.com/missing.xml"));
    assert_eq!(
        handler.lookup_app("https/other.org/tool.xml"),
        Some(&s("<app two/>"))
    );
    assert_eq!(handler.lookup_app("nope/x"), None);
}

#[test]
fn app_paths_and_urls_convert_both_ways() {
    assert_eq!(
        url_of_app_path("https/example.com/apps/editor.xml"),
        Ok(s("https://example.com/apps/editor.xml"))
    );
    assert!(url_of_app_path("no-slash-here").is_err());
    assert_eq!(
        disk_path_of_url_parts("https", "example.com", &vec![s("apps"), s("editor.xml")]),
        s("https/example.com/apps/editor.xml")
    );
}

#[test]
fn zeroinstall_affect_decides_remove_or_import() {
    // A missing shadow file is a normal signal: it means the app is to be
    // removed, not an error.
    match affect_action("https/example.com/app.xml", None) {
        Ok(AffectAction::RemoveApp { url }) => assert_eq!(url, s("https://example.com/app.xml")),
        _ => panic!("expected a removal"),
    }
    let content = s("<app/>");
    match affect_action("https/example.com/app.xml", Some(&content)) {
        Ok(AffectAction::ImportApp { url }) => assert_eq!(url, s("https://example.com/app.xml")),
        _ => panic!("expected an import"),
    }
    assert!(affect_action("noslash", None).is_err());
}

#[test]
fn rust_handlers_dispatch_by_prefix() {
    let mut handlers = RustHandlers {
        map: vec![
            (
                s("apps"),
                NativeHandler::Zeroinstall(ZeroHandler::new(vec![(
                    s("https/example.com/app.xml"),
                    s("<app/>"),
                )])),
            ),
            (
                s("feats"),
                NativeHandler::Winfeat(WinfeatHandler::new(vec![Win32OptFeat {
                    name: s("TelnetClient"),
                }])),
            ),
        ],
    };
    assert_eq!(
        handlers.maybe_detect("apps", "https/example.com/app.xml"),
        Some(Ok(true))
    );
    assert_eq!(handlers.maybe_detect("apps", "https/example.com/no.xml"), Some(Ok(false)));
    assert_eq!(handlers.maybe_detect("feats", "TelnetClient"), Some(Ok(true)));
    assert_eq!(handlers.maybe_detect("other", "x"), None);
    assert_eq!(
        handlers.maybe_gather("apps", "https/example.com/app.xml"),
        Some(Ok(s("<app/>")))
    );
    assert_eq!(handlers.maybe_gather("feats", "TelnetClient"), Some(Ok(s(""))));
    assert_eq!(handlers.maybe_gather("other", "x"), None);
    match handlers.maybe_affect("apps", "https/example.com/app.xml", None) {
        Some(Ok(AffectAction::RemoveApp { url })) => {
            assert_eq!(url, s("https://example.com/app.xml"))
        }
        _ => panic!("expected a removal"),
    }
    assert!(matches!(handlers.maybe_affect("feats", "TelnetClient", None), Some(Err(_))));
    assert!(handlers.maybe_affect("other", "x", None).is_none());
}

#[test]
fn scp_settings_demand_exactly_one_key_source() {
    let mut args = Args {
        host: s("h"),
        user: s("u"),
        key_path: None,
        key_agent: false,
        base_dir: None,
    };
    assert!(key_selection(&args).is_err());
    args.key_agent = true;
    assert!(matches!(key_selection(&args), Ok(KeySelection::Agent)));
    args.key_path = Some(s("/home/u/.ssh/id"));
    assert!(key_selection(&args).is_err());
    args.key_agent = false;
    match key_selection(&args) {
        Ok(KeySelection::KeyFile(p)) => assert_eq!(p, s("/home/u/.ssh/id")),
        _ => panic!("expected the key file"),
    }
}

#[test]
fn scp_paths_resolve_under_the_base_directory() {
    assert_eq!(based(&None, "etc/motd"), s("etc/motd"));
    assert_eq!(based(&Some(s("/srv")), "etc/motd"), s("/srv/etc/motd"));
    assert_eq!(based(&Some(s("/srv/")), "etc/motd"), s("/srv/etc/motd"));
}

#[test]
fn ssh_settings_carry_their_plain_values() {
    let args = care::ssh::Args {
        host: s("example.com"),
        user: s("deploy"),
        key_path: s("/home/deploy/.ssh/id"),
    };
    assert_eq!(args.host, s("example.com"));
    assert_eq!(args.user, s("deploy"));
    assert_eq!(args.key_path, s("/home/deploy/.ssh/id"));
}
