use zedazo::config::{
    first_nonempty, nonempty, pick_password, resolve_config, ConfigOverrides, ConfigValues,
    ENV_PASSWORD, GUI_AUTH_TOKEN_ENV,
};
use zedazo::error::CardDavError;

#[test]
fn password_ignores_gui_auth_token() {
    let err = pick_password(
        None,
        |k| {
            if k == GUI_AUTH_TOKEN_ENV {
                Some("token-de-gui-no-servir".into())
            } else {
                None
            }
        },
        None,
    )
    .unwrap_err();
    assert!(matches!(err, CardDavError::MissingPassword));
}

#[test]
fn password_prefers_carddav_env_over_file() {
    let pw = pick_password(
        None,
        |k| {
            if k == ENV_PASSWORD {
                Some("app-pass".into())
            } else if k == GUI_AUTH_TOKEN_ENV {
                Some("gui".into())
            } else {
                None
            }
        },
        Some("from-file".into()),
    )
    .unwrap();
    assert_eq!(pw, "app-pass");
}

#[test]
fn password_override_and_file_fallback() {
    assert_eq!(pick_password(Some(" cli ".into()), |_| Some("env".into()), None).unwrap(), "cli");
    assert_eq!(pick_password(Some("  ".into()), |_| Some(" ".into()), Some("f".into())).unwrap(), "f");
}

#[test]
fn nonempty_helpers() {
    assert_eq!(nonempty(Some("  a ".into())).as_deref(), Some("a"));
    assert_eq!(nonempty(Some("   ".into())), None);
    assert_eq!(first_nonempty([None, Some(" ".into()), Some("x".into())]).as_deref(), Some("x"));
}

#[test]
fn load_cli_overrides_toml() {
    let cfg = resolve_config(
        ConfigOverrides {
            url: Some("https://from-cli.example.test/dav/".into()),
            username: Some("cli".into()),
            password: Some("cli-pass".into()),
            ..ConfigOverrides::default()
        },
        ConfigValues::default(),
        ConfigValues {
            url: Some("https://from-file.example.test/".into()),
            username: Some("file".into()),
            password: Some("file-pass".into()),
            addressbook: None,
        },
    )
    .unwrap();
    assert_eq!(cfg.url.as_str(), "https://from-cli.example.test/dav/");
    assert_eq!(cfg.username, "cli");
    assert_eq!(cfg.password, "cli-pass");
    assert!(cfg.addressbook.is_none());
}

#[test]
fn resolve_reports_missing_values_and_bad_urls() {
    let none = ConfigValues::default();
    assert!(matches!(
        resolve_config(ConfigOverrides::default(), none.clone(), none.clone()),
        Err(CardDavError::MissingUrl)
    ));
    let env = ConfigValues {
        url: Some("http://cloud.example.test/".into()),
        username: Some("ada".into()),
        password: None,
        addressbook: None,
    };
    assert!(matches!(
        resolve_config(ConfigOverrides::default(), env.clone(), none.clone()),
        Err(CardDavError::MissingPassword)
    ));
    let file = ConfigValues { password: Some("p".into()), ..ConfigValues::default() };
    assert!(matches!(
        resolve_config(ConfigOverrides::default(), env, file),
        Err(CardDavError::CleartextForbidden)
    ));
}

#[test]
fn load_from_toml_and_redacts_debug() {
    let cfg = resolve_config(
        ConfigOverrides::default(),
        ConfigValues::default(),
        ConfigValues {
            url: Some("https://cloud.example.test/remote.php/dav/".into()),
            username: Some("ada".into()),
            password: Some("super-secreto".into()),
            addressbook: None,
        },
    )
    .unwrap();
    assert_eq!(cfg.username, "ada");
    assert_eq!(cfg.password, "super-secreto");
    let dbg = cfg.redacted();
    assert!(!dbg.contains("super-secreto"), "{dbg}");
    assert!(dbg.contains("***"));
    assert_eq!(
        dbg,
        "CardDavConfig { url: \"https://cloud.example.test/remote.php/dav/\", username: \"ada\", password: \"***\", addressbook: None }"
    );
}

#[test]
fn bad_addressbook_url_gives_its_own_error() {
    let file = ConfigValues {
        url: Some("https://cloud.example.test/".into()),
        username: Some("ada".into()),
        password: Some("p".into()),
        addressbook: Some("ftp://cloud.example.test/book/".into()),
    };
    match resolve_config(ConfigOverrides::default(), ConfigValues::default(), file) {
        Err(CardDavError::UnsupportedScheme(s)) => assert_eq!(s, "ftp"),
        other => panic!("{:?}", other.map(|c| c.redacted())),
    }
    let bad = ConfigValues {
        url: Some("no es una url".into()),
        username: Some("ada".into()),
        password: Some("p".into()),
        addressbook: None,
    };
    assert!(matches!(
        resolve_config(ConfigOverrides::default(), ConfigValues::default(), bad),
        Err(CardDavError::InvalidUrl(_))
    ));
}

#[test]
fn password_same_whatever_the_gui_token() {
    let with_token = |k: &str| {
        if k == ENV_PASSWORD {
            Some(" env ".to_string())
        } else if k == GUI_AUTH_TOKEN_ENV {
            Some("gui".to_string())
        } else {
            None
        }
    };
    let without_token = |k: &str| if k == ENV_PASSWORD { Some("env".to_string()) } else { None };
    assert_eq!(pick_password(None, with_token, None).unwrap(), "env");
    assert_eq!(pick_password(None, without_token, None).unwrap(), "env");
}
