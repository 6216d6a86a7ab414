use waycal::backend::{for_account, AnyBackend};
use waycal::caldav::NextcloudBackend;
use waycal::config::{
    default_account_color, default_hidden_event_types, default_poll_interval, default_reminder_mins, expand_tilde, load,
    validate, Account, Config, Found, Place, Provider, Theme,
};
use waycal::gws::GoogleBackend;

fn text_of(t: &toml::Table, key: &str) -> Option<String> {
    t.get(key).and_then(toml::Value::as_str).map(str::to_string)
}

fn account_of(t: &toml::Table) -> Account {
    Account {
        name: text_of(t, "name").unwrap(),
        provider: match text_of(t, "provider").as_deref() {
            None => Provider::default(),
            Some("google") => Provider::Google,
            Some("nextcloud") => Provider::Nextcloud,
            Some(other) => panic!("unknown provider {other}"),
        },
        color: text_of(t, "color").unwrap_or_else(default_account_color),
        config_dir: text_of(t, "config_dir"),
        credentials_file: text_of(t, "credentials_file"),
        server_url: text_of(t, "server_url"),
        username: text_of(t, "username"),
        app_password_file: text_of(t, "app_password_file"),
    }
}

fn config_of(text: &str) -> Config {
    let table: toml::Table = toml::from_str(text).unwrap();
    let accounts = match table.get("accounts").and_then(toml::Value::as_array) {
        Some(list) => list.iter().map(|a| account_of(a.as_table().unwrap())).collect(),
        None => Vec::new(),
    };
    Config {
        poll_interval_secs: default_poll_interval(),
        default_reminder_mins: default_reminder_mins(),
        task_digest_time: None,
        hide_event_types: default_hidden_event_types(),
        theme: Theme::default(),
        accounts,
    }
}

#[test]
fn google_only_config_without_provider_key_still_parses() {
    let toml = r#"
        [[accounts]]
        name = "celvisc"
        config_dir = "~/.config/gws-celvisc"
        credentials_file = "~/.config/gwc-conf/celvisc-credentials.json"
    "#;
    let cfg = config_of(toml);
    assert_eq!(cfg.accounts.len(), 1);
    assert_eq!(cfg.accounts[0].provider, Provider::Google);
    assert!(validate(&cfg.accounts).is_ok());
}

#[test]
fn nextcloud_account_missing_field_fails_validation() {
    let toml = r#"
        [[accounts]]
        name = "personal-nc"
        provider = "nextcloud"
        server_url = "https://cloud.example.com"
        username = "alice"
    "#;
    let cfg = config_of(toml);
    let err = validate(&cfg.accounts).unwrap_err();
    assert!(err.contains("app_password_file"), "unexpected error: {err}");
}

#[test]
fn complete_nextcloud_account_validates() {
    let toml = r#"
        [[accounts]]
        name = "personal-nc"
        provider = "nextcloud"
        server_url = "https://cloud.example.com"
        username = "alice"
        app_password_file = "~/.config/waycal/nextcloud-app-password"
    "#;
    let cfg = config_of(toml);
    assert_eq!(cfg.accounts[0].provider, Provider::Nextcloud);
    assert!(validate(&cfg.accounts).is_ok());
}

fn account(name: &str, provider: Provider) -> Account {
    Account {
        name: name.into(),
        provider,
        color: default_account_color(),
        config_dir: Some("c".into()),
        credentials_file: Some("f".into()),
        server_url: Some("s".into()),
        username: Some("u".into()),
        app_password_file: Some("p".into()),
    }
}

#[test]
fn validation_names_the_first_account_and_field() {
    assert!(validate(&[]).is_ok());
    let good = account("good", Provider::Google);
    let mut bad = account("bad", Provider::Google);
    bad.config_dir = Some(String::new());
    bad.credentials_file = None;
    let mut worse = account("worse", Provider::Nextcloud);
    worse.server_url = None;
    assert_eq!(
        validate(&[good, bad, worse]).unwrap_err(),
        "account 'bad' (provider=Google) is missing required field 'config_dir'"
    );
    let mut nc = account("nc", Provider::Nextcloud);
    nc.config_dir = None;
    nc.username = Some(String::new());
    assert_eq!(
        validate(&[nc]).unwrap_err(),
        "account 'nc' (provider=Nextcloud) is missing required field 'username'"
    );
    let mut google = account("g", Provider::Google);
    google.credentials_file = None;
    assert!(validate(&[google]).unwrap_err().ends_with("'credentials_file'"));
}

#[test]
fn backends_are_picked_by_provider() {
    assert!(matches!(for_account(&account("a", Provider::Google)), AnyBackend::Google(GoogleBackend)));
    assert!(matches!(for_account(&account("a", Provider::Nextcloud)), AnyBackend::Nextcloud(NextcloudBackend)));
}

#[test]
fn defaults_are_as_documented() {
    assert_eq!(default_poll_interval(), 300);
    assert_eq!(default_reminder_mins(), 10);
    assert_eq!(default_account_color(), "#8FBC8F");
    assert_eq!(default_hidden_event_types(), vec!["workingLocation", "birthday"]);
    let t = Theme::default();
    assert_eq!(
        (t.background.as_str(), t.input_background.as_str(), t.text.as_str()),
        ("#1a2125", "#232c31", "#c9d1d9")
    );
    assert_eq!((t.dim_text.as_str(), t.accent.as_str(), t.error.as_str()), ("#6a7a71", "#8FBC8F", "#e06c75"));
}

#[test]
fn loading_says_why_there_is_no_config() {
    let (cfg, notice) = load("/c.toml", Found::Nothing);
    assert!(cfg.is_none());
    assert_eq!(
        notice.unwrap(),
        "waycal: no config at /c.toml — running plain calendar. \
         Add [[accounts]] entries there to enable Google Calendar/Tasks."
    );
    let (cfg, notice) = load("/c.toml", Found::Unreadable("denied".into()));
    assert!(cfg.is_none());
    assert_eq!(notice.unwrap(), "waycal: cannot read /c.toml: denied");
    let (cfg, notice) = load("/c.toml", Found::Malformed("line 1".into()));
    assert!(cfg.is_none());
    assert_eq!(notice.unwrap(), "waycal: invalid config /c.toml: line 1");
    let (cfg, notice) = load("/c.toml", Found::Parsed(config_of("")));
    assert!(cfg.is_none());
    assert_eq!(notice.unwrap(), "waycal: /c.toml has no [[accounts]] — running plain calendar");
    let (cfg, notice) = load("/c.toml", Found::Parsed(config_of("[[accounts]]\nname = \"x\"")));
    assert!(cfg.is_none());
    assert_eq!(
        notice.unwrap(),
        "waycal: invalid config /c.toml: account 'x' (provider=Google) is missing required field 'config_dir'"
    );
    let good = "[[accounts]]\nname = \"x\"\nconfig_dir = \"d\"\ncredentials_file = \"f\"";
    let (cfg, notice) = load("/c.toml", Found::Parsed(config_of(good)));
    assert_eq!(cfg.unwrap().accounts[0].name, "x");
    assert!(notice.is_none());
}

#[test]
fn tilde_stands_for_home() {
    assert!(matches!(expand_tilde("~/a/b", true), Place::Home(rest) if rest == "a/b"));
    assert!(matches!(expand_tilde("~/a", false), Place::Plain(p) if p == "~/a"));
    assert!(matches!(expand_tilde("/a", true), Place::Plain(p) if p == "/a"));
    assert!(matches!(expand_tilde("~a", true), Place::Plain(p) if p == "~a"));
}
