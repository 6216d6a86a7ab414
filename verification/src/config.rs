//! The configuration: accounts, theme and polling.

use vstd::prelude::*;

use crate::text;

verus! {

/// Who serves an account.
#[derive(Clone, Copy, Debug, PartialEq, Eq, Structural)]
pub enum Provider {
    Google,
    Nextcloud,
}

impl Default for Provider {
    fn default() -> (r: Self)
        ensures
            r == Provider::Google,
    {
        Provider::Google
    }
}

/// One account. The fields of the other provider may be left out.
#[derive(Clone, Debug)]
pub struct Account {
    pub name: String,
    pub provider: Provider,
    pub color: String,
    /// Google: required.
    pub config_dir: Option<String>,
    /// Google: required.
    pub credentials_file: Option<String>,
    /// Nextcloud: required.
    pub server_url: Option<String>,
    /// Nextcloud: required.
    pub username: Option<String>,
    /// Nextcloud: required. The app password itself is not in the configuration.
    pub app_password_file: Option<String>,
}

/// The whole configuration.
#[derive(Clone, Debug)]
pub struct Config {
    pub poll_interval_secs: u64,
    pub default_reminder_mins: i64,
    /// "HH:MM" local time for the daily task digest; `None` disables it.
    pub task_digest_time: Option<String>,
    pub hide_event_types: Vec<String>,
    pub theme: Theme,
    pub accounts: Vec<Account>,
}

/// App-wide colors. Any CSS color syntax works.
#[derive(Clone, Debug)]
pub struct Theme {
    pub background: String,
    pub input_background: String,
    pub text: String,
    pub dim_text: String,
    pub accent: String,
    pub error: String,
}

/// The model of an [`Account`].
#[verifier::ext_equal]
pub struct AccountView {
    pub name: Seq<char>,
    pub provider: Provider,
    pub color: Seq<char>,
    pub config_dir: Option<Seq<char>>,
    pub credentials_file: Option<Seq<char>>,
    pub server_url: Option<Seq<char>>,
    pub username: Option<Seq<char>>,
    pub app_password_file: Option<Seq<char>>,
}

impl DeepView for Account {
    type V = AccountView;

    open spec fn deep_view(&self) -> AccountView {
        AccountView {
            name: self.name@,
            provider: self.provider,
            color: self.color@,
            config_dir: self.config_dir.deep_view(),
            credentials_file: self.credentials_file.deep_view(),
            server_url: self.server_url.deep_view(),
            username: self.username.deep_view(),
            app_password_file: self.app_password_file.deep_view(),
        }
    }
}

impl Default for Theme {
    fn default() -> (r: Self)
        ensures
            r.background@ == "#1a2125"@,
            r.input_background@ == "#232c31"@,
            r.text@ == "#c9d1d9"@,
            r.dim_text@ == "#6a7a71"@,
            r.accent@ == "#8FBC8F"@,
            r.error@ == "#e06c75"@,
    {
        Theme {
            background: "#1a2125".to_owned(),
            input_background: "#232c31".to_owned(),
            text: "#c9d1d9".to_owned(),
            dim_text: "#6a7a71".to_owned(),
            accent: "#8FBC8F".to_owned(),
            error: "#e06c75".to_owned(),
        }
    }
}

/// The color of an account that names none.
pub fn default_account_color() -> (r: String)
    ensures
        r@ == "#8FBC8F"@,
{
    "#8FBC8F".to_owned()
}

/// Seconds between two polls where the configuration names none.
pub fn default_poll_interval() -> (r: u64)
    ensures
        r == 300,
{
    300
}

/// Minutes before an event at which it is announced where nothing else says.
pub fn default_reminder_mins() -> (r: i64)
    ensures
        r == 10,
{
    10
}

/// The event types that are hidden where the configuration names none.
pub fn default_hidden_event_types() -> (r: Vec<String>)
    ensures
        r.deep_view() == seq!["workingLocation"@, "birthday"@],
{
    let mut out: Vec<String> = Vec::new();
    out.push("workingLocation".to_owned());
    out.push("birthday".to_owned());
    assert(out.deep_view() == seq!["workingLocation"@, "birthday"@]);
    out
}

// ---------------------------------------------------------------------
// Validation
// ---------------------------------------------------------------------

/// Whether a field is missing: left out or empty.
pub open spec fn absent(field: Option<Seq<char>>) -> bool {
    field matches Some(v) ==> v.len() == 0
}

/// The first field that an account needs and lacks.
pub open spec fn missing_field(a: AccountView) -> Option<Seq<char>> {
    match a.provider {
        Provider::Google => if absent(a.config_dir) {
            Some("config_dir"@)
        } else if absent(a.credentials_file) {
            Some("credentials_file"@)
        } else {
            None
        },
        Provider::Nextcloud => if absent(a.server_url) {
            Some("server_url"@)
        } else if absent(a.username) {
            Some("username"@)
        } else if absent(a.app_password_file) {
            Some("app_password_file"@)
        } else {
            None
        },
    }
}

/// The name of a provider.
pub open spec fn provider_name(p: Provider) -> Seq<char> {
    match p {
        Provider::Google => "Google"@,
        Provider::Nextcloud => "Nextcloud"@,
    }
}

/// What is said of an account that lacks a field.
pub open spec fn complaint(a: AccountView, field: Seq<char>) -> Seq<char> {
    "account '"@ + a.name + "' (provider="@ + provider_name(a.provider)
        + ") is missing required field '"@ + field + "'"@
}

/// What validation says: nothing, or a complaint about the first account that
/// lacks a field.
pub open spec fn validation(accounts: Seq<AccountView>) -> Option<Seq<char>>
    decreases accounts.len(),
{
    if accounts.len() == 0 {
        None
    } else {
        match missing_field(accounts[0]) {
            Some(field) => Some(complaint(accounts[0], field)),
            None => validation(accounts.drop_first()),
        }
    }
}

/// Decides [`absent`].
fn is_absent(field: &Option<String>) -> (r: bool)
    ensures
        r == absent(field.deep_view()),
{
    match field {
        Some(v) => v.as_str().is_empty(),
        None => true,
    }
}

/// Finds the first field that an account needs and lacks.
fn find_missing(a: &Account) -> (r: Option<&'static str>)
    ensures
        r.deep_view() == missing_field(a.deep_view()),
{
    match a.provider {
        Provider::Google => if is_absent(&a.config_dir) {
            Some("config_dir")
        } else if is_absent(&a.credentials_file) {
            Some("credentials_file")
        } else {
            None
        },
        Provider::Nextcloud => if is_absent(&a.server_url) {
            Some("server_url")
        } else if is_absent(&a.username) {
            Some("username")
        } else if is_absent(&a.app_password_file) {
            Some("app_password_file")
        } else {
            None
        },
    }
}

/// Writes a complaint about a missing field.
fn complain(a: &Account, field: &str) -> (r: String)
    ensures
        r@ == complaint(a.deep_view(), field@),
{
    let mut out = "account '".to_owned();
    out.push_str(a.name.as_str());
    out.push_str("' (provider=");
    out.push_str(
        match a.provider {
            Provider::Google => "Google",
            Provider::Nextcloud => "Nextcloud",
        },
    );
    out.push_str(") is missing required field '");
    out.push_str(field);
    out.push_str("'");
    out
}

/// Checks that each account carries the fields its provider needs.
pub fn validate(accounts: &[Account]) -> (r: Result<(), String>)
    ensures
        match r {
            Ok(_) => validation(accounts.deep_view()) is None,
            Err(e) => validation(accounts.deep_view()) == Some(e@),
        },
{
    let ghost all = accounts.deep_view();
    let mut i: usize = 0;
    assert(all.skip(0) == all);
    while i < accounts.len()
        invariant
            i <= accounts@.len(),
            all == accounts.deep_view(),
            validation(all) == validation(all.skip(i as int)),
        decreases accounts.len() - i,
    {
        assert(all.skip(i as int)[0] == accounts@[i as int].deep_view());
        assert(all.skip(i as int).drop_first() == all.skip(i + 1));
        if let Some(field) = find_missing(&accounts[i]) {
            return Err(complain(&accounts[i], field));
        }
        i += 1;
    }
    Ok(())
}

/// Validation is silent exactly when every account has every field that its
/// provider needs.
pub proof fn law_validation_is_complete(accounts: Seq<AccountView>)
    ensures
        validation(accounts) is None <==> forall|i: int|
            0 <= i < accounts.len() ==> missing_field(#[trigger] accounts[i]) is None,
    decreases accounts.len(),
{
    if accounts.len() > 0 {
        let rest = accounts.drop_first();
        law_validation_is_complete(rest);
        if missing_field(accounts[0]) is None {
            if validation(rest) is None {
                assert forall|i: int| 0 <= i < accounts.len() implies missing_field(
                    #[trigger] accounts[i],
                ) is None by {
                    if i > 0 {
                        assert(accounts[i] == rest[i - 1]);
                    }
                }
            } else {
                let i = choose|i: int|
                    0 <= i < rest.len() && !(missing_field(#[trigger] rest[i]) is None);
                assert(accounts[i + 1] == rest[i]);
            }
        }
    }
}

/// The complaint is about the first account that lacks a field: all accounts
/// before it are complete.
pub proof fn law_validation_names_the_first(accounts: Seq<AccountView>, k: int)
    requires
        0 <= k < accounts.len(),
        forall|i: int| 0 <= i < k ==> missing_field(#[trigger] accounts[i]) is None,
        missing_field(accounts[k]) is Some,
    ensures
        validation(accounts) == Some(complaint(accounts[k], missing_field(accounts[k])->0)),
    decreases k,
{
    if k > 0 {
        assert(missing_field(accounts[0]) is None);
        let rest = accounts.drop_first();
        assert forall|i: int| 0 <= i < k - 1 implies missing_field(#[trigger] rest[i]) is None by {
            assert(rest[i] == accounts[i + 1]);
        }
        assert(rest[k - 1] == accounts[k]);
        law_validation_names_the_first(rest, k - 1);
    }
}

// ---------------------------------------------------------------------
// Loading
// ---------------------------------------------------------------------

/// What came of reading and parsing the configuration file.
#[derive(Debug)]
pub enum Found {
    /// There is no such file.
    Nothing,
    /// The file cannot be read, and why.
    Unreadable(String),
    /// The file is no configuration, and why.
    Malformed(String),
    /// The configuration in the file.
    Parsed(Config),
}

/// What is said when the file is missing, unusable or not enough.
pub open spec fn load_notice(path: Seq<char>, found: Found) -> Option<Seq<char>> {
    match found {
        Found::Nothing => Some(
            "waycal: no config at "@ + path
                + " — running plain calendar. Add [[accounts]] entries there to enable Google Calendar/Tasks."@,
        ),
        Found::Unreadable(e) => Some("waycal: cannot read "@ + path + ": "@ + e@),
        Found::Malformed(e) => Some("waycal: invalid config "@ + path + ": "@ + e@),
        Found::Parsed(cfg) => if cfg.accounts@.len() == 0 {
            Some("waycal: "@ + path + " has no [[accounts]] — running plain calendar"@)
        } else {
            match validation(cfg.accounts.deep_view()) {
                Some(e) => Some("waycal: invalid config "@ + path + ": "@ + e),
                None => None,
            }
        },
    }
}

/// Decides what to run with: the configuration where it has accounts and each
/// of them is complete, else nothing and a notice that says why.
pub fn load(path: &str, found: Found) -> (r: (Option<Config>, Option<String>))
    ensures
        r.1.deep_view() == load_notice(path@, found),
        r.0 == match found {
            Found::Parsed(cfg) => if load_notice(path@, found) is None {
                Some(cfg)
            } else {
                None
            },
            _ => None,
        },
{
    match found {
        Found::Nothing => (
            None,
            Some(
                text::concat3(
                    "waycal: no config at ",
                    path,
                    " — running plain calendar. Add [[accounts]] entries there to enable Google Calendar/Tasks.",
                ),
            ),
        ),
        Found::Unreadable(e) => {
            let mut out = text::concat3("waycal: cannot read ", path, ": ");
            out.push_str(e.as_str());
            (None, Some(out))
        },
        Found::Malformed(e) => {
            let mut out = text::concat3("waycal: invalid config ", path, ": ");
            out.push_str(e.as_str());
            (None, Some(out))
        },
        Found::Parsed(cfg) => {
            if cfg.accounts.len() == 0 {
                return (
                    None,
                    Some(
                        text::concat3(
                            "waycal: ",
                            path,
                            " has no [[accounts]] — running plain calendar",
                        ),
                    ),
                );
            }
            match validate(cfg.accounts.as_slice()) {
                Ok(_) => (Some(cfg), None),
                Err(e) => {
                    let mut out = text::concat3("waycal: invalid config ", path, ": ");
                    out.push_str(e.as_str());
                    (None, Some(out))
                },
            }
        },
    }
}

/// Where a path lies.
#[derive(Debug)]
pub enum Place {
    /// Under the home directory, at the rest of the path.
    Home(String),
    /// Where the path itself says.
    Plain(String),
}

/// Reads a leading `~/` as the home directory, where there is one.
pub fn expand_tilde(path: &str, has_home: bool) -> (r: Place)
    ensures
        match r {
            Place::Home(rest) => has_home && text::after_prefix(path@, "~/"@) == Some(rest@),
            Place::Plain(p) => (!has_home || text::after_prefix(path@, "~/"@) is None) && p@
                == path@,
        },
{
    match text::strip_prefix(path, "~/") {
        Some(rest) => if has_home {
            Place::Home(rest)
        } else {
            Place::Plain(path.to_owned())
        },
        None => Place::Plain(path.to_owned()),
    }
}

} // verus!
