//! CardDAV account configuration: command-line overrides, `ZEDAZO_CARDDAV_*` environment
//! values and the `[carddav]` section of a TOML file, in that order of precedence.
use vstd::prelude::*;

use crate::error::CardDavError;
use crate::text::{chars_of, extend_chars, string_of, trim, trim_chars};
use crate::url_policy::{parse_and_validate, parse_refusal, spec_parse_and_validate, DavUrl, UrlView};

verus! {

pub const ENV_URL: &'static str = "ZEDAZO_CARDDAV_URL";

pub const ENV_USERNAME: &'static str = "ZEDAZO_CARDDAV_USERNAME";

pub const ENV_PASSWORD: &'static str = "ZEDAZO_CARDDAV_PASSWORD";

pub const ENV_ADDRESSBOOK: &'static str = "ZEDAZO_CARDDAV_ADDRESSBOOK";

/// The GUI token: never a CardDAV credential.
pub const GUI_AUTH_TOKEN_ENV: &'static str = "ZEDAZO_AUTH_TOKEN";

/// Explicit values from the command line; they take precedence.
#[derive(Debug, Clone, Default)]
pub struct ConfigOverrides {
    pub url: Option<String>,
    pub username: Option<String>,
    pub password: Option<String>,
    pub addressbook: Option<String>,
    pub config_path: Option<std::path::PathBuf>,
}

/// The values of the `ZEDAZO_CARDDAV_*` environment variables, or of the `[carddav]`
/// section of a TOML file.
#[derive(Debug, Clone, Default)]
pub struct ConfigValues {
    pub url: Option<String>,
    pub username: Option<String>,
    pub password: Option<String>,
    pub addressbook: Option<String>,
}

/// URL and credentials of one CardDAV account.
pub struct CardDavConfig {
    pub url: DavUrl,
    pub username: String,
    pub password: String,
    pub addressbook: Option<DavUrl>,
}

pub open spec fn opt_str_view(o: Option<String>) -> Option<Seq<char>> {
    match o {
        Some(s) => Some(s@),
        None => None,
    }
}

/// A value that is not blank, trimmed.
pub open spec fn spec_nonempty(o: Option<Seq<char>>) -> Option<Seq<char>> {
    match o {
        Some(s) => if trim(s).len() > 0 {
            Some(trim(s))
        } else {
            None
        },
        None => None,
    }
}

/// The first candidate that is not blank, trimmed.
pub open spec fn spec_first_nonempty(cs: Seq<Option<Seq<char>>>) -> Option<Seq<char>>
    decreases cs.len(),
{
    if cs.len() == 0 {
        None
    } else {
        match spec_nonempty(cs[0]) {
            Some(v) => Some(v),
            None => spec_first_nonempty(cs.drop_first()),
        }
    }
}

pub fn nonempty(value: Option<String>) -> (r: Option<String>)
    ensures
        opt_str_view(r) == spec_nonempty(opt_str_view(value)),
{
    match value {
        Some(s) => {
            let c = chars_of(s.as_str());
            let t = trim_chars(&c);
            if t.len() == 0 {
                None
            } else {
                Some(string_of(&t))
            }
        },
        None => None,
    }
}

pub open spec fn opt_views<const N: usize>(cs: [Option<String>; N]) -> Seq<Option<Seq<char>>> {
    cs@.map_values(|o: Option<String>| opt_str_view(o))
}

pub fn first_nonempty<const N: usize>(candidates: [Option<String>; N]) -> (r: Option<String>)
    ensures
        opt_str_view(r) == spec_first_nonempty(opt_views(candidates)),
{
    let ghost cs = opt_views(candidates);
    let mut i: usize = 0;
    assert(cs.skip(0) =~= cs);
    while i < N
        invariant
            i <= N,
            N == candidates@.len(),
            cs == opt_views(candidates),
            spec_first_nonempty(cs) == spec_first_nonempty(cs.skip(i as int)),
        decreases N - i,
    {
        assert(cs.skip(i as int)[0] == opt_str_view(candidates@[i as int]));
        assert(cs.skip(i as int).drop_first() =~= cs.skip(i + 1));
        let c = match &candidates[i] {
            Some(s) => Some(s.clone()),
            None => None,
        };
        let v = nonempty(c);
        if v.is_some() {
            return v;
        }
        i += 1;
    }
    None
}

/// The password: the override, else `ZEDAZO_CARDDAV_PASSWORD`, else the file's value,
/// each when not blank (trimmed); the GUI token is never consulted.
pub open spec fn spec_pick_password(
    override_pw: Option<Seq<char>>,
    env_pw: Option<Seq<char>>,
    file_pw: Option<Seq<char>>,
) -> Option<Seq<char>> {
    spec_first_nonempty(seq![override_pw, env_pw, file_pw])
}

pub open spec fn picked(r: Result<String, CardDavError>, p: Option<Seq<char>>) -> bool {
    match p {
        Some(v) => r matches Ok(x) && x@ == v,
        None => r == Err::<String, CardDavError>(CardDavError::MissingPassword),
    }
}

/// The password that an environment (variable name to value) gives beside the override
/// and the file's value: of the environment only `ZEDAZO_CARDDAV_PASSWORD` is read.
pub open spec fn spec_password_from_env(
    override_pw: Option<Seq<char>>,
    env: spec_fn(Seq<char>) -> Option<Seq<char>>,
    file_pw: Option<Seq<char>>,
) -> Option<Seq<char>> {
    spec_pick_password(override_pw, env(ENV_PASSWORD@), file_pw)
}

/// The password never depends on the GUI token: two environments that agree on every
/// variable but `ZEDAZO_AUTH_TOKEN` give the same password, or both none.
pub proof fn law_password_ignores_gui_token(
    override_pw: Option<Seq<char>>,
    env1: spec_fn(Seq<char>) -> Option<Seq<char>>,
    env2: spec_fn(Seq<char>) -> Option<Seq<char>>,
    file_pw: Option<Seq<char>>,
)
    requires
        forall|k: Seq<char>| k != GUI_AUTH_TOKEN_ENV@ ==> #[trigger] env1(k) == env2(k),
    ensures
        spec_password_from_env(override_pw, env1, file_pw) == spec_password_from_env(
            override_pw,
            env2,
            file_pw,
        ),
{
    reveal_strlit("ZEDAZO_CARDDAV_PASSWORD");
    reveal_strlit("ZEDAZO_AUTH_TOKEN");
    assert(ENV_PASSWORD@ != GUI_AUTH_TOKEN_ENV@) by {
        assert(ENV_PASSWORD@.len() != GUI_AUTH_TOKEN_ENV@.len());
    }
}

/// Picks the application password; `env_get` reads the environment and is asked for
/// `ZEDAZO_CARDDAV_PASSWORD` only.
pub fn pick_password(
    override_pw: Option<String>,
    env_get: impl Fn(&str) -> Option<String>,
    file_pw: Option<String>,
) -> (r: Result<String, CardDavError>)
    requires
        env_get.requires((ENV_PASSWORD,)),
    ensures
        spec_nonempty(opt_str_view(override_pw)) is Some ==> picked(
            r,
            spec_nonempty(opt_str_view(override_pw)),
        ),
        spec_nonempty(opt_str_view(override_pw)) is None ==> exists|e: Option<String>|
            env_get.ensures((ENV_PASSWORD,), e) && picked(
                r,
                spec_pick_password(opt_str_view(override_pw), opt_str_view(e), opt_str_view(file_pw)),
            ),
        forall|env: spec_fn(Seq<char>) -> Option<Seq<char>>|
            (forall|k: &str, v: Option<String>| #[trigger]
                env_get.ensures((k,), v) ==> opt_str_view(v) == env(k@)) ==> picked(
                r,
                #[trigger] spec_password_from_env(opt_str_view(override_pw), env, opt_str_view(file_pw)),
            ),
{
    let ghost ov = opt_str_view(override_pw);
    let ghost fv = opt_str_view(file_pw);
    if let Some(p) = nonempty(override_pw) {
        proof {
            reveal_with_fuel(spec_first_nonempty, 4);
        }
        return Ok(p);
    }
    let e = env_get(ENV_PASSWORD);
    let ghost eg = e;
    let ghost ev = opt_str_view(e);
    assert(seq![ov, ev, fv].drop_first() =~= seq![ev, fv]);
    assert(seq![ev, fv].drop_first() =~= seq![fv]);
    assert(seq![fv].drop_first() =~= Seq::<Option<Seq<char>>>::empty());
    proof {
        reveal_with_fuel(spec_first_nonempty, 4);
    }
    assert(env_get.ensures((ENV_PASSWORD,), eg));
    let r = if let Some(p) = nonempty(e) {
        Ok(p)
    } else if let Some(p) = nonempty(file_pw) {
        Ok(p)
    } else {
        Err(CardDavError::MissingPassword)
    };
    assert(picked(r, spec_pick_password(ov, opt_str_view(eg), fv)));
    assert forall|env: spec_fn(Seq<char>) -> Option<Seq<char>>|
        (forall|k: &str, v: Option<String>| #[trigger]
            env_get.ensures((k,), v) ==> opt_str_view(v) == env(k@)) implies picked(
        r,
        #[trigger] spec_password_from_env(ov, env, fv),
    ) by {
        assert(opt_str_view(eg) == env(ENV_PASSWORD@));
    }
    r
}


/// The outcome of resolving a configuration.
pub enum ConfigOutcome {
    MissingUrl,
    MissingUsername,
    MissingPassword,
    /// The server or addressbook URL (this text) breaks the URL policy.
    BadUrl(Seq<char>),
    /// URL, user, password and optional addressbook.
    Resolved(UrlView, Seq<char>, Seq<char>, Option<UrlView>),
}

pub open spec fn spec_resolve_config(
    ov: ConfigOverrides,
    env: ConfigValues,
    file: ConfigValues,
) -> ConfigOutcome {
    let url_raw = spec_first_nonempty(
        seq![opt_str_view(ov.url), opt_str_view(env.url), opt_str_view(file.url)],
    );
    let user = spec_first_nonempty(
        seq![opt_str_view(ov.username), opt_str_view(env.username), opt_str_view(file.username)],
    );
    let pw = spec_pick_password(
        opt_str_view(ov.password),
        opt_str_view(env.password),
        opt_str_view(file.password),
    );
    let ab_raw = spec_first_nonempty(
        seq![
            opt_str_view(ov.addressbook),
            opt_str_view(env.addressbook),
            opt_str_view(file.addressbook),
        ],
    );
    if url_raw is None {
        ConfigOutcome::MissingUrl
    } else if user is None {
        ConfigOutcome::MissingUsername
    } else if pw is None {
        ConfigOutcome::MissingPassword
    } else {
        match spec_parse_and_validate(url_raw->0) {
            None => ConfigOutcome::BadUrl(url_raw->0),
            Some(u) => match ab_raw {
                None => ConfigOutcome::Resolved(u, user->0, pw->0, None),
                Some(a) => match spec_parse_and_validate(a) {
                    None => ConfigOutcome::BadUrl(a),
                    Some(av) => ConfigOutcome::Resolved(u, user->0, pw->0, Some(av)),
                },
            },
        }
    }
}

pub open spec fn opt_url_view(o: Option<DavUrl>) -> Option<UrlView> {
    match o {
        Some(u) => Some(u@),
        None => None,
    }
}

/// Resolves the account: each value from the overrides, else the environment, else the
/// file (blank values skipped, values trimmed); then both URLs must pass the URL policy.
pub fn resolve_config(overrides: ConfigOverrides, env: ConfigValues, file: ConfigValues) -> (r:
    Result<CardDavConfig, CardDavError>)
    ensures
        match spec_resolve_config(overrides, env, file) {
            ConfigOutcome::MissingUrl => r matches Err(CardDavError::MissingUrl),
            ConfigOutcome::MissingUsername => r matches Err(CardDavError::MissingUsername),
            ConfigOutcome::MissingPassword => r matches Err(CardDavError::MissingPassword),
            ConfigOutcome::BadUrl(raw) => r matches Err(e) && parse_refusal(raw, e),
            ConfigOutcome::Resolved(u, user, pw, ab) => r matches Ok(c) && c.url@ == u
                && c.username@ == user && c.password@ == pw && opt_url_view(c.addressbook) == ab,
        },
{
    let ghost spec_out = spec_resolve_config(overrides, env, file);
    proof {
        reveal_with_fuel(spec_first_nonempty, 4);
    }
    let url_raw = match first_nonempty([overrides.url, env.url, file.url]) {
        Some(u) => u,
        None => {
            return Err(CardDavError::MissingUrl);
        },
    };
    let username = match first_nonempty([overrides.username, env.username, file.username]) {
        Some(u) => u,
        None => {
            return Err(CardDavError::MissingUsername);
        },
    };
    let password = match first_nonempty([overrides.password, env.password, file.password]) {
        Some(p) => p,
        None => {
            return Err(CardDavError::MissingPassword);
        },
    };
    let addressbook_raw = first_nonempty(
        [overrides.addressbook, env.addressbook, file.addressbook],
    );
    let url = match parse_and_validate(url_raw.as_str()) {
        Ok(u) => u,
        Err(e) => {
            return Err(e);
        },
    };
    let addressbook = match addressbook_raw {
        Some(raw) => match parse_and_validate(raw.as_str()) {
            Ok(a) => Some(a),
            Err(e) => {
                return Err(e);
            },
        },
        None => None,
    };
    Ok(CardDavConfig { url, username, password, addressbook })
}


/// The text that `{:?}` gives a string (quoted, with escapes).
pub uninterp spec fn debug_text(s: Seq<char>) -> Seq<char>;

/// Formats a string with `{:?}` (`<str as Debug>::fmt`); the text is named by
/// `debug_text`.
#[verifier::external_body]
fn debug_quoted(s: &str) -> (r: String)
    ensures
        r@ == debug_text(s@),
{
    format!("{:?}", s)
}

/// The debug text of an account, with the password masked.
pub open spec fn spec_redacted(url: Seq<char>, username: Seq<char>, addressbook: Option<Seq<char>>) -> Seq<char> {
    "CardDavConfig { url: "@ + debug_text(url) + ", username: "@ + debug_text(username)
        + ", password: \"***\", addressbook: "@ + match addressbook {
        Some(a) => "Some("@ + debug_text(a) + ")"@,
        None => "None"@,
    } + " }"@
}

impl CardDavConfig {
    /// The account as debug output shows it: the URLs and user, never the password.
    pub fn redacted(&self) -> (r: String)
        ensures
            r@ == spec_redacted(
                self.url@.serialization,
                self.username@,
                match self.addressbook {
                    Some(a) => Some(a@.serialization),
                    None => None,
                },
            ),
    {
        let mut m = chars_of("CardDavConfig { url: ");
        extend_chars(&mut m, &chars_of(debug_quoted(self.url.as_str()).as_str()));
        extend_chars(&mut m, &chars_of(", username: "));
        extend_chars(&mut m, &chars_of(debug_quoted(self.username.as_str()).as_str()));
        extend_chars(&mut m, &chars_of(", password: \"***\", addressbook: "));
        match &self.addressbook {
            Some(a) => {
                extend_chars(&mut m, &chars_of("Some("));
                extend_chars(&mut m, &chars_of(debug_quoted(a.as_str()).as_str()));
                extend_chars(&mut m, &chars_of(")"));
            },
            None => {
                extend_chars(&mut m, &chars_of("None"));
            },
        }
        extend_chars(&mut m, &chars_of(" }"));
        string_of(&m)
    }
}

/// The debug text of an account does not depend on its password.
pub proof fn law_redacted_ignores_password(a: CardDavConfig, b: CardDavConfig)
    requires
        a.url@ == b.url@,
        a.username@ == b.username@,
        match (a.addressbook, b.addressbook) {
            (Some(x), Some(y)) => x@ == y@,
            (None, None) => true,
            _ => false,
        },
    ensures
        spec_redacted(
            a.url@.serialization,
            a.username@,
            match a.addressbook {
                Some(x) => Some(x@.serialization),
                None => None,
            },
        ) == spec_redacted(
            b.url@.serialization,
            b.username@,
            match b.addressbook {
                Some(x) => Some(x@.serialization),
                None => None,
            },
        ),
{
}

} // verus!
