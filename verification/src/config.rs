//! The stored configuration: the credentials for the web API.
use crate::api::medline::byte_column;
use crate::api::medline::column;
use crate::failure::Failure;
use crate::json::opt_str;
use crate::lines::byte_len;
use crate::output::ConfigOutput;
use crate::text::chars_of;
use crate::text::concat3;
use crate::text::opt_text;
use crate::text::string_of;
use crate::text::trim;
use crate::text::trimmed;
use vstd::prelude::*;
use vstd::slice::slice_subrange;

verus! {

/// Persistent configuration.
#[derive(Debug, Clone)]
pub struct Config {
    /// Zotero web API key (write-enabled) for api.zotero.org.
    pub api_key: Option<String>,
    /// Numeric Zotero user ID, cached on first use.
    pub user_id: Option<u64>,
}

impl Default for Config {
    fn default() -> (r: Config)
        ensures
            r.api_key is None,
            r.user_id is None,
    {
        Config { api_key: None, user_id: None }
    }
}

/// Whether an environment variable holds anything but whitespace.
pub open spec fn is_set(env: Option<Seq<char>>) -> bool {
    env is Some && trimmed(env.unwrap()).len() > 0
}

/// Whether an environment variable holds anything but whitespace.
pub fn env_set(env: Option<&str>) -> (r: bool)
    ensures
        r == is_set(opt_str(env)),
{
    match env {
        Some(k) => {
            let chars = chars_of(k);
            trim(chars.as_slice()).len() > 0
        },
        None => false,
    }
}

impl Config {
    /// Resolves the API key: the environment variable wins where it is set, then the stored one.
    pub fn resolve_api_key(&self, env: Option<&str>) -> (r: Option<String>)
        ensures
            opt_text(r) == if is_set(opt_str(env)) {
                opt_str(env)
            } else {
                opt_text(self.api_key)
            },
    {
        if env_set(env) {
            if let Some(k) = env {
                return Some(k.to_string());
            }
        }
        self.api_key.clone()
    }
}

/// Whether an API key can be cut three bytes from each end, as every ASCII key can.
pub open spec fn maskable(key: Seq<char>) -> bool {
    byte_len(key) > 6 ==> column(key, 3) is Some && column(key, byte_len(key) - 3) is Some
}

/// An API key as it is shown: the first and the last three bytes of a long one, nothing of a short
/// one.
pub open spec fn masked(key: Seq<char>) -> Seq<char> {
    if byte_len(key) > 6 {
        key.take(column(key, 3).unwrap()) + "..."@ + key.skip(
            column(key, byte_len(key) - 3).unwrap(),
        )
    } else {
        "***"@
    }
}

/// Masks an API key; none for one that cannot be cut three bytes from each end.
pub fn mask_key(key: &str) -> (r: Option<String>)
    ensures
        match r {
            Some(m) => maskable(key@) && m@ == masked(key@),
            None => !maskable(key@),
        },
{
    proof {
        crate::lines::lemma_byte_len_is_encoded_len(key@);
    }
    let chars = chars_of(key);
    let total: usize = key.as_bytes().len();
    if total <= 6 {
        return Some("***".to_string());
    }
    match (byte_column(chars.as_slice(), 3), byte_column(chars.as_slice(), total - 3)) {
        (Some(i), Some(j)) => {
            let head = slice_subrange(chars.as_slice(), 0, i);
            let tail = slice_subrange(chars.as_slice(), j, chars.len());
            assert(head@ =~= key@.take(i as int));
            assert(tail@ =~= key@.skip(j as int));
            Some(concat3(string_of(head).as_str(), "...", string_of(tail).as_str()))
        },
        _ => None,
    }
}

/// A new API key without the whitespace around it; an error for one that is nothing else.
pub fn checked_key(key: &str) -> (r: Result<String, Failure>)
    ensures
        match r {
            Ok(kept) => trimmed(key@).len() > 0 && kept@ == trimmed(key@),
            Err(e) => trimmed(key@).len() == 0 && e@ == "API key is empty"@,
        },
{
    let chars = chars_of(key);
    let kept = trim(chars.as_slice());
    if kept.len() == 0 {
        return Err(Failure { message: "API key is empty".to_string() });
    }
    Ok(string_of(kept))
}

/// Stores a new API key. The user ID belonged to the old key and is derived again.
pub fn run_set_key(cfg: Config, key: &str) -> (r: Result<Config, Failure>)
    ensures
        match r {
            Ok(c) => trimmed(key@).len() > 0 && opt_text(c.api_key) == Some(trimmed(key@))
                && c.user_id is None,
            Err(e) => trimmed(key@).len() == 0 && e@ == "API key is empty"@,
        },
{
    let kept = match checked_key(key) {
        Ok(kept) => kept,
        Err(e) => {
            return Err(e);
        },
    };
    let mut new = cfg;
    new.api_key = Some(kept);
    new.user_id = None;
    Ok(new)
}

/// What is answered about the configuration.
pub open spec fn is_config_output(
    out: ConfigOutput,
    cfg: Config,
    path: Seq<char>,
    env: Option<Seq<char>>,
    note: Option<Seq<char>>,
) -> bool {
    &&& out.path@ == path
    &&& opt_text(out.api_key) == match opt_text(cfg.api_key) {
        Some(k) => Some(masked(k)),
        None => None,
    }
    &&& out.user_id == cfg.user_id
    &&& out.env_override == is_set(env)
    &&& opt_text(out.note) == note
}

/// Shows the configuration at a path, with a note where there is one.
pub fn config_output(cfg: &Config, path: &str, env: Option<&str>, note: Option<&str>) -> (r:
    ConfigOutput)
    requires
        cfg.api_key is Some ==> maskable(cfg.api_key.unwrap()@),
    ensures
        is_config_output(r, *cfg, path@, opt_str(env), opt_str(note)),
{
    let api_key = match &cfg.api_key {
        Some(k) => mask_key(k.as_str()),
        None => None,
    };
    ConfigOutput {
        path: path.to_string(),
        api_key,
        user_id: cfg.user_id,
        env_override: env_set(env),
        note: match note {
            Some(n) => Some(n.to_string()),
            None => None,
        },
    }
}

/// Shows the configuration as it is stored.
pub fn run_show(cfg: &Config, path: &str, env: Option<&str>) -> (r: ConfigOutput)
    requires
        cfg.api_key is Some ==> maskable(cfg.api_key.unwrap()@),
    ensures
        is_config_output(r, *cfg, path@, opt_str(env), None),
{
    config_output(cfg, path, env, None)
}

} // verus!
