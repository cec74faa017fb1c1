//! The engine's settings as far as the daemon uses them: their checks and the RPC URL.
use vstd::prelude::*;

use crate::device::trim;
use crate::text::{decimal, lemma_skip_spaces, push_decimal, spaces_back, spaces_end};

verus! {

/// The engine's settings file.
#[derive(Debug)]
pub struct Config {
    pub download_dir: String,
    pub rpc_enabled: bool,
    pub rpc_bind_address: String,
    pub rpc_port: u32,
    pub rpc_authentication_required: bool,
    pub rpc_url: String,
    pub rpc_username: String,
    pub rpc_plain_password: Option<String>,
}

/// Why the settings could not be used.
#[derive(Debug, PartialEq, Eq)]
pub enum ConfigReadingError {
    Io(String),
    Parsing(String),
    Validation(String),
}

/// The first problem of the settings, given what checking the download directory on disk
/// gave: its message, or `None` when they can be used.
pub open spec fn config_problem(c: Config, dir_check: Result<(), String>) -> Option<Seq<char>> {
    if !(c.download_dir@.len() > 0 && c.download_dir@[0] == '/') {
        Some("Invalid 'download-dir' value: it must be an absolute path"@)
    } else if dir_check is Err {
        Some("Invalid 'download-dir': "@ + dir_check->Err_0@)
    } else if !c.rpc_enabled {
        Some("RPC is disabled in config"@)
    } else if trim(c.rpc_bind_address@).len() == 0 {
        Some("Invalid 'rpc-bind-address' value: it mustn't be empty"@)
    } else if c.rpc_authentication_required && c.rpc_plain_password is None {
        Some("'rpc-plain-password' is a required option when authentication is enabled"@)
    } else {
        None
    }
}

/// Checks the settings. `dir_check` is the outcome of checking on disk that the download
/// directory exists and is a directory.
pub fn validate_config(config: &Config, dir_check: Result<(), String>) -> (r: Result<(), ConfigReadingError>)
    ensures
        match config_problem(*config, dir_check) {
            None => r is Ok,
            Some(m) => r matches Err(ConfigReadingError::Validation(e)) && e@ == m,
        },
{
    let dir = config.download_dir.as_str();
    if !(dir.unicode_len() > 0 && dir.get_char(0) == '/') {
        return Err(
            ConfigReadingError::Validation(
                String::from_str("Invalid 'download-dir' value: it must be an absolute path"),
            ),
        );
    }
    if let Err(e) = dir_check {
        let mut m = String::from_str("Invalid 'download-dir': ");
        m.append(e.as_str());
        return Err(ConfigReadingError::Validation(m));
    }
    if !config.rpc_enabled {
        return Err(ConfigReadingError::Validation(String::from_str("RPC is disabled in config")));
    }
    let address = config.rpc_bind_address.as_str();
    let a = spaces_end(address, 0);
    proof {
        lemma_skip_spaces(address@, 0);
    }
    let b = spaces_back(address, address.unicode_len());
    if a >= b {
        assert(trim(address@) =~= Seq::<char>::empty());
        return Err(
            ConfigReadingError::Validation(
                String::from_str("Invalid 'rpc-bind-address' value: it mustn't be empty"),
            ),
        );
    }
    assert(trim(address@).len() > 0);
    if config.rpc_authentication_required && config.rpc_plain_password.is_none() {
        return Err(
            ConfigReadingError::Validation(
                String::from_str(
                    "'rpc-plain-password' is a required option when authentication is enabled",
                ),
            ),
        );
    }
    Ok(())
}

/// The URL of the engine's RPC endpoint.
pub open spec fn rpc_url_of(c: Config) -> Seq<char> {
    let base = "http://"@ + c.rpc_bind_address@ + ":"@ + decimal(c.rpc_port as nat) + c.rpc_url@;
    if base.last() == '/' {
        base + "rpc"@
    } else {
        base + "/rpc"@
    }
}

/// Builds the URL of the engine's RPC endpoint from its settings.
pub fn get_rpc_url(config: &Config) -> (r: String)
    ensures
        r@ == rpc_url_of(*config),
{
    let mut url = String::from_str("http://");
    url.append(config.rpc_bind_address.as_str());
    url.append(":");
    push_decimal(&mut url, config.rpc_port as u64);
    url.append(config.rpc_url.as_str());
    let ghost base = url@;
    proof {
        crate::text::lemma_decimal_nonempty(config.rpc_port as nat);
    }
    let n = url.unicode_len();
    if url.as_str().get_char(n - 1) != '/' {
        url.append("/");
    }
    url.append("rpc");
    proof {
        reveal_strlit("/");
        reveal_strlit("rpc");
        reveal_strlit("/rpc");
        if base.last() == '/' {
        } else {
            assert(base + "/"@ + "rpc"@ =~= base + "/rpc"@);
        }
    }
    url
}

} // verus!
