use transmission_controller::config::{get_rpc_url, validate_config, Config, ConfigReadingError};

fn config() -> Config {
    Config {
        download_dir: "/downloads".to_string(),
        rpc_enabled: true,
        rpc_bind_address: "127.0.0.1".to_string(),
        rpc_port: 9091,
        rpc_authentication_required: true,
        rpc_url: "/transmission/".to_string(),
        rpc_username: "user".to_string(),
        rpc_plain_password: Some("SECRET-REDACTED".to_string()),
    }
}

fn invalid(message: &str) -> Result<(), ConfigReadingError> {
    Err(ConfigReadingError::Validation(message.to_string()))
}

#[test]
fn rpc_urls() {
    assert_eq!(get_rpc_url(&config()), "http://127.0.0.1:9091/transmission/rpc");
    let mut c = config();
    c.rpc_url = "/transmission".to_string();
    assert_eq!(get_rpc_url(&c), "http://127.0.0.1:9091/transmission/rpc");
}

#[test]
fn config_checks() {
    assert_eq!(validate_config(&config(), Ok(())), Ok(()));
    let mut c = config();
    c.download_dir = "downloads".to_string();
    assert_eq!(validate_config(&c, Ok(())), invalid("Invalid 'download-dir' value: it must be an absolute path"));
    assert_eq!(
        validate_config(&config(), Err("'/downloads' doesn't exist".to_string())),
        invalid("Invalid 'download-dir': '/downloads' doesn't exist")
    );
    let mut c = config();
    c.rpc_enabled = false;
    assert_eq!(validate_config(&c, Ok(())), invalid("RPC is disabled in config"));
    let mut c = config();
    c.rpc_bind_address = "  ".to_string();
    assert_eq!(validate_config(&c, Ok(())), invalid("Invalid 'rpc-bind-address' value: it mustn't be empty"));
    let mut c = config();
    c.rpc_plain_password = None;
    assert_eq!(
        validate_config(&c, Ok(())),
        invalid("'rpc-plain-password' is a required option when authentication is enabled")
    );
    c.rpc_authentication_required = false;
    assert_eq!(validate_config(&c, Ok(())), Ok(()));
}
