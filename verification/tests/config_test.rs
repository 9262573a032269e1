use ratpm::config::schema::RepoDefinition;
use ratpm::config::{load_config, merge_configs, validate_config, Config};
use ratpm::engine::errors::RatpmError;

#[test]
fn test_default_config() {
    let config = ratpm::config::Config::default();

    assert_eq!(config.system.backend, "fedora");
    assert!(!config.system.assume_yes);
    assert!(config.system.color);
    assert!(config.repos.auto_refresh);
    assert!(config.repos.gpgcheck);
    assert!(config.transaction.keep_cache);
}

#[test]
fn test_every_default() {
    let config = Config::default();
    assert_eq!(config.system.cache_dir, "/var/cache/ratpm");
    assert_eq!(config.system.lock_file, "/var/lock/ratpm.lock");
    assert_eq!(config.repos.metadata_expire, 86400);
    assert_eq!(config.repos.repo_dir, "/etc/yum.repos.d");
    assert_eq!(config.transaction.history_limit, 100);
    assert!(config.transaction.verify_signatures);
    assert_eq!(ratpm::config::SYSTEM_CONFIG_PATH, "/etc/ratpm/ratpm.toml");
    assert_eq!(ratpm::config::USER_CONFIG_PATH, ".config/ratpm/ratpm.toml");
    assert!(validate_config(&config).is_ok());
}

#[test]
fn test_invalid_backend_is_a_config_error() {
    let mut config = Config::default();
    config.system.backend = "invalid".to_string();
    let err = validate_config(&config).unwrap_err();
    assert!(matches!(&err, RatpmError::ConfigError(msg) if msg == "Unsupported backend: invalid"));
    assert_eq!(err.exit_code(), 8);
    assert_eq!(err.to_string(), "Configuration error: Unsupported backend: invalid");
}

#[test]
fn test_validation_order() {
    let mut config = Config::default();
    config.repos.metadata_expire = 0;
    config.transaction.history_limit = 0;
    match validate_config(&config) {
        Err(RatpmError::ConfigError(msg)) => assert_eq!(msg, "metadata_expire must be greater than 0"),
        _ => panic!("expected ConfigError"),
    }
    config.repos.metadata_expire = 1;
    match validate_config(&config) {
        Err(RatpmError::ConfigError(msg)) => assert_eq!(msg, "history_limit must be greater than 0"),
        _ => panic!("expected ConfigError"),
    }
    config.system.backend = "Fedora".to_string();
    match validate_config(&config) {
        Err(RatpmError::ConfigError(msg)) => assert_eq!(msg, "Unsupported backend: Fedora"),
        _ => panic!("expected ConfigError"),
    }
    config.system.backend = "fedora".to_string();
    config.transaction.history_limit = 1;
    assert!(validate_config(&config).is_ok());
}

#[test]
fn test_overlay_only_switches_yes_on_and_color_off() {
    let mut base = Config::default();
    let mut overlay = Config::default();
    overlay.system.backend = "other".to_string();
    overlay.system.cache_dir = "/tmp/cache".to_string();
    overlay.repos.metadata_expire = 5;
    overlay.transaction.keep_cache = false;
    merge_configs(&mut base, overlay.clone());
    assert_eq!(base.system.backend, "fedora");
    assert_eq!(base.system.cache_dir, "/var/cache/ratpm");
    assert_eq!(base.repos.metadata_expire, 86400);
    assert!(base.transaction.keep_cache);
    assert!(!base.system.assume_yes);
    assert!(base.system.color);

    overlay.system.assume_yes = true;
    overlay.system.color = false;
    merge_configs(&mut base, overlay);
    assert!(base.system.assume_yes);
    assert!(!base.system.color);

    // an overlay cannot switch them back
    merge_configs(&mut base, Config::default());
    assert!(base.system.assume_yes);
    assert!(!base.system.color);
}

#[test]
fn test_load_config_layers() {
    let loaded = load_config(None, None).unwrap();
    assert_eq!(loaded.system.backend, "fedora");
    assert_eq!(loaded.transaction.history_limit, 100);

    let mut system = Config::default();
    system.repos.metadata_expire = 3600;
    let mut user = Config::default();
    user.system.assume_yes = true;
    user.repos.metadata_expire = 7;
    let loaded = load_config(Some(system.clone()), Some(user.clone())).unwrap();
    assert!(loaded.system.assume_yes);
    assert_eq!(loaded.repos.metadata_expire, 3600);

    let loaded = load_config(Some(system), None).unwrap();
    assert!(!loaded.system.assume_yes);
    assert_eq!(loaded.repos.metadata_expire, 3600);

    let loaded = load_config(None, Some(user.clone())).unwrap();
    assert!(loaded.system.assume_yes);
    assert_eq!(loaded.repos.metadata_expire, 7);

    // the system file decides the backend: the user file cannot mend it
    let mut broken = Config::default();
    broken.system.backend = "invalid".to_string();
    assert!(matches!(load_config(Some(broken.clone()), Some(user)), Err(RatpmError::ConfigError(_))));
    assert!(matches!(load_config(None, Some(broken)), Err(RatpmError::ConfigError(_))));
}

fn definition() -> RepoDefinition {
    RepoDefinition {
        name: "fedora".to_string(),
        enabled: true,
        baseurl: Some("https://example.org".to_string()),
        metalink: None,
        mirrorlist: None,
        gpgcheck: true,
        gpgkey: Some(vec!["file:///etc/pki/key".to_string()]),
        priority: None,
    }
}

#[test]
fn test_repo_definition_validate() {
    assert_eq!(definition().validate(), Ok(()));
    let mut d = definition();
    d.baseurl = None;
    assert_eq!(
        d.validate(),
        Err("Repository 'fedora' must specify at least one of: baseurl, metalink, mirrorlist".to_string())
    );
    d.mirrorlist = Some("https://example.org/mirrors".to_string());
    assert_eq!(d.validate(), Ok(()));
    d.gpgkey = None;
    assert_eq!(
        d.validate(),
        Err("Repository 'fedora' has gpgcheck enabled but no gpgkey specified".to_string())
    );
    d.gpgcheck = false;
    assert_eq!(d.validate(), Ok(()));
    // the missing source is reported before the missing key
    let mut d = definition();
    d.baseurl = None;
    d.gpgkey = None;
    assert!(d.validate().unwrap_err().contains("must specify at least one of"));
}
