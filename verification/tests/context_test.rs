use ratpm::config::Config;
use ratpm::engine::context::{accepts, Context};
use ratpm::engine::errors::RatpmError;

#[test]
fn test_require_root() {
    let context = Context::with_privilege(Config::default(), true).unwrap();
    assert!(context.require_root().is_ok());
    let context = Context::with_privilege(Config::default(), false).unwrap();
    let err = context.require_root().unwrap_err();
    assert!(matches!(err, RatpmError::PermissionDenied));
    assert_eq!(err.exit_code(), 13);
    assert!(err.to_string().contains("Permission denied"));
}

#[test]
fn test_context_follows_the_effective_user() {
    let context = Context::new(Config::default()).unwrap();
    // whoever runs this is root or is not; either way the answer is consistent
    let first = context.require_root().is_ok();
    assert_eq!(context.require_root().is_ok(), first);
    assert_eq!(context.lock_manager().lock_path(), "/var/lock/ratpm.lock");
    assert_eq!(context.config().system.backend, "fedora");
    assert_eq!(context.backend().cache_dir(), "/var/cache/ratpm");
}

#[test]
fn test_policies_come_from_the_configuration() {
    let mut config = Config::default();
    config.system.assume_yes = true;
    config.system.color = false;
    config.system.lock_file = "/run/lock".to_string();
    let mut context = Context::with_privilege(config, false).unwrap();
    assert!(context.assume_yes());
    assert!(!context.color_enabled());
    assert_eq!(context.lock_manager().lock_path(), "/run/lock");
    // the backend is made from the same configuration
    assert_eq!(context.backend().cache_dir(), "/var/cache/ratpm");
    context.set_color(true);
    context.set_assume_yes(false);
    assert!(context.color_enabled());
    assert!(!context.assume_yes());
    // the configuration itself is not touched
    assert!(context.config().system.assume_yes);
    assert!(!context.config().system.color);
}

#[test]
fn test_confirm_transaction() {
    let mut context = Context::with_privilege(Config::default(), false).unwrap();
    for (answer, expected) in [
        ("y", true),
        ("Y", true),
        ("  y\n", true),
        ("\tY\r\n", true),
        ("yes", false),
        ("n", false),
        ("", false),
        ("\n", false),
        ("y y", false),
        ("ý", false),
    ] {
        assert_eq!(context.confirm_transaction(answer).unwrap(), expected, "{:?}", answer);
        assert_eq!(accepts(answer), expected);
    }
    context.set_assume_yes(true);
    for answer in ["n", "", "whatever"] {
        assert!(context.confirm_transaction(answer).unwrap());
    }
}

#[test]
fn test_backend_mut_reaches_the_backend() {
    let mut context = Context::with_privilege(Config::default(), true).unwrap();
    assert!(context.backend().list_installed().unwrap().is_empty());
    let failures = context
        .backend_mut()
        .load_repositories(&vec!["[fedora]\nbaseurl=https://example.org\n".to_string()]);
    assert!(failures.is_empty());
    assert_eq!(context.backend().repos().repositories().len(), 1);
}

#[test]
fn test_backend_follows_the_configuration() {
    let mut config = Config::default();
    config.system.cache_dir = "/srv/cache".to_string();
    config.repos.repo_dir = "/srv/repos".to_string();
    config.repos.gpgcheck = false;
    let mut context = Context::with_privilege(config, false).unwrap();
    assert_eq!(context.backend().cache_dir(), "/srv/cache");
    assert_eq!(context.backend().repos().cache_dir(), "/srv/cache");
    assert_eq!(context.backend().repos().repo_dir(), "/srv/repos");
    assert!(context.backend().repos().repositories().is_empty());
    assert!(context.backend().list_installed().unwrap().is_empty());
    assert!(context.backend().rpm_db().applied().is_empty());
    // the default of the signature check is that of the configuration
    context.backend_mut().load_repositories(&vec!["[r]\nbaseurl=u\n".to_string()]);
    assert!(!context.backend().repos().repositories()[0].gpgcheck);
}
