use ratpm::backend::fedora::libdnf::{
    check_dependents, find_dependents, holds, names_hold, resolve_dependencies, resolve_remove,
    spec_of, stage_dependencies, try_stage_dependencies,
};
use ratpm::backend::fedora::types::{PackageInfo, PackageSpec, RepositoryMetadata};
use ratpm::engine::transaction::Transaction;
use ratpm::backend::fedora::FedoraBackend;
use ratpm::config::Config;
use ratpm::engine::errors::RatpmError;

fn installed(name: &str, version: &str, summary: &str, size: u64) -> PackageInfo {
    PackageInfo {
        name: name.to_string(),
        version: version.to_string(),
        arch: "x86_64".to_string(),
        repo: "@System".to_string(),
        size,
        summary: summary.to_string(),
        description: String::new(),
        url: String::new(),
        license: String::new(),
    }
}

fn offered(name: &str, version: &str, summary: &str, size: u64) -> PackageInfo {
    PackageInfo {
        name: name.to_string(),
        version: version.to_string(),
        arch: "x86_64".to_string(),
        repo: String::new(),
        size,
        summary: summary.to_string(),
        description: String::new(),
        url: String::new(),
        license: String::new(),
    }
}

/// The backend with the two packages that a fresh system has installed.
fn fresh_backend() -> FedoraBackend {
    let config = Config::default();
    let mut backend = FedoraBackend::new(&config).unwrap();
    backend.load_installed(vec![
        installed("bash", "5.2.21", "The GNU Bourne Again shell", 0),
        installed("coreutils", "9.4", "GNU core utilities", 0),
    ]);
    backend
}

/// A backend with one repository that offers three editors.
fn stocked_backend() -> FedoraBackend {
    let mut backend = fresh_backend();
    let failures = backend.load_repositories(&vec![
        "[fedora]\nname=Fedora\nbaseurl=https://example.org/fedora/\ngpgcheck=0\n".to_string(),
    ]);
    assert!(failures.is_empty());
    assert!(backend.load_cache(
        "fedora",
        vec![
            offered("neovim", "0.9.5", "Vim-fork focused on extensibility and usability", 15_900_000),
            offered("vim", "9.0.2190", "The improved version of the vi editor", 5_000_000),
            offered("emacs", "29.1", "GNU Emacs text editor", 40_000_000),
            offered("bash", "5.3.0", "The GNU Bourne Again shell", 2_000_000),
        ],
    ));
    backend
}

fn names(list: &[&str]) -> Vec<String> {
    list.iter().map(|s| s.to_string()).collect()
}

#[test]
fn test_backend_initialization() {
    let config = Config::default();
    let result = FedoraBackend::new(&config);
    assert!(result.is_ok());
}

#[test]
fn test_backend_search() {
    let backend = fresh_backend();

    let results = backend.search("vim");
    assert!(results.is_ok());
}

#[test]
fn test_backend_list_installed() {
    let backend = fresh_backend();

    let packages = backend.list_installed();
    assert!(packages.is_ok());
}

#[test]
fn test_backend_get_package_info() {
    let backend = fresh_backend();

    let result = backend.get_package_info("bash");
    assert!(result.is_ok());
}

#[test]
fn test_backend_package_not_found() {
    let backend = fresh_backend();

    let result = backend.get_package_info("nonexistent-package-xyz123");
    assert!(result.is_err());
}

#[test]
fn test_backend_starts_empty() {
    let config = Config::default();
    let backend = FedoraBackend::new(&config).unwrap();
    assert_eq!(backend.cache_dir(), "/var/cache/ratpm");
    assert_eq!(backend.rpm_db().db_path(), "/var/lib/rpm");
    assert_eq!(backend.repos().repo_dir(), "/etc/yum.repos.d");
    assert!(backend.list_installed().unwrap().is_empty());
    assert!(backend.list_available().unwrap().is_empty());
    assert!(backend.repos().repositories().is_empty());
}

#[test]
fn test_installed_info_has_system_origin() {
    let backend = fresh_backend();
    let info = backend.get_package_info("bash").unwrap();
    assert_eq!(info.name, "bash");
    assert_eq!(info.version, "5.2.21");
    assert_eq!(info.repo, "@System");
    assert_eq!(info.size, 0);
    let listed = backend.list_installed().unwrap();
    assert_eq!(listed.len(), 2);
    assert_eq!(listed[0].name, "bash");
    assert_eq!(listed[1].name, "coreutils");
    assert_eq!(listed[1].summary, "GNU core utilities");
}

#[test]
fn test_info_prefers_installed_over_offered() {
    let backend = stocked_backend();
    let info = backend.get_package_info("bash").unwrap();
    assert_eq!(info.version, "5.2.21");
    assert_eq!(info.repo, "@System");
    let info = backend.get_package_info("neovim").unwrap();
    assert_eq!(info.repo, "fedora");
    assert_eq!(info.size, 15_900_000);
    match backend.get_package_info("nope") {
        Err(RatpmError::PackageNotFound(name)) => assert_eq!(name, "nope"),
        _ => panic!("expected PackageNotFound"),
    }
}

#[test]
fn test_search_is_case_insensitive_sorted_and_unique() {
    let mut backend = stocked_backend();
    backend.load_repositories(&vec!["[updates]\nbaseurl=https://example.org/u\n".to_string()]);
    assert!(backend.load_cache(
        "updates",
        vec![
            offered("vim", "9.0.2190", "duplicate of the same triple", 1),
            offered("vim", "9.0.100", "an older vim", 1),
            offered("Vim-Extras", "1.0", "Uppercase name", 1),
        ],
    ));
    let found = backend.search("VIM").unwrap();
    let triples: Vec<(String, String)> =
        found.iter().map(|p| (p.name.clone(), p.version.clone())).collect();
    assert_eq!(
        triples,
        vec![
            ("Vim-Extras".to_string(), "1.0".to_string()),
            ("neovim".to_string(), "0.9.5".to_string()),
            ("vim".to_string(), "9.0.100".to_string()),
            ("vim".to_string(), "9.0.2190".to_string()),
        ]
    );
    // of two candidates with one triple the first one stays
    assert_eq!(found[3].summary, "The improved version of the vi editor");
    // the summary is searched too
    let found = backend.search("gnu emacs").unwrap();
    assert_eq!(found.len(), 1);
    assert_eq!(found[0].name, "emacs");
    assert!(backend.search("no such thing").unwrap().is_empty());
    // the empty query matches everything
    assert_eq!(backend.search("").unwrap().len(), 6);
}

#[test]
fn test_list_available_and_list_all() {
    let backend = stocked_backend();
    let available: Vec<String> =
        backend.list_available().unwrap().iter().map(|p| p.name.clone()).collect();
    assert_eq!(available, vec!["bash", "emacs", "neovim", "vim"]);
    let all = backend.list_all().unwrap();
    let listed: Vec<(String, String)> =
        all.iter().map(|p| (p.name.clone(), p.version.clone())).collect();
    assert_eq!(
        listed,
        vec![
            ("bash".to_string(), "5.2.21".to_string()),
            ("coreutils".to_string(), "9.4".to_string()),
            ("emacs".to_string(), "29.1".to_string()),
            ("neovim".to_string(), "0.9.5".to_string()),
            ("vim".to_string(), "9.0.2190".to_string()),
        ]
    );
}

#[test]
fn test_resolve_install() {
    let backend = stocked_backend();
    let t = backend.resolve_install(&names(&["neovim", "vim", "neovim"])).unwrap();
    assert_eq!(t.install.len(), 2);
    assert_eq!(t.install[0].to_nevra(), "neovim-0.9.5.x86_64");
    assert_eq!(t.install[0].repo, "fedora");
    assert_eq!(t.install[1].name, "vim");
    assert_eq!(t.download_size, 20_900_000);
    assert_eq!(t.install_size, 20_900_000);
    assert!(t.remove.is_empty() && t.upgrade.is_empty());

    match backend.resolve_install(&names(&["vim", "unknown"])) {
        Err(RatpmError::PackageNotFound(name)) => assert_eq!(name, "unknown"),
        _ => panic!("expected PackageNotFound"),
    }
    match backend.resolve_install(&names(&["bash"])) {
        Err(RatpmError::PackageAlreadyInstalled(name)) => assert_eq!(name, "bash"),
        _ => panic!("expected PackageAlreadyInstalled"),
    }
    // the first name that fails decides
    match backend.resolve_install(&names(&["unknown", "bash"])) {
        Err(RatpmError::PackageNotFound(name)) => assert_eq!(name, "unknown"),
        _ => panic!("expected PackageNotFound"),
    }
    assert!(backend.resolve_install(&names(&[])).unwrap().is_empty());
}

#[test]
fn test_resolve_remove() {
    let mut backend = fresh_backend();
    backend.load_installed(vec![
        installed("bash", "5.2.21", "shell", 7_000),
        installed("coreutils", "9.4", "utilities", 3_000),
    ]);
    let t = backend.resolve_remove(&names(&["coreutils", "bash"])).unwrap();
    assert_eq!(t.remove.len(), 2);
    assert_eq!(t.remove[0].to_nevra(), "coreutils-9.4.x86_64");
    assert_eq!(t.remove[0].repo, "@System");
    assert_eq!(t.remove[1].name, "bash");
    assert_eq!(t.install_size, -10_000);
    assert_eq!(t.download_size, 0);
    match backend.resolve_remove(&names(&["bash", "vim"])) {
        Err(RatpmError::PackageNotInstalled(name)) => assert_eq!(name, "vim"),
        _ => panic!("expected PackageNotInstalled"),
    }
}

#[test]
fn test_resolve_upgrade() {
    let mut backend = stocked_backend();
    backend.load_installed(vec![
        installed("bash", "5.2.21", "shell", 1_500_000),
        installed("coreutils", "9.4", "utilities", 3_000),
        installed("emacs", "29.1", "same version as offered", 9),
        installed("vim", "10.0", "newer than offered", 9),
    ]);
    let t = backend.resolve_upgrade().unwrap();
    assert_eq!(t.upgrade.len(), 1);
    let (old, new) = &t.upgrade[0];
    assert_eq!(old.to_nevra(), "bash-5.2.21.x86_64");
    assert_eq!(old.repo, "@System");
    assert_eq!(new.to_nevra(), "bash-5.3.0.x86_64");
    assert_eq!(new.repo, "fedora");
    assert_eq!(t.download_size, 2_000_000);
    assert_eq!(t.install_size, 500_000);
}

#[test]
fn test_resolve_upgrade_without_newer_versions_is_empty() {
    let backend = fresh_backend();
    assert!(backend.resolve_upgrade().unwrap().is_empty());
    let mut backend = stocked_backend();
    backend.load_installed(vec![installed("bash", "5.3.0", "shell", 1), installed("vim", "9.1", "", 1)]);
    let t = backend.resolve_upgrade().unwrap();
    assert!(t.is_empty());
    assert_eq!(t.total_packages(), 0);
    assert_eq!(t.download_size, 0);
    assert_eq!(t.install_size, 0);
}

#[test]
fn test_resolve_upgrade_packages() {
    let mut backend = stocked_backend();
    backend.load_installed(vec![
        installed("bash", "5.2.21", "shell", 1_500_000),
        installed("coreutils", "9.4", "not offered at all", 3_000),
        installed("vim", "9.0.2190", "same as offered", 9),
    ]);
    let t = backend.resolve_upgrade_packages(&names(&["vim", "coreutils", "bash"])).unwrap();
    assert_eq!(t.upgrade.len(), 1);
    assert_eq!(t.upgrade[0].1.version, "5.3.0");
    assert_eq!(t.install_size, 500_000);
    // nothing newer: a legal plan that does nothing
    assert!(backend.resolve_upgrade_packages(&names(&["vim"])).unwrap().is_empty());
    match backend.resolve_upgrade_packages(&names(&["bash", "neovim"])) {
        Err(RatpmError::PackageNotInstalled(name)) => assert_eq!(name, "neovim"),
        _ => panic!("expected PackageNotInstalled"),
    }
}

#[test]
fn test_diagnostics() {
    let mut backend = stocked_backend();
    backend.load_repositories(&vec!["[updates]\nbaseurl=https://example.org/u\n".to_string()]);
    let issues = backend.run_diagnostics(true, true).unwrap();
    assert_eq!(issues.len(), 1);
    assert_eq!(issues[0].severity, "warning");
    assert_eq!(issues[0].message, "Repository 'updates' has no cached metadata");
    assert_eq!(issues[0].suggestion, "Run 'ratpm update' to refresh repository metadata");

    let issues = backend.run_diagnostics(false, true).unwrap();
    assert_eq!(issues.len(), 2);
    assert_eq!(issues[0].severity, "error");
    assert_eq!(
        issues[0].message,
        "RPM database integrity check failed: RPM database error: RPM database does not exist at \"/var/lib/rpm\""
    );
    assert_eq!(issues[0].suggestion, "Run 'rpm --rebuilddb' to rebuild the database");
    let issues = backend.run_diagnostics(true, false).unwrap();
    assert_eq!(
        issues[0].message,
        "RPM database integrity check failed: RPM database error: RPM Packages database file is missing"
    );
}

#[test]
fn test_refresh_stamps_and_gives_caches() {
    let mut backend = stocked_backend();
    backend.load_repositories(&vec!["[updates]\nbaseurl=https://example.org/u\n".to_string()]);
    let before: Vec<RepositoryMetadata> = backend.repos().repositories();
    assert!(before.iter().all(|r| r.last_refresh.is_none()));
    backend.refresh_repositories().unwrap();
    let after = backend.repos().repositories();
    assert_eq!(after.len(), 2);
    assert!(after.iter().all(|r| r.last_refresh.is_some()));
    assert!(backend.run_diagnostics(true, true).unwrap().is_empty());
    // the cache that was there is kept
    assert_eq!(backend.list_available().unwrap().len(), 4);
    backend.sync_databases().unwrap();
    assert_eq!(backend.list_available().unwrap().len(), 4);
}

#[test]
fn test_history_is_limited() {
    let mut backend = fresh_backend();
    let entry = |id: i64| ratpm::backend::fedora::types::HistoryEntry {
        id,
        timestamp: "2025-01-25 10:30:00".to_string(),
        command: "ratpm install bash".to_string(),
        actions: vec!["Installed bash-5.2.21.x86_64".to_string()],
    };
    backend.load_history(vec![entry(3), entry(2), entry(1)]);
    let ids = |limit: usize| -> Vec<i64> {
        backend.get_history(limit).unwrap().iter().map(|e| e.id).collect()
    };
    assert_eq!(ids(0), Vec::<i64>::new());
    assert_eq!(ids(2), vec![3, 2]);
    assert_eq!(ids(3), vec![3, 2, 1]);
    assert_eq!(ids(20), vec![3, 2, 1]);
    assert_eq!(backend.get_history(1).unwrap()[0].actions, vec!["Installed bash-5.2.21.x86_64"]);
}

#[test]
fn test_stage_dependencies() {
    let backend = stocked_backend();
    let dep = |name: &str, version: &str| {
        PackageSpec::new(name.to_string(), version.to_string(), "x86_64".to_string(), "fedora".to_string())
    };
    let vim = spec_of(&backend.repos().get_package_info("vim").unwrap());
    assert_eq!(vim, dep("vim", "9.0.2190"));
    assert!(resolve_dependencies(&vim, backend.repos(), backend.rpm_db()).unwrap().is_empty());

    let mut t = Transaction::new();
    t.add_install(vim.clone(), 5_000_000);
    // bash is installed, vim is in the plan already, emacs comes twice
    let deps = vec![dep("bash", "5.3.0"), vim.clone(), dep("emacs", "29.1"), dep("emacs", "29.1"), dep("neovim", "0.9.5")];
    stage_dependencies(&mut t, &deps, backend.repos(), backend.rpm_db()).unwrap();
    let staged: Vec<&str> = t.install.iter().map(|p| p.name.as_str()).collect();
    assert_eq!(staged, vec!["vim", "emacs", "neovim"]);
    assert_eq!(t.download_size, 5_000_000 + 40_000_000 + 15_900_000);
    assert!(holds(&t.install, &dep("emacs", "29.1")));
    assert!(!holds(&t.install, &dep("emacs", "29.2")));

    // what the catalog does not have ends the staging; what came before stays
    let mut t = Transaction::new();
    let deps = vec![dep("emacs", "29.1"), dep("ghost", "1"), dep("neovim", "0.9.5")];
    match stage_dependencies(&mut t, &deps, backend.repos(), backend.rpm_db()) {
        Err(RatpmError::PackageNotFound(name)) => assert_eq!(name, "ghost"),
        _ => panic!("expected PackageNotFound"),
    }
    assert_eq!(t.install.len(), 1);
}

#[test]
fn test_check_dependents() {
    let backend = fresh_backend();
    assert!(find_dependents("bash", backend.rpm_db()).unwrap().is_empty());
    let removing = names(&["bash", "readline"]);
    assert!(check_dependents("bash", &names(&[]), &removing).is_ok());
    assert!(check_dependents("bash", &names(&["readline"]), &removing).is_ok());
    let err = check_dependents("bash", &names(&["sudo", "readline", "git"]), &removing).unwrap_err();
    assert!(
        matches!(&err, RatpmError::DependencyConflict(m) if m == "Cannot remove 'bash': required by sudo, git")
    );
    assert_eq!(err.exit_code(), 2);
    assert_eq!(err.to_string(), "Dependency conflict: Cannot remove 'bash': required by sudo, git");
    assert!(names_hold(&removing, &"readline".to_string()));
    assert!(!names_hold(&removing, &"Readline".to_string()));
}

fn requirements(list: &[(&str, &[&str])]) -> Vec<(String, Vec<String>)> {
    list.iter().map(|(name, needs)| (name.to_string(), names(needs))).collect()
}

#[test]
fn test_remove_is_refused_for_a_package_that_others_require() {
    let mut backend = fresh_backend();
    backend.load_installed(vec![
        installed("bash", "5.2.21", "shell", 7_000),
        installed("coreutils", "9.4", "utilities", 3_000),
        installed("sudo", "1.9", "", 1),
        installed("git", "2.4", "", 1),
    ]);
    backend.load_requirements(requirements(&[
        ("sudo", &["bash", "pam"]),
        ("git", &["bash", "coreutils"]),
        ("gone", &["bash"]),
        ("bash", &["coreutils"]),
    ]));
    let err = backend.resolve_remove(&names(&["bash"])).unwrap_err();
    assert!(matches!(&err, RatpmError::DependencyConflict(m) if m == "Cannot remove 'bash': required by sudo, git"));
    assert_eq!(err.exit_code(), 2);
    // a dependent that is removed with it does not stand in the way
    let err = backend.resolve_remove(&names(&["git", "bash"])).unwrap_err();
    assert!(matches!(&err, RatpmError::DependencyConflict(m) if m == "Cannot remove 'bash': required by sudo"));
    let t = backend.resolve_remove(&names(&["git", "sudo", "bash"])).unwrap();
    assert_eq!(t.remove.len(), 3);
    // the order of the names does not matter: the whole request counts
    let t = backend.resolve_remove(&names(&["bash", "sudo", "git"])).unwrap();
    assert_eq!(t.remove.len(), 3);
    assert_eq!(t.remove[0].name, "bash");
    // coreutils is required by git and by bash
    let err = backend.resolve_remove(&names(&["sudo", "coreutils"])).unwrap_err();
    assert!(
        matches!(&err, RatpmError::DependencyConflict(m) if m == "Cannot remove 'coreutils': required by git, bash")
    );
    // what is not installed is refused before dependents are looked at
    assert!(matches!(
        backend.resolve_remove(&names(&["pam"])),
        Err(RatpmError::PackageNotInstalled(name)) if name == "pam"
    ));
    // every name is held against the installed packages first: bash is
    // required by sudo and git, yet the name that is not installed decides
    assert!(matches!(
        backend.resolve_remove(&names(&["bash", "pam", "nope"])),
        Err(RatpmError::PackageNotInstalled(name)) if name == "pam"
    ));
    // taken name by name, without the first pass, the blocked package decides
    assert!(matches!(
        resolve_remove(backend.rpm_db(), &names(&["bash", "pam"])),
        Err(RatpmError::DependencyConflict(_))
    ));
    assert_eq!(backend.rpm_db().dependents("bash"), vec!["sudo", "git"]);
    assert!(backend.rpm_db().dependents("sudo").is_empty());
}

#[test]
fn test_a_name_asked_for_twice_is_planned_once() {
    let mut backend = stocked_backend();
    backend.load_installed(vec![
        installed("bash", "5.2.21", "shell", 1_500_000),
        installed("coreutils", "9.4", "utilities", 3_000),
    ]);
    let t = backend.resolve_remove(&names(&["bash", "coreutils", "bash"])).unwrap();
    let removed: Vec<&str> = t.remove.iter().map(|p| p.name.as_str()).collect();
    assert_eq!(removed, vec!["bash", "coreutils"]);
    assert_eq!(t.install_size, -1_503_000);
    let t = backend.resolve_upgrade_packages(&names(&["bash", "coreutils", "bash"])).unwrap();
    assert_eq!(t.upgrade.len(), 1);
    assert_eq!(t.download_size, 2_000_000);
    assert_eq!(t.install_size, 500_000);
}

#[test]
fn test_catalog_holds_only_enabled_repositories_with_an_address() {
    let mut backend = fresh_backend();
    backend.load_repositories(&vec![
        "[on]\nbaseurl=u\n[off]\nbaseurl=v\nenabled=0\n".to_string(),
        "[empty]\nbaseurl=\n".to_string(),
    ]);
    let loaded = backend.repos().repositories();
    assert_eq!(loaded.len(), 1);
    assert!(loaded.iter().all(|r| r.enabled && !r.baseurl.is_empty()));
    assert!(backend.repos().get_repository("off").is_none());
    assert!(backend.repos().get_repository("empty").is_none());
    let on = backend.repos().get_repository("on").unwrap();
    assert!(on.enabled);
    assert_eq!(on.baseurl, "u");
}

#[test]
fn test_install_brings_what_the_package_needs() {
    let mut backend = stocked_backend();
    assert!(backend.load_cache(
        "fedora",
        vec![
            offered("neovim", "0.9.5", "editor", 100),
            offered("libuv", "1.4", "", 20),
            offered("luajit", "2.1", "", 30),
            offered("libc-extras", "1", "", 5),
            offered("bash", "5.3.0", "shell", 7),
            offered("vim", "9.0", "", 50),
        ],
    ));
    backend.load_offered_requirements(requirements(&[
        ("neovim", &["libuv", "bash", "luajit", "libuv"]),
        ("libuv", &["libc-extras"]),
        // a cycle back to the package that is asked for, and one among the dependencies
        ("luajit", &["neovim", "libc-extras", "libuv"]),
        ("libc-extras", &["luajit"]),
        ("vim", &["missing"]),
    ]));
    let t = backend.resolve_install(&names(&["neovim"])).unwrap();
    let planned: Vec<&str> = t.install.iter().map(|p| p.name.as_str()).collect();
    // the package, then what it needs in the order in which it is met; bash is installed
    assert_eq!(planned, vec!["neovim", "libuv", "luajit", "libc-extras"]);
    assert_eq!(t.download_size, 155);
    assert_eq!(t.install_size, 155);
    assert!(t.install.iter().all(|p| p.repo == "fedora"));

    let neovim = spec_of(&backend.repos().get_package_info("neovim").unwrap());
    let deps = resolve_dependencies(&neovim, backend.repos(), backend.rpm_db()).unwrap();
    let found: Vec<&str> = deps.iter().map(|p| p.name.as_str()).collect();
    assert_eq!(found, vec!["libuv", "luajit", "libc-extras"]);

    // what is in the plan already is not added again
    let t = backend.resolve_install(&names(&["luajit", "neovim"])).unwrap();
    let planned: Vec<&str> = t.install.iter().map(|p| p.name.as_str()).collect();
    assert_eq!(planned, vec!["luajit", "neovim", "libc-extras", "libuv"]);
    assert_eq!(t.download_size, 155);

    // a needed package that is neither installed nor on offer refuses the request
    match backend.resolve_install(&names(&["neovim", "vim"])) {
        Err(RatpmError::PackageNotFound(name)) => assert_eq!(name, "missing"),
        _ => panic!("expected PackageNotFound"),
    }
    assert_eq!(backend.repos().requirements_of("libuv"), vec!["libc-extras"]);
    assert!(backend.repos().requirements_of("bash").is_empty());
}

#[test]
fn test_install_holds_every_name_against_the_catalog_before_any_dependency() {
    let mut backend = stocked_backend();
    backend.load_offered_requirements(requirements(&[("vim", &["missing"])]));
    // vim needs a package that nobody offers, but the names come first
    match backend.resolve_install(&names(&["vim", "unknown"])) {
        Err(RatpmError::PackageNotFound(name)) => assert_eq!(name, "unknown"),
        _ => panic!("expected PackageNotFound"),
    }
    match backend.resolve_install(&names(&["vim", "bash"])) {
        Err(RatpmError::PackageAlreadyInstalled(name)) => assert_eq!(name, "bash"),
        _ => panic!("expected PackageAlreadyInstalled"),
    }
    // a name that nobody offers is reported as such, installed or not
    match backend.resolve_install(&names(&["coreutils"])) {
        Err(RatpmError::PackageNotFound(name)) => assert_eq!(name, "coreutils"),
        _ => panic!("expected PackageNotFound"),
    }
    match backend.resolve_install(&names(&["vim"])) {
        Err(RatpmError::PackageNotFound(name)) => assert_eq!(name, "missing"),
        _ => panic!("expected PackageNotFound"),
    }
}

/// A backend whose repository offers one package of the largest size and
/// two small ones, the first of which is installed in an older version.
fn heavy_backend() -> FedoraBackend {
    let mut backend = stocked_backend();
    assert!(backend.load_cache(
        "fedora",
        vec![
            offered("huge", "2.0", "", u64::MAX),
            offered("small", "2.0", "", 1),
            offered("tiny", "1.0", "", 0),
        ],
    ));
    backend
}

#[test]
fn test_install_has_no_plan_when_the_bytes_to_fetch_leave_u64() {
    let mut backend = heavy_backend();
    let t = backend.try_resolve_install(&names(&["huge"])).unwrap().unwrap();
    assert_eq!(t.download_size, u64::MAX);
    let t = backend.try_resolve_install(&names(&["huge", "tiny"])).unwrap().unwrap();
    assert_eq!(t.download_size, u64::MAX);
    assert_eq!(t.install.len(), 2);
    assert!(backend.try_resolve_install(&names(&["huge", "small"])).is_none());
    assert!(backend.try_resolve_install(&names(&["small", "huge"])).is_none());
    // a name that is refused before the sum leaves u64 decides
    match backend.try_resolve_install(&names(&["huge", "unknown", "small"])) {
        Some(Err(RatpmError::PackageNotFound(name))) => assert_eq!(name, "unknown"),
        _ => panic!("expected PackageNotFound"),
    }
    assert!(backend.try_resolve_install(&names(&["huge", "small", "unknown"])).is_none());
    // what a package needs counts too
    backend.load_offered_requirements(requirements(&[("small", &["huge"])]));
    assert!(backend.try_resolve_install(&names(&["small"])).is_none());
    backend.load_offered_requirements(requirements(&[("small", &["tiny"])]));
    let t = backend.try_resolve_install(&names(&["small"])).unwrap().unwrap();
    assert_eq!(t.download_size, 1);
    assert_eq!(t.install.len(), 2);
}

#[test]
fn test_upgrade_has_no_plan_when_the_bytes_to_fetch_leave_u64() {
    let mut backend = heavy_backend();
    backend.load_installed(vec![
        installed("huge", "1.0", "", 10),
        installed("small", "1.0", "", 10),
        installed("tiny", "1.0", "", 10),
    ]);
    assert!(backend.try_resolve_upgrade().is_none());
    assert!(backend.try_resolve_upgrade_packages(&names(&["huge", "small"])).is_none());
    let t = backend.try_resolve_upgrade_packages(&names(&["huge", "tiny"])).unwrap().unwrap();
    assert_eq!(t.upgrade.len(), 1);
    assert_eq!(t.download_size, u64::MAX);
    match backend.try_resolve_upgrade_packages(&names(&["huge", "unknown", "small"])) {
        Some(Err(RatpmError::PackageNotInstalled(name))) => assert_eq!(name, "unknown"),
        _ => panic!("expected PackageNotInstalled"),
    }

    backend.load_installed(vec![installed("huge", "1.0", "", 10), installed("small", "2.0", "", 10)]);
    let t = backend.try_resolve_upgrade().unwrap().unwrap();
    assert_eq!(t.upgrade.len(), 1);
    assert_eq!(t.upgrade[0].1.name, "huge");
    assert_eq!(t.download_size, u64::MAX);
}

#[test]
fn test_staging_stops_before_the_package_that_does_not_fit() {
    let backend = heavy_backend();
    let dep = |name: &str, version: &str| {
        PackageSpec::new(name.to_string(), version.to_string(), "x86_64".to_string(), "fedora".to_string())
    };
    let deps = vec![dep("tiny", "1.0"), dep("small", "2.0"), dep("huge", "2.0"), dep("ghost", "1")];
    let mut t = Transaction::new();
    assert!(try_stage_dependencies(&mut t, &deps, backend.repos(), backend.rpm_db()).is_none());
    let staged: Vec<&str> = t.install.iter().map(|p| p.name.as_str()).collect();
    assert_eq!(staged, vec!["tiny", "small"]);
    assert_eq!(t.download_size, 1);

    // a package that is not on offer, met before the sum leaves u64, decides
    let deps = vec![dep("huge", "2.0"), dep("ghost", "1"), dep("small", "2.0")];
    let mut t = Transaction::new();
    match try_stage_dependencies(&mut t, &deps, backend.repos(), backend.rpm_db()) {
        Some(Err(RatpmError::PackageNotFound(name))) => assert_eq!(name, "ghost"),
        _ => panic!("expected PackageNotFound"),
    }
    assert_eq!(t.download_size, u64::MAX);

    let deps = vec![dep("huge", "2.0"), dep("tiny", "1.0"), dep("huge", "2.0")];
    let mut t = Transaction::new();
    assert!(matches!(
        try_stage_dependencies(&mut t, &deps, backend.repos(), backend.rpm_db()),
        Some(Ok(()))
    ));
    assert_eq!(t.install.len(), 2);
    assert_eq!(t.download_size, u64::MAX);
}
