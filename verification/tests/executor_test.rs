use ratpm::backend::fedora::repos::RepositoryManager;
use ratpm::backend::fedora::rpm::{RpmDatabase, TransactionOperation};
use ratpm::backend::fedora::transaction::{
    artifact_path_of, download_packages, execute_transaction, finish_transaction, package_url_of,
    packages_dir, queue_operations, verify_package_signatures,
};
use ratpm::backend::fedora::types::PackageSpec;
use ratpm::backend::fedora::FedoraBackend;
use ratpm::config::Config;
use ratpm::engine::errors::RatpmError;
use ratpm::engine::transaction::Transaction;

fn spec(name: &str, version: &str, repo: &str) -> PackageSpec {
    PackageSpec::new(name.to_string(), version.to_string(), "x86_64".to_string(), repo.to_string())
}

fn catalog() -> RepositoryManager {
    let mut m =
        RepositoryManager::new("/etc/yum.repos.d".to_string(), "/c".to_string(), true).unwrap();
    let failures = m.load_repositories(&vec![
        "[fedora]\nbaseurl=https://example.org/fedora///\n[updates]\nbaseurl=https://example.org/updates\n"
            .to_string(),
    ]);
    assert!(failures.is_empty());
    m
}

fn plan() -> Transaction {
    let mut t = Transaction::new();
    t.add_install(spec("Vim", "9.0", "fedora"), 10);
    t.add_install(spec("emacs", "29.1", "updates"), 20);
    t.add_remove(spec("nano", "7.2", "@System"), 5);
    t.add_remove(spec("ed", "1.0", "@System"), 5);
    t.add_upgrade(spec("bash", "5.2", "@System"), spec("bash", "5.3", "fedora"), 7, 8);
    t.add_upgrade(spec("zsh", "5.8", "@System"), spec("zsh", "5.9", "updates"), 7, 8);
    t
}

fn strings(list: &[&str]) -> Vec<String> {
    list.iter().map(|s| s.to_string()).collect()
}

#[test]
fn test_paths_and_urls() {
    assert_eq!(packages_dir("/var/cache/ratpm"), "/var/cache/ratpm/packages");
    assert_eq!(artifact_path_of("/c/packages", &spec("vim", "9.0", "fedora")), "/c/packages/vim-9.0.x86_64.rpm");
    assert_eq!(
        package_url_of("https://example.org/fedora", &spec("vim", "9.0", "fedora")),
        "https://example.org/fedora/Packages/v/vim-9.0.x86_64.rpm"
    );
    // the letter is the lowercase first character; trailing slashes go
    assert_eq!(
        package_url_of("https://example.org/fedora///", &spec("Vim", "9.0", "fedora")),
        "https://example.org/fedora/Packages/v/Vim-9.0.x86_64.rpm"
    );
    assert_eq!(package_url_of("/", &spec("", "1", "fedora")), "/Packages/_/-1.x86_64.rpm");
    assert_eq!(package_url_of("b", &spec("Éclair", "1", "r")), "b/Packages/é/Éclair-1.x86_64.rpm");
    assert_eq!(package_url_of("b", &spec("İ", "1", "r")), "b/Packages/i\u{307}/İ-1.x86_64.rpm");
}

#[test]
fn test_download_plan() {
    let t = plan();
    let present = strings(&["/c/packages/emacs-29.1.x86_64.rpm", "/c/packages/other.rpm"]);
    let plan = download_packages(&t, &catalog(), "/c/packages", &present);
    assert!(plan.failure.is_none());
    let fetched: Vec<(&str, &str)> =
        plan.fetches.iter().map(|f| (f.path.as_str(), f.url.as_str())).collect();
    assert_eq!(
        fetched,
        vec![
            ("/c/packages/Vim-9.0.x86_64.rpm", "https://example.org/fedora/Packages/v/Vim-9.0.x86_64.rpm"),
            ("/c/packages/bash-5.3.x86_64.rpm", "https://example.org/fedora/Packages/b/bash-5.3.x86_64.rpm"),
            ("/c/packages/zsh-5.9.x86_64.rpm", "https://example.org/updates/Packages/z/zsh-5.9.x86_64.rpm"),
        ]
    );
    assert_eq!(plan.fetches[1].spec, spec("bash", "5.3", "fedora"));
}

#[test]
fn test_download_fetches_a_file_once() {
    let mut t = Transaction::new();
    t.add_install(spec("vim", "9.0", "fedora"), 10);
    t.add_install(spec("vim", "9.0", "updates"), 10);
    t.add_upgrade(spec("vim", "8", "@System"), spec("vim", "9.0", "nowhere"), 1, 1);
    let plan = download_packages(&t, &catalog(), "/c/packages", &Vec::new());
    assert!(plan.failure.is_none());
    assert_eq!(plan.fetches.len(), 1);
    assert_eq!(plan.fetches[0].spec.repo, "fedora");
}

#[test]
fn test_download_stops_at_an_unknown_repository() {
    let mut t = Transaction::new();
    t.add_install(spec("a", "1", "fedora"), 10);
    t.add_install(spec("b", "1", "gone"), 10);
    t.add_install(spec("c", "1", "fedora"), 10);
    let plan = download_packages(&t, &catalog(), "/c/packages", &Vec::new());
    assert!(matches!(&plan.failure, Some(RatpmError::RepoUnavailable(name)) if name == "gone"));
    assert_eq!(plan.failure.as_ref().unwrap().exit_code(), 6);
    assert_eq!(plan.fetches.len(), 1);
    assert_eq!(plan.fetches[0].spec.name, "a");
    // a file that is there needs no repository
    let present = strings(&["/c/packages/b-1.x86_64.rpm"]);
    let plan = download_packages(&t, &catalog(), "/c/packages", &present);
    assert!(plan.failure.is_none());
    assert_eq!(plan.fetches.len(), 2);
}

#[test]
fn test_verification_reports_the_first_missing_file() {
    let t = plan();
    let all = strings(&[
        "/c/packages/Vim-9.0.x86_64.rpm",
        "/c/packages/emacs-29.1.x86_64.rpm",
        "/c/packages/bash-5.3.x86_64.rpm",
        "/c/packages/zsh-5.9.x86_64.rpm",
    ]);
    assert!(verify_package_signatures(&t, "/c/packages", &all).is_ok());
    let some = strings(&["/c/packages/Vim-9.0.x86_64.rpm", "/c/packages/zsh-5.9.x86_64.rpm"]);
    let err = verify_package_signatures(&t, "/c/packages", &some).unwrap_err();
    assert!(matches!(&err, RatpmError::BackendError(m) if m == "Package file not found: emacs-29.1.x86_64"));
    assert_eq!(err.to_string(), "Backend error: Package file not found: emacs-29.1.x86_64");
    assert!(verify_package_signatures(&Transaction::new(), "/c/packages", &Vec::new()).is_ok());
}

#[test]
fn test_operations_are_queued_removals_first() {
    let mut db = RpmDatabase::new().unwrap();
    let mut queue = db.begin_transaction().unwrap();
    assert_eq!(queue.len(), 0);
    queue_operations(&mut queue, &plan(), "/c/packages");
    assert_eq!(queue.len(), 8);
    // the dry run names the first installation without its file: after the two
    // removals come the installs in plan order
    for (present, missing) in [
        (vec![], "Vim-9.0.x86_64"),
        (vec!["/c/packages/Vim-9.0.x86_64.rpm"], "emacs-29.1.x86_64"),
        (vec!["/c/packages/Vim-9.0.x86_64.rpm", "/c/packages/emacs-29.1.x86_64.rpm"], "bash-5.3.x86_64"),
        (
            vec![
                "/c/packages/Vim-9.0.x86_64.rpm",
                "/c/packages/emacs-29.1.x86_64.rpm",
                "/c/packages/bash-5.3.x86_64.rpm",
            ],
            "zsh-5.9.x86_64",
        ),
    ] {
        let err = queue.check(&strings(&present)).unwrap_err();
        assert!(
            matches!(&err, RatpmError::TransactionCheckFailed(m) if *m == format!("RPM file not found for {}", missing))
        );
        assert_eq!(err.exit_code(), 3);
        let err = queue.execute(&mut db, &strings(&present)).unwrap_err();
        assert_eq!(
            err.to_string(),
            format!(
                "Transaction execution failed: {}: RPM database error: RPM file does not exist: \"/c/packages/{}.rpm\"",
                missing, missing
            )
        );
        assert_eq!(err.exit_code(), 4);
    }
    let all = strings(&[
        "/c/packages/zsh-5.9.x86_64.rpm",
        "/c/packages/Vim-9.0.x86_64.rpm",
        "/c/packages/emacs-29.1.x86_64.rpm",
        "/c/packages/bash-5.3.x86_64.rpm",
    ]);
    assert!(queue.check(&all).is_ok());
    assert!(queue.execute(&mut db, &all).is_ok());
}

#[test]
fn test_removals_need_no_files() {
    let mut db = RpmDatabase::new().unwrap();
    let mut queue = db.begin_transaction().unwrap();
    queue.add_remove(spec("nano", "7.2", "@System"));
    assert!(queue.check(&Vec::new()).is_ok());
    assert!(queue.execute(&mut db, &Vec::new()).is_ok());
    queue.add_install(spec("vim", "9", "fedora"), "/somewhere/vim.rpm".to_string());
    assert!(queue.check(&Vec::new()).is_err());
    assert!(queue.check(&strings(&["/somewhere/vim.rpm"])).is_ok());
    assert!(db.install_package(&spec("vim", "9", "fedora"), "/p", true).is_ok());
    assert!(db.remove_package(&spec("vim", "9", "fedora")).is_ok());
    assert!(matches!(
        db.install_package(&spec("vim", "9", "fedora"), "/p", false),
        Err(RatpmError::RpmDbError(m)) if m == "RPM file does not exist: \"/p\""
    ));
}

#[test]
fn test_finish_transaction() {
    let mut db = RpmDatabase::new().unwrap();
    let t = plan();
    let some = strings(&["/c/packages/Vim-9.0.x86_64.rpm"]);
    // with verification the missing file is a backend error, without it the dry run fails
    let err = finish_transaction(&mut db, "/c/packages", &t, true, &some).unwrap_err();
    assert!(matches!(&err, RatpmError::BackendError(m) if m == "Package file not found: emacs-29.1.x86_64"));
    let err = finish_transaction(&mut db, "/c/packages", &t, false, &some).unwrap_err();
    assert!(
        matches!(&err, RatpmError::TransactionCheckFailed(m) if m == "RPM file not found for emacs-29.1.x86_64")
    );
    let mut removal = Transaction::new();
    removal.add_remove(spec("nano", "7.2", "@System"), 5);
    assert!(finish_transaction(&mut db, "/c/packages", &removal, true, &Vec::new()).is_ok());
}

#[test]
fn test_execute_transaction() {
    let mut db = RpmDatabase::new().unwrap();
    let present = strings(&["/c/packages/emacs-29.1.x86_64.rpm"]);
    let run = execute_transaction(&catalog(), &mut db, "/c", plan(), true, &present);
    assert!(run.outcome.is_ok());
    let paths: Vec<&str> = run.fetches.iter().map(|f| f.path.as_str()).collect();
    assert_eq!(
        paths,
        vec!["/c/packages/Vim-9.0.x86_64.rpm", "/c/packages/bash-5.3.x86_64.rpm", "/c/packages/zsh-5.9.x86_64.rpm"]
    );

    let mut t = Transaction::new();
    t.add_install(spec("a", "1", "fedora"), 10);
    t.add_install(spec("b", "1", "gone"), 10);
    let run = execute_transaction(&catalog(), &mut db, "/c", t, true, &Vec::new());
    assert!(matches!(&run.outcome, Err(RatpmError::RepoUnavailable(name)) if name == "gone"));
    assert_eq!(run.fetches.len(), 1);
}

#[test]
fn test_backend_execute() {
    let mut config = Config::default();
    config.system.cache_dir = "/c".to_string();
    let mut backend = FedoraBackend::new(&config).unwrap();
    backend.load_repositories(&vec!["[fedora]\nbaseurl=https://example.org/fedora\n".to_string()]);
    let mut t = Transaction::new();
    t.add_install(spec("vim", "9.0", "fedora"), 10);
    let run = backend.execute(t, &Vec::new());
    assert!(run.outcome.is_ok());
    assert_eq!(run.fetches.len(), 1);
    assert_eq!(run.fetches[0].url, "https://example.org/fedora/Packages/v/vim-9.0.x86_64.rpm");
    assert_eq!(run.fetches[0].path, "/c/packages/vim-9.0.x86_64.rpm");
}

#[test]
fn test_database_queries() {
    let mut db = RpmDatabase::new().unwrap();
    assert_eq!(db.db_path(), "/var/lib/rpm");
    assert_eq!(db.is_installed("bash").unwrap(), false);
    assert!(db.verify_integrity(true, true).is_ok());
    assert!(matches!(
        db.verify_integrity(false, false),
        Err(RatpmError::RpmDbError(m)) if m == "RPM database does not exist at \"/var/lib/rpm\""
    ));
    assert!(matches!(
        db.verify_integrity(true, false),
        Err(RatpmError::RpmDbError(m)) if m == "RPM Packages database file is missing"
    ));
    assert_eq!(db.verify_integrity(true, false).unwrap_err().exit_code(), 9);
    let info = |name: &str, version: &str, size: u64| ratpm::backend::fedora::types::PackageInfo {
        name: name.to_string(),
        version: version.to_string(),
        arch: "x86_64".to_string(),
        repo: "anything".to_string(),
        size,
        summary: "s".to_string(),
        description: String::new(),
        url: String::new(),
        license: String::new(),
    };
    db.load_packages(vec![info("bash", "5.2", 7), info("bash", "4.0", 9), info("ed", "1", 1)]);
    assert!(db.is_installed("bash").unwrap());
    assert!(!db.is_installed("Bash").unwrap());
    let found = db.get_package_info("bash").unwrap();
    assert_eq!((found.version.as_str(), found.repo.as_str(), found.size), ("5.2", "@System", 7));
    assert!(matches!(db.get_package_info("vim"), Err(RatpmError::PackageNotFound(n)) if n == "vim"));
    assert_eq!(db.list_all().unwrap().len(), 3);
}

fn applied(db: &RpmDatabase) -> Vec<String> {
    db.applied()
        .iter()
        .map(|op| match op {
            TransactionOperation::Install(spec, path) => format!("install {} from {}", spec.to_nevra(), path),
            TransactionOperation::Remove(spec) => format!("remove {}", spec.to_nevra()),
        })
        .collect()
}

#[test]
fn test_operations_are_applied_in_plan_order() {
    let mut db = RpmDatabase::new().unwrap();
    assert!(db.applied().is_empty());
    let run = execute_transaction(&catalog(), &mut db, "/c", plan(), true, &Vec::new());
    assert!(run.outcome.is_ok());
    assert_eq!(
        applied(&db),
        vec![
            "remove nano-7.2.x86_64",
            "remove ed-1.0.x86_64",
            "install Vim-9.0.x86_64 from /c/packages/Vim-9.0.x86_64.rpm",
            "install emacs-29.1.x86_64 from /c/packages/emacs-29.1.x86_64.rpm",
            "remove bash-5.2.x86_64",
            "install bash-5.3.x86_64 from /c/packages/bash-5.3.x86_64.rpm",
            "remove zsh-5.8.x86_64",
            "install zsh-5.9.x86_64 from /c/packages/zsh-5.9.x86_64.rpm",
        ]
    );
    // a second execution adds its operations after those of the first
    let mut removal = Transaction::new();
    removal.add_remove(spec("nano", "7.2", "@System"), 5);
    assert!(execute_transaction(&catalog(), &mut db, "/c", removal, false, &Vec::new()).outcome.is_ok());
    assert_eq!(db.applied().len(), 9);
    assert_eq!(applied(&db)[8], "remove nano-7.2.x86_64");
}

#[test]
fn test_nothing_is_applied_when_a_stage_fails() {
    let mut db = RpmDatabase::new().unwrap();
    let mut t = Transaction::new();
    t.add_remove(spec("nano", "7.2", "@System"), 5);
    t.add_install(spec("b", "1", "gone"), 10);
    let run = execute_transaction(&catalog(), &mut db, "/c", t, true, &Vec::new());
    assert!(matches!(&run.outcome, Err(RatpmError::RepoUnavailable(name)) if name == "gone"));
    assert!(db.applied().is_empty());
    // the verification and the dry run fail before anything is applied
    assert!(finish_transaction(&mut db, "/c/packages", &plan(), true, &Vec::new()).is_err());
    assert!(finish_transaction(&mut db, "/c/packages", &plan(), false, &Vec::new()).is_err());
    assert!(db.applied().is_empty());
}

#[test]
fn test_execution_stops_at_the_first_failure() {
    let mut db = RpmDatabase::new().unwrap();
    let mut queue = db.begin_transaction().unwrap();
    queue_operations(&mut queue, &plan(), "/c/packages");
    // the files of the first install and of the last upgrade are there
    let present = strings(&["/c/packages/Vim-9.0.x86_64.rpm", "/c/packages/zsh-5.9.x86_64.rpm"]);
    let err = queue.execute(&mut db, &present).unwrap_err();
    assert!(matches!(err, RatpmError::TransactionFailed(_)));
    // what came before the failure stays applied; nothing after it was tried
    assert_eq!(
        applied(&db),
        vec![
            "remove nano-7.2.x86_64",
            "remove ed-1.0.x86_64",
            "install Vim-9.0.x86_64 from /c/packages/Vim-9.0.x86_64.rpm",
        ]
    );
}

#[test]
fn test_backend_execute_applies_the_plan() {
    let mut config = Config::default();
    config.system.cache_dir = "/c".to_string();
    let mut backend = FedoraBackend::new(&config).unwrap();
    backend.load_repositories(&vec!["[fedora]\nbaseurl=https://example.org/fedora\n".to_string()]);
    let mut t = Transaction::new();
    t.add_install(spec("vim", "9.0", "fedora"), 10);
    t.add_remove(spec("nano", "7.2", "@System"), 10);
    assert!(backend.execute(t, &Vec::new()).outcome.is_ok());
    assert_eq!(
        applied(backend.rpm_db()),
        vec!["remove nano-7.2.x86_64", "install vim-9.0.x86_64 from /c/packages/vim-9.0.x86_64.rpm"]
    );
}
