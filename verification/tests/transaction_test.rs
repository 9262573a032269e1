use ratpm::backend::fedora::types::PackageSpec;
use ratpm::engine::transaction::{Transaction, TransactionProgress, TransactionState};

#[test]
fn test_empty_transaction() {
    let transaction = Transaction::new();
    assert!(transaction.is_empty());
    assert_eq!(transaction.total_packages(), 0);
    assert_eq!(transaction.download_size, 0);
}

#[test]
fn test_add_install() {
    let mut transaction = Transaction::new();

    let pkg = PackageSpec::new(
        "vim".to_string(),
        "9.0.0".to_string(),
        "x86_64".to_string(),
        "fedora".to_string(),
    );

    transaction.add_install(pkg, 5_000_000);

    assert!(!transaction.is_empty());
    assert_eq!(transaction.total_packages(), 1);
    assert_eq!(transaction.download_size, 5_000_000);
    assert_eq!(transaction.install_size, 5_000_000);
}

#[test]
fn test_add_remove() {
    let mut transaction = Transaction::new();

    let pkg = PackageSpec::new(
        "vim".to_string(),
        "9.0.0".to_string(),
        "x86_64".to_string(),
        "@System".to_string(),
    );

    transaction.add_remove(pkg, 5_000_000);

    assert!(!transaction.is_empty());
    assert_eq!(transaction.total_packages(), 1);
    assert_eq!(transaction.install_size, -5_000_000);
}

#[test]
fn test_add_upgrade() {
    let mut transaction = Transaction::new();

    let old_pkg = PackageSpec::new(
        "vim".to_string(),
        "8.2.0".to_string(),
        "x86_64".to_string(),
        "@System".to_string(),
    );

    let new_pkg = PackageSpec::new(
        "vim".to_string(),
        "9.0.0".to_string(),
        "x86_64".to_string(),
        "fedora".to_string(),
    );

    transaction.add_upgrade(old_pkg, new_pkg, 4_500_000, 5_000_000);

    assert!(!transaction.is_empty());
    assert_eq!(transaction.total_packages(), 1);
    assert_eq!(transaction.download_size, 5_000_000);
    assert_eq!(transaction.install_size, 500_000);
}

#[test]
fn test_transaction_progress() {
    let mut progress = TransactionProgress::new(10, 50_000_000);

    assert_eq!(progress.state, TransactionState::Pending);
    assert_eq!(progress.total_packages, 10);
    assert_eq!(progress.total_bytes, 50_000_000);
    assert_eq!(progress.percentage() as f64, 0.0);

    progress.packages_processed = 5;
    assert_eq!(progress.percentage() as f64, 50.0);

    progress.packages_processed = 10;
    assert_eq!(progress.percentage() as f64, 100.0);
}

#[test]
fn test_transaction_with_multiple_operations() {
    let mut transaction = Transaction::new();

    let install1 = PackageSpec::new(
        "vim".to_string(),
        "9.0.0".to_string(),
        "x86_64".to_string(),
        "fedora".to_string(),
    );

    let install2 = PackageSpec::new(
        "emacs".to_string(),
        "29.1".to_string(),
        "x86_64".to_string(),
        "fedora".to_string(),
    );

    let remove = PackageSpec::new(
        "nano".to_string(),
        "7.2".to_string(),
        "x86_64".to_string(),
        "@System".to_string(),
    );

    transaction.add_install(install1, 5_000_000);
    transaction.add_install(install2, 10_000_000);
    transaction.add_remove(remove, 500_000);

    assert_eq!(transaction.total_packages(), 3);
    assert_eq!(transaction.install.len(), 2);
    assert_eq!(transaction.remove.len(), 1);
    assert_eq!(transaction.download_size, 15_000_000);
    assert_eq!(transaction.install_size, 14_500_000);
}

#[test]
fn test_package_spec_nevra() {
    let spec = PackageSpec::new(
        "vim".to_string(),
        "9.0.0".to_string(),
        "x86_64".to_string(),
        "fedora".to_string(),
    );

    assert_eq!(spec.to_nevra(), "vim-9.0.0.x86_64");
}

fn spec_of(name: &str, version: &str, arch: &str, repo: &str) -> PackageSpec {
    PackageSpec::new(name.to_string(), version.to_string(), arch.to_string(), repo.to_string())
}

#[test]
fn test_install_size_saturates_at_both_ends() {
    let mut transaction = Transaction::new();
    transaction.add_install(spec_of("a", "1", "noarch", "fedora"), u64::MAX);
    assert_eq!(transaction.install_size, i64::MAX);
    assert_eq!(transaction.download_size, u64::MAX);
    assert!(!transaction.can_fetch(1));
    assert!(transaction.can_fetch(0));

    let mut transaction = Transaction::new();
    transaction.add_remove(spec_of("a", "1", "noarch", "@System"), u64::MAX);
    assert_eq!(transaction.install_size, -i64::MAX);
    transaction.add_remove(spec_of("b", "1", "noarch", "@System"), 5);
    assert_eq!(transaction.install_size, i64::MIN);
    transaction.add_remove(spec_of("c", "1", "noarch", "@System"), 5);
    assert_eq!(transaction.install_size, i64::MIN);
}

#[test]
fn test_upgrade_adds_before_it_subtracts() {
    let mut transaction = Transaction::new();
    transaction.add_install(spec_of("a", "1", "noarch", "fedora"), (i64::MAX as u64) - 10);
    transaction.add_upgrade(
        spec_of("b", "1", "noarch", "@System"),
        spec_of("b", "2", "noarch", "fedora"),
        100,
        50,
    );
    // the addition saturates at i64::MAX, then 100 is subtracted
    assert_eq!(transaction.install_size, i64::MAX - 100);
    assert_eq!(transaction.download_size, (i64::MAX as u64) - 10 + 50);
}

#[test]
fn test_empty_matches_total_packages() {
    let mut transaction = Transaction::new();
    assert_eq!(transaction.is_empty(), transaction.total_packages() == 0);
    transaction.add_upgrade(
        spec_of("b", "1", "noarch", "@System"),
        spec_of("b", "2", "noarch", "fedora"),
        1,
        2,
    );
    assert_eq!(transaction.is_empty(), transaction.total_packages() == 0);
    assert_eq!(transaction.total_packages(), 1);
    let copy = transaction.clone();
    assert_eq!(copy.upgrade, transaction.upgrade);
    assert_eq!(copy.download_size, 2);
    assert_eq!(copy.install_size, 1);
    assert!(Transaction::default().is_empty());
}

#[test]
fn test_percentage_edges() {
    let mut progress = TransactionProgress::new(0, 0);
    assert_eq!(progress.percentage(), 0);
    progress.packages_processed = 7;
    assert_eq!(progress.percentage(), 0);
    progress.total_packages = 3;
    progress.packages_processed = 1;
    assert_eq!(progress.percentage(), 33);
    progress.packages_processed = 2;
    assert_eq!(progress.percentage(), 66);
    progress.total_packages = usize::MAX;
    progress.packages_processed = usize::MAX;
    assert_eq!(progress.percentage(), 100);
}

#[test]
fn test_spec_equality_is_over_all_four_fields() {
    let base = spec_of("vim", "9.0.0", "x86_64", "fedora");
    assert!(base == spec_of("vim", "9.0.0", "x86_64", "fedora"));
    assert!(base != spec_of("vi", "9.0.0", "x86_64", "fedora"));
    assert!(base != spec_of("vim", "9.0.1", "x86_64", "fedora"));
    assert!(base != spec_of("vim", "9.0.0", "aarch64", "fedora"));
    assert!(base != spec_of("vim", "9.0.0", "x86_64", "@System"));
    let mut set = std::collections::HashSet::new();
    assert!(set.insert(base.clone()));
    assert!(!set.insert(spec_of("vim", "9.0.0", "x86_64", "fedora")));
    assert!(set.insert(spec_of("vim", "9.0.0", "x86_64", "updates")));
}

#[test]
fn test_nevra_ignores_origin() {
    assert_eq!(spec_of("a-b", "1.2", "noarch", "x").to_nevra(), "a-b-1.2.noarch");
    assert_eq!(spec_of("", "", "", "x").to_nevra(), "-.");
}
