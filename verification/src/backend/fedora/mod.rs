//! The backend: the catalog, the installed database and the executor behind
//! one interface.

use vstd::prelude::*;
use vstd::string::StringExecFns;
use crate::config::{Config, ConfigView};
use crate::engine::errors::{message_of, ErrorView, RatpmError};
use crate::engine::transaction::{replay, PlanStep, Transaction};
use crate::text::{lowercased, string_texts};

pub mod format;
pub mod libdnf;
pub mod listing;
pub mod repos;
pub mod rpm;
pub mod transaction;
pub mod types;

pub use types::{DiagnosticIssue, HistoryEntry, Package, PackageInfo, PackageSpec};

verus! {

/// The mathematical content of a [`FedoraBackend`].
pub struct BackendView {
    pub config: ConfigView,
    pub catalog: repos::CatalogView,
    pub database: rpm::DatabaseView,
    pub cache_dir: Seq<char>,
}

/// The backend for RPM-based systems.
pub struct FedoraBackend {
    config: Config,
    repos: repos::RepositoryManager,
    rpm_db: rpm::RpmDatabase,
    cache_dir: String,
}

impl View for FedoraBackend {
    type V = BackendView;

    closed spec fn view(&self) -> BackendView {
        BackendView {
            config: self.config@,
            catalog: self.repos@,
            database: self.rpm_db@,
            cache_dir: self.cache_dir@,
        }
    }
}

/// The finding that reports a database that failed its integrity check.
pub open spec fn integrity_issue(cause: ErrorView) -> types::DiagnosticIssueView {
    types::DiagnosticIssueView {
        severity: "error"@,
        message: "RPM database integrity check failed: "@ + message_of(cause),
        suggestion: "Run 'rpm --rebuilddb' to rebuild the database"@,
    }
}

/// The error of the integrity check, if it fails.
pub open spec fn integrity_error(
    db_path: Seq<char>,
    directory_present: bool,
    packages_file_present: bool,
) -> Option<ErrorView> {
    if !directory_present {
        Some(ErrorView::RpmDbError(rpm::missing_database(db_path)))
    } else if !packages_file_present {
        Some(ErrorView::RpmDbError("RPM Packages database file is missing"@))
    } else {
        None
    }
}

/// The backend that a configuration describes before anything is loaded:
/// a catalog without repositories that reads and caches where the
/// configuration says, and the database at `/var/lib/rpm` with nothing
/// loaded and nothing applied.
pub open spec fn fresh_backend(config: ConfigView) -> BackendView {
    BackendView {
        config,
        catalog: repos::CatalogView {
            repo_dir: config.repos.repo_dir,
            cache_dir: config.system.cache_dir,
            gpgcheck: config.repos.gpgcheck,
            repos: Seq::empty(),
            requirements: Seq::empty(),
        },
        database: rpm::DatabaseView {
            db_path: "/var/lib/rpm"@,
            packages: Seq::empty(),
            requirements: Seq::empty(),
            history: Seq::empty(),
            applied: Seq::empty(),
        },
        cache_dir: config.system.cache_dir,
    }
}

impl FedoraBackend {
    /// The backend that `config` describes, with an empty catalog and an
    /// empty database snapshot.
    pub fn new(config: &Config) -> (r: Result<Self, RatpmError>)
        ensures
            r matches Ok(b) && b@ == fresh_backend(config@),
    {
        let cache_dir = config.system.cache_dir.clone();
        let repos = match repos::RepositoryManager::new(
            config.repos.repo_dir.clone(),
            cache_dir.clone(),
            config.repos.gpgcheck,
        ) {
            Ok(m) => m,
            Err(e) => {
                return Err(e);
            },
        };
        let rpm_db = match rpm::RpmDatabase::new() {
            Ok(db) => db,
            Err(e) => {
                return Err(e);
            },
        };
        Ok(Self { config: config.clone(), repos, rpm_db, cache_dir })
    }

    /// The catalog.
    pub fn repos(&self) -> (r: &repos::RepositoryManager)
        ensures
            r@ == self@.catalog,
    {
        &self.repos
    }

    /// The installed database.
    pub fn rpm_db(&self) -> (r: &rpm::RpmDatabase)
        ensures
            r@ == self@.database,
    {
        &self.rpm_db
    }

    /// The cache directory.
    pub fn cache_dir(&self) -> (r: &String)
        ensures
            r@ == self@.cache_dir,
    {
        &self.cache_dir
    }

    /// Loads the repository-definition files whose contents are `files`;
    /// the refusals are returned in file order.
    pub fn load_repositories(&mut self, files: &Vec<String>) -> (failures: Vec<RatpmError>)
        ensures
            final(self)@ == (BackendView {
                catalog: repos::CatalogView {
                    repos: repos::loaded(
                        old(self)@.catalog.repos,
                        string_texts(files@),
                        old(self)@.catalog.gpgcheck,
                    ),
                    ..old(self)@.catalog
                },
                ..old(self)@
            }),
            repos::error_views(failures@) == repos::load_failures(
                string_texts(files@),
                old(self)@.catalog.gpgcheck,
            ),
    {
        self.repos.load_repositories(files)
    }

    /// Makes `packages` the cached metadata of the repository called `repo`;
    /// returns whether the catalog has such a repository.
    pub fn load_cache(&mut self, repo: &str, packages: Vec<PackageInfo>) -> (known: bool)
        ensures
            known == (repos::position_of(old(self)@.catalog.repos, repo@) < old(
                self,
            )@.catalog.repos.len()),
            final(self)@ == (BackendView {
                catalog: repos::CatalogView {
                    repos: repos::with_cache(
                        old(self)@.catalog.repos,
                        repo@,
                        repos::info_views(packages@),
                    ),
                    ..old(self)@.catalog
                },
                ..old(self)@
            }),
    {
        self.repos.load_cache(repo, packages)
    }

    /// Replaces the snapshot of the installed packages.
    pub fn load_installed(&mut self, packages: Vec<PackageInfo>)
        ensures
            final(self)@ == (BackendView {
                database: rpm::DatabaseView {
                    packages: repos::info_views(packages@),
                    ..old(self)@.database
                },
                ..old(self)@
            }),
    {
        self.rpm_db.load_packages(packages);
    }

    /// Replaces what is known of the requirements of the packages on offer.
    pub fn load_offered_requirements(&mut self, requirements: Vec<(String, Vec<String>)>)
        ensures
            final(self)@ == (BackendView {
                catalog: repos::CatalogView {
                    requirements: repos::requirement_views(requirements@),
                    ..old(self)@.catalog
                },
                ..old(self)@
            }),
    {
        self.repos.load_requirements(requirements);
    }

    /// Replaces the snapshot of what installed packages require.
    pub fn load_requirements(&mut self, requirements: Vec<(String, Vec<String>)>)
        ensures
            final(self)@ == (BackendView {
                database: rpm::DatabaseView {
                    requirements: repos::requirement_views(requirements@),
                    ..old(self)@.database
                },
                ..old(self)@
            }),
    {
        self.rpm_db.load_requirements(requirements);
    }

    /// Replaces the snapshot of the transaction log.
    pub fn load_history(&mut self, history: Vec<HistoryEntry>)
        ensures
            final(self)@ == (BackendView {
                database: rpm::DatabaseView {
                    history: rpm::history_views(history@),
                    ..old(self)@.database
                },
                ..old(self)@
            }),
    {
        self.rpm_db.load_history(history);
    }

    /// The packages on offer whose name or summary holds `query`, compared
    /// without regard to case, sorted and without duplicates.
    pub fn search(&self, query: &str) -> (r: Result<Vec<Package>, RatpmError>)
        ensures
            r matches Ok(found) && listing::is_listing_of(
                true,
                listing::package_views(found@),
                repos::catalog_selection(self@.catalog.repos, Some(lowercased(query@))),
            ),
    {
        self.repos.search(query)
    }

    /// Plans the installation of the named packages and of what they need.
    /// The names are taken first, in the order of the request: one that no
    /// repository offers is refused as not found, one that is offered and
    /// installed as already installed. Only when every name has passed is
    /// anything added for what the packages need.
    pub fn resolve_install(&self, packages: &[String]) -> (r: Result<Transaction, RatpmError>)
        requires
            libdnf::install_fits(
                self@.catalog.repos,
                self@.catalog.requirements,
                self@.database,
                string_texts(packages@),
            ),
        ensures
            match r {
                Ok(t) => libdnf::install_steps(
                    self@.catalog.repos,
                    self@.catalog.requirements,
                    self@.database,
                    string_texts(packages@),
                ) matches Ok(steps) && t@ == replay(steps),
                Err(e) => libdnf::install_steps(
                    self@.catalog.repos,
                    self@.catalog.requirements,
                    self@.database,
                    string_texts(packages@),
                ) == Err::<Seq<PlanStep>, ErrorView>(e@),
            },
    {
        libdnf::resolve_install(&self.repos, &self.rpm_db, packages)
    }

    /// Plans the installation of the named packages and of what they need,
    /// unless the bytes to fetch leave `u64` on the way: then there is no
    /// result.
    pub fn try_resolve_install(&self, packages: &[String]) -> (r: Option<
        Result<Transaction, RatpmError>,
    >)
        ensures
            r is Some <==> libdnf::install_fits(
                self@.catalog.repos,
                self@.catalog.requirements,
                self@.database,
                string_texts(packages@),
            ),
            r matches Some(plan) ==> libdnf::planned(
                plan,
                libdnf::install_steps(
                    self@.catalog.repos,
                    self@.catalog.requirements,
                    self@.database,
                    string_texts(packages@),
                ),
            ),
    {
        libdnf::try_resolve_install(&self.repos, &self.rpm_db, packages)
    }

    /// Plans the removal of the named packages. Every name is first held
    /// against the installed packages: the first name that is not installed
    /// refuses the request, whatever is required of the others. Then the
    /// names are taken one by one, and a package that installed packages
    /// outside the request require refuses it.
    pub fn resolve_remove(&self, packages: &[String]) -> (r: Result<Transaction, RatpmError>)
        ensures
            match r {
                Ok(t) => libdnf::removal_plan(self@.database, string_texts(packages@)) matches Ok(
                    steps,
                ) && t@ == replay(steps),
                Err(e) => libdnf::removal_plan(self@.database, string_texts(packages@)) == Err::<
                    Seq<PlanStep>,
                    ErrorView,
                >(e@),
            },
    {
        let ghost names = string_texts(packages@);
        let mut i: usize = 0;
        proof {
            assert(names.skip(0) == names);
        }
        while i < packages.len()
            invariant
                i <= packages.len(),
                names == string_texts(packages@),
                libdnf::first_not_installed(self@.database, names.skip(i as int))
                    == libdnf::first_not_installed(self@.database, names),
            decreases packages.len() - i,
        {
            proof {
                assert(names.skip(i as int)[0] == packages@[i as int]@);
                assert(names.skip(i as int).skip(1) == names.skip(i + 1));
            }
            let installed = match self.rpm_db.is_installed(packages[i].as_str()) {
                Ok(b) => b,
                Err(e) => {
                    return Err(e);
                },
            };
            if !installed {
                return Err(RatpmError::PackageNotInstalled(packages[i].clone()));
            }
            i += 1;
        }
        proof {
            assert(names.skip(packages.len() as int).len() == 0);
        }
        libdnf::resolve_remove(&self.rpm_db, packages)
    }

    /// Plans the upgrade of every installed package that has a newer version.
    pub fn resolve_upgrade(&self) -> (r: Result<Transaction, RatpmError>)
        requires
            libdnf::upgrade_fits(self@.catalog.repos, self@.database),
        ensures
            r matches Ok(t) && t@ == replay(
                libdnf::upgrade_steps(
                    self@.catalog.repos,
                    self@.database,
                    self@.database.packages.len() as int,
                ),
            ),
    {
        libdnf::resolve_upgrade(&self.repos, &self.rpm_db)
    }

    /// Plans the upgrade of the named packages that have a newer version.
    pub fn resolve_upgrade_packages(&self, packages: &[String]) -> (r: Result<
        Transaction,
        RatpmError,
    >)
        requires
            libdnf::named_upgrade_fits(
                self@.catalog.repos,
                self@.database,
                string_texts(packages@),
            ),
        ensures
            match r {
                Ok(t) => libdnf::named_upgrade_steps(
                    self@.catalog.repos,
                    self@.database,
                    string_texts(packages@),
                ) matches Ok(steps) && t@ == replay(steps),
                Err(e) => libdnf::named_upgrade_steps(
                    self@.catalog.repos,
                    self@.database,
                    string_texts(packages@),
                ) == Err::<Seq<PlanStep>, ErrorView>(e@),
            },
    {
        libdnf::resolve_upgrade_packages(&self.repos, &self.rpm_db, packages)
    }

    /// Plans the upgrade of every installed package that has a newer
    /// version, unless the bytes to fetch leave `u64` on the way: then there
    /// is no result.
    pub fn try_resolve_upgrade(&self) -> (r: Option<Result<Transaction, RatpmError>>)
        ensures
            r is Some <==> libdnf::upgrade_fits(self@.catalog.repos, self@.database),
            r matches Some(plan) ==> plan matches Ok(t) && t@ == replay(
                libdnf::upgrade_steps(
                    self@.catalog.repos,
                    self@.database,
                    self@.database.packages.len() as int,
                ),
            ),
    {
        libdnf::try_resolve_upgrade(&self.repos, &self.rpm_db)
    }

    /// Plans the upgrade of the named packages that have a newer version,
    /// unless the bytes to fetch leave `u64` on the way: then there is no
    /// result.
    pub fn try_resolve_upgrade_packages(&self, packages: &[String]) -> (r: Option<
        Result<Transaction, RatpmError>,
    >)
        ensures
            r is Some <==> libdnf::named_upgrade_fits(
                self@.catalog.repos,
                self@.database,
                string_texts(packages@),
            ),
            r matches Some(plan) ==> libdnf::planned(
                plan,
                libdnf::named_upgrade_steps(
                    self@.catalog.repos,
                    self@.database,
                    string_texts(packages@),
                ),
            ),
    {
        libdnf::try_resolve_upgrade_packages(&self.repos, &self.rpm_db, packages)
    }

    /// Runs `transaction` through its stages, given the package files
    /// `present` in the package directory; signatures are verified as the
    /// configuration says. When the download stage passes, the low-level
    /// operations of the plan are applied to the database in their order;
    /// when it fails, none is.
    pub fn execute(&mut self, transaction: Transaction, present: &Vec<String>) -> (r:
        transaction::Execution)
        ensures
            final(self)@ == (BackendView {
                database: rpm::DatabaseView {
                    applied: old(self)@.database.applied + transaction::applied_by(
                        old(self)@.catalog.repos,
                        old(self)@.cache_dir,
                        transaction@,
                        string_texts(present@),
                    ),
                    ..old(self)@.database
                },
                ..old(self)@
            }),
            transaction::fetch_views(r.fetches@) == transaction::download_plan(
                old(self)@.catalog.repos,
                transaction::packages_dir_of(old(self)@.cache_dir),
                transaction::to_fetch(transaction@),
                string_texts(present@),
            ).fetches,
            match r.outcome {
                Ok(_) => transaction::execution_outcome(
                    old(self)@.catalog.repos,
                    old(self)@.cache_dir,
                    transaction@,
                    old(self)@.config.transaction.verify_signatures,
                    string_texts(present@),
                ) is Ok,
                Err(e) => transaction::execution_outcome(
                    old(self)@.catalog.repos,
                    old(self)@.cache_dir,
                    transaction@,
                    old(self)@.config.transaction.verify_signatures,
                    string_texts(present@),
                ) == Err::<(), ErrorView>(e@),
            },
    {
        transaction::execute_transaction(
            &self.repos,
            &mut self.rpm_db,
            self.cache_dir.as_str(),
            transaction,
            self.config.transaction.verify_signatures,
            present,
        )
    }

    /// The package called `package`: the installed one if there is one, else
    /// the one on offer.
    pub fn get_package_info(&self, package: &str) -> (r: Result<PackageInfo, RatpmError>)
        ensures
            match r {
                Ok(info) => match self@.database.installed(package@) {
                    Some(installed) => info@ == installed,
                    None => repos::find_package(self@.catalog.repos, package@) == Some(info@),
                },
                Err(e) => {
                    &&& self@.database.installed(package@) is None
                    &&& repos::find_package(self@.catalog.repos, package@) is None
                    &&& e@ == ErrorView::PackageNotFound(package@)
                },
            },
    {
        match self.rpm_db.get_package_info(package) {
            Ok(info) => Ok(info),
            Err(_) => self.repos.get_package_info(package),
        }
    }

    /// The installed packages, in database order.
    pub fn list_installed(&self) -> (r: Result<Vec<Package>, RatpmError>)
        ensures
            r matches Ok(found) && listing::package_views(found@) == self@.database.listing(),
    {
        self.rpm_db.list_all()
    }

    /// Every package on offer, sorted by name, version and architecture,
    /// one entry for each such triple.
    pub fn list_available(&self) -> (r: Result<Vec<Package>, RatpmError>)
        ensures
            r matches Ok(found) && listing::is_listing_of(
                true,
                listing::package_views(found@),
                repos::catalog_selection(self@.catalog.repos, None),
            ),
    {
        self.repos.list_available()
    }

    /// The installed packages and those on offer, sorted by name, one entry
    /// for each name: the installed package where there is one, else the
    /// first on offer.
    pub fn list_all(&self) -> (r: Result<Vec<Package>, RatpmError>)
        ensures
            r matches Ok(found) && exists|available: Seq<types::PackageView>|
                {
                    &&& #[trigger] listing::is_listing_of(
                        true,
                        available,
                        repos::catalog_selection(self@.catalog.repos, None),
                    )
                    &&& listing::is_listing_of(
                        false,
                        listing::package_views(found@),
                        self@.database.listing() + available,
                    )
                },
    {
        let mut packages = match self.list_installed() {
            Ok(p) => p,
            Err(e) => {
                return Err(e);
            },
        };
        let mut available = match self.list_available() {
            Ok(p) => p,
            Err(e) => {
                return Err(e);
            },
        };
        let ghost installed_views = listing::package_views(packages@);
        let ghost available_views = listing::package_views(available@);
        packages.append(&mut available);
        assert(listing::package_views(packages@) =~= installed_views + available_views);
        let found = listing::sorted_unique(false, packages);
        assert(listing::is_listing_of(
            true,
            available_views,
            repos::catalog_selection(self@.catalog.repos, None),
        ));
        Ok(found)
    }

    /// Refreshes the metadata of every repository at the current time. When
    /// the system clock gives no time, nothing changes and the refresh fails.
    pub fn refresh_repositories(&mut self) -> (r: Result<(), RatpmError>)
        ensures
            final(self)@ == (BackendView { catalog: final(self)@.catalog, ..old(self)@ }),
            exists|now: Option<i64>| #[trigger]
                repos::refresh_result(
                    old(self)@.catalog,
                    now,
                    final(self)@.catalog,
                    repos::outcome_view(r),
                ),
    {
        let r = self.repos.refresh_metadata();
        proof {
            let now = choose|now: Option<i64>| #[trigger]
                repos::refresh_result(old(self)@.catalog, now, self.repos@, repos::outcome_view(r));
            assert(repos::refresh_result(
                old(self)@.catalog,
                now,
                self@.catalog,
                repos::outcome_view(r),
            ));
        }
        r
    }

    /// Synchronises the package databases, which is to refresh the metadata
    /// of every repository.
    pub fn sync_databases(&mut self) -> (r: Result<(), RatpmError>)
        ensures
            final(self)@ == (BackendView { catalog: final(self)@.catalog, ..old(self)@ }),
            exists|now: Option<i64>| #[trigger]
                repos::refresh_result(
                    old(self)@.catalog,
                    now,
                    final(self)@.catalog,
                    repos::outcome_view(r),
                ),
    {
        self.refresh_repositories()
    }

    /// The findings of the health check: the failure of the database's
    /// integrity check, if it fails, given what of its backing store is
    /// there; then one warning for each enabled repository without cached
    /// metadata.
    pub fn run_diagnostics(&self, directory_present: bool, packages_file_present: bool) -> (r:
        Result<Vec<DiagnosticIssue>, RatpmError>)
        ensures
            r matches Ok(issues) && repos::issue_views(issues@) == (match integrity_error(
                self@.database.db_path,
                directory_present,
                packages_file_present,
            ) {
                Some(cause) => seq![integrity_issue(cause)],
                None => Seq::empty(),
            }) + repos::health_issues(self@.catalog.repos),
    {
        let mut issues: Vec<DiagnosticIssue> = Vec::new();
        match self.rpm_db.verify_integrity(directory_present, packages_file_present) {
            Ok(_) => {},
            Err(e) => {
                let mut message = String::from_str("RPM database integrity check failed: ");
                message.append(e.to_string().as_str());
                let issue = DiagnosticIssue {
                    severity: String::from_str("error"),
                    message,
                    suggestion: String::from_str("Run 'rpm --rebuilddb' to rebuild the database"),
                };
                issues.push(issue);
            },
        }
        let ghost first = repos::issue_views(issues@);
        let mut repo_issues = match self.repos.check_health() {
            Ok(found) => found,
            Err(e) => {
                return Err(e);
            },
        };
        let ghost rest = repos::issue_views(repo_issues@);
        issues.append(&mut repo_issues);
        proof {
            assert(repos::issue_views(issues@) =~= first + rest);
            match integrity_error(self@.database.db_path, directory_present, packages_file_present) {
                Some(cause) => {
                    assert(first =~= seq![integrity_issue(cause)]);
                },
                None => {
                    assert(first =~= Seq::empty());
                },
            }
        }
        Ok(issues)
    }

    /// The first `limit` entries of the transaction log.
    pub fn get_history(&self, limit: usize) -> (r: Result<Vec<HistoryEntry>, RatpmError>)
        ensures
            r matches Ok(entries) && rpm::history_views(entries@) == self@.database.history.take(
                if limit <= self@.database.history.len() {
                    limit as int
                } else {
                    self@.database.history.len() as int
                },
            ),
    {
        self.rpm_db.get_transaction_history(limit)
    }
}

} // verus!
