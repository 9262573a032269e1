//! The installed-package database and the queue of low-level operations that
//! is checked and then applied against it.

use vstd::prelude::*;
use vstd::string::StringExecFns;
use crate::backend::fedora::listing::package_views;
use crate::backend::fedora::repos::{find_in_cache, info_views, listing_of, requirement_views};
use crate::backend::fedora::types::{
    nevra_of, system_origin, HistoryEntry, HistoryEntryView, Package, PackageInfo,
    PackageInfoView, PackageSpec, PackageSpecView, PackageView,
};
use crate::engine::errors::{message_of, ErrorView, RatpmError};
use crate::text::string_texts;

verus! {

/// The history entries held by a sequence of records.
pub open spec fn history_views(v: Seq<HistoryEntry>) -> Seq<HistoryEntryView> {
    Seq::new(v.len(), |i: int| v[i]@)
}

/// The operations held by a sequence of records.
pub open spec fn operation_views(v: Seq<TransactionOperation>) -> Seq<OperationView> {
    Seq::new(v.len(), |i: int| v[i]@)
}

/// The mathematical content of an [`RpmDatabase`]: where it lives, the
/// installed packages in database order, what installed packages require,
/// the transaction log, newest first, and the low-level operations that were
/// applied to it, in the order of their application.
pub struct DatabaseView {
    pub db_path: Seq<char>,
    pub packages: Seq<PackageInfoView>,
    pub requirements: Seq<(Seq<char>, Seq<Seq<char>>)>,
    pub history: Seq<HistoryEntryView>,
    pub applied: Seq<OperationView>,
}

impl DatabaseView {
    /// Whether a package called `name` is installed.
    pub open spec fn is_installed(self, name: Seq<char>) -> bool {
        find_in_cache(self.packages, name) is Some
    }

    /// The installed package called `name`, with the system as its origin.
    pub open spec fn installed(self, name: Seq<char>) -> Option<PackageInfoView> {
        match find_in_cache(self.packages, name) {
            Some(p) => Some(PackageInfoView { repo: system_origin(), ..p }),
            None => None,
        }
    }

    /// The listing of the installed packages, in database order.
    pub open spec fn listing(self) -> Seq<PackageView> {
        Seq::new(self.packages.len(), |i: int| self.packages[i].listing())
    }

    /// The installed packages, among those that `entries` speak of, that
    /// require the package called `name`, in the order of `entries`.
    pub open spec fn dependents_among(
        self,
        entries: Seq<(Seq<char>, Seq<Seq<char>>)>,
        name: Seq<char>,
    ) -> Seq<Seq<char>>
        decreases entries.len(),
    {
        if entries.len() == 0 {
            Seq::empty()
        } else {
            let before = self.dependents_among(entries.drop_last(), name);
            if entries.last().1.contains(name) && self.is_installed(entries.last().0) {
                before.push(entries.last().0)
            } else {
                before
            }
        }
    }

    /// The installed packages that require the package called `name`.
    pub open spec fn dependents_of(self, name: Seq<char>) -> Seq<Seq<char>> {
        self.dependents_among(self.requirements, name)
    }
}

/// The message that reports a missing database directory.
pub open spec fn missing_database(db_path: Seq<char>) -> Seq<char> {
    "RPM database does not exist at \""@ + db_path + "\""@
}

/// The message that reports a missing package file.
pub open spec fn missing_package_file(rpm_path: Seq<char>) -> Seq<char> {
    "RPM file does not exist: \""@ + rpm_path + "\""@
}

/// The installed-package database, as a snapshot held in memory.
pub struct RpmDatabase {
    db_path: String,
    packages: Vec<PackageInfo>,
    requirements: Vec<(String, Vec<String>)>,
    history: Vec<HistoryEntry>,
    applied: Vec<TransactionOperation>,
}

impl View for RpmDatabase {
    type V = DatabaseView;

    closed spec fn view(&self) -> DatabaseView {
        DatabaseView {
            db_path: self.db_path@,
            packages: info_views(self.packages@),
            requirements: requirement_views(self.requirements@),
            history: history_views(self.history@),
            applied: operation_views(self.applied@),
        }
    }
}

impl RpmDatabase {
    /// The database at `/var/lib/rpm`, with nothing loaded yet.
    pub fn new() -> (r: Result<Self, RatpmError>)
        ensures
            r matches Ok(db) && db@ == (DatabaseView {
                db_path: "/var/lib/rpm"@,
                packages: Seq::empty(),
                requirements: Seq::empty(),
                history: Seq::empty(),
                applied: Seq::empty(),
            }),
    {
        let db = Self {
            db_path: String::from_str("/var/lib/rpm"),
            packages: Vec::new(),
            requirements: Vec::new(),
            history: Vec::new(),
            applied: Vec::new(),
        };
        assert(db@.packages =~= Seq::empty());
        assert(db@.requirements =~= Seq::empty());
        assert(db@.history =~= Seq::empty());
        assert(db@.applied =~= Seq::empty());
        Ok(db)
    }

    /// Where the database lives.
    pub fn db_path(&self) -> (r: &String)
        ensures
            r@ == self@.db_path,
    {
        &self.db_path
    }

    /// Replaces the snapshot of the installed packages.
    pub fn load_packages(&mut self, packages: Vec<PackageInfo>)
        ensures
            final(self)@ == (DatabaseView { packages: info_views(packages@), ..old(self)@ }),
    {
        self.packages = packages;
    }

    /// Replaces the snapshot of what installed packages require: for each
    /// record, the name of a package and the names of the packages that it
    /// requires.
    pub fn load_requirements(&mut self, requirements: Vec<(String, Vec<String>)>)
        ensures
            final(self)@ == (DatabaseView {
                requirements: requirement_views(requirements@),
                ..old(self)@
            }),
    {
        self.requirements = requirements;
    }

    /// The low-level operations that were applied, in the order of their
    /// application.
    pub fn applied(&self) -> (r: &Vec<TransactionOperation>)
        ensures
            operation_views(r@) == self@.applied,
    {
        &self.applied
    }

    /// The installed packages that require the package called `package`.
    pub fn dependents(&self, package: &str) -> (r: Vec<String>)
        ensures
            string_texts(r@) == self@.dependents_of(package@),
    {
        let ghost entries = self@.requirements;
        let mut found: Vec<String> = Vec::new();
        let mut i: usize = 0;
        assert(string_texts(found@) =~= self@.dependents_among(entries.take(0), package@));
        while i < self.requirements.len()
            invariant
                i <= self.requirements.len(),
                entries == self@.requirements,
                string_texts(found@) == self@.dependents_among(entries.take(i as int), package@),
            decreases self.requirements.len() - i,
        {
            proof {
                assert(entries.take(i + 1).drop_last() == entries.take(i as int));
                assert(entries.take(i + 1).last() == entries[i as int]);
                assert(entries[i as int] == (
                    self.requirements@[i as int].0@,
                    string_texts(self.requirements@[i as int].1@),
                ));
            }
            let entry = &self.requirements[i];
            if is_present(&entry.1, package) && self.position(entry.0.as_str()).is_some() {
                let ghost before = string_texts(found@);
                found.push(entry.0.clone());
                assert(string_texts(found@) =~= before.push(entry.0@));
            }
            i += 1;
        }
        assert(entries.take(self.requirements.len() as int) == entries);
        found
    }

    /// Replaces the snapshot of the transaction log.
    pub fn load_history(&mut self, history: Vec<HistoryEntry>)
        ensures
            final(self)@ == (DatabaseView { history: history_views(history@), ..old(self)@ }),
    {
        self.history = history;
    }

    fn position(&self, package: &str) -> (r: Option<usize>)
        ensures
            match r {
                Some(i) => i < self.packages@.len() && find_in_cache(self@.packages, package@)
                    == Some(self.packages@[i as int]@),
                None => find_in_cache(self@.packages, package@) is None,
            },
    {
        let wanted = String::from_str(package);
        let ghost all = self@.packages;
        let mut i: usize = 0;
        assert(all.skip(0) == all);
        while i < self.packages.len()
            invariant
                i <= self.packages.len(),
                all == self@.packages,
                wanted@ == package@,
                find_in_cache(all.skip(i as int), package@) == find_in_cache(all, package@),
            decreases self.packages.len() - i,
        {
            proof {
                assert(all.skip(i as int)[0] == self.packages@[i as int]@);
                assert(all.skip(i as int).skip(1) == all.skip(i + 1));
            }
            if self.packages[i].name == wanted {
                return Some(i);
            }
            i += 1;
        }
        proof {
            assert(all.skip(self.packages.len() as int).len() == 0);
        }
        None
    }

    /// Whether a package called `package` is installed.
    pub fn is_installed(&self, package: &str) -> (r: Result<bool, RatpmError>)
        ensures
            r matches Ok(b) && b == self@.is_installed(package@),
    {
        Ok(self.position(package).is_some())
    }

    /// The installed package called `package`, with the system as its origin.
    pub fn get_package_info(&self, package: &str) -> (r: Result<PackageInfo, RatpmError>)
        ensures
            match r {
                Ok(info) => self@.installed(package@) == Some(info@),
                Err(e) => self@.installed(package@) is None && e@ == ErrorView::PackageNotFound(
                    package@,
                ),
            },
    {
        match self.position(package) {
            Some(i) => {
                let mut info = self.packages[i].clone();
                info.repo = String::from_str("@System");
                Ok(info)
            },
            None => Err(RatpmError::PackageNotFound(String::from_str(package))),
        }
    }

    /// The listing of the installed packages, in database order.
    pub fn list_all(&self) -> (r: Result<Vec<Package>, RatpmError>)
        ensures
            r matches Ok(listing) && package_views(listing@) == self@.listing(),
    {
        let mut listing: Vec<Package> = Vec::new();
        let mut i: usize = 0;
        while i < self.packages.len()
            invariant
                i <= self.packages.len(),
                listing.len() == i,
                forall|j: int| 0 <= j < i ==> (#[trigger] listing@[j])@ == self.packages@[j]@.listing(),
            decreases self.packages.len() - i,
        {
            listing.push(listing_of(&self.packages[i]));
            i += 1;
        }
        assert(package_views(listing@) =~= self@.listing());
        Ok(listing)
    }

    /// Applies the installation of `spec` from the package file at
    /// `rpm_path`, which is there or not as `present` says. Without the file
    /// nothing is applied; with it the installation joins the record of
    /// applied operations. The snapshot of installed packages is not touched:
    /// unpacking is the host's work.
    pub fn install_package(&mut self, spec: &PackageSpec, rpm_path: &str, present: bool) -> (r:
        Result<(), RatpmError>)
        ensures
            match r {
                Ok(_) => present && final(self)@ == (DatabaseView {
                    applied: old(self)@.applied.push(OperationView::Install(spec@, rpm_path@)),
                    ..old(self)@
                }),
                Err(e) => !present && final(self)@ == old(self)@ && e@ == ErrorView::RpmDbError(
                    missing_package_file(rpm_path@),
                ),
            },
    {
        if !present {
            let mut msg = String::from_str("RPM file does not exist: \"");
            msg.append(rpm_path);
            msg.append("\"");
            return Err(RatpmError::RpmDbError(msg));
        }
        let operation = TransactionOperation::Install(spec.clone(), String::from_str(rpm_path));
        self.applied.push(operation);
        assert(self@.applied =~= old(self)@.applied.push(OperationView::Install(spec@, rpm_path@)));
        Ok(())
    }

    /// Applies the removal of `spec`, which cannot fail: the removal joins
    /// the record of applied operations. The snapshot of installed packages
    /// is not touched: erasing is the host's work.
    pub fn remove_package(&mut self, spec: &PackageSpec) -> (r: Result<(), RatpmError>)
        ensures
            r is Ok,
            final(self)@ == (DatabaseView {
                applied: old(self)@.applied.push(OperationView::Remove(spec@)),
                ..old(self)@
            }),
    {
        self.applied.push(TransactionOperation::Remove(spec.clone()));
        assert(self@.applied =~= old(self)@.applied.push(OperationView::Remove(spec@)));
        Ok(())
    }

    /// Checks that the backing store is there: the database directory and,
    /// in it, the `Packages` file, whose presence the caller reports.
    pub fn verify_integrity(&self, directory_present: bool, packages_file_present: bool) -> (r:
        Result<(), RatpmError>)
        ensures
            match r {
                Ok(_) => directory_present && packages_file_present,
                Err(e) => if !directory_present {
                    e@ == ErrorView::RpmDbError(missing_database(self@.db_path))
                } else {
                    !packages_file_present && e@ == ErrorView::RpmDbError(
                        "RPM Packages database file is missing"@,
                    )
                },
            },
    {
        if !directory_present {
            let mut msg = String::from_str("RPM database does not exist at \"");
            msg.append(self.db_path.as_str());
            msg.append("\"");
            return Err(RatpmError::RpmDbError(msg));
        }
        if !packages_file_present {
            return Err(
                RatpmError::RpmDbError(String::from_str("RPM Packages database file is missing")),
            );
        }
        Ok(())
    }

    /// The first `limit` entries of the transaction log.
    pub fn get_transaction_history(&self, limit: usize) -> (r: Result<Vec<HistoryEntry>, RatpmError>)
        ensures
            r matches Ok(entries) && history_views(entries@) == self@.history.take(
                if limit <= self@.history.len() {
                    limit as int
                } else {
                    self@.history.len() as int
                },
            ),
    {
        let count = if limit <= self.history.len() {
            limit
        } else {
            self.history.len()
        };
        let mut entries: Vec<HistoryEntry> = Vec::new();
        let mut i: usize = 0;
        while i < count
            invariant
                i <= count <= self.history.len(),
                entries.len() == i,
                forall|j: int| 0 <= j < i ==> (#[trigger] entries@[j])@ == self.history@[j]@,
            decreases count - i,
        {
            entries.push(self.history[i].clone());
            i += 1;
        }
        assert(history_views(entries@) =~= self@.history.take(count as int));
        Ok(entries)
    }

    /// Opens an empty queue of low-level operations.
    pub fn begin_transaction(&mut self) -> (r: Result<RpmTransaction, RatpmError>)
        ensures
            final(self)@ == old(self)@,
            r matches Ok(t) && t@ == Seq::<OperationView>::empty(),
    {
        let t = RpmTransaction { operations: Vec::new() };
        assert(t@ =~= Seq::<OperationView>::empty());
        Ok(t)
    }
}

/// One low-level operation.
#[derive(Debug)]
pub enum TransactionOperation {
    /// Install the package from the package file at the given path.
    Install(PackageSpec, String),
    /// Remove the package.
    Remove(PackageSpec),
}

/// The mathematical content of a [`TransactionOperation`].
pub enum OperationView {
    Install(PackageSpecView, Seq<char>),
    Remove(PackageSpecView),
}

impl View for TransactionOperation {
    type V = OperationView;

    open spec fn view(&self) -> OperationView {
        match self {
            TransactionOperation::Install(spec, path) => OperationView::Install(spec@, path@),
            TransactionOperation::Remove(spec) => OperationView::Remove(spec@),
        }
    }
}

/// The message that the dry run gives for a missing package file.
pub open spec fn check_failure(spec: PackageSpecView) -> Seq<char> {
    "RPM file not found for "@ + nevra_of(spec)
}

/// Whether an operation can be applied when exactly the files `present` are
/// there: an installation needs its package file.
pub open spec fn applicable(op: OperationView, present: Seq<Seq<char>>) -> bool {
    match op {
        OperationView::Install(_, path) => present.contains(path),
        OperationView::Remove(_) => true,
    }
}

/// The position of the first operation that cannot be applied, or the number
/// of operations when all can.
pub open spec fn first_failure(ops: Seq<OperationView>, present: Seq<Seq<char>>) -> nat
    decreases ops.len(),
{
    if ops.len() == 0 || !applicable(ops[0], present) {
        0
    } else {
        1 + first_failure(ops.skip(1), present)
    }
}

/// The package of an operation.
pub open spec fn subject(op: OperationView) -> PackageSpecView {
    match op {
        OperationView::Install(spec, _) => spec,
        OperationView::Remove(spec) => spec,
    }
}

/// The path of the package file of an operation; empty for a removal.
pub open spec fn file_of(op: OperationView) -> Seq<char> {
    match op {
        OperationView::Install(_, path) => path,
        OperationView::Remove(_) => Seq::empty(),
    }
}

/// The error that ends an execution at the operation `op`: it names the
/// package and says why its installation failed.
pub open spec fn execution_failure(op: OperationView) -> ErrorView {
    ErrorView::TransactionFailed(
        nevra_of(subject(op)) + ": "@ + message_of(
            ErrorView::RpmDbError(missing_package_file(file_of(op))),
        ),
    )
}

/// `first_failure` is the one position before which every operation can be
/// applied and at which one cannot, or the queue ends.
pub proof fn lemma_first_failure(ops: Seq<OperationView>, present: Seq<Seq<char>>, i: int)
    requires
        0 <= i <= ops.len(),
        forall|j: int| 0 <= j < i ==> applicable(#[trigger] ops[j], present),
        i == ops.len() || !applicable(ops[i], present),
    ensures
        first_failure(ops, present) == i,
    decreases i,
{
    if i > 0 {
        let t = ops.skip(1);
        assert forall|j: int| 0 <= j < i - 1 implies applicable(#[trigger] t[j], present) by {
            assert(t[j] == ops[j + 1]);
        }
        lemma_first_failure(t, present, i - 1);
    }
}

/// Whether `path` is one of `present`.
pub fn is_present(present: &Vec<String>, path: &str) -> (r: bool)
    ensures
        r == string_texts(present@).contains(path@),
{
    let wanted = String::from_str(path);
    let ghost all = string_texts(present@);
    let mut i: usize = 0;
    while i < present.len()
        invariant
            i <= present.len(),
            all == string_texts(present@),
            wanted@ == path@,
            forall|j: int| 0 <= j < i ==> all[j] != path@,
        decreases present.len() - i,
    {
        if present[i] == wanted {
            assert(all[i as int] == path@);
            return true;
        }
        i += 1;
    }
    false
}

/// The queue of low-level operations of one execution.
pub struct RpmTransaction {
    operations: Vec<TransactionOperation>,
}

impl View for RpmTransaction {
    type V = Seq<OperationView>;

    closed spec fn view(&self) -> Seq<OperationView> {
        Seq::new(self.operations@.len(), |i: int| self.operations@[i]@)
    }
}

impl RpmTransaction {
    /// Queues the installation of `spec` from the package file at `rpm_path`.
    pub fn add_install(&mut self, spec: PackageSpec, rpm_path: String)
        ensures
            final(self)@ == old(self)@.push(OperationView::Install(spec@, rpm_path@)),
    {
        self.operations.push(TransactionOperation::Install(spec, rpm_path));
        assert(self@ =~= old(self)@.push(OperationView::Install(spec@, rpm_path@)));
    }

    /// Queues the removal of `spec`.
    pub fn add_remove(&mut self, spec: PackageSpec)
        ensures
            final(self)@ == old(self)@.push(OperationView::Remove(spec@)),
    {
        self.operations.push(TransactionOperation::Remove(spec));
        assert(self@ =~= old(self)@.push(OperationView::Remove(spec@)));
    }

    /// The number of queued operations.
    pub fn len(&self) -> (r: usize)
        ensures
            r == self@.len(),
    {
        self.operations.len()
    }

    /// The dry run: every queued installation must find its package file
    /// among `present`. Nothing is changed. The first one that does not is
    /// reported.
    pub fn check(&self, present: &Vec<String>) -> (r: Result<(), RatpmError>)
        ensures
            match r {
                Ok(_) => first_failure(self@, string_texts(present@)) == self@.len(),
                Err(e) => {
                    let i = first_failure(self@, string_texts(present@)) as int;
                    &&& i < self@.len()
                    &&& e@ == ErrorView::TransactionCheckFailed(check_failure(subject(self@[i])))
                },
            },
    {
        let ghost files = string_texts(present@);
        let mut i: usize = 0;
        while i < self.operations.len()
            invariant
                i <= self.operations.len(),
                files == string_texts(present@),
                forall|j: int| 0 <= j < i ==> applicable(#[trigger] self@[j], files),
            decreases self.operations.len() - i,
        {
            assert(self@[i as int] == self.operations@[i as int]@);
            match &self.operations[i] {
                TransactionOperation::Install(spec, path) => {
                    if !is_present(present, path.as_str()) {
                        proof {
                            lemma_first_failure(self@, files, i as int);
                        }
                        let mut msg = String::from_str("RPM file not found for ");
                        msg.append(spec.to_nevra().as_str());
                        return Err(RatpmError::TransactionCheckFailed(msg));
                    }
                },
                TransactionOperation::Remove(_) => {},
            }
            i += 1;
        }
        proof {
            lemma_first_failure(self@, files, i as int);
        }
        Ok(())
    }

    /// Applies the queued operations to `rpm_db` in order, given the package
    /// files `present`: each operation is applied once, in queue order, up to
    /// the first one that fails. That one ends the execution: it and the
    /// operations after it are not applied, those before it stay applied, and
    /// the error names its package.
    pub fn execute(&self, rpm_db: &mut RpmDatabase, present: &Vec<String>) -> (r: Result<
        (),
        RatpmError,
    >)
        ensures
            final(rpm_db)@ == (DatabaseView {
                applied: old(rpm_db)@.applied + self@.take(
                    first_failure(self@, string_texts(present@)) as int,
                ),
                ..old(rpm_db)@
            }),
            match r {
                Ok(_) => first_failure(self@, string_texts(present@)) == self@.len(),
                Err(e) => {
                    let i = first_failure(self@, string_texts(present@)) as int;
                    &&& i < self@.len()
                    &&& e@ == execution_failure(self@[i])
                },
            },
    {
        let ghost files = string_texts(present@);
        let ghost start = rpm_db@;
        let mut i: usize = 0;
        assert(start.applied + self@.take(0) =~= start.applied);
        while i < self.operations.len()
            invariant
                i <= self.operations.len(),
                files == string_texts(present@),
                start == old(rpm_db)@,
                rpm_db@ == (DatabaseView {
                    applied: start.applied + self@.take(i as int),
                    ..start
                }),
                forall|j: int| 0 <= j < i ==> applicable(#[trigger] self@[j], files),
            decreases self.operations.len() - i,
        {
            assert(self@[i as int] == self.operations@[i as int]@);
            proof {
                assert(self@.take(i + 1) =~= self@.take(i as int).push(self@[i as int]));
                assert(start.applied + self@.take(i as int).push(self@[i as int]) =~= (start.applied
                    + self@.take(i as int)).push(self@[i as int]));
            }
            match &self.operations[i] {
                TransactionOperation::Install(spec, path) => {
                    let there = is_present(present, path.as_str());
                    match rpm_db.install_package(spec, path.as_str(), there) {
                        Ok(_) => {},
                        Err(cause) => {
                            proof {
                                lemma_first_failure(self@, files, i as int);
                            }
                            let mut msg = spec.to_nevra();
                            msg.append(": ");
                            msg.append(cause.to_string().as_str());
                            return Err(RatpmError::TransactionFailed(msg));
                        },
                    }
                },
                TransactionOperation::Remove(spec) => {
                    match rpm_db.remove_package(spec) {
                        Ok(_) => {},
                        Err(cause) => {
                            return Err(cause);
                        },
                    }
                },
            }
            i += 1;
        }
        proof {
            lemma_first_failure(self@, files, i as int);
        }
        Ok(())
    }
}

/// The operation at `first_failure`, when there is one, cannot be applied.
pub proof fn lemma_failure_is_inapplicable(ops: Seq<OperationView>, present: Seq<Seq<char>>)
    ensures
        first_failure(ops, present) <= ops.len(),
        first_failure(ops, present) < ops.len() ==> !applicable(
            ops[first_failure(ops, present) as int],
            present,
        ),
        forall|j: int| 0 <= j < first_failure(ops, present) ==> applicable(#[trigger] ops[j], present),
    decreases ops.len(),
{
    if ops.len() == 0 || !applicable(ops[0], present) {
    } else {
        let t = ops.skip(1);
        lemma_failure_is_inapplicable(t, present);
        assert forall|j: int| 0 <= j < first_failure(ops, present) implies applicable(
            #[trigger] ops[j],
            present,
        ) by {
            if j > 0 {
                assert(t[j - 1] == ops[j]);
            }
        }
    }
}

/// The dry run and the execution agree: given the same package files, one
/// passes exactly when the other applies every operation.
pub proof fn check_predicts_execution(ops: Seq<OperationView>, present: Seq<Seq<char>>)
    ensures
        first_failure(ops, present) == ops.len() <==> forall|j: int|
            0 <= j < ops.len() ==> applicable(#[trigger] ops[j], present),
{
    lemma_failure_is_inapplicable(ops, present);
}

} // verus!
