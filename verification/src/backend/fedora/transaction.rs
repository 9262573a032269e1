//! The executor: the staged run of a plan, from the artifacts to fetch to
//! the low-level operations applied in order.

use vstd::prelude::*;
use vstd::string::StringExecFns;
use crate::backend::fedora::repos::{position_of, RepoEntryView, RepositoryManager};
use crate::backend::fedora::rpm::{
    applicable, check_failure, first_failure, is_present, lemma_first_failure, subject,
    DatabaseView, OperationView, RpmDatabase, RpmTransaction,
};
use crate::backend::fedora::types::{clone_strings, nevra_of, PackageSpec, PackageSpecView};
use crate::engine::errors::{ErrorView, RatpmError};
use crate::engine::transaction::{spec_views, Transaction, TransactionView};
use crate::text::{
    chars_of, lowercase_char, lowercased_char, string_of, string_texts, trim_end,
    without_trailing,
};

verus! {

/// The directory of the package files below the cache directory.
pub open spec fn packages_dir_of(cache_dir: Seq<char>) -> Seq<char> {
    cache_dir + "/packages"@
}

/// The path of the package file of `spec` in the directory `dir`:
/// `<dir>/<name>-<version>.<arch>.rpm`.
pub open spec fn artifact_path(dir: Seq<char>, spec: PackageSpecView) -> Seq<char> {
    dir + "/"@ + nevra_of(spec) + ".rpm"@
}

/// The directory letter of a package in a repository: the lowercase form of
/// the first character of its name, `_` for the empty name.
pub open spec fn first_letter(name: Seq<char>) -> Seq<char> {
    if name.len() == 0 {
        "_"@
    } else {
        lowercased_char(name[0])
    }
}

/// Where a repository at `baseurl` offers the package file of `spec`:
/// `<baseurl>/Packages/<letter>/<name>-<version>.<arch>.rpm`, the base
/// address taken without trailing slashes.
pub open spec fn package_url(baseurl: Seq<char>, spec: PackageSpecView) -> Seq<char> {
    without_trailing(baseurl, '/') + "/Packages/"@ + first_letter(spec.name) + "/"@ + nevra_of(
        spec,
    ) + ".rpm"@
}

/// The packages whose files an execution needs: the installs, then the new
/// side of each upgrade.
pub open spec fn to_fetch(t: TransactionView) -> Seq<PackageSpecView> {
    t.install + Seq::new(t.upgrade.len(), |i: int| t.upgrade[i].1)
}

/// One package file to fetch.
#[derive(Debug)]
pub struct Fetch {
    pub spec: PackageSpec,
    pub url: String,
    pub path: String,
}

/// The mathematical content of a [`Fetch`].
pub struct FetchView {
    pub spec: PackageSpecView,
    pub url: Seq<char>,
    pub path: Seq<char>,
}

impl View for Fetch {
    type V = FetchView;

    open spec fn view(&self) -> FetchView {
        FetchView { spec: self.spec@, url: self.url@, path: self.path@ }
    }
}

/// The fetches held by a sequence of records.
pub open spec fn fetch_views(v: Seq<Fetch>) -> Seq<FetchView> {
    Seq::new(v.len(), |i: int| v[i]@)
}

/// The paths that a sequence of fetches fills.
pub open spec fn paths_of(fetches: Seq<FetchView>) -> Seq<Seq<char>> {
    Seq::new(fetches.len(), |i: int| fetches[i].path)
}

/// The download stage: the files to fetch, in order, and the error that ends
/// the stage after them, if one does.
pub struct DownloadPlanView {
    pub fetches: Seq<FetchView>,
    pub failure: Option<ErrorView>,
}

/// The download stage for the packages `specs`, taken one by one, when the
/// files `present` are in `dir`: a package whose file is there, or fetched
/// earlier in this stage, is passed over; a package from a repository that
/// the catalog does not know ends the stage with an error.
pub open spec fn download_plan(
    catalog: Seq<RepoEntryView>,
    dir: Seq<char>,
    specs: Seq<PackageSpecView>,
    present: Seq<Seq<char>>,
) -> DownloadPlanView
    decreases specs.len(),
{
    if specs.len() == 0 {
        DownloadPlanView { fetches: Seq::empty(), failure: None }
    } else {
        let before = download_plan(catalog, dir, specs.drop_last(), present);
        let spec = specs.last();
        let path = artifact_path(dir, spec);
        let origin = position_of(catalog, spec.repo) as int;
        if before.failure is Some || (present + paths_of(before.fetches)).contains(path) {
            before
        } else if origin >= catalog.len() {
            DownloadPlanView { failure: Some(ErrorView::RepoUnavailable(spec.repo)), ..before }
        } else {
            DownloadPlanView {
                fetches: before.fetches.push(
                    FetchView {
                        spec,
                        url: package_url(catalog[origin].metadata.baseurl, spec),
                        path,
                    },
                ),
                ..before
            }
        }
    }
}

/// The position of the first of `specs` whose package file is not among
/// `present`, or the number of `specs` when none is missing.
pub open spec fn first_missing(dir: Seq<char>, specs: Seq<PackageSpecView>, present: Seq<Seq<char>>)
    -> nat
    decreases specs.len(),
{
    if specs.len() == 0 || !present.contains(artifact_path(dir, specs[0])) {
        0
    } else {
        1 + first_missing(dir, specs.skip(1), present)
    }
}

/// The message that reports a package file missing at verification.
pub open spec fn not_found_message(spec: PackageSpecView) -> Seq<char> {
    "Package file not found: "@ + nevra_of(spec)
}

/// The low-level operations of a plan, in the order in which they are
/// applied: every removal, then every installation, then for each upgrade
/// the removal of the old package followed by the installation of the new.
pub open spec fn planned_operations(t: TransactionView, dir: Seq<char>) -> Seq<OperationView> {
    Seq::new(t.remove.len(), |i: int| OperationView::Remove(t.remove[i])) + Seq::new(
        t.install.len(),
        |i: int| OperationView::Install(t.install[i], artifact_path(dir, t.install[i])),
    ) + Seq::new(
        2 * t.upgrade.len(),
        |i: int|
            if i % 2 == 0 {
                OperationView::Remove(t.upgrade[i / 2].0)
            } else {
                OperationView::Install(t.upgrade[i / 2].1, artifact_path(dir, t.upgrade[i / 2].1))
            },
    )
}

/// How the stages after the download end when the files `present` are in
/// `dir`: the verification, when asked for, reports the first missing file;
/// then the dry run reports the first installation without its file.
pub open spec fn outcome_after_download(
    t: TransactionView,
    dir: Seq<char>,
    verify_signatures: bool,
    present: Seq<Seq<char>>,
) -> Result<(), ErrorView> {
    let expected = to_fetch(t);
    let missing = first_missing(dir, expected, present) as int;
    let ops = planned_operations(t, dir);
    let failing = first_failure(ops, present) as int;
    if verify_signatures && missing < expected.len() {
        Err(ErrorView::BackendError(not_found_message(expected[missing])))
    } else if failing < ops.len() {
        Err(ErrorView::TransactionCheckFailed(check_failure(subject(ops[failing]))))
    } else {
        Ok(())
    }
}

/// How an execution ends when the files `present` are in the package
/// directory before it starts: an error of the download stage ends it;
/// otherwise the later stages see the files that were there and those that
/// were fetched.
pub open spec fn execution_outcome(
    catalog: Seq<RepoEntryView>,
    cache_dir: Seq<char>,
    t: TransactionView,
    verify_signatures: bool,
    present: Seq<Seq<char>>,
) -> Result<(), ErrorView> {
    let dir = packages_dir_of(cache_dir);
    let plan = download_plan(catalog, dir, to_fetch(t), present);
    match plan.failure {
        Some(e) => Err(e),
        None => outcome_after_download(
            t,
            dir,
            verify_signatures,
            present + paths_of(plan.fetches),
        ),
    }
}

/// The low-level operations that an execution applies, in order: those of
/// the plan when the download stage passes, none when it fails.
pub open spec fn applied_by(
    catalog: Seq<RepoEntryView>,
    cache_dir: Seq<char>,
    t: TransactionView,
    present: Seq<Seq<char>>,
) -> Seq<OperationView> {
    let dir = packages_dir_of(cache_dir);
    if download_plan(catalog, dir, to_fetch(t), present).failure is None {
        planned_operations(t, dir)
    } else {
        Seq::empty()
    }
}

/// In the order of the low-level operations, every removal of the plan comes
/// before every installation of the plan, and the packages of each bucket
/// keep the order that they have in the plan.
pub proof fn removals_come_first(t: TransactionView, dir: Seq<char>, r: int, i: int)
    requires
        0 <= r < t.remove.len(),
        0 <= i < t.install.len(),
    ensures
        planned_operations(t, dir)[r] == OperationView::Remove(t.remove[r]),
        planned_operations(t, dir)[t.remove.len() + i] == OperationView::Install(
            t.install[i],
            artifact_path(dir, t.install[i]),
        ),
        r < t.remove.len() + i,
{
}

/// In the order of the low-level operations, each upgrade stands after all
/// removals and installations, as the removal of the old package directly
/// followed by the installation of the new one.
pub proof fn upgrades_come_last(t: TransactionView, dir: Seq<char>, u: int)
    requires
        0 <= u < t.upgrade.len(),
    ensures
        planned_operations(t, dir).len() == t.remove.len() + t.install.len() + 2 * t.upgrade.len(),
        planned_operations(t, dir)[t.remove.len() + t.install.len() + 2 * u]
            == OperationView::Remove(t.upgrade[u].0),
        planned_operations(t, dir)[t.remove.len() + t.install.len() + 2 * u + 1]
            == OperationView::Install(t.upgrade[u].1, artifact_path(dir, t.upgrade[u].1)),
{
    let base = t.remove.len() + t.install.len();
    let ups = Seq::new(
        2 * t.upgrade.len(),
        |i: int|
            if i % 2 == 0 {
                OperationView::Remove(t.upgrade[i / 2].0)
            } else {
                OperationView::Install(t.upgrade[i / 2].1, artifact_path(dir, t.upgrade[i / 2].1))
            },
    );
    assert((2 * u) % 2 == 0 && (2 * u) / 2 == u && (2 * u + 1) % 2 == 1 && (2 * u + 1) / 2 == u)
        by (nonlinear_arith)
        requires
            0 <= u,
    ;
    assert(planned_operations(t, dir)[base + 2 * u] == ups[2 * u]);
    assert(planned_operations(t, dir)[base + 2 * u + 1] == ups[2 * u + 1]);
}

/// Once the download stage is through without an error, every package of
/// the stage has its file: among those that were there or among those fetched.
proof fn lemma_download_covers(
    catalog: Seq<RepoEntryView>,
    dir: Seq<char>,
    specs: Seq<PackageSpecView>,
    present: Seq<Seq<char>>,
)
    requires
        download_plan(catalog, dir, specs, present).failure is None,
    ensures
        forall|i: int|
            0 <= i < specs.len() ==> (present + paths_of(
                download_plan(catalog, dir, specs, present).fetches,
            )).contains(artifact_path(dir, #[trigger] specs[i])),
    decreases specs.len(),
{
    if specs.len() > 0 {
        let init = specs.drop_last();
        let before = download_plan(catalog, dir, init, present);
        let plan = download_plan(catalog, dir, specs, present);
        let had = present + paths_of(before.fetches);
        let have = present + paths_of(plan.fetches);
        let path = artifact_path(dir, specs.last());
        lemma_download_covers(catalog, dir, init, present);
        if plan != before {
            assert(have =~= had.push(path));
            assert(have[had.len() as int] == path);
        }
        assert forall|i: int| 0 <= i < specs.len() implies have.contains(
            artifact_path(dir, #[trigger] specs[i]),
        ) by {
            if i < init.len() {
                assert(init[i] == specs[i]);
                let wanted = artifact_path(dir, specs[i]);
                assert(had.contains(wanted));
                let k = choose|k: int| 0 <= k < had.len() && had[k] == wanted;
                assert(have[k] == wanted);
            }
        }
    }
}

/// An execution ends as its download stage does: with the error of that
/// stage, or well. When every file that is not there can be fetched, the
/// verification finds every file and the dry run finds every installation
/// served.
pub proof fn execution_ends_as_download_does(
    catalog: Seq<RepoEntryView>,
    cache_dir: Seq<char>,
    t: TransactionView,
    verify_signatures: bool,
    present: Seq<Seq<char>>,
)
    ensures
        execution_outcome(catalog, cache_dir, t, verify_signatures, present) == (
        match download_plan(catalog, packages_dir_of(cache_dir), to_fetch(t), present).failure {
            Some(e) => Err::<(), ErrorView>(e),
            None => Ok::<(), ErrorView>(()),
        }),
{
    let dir = packages_dir_of(cache_dir);
    let specs = to_fetch(t);
    let plan = download_plan(catalog, dir, specs, present);
    if plan.failure is None {
        let files = present + paths_of(plan.fetches);
        lemma_download_covers(catalog, dir, specs, present);
        lemma_first_missing(dir, specs, files, specs.len() as int);
        let ops = planned_operations(t, dir);
        let removes = t.remove.len() as int;
        let installs = t.install.len() as int;
        assert forall|i: int| 0 <= i < ops.len() implies applicable(#[trigger] ops[i], files) by {
            if i < removes {
            } else if i < removes + installs {
                let k = i - removes;
                assert(specs[k] == t.install[k]);
                assert(files.contains(artifact_path(dir, specs[k])));
            } else {
                let j = i - removes - installs;
                if j % 2 != 0 {
                    let k = j / 2;
                    assert(specs[installs + k] == t.upgrade[k].1);
                    assert(files.contains(artifact_path(dir, specs[installs + k])));
                }
            }
        }
        lemma_first_failure(ops, files, ops.len() as int);
    }
}

/// The download stage as planned.
#[derive(Debug)]
pub struct DownloadPlan {
    pub fetches: Vec<Fetch>,
    pub failure: Option<RatpmError>,
}

impl View for DownloadPlan {
    type V = DownloadPlanView;

    open spec fn view(&self) -> DownloadPlanView {
        DownloadPlanView {
            fetches: fetch_views(self.fetches@),
            failure: match self.failure {
                Some(e) => Some(e@),
                None => None,
            },
        }
    }
}

/// The path of the package file of `spec` in the directory `dir`.
pub fn artifact_path_of(dir: &str, spec: &PackageSpec) -> (r: String)
    ensures
        r@ == artifact_path(dir@, spec@),
{
    let mut r = String::from_str(dir);
    r.append("/");
    r.append(spec.to_nevra().as_str());
    r.append(".rpm");
    r
}

/// The directory of the package files below `cache_dir`.
pub fn packages_dir(cache_dir: &str) -> (r: String)
    ensures
        r@ == packages_dir_of(cache_dir@),
{
    let mut r = String::from_str(cache_dir);
    r.append("/packages");
    r
}

/// Where a repository at `baseurl` offers the package file of `spec`.
pub fn package_url_of(baseurl: &str, spec: &PackageSpec) -> (r: String)
    ensures
        r@ == package_url(baseurl@, spec@),
{
    let base = trim_end(&chars_of(baseurl), '/');
    let name = chars_of(spec.name.as_str());
    let letter = if name.len() == 0 {
        String::from_str("_")
    } else {
        lowercase_char(name[0])
    };
    let mut r = string_of(&base);
    r.append("/Packages/");
    r.append(letter.as_str());
    r.append("/");
    r.append(spec.to_nevra().as_str());
    r.append(".rpm");
    r
}

/// The packages whose files the execution of `transaction` needs.
pub fn fetch_list(transaction: &Transaction) -> (r: Vec<PackageSpec>)
    ensures
        spec_views(r@) == to_fetch(transaction@),
{
    let mut r: Vec<PackageSpec> = Vec::new();
    let mut i: usize = 0;
    while i < transaction.install.len()
        invariant
            i <= transaction.install.len(),
            r.len() == i,
            forall|j: int| 0 <= j < i ==> (#[trigger] r@[j])@ == transaction.install@[j]@,
        decreases transaction.install.len() - i,
    {
        r.push(transaction.install[i].clone());
        i += 1;
    }
    let mut k: usize = 0;
    while k < transaction.upgrade.len()
        invariant
            k <= transaction.upgrade.len(),
            r.len() == transaction.install.len() + k,
            forall|j: int|
                0 <= j < transaction.install.len() ==> (#[trigger] r@[j])@
                    == transaction.install@[j]@,
            forall|j: int|
                0 <= j < k ==> (#[trigger] r@[transaction.install.len() + j])@
                    == transaction.upgrade@[j].1@,
        decreases transaction.upgrade.len() - k,
    {
        r.push(transaction.upgrade[k].1.clone());
        k += 1;
    }
    proof {
        let want = to_fetch(transaction@);
        assert(spec_views(r@).len() == want.len());
        assert forall|j: int| 0 <= j < want.len() implies spec_views(r@)[j] == want[j] by {
            if j >= transaction.install.len() {
                assert(r@[transaction.install.len() + (j - transaction.install.len())]@
                    == transaction.upgrade@[j - transaction.install.len()].1@);
            }
        }
        assert(spec_views(r@) =~= want);
    }
    r
}

/// Plans the download stage of `transaction`: which package files to fetch
/// into `packages_dir`, where `present` are already, from where, and the
/// error that ends the stage, if one does.
pub fn download_packages(
    transaction: &Transaction,
    repos: &RepositoryManager,
    packages_dir: &str,
    present: &Vec<String>,
) -> (plan: DownloadPlan)
    ensures
        plan@ == download_plan(
            repos@.repos,
            packages_dir@,
            to_fetch(transaction@),
            string_texts(present@),
        ),
{
    let specs = fetch_list(transaction);
    let ghost all = spec_views(specs@);
    let ghost files = string_texts(present@);
    let ghost catalog = repos@.repos;
    let mut have = clone_strings(present);
    let mut plan = DownloadPlan { fetches: Vec::new(), failure: None };
    let mut i: usize = 0;
    proof {
        assert(all.take(0) =~= Seq::empty());
        assert(fetch_views(plan.fetches@) =~= Seq::empty());
        assert(string_texts(have@) =~= files + paths_of(fetch_views(plan.fetches@)));
    }
    while i < specs.len()
        invariant
            i <= specs.len(),
            all == spec_views(specs@),
            all == to_fetch(transaction@),
            files == string_texts(present@),
            catalog == repos@.repos,
            plan.failure is None,
            plan@ == download_plan(catalog, packages_dir@, all.take(i as int), files),
            string_texts(have@) == files + paths_of(plan@.fetches),
        decreases specs.len() - i,
    {
        proof {
            assert(all.take(i + 1).drop_last() == all.take(i as int));
            assert(all.take(i + 1).last() == specs@[i as int]@);
        }
        let spec = &specs[i];
        let path = artifact_path_of(packages_dir, spec);
        if !is_present(&have, path.as_str()) {
            match repos.get_repository(spec.repo.as_str()) {
                None => {
                    plan.failure = Some(RatpmError::RepoUnavailable(spec.repo.clone()));
                    proof {
                        assert(plan@ == download_plan(
                            catalog,
                            packages_dir@,
                            all.take(i + 1),
                            files,
                        ));
                        lemma_download_failure(catalog, packages_dir@, all, files, i + 1);
                        assert(all.take(specs.len() as int) == all);
                    }
                    return plan;
                },
                Some(repo) => {
                    let url = package_url_of(repo.baseurl.as_str(), spec);
                    let ghost before = fetch_views(plan.fetches@);
                    let ghost had = string_texts(have@);
                    let fetch = Fetch { spec: spec.clone(), url, path: path.clone() };
                    plan.fetches.push(fetch);
                    have.push(path);
                    proof {
                        assert(fetch_views(plan.fetches@) =~= before.push(fetch@));
                        assert(string_texts(have@) =~= had.push(path@));
                        assert(paths_of(before.push(fetch@)) =~= paths_of(before).push(path@));
                        assert(files + paths_of(before).push(path@) =~= (files + paths_of(
                            before,
                        )).push(path@));
                    }
                },
            }
        }
        i += 1;
    }
    proof {
        assert(all.take(specs.len() as int) == all);
    }
    plan
}

/// An error of the download stage, once met, is the end of the stage: the
/// packages after it change nothing.
proof fn lemma_download_failure(
    catalog: Seq<RepoEntryView>,
    dir: Seq<char>,
    specs: Seq<PackageSpecView>,
    present: Seq<Seq<char>>,
    k: int,
)
    requires
        0 <= k <= specs.len(),
        download_plan(catalog, dir, specs.take(k), present).failure is Some,
    ensures
        download_plan(catalog, dir, specs, present) == download_plan(
            catalog,
            dir,
            specs.take(k),
            present,
        ),
    decreases specs.len() - k,
{
    if k < specs.len() {
        assert(specs.take(k + 1).drop_last() == specs.take(k));
        lemma_download_failure(catalog, dir, specs, present, k + 1);
    } else {
        assert(specs.take(k) == specs);
    }
}

/// `first_missing` is the one position before which every package has its
/// file and at which one has not, or the packages end.
proof fn lemma_first_missing(
    dir: Seq<char>,
    specs: Seq<PackageSpecView>,
    present: Seq<Seq<char>>,
    i: int,
)
    requires
        0 <= i <= specs.len(),
        forall|j: int| 0 <= j < i ==> present.contains(artifact_path(dir, #[trigger] specs[j])),
        i == specs.len() || !present.contains(artifact_path(dir, specs[i])),
    ensures
        first_missing(dir, specs, present) == i,
    decreases i,
{
    if i > 0 {
        let t = specs.skip(1);
        assert forall|j: int| 0 <= j < i - 1 implies present.contains(
            artifact_path(dir, #[trigger] t[j]),
        ) by {
            assert(t[j] == specs[j + 1]);
        }
        lemma_first_missing(dir, t, present, i - 1);
    }
}

/// The verification stage: every package file that the execution of
/// `transaction` needs must be among `present`; the first one that is not
/// is reported.
pub fn verify_package_signatures(
    transaction: &Transaction,
    packages_dir: &str,
    present: &Vec<String>,
) -> (r: Result<(), RatpmError>)
    ensures
        match r {
            Ok(_) => first_missing(packages_dir@, to_fetch(transaction@), string_texts(present@))
                == to_fetch(transaction@).len(),
            Err(e) => {
                let i = first_missing(
                    packages_dir@,
                    to_fetch(transaction@),
                    string_texts(present@),
                ) as int;
                &&& i < to_fetch(transaction@).len()
                &&& e@ == ErrorView::BackendError(not_found_message(to_fetch(transaction@)[i]))
            },
        },
{
    let specs = fetch_list(transaction);
    let ghost all = spec_views(specs@);
    let ghost files = string_texts(present@);
    let mut i: usize = 0;
    while i < specs.len()
        invariant
            i <= specs.len(),
            all == spec_views(specs@),
            all == to_fetch(transaction@),
            files == string_texts(present@),
            forall|j: int|
                0 <= j < i ==> files.contains(artifact_path(packages_dir@, #[trigger] all[j])),
        decreases specs.len() - i,
    {
        let path = artifact_path_of(packages_dir, &specs[i]);
        assert(all[i as int] == specs@[i as int]@);
        if !is_present(present, path.as_str()) {
            proof {
                lemma_first_missing(packages_dir@, all, files, i as int);
            }
            let mut msg = String::from_str("Package file not found: ");
            msg.append(specs[i].to_nevra().as_str());
            return Err(RatpmError::BackendError(msg));
        }
        i += 1;
    }
    proof {
        lemma_first_missing(packages_dir@, all, files, i as int);
    }
    Ok(())
}

/// Queues the low-level operations of `transaction` in the order in which
/// they are applied.
pub fn queue_operations(
    rpm_transaction: &mut RpmTransaction,
    transaction: &Transaction,
    packages_dir: &str,
)
    ensures
        final(rpm_transaction)@ == old(rpm_transaction)@ + planned_operations(
            transaction@,
            packages_dir@,
        ),
{
    let ghost start = rpm_transaction@;
    let ghost t = transaction@;
    let ghost dir = packages_dir@;
    let ghost removes = Seq::new(t.remove.len(), |i: int| OperationView::Remove(t.remove[i]));
    let ghost installs = Seq::new(
        t.install.len(),
        |i: int| OperationView::Install(t.install[i], artifact_path(dir, t.install[i])),
    );
    let ghost upgrades = Seq::new(
        2 * t.upgrade.len(),
        |i: int|
            if i % 2 == 0 {
                OperationView::Remove(t.upgrade[i / 2].0)
            } else {
                OperationView::Install(t.upgrade[i / 2].1, artifact_path(dir, t.upgrade[i / 2].1))
            },
    );
    let mut i: usize = 0;
    assert(rpm_transaction@ =~= start + removes.take(0));
    while i < transaction.remove.len()
        invariant
            i <= transaction.remove.len(),
            t == transaction@,
            removes == Seq::new(t.remove.len(), |i: int| OperationView::Remove(t.remove[i])),
            rpm_transaction@ == start + removes.take(i as int),
        decreases transaction.remove.len() - i,
    {
        rpm_transaction.add_remove(transaction.remove[i].clone());
        assert(rpm_transaction@ =~= start + removes.take(i + 1));
        i += 1;
    }
    let mut j: usize = 0;
    assert(rpm_transaction@ =~= start + removes + installs.take(0));
    while j < transaction.install.len()
        invariant
            j <= transaction.install.len(),
            t == transaction@,
            dir == packages_dir@,
            installs == Seq::new(
                t.install.len(),
                |i: int| OperationView::Install(t.install[i], artifact_path(dir, t.install[i])),
            ),
            rpm_transaction@ == start + removes + installs.take(j as int),
        decreases transaction.install.len() - j,
    {
        let spec = &transaction.install[j];
        let path = artifact_path_of(packages_dir, spec);
        rpm_transaction.add_install(spec.clone(), path);
        assert(rpm_transaction@ =~= start + removes + installs.take(j + 1));
        j += 1;
    }
    let mut k: usize = 0;
    assert(rpm_transaction@ =~= start + removes + installs + upgrades.take(0));
    while k < transaction.upgrade.len()
        invariant
            k <= transaction.upgrade.len(),
            t == transaction@,
            dir == packages_dir@,
            upgrades == Seq::new(
                2 * t.upgrade.len(),
                |i: int|
                    if i % 2 == 0 {
                        OperationView::Remove(t.upgrade[i / 2].0)
                    } else {
                        OperationView::Install(
                            t.upgrade[i / 2].1,
                            artifact_path(dir, t.upgrade[i / 2].1),
                        )
                    },
            ),
            rpm_transaction@ == start + removes + installs + upgrades.take(2 * k),
        decreases transaction.upgrade.len() - k,
    {
        let pair = &transaction.upgrade[k];
        rpm_transaction.add_remove(pair.0.clone());
        let path = artifact_path_of(packages_dir, &pair.1);
        rpm_transaction.add_install(pair.1.clone(), path);
        proof {
            assert(upgrades[2 * k] == OperationView::Remove(t.upgrade[k as int].0));
            assert(upgrades[2 * k + 1] == OperationView::Install(
                t.upgrade[k as int].1,
                artifact_path(dir, t.upgrade[k as int].1),
            ));
            assert(upgrades.take(2 * (k + 1)) =~= upgrades.take(2 * k).push(upgrades[2 * k]).push(
                upgrades[2 * k + 1],
            ));
            assert(rpm_transaction@ =~= start + removes + installs + upgrades.take(2 * (k + 1)));
        }
        k += 1;
    }
    proof {
        assert(upgrades.take(2 * transaction.upgrade.len()) =~= upgrades);
        assert(start + removes + installs + upgrades =~= start + (removes + installs + upgrades));
    }
}

/// The stages after the download: verification when asked for, the queue of
/// low-level operations, the dry run and the application, given the package
/// files `present` in `packages_dir`. When every stage passes, the operations
/// of the plan are applied to the database in their order: every removal,
/// every installation, then each upgrade as the removal of the old package
/// and the installation of the new. When a stage fails, none is applied.
pub fn finish_transaction(
    rpm_db: &mut RpmDatabase,
    packages_dir: &str,
    transaction: &Transaction,
    verify_signatures: bool,
    present: &Vec<String>,
) -> (r: Result<(), RatpmError>)
    ensures
        match r {
            Ok(_) => final(rpm_db)@ == (DatabaseView {
                applied: old(rpm_db)@.applied + planned_operations(transaction@, packages_dir@),
                ..old(rpm_db)@
            }),
            Err(_) => final(rpm_db)@ == old(rpm_db)@,
        },
        match r {
            Ok(_) => outcome_after_download(
                transaction@,
                packages_dir@,
                verify_signatures,
                string_texts(present@),
            ) is Ok,
            Err(e) => outcome_after_download(
                transaction@,
                packages_dir@,
                verify_signatures,
                string_texts(present@),
            ) == Err::<(), ErrorView>(e@),
        },
{
    if verify_signatures {
        match verify_package_signatures(transaction, packages_dir, present) {
            Ok(_) => {},
            Err(e) => {
                return Err(e);
            },
        }
    }
    let mut rpm_transaction = match rpm_db.begin_transaction() {
        Ok(t) => t,
        Err(e) => {
            return Err(e);
        },
    };
    queue_operations(&mut rpm_transaction, transaction, packages_dir);
    assert(rpm_transaction@ =~= planned_operations(transaction@, packages_dir@));
    match rpm_transaction.check(present) {
        Ok(_) => {},
        Err(e) => {
            return Err(e);
        },
    }
    proof {
        let ops = planned_operations(transaction@, packages_dir@);
        assert(ops.take(ops.len() as int) == ops);
    }
    match rpm_transaction.execute(rpm_db, present) {
        Ok(_) => Ok(()),
        Err(e) => Err(e),
    }
}

/// What an execution asks of its caller and how it ends.
#[derive(Debug)]
pub struct Execution {
    /// The package files to fetch, in order, before anything is applied.
    pub fetches: Vec<Fetch>,
    /// How the execution ends once they are fetched.
    pub outcome: Result<(), RatpmError>,
}

/// Runs `transaction` through its stages, given the package files `present`
/// in the package directory below `cache_dir`: download, verification when
/// asked for, the queue of low-level operations, the dry run and the
/// application. The files to fetch are handed back; an error of the download
/// stage ends the execution after the fetches that precede it, with nothing
/// applied. Otherwise the operations of the plan are applied to the database
/// in their order: every removal, every installation with its package file,
/// then each upgrade as the removal of the old package and the installation
/// of the new.
pub fn execute_transaction(
    repos: &RepositoryManager,
    rpm_db: &mut RpmDatabase,
    cache_dir: &str,
    transaction: Transaction,
    verify_signatures: bool,
    present: &Vec<String>,
) -> (r: Execution)
    ensures
        final(rpm_db)@ == (DatabaseView {
            applied: old(rpm_db)@.applied + applied_by(
                repos@.repos,
                cache_dir@,
                transaction@,
                string_texts(present@),
            ),
            ..old(rpm_db)@
        }),
        fetch_views(r.fetches@) == download_plan(
            repos@.repos,
            packages_dir_of(cache_dir@),
            to_fetch(transaction@),
            string_texts(present@),
        ).fetches,
        r.outcome is Ok <==> download_plan(
            repos@.repos,
            packages_dir_of(cache_dir@),
            to_fetch(transaction@),
            string_texts(present@),
        ).failure is None,
        match r.outcome {
            Ok(_) => execution_outcome(
                repos@.repos,
                cache_dir@,
                transaction@,
                verify_signatures,
                string_texts(present@),
            ) is Ok,
            Err(e) => execution_outcome(
                repos@.repos,
                cache_dir@,
                transaction@,
                verify_signatures,
                string_texts(present@),
            ) == Err::<(), ErrorView>(e@),
        },
{
    proof {
        execution_ends_as_download_does(
            repos@.repos,
            cache_dir@,
            transaction@,
            verify_signatures,
            string_texts(present@),
        );
    }
    let dir = packages_dir(cache_dir);
    let plan = download_packages(&transaction, repos, dir.as_str(), present);
    let DownloadPlan { fetches, failure } = plan;
    match failure {
        Some(e) => {
            assert(rpm_db@.applied + Seq::<OperationView>::empty() =~= rpm_db@.applied);
            Execution { fetches, outcome: Err(e) }
        },
        None => {
            let mut have = clone_strings(present);
            let mut i: usize = 0;
            assert(string_texts(have@) =~= string_texts(present@) + paths_of(
                fetch_views(fetches@),
            ).take(0));
            while i < fetches.len()
                invariant
                    i <= fetches.len(),
                    string_texts(have@) == string_texts(present@) + paths_of(
                        fetch_views(fetches@),
                    ).take(i as int),
                decreases fetches.len() - i,
            {
                let ghost had = string_texts(have@);
                have.push(fetches[i].path.clone());
                proof {
                    let paths = paths_of(fetch_views(fetches@));
                    assert(string_texts(have@) =~= had.push(fetches@[i as int].path@));
                    assert(paths.take(i + 1) =~= paths.take(i as int).push(paths[i as int]));
                    assert(string_texts(have@) =~= string_texts(present@) + paths.take(i + 1));
                }
                i += 1;
            }
            proof {
                let paths = paths_of(fetch_views(fetches@));
                assert(paths.take(fetches.len() as int) == paths);
            }
            let outcome = finish_transaction(
                rpm_db,
                dir.as_str(),
                &transaction,
                verify_signatures,
                &have,
            );
            Execution { fetches, outcome }
        },
    }
}

} // verus!
