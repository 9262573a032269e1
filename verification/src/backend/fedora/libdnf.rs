//! The resolver: from a request, the catalog and the installed database to
//! a plan.

use vstd::prelude::*;
use vstd::string::StringExecFns;
use crate::backend::fedora::repos::{
    find_in_cache, find_package, lemma_found, lemma_found_in_cache, offered_at, offered_by,
    required_by, RepoEntryView, RepositoryManager,
};
use crate::backend::fedora::rpm::{DatabaseView, RpmDatabase};
use crate::backend::fedora::types::{
    system_origin, PackageInfo, PackageInfoView, PackageSpec, PackageSpecView,
};
use crate::engine::errors::{ErrorView, RatpmError};
use crate::engine::transaction::{
    apply_step, fetch_total, pair_views, replay, spec_views, PlanStep, Transaction,
    TransactionView,
};
use crate::text::{
    chars_of, join, joined, parse_u32, parse_u32_spec, split_on, split_on_char, string_texts,
    texts,
};

verus! {

// ---------------------------------------------------------------------------
// Versions
// ---------------------------------------------------------------------------

/// The number that stands at place `i` of a dotted version: zero when the
/// version has no such place or when what stands there is no number.
pub open spec fn component(parts: Seq<Seq<char>>, i: int) -> nat {
    if 0 <= i < parts.len() {
        match parse_u32_spec(parts[i]) {
            Some(n) => n as nat,
            None => 0,
        }
    } else {
        0
    }
}

/// The order of two dotted versions from place `i` on: the first place at
/// which their numbers differ decides.
pub open spec fn order_from(a: Seq<Seq<char>>, b: Seq<Seq<char>>, i: int) -> int
    decreases a.len() + b.len() - i,
{
    if i < 0 || (i >= a.len() && i >= b.len()) {
        0
    } else if component(a, i) > component(b, i) {
        1
    } else if component(a, i) < component(b, i) {
        -1
    } else {
        order_from(a, b, i + 1)
    }
}

/// The order of two dotted versions: 1 when `v1` is newer, -1 when `v2` is
/// newer, 0 when neither is. The shorter version counts as padded with zeros.
pub open spec fn version_order(v1: Seq<char>, v2: Seq<char>) -> int {
    order_from(split_on(v1, '.'), split_on(v2, '.'), 0)
}

/// Swapping two versions negates their order, and a version is as new as itself.
pub proof fn version_order_is_antisymmetric(v1: Seq<char>, v2: Seq<char>)
    ensures
        version_order(v1, v2) == -version_order(v2, v1),
        version_order(v1, v1) == 0,
{
    lemma_order_from_swap(split_on(v1, '.'), split_on(v2, '.'), 0);
    lemma_order_from_swap(split_on(v1, '.'), split_on(v1, '.'), 0);
}

proof fn lemma_order_from_swap(a: Seq<Seq<char>>, b: Seq<Seq<char>>, i: int)
    requires
        0 <= i,
    ensures
        order_from(a, b, i) == -order_from(b, a, i),
    decreases a.len() + b.len() - i,
{
    if !(i >= a.len() && i >= b.len()) && component(a, i) == component(b, i) {
        lemma_order_from_swap(a, b, i + 1);
    }
}

fn component_at(parts: &Vec<Vec<char>>, i: usize) -> (r: u32)
    ensures
        r == component(texts(parts@), i as int),
{
    if i < parts.len() {
        match parse_u32(&parts[i]) {
            Some(n) => n,
            None => 0,
        }
    } else {
        0
    }
}

/// Compares two dotted versions: 1 when `v1` is newer, -1 when `v2` is
/// newer, 0 otherwise.
pub fn version_compare(v1: &str, v2: &str) -> (r: i32)
    ensures
        r == version_order(v1@, v2@),
{
    let a = split_on_char(&chars_of(v1), '.');
    let b = split_on_char(&chars_of(v2), '.');
    let max_len = if a.len() >= b.len() {
        a.len()
    } else {
        b.len()
    };
    let mut i: usize = 0;
    while i < max_len
        invariant
            i <= max_len,
            max_len >= a.len(),
            max_len >= b.len(),
            max_len == a.len() || max_len == b.len(),
            order_from(texts(a@), texts(b@), i as int) == version_order(v1@, v2@),
            texts(a@) == split_on(v1@, '.'),
            texts(b@) == split_on(v2@, '.'),
        decreases max_len - i,
    {
        let p1 = component_at(&a, i);
        let p2 = component_at(&b, i);
        if p1 > p2 {
            return 1;
        } else if p1 < p2 {
            return -1;
        }
        i += 1;
    }
    0
}

// ---------------------------------------------------------------------------
// Plans
// ---------------------------------------------------------------------------

/// The identity of an installed package.
pub open spec fn installed_spec(p: PackageInfoView) -> PackageSpecView {
    PackageSpecView { name: p.name, version: p.version, arch: p.arch, repo: system_origin() }
}

/// The steps `steps` with the installation of the package `info` after them,
/// unless the plan holds that package already.
pub open spec fn with_requested(steps: Seq<PlanStep>, info: PackageInfoView) -> Seq<PlanStep> {
    if replay(steps).install.contains(info.spec()) {
        steps
    } else {
        steps.push(PlanStep::Install { package: info.spec(), size: info.size })
    }
}

/// The steps that stage the dependencies `deps` after `steps`, one by one: a
/// dependency that is installed or already in the plan is passed over; one
/// that the catalog does not have is refused.
pub open spec fn dependency_steps(
    catalog: Seq<RepoEntryView>,
    db: DatabaseView,
    steps: Seq<PlanStep>,
    deps: Seq<PackageSpecView>,
) -> Result<Seq<PlanStep>, ErrorView>
    decreases deps.len(),
{
    if deps.len() == 0 {
        Ok(steps)
    } else {
        match dependency_steps(catalog, db, steps, deps.drop_last()) {
            Err(e) => Err(e),
            Ok(before) => {
                let dep = deps.last();
                if db.is_installed(dep.name) || replay(before).install.contains(dep) {
                    Ok(before)
                } else {
                    match find_package(catalog, dep.name) {
                        None => Err(ErrorView::PackageNotFound(dep.name)),
                        Some(info) => Ok(
                            before.push(PlanStep::Install { package: dep, size: info.size }),
                        ),
                    }
                }
            },
        }
    }
}

/// The steps that install the named packages themselves, name by name: a
/// name that the catalog does not have is refused, then a name that is
/// installed; the package is added unless the plan holds it already.
pub open spec fn requested_steps(
    catalog: Seq<RepoEntryView>,
    db: DatabaseView,
    names: Seq<Seq<char>>,
) -> Result<Seq<PlanStep>, ErrorView>
    decreases names.len(),
{
    if names.len() == 0 {
        Ok(Seq::empty())
    } else {
        match requested_steps(catalog, db, names.drop_last()) {
            Err(e) => Err(e),
            Ok(steps) => match find_package(catalog, names.last()) {
                None => Err(ErrorView::PackageNotFound(names.last())),
                Some(info) => if db.is_installed(names.last()) {
                    Err(ErrorView::PackageAlreadyInstalled(names.last()))
                } else {
                    Ok(with_requested(steps, info))
                },
            },
        }
    }
}

/// The steps `steps` with, after them, everything that the packages on offer
/// under `names` need, and that those packages need in turn, name by name,
/// as far as it is neither installed nor in the plan.
pub open spec fn needed_steps(
    catalog: Seq<RepoEntryView>,
    requirements: Seq<(Seq<char>, Seq<Seq<char>>)>,
    db: DatabaseView,
    steps: Seq<PlanStep>,
    names: Seq<Seq<char>>,
) -> Result<Seq<PlanStep>, ErrorView>
    decreases names.len(),
{
    if names.len() == 0 {
        Ok(steps)
    } else {
        match needed_steps(catalog, requirements, db, steps, names.drop_last()) {
            Err(e) => Err(e),
            Ok(before) => match find_package(catalog, names.last()) {
                None => Ok(before),
                Some(info) => match dependency_closure(catalog, requirements, db, info.spec()) {
                    Err(e) => Err(e),
                    Ok(deps) => dependency_steps(catalog, db, before, deps),
                },
            },
        }
    }
}

/// The steps that install the named packages. First the names are taken one
/// by one: a name that the catalog does not have is refused, then a name
/// that is installed; otherwise the package joins the plan. Then, for each
/// of them in turn, everything that it needs, and that those packages need
/// in turn, joins the plan as far as it is neither installed nor in it.
pub open spec fn install_steps(
    catalog: Seq<RepoEntryView>,
    requirements: Seq<(Seq<char>, Seq<Seq<char>>)>,
    db: DatabaseView,
    names: Seq<Seq<char>>,
) -> Result<Seq<PlanStep>, ErrorView> {
    match requested_steps(catalog, db, names) {
        Err(e) => Err(e),
        Ok(steps) => needed_steps(catalog, requirements, db, steps, names),
    }
}

/// The plan `t` after the dependencies `deps` are staged, one by one: a
/// dependency that is installed or already in the plan is passed over; one
/// that the catalog does not have is refused.
pub open spec fn with_dependencies(
    catalog: Seq<RepoEntryView>,
    db: DatabaseView,
    t: TransactionView,
    deps: Seq<PackageSpecView>,
) -> Result<TransactionView, ErrorView>
    decreases deps.len(),
{
    if deps.len() == 0 {
        Ok(t)
    } else {
        match with_dependencies(catalog, db, t, deps.drop_last()) {
            Err(e) => Err(e),
            Ok(before) => {
                let dep = deps.last();
                if db.is_installed(dep.name) || before.install.contains(dep) {
                    Ok(before)
                } else {
                    match find_package(catalog, dep.name) {
                        None => Err(ErrorView::PackageNotFound(dep.name)),
                        Some(info) => Ok(
                            apply_step(before, PlanStep::Install { package: dep, size: info.size }),
                        ),
                    }
                }
            },
        }
    }
}

/// Whether the bytes to fetch stay within `u64` at every stage of staging
/// `deps` in the plan `t`.
pub open spec fn dependencies_fit(
    catalog: Seq<RepoEntryView>,
    db: DatabaseView,
    t: TransactionView,
    deps: Seq<PackageSpecView>,
) -> bool {
    forall|k: int|
        0 <= k <= deps.len() ==> (#[trigger] with_dependencies(catalog, db, t, deps.take(k))
            matches Ok(staged) ==> staged.download_size <= u64::MAX)
}

/// The steps that remove the packages `names`, name by name, when the whole
/// request is to remove `request`: a name that is not installed is refused;
/// so is a package that installed packages outside the request require; a
/// package that the plan holds already is not added again.
pub open spec fn remove_steps_of(
    db: DatabaseView,
    names: Seq<Seq<char>>,
    request: Seq<Seq<char>>,
) -> Result<Seq<PlanStep>, ErrorView>
    decreases names.len(),
{
    if names.len() == 0 {
        Ok(Seq::empty())
    } else {
        match remove_steps_of(db, names.drop_last(), request) {
            Err(e) => Err(e),
            Ok(steps) => match db.installed(names.last()) {
                None => Err(ErrorView::PackageNotInstalled(names.last())),
                Some(info) => {
                    let blockers = blocking(db.dependents_of(info.name), request);
                    if blockers.len() > 0 {
                        Err(ErrorView::DependencyConflict(conflict_message(names.last(), blockers)))
                    } else if replay(steps).remove.contains(installed_spec(info)) {
                        Ok(steps)
                    } else {
                        Ok(
                            steps.push(
                                PlanStep::Remove { package: installed_spec(info), size: info.size },
                            ),
                        )
                    }
                },
            },
        }
    }
}

/// The first of `names` that is not installed.
pub open spec fn first_not_installed(db: DatabaseView, names: Seq<Seq<char>>) -> Option<Seq<char>>
    decreases names.len(),
{
    if names.len() == 0 {
        None
    } else if !db.is_installed(names[0]) {
        Some(names[0])
    } else {
        first_not_installed(db, names.skip(1))
    }
}

/// The steps that remove the named packages when every name is held against
/// the installed packages first: the first name that is not installed
/// refuses the request, whatever is required of the others; when all are
/// installed, the names are taken one by one.
pub open spec fn removal_plan(db: DatabaseView, names: Seq<Seq<char>>) -> Result<
    Seq<PlanStep>,
    ErrorView,
> {
    match first_not_installed(db, names) {
        Some(name) => Err(ErrorView::PackageNotInstalled(name)),
        None => remove_steps(db, names),
    }
}

/// The steps that remove the named packages.
pub open spec fn remove_steps(db: DatabaseView, names: Seq<Seq<char>>) -> Result<
    Seq<PlanStep>,
    ErrorView,
> {
    remove_steps_of(db, names, names)
}

/// The dependents of a package that stand in the way of its removal: those
/// that are not removed with it.
pub open spec fn blocking(dependents: Seq<Seq<char>>, removing: Seq<Seq<char>>) -> Seq<Seq<char>>
    decreases dependents.len(),
{
    if dependents.len() == 0 {
        Seq::empty()
    } else if removing.contains(dependents.last()) {
        blocking(dependents.drop_last(), removing)
    } else {
        blocking(dependents.drop_last(), removing).push(dependents.last())
    }
}

/// The message that refuses the removal of `name` for the sake of `blockers`.
pub open spec fn conflict_message(name: Seq<char>, blockers: Seq<Seq<char>>) -> Seq<char> {
    "Cannot remove '"@ + name + "': required by "@ + joined(blockers, ", "@)
}

/// The step that upgrades the installed package `p`, of `old_size` bytes, if
/// the catalog offers a strictly newer version of it.
pub open spec fn upgrade_step(catalog: Seq<RepoEntryView>, p: PackageSpecView, old_size: u64)
    -> Option<PlanStep> {
    match find_package(catalog, p.name) {
        Some(available) => if version_order(available.version, p.version) > 0 {
            Some(
                PlanStep::Upgrade {
                    old: PackageSpecView { repo: system_origin(), ..p },
                    new: available.spec(),
                    old_size,
                    new_size: available.size,
                },
            )
        } else {
            None
        },
        None => None,
    }
}

/// The size that the database records for the package called `name`; zero
/// when it records none.
pub open spec fn recorded_size(db: DatabaseView, name: Seq<char>) -> u64 {
    match db.installed(name) {
        Some(info) => info.size,
        None => 0,
    }
}

/// The steps that upgrade every one of the first `n` installed packages that
/// has a strictly newer version in the catalog, in database order.
pub open spec fn upgrade_steps(catalog: Seq<RepoEntryView>, db: DatabaseView, n: int) -> Seq<
    PlanStep,
>
    decreases n,
{
    if n <= 0 || n > db.packages.len() {
        Seq::empty()
    } else {
        let before = upgrade_steps(catalog, db, n - 1);
        let p = db.packages[n - 1];
        match upgrade_step(catalog, installed_spec(p), recorded_size(db, p.name)) {
            Some(step) => before.push(step),
            None => before,
        }
    }
}

/// The installed sides of a sequence of upgrades.
pub open spec fn old_sides(pairs: Seq<(PackageSpecView, PackageSpecView)>) -> Seq<PackageSpecView> {
    Seq::new(pairs.len(), |i: int| pairs[i].0)
}

/// The steps that upgrade those of the named packages that have a strictly
/// newer version in the catalog, name by name: a name that is not installed
/// is refused; a name that the catalog does not have is passed over, and so
/// is a package whose upgrade the plan holds already.
pub open spec fn named_upgrade_steps(
    catalog: Seq<RepoEntryView>,
    db: DatabaseView,
    names: Seq<Seq<char>>,
) -> Result<Seq<PlanStep>, ErrorView>
    decreases names.len(),
{
    if names.len() == 0 {
        Ok(Seq::empty())
    } else {
        match named_upgrade_steps(catalog, db, names.drop_last()) {
            Err(e) => Err(e),
            Ok(steps) => match db.installed(names.last()) {
                None => Err(ErrorView::PackageNotInstalled(names.last())),
                Some(info) => if old_sides(replay(steps).upgrade).contains(installed_spec(info)) {
                    Ok(steps)
                } else {
                    match upgrade_step(catalog, installed_spec(info), info.size) {
                        Some(step) => Ok(steps.push(step)),
                        None => Ok(steps),
                    }
                },
            },
        }
    }
}

/// Whether the bytes to fetch stay within `u64` while the named packages
/// themselves are added to the plan.
pub open spec fn requested_fit(
    catalog: Seq<RepoEntryView>,
    db: DatabaseView,
    names: Seq<Seq<char>>,
) -> bool {
    forall|k: int|
        0 <= k <= names.len() ==> (#[trigger] requested_steps(catalog, db, names.take(k))
            matches Ok(steps) ==> fetch_total(steps) <= u64::MAX)
}

/// Whether the bytes to fetch stay within `u64` while what the package
/// `names[k]` needs is added to the plan of the named packages and of what
/// the names before it need.
pub open spec fn needed_fit(
    catalog: Seq<RepoEntryView>,
    requirements: Seq<(Seq<char>, Seq<Seq<char>>)>,
    db: DatabaseView,
    names: Seq<Seq<char>>,
    k: int,
) -> bool {
    match requested_steps(catalog, db, names) {
        Ok(requested) => match (
            needed_steps(catalog, requirements, db, requested, names.take(k)),
            find_package(catalog, names[k]),
        ) {
            (Ok(before), Some(info)) => match dependency_closure(
                catalog,
                requirements,
                db,
                info.spec(),
            ) {
                Ok(deps) => dependencies_fit(catalog, db, replay(before), deps),
                Err(_) => true,
            },
            _ => true,
        },
        Err(_) => true,
    }
}

/// Whether the bytes to fetch stay within `u64` at every stage of planning
/// the installation of `names`.
pub open spec fn install_fits(
    catalog: Seq<RepoEntryView>,
    requirements: Seq<(Seq<char>, Seq<Seq<char>>)>,
    db: DatabaseView,
    names: Seq<Seq<char>>,
) -> bool {
    &&& requested_fit(catalog, db, names)
    &&& forall|k: int|
        0 <= k < names.len() ==> #[trigger] needed_fit(catalog, requirements, db, names, k)
}

/// Whether the bytes to fetch stay within `u64` at every stage of planning
/// the upgrade of everything installed.
pub open spec fn upgrade_fits(catalog: Seq<RepoEntryView>, db: DatabaseView) -> bool {
    forall|k: int|
        0 <= k <= db.packages.len() ==> fetch_total(#[trigger] upgrade_steps(catalog, db, k))
            <= u64::MAX
}

/// Whether the bytes to fetch stay within `u64` at every stage of planning
/// the upgrade of `names`.
pub open spec fn named_upgrade_fits(
    catalog: Seq<RepoEntryView>,
    db: DatabaseView,
    names: Seq<Seq<char>>,
) -> bool {
    forall|k: int|
        0 <= k <= names.len() ==> (#[trigger] named_upgrade_steps(catalog, db, names.take(k))
            matches Ok(steps) ==> fetch_total(steps) <= u64::MAX)
}

/// When the catalog offers no strictly newer version of any installed
/// package, upgrading everything plans nothing.
pub proof fn no_newer_version_no_upgrade(catalog: Seq<RepoEntryView>, db: DatabaseView)
    requires
        forall|i: int|
            0 <= i < db.packages.len() ==> (find_package(
                catalog,
                (#[trigger] db.packages[i]).name,
            ) matches Some(available) ==> version_order(available.version, db.packages[i].version)
                <= 0),
    ensures
        upgrade_steps(catalog, db, db.packages.len() as int) == Seq::<PlanStep>::empty(),
        replay(upgrade_steps(catalog, db, db.packages.len() as int)).is_empty(),
{
    lemma_no_upgrade_prefix(catalog, db, db.packages.len() as int);
}

proof fn lemma_no_upgrade_prefix(catalog: Seq<RepoEntryView>, db: DatabaseView, n: int)
    requires
        0 <= n <= db.packages.len(),
        forall|i: int|
            0 <= i < db.packages.len() ==> (find_package(
                catalog,
                (#[trigger] db.packages[i]).name,
            ) matches Some(available) ==> version_order(available.version, db.packages[i].version)
                <= 0),
    ensures
        upgrade_steps(catalog, db, n) == Seq::<PlanStep>::empty(),
    decreases n,
{
    if n > 0 {
        lemma_no_upgrade_prefix(catalog, db, n - 1);
        let p = db.packages[n - 1];
        assert(upgrade_step(catalog, installed_spec(p), recorded_size(db, p.name)) is None);
    }
}

// ---------------------------------------------------------------------------
// Dependencies
// ---------------------------------------------------------------------------

/// The names of a sequence of package identities.
pub open spec fn spec_names(specs: Seq<PackageSpecView>) -> Seq<Seq<char>> {
    Seq::new(specs.len(), |i: int| specs[i].name)
}

/// The names of the records of all cached metadata, repository by repository.
pub open spec fn cached_names(catalog: Seq<RepoEntryView>) -> Seq<Seq<char>>
    decreases catalog.len(),
{
    if catalog.len() == 0 {
        Seq::empty()
    } else {
        (match catalog[0].cache {
            Some(cache) => Seq::new(cache.len(), |i: int| cache[i].name),
            None => Seq::empty(),
        }) + cached_names(catalog.skip(1))
    }
}

/// How many of the names `all` are not among `found`.
pub open spec fn unfound(all: Seq<Seq<char>>, found: Seq<Seq<char>>) -> nat
    decreases all.len(),
{
    if all.len() == 0 {
        0
    } else {
        unfound(all.drop_last(), found) + if found.contains(all.last()) {
            0nat
        } else {
            1nat
        }
    }
}

/// What is found in cached metadata stands in it.
proof fn lemma_in_cache(cache: Seq<PackageInfoView>, name: Seq<char>)
    ensures
        find_in_cache(cache, name) is Some ==> exists|k: int|
            0 <= k < cache.len() && (#[trigger] cache[k]).name == name,
    decreases cache.len(),
{
    if cache.len() > 0 && cache[0].name != name {
        let rest = cache.skip(1);
        lemma_in_cache(rest, name);
        if find_in_cache(rest, name) is Some {
            let k = choose|k: int| 0 <= k < rest.len() && (#[trigger] rest[k]).name == name;
            assert(cache[k + 1].name == name);
        }
    } else if cache.len() > 0 {
        assert(cache[0].name == name);
    }
}

/// The name of what the catalog offers is among the names of its records.
proof fn lemma_offered_is_cached(catalog: Seq<RepoEntryView>, name: Seq<char>)
    ensures
        find_package(catalog, name) is Some ==> cached_names(catalog).contains(name),
    decreases catalog.len(),
{
    if catalog.len() > 0 && find_package(catalog, name) is Some {
        let head: Seq<Seq<char>> = match catalog[0].cache {
            Some(cache) => Seq::new(cache.len(), |i: int| cache[i].name),
            None => Seq::empty(),
        };
        let tail = cached_names(catalog.skip(1));
        if offered_by(catalog[0], name) is Some {
            let cache = catalog[0].cache->Some_0;
            lemma_in_cache(cache, name);
            let k = choose|k: int| 0 <= k < cache.len() && (#[trigger] cache[k]).name == name;
            assert(head[k] == name);
            assert((head + tail)[k] == name);
        } else {
            lemma_offered_is_cached(catalog.skip(1), name);
            let k = choose|k: int| 0 <= k < tail.len() && tail[k] == name;
            assert((head + tail)[head.len() + k] == name);
        }
    }
}

/// One more found name leaves no more names unfound, and fewer when it is
/// a new one of them.
proof fn lemma_unfound_push(all: Seq<Seq<char>>, found: Seq<Seq<char>>, name: Seq<char>)
    ensures
        unfound(all, found.push(name)) <= unfound(all, found),
        all.contains(name) && !found.contains(name) ==> unfound(all, found.push(name)) < unfound(
            all,
            found,
        ),
    decreases all.len(),
{
    if all.len() > 0 {
        let init = all.drop_last();
        lemma_unfound_push(init, found, name);
        let wider = found.push(name);
        assert(wider[found.len() as int] == name);
        if found.contains(all.last()) {
            let k = choose|k: int| 0 <= k < found.len() && found[k] == all.last();
            assert(wider[k] == all.last());
        }
        if all.contains(name) && !found.contains(name) {
            let k = choose|k: int| 0 <= k < all.len() && all[k] == name;
            if k < init.len() {
                assert(init[k] == name);
            } else {
                assert(all.last() == name);
            }
        }
    }
}

/// Adding to `found` the package that the catalog offers under a new name
/// leaves fewer names of the catalog unfound.
pub proof fn lemma_closure_decreases(
    catalog: Seq<RepoEntryView>,
    found: Seq<PackageSpecView>,
    name: Seq<char>,
)
    requires
        find_package(catalog, name) is Some,
        !spec_names(found).contains(name),
    ensures
        unfound(
            cached_names(catalog),
            spec_names(found.push(find_package(catalog, name)->Some_0.spec())),
        ) < unfound(cached_names(catalog), spec_names(found)),
{
    lemma_found(catalog, name);
    lemma_offered_is_cached(catalog, name);
    let added = find_package(catalog, name)->Some_0.spec();
    assert(spec_names(found.push(added)) =~= spec_names(found).push(name));
    lemma_unfound_push(cached_names(catalog), spec_names(found), name);
}

/// The packages to add for the names `pending` and all that they require in
/// turn, after `found`: name by name, a name that is that of the package
/// `root` itself, that is installed or that is found already is passed over;
/// a name that the catalog does not have is refused; otherwise the package
/// on offer is added and what it requires is taken up after the names that
/// wait.
pub open spec fn closure_from(
    catalog: Seq<RepoEntryView>,
    requirements: Seq<(Seq<char>, Seq<Seq<char>>)>,
    db: DatabaseView,
    root: Seq<char>,
    pending: Seq<Seq<char>>,
    found: Seq<PackageSpecView>,
) -> Result<Seq<PackageSpecView>, ErrorView>
    decreases unfound(cached_names(catalog), spec_names(found)), pending.len(),
{
    if pending.len() == 0 {
        Ok(found)
    } else {
        let name = pending[0];
        if name == root || db.is_installed(name) || spec_names(found).contains(name) {
            closure_from(catalog, requirements, db, root, pending.skip(1), found)
        } else {
            match find_package(catalog, name) {
                None => Err(ErrorView::PackageNotFound(name)),
                Some(info) => {
                    proof {
                        lemma_closure_decreases(catalog, found, name);
                    }
                    closure_from(
                        catalog,
                        requirements,
                        db,
                        root,
                        pending.skip(1) + required_by(requirements, name),
                        found.push(info.spec()),
                    )
                },
            }
        }
    }
}

/// The packages that `package` needs, with all that those need in turn, as
/// far as they are not installed: each as the catalog offers it, each once,
/// in the order in which they are met.
pub open spec fn dependency_closure(
    catalog: Seq<RepoEntryView>,
    requirements: Seq<(Seq<char>, Seq<Seq<char>>)>,
    db: DatabaseView,
    package: PackageSpecView,
) -> Result<Seq<PackageSpecView>, ErrorView> {
    closure_from(
        catalog,
        requirements,
        db,
        package.name,
        required_by(requirements, package.name),
        Seq::empty(),
    )
}

/// Whether a package called `name` is one of `list`.
pub fn has_name(list: &Vec<PackageSpec>, name: &str) -> (r: bool)
    ensures
        r == spec_names(spec_views(list@)).contains(name@),
{
    let wanted = String::from_str(name);
    let ghost all = spec_names(spec_views(list@));
    let mut i: usize = 0;
    while i < list.len()
        invariant
            i <= list.len(),
            all == spec_names(spec_views(list@)),
            wanted@ == name@,
            forall|j: int| 0 <= j < i ==> all[j] != name@,
        decreases list.len() - i,
    {
        if list[i].name == wanted {
            assert(all[i as int] == name@);
            return true;
        }
        i += 1;
    }
    false
}

/// The packages that `package` needs, with all that those need in turn, as
/// far as they are not installed.
pub fn resolve_dependencies(
    package: &PackageSpec,
    repos: &RepositoryManager,
    rpm_db: &RpmDatabase,
) -> (r: Result<Vec<PackageSpec>, RatpmError>)
    ensures
        match r {
            Ok(deps) => dependency_closure(repos@.repos, repos@.requirements, rpm_db@, package@)
                == Ok::<Seq<PackageSpecView>, ErrorView>(spec_views(deps@)),
            Err(e) => dependency_closure(repos@.repos, repos@.requirements, rpm_db@, package@)
                == Err::<Seq<PackageSpecView>, ErrorView>(e@),
        },
{
    let ghost catalog = repos@.repos;
    let ghost requirements = repos@.requirements;
    let ghost db = rpm_db@;
    let ghost root = package@.name;
    let mut pending = repos.requirements_of(package.name.as_str());
    let mut found: Vec<PackageSpec> = Vec::new();
    let mut next: usize = 0;
    proof {
        assert(string_texts(pending@).skip(0) == string_texts(pending@));
        assert(spec_views(found@) =~= Seq::empty());
    }
    while next < pending.len()
        invariant
            next <= pending.len(),
            catalog == repos@.repos,
            requirements == repos@.requirements,
            db == rpm_db@,
            root == package@.name,
            closure_from(
                catalog,
                requirements,
                db,
                root,
                string_texts(pending@).skip(next as int),
                spec_views(found@),
            ) == dependency_closure(catalog, requirements, db, package@),
        decreases unfound(cached_names(catalog), spec_names(spec_views(found@))), pending.len() - next,
    {
        let ghost waiting = string_texts(pending@).skip(next as int);
        let ghost had = spec_views(found@);
        proof {
            assert(waiting[0] == pending@[next as int]@);
            assert(waiting.skip(1) == string_texts(pending@).skip(next + 1));
        }
        let name = pending[next].clone();
        let installed = match rpm_db.is_installed(name.as_str()) {
            Ok(b) => b,
            Err(e) => {
                return Err(e);
            },
        };
        if name == package.name || installed || has_name(&found, name.as_str()) {
            next += 1;
        } else {
            match repos.get_package_info(name.as_str()) {
                Err(e) => {
                    return Err(e);
                },
                Ok(info) => {
                    let mut more = repos.requirements_of(name.as_str());
                    let ghost before = string_texts(pending@);
                    let ghost added = string_texts(more@);
                    proof {
                        lemma_closure_decreases(catalog, had, name@);
                    }
                    found.push(spec_of(&info));
                    pending.append(&mut more);
                    next += 1;
                    proof {
                        assert(spec_views(found@) =~= had.push(info@.spec()));
                        assert(string_texts(pending@) =~= before + added);
                        assert(string_texts(pending@).skip(next as int) =~= waiting.skip(1) + added);
                    }
                },
            }
        }
    }
    proof {
        assert(string_texts(pending@).skip(next as int).len() == 0);
    }
    Ok(found)
}

// ---------------------------------------------------------------------------
// Plans are in order
// ---------------------------------------------------------------------------

/// Whether no repository of the catalog bears the name that marks installed
/// packages.
pub open spec fn no_system_repository(catalog: Seq<RepoEntryView>) -> bool {
    forall|i: int| 0 <= i < catalog.len() ==> (#[trigger] catalog[i]).metadata.name
        != system_origin()
}

/// Whether no two installed packages have the same name.
pub open spec fn installed_once(db: DatabaseView) -> bool {
    forall|i: int, j: int|
        0 <= i < j < db.packages.len() ==> (#[trigger] db.packages[i]).name != (
        #[trigger] db.packages[j]).name
}

/// What a plan to install holds: nothing to remove or upgrade; each package
/// as the catalog offers it under its name.
spec fn offered_installs(catalog: Seq<RepoEntryView>, t: TransactionView) -> bool {
    &&& t.remove.len() == 0
    &&& t.upgrade.len() == 0
    &&& forall|i: int|
        0 <= i < t.install.len() ==> as_offered(catalog, #[trigger] t.install[i])
}

/// Whether `p` is the package that the catalog offers under its name.
spec fn as_offered(catalog: Seq<RepoEntryView>, p: PackageSpecView) -> bool {
    find_package(catalog, p.name) matches Some(found) && found.spec() == p
}

/// Adding a package as the catalog offers it, which the plan does not hold,
/// keeps a plan to install in order.
proof fn lemma_push_install(
    catalog: Seq<RepoEntryView>,
    before: Seq<PlanStep>,
    p: PackageSpecView,
    size: u64,
)
    requires
        no_system_repository(catalog),
        offered_installs(catalog, replay(before)),
        replay(before).well_formed(),
        as_offered(catalog, p),
        !replay(before).install.contains(p),
    ensures
        offered_installs(catalog, replay(before.push(PlanStep::Install { package: p, size }))),
        replay(before.push(PlanStep::Install { package: p, size })).well_formed(),
{
    lemma_found(catalog, p.name);
    let found = find_package(catalog, p.name)->Some_0;
    let origin = choose|i: int| #[trigger] offered_at(catalog, i, found);
    assert(catalog[origin].metadata.name != system_origin());
    let step = PlanStep::Install { package: p, size };
    let steps = before.push(step);
    assert(steps.drop_last() == before);
    let old = replay(before);
    let t = replay(steps);
    assert(t.install == old.install.push(p));
    assert forall|i: int| 0 <= i < t.install.len() implies as_offered(
        catalog,
        #[trigger] t.install[i],
    ) by {
        if i < old.install.len() {
            assert(t.install[i] == old.install[i]);
        }
    }
    assert forall|i: int| 0 <= i < t.install.len() implies (#[trigger] t.install[i]).repo
        != system_origin() by {
        if i < old.install.len() {
            assert(t.install[i] == old.install[i]);
        }
    }
    let n = t.names();
    assert forall|i: int, j: int| 0 <= i < n.len() && 0 <= j < n.len() && i != j implies n[i]
        != n[j] by {
        let m = old.names();
        let last = old.install.len() as int;
        if i < last && j < last {
            assert(n[i] == m[i] && n[j] == m[j]);
        } else {
            let k = if i < last {
                i
            } else {
                j
            };
            // an earlier package of this name would be the very package
            // that is added now
            if old.install[k].name == p.name {
                assert(as_offered(catalog, old.install[k]));
                assert(old.install[k] == p);
                assert(old.install.contains(p));
            }
        }
    }
}

/// Every package of a dependency closure is as the catalog offers it.
proof fn lemma_closure_offered(
    catalog: Seq<RepoEntryView>,
    requirements: Seq<(Seq<char>, Seq<Seq<char>>)>,
    db: DatabaseView,
    root: Seq<char>,
    pending: Seq<Seq<char>>,
    found: Seq<PackageSpecView>,
)
    requires
        forall|i: int| 0 <= i < found.len() ==> as_offered(catalog, #[trigger] found[i]),
    ensures
        closure_from(catalog, requirements, db, root, pending, found) matches Ok(all)
            ==> forall|i: int| 0 <= i < all.len() ==> as_offered(catalog, #[trigger] all[i]),
    decreases unfound(cached_names(catalog), spec_names(found)), pending.len(),
{
    if pending.len() > 0 {
        let name = pending[0];
        if name == root || db.is_installed(name) || spec_names(found).contains(name) {
            lemma_closure_offered(catalog, requirements, db, root, pending.skip(1), found);
        } else {
            match find_package(catalog, name) {
                None => {},
                Some(info) => {
                    lemma_closure_decreases(catalog, found, name);
                    lemma_found(catalog, name);
                    let wider = found.push(info.spec());
                    assert forall|i: int| 0 <= i < wider.len() implies as_offered(
                        catalog,
                        #[trigger] wider[i],
                    ) by {
                        if i < found.len() {
                            assert(wider[i] == found[i]);
                        }
                    }
                    lemma_closure_offered(
                        catalog,
                        requirements,
                        db,
                        root,
                        pending.skip(1) + required_by(requirements, name),
                        wider,
                    );
                },
            }
        }
    }
}

/// Staging packages as the catalog offers them keeps a plan to install in
/// order.
proof fn lemma_dependency_steps(
    catalog: Seq<RepoEntryView>,
    db: DatabaseView,
    steps: Seq<PlanStep>,
    deps: Seq<PackageSpecView>,
)
    requires
        no_system_repository(catalog),
        offered_installs(catalog, replay(steps)),
        replay(steps).well_formed(),
        forall|i: int| 0 <= i < deps.len() ==> as_offered(catalog, #[trigger] deps[i]),
    ensures
        dependency_steps(catalog, db, steps, deps) matches Ok(staged) ==> {
            &&& offered_installs(catalog, replay(staged))
            &&& replay(staged).well_formed()
        },
    decreases deps.len(),
{
    if deps.len() > 0 {
        let init = deps.drop_last();
        assert forall|i: int| 0 <= i < init.len() implies as_offered(catalog, #[trigger] init[i]) by {
            assert(init[i] == deps[i]);
        }
        lemma_dependency_steps(catalog, db, steps, init);
        match dependency_steps(catalog, db, steps, init) {
            Ok(before) => {
                let dep = deps.last();
                assert(as_offered(catalog, deps[deps.len() - 1]));
                if !(db.is_installed(dep.name) || replay(before).install.contains(dep)) {
                    let info = find_package(catalog, dep.name)->Some_0;
                    lemma_push_install(catalog, before, dep, info.size);
                }
            },
            Err(_) => {},
        }
    }
}

proof fn lemma_requested_steps(catalog: Seq<RepoEntryView>, db: DatabaseView, names: Seq<Seq<char>>)
    requires
        no_system_repository(catalog),
    ensures
        requested_steps(catalog, db, names) matches Ok(steps) ==> {
            &&& offered_installs(catalog, replay(steps))
            &&& replay(steps).well_formed()
        },
    decreases names.len(),
{
    if names.len() == 0 {
        let t = replay(Seq::<PlanStep>::empty());
        assert(t.names() =~= Seq::<Seq<char>>::empty());
    } else {
        lemma_requested_steps(catalog, db, names.drop_last());
        if requested_steps(catalog, db, names) is Ok {
            let before = requested_steps(catalog, db, names.drop_last())->Ok_0;
            let info = find_package(catalog, names.last())->Some_0;
            lemma_found(catalog, names.last());
            if with_requested(before, info) != before {
                assert(as_offered(catalog, info.spec()));
                lemma_push_install(catalog, before, info.spec(), info.size);
            }
        }
    }
}

proof fn lemma_needed_steps(
    catalog: Seq<RepoEntryView>,
    requirements: Seq<(Seq<char>, Seq<Seq<char>>)>,
    db: DatabaseView,
    steps: Seq<PlanStep>,
    names: Seq<Seq<char>>,
)
    requires
        no_system_repository(catalog),
        offered_installs(catalog, replay(steps)),
        replay(steps).well_formed(),
    ensures
        needed_steps(catalog, requirements, db, steps, names) matches Ok(all) ==> {
            &&& offered_installs(catalog, replay(all))
            &&& replay(all).well_formed()
        },
    decreases names.len(),
{
    if names.len() > 0 {
        lemma_needed_steps(catalog, requirements, db, steps, names.drop_last());
        if needed_steps(catalog, requirements, db, steps, names) is Ok {
            let before = needed_steps(catalog, requirements, db, steps, names.drop_last())->Ok_0;
            match find_package(catalog, names.last()) {
                None => {},
                Some(info) => {
                    let deps = dependency_closure(catalog, requirements, db, info.spec())->Ok_0;
                    lemma_closure_offered(
                        catalog,
                        requirements,
                        db,
                        info.spec().name,
                        required_by(requirements, info.spec().name),
                        Seq::empty(),
                    );
                    lemma_dependency_steps(catalog, db, before, deps);
                },
            }
        }
    }
}

/// A plan to install is in order when no repository bears the name that
/// marks installed packages.
pub proof fn install_plan_is_well_formed(
    catalog: Seq<RepoEntryView>,
    requirements: Seq<(Seq<char>, Seq<Seq<char>>)>,
    db: DatabaseView,
    names: Seq<Seq<char>>,
)
    requires
        no_system_repository(catalog),
    ensures
        install_steps(catalog, requirements, db, names) matches Ok(steps) ==> replay(
            steps,
        ).well_formed(),
{
    lemma_requested_steps(catalog, db, names);
    if requested_steps(catalog, db, names) is Ok {
        lemma_needed_steps(
            catalog,
            requirements,
            db,
            requested_steps(catalog, db, names)->Ok_0,
            names,
        );
    }
}

/// A request to install that names a package that the catalog does not
/// have, or one that is installed, is refused for the first such name,
/// whatever the packages named need.
pub proof fn install_checks_names_first(
    catalog: Seq<RepoEntryView>,
    requirements: Seq<(Seq<char>, Seq<Seq<char>>)>,
    db: DatabaseView,
    names: Seq<Seq<char>>,
    k: int,
)
    requires
        0 <= k < names.len(),
        requested_steps(catalog, db, names.take(k)) is Ok,
        find_package(catalog, names[k]) is None || db.is_installed(names[k]),
    ensures
        install_steps(catalog, requirements, db, names) == Err::<Seq<PlanStep>, ErrorView>(
            if find_package(catalog, names[k]) is None {
                ErrorView::PackageNotFound(names[k])
            } else {
                ErrorView::PackageAlreadyInstalled(names[k])
            },
        ),
{
    assert(names.take(k + 1).drop_last() == names.take(k));
    assert(names.take(k + 1).last() == names[k]);
    lemma_requested_error(catalog, db, names, k + 1);
}

/// Whether `p` is the installed package of its name.
spec fn as_installed(db: DatabaseView, p: PackageSpecView) -> bool {
    db.installed(p.name) matches Some(info) && installed_spec(info) == p
}

/// What a plan to remove holds: nothing to install or upgrade; each package
/// as it is installed under its name.
spec fn installed_removals(db: DatabaseView, t: TransactionView) -> bool {
    &&& t.install.len() == 0
    &&& t.upgrade.len() == 0
    &&& forall|i: int| 0 <= i < t.remove.len() ==> as_installed(db, #[trigger] t.remove[i])
}

proof fn lemma_remove_steps(db: DatabaseView, names: Seq<Seq<char>>, request: Seq<Seq<char>>)
    ensures
        remove_steps_of(db, names, request) matches Ok(steps) ==> {
            &&& installed_removals(db, replay(steps))
            &&& replay(steps).well_formed()
        },
    decreases names.len(),
{
    if names.len() == 0 {
        let t = replay(Seq::<PlanStep>::empty());
        assert(t.names() =~= Seq::<Seq<char>>::empty());
    } else {
        let init = names.drop_last();
        lemma_remove_steps(db, init, request);
        if remove_steps_of(db, names, request) is Ok {
            let before = remove_steps_of(db, init, request)->Ok_0;
            let steps = remove_steps_of(db, names, request)->Ok_0;
            let name = names.last();
            lemma_found_in_cache(db.packages, name);
            let info = db.installed(name)->Some_0;
            if steps != before {
                let step = PlanStep::Remove { package: installed_spec(info), size: info.size };
                assert(steps == before.push(step));
                assert(steps.drop_last() == before);
                let old = replay(before);
                let t = replay(steps);
                assert(t.remove == old.remove.push(installed_spec(info)));
                assert(as_installed(db, installed_spec(info)));
                assert forall|i: int| 0 <= i < t.remove.len() implies as_installed(
                    db,
                    #[trigger] t.remove[i],
                ) by {
                    if i < old.remove.len() {
                        assert(t.remove[i] == old.remove[i]);
                    }
                }
                assert forall|i: int| 0 <= i < t.remove.len() implies (#[trigger] t.remove[i]).repo
                    == system_origin() by {
                    if i < old.remove.len() {
                        assert(t.remove[i] == old.remove[i]);
                    }
                }
                let n = t.names();
                assert forall|i: int, j: int|
                    0 <= i < n.len() && 0 <= j < n.len() && i != j implies n[i] != n[j] by {
                    let m = old.names();
                    let last = old.remove.len() as int;
                    if i < last && j < last {
                        assert(n[i] == m[i] && n[j] == m[j]);
                    } else {
                        let k = if i < last {
                            i
                        } else {
                            j
                        };
                        // an earlier package of this name would be the very
                        // package that is added now
                        if old.remove[k].name == name {
                            assert(as_installed(db, old.remove[k]));
                            assert(old.remove[k] == installed_spec(info));
                            assert(old.remove.contains(installed_spec(info)));
                        }
                    }
                }
            }
        }
    }
}

/// A plan to remove is in order: every package in it is an installed one,
/// and none stands in it twice, however often its name is asked for.
pub proof fn remove_plan_is_well_formed(db: DatabaseView, names: Seq<Seq<char>>)
    ensures
        remove_steps(db, names) matches Ok(steps) ==> replay(steps).well_formed(),
{
    lemma_remove_steps(db, names, names);
}

/// The first name that is not installed is the one before which every name
/// is installed.
proof fn lemma_first_not_installed(db: DatabaseView, names: Seq<Seq<char>>, k: int)
    requires
        0 <= k < names.len(),
        !db.is_installed(names[k]),
        forall|j: int| 0 <= j < k ==> db.is_installed(#[trigger] names[j]),
    ensures
        first_not_installed(db, names) == Some(names[k]),
    decreases k,
{
    if k > 0 {
        let rest = names.skip(1);
        assert(db.is_installed(names[0]));
        assert(rest[k - 1] == names[k]);
        assert forall|j: int| 0 <= j < k - 1 implies db.is_installed(#[trigger] rest[j]) by {
            assert(rest[j] == names[j + 1]);
        }
        lemma_first_not_installed(db, rest, k - 1);
    }
}

/// A request to remove that names a package that is not installed is
/// refused for the first such name, whatever is required of the others.
pub proof fn removal_checks_names_first(db: DatabaseView, names: Seq<Seq<char>>, k: int)
    requires
        0 <= k < names.len(),
        !db.is_installed(names[k]),
        forall|j: int| 0 <= j < k ==> db.is_installed(#[trigger] names[j]),
    ensures
        removal_plan(db, names) == Err::<Seq<PlanStep>, ErrorView>(
            ErrorView::PackageNotInstalled(names[k]),
        ),
{
    lemma_first_not_installed(db, names, k);
}

/// A package that installed packages outside the request require is not
/// removed: the request is refused with the names of those packages.
pub proof fn required_package_is_not_removed(db: DatabaseView, names: Seq<Seq<char>>, k: int)
    requires
        0 <= k < names.len(),
        remove_steps_of(db, names.take(k), names) is Ok,
        db.installed(names[k]) is Some,
        blocking(db.dependents_of(names[k]), names).len() > 0,
    ensures
        remove_steps(db, names) == Err::<Seq<PlanStep>, ErrorView>(
            ErrorView::DependencyConflict(
                conflict_message(names[k], blocking(db.dependents_of(names[k]), names)),
            ),
        ),
{
    lemma_found_in_cache(db.packages, names[k]);
    assert(names.take(k + 1).drop_last() == names.take(k));
    assert(names.take(k + 1).last() == names[k]);
    lemma_remove_error(db, names, names, k + 1);
}

/// What a plan to upgrade holds: nothing to install or remove; each upgrade
/// under one of the names `among`.
spec fn upgrades_among(t: TransactionView, among: Seq<Seq<char>>) -> bool {
    &&& t.install.len() == 0
    &&& t.remove.len() == 0
    &&& forall|i: int| 0 <= i < t.upgrade.len() ==> among.contains((#[trigger] t.upgrade[i]).0.name)
}

/// An upgrade step replaces an installed package by a package of the same
/// name from a repository.
proof fn lemma_upgrade_step(catalog: Seq<RepoEntryView>, p: PackageSpecView, old_size: u64)
    requires
        no_system_repository(catalog),
    ensures
        upgrade_step(catalog, p, old_size) matches Some(PlanStep::Upgrade { old, new, .. }) ==> {
            &&& old.name == p.name
            &&& new.name == p.name
            &&& old.repo == system_origin()
            &&& new.repo != system_origin()
        },
        upgrade_step(catalog, p, old_size) is Some ==> upgrade_step(catalog, p, old_size)
            ->Some_0 is Upgrade,
{
    lemma_found(catalog, p.name);
}

/// Adding an upgrade under a new name keeps a plan to upgrade in order.
proof fn lemma_push_upgrade(
    catalog: Seq<RepoEntryView>,
    before: Seq<PlanStep>,
    p: PackageSpecView,
    old_size: u64,
)
    requires
        no_system_repository(catalog),
        replay(before).install.len() == 0,
        replay(before).remove.len() == 0,
        replay(before).well_formed(),
        forall|i: int|
            0 <= i < replay(before).upgrade.len() ==> (#[trigger] replay(before).upgrade[i]).0.name
                != p.name,
        upgrade_step(catalog, p, old_size) is Some,
    ensures
        replay(before.push(upgrade_step(catalog, p, old_size)->Some_0)).install.len() == 0,
        replay(before.push(upgrade_step(catalog, p, old_size)->Some_0)).remove.len() == 0,
        replay(before.push(upgrade_step(catalog, p, old_size)->Some_0)).upgrade == replay(
            before,
        ).upgrade.push(
            (
                PackageSpecView { repo: system_origin(), ..p },
                upgrade_step(catalog, p, old_size)->Some_0->new,
            ),
        ),
        replay(before.push(upgrade_step(catalog, p, old_size)->Some_0)).well_formed(),
{
    lemma_upgrade_step(catalog, p, old_size);
    let step = upgrade_step(catalog, p, old_size)->Some_0;
    let steps = before.push(step);
    assert(steps.drop_last() == before);
    let old = replay(before);
    let t = replay(steps);
    assert(t.upgrade.len() == old.upgrade.len() + 1);
    assert forall|i: int| 0 <= i < t.upgrade.len() implies {
        &&& (#[trigger] t.upgrade[i]).0.name == t.upgrade[i].1.name
        &&& t.upgrade[i].0.repo == system_origin()
        &&& t.upgrade[i].1.repo != system_origin()
    } by {
        if i < old.upgrade.len() {
            assert(t.upgrade[i] == old.upgrade[i]);
        }
    }
    let n = t.names();
    assert forall|i: int, j: int| 0 <= i < n.len() && 0 <= j < n.len() && i != j implies n[i]
        != n[j] by {
        let m = old.names();
        let last = old.upgrade.len() as int;
        if i < last && j < last {
            assert(n[i] == m[i] && n[j] == m[j]);
        } else {
            let k = if i < last {
                i
            } else {
                j
            };
            assert(old.upgrade[k].0.name != p.name);
        }
    }
}

/// The names of the first `n` installed packages.
spec fn installed_names(db: DatabaseView, n: int) -> Seq<Seq<char>> {
    Seq::new(n as nat, |i: int| db.packages[i].name)
}

proof fn lemma_upgrade_steps(catalog: Seq<RepoEntryView>, db: DatabaseView, n: int)
    requires
        no_system_repository(catalog),
        installed_once(db),
        0 <= n <= db.packages.len(),
    ensures
        upgrades_among(replay(upgrade_steps(catalog, db, n)), installed_names(db, n)),
        replay(upgrade_steps(catalog, db, n)).well_formed(),
    decreases n,
{
    if n == 0 {
        let t = replay(Seq::<PlanStep>::empty());
        assert(t.names() =~= Seq::<Seq<char>>::empty());
    } else {
        lemma_upgrade_steps(catalog, db, n - 1);
        let before = upgrade_steps(catalog, db, n - 1);
        let p = db.packages[n - 1];
        let among = installed_names(db, n - 1);
        let wider = installed_names(db, n);
        assert(wider =~= among.push(p.name));
        let old = replay(before);
        assert forall|i: int| 0 <= i < old.upgrade.len() implies (#[trigger] old.upgrade[i]).0.name
            != p.name by {
            let k = choose|k: int| 0 <= k < among.len() && among[k] == old.upgrade[i].0.name;
            assert(db.packages[k].name != db.packages[n - 1].name);
        }
        let size = recorded_size(db, p.name);
        if upgrade_step(catalog, installed_spec(p), size) is Some {
            lemma_push_upgrade(catalog, before, installed_spec(p), size);
        }
        let t = replay(upgrade_steps(catalog, db, n));
        assert forall|i: int| 0 <= i < t.upgrade.len() implies wider.contains(
            (#[trigger] t.upgrade[i]).0.name,
        ) by {
            if i < old.upgrade.len() {
                assert(t.upgrade[i] == old.upgrade[i]);
                let k = choose|k: int| 0 <= k < among.len() && among[k] == old.upgrade[i].0.name;
                assert(wider[k] == old.upgrade[i].0.name);
            } else {
                assert(wider[among.len() as int] == p.name);
            }
        }
    }
}

/// A plan to upgrade everything is in order when no repository bears the
/// name that marks installed packages and no package is installed twice.
pub proof fn upgrade_plan_is_well_formed(catalog: Seq<RepoEntryView>, db: DatabaseView)
    requires
        no_system_repository(catalog),
        installed_once(db),
    ensures
        replay(upgrade_steps(catalog, db, db.packages.len() as int)).well_formed(),
{
    lemma_upgrade_steps(catalog, db, db.packages.len() as int);
}

/// What a plan to upgrade named packages holds: nothing to install or
/// remove; the installed side of each upgrade as it is installed under its
/// name.
spec fn installed_upgrades(db: DatabaseView, t: TransactionView) -> bool {
    &&& t.install.len() == 0
    &&& t.remove.len() == 0
    &&& forall|i: int| 0 <= i < t.upgrade.len() ==> as_installed(db, (#[trigger] t.upgrade[i]).0)
}

proof fn lemma_named_upgrade_steps(
    catalog: Seq<RepoEntryView>,
    db: DatabaseView,
    names: Seq<Seq<char>>,
)
    requires
        no_system_repository(catalog),
    ensures
        named_upgrade_steps(catalog, db, names) matches Ok(steps) ==> {
            &&& installed_upgrades(db, replay(steps))
            &&& replay(steps).well_formed()
        },
    decreases names.len(),
{
    if names.len() == 0 {
        let t = replay(Seq::<PlanStep>::empty());
        assert(t.names() =~= Seq::<Seq<char>>::empty());
    } else {
        let init = names.drop_last();
        lemma_named_upgrade_steps(catalog, db, init);
        if named_upgrade_steps(catalog, db, names) is Ok {
            let before = named_upgrade_steps(catalog, db, init)->Ok_0;
            let steps = named_upgrade_steps(catalog, db, names)->Ok_0;
            let name = names.last();
            lemma_found_in_cache(db.packages, name);
            let info = db.installed(name)->Some_0;
            let p = installed_spec(info);
            assert(as_installed(db, p));
            if steps != before {
                let old = replay(before);
                assert forall|i: int| 0 <= i < old.upgrade.len() implies (
                #[trigger] old.upgrade[i]).0.name != p.name by {
                    if old.upgrade[i].0.name == p.name {
                        assert(as_installed(db, old.upgrade[i].0));
                        assert(old_sides(old.upgrade)[i] == p);
                        assert(old_sides(old.upgrade).contains(p));
                    }
                }
                lemma_push_upgrade(catalog, before, p, info.size);
                let t = replay(steps);
                assert forall|i: int| 0 <= i < t.upgrade.len() implies as_installed(
                    db,
                    (#[trigger] t.upgrade[i]).0,
                ) by {
                    if i < old.upgrade.len() {
                        assert(t.upgrade[i] == old.upgrade[i]);
                    }
                }
            }
        }
    }
}

/// A plan to upgrade named packages is in order when no repository bears the
/// name that marks installed packages, however often a name is asked for.
pub proof fn named_upgrade_plan_is_well_formed(
    catalog: Seq<RepoEntryView>,
    db: DatabaseView,
    names: Seq<Seq<char>>,
)
    requires
        no_system_repository(catalog),
    ensures
        named_upgrade_steps(catalog, db, names) matches Ok(steps) ==> replay(steps).well_formed(),
{
    lemma_named_upgrade_steps(catalog, db, names);
}

/// Whether `r` is the plan, or the refusal, that `expected` asks for.
pub open spec fn planned(
    r: Result<Transaction, RatpmError>,
    expected: Result<Seq<PlanStep>, ErrorView>,
) -> bool {
    match r {
        Ok(t) => expected matches Ok(steps) && t@ == replay(steps),
        Err(e) => expected == Err::<Seq<PlanStep>, ErrorView>(e@),
    }
}

/// The identity that the catalog or the database gives a package.
pub fn spec_of(info: &PackageInfo) -> (r: PackageSpec)
    ensures
        r@ == info@.spec(),
{
    PackageSpec::new(
        info.name.clone(),
        info.version.clone(),
        info.arch.clone(),
        info.repo.clone(),
    )
}

/// Whether `spec` is one of `list`.
pub fn holds(list: &Vec<PackageSpec>, spec: &PackageSpec) -> (r: bool)
    ensures
        r == spec_views(list@).contains(spec@),
{
    let ghost all = spec_views(list@);
    let mut i: usize = 0;
    while i < list.len()
        invariant
            i <= list.len(),
            all == spec_views(list@),
            forall|j: int| 0 <= j < i ==> all[j] != spec@,
        decreases list.len() - i,
    {
        if list[i] == *spec {
            assert(all[i as int] == spec@);
            return true;
        }
        i += 1;
    }
    false
}

/// The installed packages that require `package`, as the database records
/// them.
pub fn find_dependents(package: &str, rpm_db: &RpmDatabase) -> (r: Result<Vec<String>, RatpmError>)
    ensures
        r matches Ok(dependents) && string_texts(dependents@) == rpm_db@.dependents_of(package@),
{
    Ok(rpm_db.dependents(package))
}

/// Whether `spec` is the installed side of one of the upgrades `list`.
pub fn holds_upgrade(list: &Vec<(PackageSpec, PackageSpec)>, spec: &PackageSpec) -> (r: bool)
    ensures
        r == old_sides(pair_views(list@)).contains(spec@),
{
    let ghost all = old_sides(pair_views(list@));
    let mut i: usize = 0;
    while i < list.len()
        invariant
            i <= list.len(),
            all == old_sides(pair_views(list@)),
            forall|j: int| 0 <= j < i ==> all[j] != spec@,
        decreases list.len() - i,
    {
        if list[i].0 == *spec {
            assert(all[i as int] == spec@);
            return true;
        }
        i += 1;
    }
    false
}

/// Staging dependencies in a plan that steps built is adding their steps.
pub proof fn lemma_dependency_views(
    catalog: Seq<RepoEntryView>,
    db: DatabaseView,
    steps: Seq<PlanStep>,
    deps: Seq<PackageSpecView>,
)
    ensures
        with_dependencies(catalog, db, replay(steps), deps) == (match dependency_steps(
            catalog,
            db,
            steps,
            deps,
        ) {
            Ok(staged) => Ok::<TransactionView, ErrorView>(replay(staged)),
            Err(e) => Err::<TransactionView, ErrorView>(e),
        }),
    decreases deps.len(),
{
    if deps.len() > 0 {
        lemma_dependency_views(catalog, db, steps, deps.drop_last());
        match dependency_steps(catalog, db, steps, deps.drop_last()) {
            Ok(before) => {
                let dep = deps.last();
                if !(db.is_installed(dep.name) || replay(before).install.contains(dep)) {
                    match find_package(catalog, dep.name) {
                        Some(info) => {
                            let step = PlanStep::Install { package: dep, size: info.size };
                            assert(before.push(step).drop_last() == before);
                        },
                        None => {},
                    }
                }
            },
            Err(_) => {},
        }
    }
}

/// Whether staging `deps` in the plan `start` stops before `deps[k]` with
/// the plan `t`, because that package would take the bytes to fetch past
/// `u64`.
pub open spec fn stops_before(
    catalog: Seq<RepoEntryView>,
    db: DatabaseView,
    start: TransactionView,
    deps: Seq<PackageSpecView>,
    k: int,
    t: TransactionView,
) -> bool {
    &&& 0 <= k < deps.len()
    &&& with_dependencies(catalog, db, start, deps.take(k)) == Ok::<TransactionView, ErrorView>(t)
    &&& with_dependencies(catalog, db, start, deps.take(k + 1)) matches Ok(next)
        && next.download_size > u64::MAX
}

/// Stages the dependencies `deps` in `transaction`, unless the bytes to
/// fetch leave `u64` on the way: then there is no result, and the plan is
/// left as it was before the package that does not fit.
pub fn try_stage_dependencies(
    transaction: &mut Transaction,
    deps: &Vec<PackageSpec>,
    repos: &RepositoryManager,
    rpm_db: &RpmDatabase,
) -> (r: Option<Result<(), RatpmError>>)
    ensures
        r is Some <==> dependencies_fit(
            repos@.repos,
            rpm_db@,
            old(transaction)@,
            spec_views(deps@),
        ),
        match r {
            Some(Ok(_)) => with_dependencies(
                repos@.repos,
                rpm_db@,
                old(transaction)@,
                spec_views(deps@),
            ) == Ok::<TransactionView, ErrorView>(final(transaction)@),
            Some(Err(e)) => with_dependencies(
                repos@.repos,
                rpm_db@,
                old(transaction)@,
                spec_views(deps@),
            ) == Err::<TransactionView, ErrorView>(e@),
            None => exists|k: int|
                #[trigger] stops_before(
                    repos@.repos,
                    rpm_db@,
                    old(transaction)@,
                    spec_views(deps@),
                    k,
                    final(transaction)@,
                ),
        },
{
    let ghost all = spec_views(deps@);
    let ghost start = transaction@;
    let ghost catalog = repos@.repos;
    let ghost db = rpm_db@;
    let mut i: usize = 0;
    proof {
        assert(all.take(0) =~= Seq::empty());
    }
    while i < deps.len()
        invariant
            i <= deps.len(),
            all == spec_views(deps@),
            start == old(transaction)@,
            catalog == repos@.repos,
            db == rpm_db@,
            with_dependencies(catalog, db, start, all.take(i as int)) == Ok::<
                TransactionView,
                ErrorView,
            >(transaction@),
            forall|k: int|
                0 <= k <= i ==> (#[trigger] with_dependencies(catalog, db, start, all.take(k))
                    matches Ok(staged) ==> staged.download_size <= u64::MAX),
        decreases deps.len() - i,
    {
        proof {
            assert(all.take(i + 1).drop_last() == all.take(i as int));
            assert(all.take(i + 1).last() == deps@[i as int]@);
        }
        let dep = &deps[i];
        let installed = match rpm_db.is_installed(dep.name.as_str()) {
            Ok(b) => b,
            Err(e) => {
                return Some(Err(e));
            },
        };
        if !installed && !holds(&transaction.install, dep) {
            match repos.get_package_info(dep.name.as_str()) {
                Err(e) => {
                    proof {
                        lemma_dependency_error(catalog, db, start, all, i + 1);
                        assert forall|k: int| 0 <= k <= all.len() implies (
                        #[trigger] with_dependencies(catalog, db, start, all.take(k)) matches Ok(
                            staged,
                        ) ==> staged.download_size <= u64::MAX) by {
                            if k > i {
                                assert(all.take(k).take(i + 1) == all.take(i + 1));
                                lemma_dependency_error(catalog, db, start, all.take(k), i + 1);
                            }
                        }
                    }
                    return Some(Err(e));
                },
                Ok(info) => {
                    if !transaction.can_fetch(info.size) {
                        proof {
                            let staged = with_dependencies(catalog, db, start, all.take(i + 1))->Ok_0;
                            assert(staged.download_size > u64::MAX);
                            assert(stops_before(catalog, db, start, all, i as int, transaction@));
                        }
                        return None;
                    }
                    transaction.add_install(dep.clone(), info.size);
                },
            }
        }
        proof {
            assert(with_dependencies(catalog, db, start, all.take(i + 1)) == Ok::<
                TransactionView,
                ErrorView,
            >(transaction@));
        }
        i += 1;
    }
    proof {
        assert(all.take(deps.len() as int) == all);
    }
    Some(Ok(()))
}

/// Stages the dependencies `deps` in `transaction`.
pub fn stage_dependencies(
    transaction: &mut Transaction,
    deps: &Vec<PackageSpec>,
    repos: &RepositoryManager,
    rpm_db: &RpmDatabase,
) -> (r: Result<(), RatpmError>)
    requires
        dependencies_fit(repos@.repos, rpm_db@, old(transaction)@, spec_views(deps@)),
    ensures
        match r {
            Ok(_) => with_dependencies(repos@.repos, rpm_db@, old(transaction)@, spec_views(deps@))
                == Ok::<TransactionView, ErrorView>(final(transaction)@),
            Err(e) => with_dependencies(
                repos@.repos,
                rpm_db@,
                old(transaction)@,
                spec_views(deps@),
            ) == Err::<TransactionView, ErrorView>(e@),
        },
{
    try_stage_dependencies(transaction, deps, repos, rpm_db).unwrap()
}

/// A refusal met while staging a prefix of the dependencies is the refusal
/// of the whole.
proof fn lemma_dependency_error(
    catalog: Seq<RepoEntryView>,
    db: DatabaseView,
    t: TransactionView,
    deps: Seq<PackageSpecView>,
    k: int,
)
    requires
        0 <= k <= deps.len(),
        with_dependencies(catalog, db, t, deps.take(k)) is Err,
    ensures
        with_dependencies(catalog, db, t, deps) == with_dependencies(catalog, db, t, deps.take(k)),
    decreases deps.len() - k,
{
    if k < deps.len() {
        assert(deps.take(k + 1).drop_last() == deps.take(k));
        lemma_dependency_error(catalog, db, t, deps, k + 1);
    } else {
        assert(deps.take(k) == deps);
    }
}

/// A refusal met while planning a prefix of the names is the refusal of the
/// whole request.
proof fn lemma_requested_error(
    catalog: Seq<RepoEntryView>,
    db: DatabaseView,
    names: Seq<Seq<char>>,
    k: int,
)
    requires
        0 <= k <= names.len(),
        requested_steps(catalog, db, names.take(k)) is Err,
    ensures
        requested_steps(catalog, db, names) == requested_steps(catalog, db, names.take(k)),
    decreases names.len() - k,
{
    if k < names.len() {
        assert(names.take(k + 1).drop_last() == names.take(k));
        lemma_requested_error(catalog, db, names, k + 1);
    } else {
        assert(names.take(k) == names);
    }
}

/// A refusal met while adding what a prefix of the names needs is the
/// refusal of the whole request.
proof fn lemma_needed_error(
    catalog: Seq<RepoEntryView>,
    requirements: Seq<(Seq<char>, Seq<Seq<char>>)>,
    db: DatabaseView,
    steps: Seq<PlanStep>,
    names: Seq<Seq<char>>,
    k: int,
)
    requires
        0 <= k <= names.len(),
        needed_steps(catalog, requirements, db, steps, names.take(k)) is Err,
    ensures
        needed_steps(catalog, requirements, db, steps, names) == needed_steps(
            catalog,
            requirements,
            db,
            steps,
            names.take(k),
        ),
    decreases names.len() - k,
{
    if k < names.len() {
        assert(names.take(k + 1).drop_last() == names.take(k));
        lemma_needed_error(catalog, requirements, db, steps, names, k + 1);
    } else {
        assert(names.take(k) == names);
    }
}

proof fn lemma_remove_error(
    db: DatabaseView,
    names: Seq<Seq<char>>,
    request: Seq<Seq<char>>,
    k: int,
)
    requires
        0 <= k <= names.len(),
        remove_steps_of(db, names.take(k), request) is Err,
    ensures
        remove_steps_of(db, names, request) == remove_steps_of(db, names.take(k), request),
    decreases names.len() - k,
{
    if k < names.len() {
        assert(names.take(k + 1).drop_last() == names.take(k));
        lemma_remove_error(db, names, request, k + 1);
    } else {
        assert(names.take(k) == names);
    }
}

proof fn lemma_named_upgrade_error(
    catalog: Seq<RepoEntryView>,
    db: DatabaseView,
    names: Seq<Seq<char>>,
    k: int,
)
    requires
        0 <= k <= names.len(),
        named_upgrade_steps(catalog, db, names.take(k)) is Err,
    ensures
        named_upgrade_steps(catalog, db, names) == named_upgrade_steps(catalog, db, names.take(k)),
    decreases names.len() - k,
{
    if k < names.len() {
        assert(names.take(k + 1).drop_last() == names.take(k));
        lemma_named_upgrade_error(catalog, db, names, k + 1);
    } else {
        assert(names.take(k) == names);
    }
}

/// Plans the installation of the named packages and of what they need: the
/// named packages first, in the order of the request, then what each of
/// them needs. There is no result when the bytes to fetch leave `u64` on the
/// way.
pub fn try_resolve_install(repos: &RepositoryManager, rpm_db: &RpmDatabase, packages: &[String])
    -> (r: Option<Result<Transaction, RatpmError>>)
    ensures
        r is Some <==> install_fits(
            repos@.repos,
            repos@.requirements,
            rpm_db@,
            string_texts(packages@),
        ),
        r matches Some(plan) ==> planned(
            plan,
            install_steps(repos@.repos, repos@.requirements, rpm_db@, string_texts(packages@)),
        ),
{
    let ghost names = string_texts(packages@);
    let ghost catalog = repos@.repos;
    let ghost requirements = repos@.requirements;
    let ghost db = rpm_db@;
    let mut transaction = Transaction::new();
    let ghost mut steps: Seq<PlanStep> = Seq::empty();
    let mut i: usize = 0;
    proof {
        assert(names.take(0) =~= Seq::empty());
    }
    while i < packages.len()
        invariant
            i <= packages.len(),
            names == string_texts(packages@),
            catalog == repos@.repos,
            requirements == repos@.requirements,
            db == rpm_db@,
            requested_steps(catalog, db, names.take(i as int)) == Ok::<Seq<PlanStep>, ErrorView>(
                steps,
            ),
            transaction@ == replay(steps),
            forall|k: int|
                0 <= k <= i ==> (#[trigger] requested_steps(catalog, db, names.take(k)) matches Ok(
                    planned,
                ) ==> fetch_total(planned) <= u64::MAX),
        decreases packages.len() - i,
    {
        proof {
            assert(names.take(i + 1).drop_last() == names.take(i as int));
            assert(names.take(i + 1).last() == packages@[i as int]@);
        }
        let name = packages[i].as_str();
        let found = repos.get_package_info(name);
        let installed = match rpm_db.is_installed(name) {
            Ok(b) => b,
            Err(e) => {
                return Some(Err(e));
            },
        };
        if found.is_err() || installed {
            proof {
                lemma_requested_error(catalog, db, names, i + 1);
                assert forall|k: int| 0 <= k <= names.len() implies (#[trigger] requested_steps(
                    catalog,
                    db,
                    names.take(k),
                ) matches Ok(planned) ==> fetch_total(planned) <= u64::MAX) by {
                    if k > i {
                        assert(names.take(k).take(i + 1) == names.take(i + 1));
                        lemma_requested_error(catalog, db, names.take(k), i + 1);
                    }
                }
                assert(requested_fit(catalog, db, names));
                assert forall|k: int| 0 <= k < names.len() implies #[trigger] needed_fit(
                    catalog,
                    requirements,
                    db,
                    names,
                    k,
                ) by {}
            }
            return match found {
                Err(e) => Some(Err(e)),
                Ok(_) => Some(Err(RatpmError::PackageAlreadyInstalled(packages[i].clone()))),
            };
        }
        let info = match found {
            Ok(info) => info,
            Err(e) => {
                return Some(Err(e));
            },
        };
        let spec = spec_of(&info);
        if !holds(&transaction.install, &spec) {
            proof {
                let next = steps.push(PlanStep::Install { package: spec@, size: info.size });
                assert(next.drop_last() == steps);
                crate::engine::transaction::download_size_is_fetch_total(steps);
                assert(requested_steps(catalog, db, names.take(i + 1)) == Ok::<
                    Seq<PlanStep>,
                    ErrorView,
                >(next));
                assert(fetch_total(next) == transaction.download_size + info.size);
                steps = next;
            }
            if !transaction.can_fetch(info.size) {
                return None;
            }
            transaction.add_install(spec, info.size);
        }
        proof {
            crate::engine::transaction::download_size_is_fetch_total(steps);
        }
        i += 1;
    }
    let ghost requested = steps;
    let mut k: usize = 0;
    proof {
        assert(names.take(packages.len() as int) == names);
        assert(names.take(0) =~= Seq::empty());
        assert(requested_fit(catalog, db, names));
    }
    while k < packages.len()
        invariant
            k <= packages.len(),
            names == string_texts(packages@),
            catalog == repos@.repos,
            requirements == repos@.requirements,
            db == rpm_db@,
            requested_fit(catalog, db, names),
            requested_steps(catalog, db, names) == Ok::<Seq<PlanStep>, ErrorView>(requested),
            needed_steps(catalog, requirements, db, requested, names.take(k as int)) == Ok::<
                Seq<PlanStep>,
                ErrorView,
            >(steps),
            transaction@ == replay(steps),
            forall|j: int|
                0 <= j < k ==> #[trigger] needed_fit(catalog, requirements, db, names, j),
        decreases packages.len() - k,
    {
        proof {
            assert(names.take(k + 1).drop_last() == names.take(k as int));
            assert(names.take(k + 1).last() == packages@[k as int]@);
            assert(names[k as int] == packages@[k as int]@);
        }
        match repos.get_package_info(packages[k].as_str()) {
            Err(_) => {},
            Ok(info) => {
                let spec = spec_of(&info);
                let dependencies = match resolve_dependencies(&spec, repos, rpm_db) {
                    Ok(d) => d,
                    Err(e) => {
                        proof {
                            lemma_needed_error(catalog, requirements, db, requested, names, k + 1);
                            lemma_needed_fit_after(catalog, requirements, db, names, k as int);
                        }
                        return Some(Err(e));
                    },
                };
                let ghost deps = spec_views(dependencies@);
                match try_stage_dependencies(&mut transaction, &dependencies, repos, rpm_db) {
                    None => {
                        proof {
                            assert(!needed_fit(catalog, requirements, db, names, k as int));
                        }
                        return None;
                    },
                    Some(Ok(_)) => {
                        proof {
                            lemma_dependency_views(catalog, db, steps, deps);
                            steps = dependency_steps(catalog, db, steps, deps)->Ok_0;
                        }
                    },
                    Some(Err(e)) => {
                        proof {
                            lemma_dependency_views(catalog, db, steps, deps);
                            lemma_needed_error(catalog, requirements, db, requested, names, k + 1);
                            lemma_needed_fit_after(catalog, requirements, db, names, k as int);
                        }
                        return Some(Err(e));
                    },
                }
            },
        }
        proof {
            assert(needed_fit(catalog, requirements, db, names, k as int));
        }
        k += 1;
    }
    proof {
        assert(names.take(packages.len() as int) == names);
    }
    Some(Ok(transaction))
}

/// Once adding what the names up to `names[k]` need is refused, the bytes
/// to fetch are of no concern for the names after it.
proof fn lemma_needed_fit_after(
    catalog: Seq<RepoEntryView>,
    requirements: Seq<(Seq<char>, Seq<Seq<char>>)>,
    db: DatabaseView,
    names: Seq<Seq<char>>,
    k: int,
)
    requires
        0 <= k < names.len(),
        requested_steps(catalog, db, names) is Ok,
        needed_steps(
            catalog,
            requirements,
            db,
            requested_steps(catalog, db, names)->Ok_0,
            names.take(k + 1),
        ) is Err,
    ensures
        forall|j: int|
            k < j < names.len() ==> #[trigger] needed_fit(catalog, requirements, db, names, j),
{
    let requested = requested_steps(catalog, db, names)->Ok_0;
    assert forall|j: int| k < j < names.len() implies #[trigger] needed_fit(
        catalog,
        requirements,
        db,
        names,
        j,
    ) by {
        assert(names.take(j).take(k + 1) == names.take(k + 1));
        lemma_needed_error(catalog, requirements, db, requested, names.take(j), k + 1);
    }
}

/// Plans the installation of the named packages and of what they need: the
/// named packages first, in the order of the request, then what each of
/// them needs.
pub fn resolve_install(repos: &RepositoryManager, rpm_db: &RpmDatabase, packages: &[String]) -> (r:
    Result<Transaction, RatpmError>)
    requires
        install_fits(repos@.repos, repos@.requirements, rpm_db@, string_texts(packages@)),
    ensures
        planned(
            r,
            install_steps(repos@.repos, repos@.requirements, rpm_db@, string_texts(packages@)),
        ),
{
    try_resolve_install(repos, rpm_db, packages).unwrap()
}

/// Whether `name` is one of `names`.
pub fn names_hold(names: &[String], name: &String) -> (r: bool)
    ensures
        r == string_texts(names@).contains(name@),
{
    let ghost all = string_texts(names@);
    let mut k: usize = 0;
    while k < names.len()
        invariant
            k <= names.len(),
            all == string_texts(names@),
            forall|j: int| 0 <= j < k ==> all[j] != name@,
        decreases names.len() - k,
    {
        if names[k] == *name {
            assert(all[k as int] == name@);
            return true;
        }
        k += 1;
    }
    false
}

/// Refuses the removal of `name` when some of its `dependents` are not
/// removed with it.
pub fn check_dependents(name: &str, dependents: &Vec<String>, removing: &[String]) -> (r: Result<
    (),
    RatpmError,
>)
    ensures
        match r {
            Ok(_) => blocking(string_texts(dependents@), string_texts(removing@)).len() == 0,
            Err(e) => {
                let blockers = blocking(string_texts(dependents@), string_texts(removing@));
                &&& blockers.len() > 0
                &&& e@ == ErrorView::DependencyConflict(conflict_message(name@, blockers))
            },
        },
{
    let ghost all = string_texts(dependents@);
    let ghost going = string_texts(removing@);
    let mut blockers: Vec<String> = Vec::new();
    let mut i: usize = 0;
    proof {
        assert(string_texts(blockers@) =~= blocking(all.take(0), going));
    }
    while i < dependents.len()
        invariant
            i <= dependents.len(),
            all == string_texts(dependents@),
            going == string_texts(removing@),
            string_texts(blockers@) == blocking(all.take(i as int), going),
        decreases dependents.len() - i,
    {
        proof {
            assert(all.take(i + 1).drop_last() == all.take(i as int));
            assert(all.take(i + 1).last() == dependents@[i as int]@);
        }
        let found = names_hold(removing, &dependents[i]);
        if !found {
            let ghost before = string_texts(blockers@);
            blockers.push(dependents[i].clone());
            assert(string_texts(blockers@) =~= before.push(dependents@[i as int]@));
        }
        i += 1;
    }
    proof {
        assert(all.take(dependents.len() as int) == all);
    }
    if blockers.len() > 0 {
        let mut msg = String::from_str("Cannot remove '");
        msg.append(name);
        msg.append("': required by ");
        msg.append(join(&blockers, ", ").as_str());
        Err(RatpmError::DependencyConflict(msg))
    } else {
        Ok(())
    }
}

/// Plans the removal of the named packages.
pub fn resolve_remove(rpm_db: &RpmDatabase, packages: &[String]) -> (r: Result<
    Transaction,
    RatpmError,
>)
    ensures
        match r {
            Ok(t) => remove_steps(rpm_db@, string_texts(packages@)) matches Ok(steps) && t@
                == replay(steps),
            Err(e) => remove_steps(rpm_db@, string_texts(packages@)) == Err::<
                Seq<PlanStep>,
                ErrorView,
            >(e@),
        },
{
    let ghost names = string_texts(packages@);
    let ghost db = rpm_db@;
    let mut transaction = Transaction::new();
    let ghost mut steps: Seq<PlanStep> = Seq::empty();
    let mut i: usize = 0;
    proof {
        assert(names.take(0) =~= Seq::empty());
    }
    while i < packages.len()
        invariant
            i <= packages.len(),
            names == string_texts(packages@),
            db == rpm_db@,
            remove_steps_of(db, names.take(i as int), names) == Ok::<Seq<PlanStep>, ErrorView>(
                steps,
            ),
            transaction@ == replay(steps),
        decreases packages.len() - i,
    {
        proof {
            assert(names.take(i + 1).drop_last() == names.take(i as int));
            assert(names.take(i + 1).last() == packages@[i as int]@);
        }
        let name = packages[i].as_str();
        let info = match rpm_db.get_package_info(name) {
            Ok(info) => info,
            Err(_) => {
                proof {
                    lemma_remove_error(db, names, names, i + 1);
                }
                return Err(RatpmError::PackageNotInstalled(packages[i].clone()));
            },
        };
        let dependents = match find_dependents(info.name.as_str(), rpm_db) {
            Ok(d) => d,
            Err(e) => {
                return Err(e);
            },
        };
        match check_dependents(name, &dependents, packages) {
            Ok(_) => {},
            Err(e) => {
                proof {
                    lemma_remove_error(db, names, names, i + 1);
                }
                return Err(e);
            },
        }
        let spec = PackageSpec::new(
            info.name.clone(),
            info.version.clone(),
            info.arch.clone(),
            String::from_str("@System"),
        );
        if !holds(&transaction.remove, &spec) {
            proof {
                let next = steps.push(PlanStep::Remove { package: spec@, size: info.size });
                assert(next.drop_last() == steps);
                steps = next;
            }
            transaction.add_remove(spec, info.size);
        }
        i += 1;
    }
    proof {
        assert(names.take(packages.len() as int) == names);
    }
    Ok(transaction)
}

/// Adds to `transaction` the upgrade of the installed package `installed`,
/// of `old_size` bytes, if the catalog offers a strictly newer version.
/// There is no result when the bytes to fetch would leave `u64`.
fn stage_upgrade(
    transaction: &mut Transaction,
    repos: &RepositoryManager,
    installed: &PackageSpec,
    old_size: u64,
    Ghost(steps): Ghost<Seq<PlanStep>>,
) -> (r: Option<Ghost<Seq<PlanStep>>>)
    requires
        old(transaction)@ == replay(steps),
    ensures
        match r {
            Some(next) => {
                &&& final(transaction)@ == replay(next@)
                &&& fetch_total(next@) <= u64::MAX
                &&& next@ == (match upgrade_step(repos@.repos, installed@, old_size) {
                    Some(step) => steps.push(step),
                    None => steps,
                })
            },
            None => upgrade_step(repos@.repos, installed@, old_size) matches Some(step)
                && fetch_total(steps.push(step)) > u64::MAX,
        },
{
    proof {
        crate::engine::transaction::download_size_is_fetch_total(steps);
    }
    match repos.get_package_info(installed.name.as_str()) {
        Ok(available) => {
            if version_compare(available.version.as_str(), installed.version.as_str()) > 0 {
                let old_spec = PackageSpec::new(
                    installed.name.clone(),
                    installed.version.clone(),
                    installed.arch.clone(),
                    String::from_str("@System"),
                );
                let new_spec = spec_of(&available);
                let ghost step = PlanStep::Upgrade {
                    old: old_spec@,
                    new: new_spec@,
                    old_size,
                    new_size: available.size,
                };
                proof {
                    assert(steps.push(step).drop_last() == steps);
                    assert(fetch_total(steps.push(step)) == transaction.download_size
                        + available.size);
                }
                if !transaction.can_fetch(available.size) {
                    return None;
                }
                transaction.add_upgrade(old_spec, new_spec, old_size, available.size);
                Some(Ghost(steps.push(step)))
            } else {
                Some(Ghost(steps))
            }
        },
        Err(_) => Some(Ghost(steps)),
    }
}

/// Plans the upgrade of every installed package of which the catalog offers
/// a strictly newer version. There is no result when the bytes to fetch
/// leave `u64` on the way.
pub fn try_resolve_upgrade(repos: &RepositoryManager, rpm_db: &RpmDatabase) -> (r: Option<
    Result<Transaction, RatpmError>,
>)
    ensures
        r is Some <==> upgrade_fits(repos@.repos, rpm_db@),
        r matches Some(plan) ==> plan matches Ok(t) && t@ == replay(
            upgrade_steps(repos@.repos, rpm_db@, rpm_db@.packages.len() as int),
        ),
{
    let ghost catalog = repos@.repos;
    let ghost db = rpm_db@;
    let mut transaction = Transaction::new();
    let installed = match rpm_db.list_all() {
        Ok(list) => list,
        Err(e) => {
            return Some(Err(e));
        },
    };
    let ghost mut steps: Seq<PlanStep> = Seq::empty();
    let mut i: usize = 0;
    assert(installed@.len() == db.packages.len()) by {
        assert(crate::backend::fedora::listing::package_views(installed@).len() == db.listing().len());
    }
    while i < installed.len()
        invariant
            i <= installed.len(),
            catalog == repos@.repos,
            db == rpm_db@,
            installed@.len() == db.packages.len(),
            crate::backend::fedora::listing::package_views(installed@) == db.listing(),
            steps == upgrade_steps(catalog, db, i as int),
            transaction@ == replay(steps),
            forall|k: int|
                0 <= k <= i ==> fetch_total(#[trigger] upgrade_steps(catalog, db, k)) <= u64::MAX,
        decreases installed.len() - i,
    {
        let pkg = &installed[i];
        proof {
            assert(crate::backend::fedora::listing::package_views(installed@)[i as int] == pkg@);
            assert(db.listing()[i as int] == db.packages[i as int].listing());
        }
        let old_size = match rpm_db.get_package_info(pkg.name.as_str()) {
            Ok(info) => info.size,
            Err(_) => 0,
        };
        let spec = PackageSpec::new(
            pkg.name.clone(),
            pkg.version.clone(),
            pkg.arch.clone(),
            String::from_str("@System"),
        );
        proof {
            assert(spec@ == installed_spec(db.packages[i as int]));
            assert(old_size == recorded_size(db, db.packages[i as int].name));
        }
        match stage_upgrade(&mut transaction, repos, &spec, old_size, Ghost(steps)) {
            Some(next) => {
                proof {
                    steps = next@;
                }
            },
            None => {
                proof {
                    assert(fetch_total(upgrade_steps(catalog, db, i + 1)) > u64::MAX);
                }
                return None;
            },
        }
        i += 1;
    }
    Some(Ok(transaction))
}

/// Plans the upgrade of every installed package of which the catalog offers
/// a strictly newer version.
pub fn resolve_upgrade(repos: &RepositoryManager, rpm_db: &RpmDatabase) -> (r: Result<
    Transaction,
    RatpmError,
>)
    requires
        upgrade_fits(repos@.repos, rpm_db@),
    ensures
        r matches Ok(t) && t@ == replay(
            upgrade_steps(repos@.repos, rpm_db@, rpm_db@.packages.len() as int),
        ),
{
    try_resolve_upgrade(repos, rpm_db).unwrap()
}

/// Plans the upgrade of those of the named packages of which the catalog
/// offers a strictly newer version. The plan may be empty. There is no
/// result when the bytes to fetch leave `u64` on the way.
pub fn try_resolve_upgrade_packages(
    repos: &RepositoryManager,
    rpm_db: &RpmDatabase,
    packages: &[String],
) -> (r: Option<Result<Transaction, RatpmError>>)
    ensures
        r is Some <==> named_upgrade_fits(repos@.repos, rpm_db@, string_texts(packages@)),
        r matches Some(plan) ==> planned(
            plan,
            named_upgrade_steps(repos@.repos, rpm_db@, string_texts(packages@)),
        ),
{
    let ghost names = string_texts(packages@);
    let ghost catalog = repos@.repos;
    let ghost db = rpm_db@;
    let mut transaction = Transaction::new();
    let ghost mut steps: Seq<PlanStep> = Seq::empty();
    let mut i: usize = 0;
    proof {
        assert(names.take(0) =~= Seq::empty());
    }
    while i < packages.len()
        invariant
            i <= packages.len(),
            names == string_texts(packages@),
            catalog == repos@.repos,
            db == rpm_db@,
            named_upgrade_steps(catalog, db, names.take(i as int)) == Ok::<
                Seq<PlanStep>,
                ErrorView,
            >(steps),
            transaction@ == replay(steps),
            fetch_total(steps) <= u64::MAX,
            forall|k: int|
                0 <= k <= i ==> (#[trigger] named_upgrade_steps(catalog, db, names.take(k))
                    matches Ok(planned) ==> fetch_total(planned) <= u64::MAX),
        decreases packages.len() - i,
    {
        proof {
            assert(names.take(i + 1).drop_last() == names.take(i as int));
            assert(names.take(i + 1).last() == packages@[i as int]@);
        }
        let name = packages[i].as_str();
        let info = match rpm_db.get_package_info(name) {
            Ok(info) => info,
            Err(_) => {
                proof {
                    lemma_named_upgrade_error(catalog, db, names, i + 1);
                    assert forall|k: int| 0 <= k <= names.len() implies (
                    #[trigger] named_upgrade_steps(catalog, db, names.take(k)) matches Ok(
                        planned,
                    ) ==> fetch_total(planned) <= u64::MAX) by {
                        if k > i {
                            assert(names.take(k).take(i + 1) == names.take(i + 1));
                            lemma_named_upgrade_error(catalog, db, names.take(k), i + 1);
                        }
                    }
                }
                return Some(Err(RatpmError::PackageNotInstalled(packages[i].clone())));
            },
        };
        let spec = spec_of(&info);
        proof {
            assert(spec@ == installed_spec(info@));
            assert(named_upgrade_steps(catalog, db, names.take(i + 1)) is Ok);
        }
        if !holds_upgrade(&transaction.upgrade, &spec) {
            match stage_upgrade(&mut transaction, repos, &spec, info.size, Ghost(steps)) {
                Some(next) => {
                    proof {
                        steps = next@;
                    }
                },
                None => {
                    proof {
                        let over = named_upgrade_steps(catalog, db, names.take(i + 1))->Ok_0;
                        assert(fetch_total(over) > u64::MAX);
                    }
                    return None;
                },
            }
        }
        i += 1;
    }
    proof {
        assert(names.take(packages.len() as int) == names);
    }
    Some(Ok(transaction))
}

/// Plans the upgrade of those of the named packages of which the catalog
/// offers a strictly newer version. The plan may be empty.
pub fn resolve_upgrade_packages(
    repos: &RepositoryManager,
    rpm_db: &RpmDatabase,
    packages: &[String],
) -> (r: Result<Transaction, RatpmError>)
    requires
        named_upgrade_fits(repos@.repos, rpm_db@, string_texts(packages@)),
    ensures
        planned(r, named_upgrade_steps(repos@.repos, rpm_db@, string_texts(packages@))),
{
    try_resolve_upgrade_packages(repos, rpm_db, packages).unwrap()
}

} // verus!
