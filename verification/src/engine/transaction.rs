//! The plan that the executor consumes, with its size accounting, and the
//! observable progress of an execution.

use vstd::prelude::*;
use crate::backend::fedora::types::{system_origin, PackageSpec, PackageSpecView};

verus! {

/// The identities held by a sequence of package specs.
pub open spec fn spec_views(v: Seq<PackageSpec>) -> Seq<PackageSpecView> {
    Seq::new(v.len(), |i: int| v[i]@)
}

/// The identity pairs held by a sequence of upgrade entries.
pub open spec fn pair_views(v: Seq<(PackageSpec, PackageSpec)>) -> Seq<
    (PackageSpecView, PackageSpecView),
> {
    Seq::new(v.len(), |i: int| (v[i].0@, v[i].1@))
}

/// A resolved plan: what to install, remove and upgrade, how many bytes to
/// fetch and the net change of disk usage.
#[derive(Debug)]
pub struct Transaction {
    pub install: Vec<PackageSpec>,
    pub remove: Vec<PackageSpec>,
    pub upgrade: Vec<(PackageSpec, PackageSpec)>,
    pub download_size: u64,
    pub install_size: i64,
}

/// The mathematical content of a [`Transaction`].
pub struct TransactionView {
    pub install: Seq<PackageSpecView>,
    pub remove: Seq<PackageSpecView>,
    pub upgrade: Seq<(PackageSpecView, PackageSpecView)>,
    pub download_size: int,
    pub install_size: int,
}

impl TransactionView {
    /// The plan that holds nothing.
    pub open spec fn empty() -> TransactionView {
        TransactionView {
            install: Seq::empty(),
            remove: Seq::empty(),
            upgrade: Seq::empty(),
            download_size: 0,
            install_size: 0,
        }
    }

    /// Whether all three buckets are empty.
    pub open spec fn is_empty(self) -> bool {
        self.install.len() == 0 && self.remove.len() == 0 && self.upgrade.len() == 0
    }

    /// The number of entries over all three buckets.
    pub open spec fn total_packages(self) -> nat {
        self.install.len() + self.remove.len() + self.upgrade.len()
    }

    /// The names of the packages of the plan: of those to install, of those
    /// to remove and of those to upgrade.
    pub open spec fn names(self) -> Seq<Seq<char>> {
        Seq::new(self.install.len(), |i: int| self.install[i].name) + Seq::new(
            self.remove.len(),
            |i: int| self.remove[i].name,
        ) + Seq::new(self.upgrade.len(), |i: int| self.upgrade[i].0.name)
    }

    /// Whether every package to install comes from a repository.
    pub open spec fn installs_from_repositories(self) -> bool {
        forall|i: int| 0 <= i < self.install.len() ==> (#[trigger] self.install[i]).repo
            != system_origin()
    }

    /// Whether every package to remove is an installed one.
    pub open spec fn removes_installed(self) -> bool {
        forall|i: int| 0 <= i < self.remove.len() ==> (#[trigger] self.remove[i]).repo
            == system_origin()
    }

    /// Whether every upgrade replaces an installed package by a package of
    /// the same name from a repository.
    pub open spec fn upgrades_in_place(self) -> bool {
        forall|i: int|
            0 <= i < self.upgrade.len() ==> {
                &&& (#[trigger] self.upgrade[i]).0.name == self.upgrade[i].1.name
                &&& self.upgrade[i].0.repo == system_origin()
                &&& self.upgrade[i].1.repo != system_origin()
            }
    }

    /// Whether the plan is in order: installs come from repositories,
    /// removals are of installed packages, upgrades keep the name, and no
    /// name stands twice in the plan, neither within a bucket nor across
    /// buckets.
    pub open spec fn well_formed(self) -> bool {
        &&& self.installs_from_repositories()
        &&& self.removes_installed()
        &&& self.upgrades_in_place()
        &&& self.names().no_duplicates()
    }
}

impl View for Transaction {
    type V = TransactionView;

    open spec fn view(&self) -> TransactionView {
        TransactionView {
            install: spec_views(self.install@),
            remove: spec_views(self.remove@),
            upgrade: pair_views(self.upgrade@),
            download_size: self.download_size as int,
            install_size: self.install_size as int,
        }
    }
}

/// One addition to a plan, with the byte sizes that it was made with.
pub enum PlanStep {
    Install { package: PackageSpecView, size: u64 },
    Remove { package: PackageSpecView, size: u64 },
    Upgrade { old: PackageSpecView, new: PackageSpecView, old_size: u64, new_size: u64 },
}

/// A byte size as a signed quantity, capped at the largest `i64`.
pub open spec fn capped(size: u64) -> int {
    if size > i64::MAX {
        i64::MAX as int
    } else {
        size as int
    }
}

/// `x` brought back into the range of `i64`.
pub open spec fn saturated(x: int) -> int {
    if x > i64::MAX {
        i64::MAX as int
    } else if x < i64::MIN {
        i64::MIN as int
    } else {
        x
    }
}

/// The bytes that one step adds to the download.
pub open spec fn fetch_of(step: PlanStep) -> nat {
    match step {
        PlanStep::Install { size, .. } => size as nat,
        PlanStep::Remove { .. } => 0,
        PlanStep::Upgrade { new_size, .. } => new_size as nat,
    }
}

/// The disk usage after one step, starting from `before`: installs add,
/// removals subtract, upgrades add the new size and then subtract the old one,
/// each operation saturating.
pub open spec fn disk_after(before: int, step: PlanStep) -> int {
    match step {
        PlanStep::Install { size, .. } => saturated(before + capped(size)),
        PlanStep::Remove { size, .. } => saturated(before - capped(size)),
        PlanStep::Upgrade { old_size, new_size, .. } => saturated(
            saturated(before + capped(new_size)) - capped(old_size),
        ),
    }
}

/// The exact change of disk usage that one step asks for.
pub open spec fn disk_change_of(step: PlanStep) -> int {
    match step {
        PlanStep::Install { size, .. } => capped(size),
        PlanStep::Remove { size, .. } => -capped(size),
        PlanStep::Upgrade { old_size, new_size, .. } => capped(new_size) - capped(old_size),
    }
}

/// The plan after one more step.
pub open spec fn apply_step(t: TransactionView, step: PlanStep) -> TransactionView {
    match step {
        PlanStep::Install { package, size } => TransactionView {
            install: t.install.push(package),
            download_size: t.download_size + size,
            install_size: disk_after(t.install_size, step),
            ..t
        },
        PlanStep::Remove { package, size } => TransactionView {
            remove: t.remove.push(package),
            install_size: disk_after(t.install_size, step),
            ..t
        },
        PlanStep::Upgrade { old, new, old_size, new_size } => TransactionView {
            upgrade: t.upgrade.push((old, new)),
            download_size: t.download_size + new_size,
            install_size: disk_after(t.install_size, step),
            ..t
        },
    }
}

/// The plan that a sequence of steps builds from the empty plan.
pub open spec fn replay(steps: Seq<PlanStep>) -> TransactionView
    decreases steps.len(),
{
    if steps.len() == 0 {
        TransactionView::empty()
    } else {
        apply_step(replay(steps.drop_last()), steps.last())
    }
}

/// The sum of the bytes to fetch over all steps.
pub open spec fn fetch_total(steps: Seq<PlanStep>) -> nat
    decreases steps.len(),
{
    if steps.len() == 0 {
        0
    } else {
        fetch_total(steps.drop_last()) + fetch_of(steps.last())
    }
}

/// The exact signed sum of the disk changes over all steps.
pub open spec fn net_change(steps: Seq<PlanStep>) -> int
    decreases steps.len(),
{
    if steps.len() == 0 {
        0
    } else {
        net_change(steps.drop_last()) + disk_change_of(steps.last())
    }
}

/// Whether the running disk usage stays within `i64` at every operation of
/// every step.
pub open spec fn never_saturates(steps: Seq<PlanStep>) -> bool
    decreases steps.len(),
{
    if steps.len() == 0 {
        true
    } else {
        let before = net_change(steps.drop_last());
        &&& never_saturates(steps.drop_last())
        &&& i64::MIN <= before + disk_change_of(steps.last()) <= i64::MAX
        &&& steps.last() matches PlanStep::Upgrade { new_size, .. } ==> before + capped(new_size)
            <= i64::MAX
    }
}

/// The download size of a plan is the sum of the sizes of its installs and of
/// the new side of its upgrades.
pub proof fn download_size_is_fetch_total(steps: Seq<PlanStep>)
    ensures
        replay(steps).download_size == fetch_total(steps),
    decreases steps.len(),
{
    if steps.len() > 0 {
        download_size_is_fetch_total(steps.drop_last());
    }
}

/// The install size of a plan always lies within `i64`, and it is the exact
/// signed sum of its steps whenever no operation on the way leaves that range.
pub proof fn install_size_is_saturating_sum(steps: Seq<PlanStep>)
    ensures
        i64::MIN <= replay(steps).install_size <= i64::MAX,
        never_saturates(steps) ==> replay(steps).install_size == net_change(steps),
    decreases steps.len(),
{
    if steps.len() > 0 {
        install_size_is_saturating_sum(steps.drop_last());
    }
}

/// The buckets of a replayed plan hold the packages of its steps in order, so
/// its number of packages is the number of steps.
pub proof fn replay_counts_steps(steps: Seq<PlanStep>)
    ensures
        replay(steps).total_packages() == steps.len(),
    decreases steps.len(),
{
    if steps.len() > 0 {
        replay_counts_steps(steps.drop_last());
    }
}

/// A plan is empty exactly when it holds no package.
pub proof fn empty_iff_no_packages(t: TransactionView)
    ensures
        t.is_empty() <==> t.total_packages() == 0,
{
}

fn saturating_add(a: i64, b: i64) -> (r: i64)
    ensures
        r == saturated(a + b),
{
    match a.checked_add(b) {
        Some(v) => v,
        None => if b > 0 {
            i64::MAX
        } else {
            i64::MIN
        },
    }
}

fn saturating_sub(a: i64, b: i64) -> (r: i64)
    ensures
        r == saturated(a - b),
{
    match a.checked_sub(b) {
        Some(v) => v,
        None => if b > 0 {
            i64::MIN
        } else {
            i64::MAX
        },
    }
}

fn cap(size: u64) -> (r: i64)
    ensures
        r == capped(size),
{
    if size > 9223372036854775807u64 {
        i64::MAX
    } else {
        size as i64
    }
}

impl Transaction {
    /// The empty plan.
    pub fn new() -> (r: Self)
        ensures
            r@ == TransactionView::empty(),
    {
        let r = Self {
            install: Vec::new(),
            remove: Vec::new(),
            upgrade: Vec::new(),
            download_size: 0,
            install_size: 0,
        };
        assert(r@.install =~= Seq::empty());
        assert(r@.remove =~= Seq::empty());
        assert(r@.upgrade =~= Seq::empty());
        r
    }

    /// Whether the plan holds no package.
    pub fn is_empty(&self) -> (r: bool)
        ensures
            r == self@.is_empty(),
    {
        self.install.is_empty() && self.remove.is_empty() && self.upgrade.is_empty()
    }

    /// The number of packages over all three buckets.
    pub fn total_packages(&self) -> (r: usize)
        requires
            self@.total_packages() <= usize::MAX,
        ensures
            r == self@.total_packages(),
    {
        self.install.len() + self.remove.len() + self.upgrade.len()
    }

    /// Whether one more fetch of `size` bytes keeps the download size within `u64`.
    pub fn can_fetch(&self, size: u64) -> (r: bool)
        ensures
            r == (self.download_size + size <= u64::MAX),
    {
        size <= u64::MAX - self.download_size
    }

    /// Plans the installation of `package`, whose artifact has `size` bytes.
    pub fn add_install(&mut self, package: PackageSpec, size: u64)
        requires
            old(self).download_size + size <= u64::MAX,
        ensures
            final(self)@ == apply_step(old(self)@, PlanStep::Install { package: package@, size }),
    {
        self.download_size += size;
        self.install_size = saturating_add(self.install_size, cap(size));
        self.install.push(package);
        assert(final(self)@.install =~= old(self)@.install.push(package@));
    }

    /// Plans the removal of `package`, which occupies `size` bytes.
    pub fn add_remove(&mut self, package: PackageSpec, size: u64)
        ensures
            final(self)@ == apply_step(old(self)@, PlanStep::Remove { package: package@, size }),
    {
        self.install_size = saturating_sub(self.install_size, cap(size));
        self.remove.push(package);
        assert(final(self)@.remove =~= old(self)@.remove.push(package@));
    }

    /// Plans the replacement of `previous` (`old_size` bytes on disk) by
    /// `next` (`new_size` bytes to fetch and on disk).
    pub fn add_upgrade(
        &mut self,
        previous: PackageSpec,
        next: PackageSpec,
        old_size: u64,
        new_size: u64,
    )
        requires
            old(self).download_size + new_size <= u64::MAX,
        ensures
            final(self)@ == apply_step(
                old(self)@,
                PlanStep::Upgrade { old: previous@, new: next@, old_size, new_size },
            ),
    {
        self.download_size += new_size;
        let grown = saturating_add(self.install_size, cap(new_size));
        self.install_size = saturating_sub(grown, cap(old_size));
        self.upgrade.push((previous, next));
        assert(final(self)@.upgrade =~= old(self)@.upgrade.push((previous@, next@)));
    }
}

impl Default for Transaction {
    fn default() -> (r: Self)
        ensures
            r@ == TransactionView::empty(),
    {
        Self::new()
    }
}

/// Copies a list of package identities.
pub fn clone_specs(v: &Vec<PackageSpec>) -> (r: Vec<PackageSpec>)
    ensures
        spec_views(r@) == spec_views(v@),
{
    let mut r: Vec<PackageSpec> = Vec::new();
    let mut i: usize = 0;
    while i < v.len()
        invariant
            i <= v.len(),
            r.len() == i,
            forall|j: int| 0 <= j < i ==> r@[j]@ == v@[j]@,
        decreases v.len() - i,
    {
        r.push(v[i].clone());
        i += 1;
    }
    assert(spec_views(r@) =~= spec_views(v@));
    r
}

impl Clone for Transaction {
    fn clone(&self) -> (r: Self)
        ensures
            r@ == self@,
    {
        let mut upgrade: Vec<(PackageSpec, PackageSpec)> = Vec::new();
        let mut k: usize = 0;
        while k < self.upgrade.len()
            invariant
                k <= self.upgrade.len(),
                upgrade.len() == k,
                forall|j: int|
                    0 <= j < k ==> upgrade@[j].0@ == self.upgrade@[j].0@ && upgrade@[j].1@
                        == self.upgrade@[j].1@,
            decreases self.upgrade.len() - k,
        {
            upgrade.push((self.upgrade[k].0.clone(), self.upgrade[k].1.clone()));
            k += 1;
        }
        assert(pair_views(upgrade@) =~= pair_views(self.upgrade@));
        Self {
            install: clone_specs(&self.install),
            remove: clone_specs(&self.remove),
            upgrade,
            download_size: self.download_size,
            install_size: self.install_size,
        }
    }
}

/// The stage that an execution has reached.
#[derive(Debug, Clone, Copy, PartialEq, Eq, Structural)]
pub enum TransactionState {
    Pending,
    Resolving,
    Downloading,
    Verifying,
    Testing,
    Executing,
    Complete,
    Failed,
    Cancelled,
}

/// The observable state of an execution.
pub struct TransactionProgress {
    pub state: TransactionState,
    pub current_package: Option<String>,
    pub packages_processed: usize,
    pub total_packages: usize,
    pub bytes_downloaded: u64,
    pub total_bytes: u64,
}

/// The share of `processed` in `total` as a whole percentage, rounded down;
/// zero when `total` is zero.
pub open spec fn percentage_of(processed: nat, total: nat) -> nat {
    if total == 0 {
        0
    } else {
        (processed * 100) / total
    }
}

/// A percentage lies between 0 and 100 as long as no more has been processed
/// than there is in total, and it is 0 when there is nothing in total.
pub proof fn percentage_is_bounded(processed: nat, total: nat)
    requires
        processed <= total,
    ensures
        0 <= percentage_of(processed, total) <= 100,
        total == 0 ==> percentage_of(processed, total) == 0,
{
    if total > 0 {
        assert((processed * 100) / total <= 100) by (nonlinear_arith)
            requires
                processed <= total,
                total > 0,
        ;
    }
}

impl TransactionProgress {
    /// The progress of an execution that has not started.
    pub fn new(total_packages: usize, total_bytes: u64) -> (r: Self)
        ensures
            r.state == TransactionState::Pending,
            r.current_package is None,
            r.packages_processed == 0,
            r.total_packages == total_packages,
            r.bytes_downloaded == 0,
            r.total_bytes == total_bytes,
    {
        Self {
            state: TransactionState::Pending,
            current_package: None,
            packages_processed: 0,
            total_packages,
            bytes_downloaded: 0,
            total_bytes,
        }
    }

    /// The share of processed packages as a whole percentage, rounded down.
    pub fn percentage(&self) -> (r: u128)
        ensures
            r == percentage_of(self.packages_processed as nat, self.total_packages as nat),
    {
        if self.total_packages == 0 {
            return 0;
        }
        let processed: u128 = self.packages_processed as u128;
        let total: u128 = self.total_packages as u128;
        (processed * 100) / total
    }
}

} // verus!
