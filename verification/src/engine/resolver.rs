//! The resolver interface and the dependency graph that orders a plan.

use vstd::prelude::*;
use vstd::string::StringExecFns;
use crate::backend::fedora::types::{PackageSpec, PackageSpecView};
use crate::engine::errors::RatpmError;
use crate::engine::transaction::{spec_views, Transaction};
use crate::text::string_texts;

verus! {

/// Turns a user request into a plan.
pub trait Resolver {
    /// Plans the installation of the named packages.
    fn resolve_install(&self, packages: &[String]) -> Result<Transaction, RatpmError>;

    /// Plans the removal of the named packages.
    fn resolve_remove(&self, packages: &[String]) -> Result<Transaction, RatpmError>;

    /// Plans the upgrade of every installed package that has a newer version.
    fn resolve_upgrade(&self) -> Result<Transaction, RatpmError>;

    /// Plans the upgrade of the named packages that have a newer version.
    fn resolve_upgrade_packages(&self, packages: &[String]) -> Result<Transaction, RatpmError>;
}

/// Why a graph has no dependency order.
#[derive(Debug, Clone, Copy, PartialEq, Eq, Structural)]
pub enum GraphError {
    CircularDependency,
}

impl GraphError {
    /// The message shown to the user for this error.
    pub fn to_string(&self) -> (s: String)
        ensures
            s@ == "Circular dependency detected"@,
    {
        String::from_str("Circular dependency detected")
    }
}

struct GraphNode {
    package: PackageSpec,
    dependencies: Vec<usize>,
    dependents: Vec<usize>,
}

/// Packages and the "depends on" edges between them, stored by index.
pub struct DependencyGraph {
    nodes: Vec<GraphNode>,
}

/// The mathematical content of a [`DependencyGraph`]: the package of each
/// node and, for each node, the nodes it depends on and the nodes that
/// depend on it, each in the order they were added.
pub struct GraphView {
    pub packages: Seq<PackageSpecView>,
    pub dependencies: Seq<Seq<int>>,
    pub dependents: Seq<Seq<int>>,
}

impl GraphView {
    /// The number of nodes.
    pub open spec fn len(self) -> nat {
        self.packages.len()
    }

    /// Whether every edge joins two nodes of the graph.
    pub open spec fn well_formed(self) -> bool {
        &&& self.dependencies.len() == self.packages.len()
        &&& self.dependents.len() == self.packages.len()
        &&& forall|u: int, j: int|
            0 <= u < self.len() && 0 <= j < self.dependencies[u].len() ==> 0 <= (
            #[trigger] self.dependencies[u][j]) < self.len()
        &&& forall|u: int, j: int|
            0 <= u < self.len() && 0 <= j < self.dependents[u].len() ==> 0 <= (
            #[trigger] self.dependents[u][j]) < self.len()
    }

    /// Whether node `u` can come next once the nodes of `placed` are out:
    /// it is not out yet and everything it depends on is.
    pub open spec fn ready(self, placed: Seq<int>, u: int) -> bool {
        &&& 0 <= u < self.len()
        &&& !placed.contains(u)
        &&& forall|j: int|
            0 <= j < self.dependencies[u].len() ==> placed.contains(
                #[trigger] self.dependencies[u][j],
            )
    }

    /// The first node at or after `from` that is ready, or the number of
    /// nodes when there is none.
    pub open spec fn first_ready(self, placed: Seq<int>, from: int) -> int
        decreases self.len() - from,
    {
        if from >= self.len() {
            self.len() as int
        } else if self.ready(placed, from) {
            from
        } else {
            self.first_ready(placed, from + 1)
        }
    }

    /// `placed`, extended for as long as some node is ready, always by the
    /// ready node that was added to the graph first.
    pub open spec fn extend(self, placed: Seq<int>) -> Seq<int>
        decreases self.len() - placed.len(),
    {
        let u = self.first_ready(placed, 0);
        if placed.len() >= self.len() || u >= self.len() {
            placed
        } else {
            self.extend(placed.push(u))
        }
    }

    /// The order in which Kahn's algorithm puts the nodes out when ties go to
    /// the node added first. It holds every node exactly when the graph has no
    /// cycle.
    pub open spec fn kahn_order(self) -> Seq<int> {
        self.extend(Seq::empty())
    }

    /// Whether every node of `order` comes after all the nodes it depends on,
    /// and no node comes twice.
    pub open spec fn respects_dependencies(self, order: Seq<int>) -> bool {
        forall|k: int| 0 <= k < order.len() ==> self.ready(order.take(k), #[trigger] order[k])
    }

    /// Whether every node of the graph stands in `order`.
    pub open spec fn covers_all(self, order: Seq<int>) -> bool {
        forall|u: int| 0 <= u < self.len() ==> #[trigger] order.contains(u)
    }

    /// Whether the nodes of the graph can be put in an order in which each
    /// comes after all the nodes it depends on, which is to say that the
    /// graph has no dependency cycle.
    pub open spec fn schedulable(self) -> bool {
        exists|order: Seq<int>| #[trigger]
            self.respects_dependencies(order) && self.covers_all(order)
    }

    /// Whether nodes `a` and `b` hold the same package name in different versions.
    pub open spec fn in_conflict(self, a: int, b: int) -> bool {
        self.packages[a].name == self.packages[b].name && self.packages[a].version
            != self.packages[b].version
    }
}

/// The message that reports two versions of one package.
pub open spec fn conflict_message(a: PackageSpecView, b: PackageSpecView) -> Seq<char> {
    "Version conflict: "@ + a.name + " ("@ + a.version + " vs "@ + b.version + ")"@
}

/// The conflicts of node `i` with the nodes `from..`, in index order.
pub open spec fn conflicts_of(g: GraphView, i: int, from: int) -> Seq<Seq<char>>
    decreases g.len() - from,
{
    if from >= g.len() {
        Seq::empty()
    } else if g.in_conflict(i, from) {
        seq![conflict_message(g.packages[i], g.packages[from])] + conflicts_of(g, i, from + 1)
    } else {
        conflicts_of(g, i, from + 1)
    }
}

/// The conflicts between all pairs of nodes `(i, j)` with `from <= i < j`, by
/// `i` and then by `j`.
pub open spec fn conflicts_from(g: GraphView, from: int) -> Seq<Seq<char>>
    decreases g.len() - from,
{
    if from >= g.len() {
        Seq::empty()
    } else {
        conflicts_of(g, from, from + 1) + conflicts_from(g, from + 1)
    }
}

/// `first_ready` is a ready node, or the number of nodes, and no node between
/// `from` and it is ready.
pub proof fn lemma_first_ready(g: GraphView, placed: Seq<int>, from: int)
    requires
        0 <= from,
    ensures
        from <= g.first_ready(placed, from) || g.first_ready(placed, from) == g.len(),
        g.first_ready(placed, from) <= g.len(),
        g.first_ready(placed, from) < g.len() ==> g.ready(placed, g.first_ready(placed, from)),
        forall|u: int| from <= u < g.first_ready(placed, from) ==> !g.ready(placed, u),
    decreases g.len() - from,
{
    if from < g.len() && !g.ready(placed, from) {
        lemma_first_ready(g, placed, from + 1);
    }
}

/// Extending an order that respects the dependencies gives one that does.
pub proof fn lemma_extend_respects(g: GraphView, placed: Seq<int>)
    requires
        g.respects_dependencies(placed),
    ensures
        g.respects_dependencies(g.extend(placed)),
        placed.len() <= g.extend(placed).len(),
        g.extend(placed).take(placed.len() as int) == placed,
    decreases g.len() - placed.len(),
{
    let u = g.first_ready(placed, 0);
    lemma_first_ready(g, placed, 0);
    if placed.len() >= g.len() || u >= g.len() {
        assert(placed.take(placed.len() as int) == placed);
    } else {
        let next = placed.push(u);
        assert forall|k: int| 0 <= k < next.len() implies g.ready(next.take(k), #[trigger] next[k]) by {
            if k < placed.len() {
                assert(next.take(k) == placed.take(k));
            } else {
                assert(next.take(k) == placed);
            }
        }
        lemma_extend_respects(g, next);
        assert(g.extend(placed).take(placed.len() as int) == g.extend(placed).take(
            next.len() as int,
        ).take(placed.len() as int));
        assert(next.take(placed.len() as int) == placed);
    }
}

/// In the order that the graph puts its nodes out, every node comes after
/// each node it depends on, and no node comes twice.
pub proof fn order_puts_dependencies_first(g: GraphView, k: int, j: int)
    requires
        0 <= k < g.kahn_order().len(),
        0 <= j < g.dependencies[g.kahn_order()[k]].len(),
    ensures
        exists|p: int| 0 <= p < k && g.kahn_order()[p] == g.dependencies[g.kahn_order()[k]][j],
        forall|p: int| 0 <= p < k ==> g.kahn_order()[p] != g.kahn_order()[k],
{
    let order = g.kahn_order();
    assert(g.respects_dependencies(Seq::<int>::empty()));
    lemma_extend_respects(g, Seq::empty());
    assert(g.ready(order.take(k), order[k]));
    let d = g.dependencies[order[k]][j];
    assert(order.take(k).contains(d));
    let p = choose|p: int| 0 <= p < order.take(k).len() && order.take(k)[p] == d;
    assert(order[p] == d);
    assert forall|p: int| 0 <= p < k implies order[p] != order[k] by {
        if order[p] == order[k] {
            assert(order.take(k)[p] == order[k]);
            assert(order.take(k).contains(order[k]));
        }
    }
}

/// The extension of an order ends when it holds as many nodes as the graph
/// has or when no node is ready.
proof fn lemma_extend_stops(g: GraphView, placed: Seq<int>)
    ensures
        g.extend(placed).len() >= g.len() || g.first_ready(g.extend(placed), 0) >= g.len(),
    decreases g.len() - placed.len(),
{
    let u = g.first_ready(placed, 0);
    if !(placed.len() >= g.len() || u >= g.len()) {
        lemma_extend_stops(g, placed.push(u));
    }
}

/// An order that respects the dependencies holds nodes of the graph, each once.
proof fn lemma_respecting_is_distinct(g: GraphView, order: Seq<int>)
    requires
        g.respects_dependencies(order),
    ensures
        order.no_duplicates(),
        forall|k: int| 0 <= k < order.len() ==> 0 <= #[trigger] order[k] < g.len(),
{
    assert forall|i: int, j: int| 0 <= i < order.len() && 0 <= j < order.len() && i != j implies order[i]
        != order[j] by {
        let (a, b) = if i < j {
            (i, j)
        } else {
            (j, i)
        };
        assert(g.ready(order.take(b), order[b]));
        if order[a] == order[b] {
            assert(order.take(b)[a] == order[b]);
            assert(order.take(b).contains(order[b]));
        }
    }
    assert forall|k: int| 0 <= k < order.len() implies 0 <= #[trigger] order[k] < g.len() by {
        assert(g.ready(order.take(k), order[k]));
    }
}

/// An order that respects the dependencies and has as many nodes as the
/// graph holds them all.
proof fn lemma_full_order_covers(g: GraphView, order: Seq<int>)
    requires
        g.respects_dependencies(order),
        order.len() == g.len(),
    ensures
        g.covers_all(order),
{
    lemma_respecting_is_distinct(g, order);
    let range = vstd::set_lib::set_int_range(0, g.len() as int);
    vstd::set_lib::lemma_int_range(0, g.len() as int);
    order.unique_seq_to_set();
    vstd::seq_lib::seq_to_set_is_finite(order);
    assert(order.to_set().subset_of(range)) by {
        assert forall|u: int| order.to_set().contains(u) implies range.contains(u) by {
            let k = choose|k: int| 0 <= k < order.len() && order[k] == u;
            assert(0 <= order[k] < g.len());
        }
    }
    vstd::set_lib::lemma_subset_equality(order.to_set(), range);
    assert forall|u: int| 0 <= u < g.len() implies #[trigger] order.contains(u) by {
        assert(range.contains(u));
        assert(order.to_set().contains(u));
    }
}

/// An order that holds every node has at least as many entries as the graph
/// has nodes.
proof fn lemma_covering_is_long(g: GraphView, order: Seq<int>)
    requires
        g.covers_all(order),
    ensures
        order.len() >= g.len(),
{
    let range = vstd::set_lib::set_int_range(0, g.len() as int);
    vstd::set_lib::lemma_int_range(0, g.len() as int);
    vstd::seq_lib::seq_to_set_is_finite(order);
    assert(range.subset_of(order.to_set())) by {
        assert forall|u: int| range.contains(u) implies order.to_set().contains(u) by {
            assert(order.contains(u));
        }
    }
    vstd::set_lib::lemma_len_subset(range, order.to_set());
    order.lemma_cardinality_of_set();
}

/// When no node is ready after `placed`, every node of an order that
/// respects the dependencies is among `placed`.
proof fn lemma_schedule_is_placed(g: GraphView, placed: Seq<int>, order: Seq<int>, p: int)
    requires
        g.respects_dependencies(order),
        0 <= p <= order.len(),
        forall|u: int| 0 <= u < g.len() ==> !g.ready(placed, u),
    ensures
        forall|q: int| 0 <= q < p ==> placed.contains(#[trigger] order[q]),
    decreases p,
{
    if p > 0 {
        lemma_schedule_is_placed(g, placed, order, p - 1);
        let v = order[p - 1];
        assert(g.ready(order.take(p - 1), v));
        if !placed.contains(v) {
            assert forall|j: int| 0 <= j < g.dependencies[v].len() implies placed.contains(
                #[trigger] g.dependencies[v][j],
            ) by {
                let d = g.dependencies[v][j];
                let before = order.take(p - 1);
                assert(before.contains(d));
                let q = choose|q: int| 0 <= q < before.len() && before[q] == d;
                assert(order[q] == d);
            }
            assert(g.ready(placed, v));
        }
    }
}

/// The order in which the graph puts its nodes out holds every node exactly
/// when the graph has no dependency cycle: when the nodes can be put in some
/// order in which each comes after all the nodes it depends on.
pub proof fn order_is_complete_iff_schedulable(g: GraphView)
    ensures
        g.kahn_order().len() <= g.len(),
        g.kahn_order().len() == g.len() <==> g.schedulable(),
{
    let k = g.kahn_order();
    assert(g.respects_dependencies(Seq::<int>::empty()));
    lemma_extend_respects(g, Seq::empty());
    lemma_extend_stops(g, Seq::empty());
    lemma_respecting_is_distinct(g, k);
    // the order never holds more nodes than the graph has
    assert(k.len() <= g.len()) by {
        let range = vstd::set_lib::set_int_range(0, g.len() as int);
        vstd::set_lib::lemma_int_range(0, g.len() as int);
        k.unique_seq_to_set();
        vstd::seq_lib::seq_to_set_is_finite(k);
        assert(k.to_set().subset_of(range)) by {
            assert forall|u: int| k.to_set().contains(u) implies range.contains(u) by {
                let i = choose|i: int| 0 <= i < k.len() && k[i] == u;
                assert(0 <= k[i] < g.len());
            }
        }
        vstd::set_lib::lemma_len_subset(k.to_set(), range);
    }
    if k.len() == g.len() {
        lemma_full_order_covers(g, k);
        assert(g.respects_dependencies(k) && g.covers_all(k));
    }
    if g.schedulable() && k.len() < g.len() {
        let order = choose|order: Seq<int>| #[trigger]
            g.respects_dependencies(order) && g.covers_all(order);
        lemma_first_ready(g, k, 0);
        assert forall|u: int| 0 <= u < g.len() implies !g.ready(k, u) by {}
        lemma_schedule_is_placed(g, k, order, order.len() as int);
        assert(g.covers_all(k)) by {
            assert forall|u: int| 0 <= u < g.len() implies #[trigger] k.contains(u) by {
                assert(order.contains(u));
                let q = choose|q: int| 0 <= q < order.len() && order[q] == u;
                assert(k.contains(order[q]));
            }
        }
        lemma_covering_is_long(g, k);
    }
}

impl View for DependencyGraph {
    type V = GraphView;

    closed spec fn view(&self) -> GraphView {
        GraphView {
            packages: Seq::new(self.nodes@.len(), |i: int| self.nodes@[i].package@),
            dependencies: Seq::new(
                self.nodes@.len(),
                |i: int|
                    Seq::new(
                        self.nodes@[i].dependencies@.len(),
                        |j: int| self.nodes@[i].dependencies@[j] as int,
                    ),
            ),
            dependents: Seq::new(
                self.nodes@.len(),
                |i: int|
                    Seq::new(
                        self.nodes@[i].dependents@.len(),
                        |j: int| self.nodes@[i].dependents@[j] as int,
                    ),
            ),
        }
    }
}

impl DependencyGraph {
    /// Whether every stored edge joins two nodes of the graph. Every graph
    /// built through this interface is well formed.
    pub open spec fn well_formed(&self) -> bool {
        self@.well_formed()
    }

    /// The graph without nodes.
    pub fn new() -> (r: Self)
        ensures
            r@.packages == Seq::<PackageSpecView>::empty(),
            r@.dependencies == Seq::<Seq<int>>::empty(),
            r@.dependents == Seq::<Seq<int>>::empty(),
            r.well_formed(),
    {
        let r = Self { nodes: Vec::new() };
        assert(r@.packages =~= Seq::<PackageSpecView>::empty());
        assert(r@.dependencies =~= Seq::<Seq<int>>::empty());
        assert(r@.dependents =~= Seq::<Seq<int>>::empty());
        r
    }

    /// Adds a node for `package` and returns its index.
    pub fn add_package(&mut self, package: PackageSpec) -> (index: usize)
        requires
            old(self).well_formed(),
        ensures
            final(self).well_formed(),
            index == old(self)@.len(),
            final(self)@.packages == old(self)@.packages.push(package@),
            final(self)@.dependencies == old(self)@.dependencies.push(Seq::empty()),
            final(self)@.dependents == old(self)@.dependents.push(Seq::empty()),
    {
        let index = self.nodes.len();
        self.nodes.push(GraphNode { package, dependencies: Vec::new(), dependents: Vec::new() });
        proof {
            let before = old(self)@;
            let now = self@;
            assert(now.packages =~= before.packages.push(package@));
            assert forall|i: int| 0 <= i < now.dependencies.len() implies now.dependencies[i]
                =~= before.dependencies.push(Seq::empty())[i] by {}
            assert(now.dependencies =~= before.dependencies.push(Seq::empty()));
            assert forall|i: int| 0 <= i < now.dependents.len() implies now.dependents[i]
                =~= before.dependents.push(Seq::empty())[i] by {}
            assert(now.dependents =~= before.dependents.push(Seq::empty()));
            assert forall|u: int, j: int|
                0 <= u < now.len() && 0 <= j < now.dependencies[u].len() implies 0 <= (
            #[trigger] now.dependencies[u][j]) < now.len() by {
                assert(now.dependencies[u][j] == before.dependencies[u][j]);
            }
            assert forall|u: int, j: int|
                0 <= u < now.len() && 0 <= j < now.dependents[u].len() implies 0 <= (
            #[trigger] now.dependents[u][j]) < now.len() by {
                assert(now.dependents[u][j] == before.dependents[u][j]);
            }
        }
        index
    }

    /// Records that node `dependent` depends on node `dependency`: the one
    /// joins the dependents of the other, the other the dependencies of the
    /// one. A pair that names a node the graph does not have is ignored.
    pub fn add_dependency(&mut self, dependent: usize, dependency: usize)
        requires
            old(self).well_formed(),
        ensures
            final(self).well_formed(),
            final(self)@.packages == old(self)@.packages,
            dependent < old(self)@.len() && dependency < old(self)@.len() ==> {
                &&& final(self)@.dependencies == old(self)@.dependencies.update(
                    dependent as int,
                    old(self)@.dependencies[dependent as int].push(dependency as int),
                )
                &&& final(self)@.dependents == old(self)@.dependents.update(
                    dependency as int,
                    old(self)@.dependents[dependency as int].push(dependent as int),
                )
            },
            !(dependent < old(self)@.len() && dependency < old(self)@.len()) ==> final(self)@ == old(
                self,
            )@,
    {
        if dependent < self.nodes.len() && dependency < self.nodes.len() {
            self.nodes[dependent].dependencies.push(dependency);
            self.nodes[dependency].dependents.push(dependent);
            proof {
                let before = old(self)@;
                let now = self@;
                let forward = before.dependencies.update(
                    dependent as int,
                    before.dependencies[dependent as int].push(dependency as int),
                );
                let backward = before.dependents.update(
                    dependency as int,
                    before.dependents[dependency as int].push(dependent as int),
                );
                assert(now.packages =~= before.packages);
                assert forall|i: int| 0 <= i < now.dependencies.len() implies now.dependencies[i]
                    =~= forward[i] by {}
                assert(now.dependencies =~= forward);
                assert forall|i: int| 0 <= i < now.dependents.len() implies now.dependents[i]
                    =~= backward[i] by {}
                assert(now.dependents =~= backward);
                assert forall|u: int, j: int|
                    0 <= u < now.len() && 0 <= j < now.dependencies[u].len() implies 0 <= (
                #[trigger] now.dependencies[u][j]) < now.len() by {
                    if u == dependent && j == before.dependencies[u].len() {
                    } else {
                        assert(now.dependencies[u][j] == before.dependencies[u][j]);
                    }
                }
                assert forall|u: int, j: int|
                    0 <= u < now.len() && 0 <= j < now.dependents[u].len() implies 0 <= (
                #[trigger] now.dependents[u][j]) < now.len() by {
                    if u == dependency && j == before.dependents[u].len() {
                    } else {
                        assert(now.dependents[u][j] == before.dependents[u][j]);
                    }
                }
            }
        }
    }

    fn is_ready(&self, placed: &Vec<bool>, u: usize, Ghost(order): Ghost<Seq<int>>) -> (r: bool)
        requires
            self.well_formed(),
            u < self.nodes@.len(),
            placed.len() == self.nodes@.len(),
            forall|i: int| 0 <= i < placed.len() ==> placed@[i] == order.contains(i),
        ensures
            r == self@.ready(order, u as int),
    {
        if placed[u] {
            return false;
        }
        let deps = &self.nodes[u].dependencies;
        let ghost g = self@;
        let mut j: usize = 0;
        while j < deps.len()
            invariant
                j <= deps.len(),
                self.well_formed(),
                u < self.nodes@.len(),
                deps == &self.nodes@[u as int].dependencies,
                g == self@,
                placed.len() == self.nodes@.len(),
                forall|i: int| 0 <= i < placed.len() ==> placed@[i] == order.contains(i),
                forall|k: int| 0 <= k < j ==> order.contains(#[trigger] g.dependencies[u as int][k]),
            decreases deps.len() - j,
        {
            assert(g.dependencies[u as int][j as int] == deps@[j as int]);
            assert(0 <= g.dependencies[u as int][j as int] < g.len());
            if !placed[deps[j]] {
                return false;
            }
            j += 1;
        }
        true
    }

    /// The packages in an order in which each comes after everything it
    /// depends on; among the nodes that can come next, the one added first
    /// wins. Fails when a dependency cycle keeps some node from ever coming.
    pub fn topological_sort(&self) -> (r: Result<Vec<PackageSpec>, GraphError>)
        requires
            self.well_formed(),
        ensures
            match r {
                Ok(sorted) => {
                    &&& self@.schedulable()
                    &&& self@.kahn_order().len() == self@.len()
                    &&& spec_views(sorted@) == Seq::new(
                        self@.len(),
                        |k: int| self@.packages[self@.kahn_order()[k]],
                    )
                },
                Err(e) => {
                    &&& !self@.schedulable()
                    &&& e == GraphError::CircularDependency
                    &&& self@.kahn_order().len() < self@.len()
                },
            },
    {
        let n = self.nodes.len();
        let ghost g = self@;
        let mut placed: Vec<bool> = Vec::new();
        while placed.len() < n
            invariant
                placed.len() <= n,
                forall|i: int| 0 <= i < placed.len() ==> !placed@[i],
            decreases n - placed.len(),
        {
            placed.push(false);
        }
        let mut sorted: Vec<PackageSpec> = Vec::new();
        let ghost mut order: Seq<int> = Seq::empty();
        while sorted.len() < n
            invariant
                self.well_formed(),
                n == self.nodes@.len(),
                g == self@,
                placed.len() == n,
                sorted.len() == order.len(),
                sorted.len() <= n,
                forall|i: int| 0 <= i < n ==> placed@[i] == order.contains(i),
                forall|k: int| 0 <= k < order.len() ==> 0 <= #[trigger] order[k] < n,
                forall|k: int| 0 <= k < order.len() ==> sorted@[k]@ == g.packages[order[k]],
                g.extend(order) == g.kahn_order(),
            decreases n - sorted.len(),
        {
            let mut u: usize = 0;
            while u < n && !self.is_ready(&placed, u, Ghost(order))
                invariant
                    self.well_formed(),
                    n == self.nodes@.len(),
                    g == self@,
                    u <= n,
                    placed.len() == n,
                    forall|i: int| 0 <= i < n ==> placed@[i] == order.contains(i),
                    forall|v: int| 0 <= v < u ==> !g.ready(order, v),
                decreases n - u,
            {
                u += 1;
            }
            proof {
                lemma_first_ready(g, order, 0);
                order_is_complete_iff_schedulable(g);
            }
            if u == n {
                return Err(GraphError::CircularDependency);
            }
            placed.set(u, true);
            sorted.push(self.nodes[u].package.clone());
            proof {
                let before = order;
                order = order.push(u as int);
                assert forall|i: int| 0 <= i < n implies placed@[i] == order.contains(i) by {
                    if i == u {
                        assert(order[before.len() as int] == u);
                    } else if before.contains(i) {
                        let w = choose|w: int| 0 <= w < before.len() && before[w] == i;
                        assert(order[w] == i);
                    }
                }
            }
        }
        proof {
            order_is_complete_iff_schedulable(g);
            assert(spec_views(sorted@) =~= Seq::new(g.len(), |k: int| g.packages[g.kahn_order()[k]]));
        }
        Ok(sorted)
    }

    /// One message for every pair of nodes that hold the same package name
    /// in different versions, by the first node and then by the second.
    pub fn find_conflicts(&self) -> (r: Vec<String>)
        ensures
            string_texts(r@) == conflicts_from(self@, 0),
    {
        let n = self.nodes.len();
        let ghost g = self@;
        let mut out: Vec<String> = Vec::new();
        let mut i: usize = 0;
        assert(string_texts(out@) + conflicts_from(g, 0) =~= conflicts_from(g, 0));
        while i < n
            invariant
                n == self.nodes@.len(),
                g == self@,
                i <= n,
                string_texts(out@) + conflicts_from(g, i as int) == conflicts_from(g, 0),
            decreases n - i,
        {
            let mut j: usize = i + 1;
            let ghost done = string_texts(out@);
            assert(string_texts(out@) =~= done + Seq::<Seq<char>>::empty());
            let ghost mut found: Seq<Seq<char>> = Seq::empty();
            assert(found + conflicts_of(g, i as int, j as int) =~= conflicts_of(g, i as int, i + 1));
            while j < n
                invariant
                    n == self.nodes@.len(),
                    g == self@,
                    i < j <= n,
                    string_texts(out@) == done + found,
                    found + conflicts_of(g, i as int, j as int) == conflicts_of(g, i as int, i + 1),
                decreases n - j,
            {
                let node = &self.nodes[i];
                let other = &self.nodes[j];
                if node.package.name == other.package.name && !(node.package.version
                    == other.package.version) {
                    let mut message = String::from_str("Version conflict: ");
                    message.append(node.package.name.as_str());
                    message.append(" (");
                    message.append(node.package.version.as_str());
                    message.append(" vs ");
                    message.append(other.package.version.as_str());
                    message.append(")");
                    let ghost before = out@;
                    out.push(message);
                    proof {
                        assert(g.in_conflict(i as int, j as int));
                        assert(string_texts(out@) =~= string_texts(before) + seq![message@]);
                        let tail = conflicts_of(g, i as int, j + 1);
                        assert(found + (seq![message@] + tail) =~= found.push(message@) + tail);
                        found = found.push(message@);
                        assert(string_texts(out@) =~= done + found);
                    }
                }
                j += 1;
            }
            proof {
                assert(conflicts_of(g, i as int, n as int) =~= Seq::<Seq<char>>::empty());
                assert(found =~= conflicts_of(g, i as int, i + 1));
                assert((done + found) + conflicts_from(g, i + 1) =~= done + (found + conflicts_from(
                    g,
                    i + 1,
                )));
            }
            i += 1;
        }
        assert(conflicts_from(g, n as int) =~= Seq::<Seq<char>>::empty());
        assert(string_texts(out@) + Seq::<Seq<char>>::empty() =~= string_texts(out@));
        out
    }
}

impl Default for DependencyGraph {
    fn default() -> (r: Self)
        ensures
            r@.packages == Seq::<PackageSpecView>::empty(),
            r@.dependencies == Seq::<Seq<int>>::empty(),
            r@.dependents == Seq::<Seq<int>>::empty(),
            r.well_formed(),
    {
        Self::new()
    }
}

} // verus!
