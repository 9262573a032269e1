use ratpm::backend::fedora::libdnf::version_compare;
use ratpm::backend::fedora::types::PackageSpec;
use ratpm::engine::resolver::{DependencyGraph, GraphError};

fn spec(name: &str, version: &str) -> PackageSpec {
    PackageSpec::new(name.to_string(), version.to_string(), "x86_64".to_string(), "fedora".to_string())
}

fn names(sorted: &[PackageSpec]) -> Vec<String> {
    sorted.iter().map(|p| p.name.clone()).collect()
}

#[test]
fn test_cycle_is_detected() {
    let mut graph = DependencyGraph::new();
    let a = graph.add_package(spec("A", "1"));
    let b = graph.add_package(spec("B", "1"));
    let c = graph.add_package(spec("C", "1"));
    graph.add_dependency(a, b);
    graph.add_dependency(b, c);
    graph.add_dependency(c, a);
    let err = graph.topological_sort().unwrap_err();
    assert_eq!(err, GraphError::CircularDependency);
    assert_eq!(err.to_string(), "Circular dependency detected");
}

#[test]
fn test_dependencies_come_first() {
    let mut graph = DependencyGraph::new();
    let app = graph.add_package(spec("app", "1"));
    let lib = graph.add_package(spec("lib", "1"));
    let base = graph.add_package(spec("base", "1"));
    let tool = graph.add_package(spec("tool", "1"));
    graph.add_dependency(app, lib);
    graph.add_dependency(lib, base);
    graph.add_dependency(app, base);
    graph.add_dependency(tool, base);
    let sorted = graph.topological_sort().unwrap();
    assert_eq!(names(&sorted), vec!["base", "lib", "app", "tool"]);
    let position = |n: &str| sorted.iter().position(|p| p.name == n).unwrap();
    for (user, dep) in [("app", "lib"), ("lib", "base"), ("app", "base"), ("tool", "base")] {
        assert!(position(dep) < position(user));
    }
}

#[test]
fn test_ties_go_to_the_node_added_first() {
    let mut graph = DependencyGraph::new();
    for name in ["d", "b", "a", "c"] {
        graph.add_package(spec(name, "1"));
    }
    assert_eq!(names(&graph.topological_sort().unwrap()), vec!["d", "b", "a", "c"]);
    assert!(DependencyGraph::new().topological_sort().unwrap().is_empty());
    assert!(DependencyGraph::default().topological_sort().unwrap().is_empty());
}

#[test]
fn test_edges_to_unknown_nodes_are_ignored() {
    let mut graph = DependencyGraph::new();
    let a = graph.add_package(spec("a", "1"));
    assert_eq!(a, 0);
    graph.add_dependency(a, 7);
    graph.add_dependency(7, a);
    assert_eq!(names(&graph.topological_sort().unwrap()), vec!["a"]);
    // a self loop is a cycle; an edge given twice is no cycle
    let b = graph.add_package(spec("b", "1"));
    graph.add_dependency(b, a);
    graph.add_dependency(b, a);
    assert_eq!(names(&graph.topological_sort().unwrap()), vec!["a", "b"]);
    graph.add_dependency(a, a);
    assert_eq!(graph.topological_sort(), Err(GraphError::CircularDependency));
}

#[test]
fn test_find_conflicts() {
    let mut graph = DependencyGraph::new();
    graph.add_package(spec("vim", "9.0"));
    graph.add_package(spec("emacs", "29.1"));
    graph.add_package(spec("vim", "8.2"));
    graph.add_package(spec("vim", "9.0"));
    graph.add_package(spec("emacs", "28"));
    assert_eq!(
        graph.find_conflicts(),
        vec![
            "Version conflict: vim (9.0 vs 8.2)",
            "Version conflict: emacs (29.1 vs 28)",
            "Version conflict: vim (8.2 vs 9.0)",
        ]
    );
    assert!(DependencyGraph::new().find_conflicts().is_empty());
}

#[test]
fn test_version_compare() {
    assert_eq!(version_compare("1.2.3", "1.2.3"), 0);
    assert_eq!(version_compare("1.2.4", "1.2.3"), 1);
    assert_eq!(version_compare("1.2.3", "1.10.0"), -1);
    assert_eq!(version_compare("1.2", "1.2.0"), 0);
    assert_eq!(version_compare("1.2", "1.2.1"), -1);
    assert_eq!(version_compare("2", "1.9.9"), 1);
    // what is no number counts as zero
    assert_eq!(version_compare("1.x", "1.0"), 0);
    assert_eq!(version_compare("1.0-rc1", "1.0"), 0);
    assert_eq!(version_compare("abc", ""), 0);
    assert_eq!(version_compare("1.+5", "1.5"), 0);
    assert_eq!(version_compare("9.0.2190", "9.0.100"), 1);
    // a place beyond the range of u32 is no number
    assert_eq!(version_compare("4294967295", "4294967294"), 1);
    assert_eq!(version_compare("4294967296", "1"), -1);
    assert_eq!(version_compare("007", "7"), 0);
}
