//! Dependencies between packages.

use vxpm::dep_graph::{DepGraph, TreeNode};
use vxpm::package::{parse_template, Package};

fn package(name: &str, makedepends: &[&str], depends: &[&str]) -> Package {
    let mut p = parse_template("");
    p.name = name.to_string();
    p.makedepends = makedepends.iter().map(|s| s.to_string()).collect();
    p.depends = depends.iter().map(|s| s.to_string()).collect();
    p
}

fn texts(v: &[&str]) -> Vec<String> {
    v.iter().map(|s| s.to_string()).collect()
}

/// b needs a, c needs a and b, d needs nothing.
fn graph() -> DepGraph {
    DepGraph::build(&vec![
        package("d", &["elsewhere-devel"], &[]),
        package("c", &["a-devel", "b-devel"], &[]),
        package("b", &[], &["a"]),
        package("a", &[], &[]),
    ])
}

fn shown(nodes: &[TreeNode]) -> String {
    nodes
        .iter()
        .map(|n| format!("{}({})", n.name, shown(&n.children)))
        .collect::<Vec<String>>()
        .join(" ")
}

#[test]
fn dependencies_are_built_first() {
    let order = graph().topological_sort();
    assert_eq!(order.len(), 4);
    let at = |n: &str| order.iter().position(|x| x == n).unwrap();
    assert!(at("a") < at("b"));
    assert!(at("b") < at("c"));
    assert!(order.contains(&"d".to_string()));
}

#[test]
fn packages_in_a_circle_are_left_out() {
    let g = DepGraph::build(&vec![
        package("a", &["b"], &[]),
        package("b", &["a"], &[]),
        package("c", &["b"], &[]),
        package("d", &[], &[]),
    ]);
    assert_eq!(g.topological_sort(), ["d"]);
}

#[test]
fn what_is_rebuilt_after_a_change() {
    let g = graph();
    assert_eq!(g.rebuild_set(&texts(&["a"])), ["b", "c"]);
    assert_eq!(g.rebuild_set(&texts(&["b"])), ["c"]);
    assert_eq!(g.rebuild_set(&texts(&["a", "b"])), ["c"]);
    assert!(g.rebuild_set(&texts(&["d"])).is_empty());
    assert!(g.rebuild_set(&texts(&[])).is_empty());
}

#[test]
fn dependents_mirror_dependencies() {
    let g = graph();
    let names = ["a", "b", "c", "d"];
    for x in names {
        for y in names {
            assert_eq!(
                g.names_of_dependencies(x).contains(&y.to_string()),
                g.names_of_dependents(y).contains(&x.to_string())
            );
        }
    }
    assert_eq!(g.names_of_dependencies("c"), ["a", "b"]);
    assert_eq!(g.names_of_dependents("a"), ["b", "c"]);
    assert!(g.names_of_dependents("unknown").is_empty());
    assert!(g.names_of_dependencies("d").is_empty());
}

#[test]
fn the_tree_of_dependents_is_whole() {
    let g = graph();
    assert_eq!(shown(&g.reverse_dep_tree("a")), "b(c()) c()");
    assert_eq!(shown(&g.reverse_dep_tree("b")), "c()");
    assert_eq!(shown(&g.reverse_dep_tree("d")), "");
    assert_eq!(shown(&g.reverse_dep_tree("unknown")), "");
}

fn names_in(nodes: &[TreeNode], out: &mut Vec<String>) {
    for n in nodes {
        out.push(n.name.clone());
        names_in(&n.children, out);
    }
}

#[test]
fn the_tree_holds_what_depends_on_a_package() {
    // a and b need one another, c needs b, d needs c, e needs nothing.
    let g = DepGraph::build(&vec![
        package("a", &["b"], &[]),
        package("b", &["a"], &[]),
        package("c", &["b"], &[]),
        package("d", &["c"], &[]),
        package("e", &[], &[]),
    ]);
    assert_eq!(shown(&g.reverse_dep_tree("a")), "b(a() c(d()))");
    for (of, want) in [("a", "abcd"), ("b", "abcd"), ("c", "d"), ("d", ""), ("e", "")] {
        let mut names = Vec::new();
        names_in(&g.reverse_dep_tree(of), &mut names);
        names.sort();
        names.dedup();
        assert_eq!(names.concat(), want, "below {}", of);
    }
}

#[test]
fn no_packages_no_order() {
    let g = DepGraph::build(&Vec::new());
    assert!(g.topological_sort().is_empty());
    assert!(g.rebuild_set(&texts(&["a"])).is_empty());
}
