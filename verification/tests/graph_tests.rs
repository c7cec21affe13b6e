use debcargo::graph::{build_order_of, succ_proj, succ_to_pred, topo_sort, Graph, GraphBuilder};

fn graph(edges: &[(usize, &[usize])]) -> Graph {
    let mut g = Graph::new();
    for (k, vs) in edges {
        g.add_key(*k);
        for v in vs.iter() {
            g.add_edge(*k, *v);
        }
    }
    g
}

#[test]
fn turning_edges_around() {
    let g = graph(&[(0, &[1, 2]), (1, &[2]), (2, &[])]);
    let p = succ_to_pred(&g);
    assert!(!p.contains_key(0));
    assert_eq!(p.successors(1), vec![0]);
    assert_eq!(p.successors(2), vec![0, 1]);
}

#[test]
fn projecting_a_graph() {
    // vertices 0..4 are features of packages 10, 10, 11, 12
    let g = graph(&[(0, &[2]), (1, &[3]), (2, &[]), (3, &[])]);
    let proj = vec![10, 10, 11, 12];
    let r = succ_proj(&g, &proj);
    assert_eq!(r.successors(10), vec![11, 12]);
    assert!(r.contains_key(11));
    assert!(r.contains_key(12));
    assert!(!r.contains_key(0));
}

#[test]
fn topological_order() {
    // 0 depends on 1 and 2, 1 on 2: edges from a package to its dependencies
    let succ = graph(&[(0, &[1, 2]), (1, &[2]), (2, &[])]);
    let pred = succ_to_pred(&succ);
    // build order: from what depends on nothing up
    let order = topo_sort(&vec![2], &pred, succ).ok().unwrap();
    assert_eq!(order, vec![2, 1, 0]);
}

#[test]
fn cycle_is_reported() {
    let succ = graph(&[(0, &[1]), (1, &[0]), (2, &[])]);
    let pred = succ_to_pred(&succ);
    match topo_sort(&vec![2], &pred, succ) {
        Ok(_) => panic!("a cycle cannot be sorted"),
        Err(rest) => {
            assert_eq!(rest.successors(0), vec![1]);
            assert_eq!(rest.successors(1), vec![0]);
            assert!(!rest.contains_key(2));
        }
    }
}

#[test]
fn build_order_of_features() {
    // package 0 (vertices 0, 1) needs package 1 (vertex 2), which needs package 2 (vertex 3)
    let g = graph(&[(0, &[2]), (1, &[]), (2, &[3]), (3, &[])]);
    let proj = vec![0, 0, 1, 2];
    let (packages, order) = build_order_of(&g, &proj);
    assert_eq!(packages.successors(0), vec![1]);
    assert_eq!(order.ok().unwrap(), vec![2, 1, 0]);
}

#[test]
fn graph_builder_expands_breadth_first() {
    let mut b = GraphBuilder::new(&vec![5, 3, 5]);
    assert_eq!(b.queue, vec![3, 5]);
    assert_eq!(b.next(), Some(3));
    b.expand(&vec![7], &vec![5, 8]);
    assert_eq!(b.queue, vec![3, 5, 7, 8]);
    assert_eq!(b.next(), Some(5));
    b.expand(&vec![], &vec![]);
    assert_eq!(b.next(), Some(7));
    b.expand(&vec![8], &vec![]);
    assert_eq!(b.next(), Some(8));
    b.expand(&vec![], &vec![]);
    assert_eq!(b.next(), None);
    assert_eq!(b.graph.successors(3), vec![7]);
    assert_eq!(b.graph.successors(7), vec![8]);
    assert!(b.graph.contains_key(8));
}

#[test]
fn turning_edges_around_twice() {
    let g = graph(&[(0, &[1, 2]), (1, &[2]), (2, &[]), (3, &[])]);
    let pp = succ_to_pred(&succ_to_pred(&g));
    assert_eq!(pp.successors(0), vec![1, 2]);
    assert_eq!(pp.successors(1), vec![2]);
    assert!(pp.contains_key(0));
    assert!(pp.contains_key(1));
    // vertices without successors are no longer keys
    assert!(!pp.contains_key(2));
    assert!(!pp.contains_key(3));
}
