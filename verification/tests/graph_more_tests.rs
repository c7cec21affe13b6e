use debcargo::graph::{any_edge, get_transitive_val, retain_nonempty, roots, set_insert, set_remove, traverse_depth, Graph};

fn graph(edges: &[(usize, &[usize])]) -> Graph {
    let mut g = Graph::new();
    for (k, vs) in edges {
        g.add_key(*k);
        for v in vs.iter() {
            g.add_edge(*k, *v);
        }
    }
    g
}

#[test]
fn reachable_from_a_vertex() {
    let g = graph(&[(0, &[1, 2]), (1, &[3]), (2, &[3]), (3, &[]), (4, &[0])]);
    assert_eq!(traverse_depth(&g, 0), vec![1, 2, 3]);
    assert_eq!(traverse_depth(&g, 4), vec![0, 1, 2, 3]);
    assert_eq!(traverse_depth(&g, 3), Vec::<usize>::new());
    let c = graph(&[(0, &[1]), (1, &[0])]);
    assert_eq!(traverse_depth(&c, 0), vec![0, 1]);
}

#[test]
fn values_inherited_from_ancestors() {
    // 0 and 1 are roots with values; 2 has parents 0, 1; 3 has parent 0
    let parents = vec![vec![], vec![], vec![0, 1], vec![0], vec![2, 3]];
    let same = vec![Some(7), Some(7), None, None, None];
    assert_eq!(get_transitive_val(&parents, &same, 4), Ok(Some(7)));
    let differ = vec![Some(7), Some(8), None, None, Some(1)];
    assert_eq!(get_transitive_val(&parents, &differ, 4), Ok(Some(1)));
    assert_eq!(get_transitive_val(&parents, &differ, 2), Err((2, vec![(0, 7), (1, 8)])));
    assert_eq!(get_transitive_val(&parents, &differ, 3), Ok(Some(7)));
    let none = vec![None, None, None, None, None];
    assert_eq!(get_transitive_val(&parents, &none, 4), Ok(None));
}

#[test]
fn roots_edges_and_sets() {
    let g = graph(&[(0, &[1]), (1, &[]), (5, &[])]);
    assert_eq!(roots(&g), vec![1, 5]);
    assert!(any_edge(&g));
    assert!(!any_edge(&graph(&[(0, &[]), (3, &[])])));
    let r = retain_nonempty(g);
    assert!(r.contains_key(0));
    assert!(!r.contains_key(1));
    assert!(!r.contains_key(5));
    let mut s = vec![1, 4];
    set_insert(&mut s, 3);
    set_insert(&mut s, 4);
    assert_eq!(s, vec![1, 3, 4]);
    set_remove(&mut s, 1);
    set_remove(&mut s, 9);
    assert_eq!(s, vec![3, 4]);
}

#[test]
fn editing_a_graph() {
    let mut g = graph(&[(0, &[1, 2])]);
    assert!(g.size() >= 1);
    g.remove_edge(0, 1);
    assert_eq!(g.successors(0), vec![2]);
    g.set_successors(0, vec![3, 4]);
    assert_eq!(g.successors(0), vec![3, 4]);
    let h = g.duplicate();
    assert_eq!(h.successors(0), vec![3, 4]);
    assert!(h.contains_key(0));
}
