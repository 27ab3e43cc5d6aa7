use cargo_core::resolver::{check_cycles, check_duplicate_pkgs_in_lockfile, ResolveGraph};

fn graph(deps: Vec<Vec<(usize, bool)>>) -> ResolveGraph {
    let n = deps.len();
    ResolveGraph { deps, replacements: vec![None; n] }
}

#[test]
fn acyclic_resolution_passes() {
    let g = graph(vec![vec![(1, true), (2, true)], vec![(2, true)], vec![]]);
    assert_eq!(check_cycles(&g), Ok(()));
}

#[test]
fn cycle_of_build_dependencies_is_found() {
    let g = graph(vec![vec![(1, true)], vec![(0, true)]]);
    assert_eq!(check_cycles(&g), Err(0));
    let g = graph(vec![vec![], vec![], vec![], vec![(3, true)]]);
    assert_eq!(check_cycles(&g), Err(3));
}

#[test]
fn development_dependencies_may_loop_back() {
    let g = graph(vec![vec![(1, true)], vec![(0, false)]]);
    assert_eq!(check_cycles(&g), Ok(()));
    let g = graph(vec![vec![(0, false)]]);
    assert_eq!(check_cycles(&g), Ok(()));
}

#[test]
fn replacements_are_followed() {
    let mut g = graph(vec![vec![(1, true)], vec![], vec![(0, true)]]);
    assert_eq!(check_cycles(&g), Ok(()));
    g.replacements[1] = Some(2);
    assert_eq!(check_cycles(&g), Err(0));
}

#[test]
fn lockfile_collisions() {
    let ids: Vec<String> = vec!["a 1.0.0".into(), "b 1.0.0".into(), "c 2.0.0".into()];
    assert_eq!(check_duplicate_pkgs_in_lockfile(&ids), Ok(()));
    let ids: Vec<String> = vec!["a 1.0.0".into(), "b 1.0.0".into(), "b 2.0.0".into(), "b 1.0.0".into(), "a 1.0.0".into()];
    assert_eq!(check_duplicate_pkgs_in_lockfile(&ids), Err((1, 3)));
}

#[test]
fn cycle_behind_an_acyclic_prefix_is_found() {
    let g = graph(vec![vec![(1, true)], vec![(2, true)], vec![(3, true)], vec![(1, true)]]);
    assert_eq!(check_cycles(&g), Err(1));
    let g = graph(vec![vec![(1, true), (2, true)], vec![(2, true)], vec![]]);
    assert_eq!(check_cycles(&g), Ok(()));
}
