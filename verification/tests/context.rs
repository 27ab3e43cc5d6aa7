use cargo_core::context::{find_collisions, CollisionKind, OutputFile, OutputUnit};

fn file(path: &str, hardlink: Option<&str>, export: Option<&str>) -> OutputFile {
    OutputFile { path: path.to_string(), hardlink: hardlink.map(|s| s.to_string()), export_path: export.map(|s| s.to_string()) }
}

#[test]
fn colliding_outputs_are_reported() {
    let units = vec![
        OutputUnit { target_name: "foo".to_string(), outputs: vec![file("/t/deps/foo", Some("/t/foo"), None)] },
        OutputUnit { target_name: "foo".to_string(), outputs: vec![file("/t/deps/foo2", Some("/t/foo"), Some("/x/foo"))] },
        OutputUnit { target_name: "bar".to_string(), outputs: vec![file("/t/deps/foo2", None, Some("/x/foo"))] },
    ];
    let got: Vec<(usize, usize, String, CollisionKind)> =
        find_collisions(&units).into_iter().map(|c| (c.unit, c.other, c.path, c.kind)).collect();
    assert_eq!(
        got,
        vec![
            (1, 0, "/t/foo".to_string(), CollisionKind::SameName),
            (2, 1, "/t/deps/foo2".to_string(), CollisionKind::Output),
            (2, 1, "/x/foo".to_string(), CollisionKind::Export),
        ]
    );
}

#[test]
fn distinct_outputs_do_not_collide() {
    let units = vec![
        OutputUnit { target_name: "a".to_string(), outputs: vec![file("/t/a", Some("/o/a"), Some("/x/a"))] },
        OutputUnit { target_name: "b".to_string(), outputs: vec![file("/t/b", None, None), file("/t/b.d", None, None)] },
    ];
    assert!(find_collisions(&units).is_empty());
}
