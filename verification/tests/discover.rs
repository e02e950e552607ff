use scriv::discover::{enters, visit, Visit};

#[test]
fn a_repository_is_found_and_not_descended_into() {
    assert_eq!(visit(true, 0, 0), Visit::Found);
    assert_eq!(visit(true, 3, 1), Visit::Found);
}

#[test]
fn the_walk_stops_at_its_depth() {
    assert_eq!(visit(false, 1, 1), Visit::Stop);
    assert_eq!(visit(false, 0, 1), Visit::Descend);
    assert_eq!(visit(false, 0, 0), Visit::Stop);
}

#[test]
fn ignored_directories_and_files_are_not_entered() {
    let ignore = vec!["node_modules".to_string(), "target".to_string()];
    assert!(enters(true, "src", &ignore));
    assert!(!enters(true, "target", &ignore));
    assert!(!enters(false, "src", &ignore));
    assert!(enters(true, "targets", &ignore));
}
