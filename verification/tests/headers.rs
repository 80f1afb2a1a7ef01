use worker_runtime::headers::{unify_header_name, unify_header_names};

#[test]
fn header_names_are_lowercased() {
    assert_eq!(unify_header_name("Content-Type"), Some("content-type".to_string()));
    assert_eq!(unify_header_name("etag"), Some("etag".to_string()));
    assert_eq!(unify_header_name(""), Some(String::new()));
}

#[test]
fn reserved_header_names_are_dropped() {
    assert_eq!(unify_header_name("x-blueboat-busy-duration"), None);
    assert_eq!(unify_header_name("X-Blueboat-Anything"), None);
    assert_eq!(unify_header_name("x-blueboat-"), None);
}

#[test]
fn near_misses_of_the_reserved_prefix_are_kept() {
    assert_eq!(unify_header_name("x-blueboat"), Some("x-blueboat".to_string()));
    assert_eq!(unify_header_name("ax-blueboat-b"), Some("ax-blueboat-b".to_string()));
    assert_eq!(unify_header_name("X-Blue-Boat-"), Some("x-blue-boat-".to_string()));
}

#[test]
fn header_names_are_unified_one_for_one() {
    let names = vec!["Accept".to_string(), "X-BLUEBOAT-Id".to_string(), "Via".to_string()];
    assert_eq!(
        unify_header_names(&names),
        vec![Some("accept".to_string()), None, Some("via".to_string())]
    );
    assert_eq!(unify_header_names(&Vec::new()), Vec::<Option<String>>::new());
}
