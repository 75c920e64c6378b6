use lightblue::scan::{is_source_file, module_path_of};

#[test]
fn nested_path_maps_to_module_path() {
    assert_eq!(module_path_of("a/b/c.rs").unwrap(), "crate::a::b::c");
}

#[test]
fn boilerplate_file_names_are_elided() {
    assert_eq!(module_path_of("a/main.rs").unwrap(), "crate::a");
    assert_eq!(module_path_of("lib.rs").unwrap(), "crate");
    assert_eq!(module_path_of("player/mod.rs").unwrap(), "crate::player");
}

#[test]
fn segments_are_lower_cased() {
    assert_eq!(module_path_of("A/B.rs").unwrap(), "crate::a::b");
    assert_eq!(module_path_of("Player/Net.rs").unwrap(), "crate::player::net");
}

#[test]
fn segment_that_is_no_identifier_is_fatal() {
    assert!(module_path_of("foo-bar.rs").is_err());
}

#[test]
fn extension_is_matched_case_insensitively() {
    assert!(is_source_file("a/b.rs"));
    assert!(is_source_file("a/b.RS"));
    assert!(is_source_file("a/b.Rs"));
    assert!(!is_source_file("a/b.txt"));
    assert!(!is_source_file("a/rs"));
    assert!(!is_source_file(".rs"));
}
