use lightblue::error::GenError;
use lightblue::pipeline::generate;
use lightblue::scan::SourceFile;

fn sf(path: &str, text: &str) -> SourceFile {
    SourceFile { path: path.to_string(), text: text.to_string() }
}

#[test]
fn duplicate_component_aggregate_aborts() {
    let files = vec![
        sf(
            "lib.rs",
            "#[component_protocol(Game)]\npub enum A {\n    X(u8),\n}\n#[component_protocol(Game)]\npub enum B {\n    Y(u8),\n}\n",
        ),
    ];
    match generate(&files) {
        Err(GenError::DuplicateComponentAggregate { protocol }) => assert_eq!(protocol, "Game"),
        _ => panic!("expected the duplicate component aggregate to abort the run"),
    }
}

#[test]
fn duplicate_binding_aborts() {
    let files = vec![
        sf("a.rs", "protocolize! {\n    Self = Game,\n}\n"),
        sf("b.rs", "protocolize! {\n    Self = Game,\n}\n"),
    ];
    match generate(&files) {
        Err(GenError::DuplicateBinding { protocol }) => assert_eq!(protocol, "Game"),
        _ => panic!("expected the duplicate binding to abort the run"),
    }
}

#[test]
fn duplicate_message_aggregate_aborts() {
    let files = vec![
        sf(
            "lib.rs",
            "#[message_protocol(Game)]\npub enum A {\n    X(u8),\n}\n#[message_protocol(Game)]\npub enum B {\n    Y(u8),\n}\n",
        ),
    ];
    assert!(matches!(generate(&files), Err(GenError::DuplicateMessageAggregate { .. })));
}

#[test]
fn duplicate_input_aggregate_aborts() {
    let files = vec![
        sf(
            "lib.rs",
            "#[inputs(Game)]\npub enum A {\n    X,\n}\n#[inputs(Game)]\npub enum B {\n    Y,\n}\n",
        ),
    ];
    assert!(matches!(generate(&files), Err(GenError::DuplicateInputAggregate { .. })));
}

#[test]
fn binding_without_name_aborts() {
    let files = vec![sf("lib.rs", "protocolize! {\n    Message = M,\n}\n")];
    assert!(matches!(generate(&files), Err(GenError::DirectiveMissingName)));
}

#[test]
fn binding_with_string_name_aborts() {
    let files = vec![sf("lib.rs", "protocolize! {\n    Self = \"Game\",\n}\n")];
    assert!(matches!(generate(&files), Err(GenError::MalformedDirective)));
}

#[test]
fn annotation_with_path_protocol_value_aborts() {
    let files = vec![sf("lib.rs", "#[component(protocol = a::b)]\npub struct X;\n")];
    assert!(matches!(generate(&files), Err(GenError::MalformedAnnotation)));
}

#[test]
fn path_segment_that_is_no_identifier_aborts() {
    let files = vec![sf("foo-bar.rs", "pub struct X;\n")];
    match generate(&files) {
        Err(GenError::InvalidIdentifier { text }) => assert_eq!(text, "foo-bar"),
        _ => panic!("expected the path segment to abort the run"),
    }
}

#[test]
fn generatable_protocol_without_input_aggregate_aborts() {
    let files = vec![sf("m.rs", "#[component(Game)]\npub struct X;\n")];
    match generate(&files) {
        Err(GenError::InputSynthesisUnimplemented { protocol }) => assert_eq!(protocol, "Game"),
        _ => panic!("expected the open input-synthesis path to fail loudly"),
    }
}
