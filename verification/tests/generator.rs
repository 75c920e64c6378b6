use lightblue::pipeline::generate;
use lightblue::scan::SourceFile;

fn sf(path: &str, text: &str) -> SourceFile {
    SourceFile { path: path.to_string(), text: text.to_string() }
}

fn game_tree() -> Vec<SourceFile> {
    vec![
        sf("player.rs", "#[component(protocol = Game)]\npub struct Player;\n"),
        sf("msgs.rs", "#[message(protocol = Game)]\npub struct Move;\n"),
        sf("inputs.rs", "#[inputs(Game)]\npub enum GameInputs {\n    None,\n}\n"),
    ]
}

fn game_artifact() -> String {
    let mut s = String::new();
    s.push_str("#[lightyear::prelude::component_protocol(protocol = \"Game\")]\n");
    s.push_str("pub enum GameComponents {\n");
    s.push_str("    #[sync(simple)]\n");
    s.push_str("    Player(crate::player::Player),\n");
    s.push_str("}\n");
    s.push_str("#[lightyear::prelude::message_protocol(protocol = \"Game\")]\n");
    s.push_str("pub enum GameMessages {\n");
    s.push_str("    Move(crate::msgs::Move),\n");
    s.push_str("}\n");
    s.push_str("pub mod protocol {\n");
    s.push_str("    use lightyear::protocolize;\n");
    s.push_str("    use crate::gen::GameMessages;\n");
    s.push_str("    use crate::gen::GameComponents;\n");
    s.push_str("    use crate::gen::GameComponentsKind;\n");
    s.push_str("    use crate::inputs::GameInputs;\n");
    s.push_str("    protocolize! {\n");
    s.push_str("        Self = Game,\n");
    s.push_str("        Message = GameMessages,\n");
    s.push_str("        Component = GameComponents,\n");
    s.push_str("        Input = GameInputs,\n");
    s.push_str("    }\n");
    s.push_str("}\n");
    s.push_str("pub use protocol::*;\n");
    s
}

#[test]
fn scenario_game_protocol() {
    let out = generate(&game_tree()).unwrap();
    assert_eq!(out.artifact, game_artifact());
    assert!(out.skipped.is_empty());
}

#[test]
fn deterministic_across_runs() {
    let a = generate(&game_tree()).unwrap();
    let b = generate(&game_tree()).unwrap();
    assert_eq!(a.artifact, b.artifact);
    assert_eq!(a.skipped, b.skipped);
}

#[test]
fn deterministic_under_input_order() {
    let mut shuffled = game_tree();
    shuffled.reverse();
    let a = generate(&game_tree()).unwrap();
    let b = generate(&shuffled).unwrap();
    assert_eq!(a.artifact, b.artifact);
}

#[test]
fn component_aggregate_has_tagged_and_default_variants() {
    let files = vec![
        sf(
            "m.rs",
            "#[component(MyProtocol, sync(once))]\npub struct X;\n#[component(MyProtocol)]\npub struct Y;\n#[inputs(MyProtocol)]\npub enum Ins {\n    None,\n}\n",
        ),
    ];
    let out = generate(&files).unwrap();
    let expected =
        "pub enum MyProtocolComponents {\n    #[sync(once)]\n    X(crate::m::X),\n    #[sync(simple)]\n    Y(crate::m::Y),\n}\n";
    assert!(out.artifact.contains(expected));
}

#[test]
fn pascal_cased_aggregate_names() {
    let files = vec![
        sf(
            "m.rs",
            "#[component(my_game)]\npub struct X;\n#[inputs(my_game)]\npub enum Ins {\n    None,\n}\n",
        ),
    ];
    let out = generate(&files).unwrap();
    assert!(out.artifact.contains("pub enum MyGameComponents {"));
    assert!(out.artifact.contains("pub enum MyGameMessages {"));
    assert!(out.artifact.contains("use crate::gen::MyGameComponentsKind;"));
}

#[test]
fn parse_skip_isolation() {
    let mut files = game_tree();
    files.push(sf("broken.rs", "pub struct ((((\n"));
    let out = generate(&files).unwrap();
    assert_eq!(out.artifact, game_artifact());
    assert_eq!(out.skipped, vec!["broken.rs".to_string()]);
}

#[test]
fn partial_protocol_excluded() {
    let files = vec![
        sf(
            "lib.rs",
            "protocolize! {\n    Self = Game,\n    Message = M,\n    Component = C,\n    Input = I,\n}\n#[component_protocol(Game)]\npub enum C {\n    A(u8),\n}\n",
        ),
    ];
    let out = generate(&files).unwrap();
    assert_eq!(out.artifact, "");
    assert!(out.skipped.is_empty());
}

#[test]
fn complete_protocol_gets_no_output() {
    let files = vec![
        sf(
            "lib.rs",
            "protocolize! {\n    Self = Game,\n    Message = M,\n    Component = C,\n    Input = I,\n}\n#[component_protocol(Game)]\npub enum C {\n    A(u8),\n}\n#[message_protocol(Game)]\npub enum M {\n    B(u8),\n}\n",
        ),
    ];
    let out = generate(&files).unwrap();
    assert_eq!(out.artifact, "");
}

#[test]
fn hand_written_message_aggregate_is_referenced() {
    let files = vec![
        sf(
            "net.rs",
            "#[component(Game)]\npub struct P;\n#[message_protocol(Game)]\npub enum Msgs {\n    A(u8),\n}\n#[inputs(Game)]\npub enum Ins {\n    None,\n}\n",
        ),
    ];
    let out = generate(&files).unwrap();
    assert!(out.artifact.contains("pub enum GameComponents {"));
    assert!(!out.artifact.contains("pub enum GameMessages"));
    assert!(out.artifact.contains("    use crate::net::Msgs;\n"));
    assert!(out.artifact.contains("        Message = Msgs,\n"));
}

#[test]
fn inline_modules_extend_the_path() {
    let files = vec![
        sf(
            "lib.rs",
            "pub mod inner {\n    #[component(Game)]\n    pub struct P;\n}\n#[inputs(Game)]\npub enum Ins {\n    None,\n}\n",
        ),
    ];
    let out = generate(&files).unwrap();
    assert!(out.artifact.contains("    P(crate::inner::P),\n"));
}

#[test]
fn non_source_files_are_ignored() {
    let mut files = game_tree();
    files.push(sf("notes.txt", "not source at all ((("));
    let out = generate(&files).unwrap();
    assert_eq!(out.artifact, game_artifact());
    assert!(out.skipped.is_empty());
}

#[test]
fn string_protocol_argument_is_accepted() {
    let files = vec![
        sf(
            "m.rs",
            "#[component(protocol = \"Game\")]\npub struct X;\n#[inputs(Game)]\npub enum Ins {\n    None,\n}\n",
        ),
    ];
    let out = generate(&files).unwrap();
    assert!(out.artifact.contains("    X(crate::m::X),\n"));
}

#[test]
fn unknown_annotations_are_ignored() {
    let files = vec![
        sf(
            "m.rs",
            "#[derive(Clone, Debug)]\n#[component(Game)]\npub struct X;\n#[allow(dead_code)]\npub struct Unrelated;\n#[inputs(Game)]\npub enum Ins {\n    None,\n}\n",
        ),
    ];
    let out = generate(&files).unwrap();
    assert!(out.artifact.contains("    X(crate::m::X),\n"));
    assert!(!out.artifact.contains("Unrelated"));
}

#[test]
fn qualified_annotation_matches_by_last_segment() {
    let files = vec![
        sf(
            "m.rs",
            "#[lightblue_macro::component(Game)]\npub struct X;\n#[inputs(Game)]\npub enum Ins {\n    None,\n}\n",
        ),
    ];
    let out = generate(&files).unwrap();
    assert!(out.artifact.contains("    X(crate::m::X),\n"));
}

#[test]
fn qualified_directive_matches_by_last_segment() {
    let files = vec![
        sf("a.rs", "lightyear::protocolize! {\n    Self = Game,\n}\n"),
        sf("b.rs", "lightyear::protocolize! {\n    Self = Game,\n}\n"),
    ];
    assert!(generate(&files).is_err());
}

#[test]
fn last_recognized_annotation_wins() {
    let files = vec![
        sf(
            "m.rs",
            "#[component(A)]\n#[message(B)]\npub struct X;\n#[inputs(B)]\npub enum Ins {\n    None,\n}\n",
        ),
    ];
    let out = generate(&files).unwrap();
    assert!(out.artifact.contains("pub enum BComponents {\n}\n"));
    assert!(out.artifact.contains("pub enum BMessages {\n    X(crate::m::X),\n}\n"));
    assert!(!out.artifact.contains("AComponents"));
}
