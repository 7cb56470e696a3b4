use solray::build_info::BuildInfo;
use solray::call_tree::CallGraphNode;
use solray::ids::{ArtifactId, FunctionID, StorageLayoutId};
use solray::inheritance::InheritanceNode;
use solray::node;
use solray::scanners::{AssetTransfer, AssetTransferKind, Erc20TransferSink};
use solray::text::{base_indent, build_line_offsets, byte_offset_to_line, dedent, extract_natspec};

fn pair(a: &str, b: &str) -> (String, String) {
    (a.to_string(), b.to_string())
}

/// Two build-infos of an incremental build: the old one with all six
/// sources, the new one with the three recompiled sources renumbered.
fn incremental_build_infos() -> Vec<BuildInfo> {
    let old = BuildInfo {
        id: "aaaaaaaaaaaaaaaa".to_string(),
        source_id_to_path: vec![
            pair("0", "src/AnotherBase.sol"),
            pair("1", "src/Base.sol"),
            pair("2", "src/Child.sol"),
            pair("3", "src/Middle.sol"),
            pair("4", "src/MultiBase.sol"),
            pair("5", "src/MultiChild.sol"),
        ],
    };
    let new = BuildInfo {
        id: "bbbbbbbbbbbbbbbb".to_string(),
        source_id_to_path: vec![
            pair("0", "src/Base.sol"),
            pair("1", "src/Child.sol"),
            pair("2", "src/Middle.sol"),
        ],
    };
    vec![old, new]
}

#[test]
fn find_for_source_picks_new_build_for_recompiled_file() {
    let infos = incremental_build_infos();
    let found = BuildInfo::find_for_source(&infos, "0", "src/Base.sol");
    assert!(found.is_some());
    assert_eq!(found.unwrap().id, "bbbbbbbbbbbbbbbb");
}

#[test]
fn find_for_source_picks_old_build_for_unchanged_file() {
    let infos = incremental_build_infos();
    let found = BuildInfo::find_for_source(&infos, "0", "src/AnotherBase.sol");
    assert!(found.is_some());
    assert_eq!(found.unwrap().id, "aaaaaaaaaaaaaaaa");
}

#[test]
fn find_for_source_returns_none_when_no_build_matches() {
    let infos = incremental_build_infos();
    let found = BuildInfo::find_for_source(&infos, "9", "src/Nowhere.sol");
    assert!(found.is_none());
}

#[test]
fn resolve_source_id_falls_back_across_builds() {
    let infos = incremental_build_infos();
    let resolved = BuildInfo::resolve_source_id(&infos, "4");
    assert_eq!(resolved.map(|s| s.as_str()), Some("src/MultiBase.sol"));
}

#[test]
fn resolve_source_id_returns_none_for_unknown_id() {
    let infos = incremental_build_infos();
    let resolved = BuildInfo::resolve_source_id(&infos, "99");
    assert!(resolved.is_none());
}

fn sample_tree() -> CallGraphNode {
    CallGraphNode::new(
        "Main::execute(uint256)",
        "Main",
        "src/Main.sol".to_string(),
        "public",
        "276:110",
        vec![
            CallGraphNode::new("Helper::assist(uint256)", "Helper", "src/Helper.sol".to_string(), "public", "109:72", vec![]),
            CallGraphNode::new(
                "Main::internalWork()",
                "Main",
                "src/Main.sol".to_string(),
                "internal",
                "392:79",
                vec![CallGraphNode::new("Base::baseWork()", "Base", "src/Main.sol".to_string(), "internal", "226:42", vec![])],
            ),
        ],
    )
}

#[test]
fn call_graph_display_simple_function() {
    let node = CallGraphNode::new("Main::execute(uint256)", "Main", "src/Main.sol".to_string(), "public", "276:110", vec![]);
    assert_eq!(node.to_string(), "Main.execute(uint256) (public)\n");
}

#[test]
fn call_graph_display_nested_function_calls() {
    let expected = "Main.execute(uint256) (public)\n\u{251c}\u{2500}\u{2500} Helper.assist(uint256) (public)\n\u{2514}\u{2500}\u{2500} Main.internalWork() (internal)\n    \u{2514}\u{2500}\u{2500} Base.baseWork() (internal)\n";
    assert_eq!(sample_tree().to_string(), expected);
}

#[test]
fn node_display_simple_function() {
    let n = node::CallGraphNode::new("Main::execute(uint256)", "Main", "src/Main.sol".to_string(), "public", "276:110", vec![]);
    assert_eq!(n.to_string(), "Main::execute(uint256) (public)\n");
}

#[test]
fn node_display_nested_function_calls() {
    let n = node::CallGraphNode::new(
        "Main::execute(uint256)",
        "Main",
        "src/Main.sol".to_string(),
        "public",
        "276:110",
        vec![
            node::CallGraphNode::new("Helper::assist(uint256)", "Helper", "src/Helper.sol".to_string(), "public", "109:72", vec![]),
            node::CallGraphNode::new(
                "Main::internalWork()",
                "Main",
                "src/Main.sol".to_string(),
                "internal",
                "392:79",
                vec![node::CallGraphNode::new("Base::baseWork()", "Base", "src/Main.sol".to_string(), "internal", "226:42", vec![])],
            ),
        ],
    );
    let expected = "Main::execute(uint256) (public)\n\u{251c}\u{2500}\u{2500} Helper::assist(uint256) (public)\n\u{2514}\u{2500}\u{2500} Main::internalWork() (internal)\n    \u{2514}\u{2500}\u{2500} Base::baseWork() (internal)\n";
    assert_eq!(n.to_string(), expected);
}

#[test]
fn valid_function_id() {
    let fid = FunctionID::try_from("Main::execute").unwrap();
    assert_eq!(fid.contract_name(), "Main");
    assert_eq!(fid.function_name(), "execute");
}

#[test]
fn display_roundtrip() {
    let fid = FunctionID::try_from("Main::execute").unwrap();
    assert_eq!(fid.to_string(), "Main::execute");
}

#[test]
fn from_string_works() {
    let fid = FunctionID::try_from_string("Contract::method".to_string()).unwrap();
    assert_eq!(fid.contract_name(), "Contract");
    assert_eq!(fid.function_name(), "method");
}

#[test]
fn missing_separator_errors() {
    let err = FunctionID::try_from("Main.execute").unwrap_err();
    assert_eq!(err.to_string(), "invalid function ID \"Main.execute\". Expected format: Contract::function",);
}

#[test]
fn empty_contract_errors() {
    let err = FunctionID::try_from("::execute").unwrap_err();
    assert_eq!(err.to_string(), "invalid function ID \"::execute\". Expected format: Contract::function",);
}

#[test]
fn empty_function_errors() {
    let err = FunctionID::try_from("Main::").unwrap_err();
    assert_eq!(err.to_string(), "invalid function ID \"Main::\". Expected format: Contract::function",);
}

#[test]
fn both_empty_errors() {
    let err = FunctionID::try_from("::").unwrap_err();
    assert_eq!(err.to_string(), "invalid function ID \"::\". Expected format: Contract::function",);
}

#[test]
fn empty_string_errors() {
    let err = FunctionID::try_from("").unwrap_err();
    assert_eq!(err.to_string(), "invalid function ID \"\". Expected format: Contract::function",);
}

#[test]
fn resolved_call_graph_byte_offset_to_line_finds_correct_line() {
    let content = "line1\nline2\nline3\n";
    let offsets = build_line_offsets(content);
    assert_eq!(byte_offset_to_line(0, &offsets), 1);
    assert_eq!(byte_offset_to_line(3, &offsets), 1);
    assert_eq!(byte_offset_to_line(6, &offsets), 2);
    assert_eq!(byte_offset_to_line(8, &offsets), 2);
    assert_eq!(byte_offset_to_line(12, &offsets), 3);
    assert_eq!(byte_offset_to_line(14, &offsets), 3);
}

#[test]
fn display_single_node() {
    let node = InheritanceNode { name: "Root".into(), file: "src/Root.sol".into(), parents: vec![] };
    assert_eq!(node.to_string(), "Root\n");
}

#[test]
fn display_with_children() {
    let leaf = InheritanceNode { name: "Leaf".into(), file: "src/Leaf.sol".into(), parents: vec![] };
    let root = InheritanceNode { name: "Root".into(), file: "src/Root.sol".into(), parents: vec![leaf] };
    assert_eq!(root.to_string(), "Root\n\u{2514}\u{2500}\u{2500} Leaf\n");
}

#[test]
fn display_nested() {
    let base = InheritanceNode { name: "Base".into(), file: "src/Base.sol".into(), parents: vec![] };
    let middle = InheritanceNode { name: "Middle".into(), file: "src/Middle.sol".into(), parents: vec![base] };
    let child = InheritanceNode { name: "Child".into(), file: "src/Child.sol".into(), parents: vec![middle] };
    assert_eq!(child.to_string(), "Child\n\u{2514}\u{2500}\u{2500} Middle\n    \u{2514}\u{2500}\u{2500} Base\n");
}

#[test]
fn artifact_id_parses_name_only() {
    let id = ArtifactId::new("MyContract");
    assert_eq!(id.name, "MyContract");
    assert_eq!(id.file, None);
}

#[test]
fn artifact_id_parses_file_and_name() {
    let id = ArtifactId::new("Foo.sol:MyContract");
    assert_eq!(id.name, "MyContract");
    assert_eq!(id.file, Some("Foo.sol".to_string()));
}

#[test]
fn storage_layout_id_parses_name_only() {
    let id = StorageLayoutId::new("MyContract");
    assert_eq!(id.name, "MyContract");
    assert_eq!(id.file, None);
}

#[test]
fn storage_layout_id_parses_file_and_name() {
    let id = StorageLayoutId::new("src/Foo.sol:MyContract");
    assert_eq!(id.name, "MyContract");
    assert_eq!(id.file, Some("src/Foo.sol".to_string()));
}

#[test]
fn display_formats_correctly() {
    let transfer = AssetTransfer {
        contract_name: "AssetTransferTest".to_string(),
        function_name: "erc20Transfer".to_string(),
        visibility: "external".to_string(),
        expression: "token.transfer(to, amount)".to_string(),
        kind: AssetTransferKind::Erc20Transfer,
        file: "src/AssetTransfers.sol".to_string(),
        line: 14,
    };
    assert_eq!(transfer.expression, "token.transfer(to, amount)");
}

#[test]
fn sink_display_formats_as_file_line_expression() {
    let sink = Erc20TransferSink {
        contract_name: "Token".to_string(),
        function_name: "transferToken".to_string(),
        transfer_expression: "IERC20(token).safeTransfer(to, amount)".to_string(),
        file: "src/Token.sol".to_string(),
        line: 42,
    };
    assert_eq!(sink.to_string(), "src/Token.sol:42:IERC20(token).safeTransfer(to, amount)");
}

#[test]
fn build_line_offsets_works() {
    let content = "line1\nline2\nline3\n";
    let offsets = build_line_offsets(content);
    assert_eq!(offsets, vec![0, 0, 6, 12, 18]);
}

#[test]
fn source_graph_byte_offset_to_line_finds_correct_line() {
    let content = "line1\nline2\nline3\n";
    let offsets = build_line_offsets(content);
    assert_eq!(byte_offset_to_line(0, &offsets), 1);
    assert_eq!(byte_offset_to_line(3, &offsets), 1);
    assert_eq!(byte_offset_to_line(6, &offsets), 2);
}

#[test]
fn extract_natspec_gets_doc_comments() {
    let content = "/// @notice Does something.\n/// @param x The input.\nfunction foo(uint256 x) {}";
    let fn_offset = 52;
    let natspec = extract_natspec(content, fn_offset);
    assert_eq!(natspec, "/// @notice Does something.\n/// @param x The input.\n");
}

#[test]
fn base_indent_finds_leading_whitespace() {
    let content = "    function foo() {}\n";
    assert_eq!(base_indent(content, 4), 4);
}

#[test]
fn base_indent_zero_for_no_whitespace() {
    let content = "function foo() {}\n";
    assert_eq!(base_indent(content, 0), 0);
}

#[test]
fn dedent_strips_leading_spaces() {
    let text = "    /// @notice hi\n    /// @param x\n\nfunction foo() {\n    bar();\n}\n";
    let result = dedent(text, 4);
    assert_eq!(result, "/// @notice hi\n/// @param x\n\nfunction foo() {\nbar();\n}\n");
}

#[test]
fn dedent_preserves_text_with_no_indent() {
    let text = "function foo() {}\n";
    assert_eq!(dedent(text, 0), text);
}

#[test]
fn find_for_source_compares_paths_by_components() {
    let infos = incremental_build_infos();
    let found = BuildInfo::find_for_source(&infos, "0", "src//Base.sol");
    assert_eq!(found.unwrap().id, "bbbbbbbbbbbbbbbb");
}
