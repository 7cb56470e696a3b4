use solray::artifact_index::{build_index, ArtifactDeclarations, ArtifactEntry, ArtifactIndex};
use solray::inheritance::InheritanceNode;
use solray::listing::LightNode;
use solray::resolution::{
    call_path_artifact, declaration_of, inheritance_graph_artifact, list_declarations, select_deployable, select_inheritance_root, external_functions_artifact, inheritance_report, interface_artifact,
    list_lines, modifiers_artifact, select_declaration, sort_declarations, storage_layout_artifact, Declaration,
    DeclarationKind,
};
use solray::transfer_scan::{scan_source_path, TopNodeKind};
use solray::build_info::BuildInfo;

fn entry(path: &str, source: Option<&str>) -> ArtifactEntry {
    ArtifactEntry { path: path.to_string(), source_path: source.map(|s| s.to_string()) }
}

fn dupe_index() -> ArtifactIndex {
    let mut index = ArtifactIndex::new();
    index.add("Dupe", entry("out/B.sol/Dupe.json", Some("src/B.sol")));
    index.add("Dupe", entry("out/A.sol/Dupe.json", None));
    index.add("One", entry("out/One.sol/One.json", Some("src/One.sol")));
    index
}

#[test]
fn ambiguous_names_suggest_each_candidate_sorted_by_path() {
    let index = dupe_index();
    assert_eq!(
        interface_artifact(&index, "Dupe", None, "", false).unwrap_err(),
        "found 2 \"Dupe\"\n\nSelect one of the following:\n\nsolray gen interface A.sol:Dupe\nsolray gen interface src/B.sol:Dupe\n"
    );
    assert_eq!(
        external_functions_artifact(&index, "Dupe", None, "", false).unwrap_err(),
        "found 2 \"Dupe\"\n\nSelect one of the following:\n\nsolray inspect external-functions A.sol:Dupe\nsolray inspect external-functions src/B.sol:Dupe\n"
    );
    assert_eq!(
        modifiers_artifact(&index, "Dupe", None, "", false).unwrap_err(),
        "found 2 \"Dupe\"\n\nSelect one of the following:\n\nhawk inspect modifiers A.sol:Dupe\nhawk inspect modifiers B.sol:Dupe\n"
    );
    assert!(storage_layout_artifact(&index, "Dupe").unwrap_err().starts_with("found 2 \"Dupe\""));
    assert_eq!(call_path_artifact(&index, "Dupe", None, "", false).unwrap(), "out/B.sol/Dupe.json");
}

#[test]
fn names_and_files_resolve_per_command() {
    let index = dupe_index();
    assert_eq!(interface_artifact(&index, "Missing", None, "", false).unwrap_err(), "\"Missing\" not found.");
    assert_eq!(interface_artifact(&index, "One", None, "", false).unwrap(), "out/One.sol/One.json");
    assert_eq!(
        interface_artifact(&index, "Dupe", Some("src/B.sol"), "out/src/B.sol/Dupe.json", false).unwrap(),
        "out/B.sol/Dupe.json"
    );
    assert_eq!(
        interface_artifact(&index, "Dupe", Some("src/C.sol"), "out/src/C.sol/Dupe.json", false).unwrap_err(),
        "\"Dupe\" not found."
    );
    assert_eq!(
        external_functions_artifact(&index, "Dupe", Some("src/C.sol"), "out/src/C.sol/Dupe.json", false).unwrap(),
        "out/src/C.sol/Dupe.json"
    );
    assert_eq!(
        modifiers_artifact(&index, "Dupe", Some("src/C.sol"), "out/C.sol/Dupe.json", false).unwrap_err(),
        "artifact `out/C.sol/Dupe.json` not found"
    );
    assert_eq!(call_path_artifact(&index, "Dupe", Some("x"), "out/x/Dupe.json", true).unwrap(), "out/x/Dupe.json");
}

fn declares() -> ArtifactDeclarations {
    ArtifactDeclarations { parsed: true, abi_non_empty: true, nodes: None }
}

#[test]
fn built_index_lists_declaring_json_artifacts_under_their_stem() {
    let silent = ArtifactDeclarations {
        parsed: true,
        abi_non_empty: false,
        nodes: Some(vec![("ContractDefinition".to_string(), Some("Other".to_string()))]),
    };
    let files = vec![
        (entry("out/A.sol/A.json", None), declares()),
        (entry("out/build-info/x.json", None), declares()),
        (entry("out/A.sol/A.metadata", None), declares()),
        (entry("out/B.sol/B.json", None), silent),
        (entry("out/C.sol/A.json", None), declares()),
    ];
    let index = build_index(&files);
    assert_eq!(index.get("A").unwrap().len(), 2);
    assert!(index.get("B").is_none());
    assert!(index.get("x").is_none());
    assert_eq!(index.all_entries().len(), 2);
    assert!(!index.is_empty());
}

fn decl(name: &str, kind: DeclarationKind, file: &str) -> Declaration {
    Declaration { name: name.to_string(), kind, file: file.to_string() }
}

fn node(kind: &str, name: &str, is_abstract: bool) -> LightNode {
    LightNode {
        node_type: "ContractDefinition".to_string(),
        name: Some(name.to_string()),
        is_abstract,
        contract_kind: Some(kind.to_string()),
    }
}

#[test]
fn declarations_are_classified_sorted_and_listed() {
    let nodes = vec![node("contract", "Other", false), node("contract", "Base", true)];
    let d = declaration_of("Base", &nodes, "src/Base.sol").unwrap();
    assert_eq!(d.kind, DeclarationKind::AbstractContract);
    assert!(declaration_of("Missing", &nodes, "src/Base.sol").is_none());
    let lib = declaration_of("L", &vec![node("library", "L", false)], "src/L.sol").unwrap();
    assert_eq!(lib.kind, DeclarationKind::Library);
    let ds = sort_declarations(&vec![lib, d, decl("A", DeclarationKind::Contract, "src/A.sol")]);
    assert_eq!(ds[0].name, "A");
    assert_eq!(ds[1].name, "Base");
    assert_eq!(list_lines(&ds, DeclarationKind::AbstractContract), vec!["src/Base.sol:Base".to_string()]);
}

#[test]
fn declarations_are_selected_by_path_or_name() {
    let ds = vec![
        decl("ContractA", DeclarationKind::Contract, "/p/src/Foo.sol"),
        decl("ContractA", DeclarationKind::Contract, "/p/src/Bar.sol"),
        decl("ContractB", DeclarationKind::Contract, "/p/src/B.sol"),
    ];
    assert_eq!(
        select_declaration("ContractA", &ds, "/p", "hawk inspect storages", "contracts").unwrap_err(),
        "found 2 \"ContractA\"\n\nSelect one of the following:\n\nhawk inspect storages src/Bar.sol:ContractA\nhawk inspect storages src/Foo.sol:ContractA\n"
    );
    assert_eq!(
        select_declaration("Missing", &ds, "/p", "hawk inspect storages", "contracts").unwrap_err(),
        "\"Missing\" not found.\n\nAvailable contracts: ContractA, ContractB"
    );
    assert_eq!(select_declaration("src/Foo.sol:ContractA", &ds, "/p", "x", "contracts").unwrap().file, "/p/src/Foo.sol");
    assert_eq!(
        select_declaration("src/Nope.sol:ContractA", &ds, "/p", "x", "contracts").unwrap_err(),
        "\"src/Nope.sol:ContractA\" not found.\n\nAvailable matches for \"ContractA\":"
    );
    assert_eq!(select_declaration("ContractB", &ds, "/p", "x", "contracts").unwrap().name, "ContractB");
}

#[test]
fn inheritance_report_numbers_the_sources() {
    let t = InheritanceNode {
        name: "Child".to_string(),
        file: "src/Child.sol".to_string(),
        parents: vec![InheritanceNode { name: "Base".to_string(), file: "src/Base.sol".to_string(), parents: vec![] }],
    };
    let r = inheritance_report(&t);
    assert!(r.starts_with("Inheritance graph:\n\nChild\n"));
    assert!(r.ends_with("\nSources:\n\n1. src/Child.sol:Child\n2. src/Base.sol:Base\n"));
}

#[test]
fn scan_sources_come_from_build_info_for_the_asset_scan() {
    let infos = vec![BuildInfo { id: "a".to_string(), source_id_to_path: vec![("3".to_string(), "src/Real.sol".to_string())] }];
    assert_eq!(scan_source_path(Some((TopNodeKind::ContractDefinition, 3)), &infos, "src/Old.sol", true), "src/Real.sol");
    assert_eq!(scan_source_path(Some((TopNodeKind::ContractDefinition, 3)), &infos, "src/Old.sol", false), "src/Old.sol");
    assert_eq!(scan_source_path(Some((TopNodeKind::Other, 3)), &infos, "src/Old.sol", true), "src/Old.sol");
    assert_eq!(scan_source_path(Some((TopNodeKind::ImportDirective, 4)), &infos, "src/Old.sol", true), "src/Old.sol");
}

#[test]
fn commands_check_the_configuration_first() {
    let ds = vec![
        decl("B", DeclarationKind::AbstractContract, "src/B.sol"),
        decl("A", DeclarationKind::Contract, "src/A.sol"),
        decl("I", DeclarationKind::Interface, "src/I.sol"),
    ];
    let ok = "[profile.default]\nast = true\n";
    assert_eq!(list_declarations(ok, "/p/foundry.toml", &ds, DeclarationKind::Contract).unwrap(), vec!["src/A.sol:A".to_string()]);
    assert_eq!(
        list_declarations("", "/p/foundry.toml", &ds, DeclarationKind::Contract).unwrap_err(),
        "`ast = true` must be set in the [profile.default] section of /p/foundry.toml"
    );
    assert_eq!(
        select_deployable(ok, "/p/foundry.toml", "A", &ds, "").unwrap_err(),
        "`storageLayout` must be set in the [profile.default].extra_output section of /p/foundry.toml"
    );
    let layout = "[profile.default]\nast = true\nextra_output = [\"storageLayout\"]\n";
    assert_eq!(select_deployable(layout, "/p/foundry.toml", "A", &ds, "").unwrap().file, "src/A.sol");
    assert_eq!(
        select_deployable(layout, "/p/foundry.toml", "B", &ds, "").unwrap_err(),
        "\"B\" not found.\n\nAvailable contracts: A"
    );
    assert_eq!(select_inheritance_root(ok, "/p/foundry.toml", "I", &ds, "").unwrap().name, "I");
}

#[test]
fn inheritance_graph_suggests_artifacts_by_their_place_under_out() {
    let index = dupe_index();
    assert_eq!(
        inheritance_graph_artifact(&index, "Dupe", None, "", false, "out").unwrap_err(),
        "found 2 \"Dupe\"\n\nSelect one of the following:\n\nhawk inspect inheritance-graph A.sol:Dupe\nhawk inspect inheritance-graph B.sol:Dupe\n"
    );
    assert_eq!(
        inheritance_graph_artifact(&index, "Dupe", Some("x"), "out/x/Dupe.json", false, "out").unwrap_err(),
        "artifact `out/x/Dupe.json` not found"
    );
    assert_eq!(inheritance_graph_artifact(&index, "One", None, "", false, "out").unwrap(), "out/One.sol/One.json");
}
