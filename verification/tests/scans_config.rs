use solray::artifact_index::{ArtifactEntry, ArtifactIndex};
use solray::build_info::path_eq;
use solray::call_graph::{resolve_artifact, resolve_artifact_with_candidates};
use solray::ast::{FunctionKind, Visibility};
use solray::foundry_config::{
    directories_from_config, project_directories, validate_config, validate_storage_layout_config, TomlValue,
};
use solray::scanners::AssetTransferKind;
use solray::transfer_scan::{
    find_asset_transfers, find_erc20_sinks, ScanCallee, ScanContract, ScanExpr, ScanFunction, ScanStmt, ScanUnit,
};

const TOKEN_SOL: &str = "contract Vault {\n    function pay(address to) external {\n        token.transfer(to,   amount);\n        payable(to).transfer(1);\n        (bool ok, ) = to.call{value: 1}(\"\");\n    }\n    receive() external payable {\n    }\n}\n";

fn span(content: &str, needle: &str) -> (usize, usize) {
    (content.find(needle).unwrap(), needle.len())
}

fn call(content: &str, text: &str, callee: ScanCallee, n_args: usize) -> ScanExpr {
    let (offset, length) = span(content, text);
    let mut arguments = Vec::new();
    for _ in 0..n_args {
        arguments.push(ScanExpr::Other);
    }
    ScanExpr::Call { offset, length, callee, arguments }
}

fn vault_unit(file: &str, content: Option<&str>) -> ScanUnit {
    let c = TOKEN_SOL;
    let body = vec![
        ScanStmt::Expression(call(c, "token.transfer(to,   amount)", ScanCallee::Member("transfer".to_string()), 2)),
        ScanStmt::Expression(call(c, "payable(to).transfer(1)", ScanCallee::Member("transfer".to_string()), 1)),
        ScanStmt::VariableDeclaration(Some(call(
            c,
            "to.call{value: 1}(\"\")",
            ScanCallee::Options { names: vec!["value".to_string()], member: Some("call".to_string()) },
            1,
        ))),
    ];
    let (pay_off, pay_len) = span(c, "function pay(address to) external {\n        token.transfer(to,   amount);\n        payable(to).transfer(1);\n        (bool ok, ) = to.call{value: 1}(\"\");\n    }");
    let (rec_off, rec_len) = span(c, "receive() external payable {\n    }");
    ScanUnit {
        file: file.to_string(),
        content: content.map(|s| s.to_string()),
        contracts: vec![ScanContract {
            name: "Vault".to_string(),
            functions: vec![
                ScanFunction {
                    name: "pay".to_string(),
                    kind: FunctionKind::Function,
                    visibility: Visibility::External,
                    payable: false,
                    offset: pay_off,
                    length: pay_len,
                    body: Some(body),
                },
                ScanFunction {
                    name: String::new(),
                    kind: FunctionKind::Receive,
                    visibility: Visibility::External,
                    payable: true,
                    offset: rec_off,
                    length: rec_len,
                    body: Some(vec![]),
                },
            ],
        }],
    }
}

#[test]
fn erc20_scan_finds_transfer_calls_once() {
    let units = vec![vault_unit("src/Vault.sol", Some(TOKEN_SOL)), vault_unit("src/Vault.sol", Some(TOKEN_SOL))];
    let sinks = find_erc20_sinks(&units, "src");
    assert_eq!(sinks.len(), 2);
    assert_eq!(sinks[0].contract_name, "Vault");
    assert_eq!(sinks[0].function_name, "pay");
    assert_eq!(sinks[0].transfer_expression, "token.transfer(to,   amount)");
    assert_eq!(sinks[0].file, "src/Vault.sol");
    assert_eq!(sinks[0].line, 3);
    assert_eq!(sinks[1].transfer_expression, "payable(to).transfer(1)");
    assert_eq!(sinks[1].line, 4);
    assert_eq!(sinks[0].to_string(), "src/Vault.sol:3:token.transfer(to,   amount)");
}

#[test]
fn erc20_scan_keeps_only_the_source_directory() {
    let units = vec![vault_unit("lib/Vault.sol", Some(TOKEN_SOL))];
    assert!(find_erc20_sinks(&units, "src").is_empty());
    let unreadable = vec![vault_unit("src/Vault.sol", None)];
    assert!(find_erc20_sinks(&unreadable, "src").is_empty());
}

#[test]
fn asset_scan_classifies_every_transfer() {
    let units = vec![vault_unit("src/Vault.sol", Some(TOKEN_SOL))];
    let ts = find_asset_transfers(&units, "src");
    assert_eq!(ts.len(), 4);
    assert_eq!(ts[0].kind, AssetTransferKind::Erc20Transfer);
    assert_eq!(ts[0].expression, "token.transfer(to, amount)");
    assert_eq!(ts[0].visibility, "external");
    assert_eq!(ts[1].kind, AssetTransferKind::EthTransfer);
    assert_eq!(ts[2].kind, AssetTransferKind::EthCall);
    assert_eq!(ts[2].expression, "to.call{value: 1}(\"\")");
    assert_eq!(ts[2].line, 5);
    assert_eq!(ts[3].kind, AssetTransferKind::EthReceive);
    assert_eq!(ts[3].function_name, "receive");
    assert_eq!(ts[3].expression, "receive() external payable");
    assert_eq!(ts[3].line, 7);
}

#[test]
fn directories_default_when_the_profile_is_silent() {
    let d = project_directories("").unwrap();
    assert_eq!(d.src, "src");
    assert_eq!(d.test, "test");
    assert_eq!(d.libs, vec!["lib".to_string(), "node_modules".to_string()]);
}

#[test]
fn directories_come_from_the_default_profile() {
    let text = "[profile.default]\nsrc = \"contracts\"\ntest = \"tests\"\nlibs = [\"deps\", 3, \"vendor\"]\nast = true\n";
    let d = project_directories(text).unwrap();
    assert_eq!(d.src, "contracts");
    assert_eq!(d.test, "tests");
    assert_eq!(d.libs, vec!["deps".to_string(), "vendor".to_string()]);
    assert!(validate_config(text, "/p/foundry.toml").is_ok());
    assert!(project_directories("not = [valid").is_err());
}

#[test]
fn directories_from_a_parsed_document() {
    let doc = TomlValue::Table(vec![(
        "profile".to_string(),
        TomlValue::Table(vec![(
            "default".to_string(),
            TomlValue::Table(vec![("src".to_string(), TomlValue::Integer(1))]),
        )]),
    )]);
    let d = directories_from_config(&doc);
    assert_eq!(d.src, "src");
}

#[test]
fn validate_requires_ast() {
    let err = validate_config("[profile.default]\nast = false\n", "/p/foundry.toml").unwrap_err();
    assert_eq!(err, "`ast = true` must be set in the [profile.default] section of /p/foundry.toml");
}

#[test]
fn project_validate_storage_layout_requires_extra_output() {
    let err = validate_storage_layout_config("[profile.default]\nast = true\n", "/p/foundry.toml").unwrap_err();
    assert_eq!(
        err,
        format!("`storageLayout` must be set in the [profile.default].extra_output section of {}", "/p/foundry.toml")
    );
}

#[test]
fn storage_layout_validate_storage_layout_requires_extra_output() {
    let text = "[profile.default]\nast = true\nextra_output = [\"abi\"]\n";
    let err = validate_storage_layout_config(text, "/q/foundry.toml").unwrap_err();
    assert_eq!(
        err,
        format!("`storageLayout` must be set in the [profile.default].extra_output section of {}", "/q/foundry.toml")
    );
    let ok = "[profile.default]\nast = true\nextra_output = [\"storageLayout\"]\n";
    assert!(validate_storage_layout_config(ok, "/q/foundry.toml").is_ok());
}

#[test]
fn normalize_expression_collapses_and_trims() {
    assert_eq!(
        solray::text::normalize_expression("  token.transfer(\n    to,  amount)  "),
        "token.transfer( to, amount)"
    );
}

#[test]
fn paths_compare_by_components() {
    assert!(path_eq("src//Base.sol", "src/Base.sol"));
    assert!(path_eq("src/./Base.sol", "src/Base.sol/"));
    assert!(!path_eq("./src/Base.sol", "src/Base.sol"));
    assert!(!path_eq("/src/Base.sol", "src/Base.sol"));
    assert!(!path_eq("src/Base.sol", "src/Other.sol"));
}

#[test]
fn artifact_ids_resolve_against_the_index() {
    let mut index = ArtifactIndex::new();
    index.add("Token", ArtifactEntry { path: "out/A.sol/Token.json".to_string(), source_path: Some("src/A.sol".to_string()) });
    index.add("Token", ArtifactEntry { path: "out/B.sol/Token.json".to_string(), source_path: Some("src/B.sol".to_string()) });
    index.add("Vault", ArtifactEntry { path: "out/V.sol/Vault.json".to_string(), source_path: None });
    assert_eq!(resolve_artifact(&index, "Vault", None, None).unwrap(), "out/V.sol/Vault.json");
    assert_eq!(resolve_artifact(&index, "Missing", None, None).unwrap_err(), "\"Missing\" not found.");
    assert_eq!(resolve_artifact(&index, "Token", Some("src/B.sol"), None).unwrap(), "out/B.sol/Token.json");
    assert_eq!(
        resolve_artifact(&index, "Token", Some("src/C.sol"), Some("out/C.sol/Token.json".to_string())).unwrap(),
        "out/C.sol/Token.json"
    );
    let (first, cands) = resolve_artifact_with_candidates(&index, "Token", None, None).unwrap();
    assert_eq!(first, "out/A.sol/Token.json");
    assert_eq!(cands.unwrap().len(), 2);
    let all = index.all_entries();
    assert_eq!(all.len(), 3);
}

fn one_call_unit(file: &str) -> ScanUnit {
    ScanUnit {
        file: file.to_string(),
        content: Some("x".to_string()),
        contracts: vec![ScanContract {
            name: "C".to_string(),
            functions: vec![ScanFunction {
                name: "f".to_string(),
                kind: FunctionKind::Function,
                visibility: Visibility::Public,
                payable: false,
                offset: 0,
                length: 1,
                body: Some(vec![ScanStmt::Expression(ScanExpr::Call {
                    offset: 0,
                    length: 1,
                    callee: ScanCallee::Member("transfer".to_string()),
                    arguments: vec![ScanExpr::Other, ScanExpr::Other],
                })]),
            }],
        }],
    }
}

#[test]
fn same_range_in_another_file_does_not_hide_a_source_call() {
    let units = vec![one_call_unit("test/T.sol"), one_call_unit("src/S.sol")];
    let sinks = find_erc20_sinks(&units, "src");
    assert_eq!(sinks.len(), 1);
    assert_eq!(sinks[0].file, "src/S.sol");
    assert_eq!(sinks[0].transfer_expression, "x");
    let ts = find_asset_transfers(&units, "src");
    assert_eq!(ts.len(), 1);
    assert_eq!(ts[0].file, "src/S.sol");
}
