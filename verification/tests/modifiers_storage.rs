use solray::modifiers::{inspect_modifiers, line_of_exec, ModifierContract, ModifierInfo, ModifierInspectorOutput, SourceText};
use solray::storage::{
    contract_declares_storage, ensure_layout_available, format_output, format_storage, layout_summary, LayoutChild,
    LayoutNode, StorageEntry, StorageLayout, StorageLayoutInspectorOutput, StorageType,
};

fn contract(name: &str, file: &str, bases: &[&str], modifiers: &[(&str, usize)]) -> ModifierContract {
    ModifierContract {
        name: name.to_string(),
        file: file.to_string(),
        bases: bases.iter().map(|b| b.to_string()).collect(),
        modifiers: modifiers.iter().map(|(n, o)| (n.to_string(), *o)).collect(),
    }
}

fn text(file: &str, content: &str) -> SourceText {
    SourceText { file: file.to_string(), bytes: Some(content.as_bytes().to_vec()) }
}

fn hierarchy() -> Vec<ModifierContract> {
    vec![
        contract("Child", "src/Child.sol", &["Middle", "Other"], &[("onlyChild", 12), ("onlyOwner", 30)]),
        contract("Middle", "src/Middle.sol", &["Base"], &[("whenLive", 5)]),
        contract("Base", "src/Base.sol", &[], &[("onlyOwner", 0), ("nonReentrant", 20)]),
        contract("Other", "src/Other.sol", &["Base"], &[("onlyOther", 3)]),
    ]
}

fn texts() -> Vec<SourceText> {
    vec![
        text("src/Child.sol", "contract Child\n{\n  modifier onlyChild\n  modifier onlyOwner\n"),
        text("src/Middle.sol", "line\nline\nline\n"),
        text("src/Base.sol", "a\nb\nc\nd\ne\nf\ng\nh\ni\nj\nk\n"),
        SourceText { file: "src/Other.sol".to_string(), bytes: None },
    ]
}

#[test]
fn modifiers_are_listed_most_derived_first_each_name_once() {
    let out = inspect_modifiers(&"Child".to_string(), &hierarchy(), &texts()).unwrap();
    let got: Vec<(String, String, usize)> =
        out.modifiers.iter().map(|m| (m.name.clone(), m.source_file.clone(), m.line)).collect();
    assert_eq!(
        got,
        vec![
            ("onlyChild".to_string(), "src/Child.sol".to_string(), 1),
            ("onlyOwner".to_string(), "src/Child.sol".to_string(), 3),
            ("whenLive".to_string(), "src/Middle.sol".to_string(), 2),
            ("nonReentrant".to_string(), "src/Base.sol".to_string(), 11),
            ("onlyOther".to_string(), "src/Other.sol".to_string(), 0),
        ]
    );
    assert_eq!(out.contract_name, "Child");
    assert_eq!(out.source_file, "src/Child.sol");
}

#[test]
fn modifiers_fail_for_an_unknown_base() {
    let mut cs = hierarchy();
    cs.push(contract("Broken", "src/Broken.sol", &["Missing"], &[]));
    let err = inspect_modifiers(&"Broken".to_string(), &cs, &texts()).unwrap_err();
    assert_eq!(err, "contract `Missing` not found in artifacts");
}

#[test]
fn modifier_report_lists_each_modifier() {
    let out = ModifierInspectorOutput::new(
        "Vault",
        "src/Vault.sol",
        vec![
            ModifierInfo { name: "onlyOwner".to_string(), source_file: "src/Vault.sol".to_string(), line: 10 },
            ModifierInfo { name: "whenNotPaused".to_string(), source_file: "src/Pausable.sol".to_string(), line: 7 },
        ],
    );
    assert_eq!(
        out.to_string(),
        "Contract: Vault\nSource: src/Vault.sol\n\nFound 2 modifiers.\n\n1. onlyOwner (source: src/Vault.sol:10)\n2. whenNotPaused (source: src/Pausable.sol:7)\n"
    );
}

#[test]
fn line_is_one_more_than_the_line_feeds_before_the_offset() {
    let ts = vec![text("a.sol", "x\ny\nz")];
    assert_eq!(line_of_exec(&ts, &"a.sol".to_string(), 0), 1);
    assert_eq!(line_of_exec(&ts, &"a.sol".to_string(), 2), 2);
    assert_eq!(line_of_exec(&ts, &"a.sol".to_string(), 100), 3);
    assert_eq!(line_of_exec(&ts, &"b.sol".to_string(), 1), 0);
}

fn entry(label: &str, slot: &str, offset: u64, key: &str) -> StorageEntry {
    StorageEntry { label: label.to_string(), slot: slot.to_string(), offset, type_key: key.to_string() }
}

fn layout() -> StorageLayout {
    StorageLayout {
        storage: vec![
            entry("count", "0", 0, "t_uint256"),
            entry("owner", "1", 0, "t_address"),
            entry("flags", "12", 20, "t_unknown"),
        ],
        types: vec![
            ("t_uint256".to_string(), StorageType { label: "uint256".to_string() }),
            ("t_address".to_string(), StorageType { label: "address".to_string() }),
        ],
    }
}

#[test]
fn layout_table_aligns_slots() {
    let out = StorageLayoutInspectorOutput::new(layout());
    assert_eq!(
        out.to_string(),
        "slot  0 offset 0 count uint256\nslot  1 offset 0 owner address\nslot 12 offset 20 flags t_unknown\n"
    );
}

#[test]
fn empty_layout_table_says_so() {
    let out = StorageLayoutInspectorOutput::new(StorageLayout { storage: Vec::new(), types: Vec::new() });
    assert_eq!(out.to_string(), "No storage slots found.\n");
}

#[test]
fn layout_summary_numbers_the_entries() {
    let l = layout();
    assert_eq!(format_storage(&l.storage[0], &l.types), "count (slot 0, offset 0, type uint256)");
    assert_eq!(
        layout_summary(&l),
        "Found 3 storages\n\n1. count (slot 0, offset 0, type uint256)\n2. owner (slot 1, offset 0, type address)\n3. flags (slot 12, offset 20, type t_unknown)\n"
    );
    assert_eq!(format_output(&Vec::new()), "Found 0 storages\n\n");
}

fn var(constant: bool, mutability: &str) -> LayoutChild {
    LayoutChild {
        node_type: "VariableDeclaration".to_string(),
        state_variable: true,
        constant,
        mutability: mutability.to_string(),
    }
}

fn node(id: i64, name: &str, children: Vec<LayoutChild>, bases: Vec<Option<i64>>) -> LayoutNode {
    LayoutNode {
        node_type: "ContractDefinition".to_string(),
        id,
        name: Some(name.to_string()),
        children,
        bases,
    }
}

fn nodes() -> Vec<LayoutNode> {
    vec![
        node(1, "Base", vec![var(false, "mutable")], vec![]),
        node(2, "Child", vec![var(true, "constant")], vec![Some(1)]),
        node(3, "Immutable", vec![var(false, "immutable")], vec![]),
        node(4, "Loop", vec![], vec![Some(5)]),
        node(5, "Loop2", vec![], vec![Some(4)]),
    ]
}

#[test]
fn storage_declared_by_a_base_counts() {
    let ns = nodes();
    assert!(contract_declares_storage(&ns, &"Child".to_string()));
    assert!(contract_declares_storage(&ns, &"Base".to_string()));
    assert!(!contract_declares_storage(&ns, &"Immutable".to_string()));
    assert!(!contract_declares_storage(&ns, &"Loop".to_string()));
    assert!(!contract_declares_storage(&ns, &"Missing".to_string()));
}

#[test]
fn empty_layout_with_declared_storage_is_refused() {
    let ns = Some(nodes());
    let empty = Some(StorageLayout { storage: Vec::new(), types: Vec::new() });
    let err = ensure_layout_available(&empty, &ns, &"out/C.sol/Child.json".to_string(), &"Child".to_string()).unwrap_err();
    assert_eq!(
        err,
        "artifact `out/C.sol/Child.json` has an empty storage layout even though the contract declares storage variables; storage layout output is not available for solc < 0.6 builds"
    );
    assert!(ensure_layout_available(&empty, &ns, &"x".to_string(), &"Immutable".to_string()).is_ok());
    assert!(ensure_layout_available(&Some(layout()), &ns, &"x".to_string(), &"Child".to_string()).is_ok());
    assert!(ensure_layout_available(&None, &None, &"x".to_string(), &"Child".to_string()).is_ok());
}
