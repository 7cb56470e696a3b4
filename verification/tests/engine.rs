use solray::artifact_index::ArtifactEntry;
use solray::ast::{
    format_params, format_type_name, is_low_level_call, short_user_defined_name, ElementaryType, Expr,
    FunctionKind, Stmt, TypeName, TypeStyle, Visibility,
};
use solray::call_engine::{
    ArtifactFunctions, ContractBases, Dialect, FunctionInfo, ModifierDefinition, ModifierInvocation,
    ModifierInvocationKind, Program, SymbolEntry,
};
use solray::call_graph::{build_call_tree, format_ambiguity_error};

fn ident(name: &str, r: Option<i64>) -> Expr {
    Expr::Identifier { name: name.to_string(), referenced_declaration: r }
}

fn call(callee: Expr, args: Vec<Expr>) -> Expr {
    Expr::FunctionCall { callee: Box::new(callee), arguments: args }
}

fn func(id: i64, name: &str, contract: &str, vis: Visibility, offset: usize, body: Vec<Stmt>) -> FunctionInfo {
    FunctionInfo {
        id,
        name: name.to_string(),
        contract_name: contract.to_string(),
        file: "src/Main.sol".to_string(),
        is_interface: false,
        parameters: vec![],
        visibility: vis,
        kind: FunctionKind::Function,
        src_offset: offset,
        src_length: 10,
        body: Some(body),
        modifiers: vec![],
        implemented: true,
        is_state_variable: false,
    }
}

fn contract(name: &str, bases: Vec<Option<i64>>) -> ContractBases {
    ContractBases { name: name.to_string(), is_plain_contract: true, bases, base_names: Vec::new() }
}

fn symbol(id: i64, artifact: usize, is_contract: bool, name: &str) -> SymbolEntry {
    SymbolEntry { id, artifact, is_contract, name: name.to_string(), build_info: "b1".to_string() }
}

/// `Main.execute` calls `helper`, which calls `execute` again, then makes a
/// low-level call; `Main` inherits `Base`, whose `hook` `Main` overrides.
fn program() -> Program {
    let execute = func(
        1,
        "execute",
        "Main",
        Visibility::Public,
        100,
        vec![
            Stmt::Expression(call(ident("helper", Some(2)), vec![])),
            Stmt::Expression(call(
                Expr::MemberAccess { expression: Box::new(ident("addr", None)), member_name: "call".to_string(), referenced_declaration: None },
                vec![],
            )),
        ],
    );
    let helper = func(2, "helper", "Main", Visibility::Internal, 200, vec![
        Stmt::Return(Some(call(ident("execute", Some(1)), vec![]))),
        Stmt::Expression(call(ident("hook", Some(11)), vec![])),
    ]);
    let hook_main = func(3, "hook", "Main", Visibility::Internal, 300, vec![]);
    let hook_base = func(11, "hook", "Base", Visibility::Internal, 50, vec![]);
    let main_art = ArtifactFunctions {
        functions: vec![execute, helper, hook_main],
        modifiers: vec![],
        contracts: vec![contract("Main", vec![Some(10)])],
        build_info: "b1".to_string(),
    };
    let base_art = ArtifactFunctions {
        functions: vec![hook_base],
        modifiers: vec![ModifierDefinition { id: 12, body: vec![] }],
        contracts: vec![contract("Base", vec![])],
        build_info: "b1".to_string(),
    };
    Program {
        artifacts: vec![main_art, base_art],
        symbols: vec![symbol(10, 1, true, "Base"), symbol(11, 1, false, "hook"), symbol(1, 0, false, "execute")],
        dialect: Dialect::Full,
    }
}

#[test]
fn call_tree_follows_calls_and_marks_repeats_and_low_level_calls() {
    let p = program();
    let tree = build_call_tree(&p, 0, &"Main".to_string(), "execute", None).unwrap();
    let expected = "Main.execute() (public)\n\u{251c}\u{2500}\u{2500} Main.helper() (internal)\n\u{2502}   \u{251c}\u{2500}\u{2500} Main.execute() (public)\n\u{2502}   \u{2514}\u{2500}\u{2500} Main.hook() (internal)\n\u{2514}\u{2500}\u{2500} (address).call() (low-level)\n";
    assert_eq!(tree.to_string(), expected);
    assert_eq!(tree.src, "100:10");
}

#[test]
fn call_tree_keeps_calls_unredirected_in_path_dialect() {
    let mut p = program();
    p.dialect = Dialect::Path;
    let tree = build_call_tree(&p, 0, &"Main".to_string(), "helper", None).unwrap();
    assert_eq!(tree.children.len(), 2);
    assert_eq!(tree.children[1].signature, "Base::hook()");
}

#[test]
fn call_tree_reports_unknown_function() {
    let p = program();
    let err = build_call_tree(&p, 0, &"Main".to_string(), "missing", None).unwrap_err();
    assert_eq!(err, "\"missing\" not found in \"Main\".");
}

#[test]
fn call_tree_lists_candidates_for_ambiguous_contract() {
    let p = program();
    let candidates = vec![
        ArtifactEntry { path: "out/lib/Main.sol/Main.json".to_string(), source_path: Some("lib/Main.sol".to_string()) },
        ArtifactEntry { path: "out/Main.sol/Main.json".to_string(), source_path: Some("src/Main.sol".to_string()) },
    ];
    let err = build_call_tree(&p, 0, &"Main".to_string(), "missing", Some(&candidates)).unwrap_err();
    assert_eq!(
        err,
        "found 2 \"Main\"\n\nSelect one of the following:\n\nsolray inspect call-graph src/Main.sol:Main missing\nsolray inspect call-graph lib/Main.sol:Main missing\n"
    );
    assert_eq!(format_ambiguity_error(&candidates, "Main", "missing"), err);
}

#[test]
fn call_tree_follows_base_constructor_and_new_expressions() {
    let mut p = program();
    let mut ctor = func(20, "", "Base", Visibility::Public, 5, vec![]);
    ctor.kind = FunctionKind::Constructor;
    p.artifacts[1].functions.push(ctor);
    let mut main_ctor = func(21, "", "Main", Visibility::Public, 7, vec![Stmt::Expression(call(
        Expr::NewExpression {
            created: TypeName::UserDefined {
                path_name: Some("Base".to_string()),
                name: None,
                referenced_declaration: Some(10),
                type_string: None,
            },
        },
        vec![],
    ))]);
    main_ctor.kind = FunctionKind::Constructor;
    main_ctor.modifiers = vec![ModifierInvocation {
        name: "Base".to_string(),
        referenced_declaration: Some(10),
        kind: Some(ModifierInvocationKind::BaseConstructorSpecifier),
    }];
    p.artifacts[0].functions.push(main_ctor);
    let tree = build_call_tree(&p, 0, &"Main".to_string(), "", None).unwrap();
    assert_eq!(tree.signature, "Main::constructor()");
    assert_eq!(tree.children.len(), 2);
    assert_eq!(tree.children[0].signature, "Base::constructor()");
    assert_eq!(tree.children[1].signature, "Base::constructor()");
}

#[test]
fn type_names_render_like_solidity() {
    let arr = TypeName::Array {
        base: Box::new(TypeName::Elementary(ElementaryType::Uint(8))),
        length: Some(Box::new(Expr::Literal { value: Some("4".to_string()) })),
    };
    assert_eq!(format_type_name(&arr, TypeStyle::Full), "uint8[4]");
    assert_eq!(format_type_name(&arr, TypeStyle::Plain), "uint8[]");
    let udt = TypeName::UserDefined {
        path_name: None,
        name: None,
        referenced_declaration: None,
        type_string: Some("  struct Lib.Point[] storage ref".to_string()),
    };
    assert_eq!(format_type_name(&udt, TypeStyle::Full), "Point");
    assert_eq!(format_type_name(&udt, TypeStyle::Plain), "unknown");
    let f = TypeName::Function { params: vec![TypeName::Elementary(ElementaryType::Address), TypeName::Mapping] };
    assert_eq!(format_type_name(&f, TypeStyle::Full), "function(address,mapping)");
    let ps = vec![TypeName::Elementary(ElementaryType::Fixed(128, 18)), TypeName::Elementary(ElementaryType::FixedBytes(32))];
    assert_eq!(format_params(&ps, TypeStyle::Full), "fixed128x18,bytes32");
}

#[test]
fn short_names_strip_kind_location_and_scope() {
    assert_eq!(short_user_defined_name("enum Color"), "Color");
    assert_eq!(short_user_defined_name("contract IERC20"), "IERC20");
    assert_eq!(short_user_defined_name("Plain"), "Plain");
    assert_eq!(short_user_defined_name(""), "");
}

#[test]
fn low_level_calls_are_recognised() {
    assert!(is_low_level_call("delegatecall"));
    assert!(is_low_level_call("send"));
    assert!(!is_low_level_call("transferFrom"));
}
