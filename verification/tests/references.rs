use solray::ast::{ElementaryType, TypeName};
use solray::function_source::ResolvedSymbol;
use solray::references::{
    collect_referenced_declarations, resolve_id_in_ast, resolve_recursive, ContractFlavor, DeclSort,
    IndexEntry, RefArtifact, RefBody, RefContract, RefExpr, RefLoad, RefMember, RefProgram, RefStmt,
    RefType, RefUnit, UnitDecl,
};

fn decl(id: i64, name: &str, contract: Option<&str>, sort: DeclSort, parameters: Vec<TypeName>, offset: usize, length: usize) -> UnitDecl {
    UnitDecl {
        id,
        name: name.to_string(),
        contract: contract.map(|c| c.to_string()),
        sort,
        parameters,
        offset,
        length,
    }
}

fn entry(id: i64, name: &str, contract_name: &str, node_type: &str, offset: usize, length: usize, artifact: usize) -> IndexEntry {
    IndexEntry {
        build: "b1".to_string(),
        id,
        name: name.to_string(),
        contract_name: contract_name.to_string(),
        node_type: node_type.to_string(),
        offset,
        length,
        artifact,
    }
}

fn call(callee: RefExpr) -> RefExpr {
    RefExpr::Call { callee: Box::new(callee), arguments: Vec::new() }
}

/// `Main.execute(Data)` calls `helper()`, emits `E` and calls `Lib.f()`;
/// the library lives in another file of the same build.
fn main_unit() -> RefUnit {
    let body = RefBody {
        offset: 120,
        length: 180,
        statements: vec![
            RefStmt::Expression(call(RefExpr::Identifier(Some(3)))),
            RefStmt::Emit(call(RefExpr::Identifier(Some(5)))),
            RefStmt::Expression(call(RefExpr::MemberAccess {
                expression: Box::new(RefExpr::Identifier(Some(10))),
                referenced_declaration: Some(11),
            })),
        ],
    };
    let execute = RefMember::Function {
        id: 2,
        parameters: vec![RefType::UserDefined(Some(4))],
        results: Vec::new(),
        modifiers: Vec::new(),
        body: Some(body),
    };
    let helper = RefMember::Function {
        id: 3,
        parameters: Vec::new(),
        results: Vec::new(),
        modifiers: Vec::new(),
        body: Some(RefBody { offset: 340, length: 30, statements: Vec::new() }),
    };
    RefUnit {
        contracts: vec![RefContract { offset: 0, length: 500, bases: Vec::new(), members: vec![execute, helper] }],
        decls: vec![
            decl(1, "Main", None, DeclSort::Contract(ContractFlavor::Plain), Vec::new(), 0, 500),
            decl(2, "execute", Some("Main"), DeclSort::Function, vec![TypeName::Elementary(ElementaryType::Uint(256))], 100, 200),
            decl(3, "helper", Some("Main"), DeclSort::Function, Vec::new(), 320, 50),
            decl(4, "Data", Some("Main"), DeclSort::Struct, Vec::new(), 20, 30),
            decl(5, "E", Some("Main"), DeclSort::Event, Vec::new(), 60, 20),
        ],
    }
}

fn lib_unit() -> RefUnit {
    let f = RefMember::Function {
        id: 11,
        parameters: Vec::new(),
        results: Vec::new(),
        modifiers: Vec::new(),
        body: Some(RefBody { offset: 70, length: 30, statements: Vec::new() }),
    };
    RefUnit {
        contracts: vec![RefContract { offset: 0, length: 200, bases: Vec::new(), members: vec![f] }],
        decls: vec![
            decl(10, "Lib", None, DeclSort::Contract(ContractFlavor::Library), Vec::new(), 0, 200),
            decl(11, "f", Some("Lib"), DeclSort::Function, Vec::new(), 50, 60),
        ],
    }
}

fn program(lib_load: RefLoad) -> RefProgram {
    RefProgram {
        artifacts: vec![
            RefArtifact {
                path: "out/Main.sol/Main.json".to_string(),
                source: "src/Main.sol".to_string(),
                build: "b1".to_string(),
                indexed: true,
                load: RefLoad::Unit(main_unit()),
            },
            RefArtifact {
                path: "out/Lib.sol/Lib.json".to_string(),
                source: "src/Lib.sol".to_string(),
                build: "b1".to_string(),
                indexed: true,
                load: lib_load,
            },
        ],
        entries: vec![
            entry(10, "Lib", "", "ContractDefinition", 0, 200, 1),
            entry(11, "f", "Lib", "FunctionDefinition", 50, 60, 1),
            entry(2, "execute", "Main", "FunctionDefinition", 100, 200, 0),
        ],
    }
}

fn view(s: &ResolvedSymbol) -> (String, String, usize, usize, String) {
    (s.symbol.clone(), s.file.clone(), s.offset, s.length, s.node_type.clone())
}

fn sym(symbol: &str, file: &str, offset: usize, length: usize, node_type: &str) -> (String, String, usize, usize, String) {
    (symbol.to_string(), file.to_string(), offset, length, node_type.to_string())
}

fn root() -> ResolvedSymbol {
    ResolvedSymbol {
        symbol: "Main.execute(uint256)".to_string(),
        file: "src/Main.sol".to_string(),
        offset: 100,
        length: 200,
        node_type: "FunctionDefinition".to_string(),
    }
}

#[test]
fn collects_references_in_walk_order() {
    let p = program(RefLoad::Unit(lib_unit()));
    let unit = main_unit();
    let refs = collect_referenced_declarations(&p, &unit, 100, 200, &"src/Main.sol".to_string(), &"b1".to_string());
    let got: Vec<_> = refs.iter().map(view).collect();
    assert_eq!(
        got,
        vec![
            sym("Data", "src/Main.sol", 20, 30, "StructDefinition"),
            sym("Main.helper()", "src/Main.sol", 320, 50, "FunctionDefinition"),
            sym("E", "src/Main.sol", 60, 20, "EventDefinition"),
            sym("Lib.f", "src/Lib.sol", 50, 60, "FunctionDefinition"),
            sym("Lib", "src/Lib.sol", 0, 200, "LibraryDefinition"),
        ]
    );
}

#[test]
fn references_of_other_builds_are_not_collected() {
    let p = program(RefLoad::Unit(lib_unit()));
    let unit = main_unit();
    let refs = collect_referenced_declarations(&p, &unit, 100, 200, &"src/Main.sol".to_string(), &"b2".to_string());
    let got: Vec<_> = refs.iter().map(view).collect();
    assert_eq!(
        got,
        vec![
            sym("Data", "src/Main.sol", 20, 30, "StructDefinition"),
            sym("Main.helper()", "src/Main.sol", 320, 50, "FunctionDefinition"),
            sym("E", "src/Main.sol", 60, 20, "EventDefinition"),
        ]
    );
}

#[test]
fn a_range_outside_every_body_collects_nothing() {
    let p = program(RefLoad::Unit(lib_unit()));
    let unit = main_unit();
    let refs = collect_referenced_declarations(&p, &unit, 400, 10, &"src/Main.sol".to_string(), &"b1".to_string());
    assert!(refs.is_empty());
}

#[test]
fn resolves_top_level_and_member_declarations() {
    let decls = vec![
        decl(7, "g", None, DeclSort::Function, vec![TypeName::Elementary(ElementaryType::Address)], 5, 9),
        decl(8, "v", Some("C"), DeclSort::Variable, Vec::new(), 15, 3),
    ];
    let file = "src/A.sol".to_string();
    let g = resolve_id_in_ast(&decls, 7, &file).unwrap();
    assert_eq!(view(&g), sym("g(address)", "src/A.sol", 5, 9, "FunctionDefinition"));
    let v = resolve_id_in_ast(&decls, 8, &file).unwrap();
    assert_eq!(view(&v), sym("C.v", "src/A.sol", 15, 3, "VariableDeclaration"));
    assert!(resolve_id_in_ast(&decls, 9, &file).is_none());
}

#[test]
fn closure_visits_each_declaration_once_root_first() {
    let p = program(RefLoad::Unit(lib_unit()));
    let out = resolve_recursive(&p, &root()).unwrap();
    let got: Vec<_> = out.iter().map(view).collect();
    assert_eq!(
        got,
        vec![
            sym("Main.execute(uint256)", "src/Main.sol", 100, 200, "FunctionDefinition"),
            sym("Lib", "src/Lib.sol", 0, 200, "LibraryDefinition"),
            sym("Lib.f", "src/Lib.sol", 50, 60, "FunctionDefinition"),
            sym("E", "src/Main.sol", 60, 20, "EventDefinition"),
            sym("Main.helper()", "src/Main.sol", 320, 50, "FunctionDefinition"),
            sym("Data", "src/Main.sol", 20, 30, "StructDefinition"),
        ]
    );
}

#[test]
fn closure_fails_on_an_unreadable_artifact() {
    let p = program(RefLoad::Unreadable);
    let err = resolve_recursive(&p, &root()).unwrap_err();
    assert_eq!(err, "out/Lib.sol/Lib.json");
}
