use solray::external_functions::StateMutability;
use solray::interface_gen::{generate_interface, EnumSources, GenFunction, GenParam, TypeResolver};

fn param(name: &str, canonical: &str, internal: Option<&str>, components: Option<Vec<GenParam>>) -> GenParam {
    GenParam {
        name: name.to_string(),
        canonical: canonical.to_string(),
        internal_type: internal.map(|s| s.to_string()),
        components,
    }
}

fn function(name: &str, inputs: Vec<GenParam>, outputs: Vec<GenParam>, m: StateMutability) -> GenFunction {
    GenFunction { name: name.to_string(), inputs, outputs, state_mutability: m }
}

fn pool_abi() -> Vec<GenFunction> {
    let info = param(
        "info",
        "tuple",
        Some("struct AgentInfo.Info"),
        Some(vec![
            param("id", "uint256", Some("uint256"), None),
            param("kind", "uint8", Some("enum Pool.Kind"), None),
        ]),
    );
    vec![
        function("setPrice", vec![param("p", "uint256", Some("Price"), None)], vec![], StateMutability::Nonpayable),
        function(
            "deposit",
            vec![param("amount", "uint256", Some("uint256"), None), info],
            vec![],
            StateMutability::Nonpayable,
        ),
        function(
            "owner",
            vec![],
            vec![param("", "address", Some("contract IOwner"), None)],
            StateMutability::View,
        ),
        function(
            "balanceOf",
            vec![param("who", "address", Some("address"), None)],
            vec![param("", "uint256", Some("uint256"), None)],
            StateMutability::View,
        ),
    ]
}

fn enums() -> EnumSources {
    EnumSources {
        local: vec![("Other".to_string(), vec!["X".to_string()])],
        external: vec![("Pool.Kind".to_string(), Some(vec!["A".to_string(), "B".to_string()]))],
    }
}

#[test]
fn generates_sorted_functions_with_inline_types() {
    let out = generate_interface(&"Pool".to_string(), &pool_abi(), &enums());
    assert_eq!(out.contract_name(), "Pool");
    assert_eq!(out.interface_name(), "IPool");
    let expected = [
        "// SPDX-License-Identifier: MIT\n",
        "pragma solidity ^0.8.0;\n",
        "\n",
        "interface IPool {\n",
        "    enum Kind {\n",
        "        A,\n",
        "        B\n",
        "    }\n",
        "    type Price is uint256;\n",
        "\n",
        "    struct Info {\n",
        "        uint256 id;\n",
        "        Kind kind;\n",
        "    }\n",
        "\n",
        "    function balanceOf(address who) external view returns (uint256);\n",
        "    function deposit(uint256 amount, Info memory info) external;\n",
        "    function owner() external view returns (address);\n",
        "    function setPrice(Price p) external;\n",
        "}\n",
    ]
    .concat();
    assert_eq!(out.to_string(), expected);
}

#[test]
fn an_interface_without_functions_is_just_the_header() {
    let out = generate_interface(&"Empty".to_string(), &Vec::new(), &enums());
    assert_eq!(
        out.to_string(),
        "// SPDX-License-Identifier: MIT\npragma solidity ^0.8.0;\n\ninterface IEmpty {\n}\n"
    );
}

#[test]
fn unknown_enum_members_become_a_value_type() {
    let abi = vec![function(
        "mode",
        vec![],
        vec![param("", "uint8", Some("enum Lib.Mode"), None)],
        StateMutability::Pure,
    )];
    let out = generate_interface(&"C".to_string(), &abi, &EnumSources { local: Vec::new(), external: Vec::new() });
    assert_eq!(
        out.to_string(),
        "// SPDX-License-Identifier: MIT\npragma solidity ^0.8.0;\n\ninterface IC {\n    type Mode is uint8;\n\n\n    function mode() external pure returns (Mode);\n}\n"
    );
}

#[test]
fn colliding_type_names_get_qualified_then_numbered() {
    let env = EnumSources { local: Vec::new(), external: Vec::new() };
    let mut r = TypeResolver::new();
    let a = r.register_type(&env, &param("", "tuple", Some("struct A.Info"), Some(Vec::new())));
    let b = r.register_type(&env, &param("", "tuple", Some("struct B.Info"), Some(Vec::new())));
    let b2 = r.register_type(&env, &param("", "tuple[]", Some("struct B.Info[]"), Some(Vec::new())));
    let plain = r.register_type(&env, &param("", "tuple", Some("struct Info"), Some(Vec::new())));
    assert_eq!(a, "Info");
    assert_eq!(b, "BInfo");
    assert_eq!(b2, "BInfo[]");
    assert_eq!(plain, "Info_2");
    assert_eq!(r.structs.len(), 3);
}

#[test]
fn builtin_and_contract_types_are_not_declared() {
    let env = EnumSources { local: Vec::new(), external: Vec::new() };
    let mut r = TypeResolver::new();
    assert_eq!(r.register_type(&env, &param("", "bytes32", Some("bytes32"), None)), "bytes32");
    assert_eq!(r.register_type(&env, &param("", "uint256[2]", Some("uint256[2]"), None)), "uint256[2]");
    assert_eq!(r.register_type(&env, &param("", "address", Some("contract IERC20"), None)), "address");
    assert_eq!(r.register_type(&env, &param("", "uint256", None, None)), "uint256");
    assert!(r.structs.is_empty() && r.enums.is_empty() && r.udts.is_empty());
}

#[test]
fn fixed_point_types_are_builtin() {
    let env = EnumSources { local: Vec::new(), external: Vec::new() };
    let mut r = TypeResolver::new();
    assert_eq!(r.register_type(&env, &param("", "ufixed128x18", Some("ufixed128x18"), None)), "ufixed128x18");
    assert_eq!(r.register_type(&env, &param("", "fixed128x18", Some("fixed128x18"), None)), "fixed128x18");
    assert!(r.udts.is_empty());
}
