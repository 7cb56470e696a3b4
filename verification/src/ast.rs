//! The part of the Solidity compiler AST that the call-graph walkers read:
//! expressions, statements, type names and function declarations, held as
//! plain values, and the rendering of declarations as human-readable
//! signatures.
use vstd::prelude::*;
use crate::strings::{
    chars_of, decimal, decimal_exec, is_ws, is_ws_exec, push_range, push_str, string_of_range,
};

verus! {

/// An elementary Solidity type.
#[derive(Debug, Clone, Copy, PartialEq, Eq, Structural)]
pub enum ElementaryType {
    Uint(u16),
    Int(u16),
    Address,
    Payable,
    Bool,
    Str,
    Bytes,
    FixedBytes(u16),
    Ufixed(u8, u8),
    Fixed(u8, u8),
}

/// A type name as written in a declaration.
#[derive(Debug)]
pub enum TypeName {
    /// An elementary type such as `uint256` or `address`.
    Elementary(ElementaryType),
    /// An array of `base`, with the literal text of its length when the
    /// length is a literal.
    Array { base: Box<TypeName>, length: Option<Box<Expr>> },
    /// A struct, enum, contract or value type declared by the user.
    UserDefined {
        /// The identifier path (solc >= 0.8).
        path_name: Option<String>,
        /// The bare name (solc < 0.8).
        name: Option<String>,
        /// The declaration the name refers to.
        referenced_declaration: Option<i64>,
        /// The compiler's type description, e.g. `struct Lib.Point`.
        type_string: Option<String>,
    },
    /// A `mapping(...)` type.
    Mapping,
    /// A function type with its parameter types.
    Function { params: Vec<TypeName> },
}

/// An expression.
#[derive(Debug)]
pub enum Expr {
    Assignment { lhs: Box<Expr>, rhs: Box<Expr> },
    BinaryOperation { left: Box<Expr>, right: Box<Expr> },
    Conditional { condition: Box<Expr>, true_expr: Box<Expr>, false_expr: Box<Expr> },
    /// A call of `callee` with `arguments`.
    FunctionCall { callee: Box<Expr>, arguments: Vec<Expr> },
    /// `callee{options}` (as in `addr.call{value: v}`), only as a callee.
    FunctionCallOptions { callee: Box<Expr>, options: Vec<Expr> },
    Identifier { name: String, referenced_declaration: Option<i64> },
    IndexAccess { base: Box<Expr>, index: Option<Box<Expr>> },
    IndexRangeAccess { base: Box<Expr>, start: Option<Box<Expr>> },
    Literal { value: Option<String> },
    MemberAccess { expression: Box<Expr>, member_name: String, referenced_declaration: Option<i64> },
    NewExpression { created: TypeName },
    Tuple { components: Vec<Option<Expr>> },
    UnaryOperation { sub: Box<Expr> },
    /// A statement in expression position (an expression or variable
    /// declaration statement, as in the initializer of a `for` loop).
    Statement(Box<Stmt>),
    /// Any other expression (elementary type names, declarations used as
    /// expressions, ...), which holds no call the walkers follow.
    Other,
}

/// A statement.
#[derive(Debug)]
pub enum Stmt {
    Block(Vec<Stmt>),
    DoWhile { body: Box<Stmt>, condition: Expr },
    Emit { arguments: Vec<Expr> },
    Expression(Expr),
    For { init: Option<Expr>, condition: Option<Expr>, loop_expr: Option<Expr>, body: Box<Stmt> },
    If { condition: Expr, true_body: Box<Stmt>, false_body: Option<Box<Stmt>> },
    Return(Option<Expr>),
    /// A `try` statement: the external call and the block of each clause.
    Try { external_call: Expr, clauses: Vec<Vec<Stmt>> },
    Unchecked(Vec<Stmt>),
    VariableDeclaration(Option<Expr>),
    While { condition: Expr, body: Box<Stmt> },
    /// `break`, `continue`, inline assembly, placeholders, reverts.
    Other,
}

/// Function visibility.
#[derive(Debug, Clone, Copy, PartialEq, Eq, Structural)]
pub enum Visibility {
    External,
    Public,
    Internal,
    Private,
}

/// What kind of function a declaration is.
#[derive(Debug, Clone, Copy, PartialEq, Eq, Structural)]
pub enum FunctionKind {
    Constructor,
    Function,
    Receive,
    Fallback,
    FreeFunction,
}

/// Which dialect of signature rendering to use: `Full` renders array
/// lengths, function types and type descriptions; `Plain` renders every
/// array as `[]`, every function type as `function` and unnamed
/// user-defined types as `unknown`.
#[derive(Debug, Clone, Copy, PartialEq, Eq, Structural)]
pub enum TypeStyle {
    Full,
    Plain,
}

// ---------------------------------------------------------------------------
// Rendering of types
// ---------------------------------------------------------------------------

/// `prefix` followed by the decimal rendering of `n`.
pub open spec fn num_text(prefix: Seq<char>, n: nat) -> Seq<char> {
    prefix + decimal(n)
}

/// Text of an elementary type.
pub open spec fn elementary_spec(e: ElementaryType) -> Seq<char> {
    match e {
        ElementaryType::Uint(bits) => num_text("uint"@, bits as nat),
        ElementaryType::Int(bits) => num_text("int"@, bits as nat),
        ElementaryType::Address => "address"@,
        ElementaryType::Payable => "address payable"@,
        ElementaryType::Bool => "bool"@,
        ElementaryType::Str => "string"@,
        ElementaryType::Bytes => "bytes"@,
        ElementaryType::FixedBytes(n) => num_text("bytes"@, n as nat),
        ElementaryType::Ufixed(m, n) => num_text("ufixed"@, m as nat) + num_text("x"@, n as nat),
        ElementaryType::Fixed(m, n) => num_text("fixed"@, m as nat) + num_text("x"@, n as nat),
    }
}

/// The literal text of an array length, when the length is a literal with
/// a value.
pub open spec fn array_length_spec(length: Option<Box<Expr>>) -> Option<Seq<char>> {
    match length {
        Some(e) => match *e {
            Expr::Literal { value: Some(v) } => Some(v@),
            _ => None,
        },
        None => None,
    }
}

/// Position of the first whitespace character in `s` at or after `i`
/// (`s.len()` when there is none).
pub open spec fn next_ws(s: Seq<char>, i: int) -> int
    decreases s.len() - i,
{
    if i >= s.len() || i < 0 {
        s.len() as int
    } else if is_ws(s[i]) {
        i
    } else {
        next_ws(s, i + 1)
    }
}

/// Position of the first non-whitespace character in `s` at or after `i`.
pub open spec fn next_non_ws(s: Seq<char>, i: int) -> int
    decreases s.len() - i,
{
    if i >= s.len() || i < 0 {
        s.len() as int
    } else if !is_ws(s[i]) {
        i
    } else {
        next_non_ws(s, i + 1)
    }
}

/// The first whitespace-separated word of `s`, or `s` itself when it has
/// none (`s.split_whitespace().next().unwrap_or(s)`).
pub open spec fn first_word(s: Seq<char>) -> Seq<char> {
    let a = next_non_ws(s, 0);
    if a >= s.len() {
        s
    } else {
        s.subrange(a, next_ws(s, a))
    }
}

/// `s` without `p` in front, when it starts with `p`.
pub open spec fn strip_prefix_spec(s: Seq<char>, p: Seq<char>) -> Option<Seq<char>> {
    if p.len() <= s.len() && s.subrange(0, p.len() as int) == p {
        Some(s.subrange(p.len() as int, s.len() as int))
    } else {
        None
    }
}

/// `s` without the first of the kind keywords it starts with.
pub open spec fn strip_kind(s: Seq<char>) -> Seq<char> {
    match strip_prefix_spec(s, "struct "@) {
        Some(r) => r,
        None => match strip_prefix_spec(s, "enum "@) {
            Some(r) => r,
            None => match strip_prefix_spec(s, "contract "@) {
                Some(r) => r,
                None => match strip_prefix_spec(s, "interface "@) {
                    Some(r) => r,
                    None => match strip_prefix_spec(s, "library "@) {
                        Some(r) => r,
                        None => s,
                    },
                },
            },
        },
    }
}

/// The text before the first `c` in `s` (all of `s` without one).
pub open spec fn before_char(s: Seq<char>, c: char) -> Seq<char> {
    if exists|i: int| 0 <= i < s.len() && s[i] == c {
        let i = choose|i: int| 0 <= i < s.len() && s[i] == c && forall|j: int| 0 <= j < i ==> s[j] != c;
        s.subrange(0, i)
    } else {
        s
    }
}

/// The text after the last `c` in `s` (all of `s` without one).
pub open spec fn after_last_char(s: Seq<char>, c: char) -> Seq<char> {
    if exists|i: int| 0 <= i < s.len() && s[i] == c {
        let i = choose|i: int| 0 <= i < s.len() && s[i] == c && forall|j: int| i < j < s.len() ==> s[j] != c;
        s.subrange(i + 1, s.len() as int)
    } else {
        s
    }
}

/// Short name of a user-defined type from its type description: trimmed,
/// without the kind keyword, its first word, cut at `[`, and after the last
/// `.` (`struct Lib.Point[]` gives `Point`).
pub open spec fn short_name_spec(type_string: Seq<char>) -> Seq<char> {
    let raw = crate::strings::trim_spec(type_string);
    after_last_char(before_char(first_word(strip_kind(raw)), '['), '.')
}

/// Text of a type name in the given style.
pub open spec fn type_name_spec(t: TypeName, style: TypeStyle) -> Seq<char>
    decreases t,
{
    match t {
        TypeName::Elementary(e) => elementary_spec(e),
        TypeName::Array { base, length } => {
            let b = type_name_spec(*base, style);
            if style == TypeStyle::Full {
                match array_length_spec(length) {
                    Some(l) => b + "["@ + l + "]"@,
                    None => b + "[]"@,
                }
            } else {
                b + "[]"@
            }
        },
        TypeName::UserDefined { path_name, type_string, .. } => match path_name {
            Some(p) => p@,
            None => if style == TypeStyle::Full {
                match type_string {
                    Some(ts) => short_name_spec(ts@),
                    None => "unknown"@,
                }
            } else {
                "unknown"@
            },
        },
        TypeName::Mapping => "mapping"@,
        TypeName::Function { params } => if style == TypeStyle::Full {
            "function("@ + params_text(params@, style) + ")"@
        } else {
            "function"@
        },
    }
}

/// Comma-separated texts of parameter types (`uint256,address`).
pub open spec fn params_text(ps: Seq<TypeName>, style: TypeStyle) -> Seq<char>
    decreases ps,
{
    if ps.len() == 0 {
        Seq::empty()
    } else if ps.len() == 1 {
        type_name_spec(ps[0], style)
    } else {
        type_name_spec(ps[0], style) + ","@ + params_text(ps.drop_first(), style)
    }
}

/// Name shown for a function: constructors, `receive` and `fallback` by their
/// kind, others by their name.
pub open spec fn display_name_spec(kind: FunctionKind, name: Seq<char>) -> Seq<char> {
    match kind {
        FunctionKind::Constructor => "constructor"@,
        FunctionKind::Receive => "receive"@,
        FunctionKind::Fallback => "fallback"@,
        _ => name,
    }
}

/// Text of a visibility.
pub open spec fn visibility_spec(v: Visibility) -> Seq<char> {
    match v {
        Visibility::External => "external"@,
        Visibility::Public => "public"@,
        Visibility::Internal => "internal"@,
        Visibility::Private => "private"@,
    }
}

/// Whether a member name is a low-level call on an address.
pub open spec fn is_low_level_spec(m: Seq<char>) -> bool {
    m == "call"@ || m == "delegatecall"@ || m == "staticcall"@ || m == "callcode"@
        || m == "transfer"@ || m == "send"@
}

/// Text of an elementary type.
pub fn elementary_text(e: ElementaryType) -> (s: String)
    ensures
        s@ == elementary_spec(e),
{
    match e {
        ElementaryType::Uint(bits) => {
            let mut s = String::from_str("uint");
            let d = decimal_exec(bits as usize);
            push_str(&mut s, d.as_str());
            s
        },
        ElementaryType::Int(bits) => {
            let mut s = String::from_str("int");
            let d = decimal_exec(bits as usize);
            push_str(&mut s, d.as_str());
            s
        },
        ElementaryType::Address => String::from_str("address"),
        ElementaryType::Payable => String::from_str("address payable"),
        ElementaryType::Bool => String::from_str("bool"),
        ElementaryType::Str => String::from_str("string"),
        ElementaryType::Bytes => String::from_str("bytes"),
        ElementaryType::FixedBytes(n) => {
            let mut s = String::from_str("bytes");
            let d = decimal_exec(n as usize);
            push_str(&mut s, d.as_str());
            s
        },
        ElementaryType::Ufixed(m, n) => {
            let mut s = String::from_str("ufixed");
            let d = decimal_exec(m as usize);
            push_str(&mut s, d.as_str());
            push_str(&mut s, "x");
            let d2 = decimal_exec(n as usize);
            push_str(&mut s, d2.as_str());
            s
        },
        ElementaryType::Fixed(m, n) => {
            let mut s = String::from_str("fixed");
            let d = decimal_exec(m as usize);
            push_str(&mut s, d.as_str());
            push_str(&mut s, "x");
            let d2 = decimal_exec(n as usize);
            push_str(&mut s, d2.as_str());
            s
        },
    }
}


/// Whether `w` starts with `p`.
fn has_prefix(w: &Vec<char>, p: &str) -> (b: bool)
    ensures
        b == strip_prefix_spec(w@, p@) is Some,
{
    let pv = chars_of(p);
    if pv.len() > w.len() {
        return false;
    }
    crate::strings::range_eq(w, 0, pv.len(), &pv)
}

/// Characters of `w` from `lo` on.
fn tail_of(w: &Vec<char>, lo: usize) -> (r: Vec<char>)
    requires
        lo <= w.len(),
    ensures
        r@ == w@.subrange(lo as int, w@.len() as int),
{
    let s = string_of_range(w, lo, w.len());
    chars_of(s.as_str())
}

/// `w` without the first kind keyword it starts with.
fn strip_kind_exec(w: &Vec<char>) -> (r: Vec<char>)
    ensures
        r@ == strip_kind(w@),
{
    if has_prefix(w, "struct ") {
        proof { reveal_strlit("struct "); }
        return tail_of(w, 7);
    }
    if has_prefix(w, "enum ") {
        proof { reveal_strlit("enum "); }
        return tail_of(w, 5);
    }
    if has_prefix(w, "contract ") {
        proof { reveal_strlit("contract "); }
        return tail_of(w, 9);
    }
    if has_prefix(w, "interface ") {
        proof { reveal_strlit("interface "); }
        return tail_of(w, 10);
    }
    if has_prefix(w, "library ") {
        proof { reveal_strlit("library "); }
        return tail_of(w, 8);
    }
    let s = string_of_range(w, 0, w.len());
    assert(w@.subrange(0, w@.len() as int) == w@);
    chars_of(s.as_str())
}

/// The first whitespace-separated word of `w`, or `w` without one.
fn first_word_exec(w: &Vec<char>) -> (r: Vec<char>)
    ensures
        r@ == first_word(w@),
{
    let mut a: usize = 0;
    while a < w.len() && is_ws_exec(w[a])
        invariant
            a <= w.len(),
            next_non_ws(w@, 0) == next_non_ws(w@, a as int),
        decreases w.len() - a,
    {
        a = a + 1;
    }
    if a >= w.len() {
        let s = string_of_range(w, 0, w.len());
        assert(w@.subrange(0, w@.len() as int) == w@);
        return chars_of(s.as_str());
    }
    let mut b: usize = a;
    while b < w.len() && !is_ws_exec(w[b])
        invariant
            a <= b <= w.len(),
            next_ws(w@, a as int) == next_ws(w@, b as int),
        decreases w.len() - b,
    {
        b = b + 1;
    }
    let s = string_of_range(w, a, b);
    chars_of(s.as_str())
}

/// `w` cut before its first `c`.
fn before_char_exec(w: &Vec<char>, c: char) -> (r: Vec<char>)
    ensures
        r@ == before_char(w@, c),
{
    let mut i: usize = 0;
    while i < w.len() && w[i] != c
        invariant
            i <= w.len(),
            forall|j: int| 0 <= j < i ==> w@[j] != c,
        decreases w.len() - i,
    {
        i = i + 1;
    }
    let s = string_of_range(w, 0, i);
    if i < w.len() {
        proof {
            let k = choose|k: int| 0 <= k < w@.len() && w@[k] == c && forall|j: int| 0 <= j < k ==> w@[j] != c;
            assert(0 <= i < w@.len() && w@[i as int] == c);
            if k < i {
                assert(w@[k] != c);
            }
            if k > i {
                assert(w@[i as int] != c);
            }
            assert(k == i);
        }
    } else {
        assert(w@.subrange(0, i as int) == w@);
    }
    chars_of(s.as_str())
}

/// `w` from after its last `c`.
fn after_last_char_exec(w: &Vec<char>, c: char) -> (r: Vec<char>)
    ensures
        r@ == after_last_char(w@, c),
{
    let mut i: usize = w.len();
    while i > 0 && w[i - 1] != c
        invariant
            i <= w.len(),
            forall|j: int| i <= j < w.len() ==> w@[j] != c,
        decreases i,
    {
        i = i - 1;
    }
    if i > 0 {
        proof {
            let k = choose|k: int| 0 <= k < w@.len() && w@[k] == c && forall|j: int| k < j < w@.len() ==> w@[j] != c;
            assert(w@[i - 1] == c);
            if k < i - 1 {
                assert(w@[i - 1] != c);
            }
            if k > i - 1 {
                assert(w@[k] != c);
            }
            assert(k == i - 1);
        }
        tail_of(w, i)
    } else {
        assert(!exists|j: int| 0 <= j < w@.len() && w@[j] == c);
        let s = string_of_range(w, 0, w.len());
        assert(w@.subrange(0, w@.len() as int) == w@);
        chars_of(s.as_str())
    }
}

/// Short name of a user-defined type from its type description
/// (`struct Lib.Point[]` gives `Point`).
pub fn short_user_defined_name(type_string: &str) -> (r: String)
    ensures
        r@ == short_name_spec(type_string@),
{
    let v = chars_of(type_string);
    let t = crate::ids::trimmed_range(&v, 0, v.len());
    assert(v@.subrange(0, v@.len() as int) == v@);
    let tv = chars_of(t.as_str());
    let k = strip_kind_exec(&tv);
    let w = first_word_exec(&k);
    let b = before_char_exec(&w, '[');
    let a = after_last_char_exec(&b, '.');
    let r = string_of_range(&a, 0, a.len());
    assert(a@.subrange(0, a@.len() as int) == a@);
    r
}

/// Text of an array length: the value of a literal length.
fn array_length(length: &Option<Box<Expr>>) -> (r: Option<String>)
    ensures
        opt_text(r) == array_length_spec(*length),
{
    match length {
        Some(e) => match &**e {
            Expr::Literal { value: Some(v) } => Some(v.clone()),
            _ => None,
        },
        None => None,
    }
}

/// View of an optional string.
pub open spec fn opt_text(o: Option<String>) -> Option<Seq<char>> {
    match o {
        Some(s) => Some(s@),
        None => None,
    }
}

/// Text of a type name (`format_type_name`).
pub fn format_type_name(t: &TypeName, style: TypeStyle) -> (s: String)
    ensures
        s@ == type_name_spec(*t, style),
    decreases t,
{
    match t {
        TypeName::Elementary(e) => elementary_text(*e),
        TypeName::Array { base, length } => {
            let mut s = format_type_name(&**base, style);
            if style == TypeStyle::Full {
                match array_length(length) {
                    Some(l) => {
                        push_str(&mut s, "[");
                        push_str(&mut s, l.as_str());
                        push_str(&mut s, "]");
                    },
                    None => push_str(&mut s, "[]"),
                }
            } else {
                push_str(&mut s, "[]");
            }
            s
        },
        TypeName::UserDefined { path_name, type_string, .. } => match path_name {
            Some(p) => p.clone(),
            None => if style == TypeStyle::Full {
                match type_string {
                    Some(ts) => short_user_defined_name(ts.as_str()),
                    None => String::from_str("unknown"),
                }
            } else {
                String::from_str("unknown")
            },
        },
        TypeName::Mapping => String::from_str("mapping"),
        TypeName::Function { params } => if style == TypeStyle::Full {
            let mut s = String::from_str("function(");
            let p = format_params(params, style);
            push_str(&mut s, p.as_str());
            push_str(&mut s, ")");
            s
        } else {
            String::from_str("function")
        },
    }
}

/// Comma-separated texts of parameter types (`format_params`).
pub fn format_params(ps: &Vec<TypeName>, style: TypeStyle) -> (s: String)
    ensures
        s@ == params_text(ps@, style),
    decreases ps,
{
    let mut s = String::new();
    let mut i: usize = 0;
    assert(ps@.subrange(0, ps@.len() as int) == ps@);
    while i < ps.len()
        invariant
            i <= ps@.len(),
            s@ + (if i == 0 { params_text(ps@.subrange(i as int, ps@.len() as int), style) } else if i < ps@.len() { ","@ + params_text(ps@.subrange(i as int, ps@.len() as int), style) } else { Seq::empty() }) == params_text(ps@, style),
        decreases ps@.len() - i,
    {
        assert(decreases_to!(ps => ps@[i as int]));
        let ghost rest = ps@.subrange(i as int, ps@.len() as int);
        assert(rest[0] == ps@[i as int]);
        assert(rest.drop_first() == ps@.subrange(i + 1, ps@.len() as int));
        if i > 0 {
            push_str(&mut s, ",");
        }
        let t = format_type_name(&ps[i], style);
        push_str(&mut s, t.as_str());
        i = i + 1;
    }
    assert(ps@.subrange(0, ps@.len() as int) == ps@);
    s
}

/// Name shown for a function of a given kind.
pub fn function_name_for_display(kind: FunctionKind, name: &str) -> (r: String)
    ensures
        r@ == display_name_spec(kind, name@),
{
    match kind {
        FunctionKind::Constructor => String::from_str("constructor"),
        FunctionKind::Receive => String::from_str("receive"),
        FunctionKind::Fallback => String::from_str("fallback"),
        _ => String::from_str(name),
    }
}

/// Text of a visibility.
pub fn visibility_str(v: Visibility) -> (r: String)
    ensures
        r@ == visibility_spec(v),
{
    match v {
        Visibility::External => String::from_str("external"),
        Visibility::Public => String::from_str("public"),
        Visibility::Internal => String::from_str("internal"),
        Visibility::Private => String::from_str("private"),
    }
}

/// Whether a member name is a low-level call on an address
/// (`call`, `delegatecall`, `staticcall`, `callcode`, `transfer`, `send`).
pub fn is_low_level_call(member_name: &str) -> (b: bool)
    ensures
        b == is_low_level_spec(member_name@),
{
    let m = chars_of(member_name);
    let c1 = chars_of("call");
    let c2 = chars_of("delegatecall");
    let c3 = chars_of("staticcall");
    let c4 = chars_of("callcode");
    let c5 = chars_of("transfer");
    let c6 = chars_of("send");
    crate::strings::chars_eq(&m, &c1) || crate::strings::chars_eq(&m, &c2)
        || crate::strings::chars_eq(&m, &c3) || crate::strings::chars_eq(&m, &c4)
        || crate::strings::chars_eq(&m, &c5) || crate::strings::chars_eq(&m, &c6)
}

} // verus!
