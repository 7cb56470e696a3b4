//! The declarations a function's source refers to: the identifiers, member
//! accesses, called functions, modifiers and user-defined types met inside a
//! source range, each resolved to the declaration it names, and the closure
//! of that collection over the declarations found.
use vstd::prelude::*;
use crate::ast::{format_params, params_text, TypeName, TypeStyle};
use crate::artifact_index::{file_stem, parent_name, parent_name_spec, stem_spec};
use crate::function_source::{copy_symbol, sym_view, syms_view, ResolvedSymbol};
use crate::strings::{chars_eq, chars_of, push_str};
use vstd::seq_lib::seq_to_set_is_finite;

verus! {

/// A type name, with the declarations it refers to.
#[derive(Debug)]
pub enum RefType {
    UserDefined(Option<i64>),
    Array(Box<RefType>),
    Mapping(Box<RefType>, Box<RefType>),
    Other,
}

/// An expression, with the declarations it refers to.
#[derive(Debug)]
pub enum RefExpr {
    /// A call of `callee` with `arguments`; the callee is followed when it is
    /// a member access, an identifier or a call with options.
    Call { callee: Box<RefExpr>, arguments: Vec<RefExpr> },
    /// `callee{options}`, followed only as the callee of a call.
    CallOptions { expression: Box<RefExpr>, options: Vec<RefExpr> },
    Assignment { lhs: Box<RefExpr>, rhs: Box<RefExpr> },
    MemberAccess { expression: Box<RefExpr>, referenced_declaration: Option<i64> },
    Identifier(Option<i64>),
    Binary { left: Box<RefExpr>, right: Box<RefExpr> },
    Unary(Box<RefExpr>),
    Conditional { condition: Box<RefExpr>, true_expr: Box<RefExpr>, false_expr: Box<RefExpr> },
    Tuple(Vec<Option<RefExpr>>),
    IndexAccess { base: Box<RefExpr>, index: Option<Box<RefExpr>> },
    IndexRangeAccess { base: Box<RefExpr>, start: Option<Box<RefExpr>> },
    Other,
}

/// A statement, with the declarations it refers to.
#[derive(Debug)]
pub enum RefStmt {
    Expression(RefExpr),
    Block(Vec<RefStmt>),
    If { condition: RefExpr, true_body: Box<RefStmt>, false_body: Option<Box<RefStmt>> },
    For { init: Option<RefExpr>, condition: Option<RefExpr>, loop_expr: Option<RefExpr>, body: Box<RefStmt> },
    While { condition: RefExpr, body: Box<RefStmt> },
    DoWhile { body: Box<RefStmt>, condition: RefExpr },
    Return(Option<RefExpr>),
    /// A declaration statement: its initial value and the types of the
    /// variables it declares.
    VariableDeclaration { initial_value: Option<RefExpr>, types: Vec<RefType> },
    /// `revert` with its error call.
    Revert(RefExpr),
    /// `emit` with its event call.
    Emit(RefExpr),
    Try { external_call: RefExpr, clauses: Vec<Vec<RefStmt>> },
    Unchecked(Vec<RefStmt>),
    Other,
}

/// A modifier invocation in a function header.
#[derive(Debug)]
pub struct RefModifier {
    pub referenced_declaration: Option<i64>,
    pub arguments: Option<Vec<RefExpr>>,
}

/// A body and its source range.
#[derive(Debug)]
pub struct RefBody {
    pub offset: usize,
    pub length: usize,
    pub statements: Vec<RefStmt>,
}

/// A contract member, as far as references are collected from it.
#[derive(Debug)]
pub enum RefMember {
    Function {
        id: i64,
        parameters: Vec<RefType>,
        results: Vec<RefType>,
        modifiers: Vec<RefModifier>,
        body: Option<RefBody>,
    },
    Modifier { id: i64, parameters: Vec<RefType>, body: RefBody },
    Variable { offset: usize, length: usize, declared: RefType },
    Other,
}

/// A contract definition: its source range, the declarations its base
/// contracts name, and its members.
#[derive(Debug)]
pub struct RefContract {
    pub offset: usize,
    pub length: usize,
    pub bases: Vec<Option<i64>>,
    pub members: Vec<RefMember>,
}

/// The flavour of a contract definition.
#[derive(Debug, Clone, Copy, PartialEq, Eq, Structural)]
pub enum ContractFlavor {
    Interface,
    Library,
    Abstract,
    Plain,
}

/// What a declaration of a source unit is.
#[derive(Debug, Clone, Copy, PartialEq, Eq, Structural)]
pub enum DeclSort {
    Contract(ContractFlavor),
    Function,
    Variable,
    Struct,
    Enum,
    Error,
    Event,
    Modifier,
    ValueType,
}

/// A declaration of a source unit, listed in the order a search by id
/// meets them: a contract, then its members, then the next top-level
/// declaration.
#[derive(Debug)]
pub struct UnitDecl {
    pub id: i64,
    pub name: String,
    /// The contract declaring a member; none for a top-level declaration.
    pub contract: Option<String>,
    pub sort: DeclSort,
    /// The parameter types of a function.
    pub parameters: Vec<TypeName>,
    pub offset: usize,
    pub length: usize,
}

/// A source unit: its contracts and its declarations.
#[derive(Debug)]
pub struct RefUnit {
    pub contracts: Vec<RefContract>,
    pub decls: Vec<UnitDecl>,
}

/// What reading an artifact gave.
#[derive(Debug)]
pub enum RefLoad {
    Unit(RefUnit),
    /// The artifact holds no AST.
    NoAst,
    /// The artifact could not be read or parsed.
    Unreadable,
}

/// An artifact file: its path, its source file, its build, whether the
/// symbol index lists it, and what reading it gave.
#[derive(Debug)]
pub struct RefArtifact {
    pub path: String,
    pub source: String,
    pub build: String,
    pub indexed: bool,
    pub load: RefLoad,
}

/// An entry of the symbol index: a declaration of a build.
#[derive(Debug)]
pub struct IndexEntry {
    pub build: String,
    pub id: i64,
    pub name: String,
    pub contract_name: String,
    pub node_type: String,
    pub offset: usize,
    pub length: usize,
    /// The position of the declaring artifact.
    pub artifact: usize,
}

/// Every artifact and the symbol index over them.
#[derive(Debug)]
pub struct RefProgram {
    pub artifacts: Vec<RefArtifact>,
    pub entries: Vec<IndexEntry>,
}

/// A resolved symbol as a value.
pub type SymV = (Seq<char>, Seq<char>, usize, usize, Seq<char>);

// ---------------------------------------------------------------------
// The references a walk meets, in order.

pub open spec fn opt_id(r: Option<i64>) -> Seq<i64> {
    match r {
        Some(i) => seq![i],
        None => Seq::empty(),
    }
}

pub open spec fn type_refs(t: RefType) -> Seq<i64>
    decreases t,
{
    match t {
        RefType::UserDefined(r) => opt_id(r),
        RefType::Array(b) => type_refs(*b),
        RefType::Mapping(k, v) => type_refs(*k) + type_refs(*v),
        RefType::Other => Seq::empty(),
    }
}

pub open spec fn types_refs(ts: Seq<RefType>) -> Seq<i64>
    decreases ts.len(),
{
    if ts.len() == 0 {
        Seq::empty()
    } else {
        type_refs(ts[0]) + types_refs(ts.drop_first())
    }
}

/// The declaration the expression of a call with options names.
pub open spec fn called_id(e: RefExpr) -> Option<i64> {
    match e {
        RefExpr::MemberAccess { referenced_declaration, .. } => referenced_declaration,
        RefExpr::Identifier(r) => r,
        _ => None,
    }
}

/// The references of the callee of a call.
pub open spec fn callee_refs(c: RefExpr) -> Seq<i64>
    decreases c,
{
    match c {
        RefExpr::MemberAccess { expression, referenced_declaration } =>
            opt_id(referenced_declaration) + expr_refs(*expression),
        RefExpr::Identifier(r) => opt_id(r),
        RefExpr::CallOptions { expression, options } =>
            opt_id(called_id(*expression)) + expr_refs(*expression) + exprs_refs(options@),
        _ => Seq::empty(),
    }
}

pub open spec fn expr_refs(e: RefExpr) -> Seq<i64>
    decreases e,
{
    match e {
        RefExpr::Call { callee, arguments } => callee_refs(*callee) + exprs_refs(arguments@),
        RefExpr::CallOptions { .. } => Seq::empty(),
        RefExpr::Assignment { lhs, rhs } => expr_refs(*rhs) + expr_refs(*lhs),
        RefExpr::MemberAccess { expression, referenced_declaration } =>
            opt_id(referenced_declaration) + expr_refs(*expression),
        RefExpr::Identifier(r) => opt_id(r),
        RefExpr::Binary { left, right } => expr_refs(*left) + expr_refs(*right),
        RefExpr::Unary(sub) => expr_refs(*sub),
        RefExpr::Conditional { condition, true_expr, false_expr } =>
            expr_refs(*condition) + expr_refs(*true_expr) + expr_refs(*false_expr),
        RefExpr::Tuple(cs) => opt_exprs_refs(cs@),
        RefExpr::IndexAccess { base, index } => expr_refs(*base) + match index {
            Some(x) => expr_refs(*x),
            None => Seq::empty(),
        },
        RefExpr::IndexRangeAccess { base, start } => expr_refs(*base) + match start {
            Some(x) => expr_refs(*x),
            None => Seq::empty(),
        },
        RefExpr::Other => Seq::empty(),
    }
}

pub open spec fn exprs_refs(es: Seq<RefExpr>) -> Seq<i64>
    decreases es,
{
    if es.len() == 0 {
        Seq::empty()
    } else {
        expr_refs(es[0]) + exprs_refs(es.drop_first())
    }
}

pub open spec fn opt_exprs_refs(es: Seq<Option<RefExpr>>) -> Seq<i64>
    decreases es,
{
    if es.len() == 0 {
        Seq::empty()
    } else {
        let head = match es[0] {
            Some(x) => expr_refs(x),
            None => Seq::empty(),
        };
        head + opt_exprs_refs(es.drop_first())
    }
}

pub open spec fn stmt_refs(s: RefStmt) -> Seq<i64>
    decreases s,
{
    match s {
        RefStmt::Expression(e) => expr_refs(e),
        RefStmt::Block(ss) => stmts_refs(ss@),
        RefStmt::If { condition, true_body, false_body } => expr_refs(condition) + stmt_refs(*true_body) + match false_body {
            Some(b) => stmt_refs(*b),
            None => Seq::empty(),
        },
        RefStmt::For { init, condition, loop_expr, body } => {
            let a = match init {
                Some(x) => expr_refs(x),
                None => Seq::empty(),
            };
            let b = match condition {
                Some(x) => expr_refs(x),
                None => Seq::empty(),
            };
            let c = match loop_expr {
                Some(x) => expr_refs(x),
                None => Seq::empty(),
            };
            a + b + c + stmt_refs(*body)
        },
        RefStmt::While { condition, body } => expr_refs(condition) + stmt_refs(*body),
        RefStmt::DoWhile { body, condition } => stmt_refs(*body) + expr_refs(condition),
        RefStmt::Return(r) => match r {
            Some(x) => expr_refs(x),
            None => Seq::empty(),
        },
        RefStmt::VariableDeclaration { initial_value, types } => {
            let a = match initial_value {
                Some(x) => expr_refs(x),
                None => Seq::empty(),
            };
            a + types_refs(types@)
        },
        RefStmt::Revert(e) => expr_refs(e),
        RefStmt::Emit(e) => expr_refs(e),
        RefStmt::Try { external_call, clauses } => expr_refs(external_call) + blocks_refs(clauses@),
        RefStmt::Unchecked(ss) => stmts_refs(ss@),
        RefStmt::Other => Seq::empty(),
    }
}

pub open spec fn stmts_refs(ss: Seq<RefStmt>) -> Seq<i64>
    decreases ss,
{
    if ss.len() == 0 {
        Seq::empty()
    } else {
        stmt_refs(ss[0]) + stmts_refs(ss.drop_first())
    }
}

pub open spec fn blocks_refs(bs: Seq<Vec<RefStmt>>) -> Seq<i64>
    decreases bs,
{
    if bs.len() == 0 {
        Seq::empty()
    } else {
        stmts_refs(bs[0]@) + blocks_refs(bs.drop_first())
    }
}

/// Whether a source range `[off, off + len)` meets `[start, end)`.
pub open spec fn overlaps(off: usize, len: usize, start: int, end: int) -> bool {
    off < end && off + len > start
}

/// The references of a modifier invocation's arguments.
pub open spec fn mod_args_refs(a: Option<Vec<RefExpr>>) -> Seq<i64> {
    match a {
        Some(v) => exprs_refs(v@),
        None => Seq::empty(),
    }
}

pub open spec fn mods_refs(ms: Seq<RefModifier>) -> Seq<i64>
    decreases ms.len(),
{
    if ms.len() == 0 {
        Seq::empty()
    } else {
        let args = mod_args_refs(ms[0].arguments);
        opt_id(ms[0].referenced_declaration) + args + mods_refs(ms.drop_first())
    }
}

/// References paired with the declaration being walked (a reference to
/// that declaration itself is not followed).
pub open spec fn tagged(ids: Seq<i64>, cur: Option<i64>) -> Seq<(i64, Option<i64>)> {
    ids.map_values(|i: i64| (i, cur))
}

/// The references of a member whose body (or, for a state variable, whose
/// declaration) meets the range `[start, end)`.
pub open spec fn member_refs(m: RefMember, start: int, end: int) -> Seq<(i64, Option<i64>)> {
    match m {
        RefMember::Function { id, parameters, results, modifiers, body } => match body {
            Some(b) => if overlaps(b.offset, b.length, start, end) {
                tagged(
                    types_refs(parameters@) + types_refs(results@) + mods_refs(modifiers@) + stmts_refs(b.statements@),
                    Some(id),
                )
            } else {
                Seq::empty()
            },
            None => Seq::empty(),
        },
        RefMember::Modifier { id, parameters, body } => if overlaps(body.offset, body.length, start, end) {
            tagged(types_refs(parameters@) + stmts_refs(body.statements@), Some(id))
        } else {
            Seq::empty()
        },
        RefMember::Variable { offset, length, declared } => if overlaps(offset, length, start, end) {
            tagged(type_refs(declared), None)
        } else {
            Seq::empty()
        },
        RefMember::Other => Seq::empty(),
    }
}

pub open spec fn members_refs(ms: Seq<RefMember>, start: int, end: int) -> Seq<(i64, Option<i64>)>
    decreases ms.len(),
{
    if ms.len() == 0 {
        Seq::empty()
    } else {
        member_refs(ms[0], start, end) + members_refs(ms.drop_first(), start, end)
    }
}

/// Every reference met in the range `[start, end)` of a unit, in order.
pub open spec fn contracts_refs(cs: Seq<RefContract>, start: int, end: int) -> Seq<(i64, Option<i64>)>
    decreases cs.len(),
{
    if cs.len() == 0 {
        Seq::empty()
    } else {
        members_refs(cs[0].members@, start, end) + contracts_refs(cs.drop_first(), start, end)
    }
}

// ---------------------------------------------------------------------
// Resolving a reference.

pub open spec fn flavor_text(f: ContractFlavor) -> Seq<char> {
    match f {
        ContractFlavor::Interface => "InterfaceDefinition"@,
        ContractFlavor::Library => "LibraryDefinition"@,
        ContractFlavor::Abstract => "AbstractContractDefinition"@,
        ContractFlavor::Plain => "ContractDefinition"@,
    }
}

/// The AST node type of a declaration.
pub open spec fn sort_text(s: DeclSort) -> Seq<char> {
    match s {
        DeclSort::Contract(f) => flavor_text(f),
        DeclSort::Function => "FunctionDefinition"@,
        DeclSort::Variable => "VariableDeclaration"@,
        DeclSort::Struct => "StructDefinition"@,
        DeclSort::Enum => "EnumDefinition"@,
        DeclSort::Error => "ErrorDefinition"@,
        DeclSort::Event => "EventDefinition"@,
        DeclSort::Modifier => "ModifierDefinition"@,
        DeclSort::ValueType => "UserDefinedValueTypeDefinition"@,
    }
}

/// The symbol of a declaration: `C.f(types)` or `f(types)` for a function,
/// `C.v` for a state variable, the name otherwise.
pub open spec fn decl_symbol(d: UnitDecl) -> Seq<char> {
    let sig = d.name@ + "("@ + params_text(d.parameters@, TypeStyle::Plain) + ")"@;
    match d.sort {
        DeclSort::Function => match d.contract {
            Some(c) => c@ + "."@ + sig,
            None => sig,
        },
        DeclSort::Variable => match d.contract {
            Some(c) => c@ + "."@ + d.name@,
            None => d.name@,
        },
        _ => d.name@,
    }
}

/// A declaration of the unit read from `file`, as a resolved symbol.
pub open spec fn decl_view(d: UnitDecl, file: Seq<char>) -> SymV {
    (decl_symbol(d), file, d.offset, d.length, sort_text(d.sort))
}

/// The first declaration with the given id from position `i` on.
pub open spec fn decl_from(ds: Seq<UnitDecl>, id: i64, i: int) -> Option<int>
    decreases ds.len() - i,
{
    if i < 0 || i >= ds.len() {
        None
    } else if ds[i].id == id {
        Some(i)
    } else {
        decl_from(ds, id, i + 1)
    }
}

/// The first contract declaration with the given id from position `i` on.
pub open spec fn contract_from(ds: Seq<UnitDecl>, id: i64, i: int) -> Option<int>
    decreases ds.len() - i,
{
    if i < 0 || i >= ds.len() {
        None
    } else if ds[i].id == id && ds[i].sort is Contract {
        Some(i)
    } else {
        contract_from(ds, id, i + 1)
    }
}

/// The first index entry of a build for an id from position `i` on.
pub open spec fn entry_from(es: Seq<IndexEntry>, build: Seq<char>, id: i64, i: int) -> Option<int>
    decreases es.len() - i,
{
    if i < 0 || i >= es.len() {
        None
    } else if es[i].build@ == build && es[i].id == id {
        Some(i)
    } else {
        entry_from(es, build, id, i + 1)
    }
}

/// Every index entry names an artifact of the program.
pub open spec fn prog_wf(p: RefProgram) -> bool {
    forall|k: int| 0 <= k < p.entries@.len() ==> (#[trigger] p.entries@[k]).artifact < p.artifacts@.len()
}

/// The node type of contract `id` as the artifact `a` declares it, or
/// `ContractDefinition` where the artifact does not show it.
pub open spec fn refined_type(p: RefProgram, a: int, id: i64) -> Seq<char> {
    match p.artifacts@[a].load {
        RefLoad::Unit(u) => match contract_from(u.decls@, id, 0) {
            Some(k) => sort_text(u.decls@[k].sort),
            None => "ContractDefinition"@,
        },
        _ => "ContractDefinition"@,
    }
}

/// Where the walk runs: the program, the declarations of the unit walked,
/// the file the unit was read for, and the build of that file.
pub struct Scope {
    pub prog: RefProgram,
    pub decls: Seq<UnitDecl>,
    pub file: Seq<char>,
    pub build: Seq<char>,
}

/// The declaration a reference resolves to: a declaration of the unit
/// itself; else a declaration of the same build in another file, named
/// `C.name` for a function or state variable.
pub open spec fn resolve_ref(sc: Scope, id: i64) -> Option<SymV> {
    match decl_from(sc.decls, id, 0) {
        Some(k) => Some(decl_view(sc.decls[k], sc.file)),
        None => match entry_from(sc.prog.entries@, sc.build, id, 0) {
            None => None,
            Some(k) => {
                let e = sc.prog.entries@[k];
                let info = sc.prog.artifacts@[e.artifact as int];
                if info.build@ == sc.build && info.source@ != sc.file {
                    let sym = if e.node_type@ == "FunctionDefinition"@ || e.node_type@ == "VariableDeclaration"@ {
                        e.contract_name@ + "."@ + e.name@
                    } else {
                        e.name@
                    };
                    let nt = if e.node_type@ == "ContractDefinition"@ {
                        refined_type(sc.prog, e.artifact as int, id)
                    } else {
                        e.node_type@
                    };
                    Some((sym, info.source@, e.offset, e.length, nt))
                } else {
                    None
                }
            },
        },
    }
}

/// One reference met by the walk: skipped when it names the declaration
/// being walked or an id already met; otherwise the id is marked met and
/// its declaration, if it resolves, is collected.
pub open spec fn ref_step(sc: Scope, st: (Seq<i64>, Seq<SymV>), o: (i64, Option<i64>)) -> (Seq<i64>, Seq<SymV>) {
    if o.1 == Some(o.0) || st.0.contains(o.0) {
        st
    } else {
        (st.0.push(o.0), match resolve_ref(sc, o.0) {
            Some(s) => st.1.push(s),
            None => st.1,
        })
    }
}

pub open spec fn ref_fold(sc: Scope, st: (Seq<i64>, Seq<SymV>), occ: Seq<(i64, Option<i64>)>) -> (Seq<i64>, Seq<SymV>)
    decreases occ.len(),
{
    if occ.len() == 0 {
        st
    } else {
        ref_fold(sc, ref_step(sc, st, occ[0]), occ.drop_first())
    }
}

/// The declarations referenced in `[start, start + len)` of a unit.
pub open spec fn collected(sc: Scope, u: RefUnit, start: int, len: int) -> Seq<SymV> {
    ref_fold(sc, (Seq::empty(), Seq::empty()), contracts_refs(u.contracts@, start, start + len)).1
}

pub proof fn lemma_fold_append(sc: Scope, st: (Seq<i64>, Seq<SymV>), a: Seq<(i64, Option<i64>)>, b: Seq<(i64, Option<i64>)>)
    ensures
        ref_fold(sc, st, a + b) == ref_fold(sc, ref_fold(sc, st, a), b),
    decreases a.len(),
{
    if a.len() == 0 {
        assert(a + b =~= b);
    } else {
        assert((a + b)[0] == a[0]);
        assert((a + b).drop_first() =~= a.drop_first() + b);
        lemma_fold_append(sc, ref_step(sc, st, a[0]), a.drop_first(), b);
    }
}

/// Folding two runs of references walked for the same declaration.
pub proof fn lemma_fold_tagged(sc: Scope, st: (Seq<i64>, Seq<SymV>), a: Seq<i64>, b: Seq<i64>, cur: Option<i64>)
    ensures
        ref_fold(sc, ref_fold(sc, st, tagged(a, cur)), tagged(b, cur)) == ref_fold(sc, st, tagged(a + b, cur)),
{
    assert(tagged(a + b, cur) =~= tagged(a, cur) + tagged(b, cur));
    lemma_fold_append(sc, st, tagged(a, cur), tagged(b, cur));
}

// ---------------------------------------------------------------------
// Executable resolution.

/// Where a walk runs (see [`Scope`]).
#[derive(Debug)]
pub struct RefCtx<'a> {
    pub prog: &'a RefProgram,
    pub decls: &'a Vec<UnitDecl>,
    pub file: &'a String,
    pub build: &'a String,
}

impl<'a> RefCtx<'a> {
    pub open spec fn scope(&self) -> Scope {
        Scope { prog: *self.prog, decls: self.decls@, file: self.file@, build: self.build@ }
    }
}

/// The walk's state as a value: the ids met and the symbols collected.
pub open spec fn st_view(seen: Seq<i64>, out: Seq<ResolvedSymbol>) -> (Seq<i64>, Seq<SymV>) {
    (seen, syms_view(out))
}

fn same_text(a: &str, b: &str) -> (r: bool)
    ensures
        r == (a@ == b@),
{
    chars_eq(&chars_of(a), &chars_of(b))
}

fn sort_text_exec(s: DeclSort) -> (r: String)
    ensures
        r@ == sort_text(s),
{
    match s {
        DeclSort::Contract(f) => match f {
            ContractFlavor::Interface => String::from_str("InterfaceDefinition"),
            ContractFlavor::Library => String::from_str("LibraryDefinition"),
            ContractFlavor::Abstract => String::from_str("AbstractContractDefinition"),
            ContractFlavor::Plain => String::from_str("ContractDefinition"),
        },
        DeclSort::Function => String::from_str("FunctionDefinition"),
        DeclSort::Variable => String::from_str("VariableDeclaration"),
        DeclSort::Struct => String::from_str("StructDefinition"),
        DeclSort::Enum => String::from_str("EnumDefinition"),
        DeclSort::Error => String::from_str("ErrorDefinition"),
        DeclSort::Event => String::from_str("EventDefinition"),
        DeclSort::Modifier => String::from_str("ModifierDefinition"),
        DeclSort::ValueType => String::from_str("UserDefinedValueTypeDefinition"),
    }
}

/// A declaration as a resolved symbol of `file`.
pub fn decl_symbol_exec(d: &UnitDecl, file: &String) -> (r: ResolvedSymbol)
    ensures
        sym_view(r) == decl_view(*d, file@),
{
    let symbol = match d.sort {
        DeclSort::Function => {
            let mut t = match &d.contract {
                Some(c) => {
                    let mut t = c.clone();
                    push_str(&mut t, ".");
                    t
                },
                None => String::new(),
            };
            push_str(&mut t, d.name.as_str());
            push_str(&mut t, "(");
            let ps = format_params(&d.parameters, TypeStyle::Plain);
            push_str(&mut t, ps.as_str());
            push_str(&mut t, ")");
            proof {
                let sig = d.name@ + "("@ + params_text(d.parameters@, TypeStyle::Plain) + ")"@;
                if d.contract is Some {
                    assert(t@ =~= d.contract->0@ + "."@ + sig);
                } else {
                    assert(t@ =~= sig);
                }
            }
            t
        },
        DeclSort::Variable => match &d.contract {
            Some(c) => {
                let mut t = c.clone();
                push_str(&mut t, ".");
                push_str(&mut t, d.name.as_str());
                t
            },
            None => d.name.clone(),
        },
        _ => d.name.clone(),
    };
    ResolvedSymbol { symbol, file: file.clone(), offset: d.offset, length: d.length, node_type: sort_text_exec(d.sort) }
}

/// The declaration of a unit read for `file` that has the given id, as a
/// resolved symbol (see [`resolve_ref`]).
pub fn resolve_id_in_ast(decls: &Vec<UnitDecl>, id: i64, file: &String) -> (r: Option<ResolvedSymbol>)
    ensures
        match r {
            Some(s) => decl_from(decls@, id, 0) matches Some(k) && sym_view(s) == decl_view(decls@[k], file@),
            None => decl_from(decls@, id, 0) is None,
        },
{
    match decl_pos(decls, id) {
        Some(k) => Some(decl_symbol_exec(&decls[k], file)),
        None => None,
    }
}

fn decl_pos(ds: &Vec<UnitDecl>, id: i64) -> (r: Option<usize>)
    ensures
        match r {
            Some(k) => decl_from(ds@, id, 0) == Some(k as int) && k < ds@.len(),
            None => decl_from(ds@, id, 0) is None,
        },
{
    let mut i: usize = 0;
    while i < ds.len()
        invariant
            i <= ds@.len(),
            decl_from(ds@, id, 0) == decl_from(ds@, id, i as int),
        decreases ds@.len() - i,
    {
        if ds[i].id == id {
            return Some(i);
        }
        i = i + 1;
    }
    None
}

fn contract_pos(ds: &Vec<UnitDecl>, id: i64) -> (r: Option<usize>)
    ensures
        match r {
            Some(k) => contract_from(ds@, id, 0) == Some(k as int) && k < ds@.len(),
            None => contract_from(ds@, id, 0) is None,
        },
{
    let mut i: usize = 0;
    while i < ds.len()
        invariant
            i <= ds@.len(),
            contract_from(ds@, id, 0) == contract_from(ds@, id, i as int),
        decreases ds@.len() - i,
    {
        let is_contract = match ds[i].sort {
            DeclSort::Contract(_) => true,
            _ => false,
        };
        if ds[i].id == id && is_contract {
            return Some(i);
        }
        i = i + 1;
    }
    None
}

fn entry_pos(es: &Vec<IndexEntry>, build: &String, id: i64) -> (r: Option<usize>)
    ensures
        match r {
            Some(k) => entry_from(es@, build@, id, 0) == Some(k as int) && k < es@.len(),
            None => entry_from(es@, build@, id, 0) is None,
        },
{
    let mut i: usize = 0;
    while i < es.len()
        invariant
            i <= es@.len(),
            entry_from(es@, build@, id, 0) == entry_from(es@, build@, id, i as int),
        decreases es@.len() - i,
    {
        if es[i].id == id && same_text(es[i].build.as_str(), build.as_str()) {
            return Some(i);
        }
        i = i + 1;
    }
    None
}

fn contract_node_type_for_id(p: &RefProgram, a: usize, id: i64) -> (r: String)
    requires
        a < p.artifacts@.len(),
    ensures
        r@ == refined_type(*p, a as int, id),
{
    match &p.artifacts[a].load {
        RefLoad::Unit(u) => match contract_pos(&u.decls, id) {
            Some(k) => sort_text_exec(u.decls[k].sort),
            None => String::from_str("ContractDefinition"),
        },
        _ => String::from_str("ContractDefinition"),
    }
}

/// The declaration a reference resolves to (see [`resolve_ref`]).
pub fn resolve_ref_exec(cx: &RefCtx, id: i64) -> (r: Option<ResolvedSymbol>)
    requires
        prog_wf(*cx.prog),
    ensures
        match r {
            Some(s) => resolve_ref(cx.scope(), id) == Some(sym_view(s)),
            None => resolve_ref(cx.scope(), id) is None,
        },
{
    match resolve_id_in_ast(cx.decls, id, cx.file) {
        Some(sym) => Some(sym),
        None => match entry_pos(&cx.prog.entries, cx.build, id) {
            None => None,
            Some(k) => {
                let e = &cx.prog.entries[k];
                assert(cx.prog.entries@[k as int].artifact < cx.prog.artifacts@.len());
                let info = &cx.prog.artifacts[e.artifact];
                if same_text(info.build.as_str(), cx.build.as_str()) && !same_text(info.source.as_str(), cx.file.as_str()) {
                    let member = same_text(e.node_type.as_str(), "FunctionDefinition")
                        || same_text(e.node_type.as_str(), "VariableDeclaration");
                    let symbol = if member {
                        let mut t = e.contract_name.clone();
                        push_str(&mut t, ".");
                        push_str(&mut t, e.name.as_str());
                        t
                    } else {
                        e.name.clone()
                    };
                    let node_type = if same_text(e.node_type.as_str(), "ContractDefinition") {
                        contract_node_type_for_id(cx.prog, e.artifact, id)
                    } else {
                        e.node_type.clone()
                    };
                    Some(ResolvedSymbol { symbol, file: info.source.clone(), offset: e.offset, length: e.length, node_type })
                } else {
                    None
                }
            },
        },
    }
}

fn contains_id(v: &Vec<i64>, id: i64) -> (r: bool)
    ensures
        r == v@.contains(id),
{
    let mut i: usize = 0;
    while i < v.len()
        invariant
            i <= v@.len(),
            forall|j: int| 0 <= j < i ==> v@[j] != id,
        decreases v@.len() - i,
    {
        if v[i] == id {
            assert(v@[i as int] == id);
            return true;
        }
        i = i + 1;
    }
    false
}

/// One reference met by the walk (see [`ref_step`]).
fn resolve_and_add_symbol(cx: &RefCtx, id: i64, cur: Option<i64>, seen: &mut Vec<i64>, out: &mut Vec<ResolvedSymbol>)
    requires
        prog_wf(*cx.prog),
    ensures
        st_view(final(seen)@, final(out)@) == ref_step(cx.scope(), st_view(old(seen)@, old(out)@), (id, cur)),
{
    let is_self = match cur {
        Some(c) => c == id,
        None => false,
    };
    if is_self {
        return;
    }
    if contains_id(seen, id) {
        return;
    }
    seen.push(id);
    match resolve_ref_exec(cx, id) {
        Some(sym) => {
            proof {
                assert(syms_view(old(out)@.push(sym)) =~= syms_view(old(out)@).push(sym_view(sym)));
            }
            out.push(sym);
        },
        None => {},
    }
}

// ---------------------------------------------------------------------
// The walk.

pub open spec fn fold_ids(sc: Scope, st: (Seq<i64>, Seq<SymV>), ids: Seq<i64>, cur: Option<i64>) -> (Seq<i64>, Seq<SymV>) {
    ref_fold(sc, st, tagged(ids, cur))
}

proof fn lemma_fold_empty(sc: Scope, st: (Seq<i64>, Seq<SymV>), cur: Option<i64>)
    ensures
        fold_ids(sc, st, Seq::empty(), cur) == st,
{
    assert(tagged(Seq::<i64>::empty(), cur) =~= Seq::empty());
}

proof fn lemma_fold_one(sc: Scope, st: (Seq<i64>, Seq<SymV>), i: i64, cur: Option<i64>)
    ensures
        fold_ids(sc, st, seq![i], cur) == ref_step(sc, st, (i, cur)),
{
    let t = tagged(seq![i], cur);
    assert(t.len() == 1);
    assert(t[0] == (i, cur));
    assert(t.drop_first() =~= Seq::empty());
    let s1 = ref_step(sc, st, (i, cur));
    assert(ref_fold(sc, s1, Seq::empty()) == s1);
    assert(ref_fold(sc, st, t) == ref_fold(sc, s1, t.drop_first()));
}

/// The references of a member, walked with the declaration the member is.
proof fn lemma_fold_split(sc: Scope, st: (Seq<i64>, Seq<SymV>), a: Seq<i64>, b: Seq<i64>, cur: Option<i64>)
    ensures
        fold_ids(sc, fold_ids(sc, st, a, cur), b, cur) == fold_ids(sc, st, a + b, cur),
{
    lemma_fold_tagged(sc, st, a, b, cur);
}

fn opt_ref(cx: &RefCtx, r: Option<i64>, cur: Option<i64>, seen: &mut Vec<i64>, out: &mut Vec<ResolvedSymbol>)
    requires
        prog_wf(*cx.prog),
    ensures
        st_view(final(seen)@, final(out)@) == fold_ids(cx.scope(), st_view(old(seen)@, old(out)@), opt_id(r), cur),
{
    match r {
        Some(i) => {
            resolve_and_add_symbol(cx, i, cur, seen, out);
            proof {
                lemma_fold_one(cx.scope(), st_view(old(seen)@, old(out)@), i, cur);
            }
        },
        None => {
            proof {
                lemma_fold_empty(cx.scope(), st_view(old(seen)@, old(out)@), cur);
            }
        },
    }
}

fn collect_from_type_name(cx: &RefCtx, t: &RefType, cur: Option<i64>, seen: &mut Vec<i64>, out: &mut Vec<ResolvedSymbol>)
    requires
        prog_wf(*cx.prog),
    ensures
        st_view(final(seen)@, final(out)@) == fold_ids(cx.scope(), st_view(old(seen)@, old(out)@), type_refs(*t), cur),
    decreases t,
{
    let ghost s0 = st_view(seen@, out@);
    match t {
        RefType::UserDefined(r) => opt_ref(cx, *r, cur, seen, out),
        RefType::Array(b) => collect_from_type_name(cx, b, cur, seen, out),
        RefType::Mapping(k, v) => {
            collect_from_type_name(cx, k, cur, seen, out);
            collect_from_type_name(cx, v, cur, seen, out);
            proof {
                lemma_fold_split(cx.scope(), s0, type_refs(**k), type_refs(**v), cur);
            }
        },
        RefType::Other => {
            proof {
                lemma_fold_empty(cx.scope(), s0, cur);
            }
        },
    }
}

fn types_collect(cx: &RefCtx, ts: &Vec<RefType>, cur: Option<i64>, seen: &mut Vec<i64>, out: &mut Vec<ResolvedSymbol>)
    requires
        prog_wf(*cx.prog),
    ensures
        st_view(final(seen)@, final(out)@) == fold_ids(cx.scope(), st_view(old(seen)@, old(out)@), types_refs(ts@), cur),
{
    let ghost target = fold_ids(cx.scope(), st_view(seen@, out@), types_refs(ts@), cur);
    let mut i: usize = 0;
    assert(ts@.subrange(0, ts@.len() as int) =~= ts@);
    while i < ts.len()
        invariant
            prog_wf(*cx.prog),
            i <= ts@.len(),
            fold_ids(cx.scope(), st_view(seen@, out@), types_refs(ts@.subrange(i as int, ts@.len() as int)), cur) == target,
        decreases ts@.len() - i,
    {
        let ghost rest = ts@.subrange(i as int, ts@.len() as int);
        assert(rest[0] == ts@[i as int]);
        assert(rest.drop_first() =~= ts@.subrange(i + 1, ts@.len() as int));
        let ghost s1 = st_view(seen@, out@);
        collect_from_type_name(cx, &ts[i], cur, seen, out);
        proof {
            lemma_fold_split(cx.scope(), s1, type_refs(ts@[i as int]), types_refs(rest.drop_first()), cur);
        }
        i = i + 1;
    }
    proof {
        assert(ts@.subrange(i as int, ts@.len() as int) =~= Seq::empty());
        lemma_fold_empty(cx.scope(), st_view(seen@, out@), cur);
    }
}

fn called_id_exec(e: &RefExpr) -> (r: Option<i64>)
    ensures
        r == called_id(*e),
{
    match e {
        RefExpr::MemberAccess { referenced_declaration, .. } => *referenced_declaration,
        RefExpr::Identifier(r) => *r,
        _ => None,
    }
}

fn collect_from_callee(cx: &RefCtx, c: &RefExpr, cur: Option<i64>, seen: &mut Vec<i64>, out: &mut Vec<ResolvedSymbol>)
    requires
        prog_wf(*cx.prog),
    ensures
        st_view(final(seen)@, final(out)@) == fold_ids(cx.scope(), st_view(old(seen)@, old(out)@), callee_refs(*c), cur),
    decreases c, 1int,
{
    let ghost s0 = st_view(seen@, out@);
    match c {
        RefExpr::MemberAccess { expression, referenced_declaration } => {
            opt_ref(cx, *referenced_declaration, cur, seen, out);
            collect_from_expression(cx, expression, cur, seen, out);
            proof {
                lemma_fold_split(cx.scope(), s0, opt_id(*referenced_declaration), expr_refs(**expression), cur);
            }
        },
        RefExpr::Identifier(r) => opt_ref(cx, *r, cur, seen, out),
        RefExpr::CallOptions { expression, options } => {
            let id = called_id_exec(expression);
            opt_ref(cx, id, cur, seen, out);
            collect_from_expression(cx, expression, cur, seen, out);
            proof {
                lemma_fold_split(cx.scope(), s0, opt_id(id), expr_refs(**expression), cur);
            }
            exprs_collect(cx, options, cur, seen, out);
            proof {
                lemma_fold_split(cx.scope(), s0, opt_id(id) + expr_refs(**expression), exprs_refs(options@), cur);
            }
        },
        _ => {
            proof {
                lemma_fold_empty(cx.scope(), s0, cur);
            }
        },
    }
}

/// The references of an optional expression.
pub open spec fn opt_refs(o: Option<Box<RefExpr>>) -> Seq<i64> {
    match o {
        Some(x) => expr_refs(*x),
        None => Seq::empty(),
    }
}

fn opt_expr_collect(cx: &RefCtx, e: &Option<Box<RefExpr>>, cur: Option<i64>, seen: &mut Vec<i64>, out: &mut Vec<ResolvedSymbol>)
    requires
        prog_wf(*cx.prog),
    ensures
        st_view(final(seen)@, final(out)@) == fold_ids(
            cx.scope(),
            st_view(old(seen)@, old(out)@),
            opt_refs(*e),
            cur,
        ),
    decreases e, 0int,
{
    match e {
        Some(x) => collect_from_expression(cx, x, cur, seen, out),
        None => {
            proof {
                lemma_fold_empty(cx.scope(), st_view(seen@, out@), cur);
            }
        },
    }
}

fn collect_from_expression(cx: &RefCtx, e: &RefExpr, cur: Option<i64>, seen: &mut Vec<i64>, out: &mut Vec<ResolvedSymbol>)
    requires
        prog_wf(*cx.prog),
    ensures
        st_view(final(seen)@, final(out)@) == fold_ids(cx.scope(), st_view(old(seen)@, old(out)@), expr_refs(*e), cur),
    decreases e, 2int,
{
    let ghost s0 = st_view(seen@, out@);
    let ghost sc = cx.scope();
    match e {
        RefExpr::Call { callee, arguments } => {
            collect_from_callee(cx, callee, cur, seen, out);
            exprs_collect(cx, arguments, cur, seen, out);
            proof {
                lemma_fold_split(sc, s0, callee_refs(**callee), exprs_refs(arguments@), cur);
            }
        },
        RefExpr::Assignment { lhs, rhs } => {
            collect_from_expression(cx, rhs, cur, seen, out);
            collect_from_expression(cx, lhs, cur, seen, out);
            proof {
                lemma_fold_split(sc, s0, expr_refs(**rhs), expr_refs(**lhs), cur);
            }
        },
        RefExpr::MemberAccess { expression, referenced_declaration } => {
            opt_ref(cx, *referenced_declaration, cur, seen, out);
            collect_from_expression(cx, expression, cur, seen, out);
            proof {
                lemma_fold_split(sc, s0, opt_id(*referenced_declaration), expr_refs(**expression), cur);
            }
        },
        RefExpr::Identifier(r) => opt_ref(cx, *r, cur, seen, out),
        RefExpr::Binary { left, right } => {
            collect_from_expression(cx, left, cur, seen, out);
            collect_from_expression(cx, right, cur, seen, out);
            proof {
                lemma_fold_split(sc, s0, expr_refs(**left), expr_refs(**right), cur);
            }
        },
        RefExpr::Unary(sub) => collect_from_expression(cx, sub, cur, seen, out),
        RefExpr::Conditional { condition, true_expr, false_expr } => {
            collect_from_expression(cx, condition, cur, seen, out);
            collect_from_expression(cx, true_expr, cur, seen, out);
            proof {
                lemma_fold_split(sc, s0, expr_refs(**condition), expr_refs(**true_expr), cur);
            }
            collect_from_expression(cx, false_expr, cur, seen, out);
            proof {
                lemma_fold_split(sc, s0, expr_refs(**condition) + expr_refs(**true_expr), expr_refs(**false_expr), cur);
            }
        },
        RefExpr::Tuple(cs) => opt_exprs_collect(cx, cs, cur, seen, out),
        RefExpr::IndexAccess { base, index } => {
            collect_from_expression(cx, base, cur, seen, out);
            opt_expr_collect(cx, index, cur, seen, out);
            proof {
                lemma_fold_split(sc, s0, expr_refs(**base), opt_refs(*index), cur);
            }
        },
        RefExpr::IndexRangeAccess { base, start } => {
            collect_from_expression(cx, base, cur, seen, out);
            opt_expr_collect(cx, start, cur, seen, out);
            proof {
                lemma_fold_split(sc, s0, expr_refs(**base), opt_refs(*start), cur);
            }
        },
        _ => {
            proof {
                lemma_fold_empty(sc, s0, cur);
            }
        },
    }
}

fn exprs_collect(cx: &RefCtx, es: &Vec<RefExpr>, cur: Option<i64>, seen: &mut Vec<i64>, out: &mut Vec<ResolvedSymbol>)
    requires
        prog_wf(*cx.prog),
    ensures
        st_view(final(seen)@, final(out)@) == fold_ids(cx.scope(), st_view(old(seen)@, old(out)@), exprs_refs(es@), cur),
    decreases es, 0int,
{
    let ghost target = fold_ids(cx.scope(), st_view(seen@, out@), exprs_refs(es@), cur);
    let mut i: usize = 0;
    assert(es@.subrange(0, es@.len() as int) =~= es@);
    while i < es.len()
        invariant
            prog_wf(*cx.prog),
            i <= es@.len(),
            fold_ids(cx.scope(), st_view(seen@, out@), exprs_refs(es@.subrange(i as int, es@.len() as int)), cur) == target,
        decreases es@.len() - i,
    {
        assert(decreases_to!(es => es@[i as int]));
        let ghost rest = es@.subrange(i as int, es@.len() as int);
        assert(rest[0] == es@[i as int]);
        assert(rest.drop_first() =~= es@.subrange(i + 1, es@.len() as int));
        let ghost s1 = st_view(seen@, out@);
        collect_from_expression(cx, &es[i], cur, seen, out);
        proof {
            lemma_fold_split(cx.scope(), s1, expr_refs(es@[i as int]), exprs_refs(rest.drop_first()), cur);
        }
        i = i + 1;
    }
    proof {
        assert(es@.subrange(i as int, es@.len() as int) =~= Seq::empty());
        lemma_fold_empty(cx.scope(), st_view(seen@, out@), cur);
    }
}

fn opt_exprs_collect(cx: &RefCtx, es: &Vec<Option<RefExpr>>, cur: Option<i64>, seen: &mut Vec<i64>, out: &mut Vec<ResolvedSymbol>)
    requires
        prog_wf(*cx.prog),
    ensures
        st_view(final(seen)@, final(out)@) == fold_ids(cx.scope(), st_view(old(seen)@, old(out)@), opt_exprs_refs(es@), cur),
    decreases es, 0int,
{
    let ghost target = fold_ids(cx.scope(), st_view(seen@, out@), opt_exprs_refs(es@), cur);
    let mut i: usize = 0;
    assert(es@.subrange(0, es@.len() as int) =~= es@);
    while i < es.len()
        invariant
            prog_wf(*cx.prog),
            i <= es@.len(),
            fold_ids(cx.scope(), st_view(seen@, out@), opt_exprs_refs(es@.subrange(i as int, es@.len() as int)), cur) == target,
        decreases es@.len() - i,
    {
        assert(decreases_to!(es => es@[i as int]));
        let ghost rest = es@.subrange(i as int, es@.len() as int);
        assert(rest[0] == es@[i as int]);
        assert(rest.drop_first() =~= es@.subrange(i + 1, es@.len() as int));
        let ghost s1 = st_view(seen@, out@);
        let ghost head = match es@[i as int] {
            Some(x) => expr_refs(x),
            None => Seq::empty(),
        };
        match &es[i] {
            Some(x) => {
                assert(decreases_to!(es@[i as int] => x));
                collect_from_expression(cx, x, cur, seen, out);
            },
            None => {
                proof {
                    lemma_fold_empty(cx.scope(), s1, cur);
                }
            },
        }
        proof {
            lemma_fold_split(cx.scope(), s1, head, opt_exprs_refs(rest.drop_first()), cur);
        }
        i = i + 1;
    }
    proof {
        assert(es@.subrange(i as int, es@.len() as int) =~= Seq::empty());
        lemma_fold_empty(cx.scope(), st_view(seen@, out@), cur);
    }
}

/// The references of an optional expression held in place.
pub open spec fn opt_plain_refs(o: Option<RefExpr>) -> Seq<i64> {
    match o {
        Some(x) => expr_refs(x),
        None => Seq::empty(),
    }
}

fn opt_plain_collect(cx: &RefCtx, e: &Option<RefExpr>, cur: Option<i64>, seen: &mut Vec<i64>, out: &mut Vec<ResolvedSymbol>)
    requires
        prog_wf(*cx.prog),
    ensures
        st_view(final(seen)@, final(out)@) == fold_ids(cx.scope(), st_view(old(seen)@, old(out)@), opt_plain_refs(*e), cur),
{
    match e {
        Some(x) => collect_from_expression(cx, x, cur, seen, out),
        None => {
            proof {
                lemma_fold_empty(cx.scope(), st_view(seen@, out@), cur);
            }
        },
    }
}

/// The references of an optional statement.
pub open spec fn opt_stmt_refs(o: Option<Box<RefStmt>>) -> Seq<i64> {
    match o {
        Some(b) => stmt_refs(*b),
        None => Seq::empty(),
    }
}

fn collect_from_statement(cx: &RefCtx, s: &RefStmt, cur: Option<i64>, seen: &mut Vec<i64>, out: &mut Vec<ResolvedSymbol>)
    requires
        prog_wf(*cx.prog),
    ensures
        st_view(final(seen)@, final(out)@) == fold_ids(cx.scope(), st_view(old(seen)@, old(out)@), stmt_refs(*s), cur),
    decreases s, 2int,
{
    let ghost s0 = st_view(seen@, out@);
    let ghost sc = cx.scope();
    match s {
        RefStmt::Expression(e) => collect_from_expression(cx, e, cur, seen, out),
        RefStmt::Block(ss) => collect_from_statements(cx, ss, cur, seen, out),
        RefStmt::If { condition, true_body, false_body } => {
            collect_from_expression(cx, condition, cur, seen, out);
            collect_from_statement(cx, true_body, cur, seen, out);
            proof {
                lemma_fold_split(sc, s0, expr_refs(*condition), stmt_refs(**true_body), cur);
            }
            let ghost s2 = st_view(seen@, out@);
            let ghost tail = opt_stmt_refs(*false_body);
            match false_body {
                Some(b) => collect_from_statement(cx, b, cur, seen, out),
                None => {
                    proof {
                        lemma_fold_empty(sc, s2, cur);
                    }
                },
            }
            proof {
                lemma_fold_split(sc, s0, expr_refs(*condition) + stmt_refs(**true_body), tail, cur);
            }
        },
        RefStmt::For { init, condition, loop_expr, body } => {
            opt_plain_collect(cx, init, cur, seen, out);
            opt_plain_collect(cx, condition, cur, seen, out);
            proof {
                lemma_fold_split(sc, s0, opt_plain_refs(*init), opt_plain_refs(*condition), cur);
            }
            opt_plain_collect(cx, loop_expr, cur, seen, out);
            proof {
                lemma_fold_split(sc, s0, opt_plain_refs(*init) + opt_plain_refs(*condition), opt_plain_refs(*loop_expr), cur);
            }
            collect_from_statement(cx, body, cur, seen, out);
            proof {
                lemma_fold_split(
                    sc,
                    s0,
                    opt_plain_refs(*init) + opt_plain_refs(*condition) + opt_plain_refs(*loop_expr),
                    stmt_refs(**body),
                    cur,
                );
            }
        },
        RefStmt::While { condition, body } => {
            collect_from_expression(cx, condition, cur, seen, out);
            collect_from_statement(cx, body, cur, seen, out);
            proof {
                lemma_fold_split(sc, s0, expr_refs(*condition), stmt_refs(**body), cur);
            }
        },
        RefStmt::DoWhile { body, condition } => {
            collect_from_statement(cx, body, cur, seen, out);
            collect_from_expression(cx, condition, cur, seen, out);
            proof {
                lemma_fold_split(sc, s0, stmt_refs(**body), expr_refs(*condition), cur);
            }
        },
        RefStmt::Return(r) => opt_plain_collect(cx, r, cur, seen, out),
        RefStmt::VariableDeclaration { initial_value, types } => {
            opt_plain_collect(cx, initial_value, cur, seen, out);
            types_collect(cx, types, cur, seen, out);
            proof {
                lemma_fold_split(sc, s0, opt_plain_refs(*initial_value), types_refs(types@), cur);
            }
        },
        RefStmt::Revert(e) => collect_from_expression(cx, e, cur, seen, out),
        RefStmt::Emit(e) => collect_from_expression(cx, e, cur, seen, out),
        RefStmt::Try { external_call, clauses } => {
            collect_from_expression(cx, external_call, cur, seen, out);
            blocks_collect(cx, clauses, cur, seen, out);
            proof {
                lemma_fold_split(sc, s0, expr_refs(*external_call), blocks_refs(clauses@), cur);
            }
        },
        RefStmt::Unchecked(ss) => collect_from_statements(cx, ss, cur, seen, out),
        RefStmt::Other => {
            proof {
                lemma_fold_empty(sc, s0, cur);
            }
        },
    }
}

fn collect_from_statements(cx: &RefCtx, ss: &Vec<RefStmt>, cur: Option<i64>, seen: &mut Vec<i64>, out: &mut Vec<ResolvedSymbol>)
    requires
        prog_wf(*cx.prog),
    ensures
        st_view(final(seen)@, final(out)@) == fold_ids(cx.scope(), st_view(old(seen)@, old(out)@), stmts_refs(ss@), cur),
    decreases ss, 0int,
{
    let ghost target = fold_ids(cx.scope(), st_view(seen@, out@), stmts_refs(ss@), cur);
    let mut i: usize = 0;
    assert(ss@.subrange(0, ss@.len() as int) =~= ss@);
    while i < ss.len()
        invariant
            prog_wf(*cx.prog),
            i <= ss@.len(),
            fold_ids(cx.scope(), st_view(seen@, out@), stmts_refs(ss@.subrange(i as int, ss@.len() as int)), cur) == target,
        decreases ss@.len() - i,
    {
        assert(decreases_to!(ss => ss@[i as int]));
        let ghost rest = ss@.subrange(i as int, ss@.len() as int);
        assert(rest[0] == ss@[i as int]);
        assert(rest.drop_first() =~= ss@.subrange(i + 1, ss@.len() as int));
        let ghost s1 = st_view(seen@, out@);
        collect_from_statement(cx, &ss[i], cur, seen, out);
        proof {
            lemma_fold_split(cx.scope(), s1, stmt_refs(ss@[i as int]), stmts_refs(rest.drop_first()), cur);
        }
        i = i + 1;
    }
    proof {
        assert(ss@.subrange(i as int, ss@.len() as int) =~= Seq::empty());
        lemma_fold_empty(cx.scope(), st_view(seen@, out@), cur);
    }
}

fn blocks_collect(cx: &RefCtx, bs: &Vec<Vec<RefStmt>>, cur: Option<i64>, seen: &mut Vec<i64>, out: &mut Vec<ResolvedSymbol>)
    requires
        prog_wf(*cx.prog),
    ensures
        st_view(final(seen)@, final(out)@) == fold_ids(cx.scope(), st_view(old(seen)@, old(out)@), blocks_refs(bs@), cur),
    decreases bs, 0int,
{
    let ghost target = fold_ids(cx.scope(), st_view(seen@, out@), blocks_refs(bs@), cur);
    let mut i: usize = 0;
    assert(bs@.subrange(0, bs@.len() as int) =~= bs@);
    while i < bs.len()
        invariant
            prog_wf(*cx.prog),
            i <= bs@.len(),
            fold_ids(cx.scope(), st_view(seen@, out@), blocks_refs(bs@.subrange(i as int, bs@.len() as int)), cur) == target,
        decreases bs@.len() - i,
    {
        assert(decreases_to!(bs => bs@[i as int]));
        let ghost rest = bs@.subrange(i as int, bs@.len() as int);
        assert(rest[0] == bs@[i as int]);
        assert(rest.drop_first() =~= bs@.subrange(i + 1, bs@.len() as int));
        let ghost s1 = st_view(seen@, out@);
        collect_from_statements(cx, &bs[i], cur, seen, out);
        proof {
            lemma_fold_split(cx.scope(), s1, stmts_refs(bs@[i as int]@), blocks_refs(rest.drop_first()), cur);
        }
        i = i + 1;
    }
    proof {
        assert(bs@.subrange(i as int, bs@.len() as int) =~= Seq::empty());
        lemma_fold_empty(cx.scope(), st_view(seen@, out@), cur);
    }
}

fn mods_collect(cx: &RefCtx, ms: &Vec<RefModifier>, cur: Option<i64>, seen: &mut Vec<i64>, out: &mut Vec<ResolvedSymbol>)
    requires
        prog_wf(*cx.prog),
    ensures
        st_view(final(seen)@, final(out)@) == fold_ids(cx.scope(), st_view(old(seen)@, old(out)@), mods_refs(ms@), cur),
{
    let ghost target = fold_ids(cx.scope(), st_view(seen@, out@), mods_refs(ms@), cur);
    let mut i: usize = 0;
    assert(ms@.subrange(0, ms@.len() as int) =~= ms@);
    while i < ms.len()
        invariant
            prog_wf(*cx.prog),
            i <= ms@.len(),
            fold_ids(cx.scope(), st_view(seen@, out@), mods_refs(ms@.subrange(i as int, ms@.len() as int)), cur) == target,
        decreases ms@.len() - i,
    {
        let ghost rest = ms@.subrange(i as int, ms@.len() as int);
        assert(rest[0] == ms@[i as int]);
        assert(rest.drop_first() =~= ms@.subrange(i + 1, ms@.len() as int));
        let ghost s1 = st_view(seen@, out@);
        let m = &ms[i];
        let ghost args = mod_args_refs(m.arguments);
        opt_ref(cx, m.referenced_declaration, cur, seen, out);
        let ghost s2 = st_view(seen@, out@);
        match &m.arguments {
            Some(a) => exprs_collect(cx, a, cur, seen, out),
            None => {
                proof {
                    lemma_fold_empty(cx.scope(), s2, cur);
                }
            },
        }
        proof {
            lemma_fold_split(cx.scope(), s1, opt_id(m.referenced_declaration), args, cur);
            lemma_fold_split(cx.scope(), s1, opt_id(m.referenced_declaration) + args, mods_refs(rest.drop_first()), cur);
            assert(opt_id(m.referenced_declaration) + args + mods_refs(rest.drop_first()) == mods_refs(rest));
        }
        i = i + 1;
    }
    proof {
        assert(ms@.subrange(i as int, ms@.len() as int) =~= Seq::empty());
        lemma_fold_empty(cx.scope(), st_view(seen@, out@), cur);
    }
}

fn overlaps_exec(off: usize, len: usize, start: usize, rlen: usize) -> (b: bool)
    ensures
        b == overlaps(off, len, start as int, start + rlen),
{
    let before_end = if off < start {
        true
    } else {
        off - start < rlen
    };
    let after_start = if off > start {
        true
    } else {
        len > start - off
    };
    before_end && after_start
}

fn collect_from_contract_node(cx: &RefCtx, m: &RefMember, start: usize, rlen: usize, seen: &mut Vec<i64>, out: &mut Vec<ResolvedSymbol>)
    requires
        prog_wf(*cx.prog),
    ensures
        st_view(final(seen)@, final(out)@) == ref_fold(
            cx.scope(),
            st_view(old(seen)@, old(out)@),
            member_refs(*m, start as int, start + rlen),
        ),
{
    let ghost s0 = st_view(seen@, out@);
    let ghost sc = cx.scope();
    match m {
        RefMember::Function { id, parameters, results, modifiers, body } => match body {
            Some(b) => {
                if overlaps_exec(b.offset, b.length, start, rlen) {
                    let cur = Some(*id);
                    types_collect(cx, parameters, cur, seen, out);
                    types_collect(cx, results, cur, seen, out);
                    proof {
                        lemma_fold_split(sc, s0, types_refs(parameters@), types_refs(results@), cur);
                    }
                    mods_collect(cx, modifiers, cur, seen, out);
                    proof {
                        lemma_fold_split(sc, s0, types_refs(parameters@) + types_refs(results@), mods_refs(modifiers@), cur);
                    }
                    collect_from_statements(cx, &b.statements, cur, seen, out);
                    proof {
                        lemma_fold_split(
                            sc,
                            s0,
                            types_refs(parameters@) + types_refs(results@) + mods_refs(modifiers@),
                            stmts_refs(b.statements@),
                            cur,
                        );
                    }
                } else {
                    assert(ref_fold(sc, s0, Seq::empty()) == s0);
                }
            },
            None => {
                assert(ref_fold(sc, s0, Seq::empty()) == s0);
            },
        },
        RefMember::Modifier { id, parameters, body } => {
            if overlaps_exec(body.offset, body.length, start, rlen) {
                let cur = Some(*id);
                types_collect(cx, parameters, cur, seen, out);
                collect_from_statements(cx, &body.statements, cur, seen, out);
                proof {
                    lemma_fold_split(sc, s0, types_refs(parameters@), stmts_refs(body.statements@), cur);
                }
            } else {
                assert(ref_fold(sc, s0, Seq::empty()) == s0);
            }
        },
        RefMember::Variable { offset, length, declared } => {
            if overlaps_exec(*offset, *length, start, rlen) {
                collect_from_type_name(cx, declared, None, seen, out);
            } else {
                assert(ref_fold(sc, s0, Seq::empty()) == s0);
            }
        },
        RefMember::Other => {
            assert(ref_fold(sc, s0, Seq::empty()) == s0);
        },
    }
}

fn members_collect(cx: &RefCtx, ms: &Vec<RefMember>, start: usize, rlen: usize, seen: &mut Vec<i64>, out: &mut Vec<ResolvedSymbol>)
    requires
        prog_wf(*cx.prog),
    ensures
        st_view(final(seen)@, final(out)@) == ref_fold(
            cx.scope(),
            st_view(old(seen)@, old(out)@),
            members_refs(ms@, start as int, start + rlen),
        ),
{
    let ghost target = ref_fold(cx.scope(), st_view(seen@, out@), members_refs(ms@, start as int, start + rlen));
    let mut i: usize = 0;
    assert(ms@.subrange(0, ms@.len() as int) =~= ms@);
    while i < ms.len()
        invariant
            prog_wf(*cx.prog),
            i <= ms@.len(),
            ref_fold(cx.scope(), st_view(seen@, out@), members_refs(ms@.subrange(i as int, ms@.len() as int), start as int, start + rlen))
                == target,
        decreases ms@.len() - i,
    {
        let ghost rest = ms@.subrange(i as int, ms@.len() as int);
        assert(rest[0] == ms@[i as int]);
        assert(rest.drop_first() =~= ms@.subrange(i + 1, ms@.len() as int));
        let ghost s1 = st_view(seen@, out@);
        collect_from_contract_node(cx, &ms[i], start, rlen, seen, out);
        proof {
            lemma_fold_append(
                cx.scope(),
                s1,
                member_refs(ms@[i as int], start as int, start + rlen),
                members_refs(rest.drop_first(), start as int, start + rlen),
            );
        }
        i = i + 1;
    }
    proof {
        assert(ms@.subrange(i as int, ms@.len() as int) =~= Seq::empty());
    }
}

/// The declarations referenced in the range `[offset, offset + length)`
/// of a unit read for `file` of build `build`: every reference met in
/// the bodies of the functions and modifiers, and the declarations of the
/// state variables, that meet the range, resolved in order, each id once.
pub fn collect_referenced_declarations(
    prog: &RefProgram,
    unit: &RefUnit,
    offset: usize,
    length: usize,
    file: &String,
    build: &String,
) -> (r: Vec<ResolvedSymbol>)
    requires
        prog_wf(*prog),
    ensures
        syms_view(r@) == collected(
            Scope { prog: *prog, decls: unit.decls@, file: file@, build: build@ },
            *unit,
            offset as int,
            length as int,
        ),
{
    let cx = RefCtx { prog, decls: &unit.decls, file, build };
    let mut seen: Vec<i64> = Vec::new();
    let mut out: Vec<ResolvedSymbol> = Vec::new();
    let cs = &unit.contracts;
    let ghost target = ref_fold(cx.scope(), st_view(seen@, out@), contracts_refs(cs@, offset as int, offset + length));
    assert(syms_view(out@) =~= Seq::empty());
    let mut i: usize = 0;
    assert(cs@.subrange(0, cs@.len() as int) =~= cs@);
    while i < cs.len()
        invariant
            prog_wf(*prog),
            cx.prog == prog,
            cx.decls == &unit.decls,
            cx.file == file,
            cx.build == build,
            cs == &unit.contracts,
            i <= cs@.len(),
            ref_fold(cx.scope(), st_view(seen@, out@), contracts_refs(cs@.subrange(i as int, cs@.len() as int), offset as int, offset + length))
                == target,
        decreases cs@.len() - i,
    {
        let ghost rest = cs@.subrange(i as int, cs@.len() as int);
        assert(rest[0] == cs@[i as int]);
        assert(rest.drop_first() =~= cs@.subrange(i + 1, cs@.len() as int));
        let ghost s1 = st_view(seen@, out@);
        members_collect(&cx, &cs[i].members, offset, length, &mut seen, &mut out);
        proof {
            lemma_fold_append(
                cx.scope(),
                s1,
                members_refs(cs@[i as int].members@, offset as int, offset + length),
                contracts_refs(rest.drop_first(), offset as int, offset + length),
            );
        }
        i = i + 1;
    }
    proof {
        assert(cs@.subrange(i as int, cs@.len() as int) =~= Seq::empty());
    }
    out
}

// ---------------------------------------------------------------------
// The closure: every declaration reached from a function.

/// A symbol's place: its file and offset.
pub open spec fn key_of(s: SymV) -> (Seq<char>, usize) {
    (s.1, s.2)
}

/// Whether a node type is that of a contract, interface or library.
pub open spec fn is_contract_type(nt: Seq<char>) -> bool {
    nt == "ContractDefinition"@ || nt == "AbstractContractDefinition"@ || nt == "InterfaceDefinition"@
        || nt == "LibraryDefinition"@
}

/// The first index entry, from position `k` on, declared by an artifact
/// of source `file`.
pub open spec fn entry_for_source(p: RefProgram, file: Seq<char>, k: int) -> Option<int>
    decreases p.entries@.len() - k,
{
    if k < 0 || k >= p.entries@.len() {
        None
    } else if p.artifacts@[p.entries@[k].artifact as int].source@ == file {
        Some(k)
    } else {
        entry_for_source(p, file, k + 1)
    }
}

/// Whether artifact `a` lies in a directory named after the stem of `file`.
pub open spec fn stem_match(p: RefProgram, file: Seq<char>, a: int) -> bool {
    stem_spec(file).len() > 0 && stem_spec(parent_name_spec(p.artifacts@[a].path@)) == stem_spec(file)
}

pub open spec fn stem_artifact_from(p: RefProgram, file: Seq<char>, a: int) -> Option<int>
    decreases p.artifacts@.len() - a,
{
    if a < 0 || a >= p.artifacts@.len() {
        None
    } else if stem_match(p, file, a) {
        Some(a)
    } else {
        stem_artifact_from(p, file, a + 1)
    }
}

/// The artifact read for a source file: that of the first index entry
/// of the file; else the first artifact in a directory named after it.
pub open spec fn artifact_for(p: RefProgram, file: Seq<char>) -> Option<int> {
    match entry_for_source(p, file, 0) {
        Some(k) => Some(p.entries@[k].artifact as int),
        None => stem_artifact_from(p, file, 0),
    }
}

pub open spec fn build_from(p: RefProgram, file: Seq<char>, a: int) -> Option<int>
    decreases p.artifacts@.len() - a,
{
    if a < 0 || a >= p.artifacts@.len() {
        None
    } else if p.artifacts@[a].indexed && p.artifacts@[a].source@ == file {
        Some(a)
    } else {
        build_from(p, file, a + 1)
    }
}

/// The build of a source file: that of the first indexed artifact of
/// the file, or empty.
pub open spec fn build_for(p: RefProgram, file: Seq<char>) -> Seq<char> {
    match build_from(p, file, 0) {
        Some(a) => p.artifacts@[a].build@,
        None => Seq::empty(),
    }
}

/// The first contract from position `i` on spanning exactly the range.
pub open spec fn contract_at(cs: Seq<RefContract>, off: usize, len: usize, i: int) -> Option<int>
    decreases cs.len() - i,
{
    if i < 0 || i >= cs.len() {
        None
    } else if cs[i].offset == off && cs[i].length == len {
        Some(i)
    } else {
        contract_at(cs, off, len, i + 1)
    }
}

/// The symbol of a base contract of build `build`, or the path of the
/// artifact that could not be read to tell its flavour.
pub open spec fn base_sym(p: RefProgram, id: i64, build: Seq<char>) -> Result<Option<SymV>, Seq<char>> {
    match entry_from(p.entries@, build, id, 0) {
        None => Ok(None),
        Some(k) => {
            let e = p.entries@[k];
            let a = e.artifact as int;
            let info = p.artifacts@[a];
            if info.build@ == build {
                match info.load {
                    RefLoad::Unreadable => Err(info.path@),
                    _ => Ok(Some((e.name@, info.source@, e.offset, e.length, refined_type(p, a, id)))),
                }
            } else {
                Ok(None)
            }
        },
    }
}

/// The symbols of the base contracts named, in order.
pub open spec fn base_syms(p: RefProgram, bases: Seq<Option<i64>>, build: Seq<char>) -> Result<Seq<SymV>, Seq<char>>
    decreases bases.len(),
{
    if bases.len() == 0 {
        Ok(Seq::empty())
    } else {
        let head = match bases[0] {
            None => Ok(None),
            Some(id) => base_sym(p, id, build),
        };
        match head {
            Err(e) => Err(e),
            Ok(h) => match base_syms(p, bases.drop_first(), build) {
                Err(e) => Err(e),
                Ok(t) => Ok(
                    match h {
                        Some(x) => seq![x] + t,
                        None => t,
                    },
                ),
            },
        }
    }
}

/// The symbols of `v` whose place is not among `seen`, in order.
pub open spec fn unseen(v: Seq<SymV>, seen: Seq<(Seq<char>, usize)>) -> Seq<SymV>
    decreases v.len(),
{
    if v.len() == 0 {
        Seq::empty()
    } else {
        let rest = unseen(v.drop_first(), seen);
        if seen.contains(key_of(v[0])) {
            rest
        } else {
            seq![v[0]] + rest
        }
    }
}

/// The state of the closure: the places met, the symbols still to visit
/// (the last is visited next) and the symbols visited, in order.
pub struct RState {
    pub seen: Seq<(Seq<char>, usize)>,
    pub queue: Seq<SymV>,
    pub resolved: Seq<SymV>,
}

/// Where the closure stands.
pub enum Run {
    Going(RState),
    Done(Seq<SymV>),
    /// An artifact could not be read: its path.
    Failed(Seq<char>),
}

/// One visit: take the last symbol to visit; unless its place was met,
/// record it and queue what it refers to (the references in its range for
/// a member, its base contracts for a contract) that were not met.
pub open spec fn rr_step(p: RefProgram, st: RState) -> Run {
    if st.queue.len() == 0 {
        Run::Done(st.resolved)
    } else {
        let sym = st.queue.last();
        let q = st.queue.drop_last();
        if st.seen.contains(key_of(sym)) {
            Run::Going(RState { seen: st.seen, queue: q, resolved: st.resolved })
        } else {
            let seen2 = st.seen.push(key_of(sym));
            let res2 = st.resolved.push(sym);
            match artifact_for(p, sym.1) {
                None => Run::Going(RState { seen: seen2, queue: q, resolved: res2 }),
                Some(a) => match p.artifacts@[a].load {
                    RefLoad::Unreadable => Run::Failed(p.artifacts@[a].path@),
                    RefLoad::NoAst => Run::Going(RState { seen: seen2, queue: q, resolved: res2 }),
                    RefLoad::Unit(u) => {
                        let build = build_for(p, sym.1);
                        if !is_contract_type(sym.4) {
                            let refs = collected(
                                Scope { prog: p, decls: u.decls@, file: sym.1, build },
                                u,
                                sym.2 as int,
                                sym.3 as int,
                            );
                            Run::Going(RState { seen: seen2, queue: q + unseen(refs, seen2), resolved: res2 })
                        } else {
                            match contract_at(u.contracts@, sym.2, sym.3, 0) {
                                None => Run::Going(RState { seen: seen2, queue: q, resolved: res2 }),
                                Some(c) => match base_syms(p, u.contracts@[c].bases@, build) {
                                    Err(e) => Run::Failed(e),
                                    Ok(v) => Run::Going(RState { seen: seen2, queue: q + unseen(v, seen2), resolved: res2 }),
                                },
                            }
                        }
                    },
                },
            }
        }
    }
}

/// The closure after `n` visits.
pub open spec fn run(p: RefProgram, r: Run, n: nat) -> Run
    decreases n,
{
    if n == 0 {
        r
    } else {
        match r {
            Run::Going(st) => run(p, rr_step(p, st), (n - 1) as nat),
            _ => r,
        }
    }
}

/// The closure before any visit: only the root to visit.
pub open spec fn start(root: SymV) -> Run {
    Run::Going(RState { seen: Seq::empty(), queue: seq![root], resolved: Seq::empty() })
}

pub proof fn lemma_run_next(p: RefProgram, r: Run, n: nat, st: RState)
    requires
        run(p, r, n) == Run::Going(st),
    ensures
        run(p, r, n + 1) == rr_step(p, st),
    decreases n,
{
    if n == 0 {
        assert(r == Run::Going(st));
        assert(run(p, rr_step(p, st), 0) == rr_step(p, st));
        assert(run(p, r, 1) == run(p, rr_step(p, st), 0));
    } else {
        match r {
            Run::Going(s0) => {
                lemma_run_next(p, rr_step(p, s0), (n - 1) as nat, st);
                assert(run(p, r, n + 1) == run(p, rr_step(p, s0), n));
            },
            _ => {},
        }
    }
}

/// Once the closure is done or has failed, further visits change nothing:
/// the outcome a run reaches is the only one it can reach.
pub proof fn lemma_run_settles(p: RefProgram, r: Run, n: nat, m: nat)
    requires
        !(run(p, r, n) is Going),
    ensures
        run(p, r, n + m) == run(p, r, n),
    decreases n,
{
    if n == 0 {
        assert(!(r is Going));
        if m > 0 {
            assert(run(p, r, m) == r);
        }
    } else {
        match r {
            Run::Going(s0) => {
                lemma_run_settles(p, rr_step(p, s0), (n - 1) as nat, m);
                assert((n + m - 1) as nat == (n - 1) as nat + m);
            },
            _ => {
                assert(run(p, r, n + m) == r);
            },
        }
    }
}

/// Places as values.
pub open spec fn keys_view(v: Seq<(String, usize)>) -> Seq<(Seq<char>, usize)> {
    v.map_values(|k: (String, usize)| (k.0@, k.1))
}

fn find_artifact_for_source(p: &RefProgram, file: &String) -> (r: Option<usize>)
    requires
        prog_wf(*p),
    ensures
        match r {
            Some(a) => artifact_for(*p, file@) == Some(a as int) && a < p.artifacts@.len(),
            None => artifact_for(*p, file@) is None,
        },
{
    let mut k: usize = 0;
    while k < p.entries.len()
        invariant
            prog_wf(*p),
            k <= p.entries@.len(),
            entry_for_source(*p, file@, 0) == entry_for_source(*p, file@, k as int),
        decreases p.entries@.len() - k,
    {
        let a = p.entries[k].artifact;
        assert(p.entries@[k as int].artifact < p.artifacts@.len());
        if same_text(p.artifacts[a].source.as_str(), file.as_str()) {
            return Some(a);
        }
        k = k + 1;
    }
    let stem = file_stem(file.as_str());
    let stem_chars = chars_of(stem.as_str());
    let mut a: usize = 0;
    while a < p.artifacts.len()
        invariant
            a <= p.artifacts@.len(),
            stem@ == stem_spec(file@),
            stem_chars@ == stem@,
            entry_for_source(*p, file@, 0) is None,
            stem_artifact_from(*p, file@, 0) == stem_artifact_from(*p, file@, a as int),
        decreases p.artifacts@.len() - a,
    {
        if stem_chars.len() > 0 {
            let dir = parent_name(p.artifacts[a].path.as_str());
            let dir_stem = file_stem(dir.as_str());
            if same_text(dir_stem.as_str(), stem.as_str()) {
                return Some(a);
            }
        }
        a = a + 1;
    }
    None
}

fn build_for_exec(p: &RefProgram, file: &String) -> (r: String)
    ensures
        r@ == build_for(*p, file@),
{
    let mut a: usize = 0;
    while a < p.artifacts.len()
        invariant
            a <= p.artifacts@.len(),
            build_from(*p, file@, 0) == build_from(*p, file@, a as int),
        decreases p.artifacts@.len() - a,
    {
        if p.artifacts[a].indexed && same_text(p.artifacts[a].source.as_str(), file.as_str()) {
            return p.artifacts[a].build.clone();
        }
        a = a + 1;
    }
    String::new()
}

fn contract_at_exec(cs: &Vec<RefContract>, off: usize, len: usize) -> (r: Option<usize>)
    ensures
        match r {
            Some(c) => contract_at(cs@, off, len, 0) == Some(c as int) && c < cs@.len(),
            None => contract_at(cs@, off, len, 0) is None,
        },
{
    let mut i: usize = 0;
    while i < cs.len()
        invariant
            i <= cs@.len(),
            contract_at(cs@, off, len, 0) == contract_at(cs@, off, len, i as int),
        decreases cs@.len() - i,
    {
        if cs[i].offset == off && cs[i].length == len {
            return Some(i);
        }
        i = i + 1;
    }
    None
}

/// `acc` followed by what a run of base symbols gave.
pub open spec fn after(acc: Seq<SymV>, r: Result<Seq<SymV>, Seq<char>>) -> Result<Seq<SymV>, Seq<char>> {
    match r {
        Err(e) => Err(e),
        Ok(t) => Ok(acc + t),
    }
}

fn base_syms_exec(p: &RefProgram, bases: &Vec<Option<i64>>, build: &String) -> (r: Result<Vec<ResolvedSymbol>, String>)
    requires
        prog_wf(*p),
    ensures
        match r {
            Ok(v) => base_syms(*p, bases@, build@) == Ok::<Seq<SymV>, Seq<char>>(syms_view(v@)),
            Err(e) => base_syms(*p, bases@, build@) == Err::<Seq<SymV>, Seq<char>>(e@),
        },
{
    let mut acc: Vec<ResolvedSymbol> = Vec::new();
    let mut i: usize = 0;
    assert(bases@.subrange(0, bases@.len() as int) =~= bases@);
    assert(syms_view(acc@) + Seq::<SymV>::empty() =~= Seq::<SymV>::empty());
    while i < bases.len()
        invariant
            prog_wf(*p),
            i <= bases@.len(),
            base_syms(*p, bases@, build@) == after(syms_view(acc@), base_syms(*p, bases@.subrange(i as int, bases@.len() as int), build@)),
        decreases bases@.len() - i,
    {
        let ghost rest = bases@.subrange(i as int, bases@.len() as int);
        assert(rest[0] == bases@[i as int]);
        assert(rest.drop_first() =~= bases@.subrange(i + 1, bases@.len() as int));
        match bases[i] {
            None => {
                proof {
                    let t = base_syms(*p, rest.drop_first(), build@);
                    if t is Ok {
                        assert(syms_view(acc@) + t->Ok_0 =~= syms_view(acc@) + t->Ok_0);
                    }
                }
            },
            Some(id) => {
                match entry_pos(&p.entries, build, id) {
                    None => {},
                    Some(k) => {
                        let e = &p.entries[k];
                        assert(p.entries@[k as int].artifact < p.artifacts@.len());
                        let info = &p.artifacts[e.artifact];
                        if same_text(info.build.as_str(), build.as_str()) {
                            match &info.load {
                                RefLoad::Unreadable => {
                                    return Err(info.path.clone());
                                },
                                _ => {
                                    let node_type = contract_node_type_for_id(p, e.artifact, id);
                                    let sym = ResolvedSymbol {
                                        symbol: e.name.clone(),
                                        file: info.source.clone(),
                                        offset: e.offset,
                                        length: e.length,
                                        node_type,
                                    };
                                    let ghost before = syms_view(acc@);
                                    acc.push(sym);
                                    proof {
                                        assert(syms_view(acc@) =~= before.push(sym_view(sym)));
                                        let t = base_syms(*p, rest.drop_first(), build@);
                                        if t is Ok {
                                            assert(before + (seq![sym_view(sym)] + t->Ok_0) =~= syms_view(acc@) + t->Ok_0);
                                        }
                                    }
                                },
                            }
                        }
                    },
                }
            },
        }
        i = i + 1;
    }
    proof {
        assert(bases@.subrange(i as int, bases@.len() as int) =~= Seq::<Option<i64>>::empty());
        assert(syms_view(acc@) + Seq::<SymV>::empty() =~= syms_view(acc@));
    }
    Ok(acc)
}

fn key_in(seen: &Vec<(String, usize)>, file: &String, off: usize) -> (r: bool)
    ensures
        r == keys_view(seen@).contains((file@, off)),
{
    let mut i: usize = 0;
    while i < seen.len()
        invariant
            i <= seen@.len(),
            forall|j: int| 0 <= j < i ==> keys_view(seen@)[j] != (file@, off),
        decreases seen@.len() - i,
    {
        if seen[i].1 == off && same_text(seen[i].0.as_str(), file.as_str()) {
            assert(keys_view(seen@)[i as int] == (file@, off));
            return true;
        }
        i = i + 1;
    }
    false
}

fn push_unseen(queue: &mut Vec<ResolvedSymbol>, v: Vec<ResolvedSymbol>, seen: &Vec<(String, usize)>)
    ensures
        syms_view(final(queue)@) == syms_view(old(queue)@) + unseen(syms_view(v@), keys_view(seen@)),
{
    let ghost target = syms_view(queue@) + unseen(syms_view(v@), keys_view(seen@));
    let mut i: usize = 0;
    assert(syms_view(v@).subrange(0, v@.len() as int) =~= syms_view(v@));
    while i < v.len()
        invariant
            i <= v@.len(),
            syms_view(queue@) + unseen(syms_view(v@).subrange(i as int, v@.len() as int), keys_view(seen@)) == target,
        decreases v@.len() - i,
    {
        let ghost rest = syms_view(v@).subrange(i as int, v@.len() as int);
        assert(rest[0] == sym_view(v@[i as int]));
        assert(rest.drop_first() =~= syms_view(v@).subrange(i + 1, v@.len() as int));
        let ghost tail = unseen(rest.drop_first(), keys_view(seen@));
        let ghost q0 = syms_view(queue@);
        if !key_in(seen, &v[i].file, v[i].offset) {
            let sym = copy_symbol(&v[i]);
            queue.push(sym);
            proof {
                assert(syms_view(queue@) =~= q0.push(sym_view(sym)));
                assert(q0 + (seq![rest[0]] + tail) =~= syms_view(queue@) + tail);
            }
        }
        i = i + 1;
    }
    proof {
        assert(syms_view(v@).subrange(i as int, v@.len() as int) =~= Seq::<SymV>::empty());
        assert(syms_view(queue@) + Seq::<SymV>::empty() =~= syms_view(queue@));
    }
}

// ---------------------------------------------------------------------
// Why the closure ends: every place it meets is a file of the program
// paired with an offset of the program.

pub open spec fn unit_offsets(arts: Seq<RefArtifact>) -> Seq<usize>
    decreases arts.len(),
{
    if arts.len() == 0 {
        Seq::empty()
    } else {
        let head = match arts[0].load {
            RefLoad::Unit(u) => u.decls@.map_values(|d: UnitDecl| d.offset),
            _ => Seq::empty(),
        };
        head + unit_offsets(arts.drop_first())
    }
}

pub open spec fn files_of(p: RefProgram, root: SymV) -> Seq<Seq<char>> {
    seq![root.1] + p.artifacts@.map_values(|a: RefArtifact| a.source@)
}

pub open spec fn offsets_of(p: RefProgram, root: SymV) -> Seq<usize> {
    seq![root.2] + p.entries@.map_values(|e: IndexEntry| e.offset) + unit_offsets(p.artifacts@)
}

pub open spec fn product(fs: Seq<Seq<char>>, os: Seq<usize>) -> Seq<(Seq<char>, usize)>
    decreases fs.len(),
{
    if fs.len() == 0 {
        Seq::empty()
    } else {
        os.map_values(|o: usize| (fs[0], o)) + product(fs.drop_first(), os)
    }
}

/// Every place the closure from `root` can meet.
pub open spec fn places(p: RefProgram, root: SymV) -> Set<(Seq<char>, usize)> {
    product(files_of(p, root), offsets_of(p, root)).to_set()
}

pub open spec fn good(p: RefProgram, root: SymV, x: SymV) -> bool {
    files_of(p, root).contains(x.1) && offsets_of(p, root).contains(x.2)
}

pub open spec fn all_good(p: RefProgram, root: SymV, v: Seq<SymV>) -> bool {
    forall|i: int| 0 <= i < v.len() ==> good(p, root, #[trigger] v[i])
}

proof fn lemma_product(fs: Seq<Seq<char>>, os: Seq<usize>, f: Seq<char>, o: usize)
    requires
        fs.contains(f),
        os.contains(o),
    ensures
        product(fs, os).contains((f, o)),
    decreases fs.len(),
{
    let j = choose|j: int| 0 <= j < os.len() && os[j] == o;
    let head = os.map_values(|x: usize| (fs[0], x));
    if fs[0] == f {
        assert((head + product(fs.drop_first(), os))[j] == (f, o));
    } else {
        let i = choose|i: int| 0 <= i < fs.len() && fs[i] == f;
        assert(fs.drop_first()[i - 1] == f);
        lemma_product(fs.drop_first(), os, f, o);
        let t = product(fs.drop_first(), os);
        let k = choose|k: int| 0 <= k < t.len() && t[k] == (f, o);
        assert((head + t)[head.len() + k] == (f, o));
    }
}

proof fn lemma_unit_offsets(arts: Seq<RefArtifact>, a: int, u: RefUnit, k: int)
    requires
        0 <= a < arts.len(),
        arts[a].load == RefLoad::Unit(u),
        0 <= k < u.decls@.len(),
    ensures
        unit_offsets(arts).contains(u.decls@[k].offset),
    decreases a,
{
    let head = match arts[0].load {
        RefLoad::Unit(u0) => u0.decls@.map_values(|d: UnitDecl| d.offset),
        _ => Seq::empty(),
    };
    if a == 0 {
        assert(head[k] == u.decls@[k].offset);
        assert((head + unit_offsets(arts.drop_first()))[k] == u.decls@[k].offset);
    } else {
        assert(arts.drop_first()[a - 1] == arts[a]);
        lemma_unit_offsets(arts.drop_first(), a - 1, u, k);
        let t = unit_offsets(arts.drop_first());
        let j = choose|j: int| 0 <= j < t.len() && t[j] == u.decls@[k].offset;
        assert((head + t)[head.len() + j] == u.decls@[k].offset);
    }
}

proof fn lemma_source_file(p: RefProgram, root: SymV, a: int)
    requires
        0 <= a < p.artifacts@.len(),
    ensures
        files_of(p, root).contains(p.artifacts@[a].source@),
{
    assert(files_of(p, root)[a + 1] == p.artifacts@[a].source@);
}

proof fn lemma_entry_offset(p: RefProgram, root: SymV, k: int)
    requires
        0 <= k < p.entries@.len(),
    ensures
        offsets_of(p, root).contains(p.entries@[k].offset),
{
    let m = p.entries@.map_values(|e: IndexEntry| e.offset);
    assert((seq![root.2] + m)[k + 1] == p.entries@[k].offset);
    assert(offsets_of(p, root)[k + 1] == p.entries@[k].offset);
}

proof fn lemma_unit_offset(p: RefProgram, root: SymV, a: int, u: RefUnit, k: int)
    requires
        0 <= a < p.artifacts@.len(),
        p.artifacts@[a].load == RefLoad::Unit(u),
        0 <= k < u.decls@.len(),
    ensures
        offsets_of(p, root).contains(u.decls@[k].offset),
{
    lemma_unit_offsets(p.artifacts@, a, u, k);
    let t = unit_offsets(p.artifacts@);
    let j = choose|j: int| 0 <= j < t.len() && t[j] == u.decls@[k].offset;
    let h = seq![root.2] + p.entries@.map_values(|e: IndexEntry| e.offset);
    assert((h + t)[h.len() + j] == u.decls@[k].offset);
}

proof fn lemma_resolve_good(p: RefProgram, root: SymV, a: int, u: RefUnit, file: Seq<char>, build: Seq<char>, id: i64)
    requires
        prog_wf(p),
        0 <= a < p.artifacts@.len(),
        p.artifacts@[a].load == RefLoad::Unit(u),
        files_of(p, root).contains(file),
        resolve_ref(Scope { prog: p, decls: u.decls@, file, build }, id) is Some,
    ensures
        good(p, root, resolve_ref(Scope { prog: p, decls: u.decls@, file, build }, id)->0),
{
    let sc = Scope { prog: p, decls: u.decls@, file, build };
    match decl_from(u.decls@, id, 0) {
        Some(k) => {
            lemma_decl_from_range(u.decls@, id, 0);
            lemma_unit_offset(p, root, a, u, k);
        },
        None => {
            let k = entry_from(p.entries@, build, id, 0)->0;
            lemma_entry_from_range(p.entries@, build, id, 0);
            let e = p.entries@[k];
            assert(e.artifact < p.artifacts@.len());
            lemma_source_file(p, root, e.artifact as int);
            lemma_entry_offset(p, root, k);
        },
    }
}

proof fn lemma_decl_from_range(ds: Seq<UnitDecl>, id: i64, i: int)
    ensures
        decl_from(ds, id, i) matches Some(k) ==> 0 <= k < ds.len() && ds[k].id == id,
    decreases ds.len() - i,
{
    if 0 <= i < ds.len() && ds[i].id != id {
        lemma_decl_from_range(ds, id, i + 1);
    }
}

proof fn lemma_entry_from_range(es: Seq<IndexEntry>, build: Seq<char>, id: i64, i: int)
    ensures
        entry_from(es, build, id, i) matches Some(k) ==> 0 <= k < es.len(),
    decreases es.len() - i,
{
    if 0 <= i < es.len() && !(es[i].build@ == build && es[i].id == id) {
        lemma_entry_from_range(es, build, id, i + 1);
    }
}

proof fn lemma_fold_good(p: RefProgram, root: SymV, a: int, u: RefUnit, file: Seq<char>, build: Seq<char>, st: (Seq<i64>, Seq<SymV>), occ: Seq<(i64, Option<i64>)>)
    requires
        prog_wf(p),
        0 <= a < p.artifacts@.len(),
        p.artifacts@[a].load == RefLoad::Unit(u),
        files_of(p, root).contains(file),
        all_good(p, root, st.1),
    ensures
        all_good(p, root, ref_fold(Scope { prog: p, decls: u.decls@, file, build }, st, occ).1),
    decreases occ.len(),
{
    let sc = Scope { prog: p, decls: u.decls@, file, build };
    if occ.len() > 0 {
        let st1 = ref_step(sc, st, occ[0]);
        if !(occ[0].1 == Some(occ[0].0) || st.0.contains(occ[0].0)) {
            match resolve_ref(sc, occ[0].0) {
                Some(x) => {
                    lemma_resolve_good(p, root, a, u, file, build, occ[0].0);
                    assert forall|i: int| 0 <= i < st1.1.len() implies good(p, root, #[trigger] st1.1[i]) by {
                        if i < st.1.len() {
                            assert(st1.1[i] == st.1[i]);
                        }
                    }
                },
                None => {},
            }
        }
        lemma_fold_good(p, root, a, u, file, build, st1, occ.drop_first());
    }
}

proof fn lemma_base_good(p: RefProgram, root: SymV, bases: Seq<Option<i64>>, build: Seq<char>)
    requires
        prog_wf(p),
        base_syms(p, bases, build) is Ok,
    ensures
        all_good(p, root, base_syms(p, bases, build)->Ok_0),
    decreases bases.len(),
{
    if bases.len() > 0 {
        lemma_base_good(p, root, bases.drop_first(), build);
        let t = base_syms(p, bases.drop_first(), build)->Ok_0;
        match bases[0] {
            None => {},
            Some(id) => {
                match base_sym(p, id, build) {
                    Ok(Some(x)) => {
                        let k = entry_from(p.entries@, build, id, 0)->0;
                        lemma_entry_from_range(p.entries@, build, id, 0);
                        assert(p.entries@[k].artifact < p.artifacts@.len());
                        lemma_source_file(p, root, p.entries@[k].artifact as int);
                        lemma_entry_offset(p, root, k);
                        let v = seq![x] + t;
                        assert forall|i: int| 0 <= i < v.len() implies good(p, root, #[trigger] v[i]) by {
                            if i > 0 {
                                assert(v[i] == t[i - 1]);
                            }
                        }
                    },
                    _ => {},
                }
            },
        }
    }
}

proof fn lemma_unseen_good(p: RefProgram, root: SymV, v: Seq<SymV>, seen: Seq<(Seq<char>, usize)>)
    requires
        all_good(p, root, v),
    ensures
        all_good(p, root, unseen(v, seen)),
    decreases v.len(),
{
    if v.len() > 0 {
        assert forall|i: int| 0 <= i < v.drop_first().len() implies good(p, root, #[trigger] v.drop_first()[i]) by {
            assert(v.drop_first()[i] == v[i + 1]);
        }
        lemma_unseen_good(p, root, v.drop_first(), seen);
        let rest = unseen(v.drop_first(), seen);
        if !seen.contains(key_of(v[0])) {
            let w = seq![v[0]] + rest;
            assert forall|i: int| 0 <= i < w.len() implies good(p, root, #[trigger] w[i]) by {
                if i > 0 {
                    assert(w[i] == rest[i - 1]);
                } else {
                    assert(w[0] == v[0]);
                }
            }
        }
    }
}

proof fn lemma_good_place(p: RefProgram, root: SymV, x: SymV)
    requires
        good(p, root, x),
    ensures
        places(p, root).contains(key_of(x)),
{
    lemma_product(files_of(p, root), offsets_of(p, root), x.1, x.2);
}

fn is_contract_type_exec(nt: &String) -> (b: bool)
    ensures
        b == is_contract_type(nt@),
{
    same_text(nt.as_str(), "ContractDefinition") || same_text(nt.as_str(), "AbstractContractDefinition")
        || same_text(nt.as_str(), "InterfaceDefinition") || same_text(nt.as_str(), "LibraryDefinition")
}

/// Every declaration reached from `root`, in the order visited (the root
/// first): each visited symbol queues the declarations referenced in its
/// range (for a contract: its base contracts) not yet met, and the most
/// recently queued is visited next; a place (file and offset) is visited
/// once. Fails with the path of an artifact that cannot be read.
pub fn resolve_recursive(p: &RefProgram, root: &ResolvedSymbol) -> (r: Result<Vec<ResolvedSymbol>, String>)
    requires
        prog_wf(*p),
    ensures
        match r {
            Ok(v) => exists|n: nat| run(*p, start(sym_view(*root)), n) == Run::Done(syms_view(v@)),
            Err(e) => exists|n: nat| run(*p, start(sym_view(*root)), n) == Run::Failed(e@),
        },
{
    let ghost rv = sym_view(*root);
    let ghost universe = places(*p, rv);
    let mut seen: Vec<(String, usize)> = Vec::new();
    let mut queue: Vec<ResolvedSymbol> = Vec::new();
    let mut resolved: Vec<ResolvedSymbol> = Vec::new();
    queue.push(copy_symbol(root));
    let ghost mut n: nat = 0;
    proof {
        assert(keys_view(seen@) =~= Seq::empty());
        assert(syms_view(queue@) =~= seq![rv]);
        assert(syms_view(resolved@) =~= Seq::empty());
        assert(files_of(*p, rv)[0] == rv.1);
        assert(offsets_of(*p, rv)[0] == rv.2);
        assert(keys_view(seen@).to_set() =~= Set::empty());
        seq_to_set_is_finite(product(files_of(*p, rv), offsets_of(*p, rv)));
    }
    while queue.len() > 0
        invariant
            prog_wf(*p),
            rv == sym_view(*root),
            universe == places(*p, rv),
            universe.finite(),
            run(*p, start(rv), n) == Run::Going(
                RState { seen: keys_view(seen@), queue: syms_view(queue@), resolved: syms_view(resolved@) },
            ),
            all_good(*p, rv, syms_view(queue@)),
            keys_view(seen@).to_set().subset_of(universe),
            keys_view(seen@).to_set().len() <= universe.len(),
        decreases universe.len() - keys_view(seen@).to_set().len(), queue@.len(),
    {
        let ghost st = RState { seen: keys_view(seen@), queue: syms_view(queue@), resolved: syms_view(resolved@) };
        proof {
            lemma_run_next(*p, start(rv), n, st);
            assert(good(*p, rv, syms_view(queue@)[queue@.len() - 1]));
        }
        let sym = queue.pop().unwrap();
        proof {
            assert(syms_view(queue@) =~= st.queue.drop_last());
            assert(sym_view(sym) == st.queue.last());
            assert forall|i: int| 0 <= i < syms_view(queue@).len() implies good(*p, rv, #[trigger] syms_view(queue@)[i]) by {
                assert(syms_view(queue@)[i] == st.queue[i]);
            }
        }
        if key_in(&seen, &sym.file, sym.offset) {
            proof {
                n = n + 1;
            }
        } else {
            let ghost old_set = keys_view(seen@).to_set();
            seen.push((sym.file.clone(), sym.offset));
            proof {
                assert(keys_view(seen@) =~= st.seen.push(key_of(sym_view(sym))));
                st.seen.lemma_push_to_set_commute(key_of(sym_view(sym)));
                assert(keys_view(seen@).to_set() =~= old_set.insert(key_of(sym_view(sym))));
                lemma_good_place(*p, rv, sym_view(sym));
                vstd::set_lib::lemma_len_subset(keys_view(seen@).to_set(), universe);
            }
            let ghost seen2 = keys_view(seen@);
            let ghost q = syms_view(queue@);
            match find_artifact_for_source(p, &sym.file) {
                None => {},
                Some(a) => match &p.artifacts[a].load {
                    RefLoad::Unreadable => {
                        let path = p.artifacts[a].path.clone();
                        proof {
                            assert(rr_step(*p, st) == Run::Failed(path@));
                            n = n + 1;
                        }
                        return Err(path);
                    },
                    RefLoad::NoAst => {},
                    RefLoad::Unit(u) => {
                        let build = build_for_exec(p, &sym.file);
                        if !is_contract_type_exec(&sym.node_type) {
                            let refs = collect_referenced_declarations(p, u, sym.offset, sym.length, &sym.file, &build);
                            proof {
                                let sc = Scope { prog: *p, decls: u.decls@, file: sym.file@, build: build@ };
                                lemma_fold_good(
                                    *p,
                                    rv,
                                    a as int,
                                    *u,
                                    sym.file@,
                                    build@,
                                    (Seq::empty(), Seq::empty()),
                                    contracts_refs(u.contracts@, sym.offset as int, sym.offset + sym.length),
                                );
                                lemma_unseen_good(*p, rv, syms_view(refs@), seen2);
                            }
                            push_unseen(&mut queue, refs, &seen);
                        } else {
                            match contract_at_exec(&u.contracts, sym.offset, sym.length) {
                                None => {},
                                Some(c) => match base_syms_exec(p, &u.contracts[c].bases, &build) {
                                    Err(e) => {
                                        proof {
                                            assert(rr_step(*p, st) == Run::Failed(e@));
                                            n = n + 1;
                                            assert(run(*p, start(sym_view(*root)), n) == Run::Failed(e@));
                                        }
                                        return Err(e);
                                    },
                                    Ok(v) => {
                                        proof {
                                            lemma_base_good(*p, rv, u.contracts@[c as int].bases@, build@);
                                            lemma_unseen_good(*p, rv, syms_view(v@), seen2);
                                        }
                                        push_unseen(&mut queue, v, &seen);
                                    },
                                },
                            }
                        }
                    },
                },
            }
            let ghost before = syms_view(resolved@);
            resolved.push(sym);
            proof {
                assert(syms_view(resolved@) =~= before.push(sym_view(sym)));
                n = n + 1;
                assert forall|i: int| 0 <= i < syms_view(queue@).len() implies good(*p, rv, #[trigger] syms_view(queue@)[i]) by {
                    if i < q.len() {
                        assert(syms_view(queue@)[i] == q[i]);
                    }
                }
            }
        }
    }
    proof {
        let st = RState { seen: keys_view(seen@), queue: syms_view(queue@), resolved: syms_view(resolved@) };
        lemma_run_next(*p, start(rv), n, st);
        assert(run(*p, start(rv), n + 1) == Run::Done(syms_view(resolved@)));
    }
    Ok(resolved)
}

// ---------------------------------------------------------------------
// What every run keeps.

pub open spec fn rinv(root: SymV, st: RState) -> bool {
    &&& st.resolved.map_values(|s: SymV| key_of(s)) == st.seen
    &&& st.seen.no_duplicates()
    &&& (st.resolved.len() > 0 ==> st.resolved[0] == root)
    &&& (st.resolved.len() == 0 ==> st.queue == seq![root])
}

proof fn lemma_step_inv(p: RefProgram, root: SymV, st: RState)
    requires
        rinv(root, st),
    ensures
        rr_step(p, st) matches Run::Going(st2) ==> rinv(root, st2),
        rr_step(p, st) matches Run::Done(v) ==> v == st.resolved && v.len() > 0,
{
    if st.queue.len() > 0 {
        let sym = st.queue.last();
        if !st.seen.contains(key_of(sym)) {
            let seen2 = st.seen.push(key_of(sym));
            let res2 = st.resolved.push(sym);
            assert(res2.map_values(|s: SymV| key_of(s)) =~= st.resolved.map_values(|s: SymV| key_of(s)).push(key_of(sym)));
            assert forall|i: int, j: int| 0 <= i < seen2.len() && 0 <= j < seen2.len() && i != j implies seen2[i] != seen2[j] by {
                if i < st.seen.len() && j < st.seen.len() {
                } else if i == st.seen.len() {
                    assert(st.seen[j] == seen2[j]);
                } else {
                    assert(st.seen[i] == seen2[i]);
                }
            }
            if st.resolved.len() == 0 {
                assert(sym == root);
            }
            assert(res2[0] == (if st.resolved.len() > 0 { st.resolved[0] } else { sym }));
        }
    }
}

proof fn lemma_run_inv(p: RefProgram, root: SymV, r: Run, n: nat)
    requires
        r matches Run::Going(st) && rinv(root, st),
    ensures
        run(p, r, n) matches Run::Going(st2) ==> rinv(root, st2),
        run(p, r, n) matches Run::Done(v) ==> v.len() > 0 && v[0] == root && v.map_values(|s: SymV| key_of(s)).no_duplicates(),
    decreases n,
{
    if n > 0 {
        let st = r->Going_0;
        lemma_step_inv(p, root, st);
        match rr_step(p, st) {
            Run::Going(st2) => lemma_run_inv(p, root, rr_step(p, st), (n - 1) as nat),
            Run::Done(v) => {
                assert(run(p, rr_step(p, st), (n - 1) as nat) == rr_step(p, st));
            },
            Run::Failed(_) => {
                assert(run(p, rr_step(p, st), (n - 1) as nat) == rr_step(p, st));
            },
        }
    }
}

/// The declarations the closure reaches are listed once each (no two at
/// the same place), the function itself first.
pub proof fn lemma_closure_lists_once(p: RefProgram, root: SymV, n: nat, v: Seq<SymV>)
    requires
        run(p, start(root), n) == Run::Done(v),
    ensures
        v.len() > 0,
        v[0] == root,
        forall|i: int, j: int| 0 <= i < j < v.len() ==> key_of(v[i]) != key_of(v[j]),
{
    let st0 = RState { seen: Seq::empty(), queue: seq![root], resolved: Seq::empty() };
    assert(rinv(root, st0)) by {
        assert(st0.resolved.map_values(|s: SymV| key_of(s)) =~= st0.seen);
    }
    lemma_run_inv(p, root, start(root), n);
    let ks = v.map_values(|s: SymV| key_of(s));
    assert forall|i: int, j: int| 0 <= i < j < v.len() implies key_of(v[i]) != key_of(v[j]) by {
        assert(ks[i] == key_of(v[i]));
        assert(ks[j] == key_of(v[j]));
    }
}

} // verus!
