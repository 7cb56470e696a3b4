//! The call-graph engine: from a function declaration, follow every call its
//! body (and, in the full dialect, its modifiers) makes, loading the
//! declarations of other artifacts on demand, and build the tree of calls.
//! A function already expanded once appears again as a leaf.
use vstd::prelude::*;
use crate::ast::{
    display_name_spec, format_params, function_name_for_display, is_low_level_call,
    is_low_level_spec, params_text, visibility_spec, visibility_str, Expr, FunctionKind, Stmt,
    TypeName, TypeStyle, Visibility,
};
use crate::call_tree::CallGraphNode;
use crate::strings::{chars_eq, chars_of, decimal, decimal_exec, push_str};

verus! {

/// How a modifier invocation is used.
#[derive(Debug, Clone, Copy, PartialEq, Eq, Structural)]
pub enum ModifierInvocationKind {
    ModifierInvocation,
    BaseConstructorSpecifier,
}

/// A modifier (or base constructor) invocation in a function header.
#[derive(Debug)]
pub struct ModifierInvocation {
    /// The invoked name.
    pub name: String,
    /// The declaration the name refers to.
    pub referenced_declaration: Option<i64>,
    /// The invocation kind (set by solc >= 0.8).
    pub kind: Option<ModifierInvocationKind>,
}

/// A function (or public state variable) declaration.
#[derive(Debug)]
pub struct FunctionInfo {
    pub id: i64,
    pub name: String,
    pub contract_name: String,
    pub file: String,
    /// Whether the declaring contract is an interface.
    pub is_interface: bool,
    pub parameters: Vec<TypeName>,
    pub visibility: Visibility,
    pub kind: FunctionKind,
    pub src_offset: usize,
    pub src_length: usize,
    /// The statements of the body, if the function has one.
    pub body: Option<Vec<Stmt>>,
    pub modifiers: Vec<ModifierInvocation>,
    /// Whether the declaration is implemented (has a body or is a getter).
    pub implemented: bool,
    /// Whether the declaration is a public state variable's getter.
    pub is_state_variable: bool,
}

/// A modifier definition: its id and body.
#[derive(Debug)]
pub struct ModifierDefinition {
    pub id: i64,
    pub body: Vec<Stmt>,
}

/// A contract an artifact defines: its name, whether it is a plain
/// (possibly abstract) contract rather than an interface or library, the
/// declarations its base contracts refer to, in order, and the names they
/// are written with.
#[derive(Debug)]
pub struct ContractBases {
    pub name: String,
    pub is_plain_contract: bool,
    pub bases: Vec<Option<i64>>,
    pub base_names: Vec<String>,
}

/// What one artifact declares: its functions, its modifiers and its
/// contracts, and the build its source was compiled in.
#[derive(Debug)]
pub struct ArtifactFunctions {
    pub functions: Vec<FunctionInfo>,
    pub modifiers: Vec<ModifierDefinition>,
    pub contracts: Vec<ContractBases>,
    pub build_info: String,
}

/// A declaration of the symbol index: which artifact declares it, whether it
/// is a contract, its name, and the build whose ids it belongs to.
#[derive(Debug)]
pub struct SymbolEntry {
    pub id: i64,
    pub artifact: usize,
    pub is_contract: bool,
    pub name: String,
    pub build_info: String,
}

/// Which walker to run: `Full` follows modifiers, base constructors,
/// `new` expressions, index accesses, unchecked blocks, emits and `try`
/// statements, marks low-level calls and redirects virtual calls to the
/// most-derived override; `Path` follows plain calls and marks low-level
/// calls only; `Plain` follows plain calls between implemented functions,
/// loading artifacts in index order until the callee is found, and shows
/// signatures as declared.
#[derive(Debug, Clone, Copy, PartialEq, Eq, Structural)]
pub enum Dialect {
    Full,
    Path,
    Plain,
}

/// Everything the engine may load: the declarations of every artifact and
/// the symbol index.
#[derive(Debug)]
pub struct Program {
    pub artifacts: Vec<ArtifactFunctions>,
    pub symbols: Vec<SymbolEntry>,
    pub dialect: Dialect,
}

/// The state of a walk: the loaded declarations, each given by its artifact
/// and its position there (the first entry of an id wins), the functions
/// already expanded, and the inheritance order of the queried contract (most
/// derived first) that virtual calls dispatch along.
#[derive(Debug)]
pub struct Walk {
    pub functions: Vec<(usize, usize)>,
    pub visited: Vec<i64>,
    pub order: Vec<String>,
    /// The artifacts loaded so far by a plain walk.
    pub loaded: Vec<usize>,
}

/// Specification value of a walk state.
pub struct St {
    pub funcs: Seq<FunctionInfo>,
    pub visited: Seq<i64>,
    pub order: Seq<String>,
    pub loaded: Seq<usize>,
}

/// The declaration at position `r.1` of artifact `r.0`.
pub open spec fn fn_at(p: Program, r: (usize, usize)) -> FunctionInfo {
    p.artifacts@[r.0 as int].functions@[r.1 as int]
}

/// Whether `r` points at a declaration of the program.
pub open spec fn ref_ok(p: Program, r: (usize, usize)) -> bool {
    r.0 < p.artifacts@.len() && r.1 < p.artifacts@[r.0 as int].functions@.len()
}

/// Whether every entry of `refs` points at a declaration of the program.
pub open spec fn refs_ok(p: Program, refs: Seq<(usize, usize)>) -> bool {
    forall|i: int| 0 <= i < refs.len() ==> ref_ok(p, #[trigger] refs[i])
}

/// The declarations `refs` point at.
pub open spec fn funcs_of(p: Program, refs: Seq<(usize, usize)>) -> Seq<FunctionInfo> {
    refs.map_values(|r: (usize, usize)| fn_at(p, r))
}

impl Walk {
    /// The state of the walk.
    pub open spec fn st(&self, p: Program) -> St {
        St { funcs: funcs_of(p, self.functions@), visited: self.visited@, order: self.order@, loaded: self.loaded@ }
    }

    /// The walk only points at declarations of the program.
    pub open spec fn ok(&self, p: Program) -> bool {
        refs_ok(p, self.functions@)
    }
}

impl Program {
    /// Every symbol points at an artifact of the program.
    pub open spec fn wf(&self) -> bool {
        forall|k: int| 0 <= k < self.symbols@.len() ==> (#[trigger] self.symbols@[k]).artifact < self.artifacts@.len()
    }
}

/// Specification value of a call-graph node.
pub struct NodeSpec {
    pub signature: Seq<char>,
    pub contract_name: Seq<char>,
    pub file: Seq<char>,
    pub visibility: Seq<char>,
    pub src: Seq<char>,
    pub children: Seq<NodeSpec>,
}

/// The specification value of a node.
pub open spec fn node_view(n: CallGraphNode) -> NodeSpec
    decreases n,
{
    NodeSpec {
        signature: n.signature@,
        contract_name: n.contract_name@,
        file: n.file@,
        visibility: n.visibility@,
        src: n.src@,
        children: nodes_view(n.children@),
    }
}

/// The specification values of a list of nodes.
pub open spec fn nodes_view(ns: Seq<CallGraphNode>) -> Seq<NodeSpec>
    decreases ns,
{
    if ns.len() == 0 {
        Seq::empty()
    } else {
        nodes_view(ns.drop_last()).push(node_view(ns.last()))
    }
}

// ---------------------------------------------------------------------------
// Lookups
// ---------------------------------------------------------------------------

/// Index of the first declaration with `id` in `fs[i..]`.
pub open spec fn find_fn(fs: Seq<FunctionInfo>, id: i64, i: int) -> Option<int>
    decreases fs.len() - i,
{
    if i < 0 || i >= fs.len() {
        None
    } else if fs[i].id == id {
        Some(i)
    } else {
        find_fn(fs, id, i + 1)
    }
}

/// Some declaration in `fs` has `id`.
pub open spec fn has_id(fs: Seq<FunctionInfo>, id: i64) -> bool {
    exists|j: int| 0 <= j < fs.len() && (#[trigger] fs[j]).id == id
}

/// Every id loaded in `f0` is still loaded in `f1`.
pub open spec fn kept(f0: Seq<FunctionInfo>, f1: Seq<FunctionInfo>) -> bool {
    forall|x: i64| has_id(f0, x) ==> #[trigger] has_id(f1, x)
}

/// An id is found exactly when some declaration at or after `i` has it.
pub proof fn lemma_find_fn_has(fs: Seq<FunctionInfo>, id: i64, i: int)
    requires
        0 <= i,
    ensures
        find_fn(fs, id, i) is Some <==> exists|j: int| i <= j < fs.len() && (#[trigger] fs[j]).id == id,
        find_fn(fs, id, i) matches Some(j) ==> i <= j < fs.len() && fs[j].id == id,
    decreases fs.len() - i,
{
    if i < fs.len() {
        lemma_find_fn_has(fs, id, i + 1);
    }
}

/// Inserting a declaration keeps every loaded id and loads its own.
pub proof fn lemma_insert_kept(fs: Seq<FunctionInfo>, f: FunctionInfo)
    ensures
        kept(fs, insert_fn(fs, f)),
        has_id(insert_fn(fs, f), f.id),
{
    lemma_find_fn_has(fs, f.id, 0);
    let r = insert_fn(fs, f);
    match find_fn(fs, f.id, 0) {
        Some(i) => {
            assert forall|x: i64| has_id(fs, x) implies #[trigger] has_id(r, x) by {
                let j = choose|j: int| 0 <= j < fs.len() && (#[trigger] fs[j]).id == x;
                if j == i {
                    assert(r[i].id == x);
                } else {
                    assert(r[j] == fs[j]);
                }
            }
            assert(r[i] == f);
        },
        None => {
            assert forall|x: i64| has_id(fs, x) implies #[trigger] has_id(r, x) by {
                let j = choose|j: int| 0 <= j < fs.len() && (#[trigger] fs[j]).id == x;
                assert(r[j] == fs[j]);
            }
            assert(r[fs.len() as int] == f);
        },
    }
}

/// Insert a declaration: replace the one with the same id, or append.
pub open spec fn insert_fn(fs: Seq<FunctionInfo>, f: FunctionInfo) -> Seq<FunctionInfo> {
    match find_fn(fs, f.id, 0) {
        Some(i) => fs.update(i, f),
        None => fs.push(f),
    }
}

/// Insert the first `k` of `xs`, in order.
pub open spec fn insert_all(fs: Seq<FunctionInfo>, xs: Seq<FunctionInfo>, k: int) -> Seq<FunctionInfo>
    decreases k,
{
    if k <= 0 || k > xs.len() {
        fs
    } else {
        insert_fn(insert_all(fs, xs, k - 1), xs[k - 1])
    }
}

/// Index of the first symbol with `id`.
pub open spec fn find_symbol(ss: Seq<SymbolEntry>, id: i64, i: int) -> Option<int>
    decreases ss.len() - i,
{
    if i < 0 || i >= ss.len() {
        None
    } else if ss[i].id == id {
        Some(i)
    } else {
        find_symbol(ss, id, i + 1)
    }
}

/// Whether `id` names a contract in the symbol index.
pub open spec fn is_contract_id(p: Program, id: i64) -> bool {
    match find_symbol(p.symbols@, id, 0) {
        Some(k) => p.symbols@[k].is_contract,
        None => false,
    }
}

/// Whether a plain walk loads a declaration: only implemented functions.
pub open spec fn admitted(f: FunctionInfo) -> bool {
    f.implemented && !f.is_state_variable
}

/// Insert, in order, the admitted ones of the first `k` of `xs`.
pub open spec fn insert_admitted(fs: Seq<FunctionInfo>, xs: Seq<FunctionInfo>, k: int) -> Seq<FunctionInfo>
    decreases k,
{
    if k <= 0 || k > xs.len() {
        fs
    } else {
        let prev = insert_admitted(fs, xs, k - 1);
        if admitted(xs[k - 1]) {
            insert_fn(prev, xs[k - 1])
        } else {
            prev
        }
    }
}

/// Load the declarations of artifact `a` (in a plain walk, its implemented
/// functions only).
pub open spec fn load_artifact_spec(p: Program, fs: Seq<FunctionInfo>, a: int) -> Seq<FunctionInfo> {
    if 0 <= a < p.artifacts@.len() {
        let xs = p.artifacts@[a].functions@;
        if p.dialect == Dialect::Plain {
            insert_admitted(fs, xs, xs.len() as int)
        } else {
            insert_all(fs, xs, xs.len() as int)
        }
    } else {
        fs
    }
}

/// Load artifacts `a..` in order, skipping loaded ones, until `id` is
/// loaded.
pub open spec fn scan_load(p: Program, st: St, id: i64, a: int) -> St
    decreases p.artifacts@.len() - a,
{
    if a < 0 || a >= p.artifacts@.len() {
        st
    } else if st.loaded.contains(a as usize) {
        scan_load(p, st, id, a + 1)
    } else {
        let st1 = St {
            funcs: load_artifact_spec(p, st.funcs, a),
            visited: st.visited,
            order: st.order,
            loaded: st.loaded.push(a as usize),
        };
        if find_fn(st1.funcs, id, 0) is Some {
            st1
        } else {
            scan_load(p, st1, id, a + 1)
        }
    }
}

/// Load the artifact that declares `id`, if the symbol index knows it.
pub open spec fn load_for(p: Program, fs: Seq<FunctionInfo>, id: i64) -> Seq<FunctionInfo> {
    match find_symbol(p.symbols@, id, 0) {
        Some(k) => load_artifact_spec(p, fs, p.symbols@[k].artifact as int),
        None => fs,
    }
}

/// Index of the first constructor of contract `name`.
pub open spec fn find_ctor(fs: Seq<FunctionInfo>, name: Seq<char>, i: int) -> Option<int>
    decreases fs.len() - i,
{
    if i < 0 || i >= fs.len() {
        None
    } else if fs[i].kind == FunctionKind::Constructor && fs[i].contract_name@ == name {
        Some(i)
    } else {
        find_ctor(fs, name, i + 1)
    }
}

/// Index of the first modifier definition with `id`.
pub open spec fn find_modifier(ms: Seq<ModifierDefinition>, id: i64, i: int) -> Option<int>
    decreases ms.len() - i,
{
    if i < 0 || i >= ms.len() {
        None
    } else if ms[i].id == id {
        Some(i)
    } else {
        find_modifier(ms, id, i + 1)
    }
}

/// The body of the modifier a modifier invocation refers to.
pub open spec fn modifier_body_spec(p: Program, m: ModifierInvocation) -> Option<Seq<Stmt>> {
    match m.referenced_declaration {
        None => None,
        Some(mid) => match find_symbol(p.symbols@, mid, 0) {
            None => None,
            Some(k) => {
                let a = p.symbols@[k].artifact as int;
                if 0 <= a < p.artifacts@.len() {
                    match find_modifier(p.artifacts@[a].modifiers@, mid, 0) {
                        Some(j) => Some(p.artifacts@[a].modifiers@[j].body@),
                        None => None,
                    }
                } else {
                    None
                }
            },
        },
    }
}

/// Whether an invocation calls a base constructor: its kind says so, or
/// (without a kind) its name refers to a contract.
pub open spec fn is_base_ctor_spec(p: Program, m: ModifierInvocation) -> bool {
    match m.kind {
        Some(k) => k == ModifierInvocationKind::BaseConstructorSpecifier,
        None => match m.referenced_declaration {
            Some(r) => is_contract_id(p, r),
            None => false,
        },
    }
}

/// The constructor a base constructor specifier calls, loading the base's
/// artifact when it is not loaded yet.
pub open spec fn base_ctor_spec(p: Program, fs: Seq<FunctionInfo>, m: ModifierInvocation) -> (Option<i64>, Seq<FunctionInfo>) {
    match find_ctor(fs, m.name@, 0) {
        Some(j) => (Some(fs[j].id), fs),
        None => match m.referenced_declaration {
            None => (None, fs),
            Some(r) => match find_symbol(p.symbols@, r, 0) {
                None => (None, fs),
                Some(k) => {
                    let fs1 = load_artifact_spec(p, fs, p.symbols@[k].artifact as int);
                    match find_ctor(fs1, m.name@, 0) {
                        Some(j) => (Some(fs1[j].id), fs1),
                        None => (None, fs1),
                    }
                },
            },
        },
    }
}

/// The constructor a `new C(...)` expression calls, loading `C`'s artifact
/// when it is not loaded yet.
pub open spec fn new_ctor_spec(p: Program, fs: Seq<FunctionInfo>, t: TypeName) -> (Option<i64>, Seq<FunctionInfo>) {
    match t {
        TypeName::UserDefined { path_name, name, referenced_declaration, .. } => match referenced_declaration {
            None => (None, fs),
            Some(cid) => {
                let cname: Option<Seq<char>> = match path_name {
                    Some(pn) => Some(pn@),
                    None => match name {
                        Some(n) => Some(n@),
                        None => None,
                    },
                };
                let direct: Option<int> = match cname {
                    Some(n) => find_ctor(fs, n, 0),
                    None => None,
                };
                match direct {
                    Some(j) => (Some(fs[j].id), fs),
                    None => match find_symbol(p.symbols@, cid, 0) {
                        None => (None, fs),
                        Some(k) => {
                            let fs1 = load_artifact_spec(p, fs, p.symbols@[k].artifact as int);
                            match find_ctor(fs1, p.symbols@[k].name@, 0) {
                                Some(j) => (Some(fs1[j].id), fs1),
                                None => (None, fs1),
                            }
                        },
                    },
                }
            },
        },
        _ => (None, fs),
    }
}

/// Whether a member access is a statically dispatched call on a base
/// contract: `super.f(...)` or `Base.f(...)`.
pub open spec fn is_direct_base_spec(p: Program, e: Expr) -> bool {
    match e {
        Expr::Identifier { name, referenced_declaration } => name@ == "super"@ || match referenced_declaration {
            Some(r) => is_contract_id(p, r),
            None => false,
        },
        _ => false,
    }
}

/// The declaration id a call through `e{...}` refers to.
pub open spec fn called_id_spec(e: Expr) -> Option<i64> {
    match e {
        Expr::MemberAccess { referenced_declaration, .. } => referenced_declaration,
        Expr::Identifier { referenced_declaration, .. } => referenced_declaration,
        _ => None,
    }
}

/// Position of `name` in the inheritance order (`usize::MAX` when absent).
pub open spec fn order_pos(order: Seq<String>, name: Seq<char>, i: int) -> int
    decreases order.len() - i,
{
    if i < 0 || i >= order.len() {
        usize::MAX as int
    } else if order[i]@ == name {
        i
    } else {
        order_pos(order, name, i + 1)
    }
}

/// Whether `name` is in the inheritance order.
pub open spec fn in_order(order: Seq<String>, name: Seq<char>) -> bool {
    exists|i: int| 0 <= i < order.len() && (#[trigger] order[i])@ == name
}

/// `a` ranks before `b`: implemented before unimplemented, then more
/// derived, then non-interface, then earlier in the source, then lower id.
pub open spec fn rank_lt(a: FunctionInfo, b: FunctionInfo, order: Seq<String>) -> bool {
    let ka = a.body is None;
    let kb = b.body is None;
    let pa = order_pos(order, a.contract_name@, 0);
    let pb = order_pos(order, b.contract_name@, 0);
    if ka != kb {
        !ka
    } else if pa != pb {
        pa < pb
    } else if a.is_interface != b.is_interface {
        !a.is_interface
    } else if a.src_offset != b.src_offset {
        a.src_offset < b.src_offset
    } else {
        a.id < b.id
    }
}

/// `c` is an override candidate for a call of `f`: a function of the same
/// name and parameter types declared in the inheritance order.
pub open spec fn is_override_candidate(c: FunctionInfo, f: FunctionInfo, order: Seq<String>) -> bool {
    &&& c.kind == FunctionKind::Function
    &&& c.name@ == f.name@
    &&& params_text(c.parameters@, TypeStyle::Full) == params_text(f.parameters@, TypeStyle::Full)
    &&& in_order(order, c.contract_name@)
}

/// The best-ranked override candidate among `fs[0..i]` (the first of equals).
pub open spec fn best_override(fs: Seq<FunctionInfo>, f: FunctionInfo, order: Seq<String>, i: int) -> Option<int>
    decreases i,
{
    if i <= 0 || i > fs.len() {
        None
    } else {
        let prev = best_override(fs, f, order, i - 1);
        if is_override_candidate(fs[i - 1], f, order) {
            match prev {
                None => Some(i - 1),
                Some(b) => if rank_lt(fs[i - 1], fs[b], order) { Some(i - 1) } else { Some(b) },
            }
        } else {
            prev
        }
    }
}

/// The declaration a call of `id` dispatches to: for a function declared in
/// the queried contract's inheritance chain, its best-ranked override there;
/// otherwise `id` itself.
pub open spec fn effective_id(order: Seq<String>, fs: Seq<FunctionInfo>, id: i64) -> i64 {
    match find_fn(fs, id, 0) {
        None => id,
        Some(i) => {
            let f = fs[i];
            if f.kind != FunctionKind::Function || order.len() == 0 || !in_order(order, f.contract_name@) {
                id
            } else {
                match best_override(fs, f, order, fs.len() as int) {
                    Some(b) => fs[b].id,
                    None => id,
                }
            }
        },
    }
}

// ---------------------------------------------------------------------------
// Nodes
// ---------------------------------------------------------------------------

/// Loading artifacts leaves the expanded functions and the order alone.
pub proof fn lemma_scan_load_visited(p: Program, st: St, id: i64, a: int)
    ensures
        scan_load(p, st, id, a).visited == st.visited,
        scan_load(p, st, id, a).order == st.order,
    decreases p.artifacts@.len() - a,
{
    if 0 <= a < p.artifacts@.len() {
        if st.loaded.contains(a as usize) {
            lemma_scan_load_visited(p, st, id, a + 1);
        } else {
            let st1 = St {
                funcs: load_artifact_spec(p, st.funcs, a),
                visited: st.visited,
                order: st.order,
                loaded: st.loaded.push(a as usize),
            };
            lemma_scan_load_visited(p, st1, id, a + 1);
        }
    }
}

/// Signature of a declaration, e.g. `Main::execute(uint256)`: a plain
/// walk shows the declared name and plain parameter types, the others the
/// display name and full parameter types.
pub open spec fn signature_spec(d: Dialect, f: FunctionInfo) -> Seq<char> {
    if d == Dialect::Plain {
        f.contract_name@ + "::"@ + f.name@ + "("@ + params_text(f.parameters@, TypeStyle::Plain) + ")"@
    } else {
        f.contract_name@ + "::"@ + display_name_spec(f.kind, f.name@) + "("@ + params_text(f.parameters@, TypeStyle::Full) + ")"@
    }
}

/// Source range of a declaration, `offset:length`.
pub open spec fn src_spec(f: FunctionInfo) -> Seq<char> {
    decimal(f.src_offset as nat) + ":"@ + decimal(f.src_length as nat)
}

/// The node of a declaration with the given children.
pub open spec fn fn_node(d: Dialect, f: FunctionInfo, children: Seq<NodeSpec>) -> NodeSpec {
    NodeSpec {
        signature: signature_spec(d, f),
        contract_name: f.contract_name@,
        file: f.file@,
        visibility: visibility_spec(f.visibility),
        src: src_spec(f),
        children,
    }
}

/// The node of a low-level call `(address).member()`.
pub open spec fn low_level_node(member: Seq<char>) -> NodeSpec {
    NodeSpec {
        signature: "(address)."@ + member + "()"@,
        contract_name: Seq::empty(),
        file: Seq::empty(),
        visibility: "low-level"@,
        src: Seq::empty(),
        children: Seq::empty(),
    }
}

// ---------------------------------------------------------------------------
// The walk
// ---------------------------------------------------------------------------

/// The ids of the declarations of the first `n` artifacts.
pub open spec fn ids_upto(arts: Seq<ArtifactFunctions>, n: int) -> Seq<i64>
    decreases n,
{
    if n <= 0 || n > arts.len() {
        Seq::empty()
    } else {
        ids_upto(arts, n - 1) + arts[n - 1].functions@.map_values(|f: FunctionInfo| f.id)
    }
}

/// Every id a loaded declaration can have.
pub open spec fn program_ids(p: Program) -> Seq<i64> {
    ids_upto(p.artifacts@, p.artifacts@.len() as int)
}

/// Number of entries of `ids` not yet visited.
pub open spec fn unvisited(ids: Seq<i64>, visited: Seq<i64>) -> nat
    decreases ids.len(),
{
    if ids.len() == 0 {
        0
    } else {
        unvisited(ids.drop_last(), visited) + if visited.contains(ids.last()) { 0nat } else { 1nat }
    }
}

/// What still bounds the walk: the declarations not expanded yet.
pub open spec fn fuel(p: Program, st: St) -> nat {
    unvisited(program_ids(p), st.visited)
}

/// The same state with other declarations.
pub open spec fn with_funcs(st: St, fs: Seq<FunctionInfo>) -> St {
    St { funcs: fs, visited: st.visited, order: st.order, loaded: st.loaded }
}

/// The node of a call of declaration `id`, and the state after it: a leaf
/// when `id` was expanded before, else the node with the calls of its body.
pub open spec fn call_node(p: Program, st: St, id: i64) -> (NodeSpec, St)
    decreases fuel(p, st), 0int, Stmt::Other, 0int,
{
    match find_fn(st.funcs, id, 0) {
        None => (low_level_node(Seq::empty()), st),
        Some(i) => if st.visited.contains(id) {
            (fn_node(p.dialect, st.funcs[i], Seq::empty()), st)
        } else {
            let st1 = St { funcs: st.funcs, visited: st.visited.push(id), order: st.order, loaded: st.loaded };
            if fuel(p, st1) < fuel(p, st) {
                let (cs, st2) = fn_calls(p, st1, id);
                match find_fn(st2.funcs, id, 0) {
                    Some(j) => (fn_node(p.dialect, st2.funcs[j], cs), st2),
                    None => (fn_node(p.dialect, st.funcs[i], cs), st2),
                }
            } else {
                (fn_node(p.dialect, st.funcs[i], Seq::empty()), st1)
            }
        },
    }
}

/// The calls made by declaration `id`: through its modifiers (full dialect)
/// and then its body.
pub open spec fn fn_calls(p: Program, st: St, id: i64) -> (Seq<NodeSpec>, St)
    decreases fuel(p, st), 3int, Stmt::Other, 0int,
{
    match find_fn(st.funcs, id, 0) {
        None => (Seq::empty(), st),
        Some(i) => {
            let f = st.funcs[i];
            let (a, st1) = if p.dialect == Dialect::Full {
                mods_calls(p, st, f.modifiers@, 0)
            } else {
                (Seq::empty(), st)
            };
            if fuel(p, st1) <= fuel(p, st) {
                match f.body {
                    Some(b) => {
                        let (c, st2) = stmts_calls(p, st1, b@, 0);
                        (a + c, st2)
                    },
                    None => (a, st1),
                }
            } else {
                (a, st1)
            }
        },
    }
}

/// The calls made through one modifier invocation: the base constructor
/// it calls, or the calls of the modifier's body.
pub open spec fn mod_step(p: Program, st: St, m: ModifierInvocation) -> (Seq<NodeSpec>, St)
    decreases fuel(p, st), 2int, Stmt::Other, 0int,
{
    if is_base_ctor_spec(p, m) {
        let (cid, fs1) = base_ctor_spec(p, st.funcs, m);
        match cid {
            Some(c) => {
                let (n, st2) = call_node(p, with_funcs(st, fs1), c);
                (seq![n], st2)
            },
            None => (Seq::empty(), with_funcs(st, fs1)),
        }
    } else {
        match modifier_body_spec(p, m) {
            Some(body) => stmts_calls(p, st, body, 0),
            None => (Seq::empty(), st),
        }
    }
}

/// The calls made through the modifier invocations `ms[i..]`.
pub open spec fn mods_calls(p: Program, st: St, ms: Seq<ModifierInvocation>, i: int) -> (Seq<NodeSpec>, St)
    decreases fuel(p, st), 2int, Stmt::Other, ms.len() - i,
{
    if i < 0 || i >= ms.len() {
        (Seq::empty(), st)
    } else {
        let (a, st1) = mod_step(p, st, ms[i]);
        if fuel(p, st1) <= fuel(p, st) {
            let (b, st2) = mods_calls(p, st1, ms, i + 1);
            (a + b, st2)
        } else {
            (a, st1)
        }
    }
}

/// The calls made by the statements `ss[i..]`.
pub open spec fn stmts_calls(p: Program, st: St, ss: Seq<Stmt>, i: int) -> (Seq<NodeSpec>, St)
    decreases fuel(p, st), 1int, ss, ss.len() - i,
{
    if i < 0 || i >= ss.len() {
        (Seq::empty(), st)
    } else {
        let (a, st1) = stmt_calls(p, st, ss[i]);
        if fuel(p, st1) <= fuel(p, st) {
            let (b, st2) = stmts_calls(p, st1, ss, i + 1);
            (a + b, st2)
        } else {
            (a, st1)
        }
    }
}

/// The calls made by the expressions `es[i..]`.
pub open spec fn exprs_calls(p: Program, st: St, es: Seq<Expr>, i: int) -> (Seq<NodeSpec>, St)
    decreases fuel(p, st), 1int, es, es.len() - i,
{
    if i < 0 || i >= es.len() {
        (Seq::empty(), st)
    } else {
        let (a, st1) = expr_calls(p, st, es[i]);
        if fuel(p, st1) <= fuel(p, st) {
            let (b, st2) = exprs_calls(p, st1, es, i + 1);
            (a + b, st2)
        } else {
            (a, st1)
        }
    }
}

/// The calls made by the present expressions of `es[i..]`.
pub open spec fn opt_exprs_calls(p: Program, st: St, es: Seq<Option<Expr>>, i: int) -> (Seq<NodeSpec>, St)
    decreases fuel(p, st), 1int, es, es.len() - i,
{
    if i < 0 || i >= es.len() {
        (Seq::empty(), st)
    } else {
        let (a, st1) = match es[i] {
            Some(e) => expr_calls(p, st, e),
            None => (Seq::empty(), st),
        };
        if fuel(p, st1) <= fuel(p, st) {
            let (b, st2) = opt_exprs_calls(p, st1, es, i + 1);
            (a + b, st2)
        } else {
            (a, st1)
        }
    }
}

/// The calls made by the blocks `bs[i..]` (the clauses of a `try`).
pub open spec fn blocks_calls(p: Program, st: St, bs: Seq<Vec<Stmt>>, i: int) -> (Seq<NodeSpec>, St)
    decreases fuel(p, st), 1int, bs, bs.len() - i,
{
    if i < 0 || i >= bs.len() {
        (Seq::empty(), st)
    } else {
        let (a, st1) = stmts_calls(p, st, bs[i]@, 0);
        if fuel(p, st1) <= fuel(p, st) {
            let (b, st2) = blocks_calls(p, st1, bs, i + 1);
            (a + b, st2)
        } else {
            (a, st1)
        }
    }
}

/// The calls of `x` then those of `y` (both optional expressions).
pub open spec fn opt_expr_calls(p: Program, st: St, e: Option<Expr>) -> (Seq<NodeSpec>, St)
    decreases fuel(p, st), 1int, e, 0int,
{
    match e {
        Some(x) => expr_calls(p, st, x),
        None => (Seq::empty(), st),
    }
}

/// The calls made by an `if` statement.
pub open spec fn if_calls(p: Program, st: St, s: Stmt) -> (Seq<NodeSpec>, St)
    decreases fuel(p, st), 1int, s, 0int,
{
    match s {
        Stmt::If { condition, true_body, false_body } => {
            let (a, st1) = expr_calls(p, st, condition);
            if fuel(p, st1) <= fuel(p, st) {
                let (b, st2) = stmt_calls(p, st1, *true_body);
                if fuel(p, st2) <= fuel(p, st) {
                    match false_body {
                        Some(fb) => {
                            let (c, st3) = stmt_calls(p, st2, *fb);
                            (a + b + c, st3)
                        },
                        None => (a + b, st2),
                    }
                } else {
                    (a + b, st2)
                }
            } else {
                (a, st1)
            }
        },
        _ => (Seq::empty(), st),
    }
}

/// The calls made by part `k` of a `for` statement: its initializer, its
/// condition, its loop expression, then its body.
pub open spec fn for_part(p: Program, st: St, s: Stmt, k: int) -> (Seq<NodeSpec>, St)
    decreases fuel(p, st), 1int, s, 0int,
{
    match s {
        Stmt::For { init, condition, loop_expr, body } => if k == 0 {
            opt_expr_calls(p, st, init)
        } else if k == 1 {
            opt_expr_calls(p, st, condition)
        } else if k == 2 {
            opt_expr_calls(p, st, loop_expr)
        } else {
            stmt_calls(p, st, *body)
        },
        _ => (Seq::empty(), st),
    }
}

/// The calls made by the parts `k..` of a `for` statement.
pub open spec fn for_calls(p: Program, st: St, s: Stmt, k: int) -> (Seq<NodeSpec>, St)
    decreases fuel(p, st), 1int, s, 5 - k,
{
    if k < 0 || k >= 4 {
        (Seq::empty(), st)
    } else {
        let (a, st1) = for_part(p, st, s, k);
        if fuel(p, st1) <= fuel(p, st) {
            let (b, st2) = for_calls(p, st1, s, k + 1);
            (a + b, st2)
        } else {
            (a, st1)
        }
    }
}

/// The calls made by one statement.
pub open spec fn stmt_calls(p: Program, st: St, s: Stmt) -> (Seq<NodeSpec>, St)
    decreases fuel(p, st), 1int, s, 6int,
{
    match s {
        Stmt::Expression(e) => expr_calls(p, st, e),
        Stmt::Block(v) => stmts_calls(p, st, v@, 0),
        Stmt::Unchecked(v) => if p.dialect == Dialect::Full {
            stmts_calls(p, st, v@, 0)
        } else {
            (Seq::empty(), st)
        },
        Stmt::If { .. } => if_calls(p, st, s),
        Stmt::For { .. } => for_calls(p, st, s, 0),
        Stmt::While { condition, body } => {
            let (a, st1) = expr_calls(p, st, condition);
            if fuel(p, st1) <= fuel(p, st) {
                let (b, st2) = stmt_calls(p, st1, *body);
                (a + b, st2)
            } else {
                (a, st1)
            }
        },
        Stmt::DoWhile { body, condition } => {
            let (a, st1) = stmt_calls(p, st, *body);
            if fuel(p, st1) <= fuel(p, st) {
                let (b, st2) = expr_calls(p, st1, condition);
                (a + b, st2)
            } else {
                (a, st1)
            }
        },
        Stmt::Return(e) => opt_expr_calls(p, st, e),
        Stmt::VariableDeclaration(e) => opt_expr_calls(p, st, e),
        Stmt::Emit { arguments } => if p.dialect == Dialect::Full {
            exprs_calls(p, st, arguments@, 0)
        } else {
            (Seq::empty(), st)
        },
        Stmt::Try { external_call, clauses } => if p.dialect == Dialect::Full {
            let (a, st1) = expr_calls(p, st, external_call);
            if fuel(p, st1) <= fuel(p, st) {
                let (b, st2) = blocks_calls(p, st1, clauses@, 0);
                (a + b, st2)
            } else {
                (a, st1)
            }
        } else {
            (Seq::empty(), st)
        },
        Stmt::Other => (Seq::empty(), st),
    }
}

/// Follow a call of declaration `id`: load its artifact when the id is not
/// loaded, and (when `redirect`) dispatch to the effective override.
pub open spec fn push_loaded(p: Program, st: St, id: i64, redirect: bool) -> (Seq<NodeSpec>, St)
    decreases fuel(p, st), 0int, Stmt::Other, 1int,
{
    let st1 = if find_fn(st.funcs, id, 0) is Some {
        st
    } else if p.dialect == Dialect::Plain {
        proof {
            lemma_scan_load_visited(p, st, id, 0);
        }
        scan_load(p, st, id, 0)
    } else {
        with_funcs(st, load_for(p, st.funcs, id))
    };
    if find_fn(st1.funcs, id, 0) is Some {
        let eid = if redirect { effective_id(st1.order, st1.funcs, id) } else { id };
        let (n, st2) = call_node(p, st1, eid);
        (seq![n], st2)
    } else {
        (Seq::empty(), st1)
    }
}

/// The calls named by the callee of a call expression.
pub open spec fn callee_calls(p: Program, st: St, c: Expr) -> (Seq<NodeSpec>, St)
    decreases fuel(p, st), 1int, c, 0int,
{
    if p.dialect == Dialect::Full {
        match c {
            Expr::MemberAccess { expression, member_name, referenced_declaration } => {
                let (a, st1) = match referenced_declaration {
                    Some(id) => push_loaded(p, st, id, !is_direct_base_spec(p, *expression)),
                    None => if is_low_level_spec(member_name@) {
                        (seq![low_level_node(member_name@)], st)
                    } else {
                        (Seq::empty(), st)
                    },
                };
                if fuel(p, st1) <= fuel(p, st) {
                    let (b, st2) = expr_calls(p, st1, *expression);
                    (a + b, st2)
                } else {
                    (a, st1)
                }
            },
            Expr::Identifier { referenced_declaration, .. } => match referenced_declaration {
                Some(id) => push_loaded(p, st, id, true),
                None => (Seq::empty(), st),
            },
            Expr::FunctionCallOptions { callee, .. } => {
                let inner = *callee;
                let (a, st1) = match inner {
                    Expr::MemberAccess { member_name, referenced_declaration: None, .. } if is_low_level_spec(member_name@) =>
                        (seq![low_level_node(member_name@)], st),
                    _ => {
                        let redirect = match inner {
                            Expr::MemberAccess { expression, .. } => !is_direct_base_spec(p, *expression),
                            _ => true,
                        };
                        match called_id_spec(inner) {
                            Some(id) => push_loaded(p, st, id, redirect),
                            None => (Seq::empty(), st),
                        }
                    },
                };
                if fuel(p, st1) <= fuel(p, st) {
                    let (b, st2) = expr_calls(p, st1, inner);
                    (a + b, st2)
                } else {
                    (a, st1)
                }
            },
            Expr::NewExpression { created } => {
                let (cid, fs1) = new_ctor_spec(p, st.funcs, created);
                match cid {
                    Some(id) => {
                        let (n, st2) = call_node(p, with_funcs(st, fs1), id);
                        (seq![n], st2)
                    },
                    None => (Seq::empty(), with_funcs(st, fs1)),
                }
            },
            _ => (Seq::empty(), st),
        }
    } else {
        match c {
            Expr::MemberAccess { member_name, referenced_declaration, .. } => match referenced_declaration {
                Some(id) => push_loaded(p, st, id, false),
                None => if p.dialect == Dialect::Path && is_low_level_spec(member_name@) {
                    (seq![low_level_node(member_name@)], st)
                } else {
                    (Seq::empty(), st)
                },
            },
            Expr::Identifier { referenced_declaration, .. } => match referenced_declaration {
                Some(id) => push_loaded(p, st, id, false),
                None => (Seq::empty(), st),
            },
            Expr::FunctionCallOptions { callee, .. } => match called_id_spec(*callee) {
                Some(id) => push_loaded(p, st, id, false),
                None => (Seq::empty(), st),
            },
            _ => (Seq::empty(), st),
        }
    }
}

/// The calls made by one expression.
pub open spec fn expr_calls(p: Program, st: St, e: Expr) -> (Seq<NodeSpec>, St)
    decreases fuel(p, st), 1int, e, 0int,
{
    match e {
        Expr::FunctionCall { callee, arguments } => {
            let (a, st1) = callee_calls(p, st, *callee);
            if fuel(p, st1) <= fuel(p, st) {
                let (b, st2) = exprs_calls(p, st1, arguments@, 0);
                if fuel(p, st2) <= fuel(p, st) {
                    match *callee {
                        Expr::FunctionCallOptions { options, .. } => {
                            let (c, st3) = exprs_calls(p, st2, options@, 0);
                            (a + b + c, st3)
                        },
                        _ => (a + b, st2),
                    }
                } else {
                    (a + b, st2)
                }
            } else {
                (a, st1)
            }
        },
        Expr::Assignment { lhs, rhs } => {
            let (a, st1) = expr_calls(p, st, *rhs);
            if fuel(p, st1) <= fuel(p, st) {
                let (b, st2) = expr_calls(p, st1, *lhs);
                (a + b, st2)
            } else {
                (a, st1)
            }
        },
        Expr::MemberAccess { expression, .. } => expr_calls(p, st, *expression),
        Expr::BinaryOperation { left, right } => {
            let (a, st1) = expr_calls(p, st, *left);
            if fuel(p, st1) <= fuel(p, st) {
                let (b, st2) = expr_calls(p, st1, *right);
                (a + b, st2)
            } else {
                (a, st1)
            }
        },
        Expr::UnaryOperation { sub } => expr_calls(p, st, *sub),
        Expr::Conditional { condition, true_expr, false_expr } => {
            let (a, st1) = expr_calls(p, st, *condition);
            if fuel(p, st1) <= fuel(p, st) {
                let (b, st2) = expr_calls(p, st1, *true_expr);
                if fuel(p, st2) <= fuel(p, st) {
                    let (c, st3) = expr_calls(p, st2, *false_expr);
                    (a + b + c, st3)
                } else {
                    (a + b, st2)
                }
            } else {
                (a, st1)
            }
        },
        Expr::Tuple { components } => opt_exprs_calls(p, st, components@, 0),
        Expr::IndexAccess { base, index } => if p.dialect == Dialect::Full {
            let (a, st1) = expr_calls(p, st, *base);
            if fuel(p, st1) <= fuel(p, st) {
                match index {
                    Some(x) => {
                        let (b, st2) = expr_calls(p, st1, *x);
                        (a + b, st2)
                    },
                    None => (a, st1),
                }
            } else {
                (a, st1)
            }
        } else {
            (Seq::empty(), st)
        },
        Expr::IndexRangeAccess { base, start } => if p.dialect == Dialect::Full {
            let (a, st1) = expr_calls(p, st, *base);
            if fuel(p, st1) <= fuel(p, st) {
                match start {
                    Some(x) => {
                        let (b, st2) = expr_calls(p, st1, *x);
                        (a + b, st2)
                    },
                    None => (a, st1),
                }
            } else {
                (a, st1)
            }
        } else {
            (Seq::empty(), st)
        },
        _ => (Seq::empty(), st),
    }
}

} // verus!
