//! The executable call-graph walk, proved to build exactly the tree that
//! the engine's specification describes.
use vstd::prelude::*;
use crate::ast::{
    display_name_spec, format_params, function_name_for_display, is_low_level_call,
    is_low_level_spec, params_text, visibility_spec, visibility_str, Expr, FunctionKind, Stmt,
    TypeName, TypeStyle,
};
use crate::call_engine::{
    base_ctor_spec, best_override, blocks_calls, call_node, callee_calls, called_id_spec,
    admitted, has_id, kept, lemma_find_fn_has, lemma_insert_kept, effective_id, expr_calls, insert_admitted, scan_load, for_calls, for_part, if_calls, exprs_calls, fn_at, fn_calls, fn_node, find_ctor, find_fn,
    find_modifier, find_symbol, fuel, funcs_of, ids_upto, in_order, insert_all, insert_fn,
    is_base_ctor_spec, is_contract_id, is_direct_base_spec, is_override_candidate,
    load_artifact_spec, load_for, low_level_node, mod_step, mods_calls, modifier_body_spec, new_ctor_spec,
    node_view, nodes_view, opt_expr_calls, opt_exprs_calls, order_pos, program_ids, push_loaded,
    rank_lt, ref_ok, refs_ok, signature_spec, src_spec, stmt_calls, stmts_calls, unvisited,
    with_funcs, ArtifactFunctions, Dialect, FunctionInfo, ModifierInvocation,
    ModifierInvocationKind, NodeSpec, Program, St, Walk,
};
use crate::call_tree::CallGraphNode;
use crate::strings::{chars_eq, chars_of, decimal_exec, push_str};

verus! {

// ---------------------------------------------------------------------------
// Facts about the bound of the walk
// ---------------------------------------------------------------------------

/// The id of every declaration of the first `n` artifacts is counted.
pub proof fn lemma_ids_upto_contains(arts: Seq<ArtifactFunctions>, n: int, a: int, k: int)
    requires
        0 <= a < n <= arts.len(),
        0 <= k < arts[a].functions@.len(),
    ensures
        ids_upto(arts, n).contains(arts[a].functions@[k].id),
    decreases n,
{
    let tail = arts[n - 1].functions@.map_values(|f: FunctionInfo| f.id);
    if a == n - 1 {
        assert(ids_upto(arts, n)[ids_upto(arts, n - 1).len() + k] == tail[k]);
    } else {
        lemma_ids_upto_contains(arts, n - 1, a, k);
        let prev = ids_upto(arts, n - 1);
        let j = choose|j: int| 0 <= j < prev.len() && #[trigger] prev[j] == arts[a].functions@[k].id;
        assert(ids_upto(arts, n)[j] == prev[j]);
    }
}

/// Visiting more never adds to the bound; visiting a new counted id lowers it.
pub proof fn lemma_unvisited_mono(ids: Seq<i64>, v1: Seq<i64>, v2: Seq<i64>, x: i64)
    requires
        forall|y: i64| v1.contains(y) ==> v2.contains(y),
    ensures
        unvisited(ids, v2) <= unvisited(ids, v1),
        ids.contains(x) && v2.contains(x) && !v1.contains(x) ==> unvisited(ids, v2) < unvisited(ids, v1),
    decreases ids.len(),
{
    if ids.len() > 0 {
        lemma_unvisited_mono(ids.drop_last(), v1, v2, x);
        if ids.contains(x) && ids.last() != x {
            let j = choose|j: int| 0 <= j < ids.len() && ids[j] == x;
            assert(ids.drop_last()[j] == x);
        }
    }
}

/// `v2` extends `v1`.
pub open spec fn extends(v1: Seq<i64>, v2: Seq<i64>) -> bool {
    v1.len() <= v2.len() && v2.subrange(0, v1.len() as int) == v1
}

pub proof fn lemma_extends_fuel(p: Program, s1: St, s2: St)
    requires
        extends(s1.visited, s2.visited),
    ensures
        fuel(p, s2) <= fuel(p, s1),
{
    assert forall|y: i64| s1.visited.contains(y) implies s2.visited.contains(y) by {
        let j = choose|j: int| 0 <= j < s1.visited.len() && s1.visited[j] == y;
        assert(s2.visited[j] == s2.visited.subrange(0, s1.visited.len() as int)[j]);
    }
    lemma_unvisited_mono(program_ids(p), s1.visited, s2.visited, 0);
}

// ---------------------------------------------------------------------------
// Lookups
// ---------------------------------------------------------------------------

/// The declaration a reference points at.
fn fn_ref(p: &Program, r: (usize, usize)) -> (f: &FunctionInfo)
    requires
        ref_ok(*p, r),
    ensures
        *f == fn_at(*p, r),
{
    &p.artifacts[r.0].functions[r.1]
}

/// Position of the first loaded declaration with `id`.
fn find_fn_exec(p: &Program, w: &Walk, id: i64) -> (r: Option<usize>)
    requires
        w.ok(*p),
    ensures
        match r {
            Some(i) => find_fn(w.st(*p).funcs, id, 0) == Some(i as int),
            None => find_fn(w.st(*p).funcs, id, 0) is None,
        },
        r matches Some(i) ==> i < w.functions@.len() && w.st(*p).funcs[i as int].id == id,
{
    let ghost fs = w.st(*p).funcs;
    let mut i: usize = 0;
    while i < w.functions.len()
        invariant
            w.ok(*p),
            fs == w.st(*p).funcs,
            i <= w.functions@.len(),
            find_fn(fs, id, 0) == find_fn(fs, id, i as int),
        decreases w.functions@.len() - i,
    {
        let f = fn_ref(p, w.functions[i]);
        if f.id == id {
            return Some(i);
        }
        i = i + 1;
    }
    None
}

/// Insert the declaration `r` points at.
pub(crate) fn insert_ref(p: &Program, w: &mut Walk, r: (usize, usize))
    requires
        old(w).ok(*p),
        ref_ok(*p, r),
    ensures
        final(w).ok(*p),
        final(w).st(*p).funcs == insert_fn(old(w).st(*p).funcs, fn_at(*p, r)),
        kept(old(w).st(*p).funcs, final(w).st(*p).funcs),
        final(w).visited == old(w).visited,
        final(w).order == old(w).order,
        final(w).loaded == old(w).loaded,
{
    let id = fn_ref(p, r).id;
    proof {
        lemma_insert_kept(old(w).st(*p).funcs, fn_at(*p, r));
    }
    match find_fn_exec(p, w, id) {
        Some(i) => {
            w.functions.set(i, r);
            assert(w.st(*p).funcs =~= insert_fn(old(w).st(*p).funcs, fn_at(*p, r)));
        },
        None => {
            w.functions.push(r);
            assert(w.st(*p).funcs =~= insert_fn(old(w).st(*p).funcs, fn_at(*p, r)));
        },
    }
}

/// Load every declaration of artifact `a`.
fn load_artifact_exec(p: &Program, w: &mut Walk, a: usize)
    requires
        old(w).ok(*p),
        a < p.artifacts@.len(),
    ensures
        kept(old(w).st(*p).funcs, final(w).st(*p).funcs),
        final(w).ok(*p),
        final(w).st(*p).funcs == load_artifact_spec(*p, old(w).st(*p).funcs, a as int),
        final(w).visited == old(w).visited,
        final(w).order == old(w).order,
        final(w).loaded == old(w).loaded,
{
    let n = p.artifacts[a].functions.len();
    let ghost xs = p.artifacts@[a as int].functions@;
    let mut k: usize = 0;
    while k < n
        invariant
            w.ok(*p),
            a < p.artifacts@.len(),
            xs == p.artifacts@[a as int].functions@,
            n == xs.len(),
            k <= n,
            p.dialect == Dialect::Plain ==> w.st(*p).funcs == insert_admitted(old(w).st(*p).funcs, xs, k as int),
            p.dialect != Dialect::Plain ==> w.st(*p).funcs == insert_all(old(w).st(*p).funcs, xs, k as int),
            kept(old(w).st(*p).funcs, w.st(*p).funcs),
            w.visited == old(w).visited,
            w.order == old(w).order,
            w.loaded == old(w).loaded,
        decreases n - k,
    {
        if p.dialect != Dialect::Plain {
            insert_ref(p, w, (a, k));
        } else {
            let f = &p.artifacts[a].functions[k];
            if f.implemented && !f.is_state_variable {
                insert_ref(p, w, (a, k));
            }
        }
        k = k + 1;
    }
}

/// Load the declarations of artifact `a` into a walk.
pub fn load_artifact_pub(p: &Program, w: &mut Walk, a: usize)
    requires
        old(w).ok(*p),
        a < p.artifacts@.len(),
    ensures
        kept(old(w).st(*p).funcs, final(w).st(*p).funcs),
        final(w).ok(*p),
        final(w).st(*p).funcs == load_artifact_spec(*p, old(w).st(*p).funcs, a as int),
        final(w).visited == old(w).visited,
        final(w).order == old(w).order,
        final(w).loaded == old(w).loaded,
{
    load_artifact_exec(p, w, a)
}

/// Position of the first symbol with `id`.
fn find_symbol_exec(p: &Program, id: i64) -> (r: Option<usize>)
    ensures
        match r {
            Some(k) => find_symbol(p.symbols@, id, 0) == Some(k as int),
            None => find_symbol(p.symbols@, id, 0) is None,
        },
        r matches Some(k) ==> k < p.symbols@.len() && p.symbols@[k as int].id == id,
{
    let mut i: usize = 0;
    while i < p.symbols.len()
        invariant
            i <= p.symbols@.len(),
            find_symbol(p.symbols@, id, 0) == find_symbol(p.symbols@, id, i as int),
        decreases p.symbols@.len() - i,
    {
        if p.symbols[i].id == id {
            return Some(i);
        }
        i = i + 1;
    }
    None
}

/// Whether `id` names a contract in the symbol index.
fn is_contract_exec(p: &Program, id: i64) -> (b: bool)
    ensures
        b == is_contract_id(*p, id),
{
    match find_symbol_exec(p, id) {
        Some(k) => p.symbols[k].is_contract,
        None => false,
    }
}

/// Load the artifact that declares `id`.
fn load_for_exec(p: &Program, w: &mut Walk, id: i64)
    requires
        p.wf(),
        old(w).ok(*p),
    ensures
        kept(old(w).st(*p).funcs, final(w).st(*p).funcs),
        final(w).ok(*p),
        final(w).st(*p).funcs == load_for(*p, old(w).st(*p).funcs, id),
        final(w).visited == old(w).visited,
        final(w).order == old(w).order,
        final(w).loaded == old(w).loaded,
{
    match find_symbol_exec(p, id) {
        Some(k) => {
            let a = p.symbols[k].artifact;
            load_artifact_exec(p, w, a);
        },
        None => {},
    }
}

/// Position of the first loaded constructor of contract `name`.
fn find_ctor_exec(p: &Program, w: &Walk, name: &str) -> (r: Option<usize>)
    requires
        w.ok(*p),
    ensures
        match r {
            Some(i) => find_ctor(w.st(*p).funcs, name@, 0) == Some(i as int),
            None => find_ctor(w.st(*p).funcs, name@, 0) is None,
        },
        r matches Some(i) ==> i < w.functions@.len(),
{
    let ghost fs = w.st(*p).funcs;
    let nv = chars_of(name);
    let mut i: usize = 0;
    while i < w.functions.len()
        invariant
            w.ok(*p),
            fs == w.st(*p).funcs,
            nv@ == name@,
            i <= w.functions@.len(),
            find_ctor(fs, name@, 0) == find_ctor(fs, name@, i as int),
        decreases w.functions@.len() - i,
    {
        let f = fn_ref(p, w.functions[i]);
        if f.kind == FunctionKind::Constructor {
            let cv = chars_of(f.contract_name.as_str());
            if chars_eq(&cv, &nv) {
                return Some(i);
            }
        }
        i = i + 1;
    }
    None
}

/// The id of the loaded declaration at position `i`.
fn id_at(p: &Program, w: &Walk, i: usize) -> (id: i64)
    requires
        w.ok(*p),
        i < w.functions@.len(),
    ensures
        id == w.st(*p).funcs[i as int].id,
{
    fn_ref(p, w.functions[i]).id
}

/// The constructor a base constructor specifier calls.
fn base_ctor_exec(p: &Program, w: &mut Walk, m: &ModifierInvocation) -> (r: Option<i64>)
    requires
        p.wf(),
        old(w).ok(*p),
    ensures
        kept(old(w).st(*p).funcs, final(w).st(*p).funcs),
        final(w).ok(*p),
        (r, final(w).st(*p).funcs) == base_ctor_spec(*p, old(w).st(*p).funcs, *m),
        final(w).visited == old(w).visited,
        final(w).order == old(w).order,
        final(w).loaded == old(w).loaded,
{
    match find_ctor_exec(p, w, m.name.as_str()) {
        Some(j) => {
            return Some(id_at(p, w, j));
        },
        None => {},
    }
    match m.referenced_declaration {
        None => None,
        Some(rid) => match find_symbol_exec(p, rid) {
            None => None,
            Some(k) => {
                let a = p.symbols[k].artifact;
                load_artifact_exec(p, w, a);
                match find_ctor_exec(p, w, m.name.as_str()) {
                    Some(j) => Some(id_at(p, w, j)),
                    None => None,
                }
            },
        },
    }
}

/// The constructor a `new C(...)` expression calls.
fn new_ctor_exec(p: &Program, w: &mut Walk, t: &TypeName) -> (r: Option<i64>)
    requires
        p.wf(),
        old(w).ok(*p),
    ensures
        kept(old(w).st(*p).funcs, final(w).st(*p).funcs),
        final(w).ok(*p),
        (r, final(w).st(*p).funcs) == new_ctor_spec(*p, old(w).st(*p).funcs, *t),
        final(w).visited == old(w).visited,
        final(w).order == old(w).order,
        final(w).loaded == old(w).loaded,
{
    match t {
        TypeName::UserDefined { path_name, name, referenced_declaration, .. } => match referenced_declaration {
            None => None,
            Some(cid) => {
                let direct: Option<usize> = match path_name {
                    Some(pn) => find_ctor_exec(p, w, pn.as_str()),
                    None => match name {
                        Some(n) => find_ctor_exec(p, w, n.as_str()),
                        None => None,
                    },
                };
                match direct {
                    Some(j) => Some(id_at(p, w, j)),
                    None => match find_symbol_exec(p, *cid) {
                        None => None,
                        Some(k) => {
                            let a = p.symbols[k].artifact;
                            load_artifact_exec(p, w, a);
                            match find_ctor_exec(p, w, p.symbols[k].name.as_str()) {
                                Some(j) => Some(id_at(p, w, j)),
                                None => None,
                            }
                        },
                    },
                }
            },
        },
        _ => None,
    }
}

/// The body of the modifier an invocation refers to.
fn modifier_body_exec<'a>(p: &'a Program, m: &ModifierInvocation) -> (r: Option<&'a Vec<Stmt>>)
    requires
        p.wf(),
    ensures
        match modifier_body_spec(*p, *m) {
            Some(b) => r matches Some(v) && v@ == b,
            None => r is None,
        },
{
    match m.referenced_declaration {
        None => None,
        Some(mid) => match find_symbol_exec(p, mid) {
            None => None,
            Some(k) => {
                let a = p.symbols[k].artifact;
                let ms = &p.artifacts[a].modifiers;
                let mut j: usize = 0;
                while j < ms.len()
                    invariant
                        a < p.artifacts@.len(),
                        k < p.symbols@.len(),
                        find_symbol(p.symbols@, mid, 0) == Some(k as int),
                        a == p.symbols@[k as int].artifact,
                        m.referenced_declaration == Some(mid),
                        ms == &p.artifacts@[a as int].modifiers,
                        j <= ms@.len(),
                        find_modifier(ms@, mid, 0) == find_modifier(ms@, mid, j as int),
                    decreases ms@.len() - j,
                {
                    if ms[j].id == mid {
                        return Some(&ms[j].body);
                    }
                    j = j + 1;
                }
                None
            },
        },
    }
}

/// Whether an invocation calls a base constructor.
fn is_base_ctor_exec(p: &Program, m: &ModifierInvocation) -> (b: bool)
    ensures
        b == is_base_ctor_spec(*p, *m),
{
    match m.kind {
        Some(k) => k == ModifierInvocationKind::BaseConstructorSpecifier,
        None => match m.referenced_declaration {
            Some(r) => is_contract_exec(p, r),
            None => false,
        },
    }
}

/// Whether a member access is a statically dispatched call on a base.
fn is_direct_base_exec(p: &Program, e: &Expr) -> (b: bool)
    ensures
        b == is_direct_base_spec(*p, *e),
{
    match e {
        Expr::Identifier { name, referenced_declaration } => {
            let nv = chars_of(name.as_str());
            let sv = chars_of("super");
            if chars_eq(&nv, &sv) {
                return true;
            }
            match referenced_declaration {
                Some(r) => is_contract_exec(p, *r),
                None => false,
            }
        },
        _ => false,
    }
}

/// The declaration id a call through `e{...}` refers to.
fn called_id(e: &Expr) -> (r: Option<i64>)
    ensures
        r == called_id_spec(*e),
{
    match e {
        Expr::MemberAccess { referenced_declaration, .. } => *referenced_declaration,
        Expr::Identifier { referenced_declaration, .. } => *referenced_declaration,
        _ => None,
    }
}


// ---------------------------------------------------------------------------
// Dispatch of virtual calls
// ---------------------------------------------------------------------------

/// Position of `name` in the inheritance order (`usize::MAX` when absent).
fn order_pos_exec(order: &Vec<String>, name: &str) -> (r: usize)
    ensures
        r as int == order_pos(order@, name@, 0),
{
    let nv = chars_of(name);
    let mut i: usize = 0;
    while i < order.len()
        invariant
            nv@ == name@,
            i <= order@.len(),
            order_pos(order@, name@, 0) == order_pos(order@, name@, i as int),
        decreases order@.len() - i,
    {
        let ov = chars_of(order[i].as_str());
        if chars_eq(&ov, &nv) {
            return i;
        }
        i = i + 1;
    }
    usize::MAX
}

/// Whether `name` is in the inheritance order.
fn in_order_exec(order: &Vec<String>, name: &str) -> (b: bool)
    ensures
        b == in_order(order@, name@),
{
    let nv = chars_of(name);
    let mut i: usize = 0;
    while i < order.len()
        invariant
            nv@ == name@,
            i <= order@.len(),
            forall|j: int| 0 <= j < i ==> (#[trigger] order@[j])@ != name@,
        decreases order@.len() - i,
    {
        let ov = chars_of(order[i].as_str());
        if chars_eq(&ov, &nv) {
            return true;
        }
        i = i + 1;
    }
    false
}

/// Whether `a` ranks before `b`.
fn rank_lt_exec(order: &Vec<String>, a: &FunctionInfo, b: &FunctionInfo) -> (r: bool)
    ensures
        r == rank_lt(*a, *b, order@),
{
    let ka = a.body.is_none();
    let kb = b.body.is_none();
    if ka != kb {
        return !ka;
    }
    let pa = order_pos_exec(order, a.contract_name.as_str());
    let pb = order_pos_exec(order, b.contract_name.as_str());
    if pa != pb {
        return pa < pb;
    }
    if a.is_interface != b.is_interface {
        return !a.is_interface;
    }
    if a.src_offset != b.src_offset {
        return a.src_offset < b.src_offset;
    }
    a.id < b.id
}

/// Whether `c` is an override candidate for a call of `f`, whose parameter
/// text is `fparams`.
fn is_candidate_exec(order: &Vec<String>, c: &FunctionInfo, f: &FunctionInfo, fparams: &Vec<char>) -> (b: bool)
    requires
        fparams@ == params_text(f.parameters@, TypeStyle::Full),
    ensures
        b == is_override_candidate(*c, *f, order@),
{
    if c.kind != FunctionKind::Function {
        return false;
    }
    let cn = chars_of(c.name.as_str());
    let fname = chars_of(f.name.as_str());
    if !chars_eq(&cn, &fname) {
        return false;
    }
    let cp = format_params(&c.parameters, TypeStyle::Full);
    let cpv = chars_of(cp.as_str());
    if !chars_eq(&cpv, fparams) {
        return false;
    }
    in_order_exec(order, c.contract_name.as_str())
}

/// The declaration a call of loaded declaration `id` dispatches to.
fn effective_id_exec(p: &Program, w: &Walk, id: i64) -> (r: i64)
    requires
        w.ok(*p),
    ensures
        r == effective_id(w.order@, w.st(*p).funcs, id),
{
    let ghost fs = w.st(*p).funcs;
    let order = &w.order;
    let i = match find_fn_exec(p, w, id) {
        Some(i) => i,
        None => {
            return id;
        },
    };
    let f = fn_ref(p, w.functions[i]);
    if f.kind != FunctionKind::Function || order.len() == 0 || !in_order_exec(order, f.contract_name.as_str()) {
        return id;
    }
    let fp = format_params(&f.parameters, TypeStyle::Full);
    let fpv = chars_of(fp.as_str());
    let mut best: Option<usize> = None;
    let mut k: usize = 0;
    while k < w.functions.len()
        invariant
            w.ok(*p),
            fs == w.st(*p).funcs,
            *f == fs[i as int],
            order == &w.order,
            fpv@ == params_text(f.parameters@, TypeStyle::Full),
            k <= fs.len(),
            match best {
                Some(b) => best_override(fs, *f, order@, k as int) == Some(b as int) && b < k,
                None => best_override(fs, *f, order@, k as int) is None,
            },
        decreases fs.len() - k,
    {
        let c = fn_ref(p, w.functions[k]);
        if is_candidate_exec(order, c, f, &fpv) {
            match best {
                None => {
                    best = Some(k);
                },
                Some(b) => {
                    let bf = fn_ref(p, w.functions[b]);
                    if rank_lt_exec(order, c, bf) {
                        best = Some(k);
                    }
                },
            }
        }
        k = k + 1;
    }
    match best {
        Some(b) => fn_ref(p, w.functions[b]).id,
        None => id,
    }
}

// ---------------------------------------------------------------------------
// Nodes
// ---------------------------------------------------------------------------

/// The node of a declaration with the given children.
fn fn_node_exec(d: Dialect, f: &FunctionInfo, children: Vec<CallGraphNode>) -> (n: CallGraphNode)
    ensures
        node_view(n) == fn_node(d, *f, nodes_view(children@)),
{
    let mut sig = String::new();
    push_str(&mut sig, f.contract_name.as_str());
    push_str(&mut sig, "::");
    if d == Dialect::Plain {
        push_str(&mut sig, f.name.as_str());
        push_str(&mut sig, "(");
        let ps = format_params(&f.parameters, TypeStyle::Plain);
        push_str(&mut sig, ps.as_str());
    } else {
        let dn = function_name_for_display(f.kind, f.name.as_str());
        push_str(&mut sig, dn.as_str());
        push_str(&mut sig, "(");
        let ps = format_params(&f.parameters, TypeStyle::Full);
        push_str(&mut sig, ps.as_str());
    }
    push_str(&mut sig, ")");
    let vis = visibility_str(f.visibility);
    let mut src = decimal_exec(f.src_offset);
    push_str(&mut src, ":");
    let len = decimal_exec(f.src_length);
    push_str(&mut src, len.as_str());
    let n = CallGraphNode::new(sig.as_str(), f.contract_name.as_str(), f.file.clone(), vis.as_str(), src.as_str(), children);
    assert(node_view(n).signature =~= signature_spec(d, *f));
    assert(node_view(n).src =~= src_spec(*f));
    n
}

/// The node of a low-level call `(address).member()`.
fn low_level_node_exec(member: &str) -> (n: CallGraphNode)
    ensures
        node_view(n) == low_level_node(member@),
{
    let mut sig = String::from_str("(address).");
    push_str(&mut sig, member);
    push_str(&mut sig, "()");
    let n = CallGraphNode::new(sig.as_str(), "", String::new(), "low-level", "", Vec::new());
    proof {
        reveal_strlit("");
    }
    assert(nodes_view(n.children@) =~= Seq::<NodeSpec>::empty());
    assert(n.contract_name@ =~= Seq::<char>::empty());
    assert(n.src@ =~= Seq::<char>::empty());
    assert(n.file@ =~= Seq::<char>::empty());
    assert(node_view(n).signature == low_level_node(member@).signature);
    n
}

// ---------------------------------------------------------------------------
// The walk
// ---------------------------------------------------------------------------

/// One step of a walk took state `w0` to `w1` and appended to the nodes
/// what `r` says, ending in the state `r` says.
pub open spec fn walked(p: Program, w0: Walk, w1: Walk, n0: Seq<CallGraphNode>, n1: Seq<CallGraphNode>, r: (Seq<NodeSpec>, St)) -> bool {
    &&& w1.ok(p)
    &&& extends(w0.visited@, w1.visited@)
    &&& nodes_view(n1) == nodes_view(n0) + r.0
    &&& w1.st(p) == r.1
    &&& kept(w0.st(p).funcs, w1.st(p).funcs)
}

pub proof fn lemma_walked_seq(
    p: Program,
    w0: Walk,
    w1: Walk,
    w2: Walk,
    n0: Seq<CallGraphNode>,
    n1: Seq<CallGraphNode>,
    n2: Seq<CallGraphNode>,
    a: Seq<NodeSpec>,
    b: Seq<NodeSpec>,
)
    requires
        walked(p, w0, w1, n0, n1, (a, w1.st(p))),
        walked(p, w1, w2, n1, n2, (b, w2.st(p))),
    ensures
        walked(p, w0, w2, n0, n2, (a + b, w2.st(p))),
        fuel(p, w1.st(p)) <= fuel(p, w0.st(p)),
        fuel(p, w2.st(p)) <= fuel(p, w1.st(p)),
{
    assert(w2.visited@.subrange(0, w0.visited@.len() as int) =~= w2.visited@.subrange(0, w1.visited@.len() as int).subrange(0, w0.visited@.len() as int));
    assert(nodes_view(n2) =~= nodes_view(n0) + (a + b));
    lemma_extends_fuel(p, w0.st(p), w1.st(p));
    lemma_extends_fuel(p, w1.st(p), w2.st(p));
}

pub proof fn lemma_walked_fuel(p: Program, w0: Walk, w1: Walk, n0: Seq<CallGraphNode>, n1: Seq<CallGraphNode>, r: (Seq<NodeSpec>, St))
    requires
        walked(p, w0, w1, n0, n1, r),
    ensures
        fuel(p, w1.st(p)) <= fuel(p, w0.st(p)),
{
    lemma_extends_fuel(p, w0.st(p), w1.st(p));
}

/// The nodes grow by one node.
pub proof fn lemma_nodes_push(ns: Seq<CallGraphNode>, n: CallGraphNode)
    ensures
        nodes_view(ns.push(n)) == nodes_view(ns).push(node_view(n)),
{
    assert(ns.push(n).drop_last() =~= ns);
}

/// A declaration found at position `j` is found by its id.
pub proof fn lemma_find_fn_some(fs: Seq<FunctionInfo>, j: int, i: int)
    requires
        0 <= i <= j < fs.len(),
    ensures
        find_fn(fs, fs[j].id, i) is Some,
    decreases j - i,
{
    if fs[i].id != fs[j].id {
        lemma_find_fn_some(fs, j, i + 1);
    }
}

/// Whether `id` was visited.
fn visited_contains(v: &Vec<i64>, id: i64) -> (b: bool)
    ensures
        b == v@.contains(id),
{
    let mut i: usize = 0;
    while i < v.len()
        invariant
            i <= v@.len(),
            forall|j: int| 0 <= j < i ==> v@[j] != id,
        decreases v@.len() - i,
    {
        if v[i] == id {
            return true;
        }
        i = i + 1;
    }
    false
}

/// The node of a call of loaded declaration `id`, starting a walk.
pub fn call_node_pub(p: &Program, w: &mut Walk, id: i64) -> (n: CallGraphNode)
    requires
        p.wf(),
        old(w).ok(*p),
        find_fn(old(w).st(*p).funcs, id, 0) is Some,
    ensures
        final(w).ok(*p),
        extends(old(w).visited@, final(w).visited@),
        kept(old(w).st(*p).funcs, final(w).st(*p).funcs),
        node_view(n) == call_node(*p, old(w).st(*p), id).0,
        final(w).st(*p) == call_node(*p, old(w).st(*p), id).1,
{
    call_node_exec(p, w, id)
}

/// Whether `a` ranks before `b` along the inheritance order.
pub fn rank_lt_pub(order: &Vec<String>, a: &FunctionInfo, b: &FunctionInfo) -> (r: bool)
    ensures
        r == rank_lt(*a, *b, order@),
{
    rank_lt_exec(order, a, b)
}

/// The node of a call of loaded declaration `id`.
fn call_node_exec(p: &Program, w: &mut Walk, id: i64) -> (n: CallGraphNode)
    requires
        p.wf(),
        old(w).ok(*p),
        find_fn(old(w).st(*p).funcs, id, 0) is Some,
    ensures
        final(w).ok(*p),
        extends(old(w).visited@, final(w).visited@),
        kept(old(w).st(*p).funcs, final(w).st(*p).funcs),
        node_view(n) == call_node(*p, old(w).st(*p), id).0,
        final(w).st(*p) == call_node(*p, old(w).st(*p), id).1,
    decreases fuel(*p, old(w).st(*p)), 0int, Stmt::Other, 0int,
{
    let ghost st0 = w.st(*p);
    let i = match find_fn_exec(p, w, id) {
        Some(i) => i,
        None => {
            assert(false);
            0
        },
    };
    let r0 = w.functions[i];
    if visited_contains(&w.visited, id) {
        assert(w.visited@.subrange(0, w.visited@.len() as int) == w.visited@);
        let n = fn_node_exec(p.dialect, fn_ref(p, r0), Vec::new());
        assert(nodes_view(Seq::<CallGraphNode>::empty()) =~= Seq::<NodeSpec>::empty());
        return n;
    }
    let ghost old_visited = w.visited@;
    w.visited.push(id);
    proof {
        assert(w.visited@.subrange(0, old_visited.len() as int) =~= old_visited);
        lemma_ids_upto_contains(p.artifacts@, p.artifacts@.len() as int, r0.0 as int, r0.1 as int);
        assert forall|y: i64| old_visited.contains(y) implies w.visited@.contains(y) by {
            let j = choose|j: int| 0 <= j < old_visited.len() && old_visited[j] == y;
            assert(w.visited@[j] == y);
        }
        assert(w.visited@[old_visited.len() as int] == id);
        lemma_unvisited_mono(program_ids(*p), old_visited, w.visited@, id);
        assert(w.st(*p) == St { funcs: st0.funcs, visited: st0.visited.push(id), order: st0.order, loaded: st0.loaded });
    }
    let ghost w1 = *w;
    let mut children: Vec<CallGraphNode> = Vec::new();
    fn_calls_exec(p, w, id, &mut children);
    proof {
        assert(nodes_view(Seq::<CallGraphNode>::empty()) =~= Seq::<NodeSpec>::empty());
        assert(nodes_view(children@) =~= fn_calls(*p, w1.st(*p), id).0);
        assert(w.visited@.subrange(0, old_visited.len() as int) =~= w.visited@.subrange(0, w1.visited@.len() as int).subrange(0, old_visited.len() as int));
    }
    match find_fn_exec(p, w, id) {
        Some(j) => fn_node_exec(p.dialect, fn_ref(p, w.functions[j]), children),
        None => fn_node_exec(p.dialect, fn_ref(p, r0), children),
    }
}

/// The calls made by loaded declaration `id`.
fn fn_calls_exec(p: &Program, w: &mut Walk, id: i64, nodes: &mut Vec<CallGraphNode>)
    requires
        p.wf(),
        old(w).ok(*p),
    ensures
        walked(*p, *old(w), *final(w), old(nodes)@, final(nodes)@, fn_calls(*p, old(w).st(*p), id)),
    decreases fuel(*p, old(w).st(*p)), 3int, Stmt::Other, 0int,
{
    let ghost w0 = *w;
    let ghost n0 = nodes@;
    proof {
        assert(w.visited@.subrange(0, w.visited@.len() as int) == w.visited@);
        assert(nodes_view(nodes@) =~= nodes_view(nodes@) + Seq::<NodeSpec>::empty());
    }
    let i = match find_fn_exec(p, w, id) {
        Some(i) => i,
        None => {
            return;
        },
    };
    let f = fn_ref(p, w.functions[i]);
    if p.dialect == Dialect::Full {
        mods_walk(p, w, &f.modifiers, nodes);
    }
    let ghost w1 = *w;
    let ghost n1 = nodes@;
    proof {
        lemma_extends_fuel(*p, w0.st(*p), w1.st(*p));
    }
    match &f.body {
        Some(b) => {
            stmts_walk(p, w, b, nodes);
            proof {
                lemma_walked_seq(*p, w0, w1, *w, n0, n1, nodes@,
                    (if p.dialect == Dialect::Full { mods_calls(*p, w0.st(*p), f.modifiers@, 0) } else { (Seq::empty(), w0.st(*p)) }).0,
                    stmts_calls(*p, w1.st(*p), b@, 0).0);
            }
        },
        None => {},
    }
}

/// Facts about the declarations the lookups return.
pub proof fn lemma_find_ctor_range(fs: Seq<FunctionInfo>, name: Seq<char>, i: int)
    ensures
        find_ctor(fs, name, i) matches Some(j) ==> i <= j < fs.len() && find_fn(fs, fs[j].id, 0) is Some,
    decreases fs.len() - i,
{
    if 0 <= i < fs.len() {
        if fs[i].kind == FunctionKind::Constructor && fs[i].contract_name@ == name {
            lemma_find_fn_some(fs, i, 0);
        } else {
            lemma_find_ctor_range(fs, name, i + 1);
        }
    }
}

pub proof fn lemma_best_override_range(fs: Seq<FunctionInfo>, f: FunctionInfo, order: Seq<String>, i: int)
    ensures
        best_override(fs, f, order, i) matches Some(b) ==> 0 <= b < i && b < fs.len(),
    decreases i,
{
    if 0 < i <= fs.len() {
        lemma_best_override_range(fs, f, order, i - 1);
    }
}

/// A constructor found for a base constructor specifier is loaded.
pub proof fn lemma_base_ctor_loaded(p: Program, fs: Seq<FunctionInfo>, m: ModifierInvocation)
    ensures
        base_ctor_spec(p, fs, m).0 matches Some(c) ==> find_fn(base_ctor_spec(p, fs, m).1, c, 0) is Some,
{
    lemma_find_ctor_range(fs, m.name@, 0);
    match m.referenced_declaration {
        Some(r) => match find_symbol(p.symbols@, r, 0) {
            Some(k) => {
                let fs1 = load_artifact_spec(p, fs, p.symbols@[k].artifact as int);
                lemma_find_ctor_range(fs1, m.name@, 0);
            },
            None => {},
        },
        None => {},
    }
}

/// A constructor found for a `new` expression is loaded.
pub proof fn lemma_new_ctor_loaded(p: Program, fs: Seq<FunctionInfo>, t: TypeName)
    ensures
        new_ctor_spec(p, fs, t).0 matches Some(c) ==> find_fn(new_ctor_spec(p, fs, t).1, c, 0) is Some,
{
    match t {
        TypeName::UserDefined { path_name, name, referenced_declaration, .. } => {
            match path_name {
                Some(pn) => lemma_find_ctor_range(fs, pn@, 0),
                None => match name {
                    Some(n) => lemma_find_ctor_range(fs, n@, 0),
                    None => {},
                },
            }
            match referenced_declaration {
                Some(cid) => match find_symbol(p.symbols@, cid, 0) {
                    Some(k) => {
                        let fs1 = load_artifact_spec(p, fs, p.symbols@[k].artifact as int);
                        lemma_find_ctor_range(fs1, p.symbols@[k].name@, 0);
                    },
                    None => {},
                },
                None => {},
            }
        },
        _ => {},
    }
}

/// The effective declaration of a loaded declaration is loaded.
pub proof fn lemma_effective_loaded(order: Seq<String>, fs: Seq<FunctionInfo>, id: i64)
    requires
        find_fn(fs, id, 0) is Some,
    ensures
        find_fn(fs, effective_id(order, fs, id), 0) is Some,
{
    let i = find_fn(fs, id, 0).unwrap();
    lemma_best_override_range(fs, fs[i], order, fs.len() as int);
    match best_override(fs, fs[i], order, fs.len() as int) {
        Some(b) => lemma_find_fn_some(fs, b, 0),
        None => {},
    }
}

/// Nothing walked: the state and the nodes are unchanged.
pub proof fn lemma_walked_none(p: Program, w: Walk, n: Seq<CallGraphNode>)
    requires
        w.ok(p),
    ensures
        walked(p, w, w, n, n, (Seq::empty(), w.st(p))),
{
    assert(w.visited@.subrange(0, w.visited@.len() as int) == w.visited@);
    assert(nodes_view(n) =~= nodes_view(n) + Seq::<NodeSpec>::empty());
}

/// A load: the nodes and the visited functions are unchanged.
pub proof fn lemma_walked_load(p: Program, w0: Walk, w1: Walk, n: Seq<CallGraphNode>)
    requires
        w1.ok(p),
        w1.visited == w0.visited,
        w1.order == w0.order,
        w1.loaded == w0.loaded,
        kept(w0.st(p).funcs, w1.st(p).funcs),
    ensures
        walked(p, w0, w1, n, n, (Seq::empty(), w1.st(p))),
        w1.st(p) == with_funcs(w0.st(p), w1.st(p).funcs),
{
    assert(w1.visited@.subrange(0, w1.visited@.len() as int) == w1.visited@);
    assert(nodes_view(n) =~= nodes_view(n) + Seq::<NodeSpec>::empty());
}

/// One node pushed after a walk that produced it.
pub proof fn lemma_walked_node(p: Program, w0: Walk, w1: Walk, n0: Seq<CallGraphNode>, n: CallGraphNode)
    requires
        w1.ok(p),
        extends(w0.visited@, w1.visited@) || w0.visited@ == w1.visited@,
        kept(w0.st(p).funcs, w1.st(p).funcs),
    ensures
        walked(p, w0, w1, n0, n0.push(n), (seq![node_view(n)], w1.st(p))),
{
    assert(w1.visited@.subrange(0, w1.visited@.len() as int) == w1.visited@);
    lemma_nodes_push(n0, n);
    assert(nodes_view(n0.push(n)) =~= nodes_view(n0) + seq![node_view(n)]);
}

/// Whether artifact `a` was loaded by the walk.
fn loaded_contains(v: &Vec<usize>, a: usize) -> (b: bool)
    ensures
        b == v@.contains(a),
{
    let mut i: usize = 0;
    while i < v.len()
        invariant
            i <= v@.len(),
            forall|j: int| 0 <= j < i ==> v@[j] != a,
        decreases v@.len() - i,
    {
        if v[i] == a {
            return true;
        }
        i = i + 1;
    }
    false
}

/// Load artifacts in order, skipping loaded ones, until `id` is loaded.
fn scan_load_exec(p: &Program, w: &mut Walk, id: i64)
    requires
        old(w).ok(*p),
    ensures
        kept(old(w).st(*p).funcs, final(w).st(*p).funcs),
        final(w).ok(*p),
        final(w).st(*p) == scan_load(*p, old(w).st(*p), id, 0),
        final(w).visited == old(w).visited,
{
    let mut a: usize = 0;
    while a < p.artifacts.len()
        invariant_except_break
            w.ok(*p),
            w.visited == old(w).visited,
            kept(old(w).st(*p).funcs, w.st(*p).funcs),
            a <= p.artifacts@.len(),
            scan_load(*p, old(w).st(*p), id, 0) == scan_load(*p, w.st(*p), id, a as int),
        ensures
            w.ok(*p),
            w.visited == old(w).visited,
            kept(old(w).st(*p).funcs, w.st(*p).funcs),
            scan_load(*p, old(w).st(*p), id, 0) == w.st(*p),
        decreases p.artifacts@.len() - a,
    {
        if !loaded_contains(&w.loaded, a) {
            let ghost st0 = w.st(*p);
            load_artifact_exec(p, w, a);
            w.loaded.push(a);
            assert(w.st(*p) == St { funcs: load_artifact_spec(*p, st0.funcs, a as int), visited: st0.visited, order: st0.order, loaded: st0.loaded.push(a) });
            if find_fn_exec(p, w, id).is_some() {
                break;
            }
        }
        a = a + 1;
    }
}

/// Follow a call of declaration `id`.
fn push_loaded_exec(p: &Program, w: &mut Walk, id: i64, redirect: bool, nodes: &mut Vec<CallGraphNode>)
    requires
        p.wf(),
        old(w).ok(*p),
    ensures
        walked(*p, *old(w), *final(w), old(nodes)@, final(nodes)@, push_loaded(*p, old(w).st(*p), id, redirect)),
    decreases fuel(*p, old(w).st(*p)), 0int, Stmt::Other, 1int,
{
    let ghost w0 = *w;
    let ghost n0 = nodes@;
    if find_fn_exec(p, w, id).is_none() {
        if p.dialect == Dialect::Plain {
            scan_load_exec(p, w, id);
        } else {
            load_for_exec(p, w, id);
        }
    }
    let ghost w1 = *w;
    proof {
        assert(w1.visited == w0.visited);
        assert(w1.visited@.subrange(0, w1.visited@.len() as int) == w1.visited@);
        assert(nodes_view(n0) =~= nodes_view(n0) + Seq::<NodeSpec>::empty());
    }
    if find_fn_exec(p, w, id).is_some() {
        let eid = if redirect { effective_id_exec(p, w, id) } else { id };
        proof {
            lemma_effective_loaded(w.order@, w.st(*p).funcs, id);
        }
        let n = call_node_exec(p, w, eid);
        nodes.push(n);
        proof {
            lemma_walked_node(*p, w1, *w, n0, n);
            lemma_walked_seq(*p, w0, w1, *w, n0, n0, nodes@, Seq::empty(), seq![node_view(n)]);
            assert(Seq::<NodeSpec>::empty() + seq![node_view(n)] =~= seq![node_view(n)]);
        }
    }
}

/// The calls made through the modifier invocations `ms`.
fn mods_walk(p: &Program, w: &mut Walk, ms: &Vec<ModifierInvocation>, nodes: &mut Vec<CallGraphNode>)
    requires
        p.wf(),
        old(w).ok(*p),
    ensures
        walked(*p, *old(w), *final(w), old(nodes)@, final(nodes)@, mods_calls(*p, old(w).st(*p), ms@, 0)),
    decreases fuel(*p, old(w).st(*p)), 2int, Stmt::Other, 1int,
{
    let ghost w0 = *w;
    let ghost n0 = nodes@;
    let ghost mut prefix: Seq<NodeSpec> = Seq::empty();
    proof {
        lemma_walked_none(*p, w0, n0);
        assert(mods_calls(*p, w0.st(*p), ms@, 0).0 =~= prefix + mods_calls(*p, w.st(*p), ms@, 0).0);
    }
    let mut i: usize = 0;
    while i < ms.len()
        invariant
            p.wf(),
            i <= ms@.len(),
            w0 == *old(w),
            walked(*p, w0, *w, n0, nodes@, (prefix, w.st(*p))),
            mods_calls(*p, w0.st(*p), ms@, 0) == (prefix + mods_calls(*p, w.st(*p), ms@, i as int).0, mods_calls(*p, w.st(*p), ms@, i as int).1),
            fuel(*p, w.st(*p)) <= fuel(*p, w0.st(*p)),
        decreases ms@.len() - i,
    {
        let ghost wi = *w;
        let ghost ni = nodes@;
        mod_walk(p, w, &ms[i], nodes);
        proof {
            let a = mod_step(*p, wi.st(*p), ms@[i as int]).0;
            lemma_walked_seq(*p, w0, wi, *w, n0, ni, nodes@, prefix, a);
            assert(mods_calls(*p, w0.st(*p), ms@, 0).0 =~= (prefix + a) + mods_calls(*p, w.st(*p), ms@, i + 1).0);
            prefix = prefix + a;
        }
        i = i + 1;
    }
    proof {
        assert(prefix + Seq::<NodeSpec>::empty() =~= prefix);
    }
}

/// The calls made through one modifier invocation.
fn mod_walk(p: &Program, w: &mut Walk, m: &ModifierInvocation, nodes: &mut Vec<CallGraphNode>)
    requires
        p.wf(),
        old(w).ok(*p),
    ensures
        walked(*p, *old(w), *final(w), old(nodes)@, final(nodes)@, mod_step(*p, old(w).st(*p), *m)),
    decreases fuel(*p, old(w).st(*p)), 2int, Stmt::Other, 0int,
{
    let ghost w0 = *w;
    let ghost n0 = nodes@;
    if is_base_ctor_exec(p, m) {
        let c = base_ctor_exec(p, w, m);
        let ghost w1 = *w;
        proof {
            lemma_walked_load(*p, w0, w1, n0);
            lemma_base_ctor_loaded(*p, w0.st(*p).funcs, *m);
        }
        match c {
            Some(c) => {
                let n = call_node_exec(p, w, c);
                nodes.push(n);
                proof {
                    lemma_walked_node(*p, w1, *w, n0, n);
                    lemma_walked_seq(*p, w0, w1, *w, n0, n0, nodes@, Seq::empty(), seq![node_view(n)]);
                    assert(Seq::<NodeSpec>::empty() + seq![node_view(n)] =~= seq![node_view(n)]);
                }
            },
            None => {},
        }
    } else {
        match modifier_body_exec(p, m) {
            Some(body) => {
                stmts_walk(p, w, body, nodes);
            },
            None => {
                proof {
                    lemma_walked_none(*p, w0, n0);
                }
            },
        }
    }
}

/// The calls made by the statements `ss`.
fn stmts_walk(p: &Program, w: &mut Walk, ss: &Vec<Stmt>, nodes: &mut Vec<CallGraphNode>)
    requires
        p.wf(),
        old(w).ok(*p),
    ensures
        walked(*p, *old(w), *final(w), old(nodes)@, final(nodes)@, stmts_calls(*p, old(w).st(*p), ss@, 0)),
    decreases fuel(*p, old(w).st(*p)), 1int, *ss, 0int,
{
    let ghost w0 = *w;
    let ghost n0 = nodes@;
    let ghost mut prefix: Seq<NodeSpec> = Seq::empty();
    proof {
        lemma_walked_none(*p, w0, n0);
        assert(stmts_calls(*p, w0.st(*p), ss@, 0).0 =~= prefix + stmts_calls(*p, w.st(*p), ss@, 0).0);
    }
    let mut i: usize = 0;
    while i < ss.len()
        invariant
            p.wf(),
            i <= ss@.len(),
            w0 == *old(w),
            walked(*p, w0, *w, n0, nodes@, (prefix, w.st(*p))),
            stmts_calls(*p, w0.st(*p), ss@, 0) == (prefix + stmts_calls(*p, w.st(*p), ss@, i as int).0, stmts_calls(*p, w.st(*p), ss@, i as int).1),
            fuel(*p, w.st(*p)) <= fuel(*p, w0.st(*p)),
        decreases ss@.len() - i,
    {
        let ghost wi = *w;
        let ghost ni = nodes@;
        proof {
            assert(decreases_to!(*ss => ss@[i as int]));
        }
        stmt_walk(p, w, &ss[i], nodes);
        proof {
            let a = stmt_calls(*p, wi.st(*p), ss@[i as int]).0;
            lemma_walked_seq(*p, w0, wi, *w, n0, ni, nodes@, prefix, a);
            assert(stmts_calls(*p, w0.st(*p), ss@, 0).0 =~= (prefix + a) + stmts_calls(*p, w.st(*p), ss@, i + 1).0);
            prefix = prefix + a;
        }
        i = i + 1;
    }
    proof {
        assert(prefix + Seq::<NodeSpec>::empty() =~= prefix);
    }
}

/// The calls made by the expressions `es`.
fn exprs_walk(p: &Program, w: &mut Walk, es: &Vec<Expr>, nodes: &mut Vec<CallGraphNode>)
    requires
        p.wf(),
        old(w).ok(*p),
    ensures
        walked(*p, *old(w), *final(w), old(nodes)@, final(nodes)@, exprs_calls(*p, old(w).st(*p), es@, 0)),
    decreases fuel(*p, old(w).st(*p)), 1int, *es, 0int,
{
    let ghost w0 = *w;
    let ghost n0 = nodes@;
    let ghost mut prefix: Seq<NodeSpec> = Seq::empty();
    proof {
        lemma_walked_none(*p, w0, n0);
        assert(exprs_calls(*p, w0.st(*p), es@, 0).0 =~= prefix + exprs_calls(*p, w.st(*p), es@, 0).0);
    }
    let mut i: usize = 0;
    while i < es.len()
        invariant
            p.wf(),
            i <= es@.len(),
            w0 == *old(w),
            walked(*p, w0, *w, n0, nodes@, (prefix, w.st(*p))),
            exprs_calls(*p, w0.st(*p), es@, 0) == (prefix + exprs_calls(*p, w.st(*p), es@, i as int).0, exprs_calls(*p, w.st(*p), es@, i as int).1),
            fuel(*p, w.st(*p)) <= fuel(*p, w0.st(*p)),
        decreases es@.len() - i,
    {
        let ghost wi = *w;
        let ghost ni = nodes@;
        proof {
            assert(decreases_to!(*es => es@[i as int]));
        }
        expr_walk(p, w, &es[i], nodes);
        proof {
            let a = expr_calls(*p, wi.st(*p), es@[i as int]).0;
            lemma_walked_seq(*p, w0, wi, *w, n0, ni, nodes@, prefix, a);
            assert(exprs_calls(*p, w0.st(*p), es@, 0).0 =~= (prefix + a) + exprs_calls(*p, w.st(*p), es@, i + 1).0);
            prefix = prefix + a;
        }
        i = i + 1;
    }
    proof {
        assert(prefix + Seq::<NodeSpec>::empty() =~= prefix);
    }
}

/// The calls made by the present expressions of `es`.
fn opt_exprs_walk(p: &Program, w: &mut Walk, es: &Vec<Option<Expr>>, nodes: &mut Vec<CallGraphNode>)
    requires
        p.wf(),
        old(w).ok(*p),
    ensures
        walked(*p, *old(w), *final(w), old(nodes)@, final(nodes)@, opt_exprs_calls(*p, old(w).st(*p), es@, 0)),
    decreases fuel(*p, old(w).st(*p)), 1int, *es, 0int,
{
    let ghost w0 = *w;
    let ghost n0 = nodes@;
    let ghost mut prefix: Seq<NodeSpec> = Seq::empty();
    proof {
        lemma_walked_none(*p, w0, n0);
        assert(opt_exprs_calls(*p, w0.st(*p), es@, 0).0 =~= prefix + opt_exprs_calls(*p, w.st(*p), es@, 0).0);
    }
    let mut i: usize = 0;
    while i < es.len()
        invariant
            p.wf(),
            i <= es@.len(),
            w0 == *old(w),
            walked(*p, w0, *w, n0, nodes@, (prefix, w.st(*p))),
            opt_exprs_calls(*p, w0.st(*p), es@, 0) == (prefix + opt_exprs_calls(*p, w.st(*p), es@, i as int).0, opt_exprs_calls(*p, w.st(*p), es@, i as int).1),
            fuel(*p, w.st(*p)) <= fuel(*p, w0.st(*p)),
        decreases es@.len() - i,
    {
        let ghost wi = *w;
        let ghost ni = nodes@;
        proof {
            assert(decreases_to!(*es => es@[i as int]));
        }
        opt_expr_walk(p, w, &es[i], nodes);
        proof {
            let a = opt_expr_calls(*p, wi.st(*p), es@[i as int]).0;
            lemma_walked_seq(*p, w0, wi, *w, n0, ni, nodes@, prefix, a);
            assert(opt_exprs_calls(*p, w0.st(*p), es@, 0).0 =~= (prefix + a) + opt_exprs_calls(*p, w.st(*p), es@, i + 1).0);
            prefix = prefix + a;
        }
        i = i + 1;
    }
    proof {
        assert(prefix + Seq::<NodeSpec>::empty() =~= prefix);
    }
}

/// The calls made by the blocks `bs`.
fn blocks_walk(p: &Program, w: &mut Walk, bs: &Vec<Vec<Stmt>>, nodes: &mut Vec<CallGraphNode>)
    requires
        p.wf(),
        old(w).ok(*p),
    ensures
        walked(*p, *old(w), *final(w), old(nodes)@, final(nodes)@, blocks_calls(*p, old(w).st(*p), bs@, 0)),
    decreases fuel(*p, old(w).st(*p)), 1int, *bs, 0int,
{
    let ghost w0 = *w;
    let ghost n0 = nodes@;
    let ghost mut prefix: Seq<NodeSpec> = Seq::empty();
    proof {
        lemma_walked_none(*p, w0, n0);
        assert(blocks_calls(*p, w0.st(*p), bs@, 0).0 =~= prefix + blocks_calls(*p, w.st(*p), bs@, 0).0);
    }
    let mut i: usize = 0;
    while i < bs.len()
        invariant
            p.wf(),
            i <= bs@.len(),
            w0 == *old(w),
            walked(*p, w0, *w, n0, nodes@, (prefix, w.st(*p))),
            blocks_calls(*p, w0.st(*p), bs@, 0) == (prefix + blocks_calls(*p, w.st(*p), bs@, i as int).0, blocks_calls(*p, w.st(*p), bs@, i as int).1),
            fuel(*p, w.st(*p)) <= fuel(*p, w0.st(*p)),
        decreases bs@.len() - i,
    {
        let ghost wi = *w;
        let ghost ni = nodes@;
        proof {
            assert(decreases_to!(*bs => bs@[i as int]));
        }
        stmts_walk(p, w, &bs[i], nodes);
        proof {
            let a = stmts_calls(*p, wi.st(*p), bs@[i as int]@, 0).0;
            lemma_walked_seq(*p, w0, wi, *w, n0, ni, nodes@, prefix, a);
            assert(blocks_calls(*p, w0.st(*p), bs@, 0).0 =~= (prefix + a) + blocks_calls(*p, w.st(*p), bs@, i + 1).0);
            prefix = prefix + a;
        }
        i = i + 1;
    }
    proof {
        assert(prefix + Seq::<NodeSpec>::empty() =~= prefix);
    }
}

/// The calls made by an optional expression.
fn opt_expr_walk(p: &Program, w: &mut Walk, e: &Option<Expr>, nodes: &mut Vec<CallGraphNode>)
    requires
        p.wf(),
        old(w).ok(*p),
    ensures
        walked(*p, *old(w), *final(w), old(nodes)@, final(nodes)@, opt_expr_calls(*p, old(w).st(*p), *e)),
    decreases fuel(*p, old(w).st(*p)), 1int, *e, 0int,
{
    match e {
        Some(x) => expr_walk(p, w, x, nodes),
        None => {
            proof {
                lemma_walked_none(*p, *w, nodes@);
            }
        },
    }
}


/// The calls made by one statement.
#[verifier::rlimit(60)]
fn stmt_walk(p: &Program, w: &mut Walk, s: &Stmt, nodes: &mut Vec<CallGraphNode>)
    requires
        p.wf(),
        old(w).ok(*p),
    ensures
        walked(*p, *old(w), *final(w), old(nodes)@, final(nodes)@, stmt_calls(*p, old(w).st(*p), *s)),
    decreases fuel(*p, old(w).st(*p)), 1int, *s, 7int,
{
    let ghost w0 = *w;
    let ghost n0 = nodes@;
    match s {
        Stmt::Expression(e) => expr_walk(p, w, e, nodes),
        Stmt::Block(v) => stmts_walk(p, w, v, nodes),
        Stmt::Unchecked(v) => {
            if p.dialect == Dialect::Full {
                stmts_walk(p, w, v, nodes);
            } else {
                proof { lemma_walked_none(*p, w0, n0); }
            }
        },
        Stmt::If { .. } => if_walk(p, w, s, nodes),
        Stmt::For { .. } => for_walk(p, w, s, nodes),
        Stmt::While { condition, body } => {
            expr_walk(p, w, condition, nodes);
            let ghost w1 = *w;
            let ghost n1 = nodes@;
            proof { lemma_walked_fuel(*p, w0, w1, n0, n1, expr_calls(*p, w0.st(*p), *condition)); }
            stmt_walk(p, w, &**body, nodes);
            proof {
                lemma_walked_seq(*p, w0, w1, *w, n0, n1, nodes@, expr_calls(*p, w0.st(*p), *condition).0, stmt_calls(*p, w1.st(*p), **body).0);
            }
        },
        Stmt::DoWhile { body, condition } => {
            stmt_walk(p, w, &**body, nodes);
            let ghost w1 = *w;
            let ghost n1 = nodes@;
            proof { lemma_walked_fuel(*p, w0, w1, n0, n1, stmt_calls(*p, w0.st(*p), **body)); }
            expr_walk(p, w, condition, nodes);
            proof {
                lemma_walked_seq(*p, w0, w1, *w, n0, n1, nodes@, stmt_calls(*p, w0.st(*p), **body).0, expr_calls(*p, w1.st(*p), *condition).0);
            }
        },
        Stmt::Return(e) => opt_expr_walk(p, w, e, nodes),
        Stmt::VariableDeclaration(e) => opt_expr_walk(p, w, e, nodes),
        Stmt::Emit { arguments } => {
            if p.dialect == Dialect::Full {
                exprs_walk(p, w, arguments, nodes);
            } else {
                proof { lemma_walked_none(*p, w0, n0); }
            }
        },
        Stmt::Try { external_call, clauses } => {
            if p.dialect == Dialect::Full {
                expr_walk(p, w, external_call, nodes);
                let ghost w1 = *w;
                let ghost n1 = nodes@;
                proof { lemma_walked_fuel(*p, w0, w1, n0, n1, expr_calls(*p, w0.st(*p), *external_call)); }
                blocks_walk(p, w, clauses, nodes);
                proof {
                    lemma_walked_seq(*p, w0, w1, *w, n0, n1, nodes@, expr_calls(*p, w0.st(*p), *external_call).0, blocks_calls(*p, w1.st(*p), clauses@, 0).0);
                }
            } else {
                proof { lemma_walked_none(*p, w0, n0); }
            }
        },
        Stmt::Other => {
            proof { lemma_walked_none(*p, w0, n0); }
        },
    }
}


/// The calls made by an `if` statement.
fn if_walk(p: &Program, w: &mut Walk, s: &Stmt, nodes: &mut Vec<CallGraphNode>)
    requires
        p.wf(),
        old(w).ok(*p),
        s is If,
    ensures
        walked(*p, *old(w), *final(w), old(nodes)@, final(nodes)@, if_calls(*p, old(w).st(*p), *s)),
    decreases fuel(*p, old(w).st(*p)), 1int, *s, 0int,
{
    let ghost w0 = *w;
    let ghost n0 = nodes@;
    match s {
        Stmt::If { condition, true_body, false_body } => {
            expr_walk(p, w, condition, nodes);
            let ghost w1 = *w;
            let ghost n1 = nodes@;
            proof { lemma_walked_fuel(*p, w0, w1, n0, n1, expr_calls(*p, w0.st(*p), *condition)); }
            stmt_walk(p, w, &**true_body, nodes);
            let ghost w2 = *w;
            let ghost n2 = nodes@;
            proof {
                lemma_walked_seq(*p, w0, w1, w2, n0, n1, n2, expr_calls(*p, w0.st(*p), *condition).0, stmt_calls(*p, w1.st(*p), **true_body).0);
            }
            match false_body {
                Some(fb) => {
                    proof { lemma_walked_fuel(*p, w0, w2, n0, n2, (expr_calls(*p, w0.st(*p), *condition).0 + stmt_calls(*p, w1.st(*p), **true_body).0, w2.st(*p))); }
                    stmt_walk(p, w, &**fb, nodes);
                    proof {
                        lemma_walked_seq(*p, w0, w2, *w, n0, n2, nodes@,
                            expr_calls(*p, w0.st(*p), *condition).0 + stmt_calls(*p, w1.st(*p), **true_body).0,
                            stmt_calls(*p, w2.st(*p), **fb).0);
                    }
                },
                None => {},
            }
        },
        _ => {
            proof { lemma_walked_none(*p, w0, n0); }
        },
    }
}

/// The calls made by part `k` of a `for` statement.
fn for_part_walk(p: &Program, w: &mut Walk, s: &Stmt, k: usize, nodes: &mut Vec<CallGraphNode>)
    requires
        p.wf(),
        old(w).ok(*p),
    ensures
        walked(*p, *old(w), *final(w), old(nodes)@, final(nodes)@, for_part(*p, old(w).st(*p), *s, k as int)),
    decreases fuel(*p, old(w).st(*p)), 1int, *s, 0int,
{
    match s {
        Stmt::For { init, condition, loop_expr, body } => {
            if k == 0 {
                opt_expr_walk(p, w, init, nodes);
            } else if k == 1 {
                opt_expr_walk(p, w, condition, nodes);
            } else if k == 2 {
                opt_expr_walk(p, w, loop_expr, nodes);
            } else {
                stmt_walk(p, w, &**body, nodes);
            }
        },
        _ => {
            proof { lemma_walked_none(*p, *w, nodes@); }
        },
    }
}

/// The calls made by a `for` statement.
fn for_walk(p: &Program, w: &mut Walk, s: &Stmt, nodes: &mut Vec<CallGraphNode>)
    requires
        p.wf(),
        old(w).ok(*p),
    ensures
        walked(*p, *old(w), *final(w), old(nodes)@, final(nodes)@, for_calls(*p, old(w).st(*p), *s, 0)),
    decreases fuel(*p, old(w).st(*p)), 1int, *s, 6int,
{
    let ghost w0 = *w;
    let ghost n0 = nodes@;
    let ghost mut prefix: Seq<NodeSpec> = Seq::empty();
    proof {
        lemma_walked_none(*p, w0, n0);
        assert(for_calls(*p, w0.st(*p), *s, 0).0 =~= prefix + for_calls(*p, w.st(*p), *s, 0).0);
    }
    let mut k: usize = 0;
    while k < 4
        invariant
            p.wf(),
            k <= 4,
            w0 == *old(w),
            walked(*p, w0, *w, n0, nodes@, (prefix, w.st(*p))),
            for_calls(*p, w0.st(*p), *s, 0) == (prefix + for_calls(*p, w.st(*p), *s, k as int).0, for_calls(*p, w.st(*p), *s, k as int).1),
            fuel(*p, w.st(*p)) <= fuel(*p, w0.st(*p)),
        decreases 4 - k,
    {
        let ghost wi = *w;
        let ghost ni = nodes@;
        for_part_walk(p, w, s, k, nodes);
        proof {
            let a = for_part(*p, wi.st(*p), *s, k as int).0;
            lemma_walked_seq(*p, w0, wi, *w, n0, ni, nodes@, prefix, a);
            assert(for_calls(*p, w0.st(*p), *s, 0).0 =~= (prefix + a) + for_calls(*p, w.st(*p), *s, k + 1).0);
            prefix = prefix + a;
        }
        k = k + 1;
    }
    proof {
        assert(prefix + Seq::<NodeSpec>::empty() =~= prefix);
    }
}

/// The calls named by the callee of a call expression.
#[verifier::rlimit(60)]
fn callee_walk(p: &Program, w: &mut Walk, c: &Expr, nodes: &mut Vec<CallGraphNode>)
    requires
        p.wf(),
        old(w).ok(*p),
    ensures
        walked(*p, *old(w), *final(w), old(nodes)@, final(nodes)@, callee_calls(*p, old(w).st(*p), *c)),
    decreases fuel(*p, old(w).st(*p)), 1int, *c, 0int,
{
    let ghost w0 = *w;
    let ghost n0 = nodes@;
    if p.dialect == Dialect::Full {
        match c {
            Expr::MemberAccess { expression, member_name, referenced_declaration } => {
                match referenced_declaration {
                    Some(id) => {
                        let redirect = !is_direct_base_exec(p, &**expression);
                        push_loaded_exec(p, w, *id, redirect, nodes);
                    },
                    None => {
                        if is_low_level_call(member_name.as_str()) {
                            let n = low_level_node_exec(member_name.as_str());
                            nodes.push(n);
                            proof { lemma_walked_node(*p, w0, *w, n0, n); }
                        } else {
                            proof { lemma_walked_none(*p, w0, n0); }
                        }
                    },
                }
                let ghost w1 = *w;
                let ghost n1 = nodes@;
                let ghost a = nodes_view(n1).subrange(nodes_view(n0).len() as int, nodes_view(n1).len() as int);
                proof { lemma_extends_fuel(*p, w0.st(*p), w1.st(*p)); }
                expr_walk(p, w, &**expression, nodes);
                proof {
                    let a0 = match referenced_declaration {
                        Some(id) => push_loaded(*p, w0.st(*p), *id, !is_direct_base_spec(*p, **expression)).0,
                        None => if is_low_level_spec(member_name@) {
                            seq![low_level_node(member_name@)]
                        } else {
                            Seq::empty()
                        },
                    };
                    lemma_walked_seq(*p, w0, w1, *w, n0, n1, nodes@, a0, expr_calls(*p, w1.st(*p), **expression).0);
                }
            },
            Expr::Identifier { referenced_declaration, .. } => match referenced_declaration {
                Some(id) => push_loaded_exec(p, w, *id, true, nodes),
                None => {
                    proof { lemma_walked_none(*p, w0, n0); }
                },
            },
            Expr::FunctionCallOptions { callee, .. } => {
                let inner: &Expr = &**callee;
                let ll: Option<&String> = match inner {
                    Expr::MemberAccess { member_name, referenced_declaration: None, .. } => {
                        if is_low_level_call(member_name.as_str()) {
                            Some(member_name)
                        } else {
                            None
                        }
                    },
                    _ => None,
                };
                let ghost a0 = match inner {
                    Expr::MemberAccess { member_name, referenced_declaration: None, .. } if is_low_level_spec(member_name@) =>
                        seq![low_level_node(member_name@)],
                    _ => {
                        let redirect = match inner {
                            Expr::MemberAccess { expression, .. } => !is_direct_base_spec(*p, **expression),
                            _ => true,
                        };
                        match called_id_spec(*inner) {
                            Some(id) => push_loaded(*p, w0.st(*p), id, redirect).0,
                            None => Seq::empty(),
                        }
                    },
                };
                match ll {
                    Some(m) => {
                        let n = low_level_node_exec(m.as_str());
                        nodes.push(n);
                        proof { lemma_walked_node(*p, w0, *w, n0, n); }
                    },
                    None => {
                        let redirect = match inner {
                            Expr::MemberAccess { expression, .. } => !is_direct_base_exec(p, &**expression),
                            _ => true,
                        };
                        match called_id(inner) {
                            Some(id) => push_loaded_exec(p, w, id, redirect, nodes),
                            None => {
                                proof { lemma_walked_none(*p, w0, n0); }
                            },
                        }
                    },
                }
                let ghost w1 = *w;
                let ghost n1 = nodes@;
                proof { lemma_extends_fuel(*p, w0.st(*p), w1.st(*p)); }
                expr_walk(p, w, inner, nodes);
                proof {
                    lemma_walked_seq(*p, w0, w1, *w, n0, n1, nodes@, a0, expr_calls(*p, w1.st(*p), *inner).0);
                }
            },
            Expr::NewExpression { created } => {
                let cid = new_ctor_exec(p, w, created);
                let ghost w1 = *w;
                proof {
                    lemma_walked_load(*p, w0, w1, n0);
                    lemma_new_ctor_loaded(*p, w0.st(*p).funcs, *created);
                }
                match cid {
                    Some(id) => {
                        let n = call_node_exec(p, w, id);
                        nodes.push(n);
                        proof {
                            lemma_walked_node(*p, w1, *w, n0, n);
                            lemma_walked_seq(*p, w0, w1, *w, n0, n0, nodes@, Seq::empty(), seq![node_view(n)]);
                            assert(Seq::<NodeSpec>::empty() + seq![node_view(n)] =~= seq![node_view(n)]);
                        }
                    },
                    None => {},
                }
            },
            _ => {
                proof { lemma_walked_none(*p, w0, n0); }
            },
        }
    } else {
        match c {
            Expr::MemberAccess { member_name, referenced_declaration, .. } => match referenced_declaration {
                Some(id) => push_loaded_exec(p, w, *id, false, nodes),
                None => {
                    if p.dialect == Dialect::Path && is_low_level_call(member_name.as_str()) {
                        let n = low_level_node_exec(member_name.as_str());
                        nodes.push(n);
                        proof { lemma_walked_node(*p, w0, *w, n0, n); }
                    } else {
                        proof { lemma_walked_none(*p, w0, n0); }
                    }
                },
            },
            Expr::Identifier { referenced_declaration, .. } => match referenced_declaration {
                Some(id) => push_loaded_exec(p, w, *id, false, nodes),
                None => {
                    proof { lemma_walked_none(*p, w0, n0); }
                },
            },
            Expr::FunctionCallOptions { callee, .. } => match called_id(&**callee) {
                Some(id) => push_loaded_exec(p, w, id, false, nodes),
                None => {
                    proof { lemma_walked_none(*p, w0, n0); }
                },
            },
            _ => {
                proof { lemma_walked_none(*p, w0, n0); }
            },
        }
    }
}

/// The calls made by one expression.
#[verifier::rlimit(60)]
fn expr_walk(p: &Program, w: &mut Walk, e: &Expr, nodes: &mut Vec<CallGraphNode>)
    requires
        p.wf(),
        old(w).ok(*p),
    ensures
        walked(*p, *old(w), *final(w), old(nodes)@, final(nodes)@, expr_calls(*p, old(w).st(*p), *e)),
    decreases fuel(*p, old(w).st(*p)), 1int, *e, 0int,
{
    let ghost w0 = *w;
    let ghost n0 = nodes@;
    match e {
        Expr::FunctionCall { callee, arguments } => {
            callee_walk(p, w, &**callee, nodes);
            let ghost w1 = *w;
            let ghost n1 = nodes@;
            proof { lemma_walked_fuel(*p, w0, w1, n0, n1, callee_calls(*p, w0.st(*p), **callee)); }
            exprs_walk(p, w, arguments, nodes);
            let ghost w2 = *w;
            let ghost n2 = nodes@;
            let ghost a = callee_calls(*p, w0.st(*p), **callee).0;
            let ghost b = exprs_calls(*p, w1.st(*p), arguments@, 0).0;
            proof {
                lemma_walked_seq(*p, w0, w1, w2, n0, n1, n2, a, b);
            }
            match &**callee {
                Expr::FunctionCallOptions { options, .. } => {
                    proof { lemma_walked_fuel(*p, w0, w2, n0, n2, (a + b, w2.st(*p))); }
                    exprs_walk(p, w, options, nodes);
                    proof {
                        lemma_walked_seq(*p, w0, w2, *w, n0, n2, nodes@, a + b, exprs_calls(*p, w2.st(*p), options@, 0).0);
                    }
                },
                _ => {},
            }
        },
        Expr::Assignment { lhs, rhs } => {
            expr_walk(p, w, &**rhs, nodes);
            let ghost w1 = *w;
            let ghost n1 = nodes@;
            proof { lemma_walked_fuel(*p, w0, w1, n0, n1, expr_calls(*p, w0.st(*p), **rhs)); }
            expr_walk(p, w, &**lhs, nodes);
            proof {
                lemma_walked_seq(*p, w0, w1, *w, n0, n1, nodes@, expr_calls(*p, w0.st(*p), **rhs).0, expr_calls(*p, w1.st(*p), **lhs).0);
            }
        },
        Expr::MemberAccess { expression, .. } => expr_walk(p, w, &**expression, nodes),
        Expr::BinaryOperation { left, right } => {
            expr_walk(p, w, &**left, nodes);
            let ghost w1 = *w;
            let ghost n1 = nodes@;
            proof { lemma_walked_fuel(*p, w0, w1, n0, n1, expr_calls(*p, w0.st(*p), **left)); }
            expr_walk(p, w, &**right, nodes);
            proof {
                lemma_walked_seq(*p, w0, w1, *w, n0, n1, nodes@, expr_calls(*p, w0.st(*p), **left).0, expr_calls(*p, w1.st(*p), **right).0);
            }
        },
        Expr::UnaryOperation { sub } => expr_walk(p, w, &**sub, nodes),
        Expr::Conditional { condition, true_expr, false_expr } => {
            expr_walk(p, w, &**condition, nodes);
            let ghost w1 = *w;
            let ghost n1 = nodes@;
            proof { lemma_walked_fuel(*p, w0, w1, n0, n1, expr_calls(*p, w0.st(*p), **condition)); }
            expr_walk(p, w, &**true_expr, nodes);
            let ghost w2 = *w;
            let ghost n2 = nodes@;
            let ghost a = expr_calls(*p, w0.st(*p), **condition).0;
            let ghost b = expr_calls(*p, w1.st(*p), **true_expr).0;
            proof {
                lemma_walked_seq(*p, w0, w1, w2, n0, n1, n2, a, b);
            }
            proof { lemma_walked_fuel(*p, w0, w2, n0, n2, (a + b, w2.st(*p))); }
            expr_walk(p, w, &**false_expr, nodes);
            proof {
                lemma_walked_seq(*p, w0, w2, *w, n0, n2, nodes@, a + b, expr_calls(*p, w2.st(*p), **false_expr).0);
            }
        },
        Expr::Tuple { components } => opt_exprs_walk(p, w, components, nodes),
        Expr::IndexAccess { base, index } => {
            if p.dialect == Dialect::Full {
                expr_walk(p, w, &**base, nodes);
                let ghost w1 = *w;
                let ghost n1 = nodes@;
                match index {
                    Some(x) => {
                        proof { lemma_walked_fuel(*p, w0, w1, n0, n1, expr_calls(*p, w0.st(*p), **base)); }
                        expr_walk(p, w, &**x, nodes);
                        proof {
                            lemma_walked_seq(*p, w0, w1, *w, n0, n1, nodes@, expr_calls(*p, w0.st(*p), **base).0, expr_calls(*p, w1.st(*p), **x).0);
                        }
                    },
                    None => {},
                }
            } else {
                proof { lemma_walked_none(*p, w0, n0); }
            }
        },
        Expr::IndexRangeAccess { base, start } => {
            if p.dialect == Dialect::Full {
                expr_walk(p, w, &**base, nodes);
                let ghost w1 = *w;
                let ghost n1 = nodes@;
                match start {
                    Some(x) => {
                        proof { lemma_walked_fuel(*p, w0, w1, n0, n1, expr_calls(*p, w0.st(*p), **base)); }
                        expr_walk(p, w, &**x, nodes);
                        proof {
                            lemma_walked_seq(*p, w0, w1, *w, n0, n1, nodes@, expr_calls(*p, w0.st(*p), **base).0, expr_calls(*p, w1.st(*p), **x).0);
                        }
                    },
                    None => {},
                }
            } else {
                proof { lemma_walked_none(*p, w0, n0); }
            }
        },
        _ => {
            proof { lemma_walked_none(*p, w0, n0); }
        },
    }
}

} // verus!
