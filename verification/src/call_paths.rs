//! Call paths to a function: every external or public function of the
//! project's (non-test) contracts whose call tree reaches the target, one
//! per distinct path, sorted by signature.
use vstd::prelude::*;
use crate::ast::{params_text, TypeStyle, Visibility};
use crate::call_engine::{
    call_node, find_fn, fn_at, has_id, kept, lemma_find_fn_has, node_view, nodes_view, rank_lt, src_spec, ContractBases, Dialect,
    FunctionInfo, NodeSpec, Program, St, Walk,
};
use crate::call_graph::{
    artifact_not_found_spec, matches_target_spec, opt_str, resolve_artifact, resolve_spec, start_walk, tree_start, ResolvedV,
};
use crate::artifact_index::ArtifactIndex;
use crate::call_walk::call_node_pub;
use crate::ids::{opt_view, parse_function_target, target_spec, FunctionTarget};
use crate::call_tree::{
    find_target_source_in_roots, target_source_spec, first_reaching, matches_spec, path_key_spec, path_nodes, triples_view, CallGraphNode, CallPaths,
};
use crate::order::{is_key_order, key_order, key_sorted_order, push_text_key, text_key};
use crate::resolver::relative_spec;
use crate::strings::{chars_eq, chars_of, decimal, decimal_exec, push_str};

verus! {

/// A node value matches a target.
pub open spec fn ns_matches(n: NodeSpec, t: Seq<char>) -> bool {
    matches_spec(n.contract_name, n.signature, t)
}

/// A node value or one of its descendants matches a target.
pub open spec fn ns_reaches(n: NodeSpec, t: Seq<char>) -> bool
    decreases n,
{
    ns_matches(n, t) || exists|i: int| 0 <= i < n.children.len() && ns_reaches(#[trigger] n.children[i], t)
}

/// Index of the first of `cs[i..]` whose subtree reaches `t` (or -1).
pub open spec fn ns_first_reaching(cs: Seq<NodeSpec>, t: Seq<char>, i: int) -> int
    decreases cs.len() - i,
{
    if i < 0 || i >= cs.len() {
        -1
    } else if ns_reaches(cs[i], t) {
        i
    } else {
        ns_first_reaching(cs, t, i + 1)
    }
}

/// The nodes on the path from `n` towards `t`.
pub open spec fn ns_path(n: NodeSpec, t: Seq<char>) -> Seq<NodeSpec>
    decreases n,
{
    if ns_matches(n, t) {
        seq![n]
    } else {
        let j = ns_first_reaching(n.children, t, 0);
        if 0 <= j < n.children.len() {
            seq![n] + ns_path(n.children[j], t)
        } else {
            seq![n]
        }
    }
}

/// `(contract, signature, src)` of each node on the path to `t`.
pub open spec fn ns_path_key(n: NodeSpec, t: Seq<char>) -> Seq<(Seq<char>, Seq<char>, Seq<char>)> {
    ns_path(n, t).map_values(|m: NodeSpec| (m.contract_name, m.signature, m.src))
}

/// The values of a list of nodes are the values of its nodes.
pub proof fn lemma_nodes_view_index(cs: Seq<CallGraphNode>)
    ensures
        nodes_view(cs).len() == cs.len(),
        forall|i: int| 0 <= i < cs.len() ==> #[trigger] nodes_view(cs)[i] == node_view(cs[i]),
    decreases cs.len(),
{
    if cs.len() > 0 {
        lemma_nodes_view_index(cs.drop_last());
        assert forall|i: int| 0 <= i < cs.len() implies #[trigger] nodes_view(cs)[i] == node_view(cs[i]) by {
            if i < cs.len() - 1 {
                assert(nodes_view(cs.drop_last())[i] == node_view(cs.drop_last()[i]));
            }
        }
    }
}

/// A node reaches a target exactly when its value does.
pub proof fn lemma_reaches_view(n: CallGraphNode, t: Seq<char>)
    ensures
        n.reaches(t) == ns_reaches(node_view(n), t),
    decreases n,
{
    lemma_nodes_view_index(n.children@);
    let v = node_view(n);
    assert forall|i: int| 0 <= i < n.children@.len() implies (#[trigger] n.children@[i]).reaches(t) == ns_reaches(v.children[i], t) by {
        assert(decreases_to!(n => n.children@[i]));
        lemma_reaches_view(n.children@[i], t);
    }
    if n.reaches(t) && !n.node_matches(t) {
        let i = choose|i: int| 0 <= i < n.children@.len() && (#[trigger] n.children@[i]).reaches(t);
        assert(ns_reaches(v.children[i], t));
    }
    if ns_reaches(v, t) && !ns_matches(v, t) {
        let i = choose|i: int| 0 <= i < v.children.len() && ns_reaches(#[trigger] v.children[i], t);
        assert(n.children@[i].reaches(t));
    }
}

proof fn lemma_first_reaching_view(cs: Seq<CallGraphNode>, t: Seq<char>, i: int)
    requires
        0 <= i,
    ensures
        first_reaching(cs, t, i) == ns_first_reaching(nodes_view(cs), t, i),
    decreases cs.len() - i,
{
    lemma_nodes_view_index(cs);
    if i < cs.len() {
        lemma_reaches_view(cs[i], t);
        lemma_first_reaching_view(cs, t, i + 1);
    }
}

/// The path key of a node is that of its value.
pub proof fn lemma_path_key_view(n: CallGraphNode, t: Seq<char>)
    ensures
        path_key_spec(n, t) == ns_path_key(node_view(n), t),
    decreases n,
{
    lemma_path_view(n, t);
    let a = path_nodes(n, t);
    let b = ns_path(node_view(n), t);
    assert(path_key_spec(n, t) =~= ns_path_key(node_view(n), t)) by {
        assert forall|k: int| 0 <= k < a.len() implies #[trigger] path_key_spec(n, t)[k] == ns_path_key(node_view(n), t)[k] by {
            assert(node_view(a[k]) == b[k]);
        }
    }
}

proof fn lemma_path_view(n: CallGraphNode, t: Seq<char>)
    ensures
        path_nodes(n, t).len() == ns_path(node_view(n), t).len(),
        forall|k: int| 0 <= k < path_nodes(n, t).len() ==> node_view(#[trigger] path_nodes(n, t)[k]) == ns_path(node_view(n), t)[k],
    decreases n,
{
    lemma_nodes_view_index(n.children@);
    lemma_first_reaching_view(n.children@, t, 0);
    let j = first_reaching(n.children@, t, 0);
    if !n.node_matches(t) && 0 <= j < n.children@.len() {
        assert(decreases_to!(n => n.children@[j]));
        lemma_path_view(n.children@[j], t);
        let a = path_nodes(n, t);
        let b = ns_path(node_view(n), t);
        assert forall|k: int| 0 <= k < a.len() implies node_view(#[trigger] a[k]) == b[k] by {
            if k > 0 {
                assert(a[k] == path_nodes(n.children@[j], t)[k - 1]);
                assert(b[k] == ns_path(node_view(n.children@[j]), t)[k - 1]);
            }
        }
    }
}


// ---------------------------------------------------------------------------
// Choosing the target declaration
// ---------------------------------------------------------------------------

/// Positions of the declarations among `fs[0..k]` that match a target.
pub open spec fn matching_idx(fs: Seq<FunctionInfo>, t: (Seq<char>, Option<Seq<char>>), k: int) -> Seq<int>
    decreases k,
{
    if k <= 0 || k > fs.len() {
        Seq::empty()
    } else if matches_target_spec(fs[k - 1], t) {
        matching_idx(fs, t, k - 1).push(k - 1)
    } else {
        matching_idx(fs, t, k - 1)
    }
}

/// Those of positions `idx[0..k]` whose declaration is not an interface's.
pub open spec fn concrete_idx(fs: Seq<FunctionInfo>, idx: Seq<int>, k: int) -> Seq<int>
    decreases k,
{
    if k <= 0 || k > idx.len() {
        Seq::empty()
    } else if !fs[idx[k - 1]].is_interface {
        concrete_idx(fs, idx, k - 1).push(idx[k - 1])
    } else {
        concrete_idx(fs, idx, k - 1)
    }
}

/// Those of positions `idx[0..k]` whose declaration belongs to contract `c`.
pub open spec fn own_idx(fs: Seq<FunctionInfo>, idx: Seq<int>, c: Seq<char>, k: int) -> Seq<int>
    decreases k,
{
    if k <= 0 || k > idx.len() {
        Seq::empty()
    } else if fs[idx[k - 1]].contract_name@ == c {
        own_idx(fs, idx, c, k - 1).push(idx[k - 1])
    } else {
        own_idx(fs, idx, c, k - 1)
    }
}

/// The best-ranked of positions `idx[0..k]` (the first of equals).
pub open spec fn best_among(fs: Seq<FunctionInfo>, idx: Seq<int>, order: Seq<String>, k: int) -> Option<int>
    decreases k,
{
    if k <= 0 || k > idx.len() {
        None
    } else {
        match best_among(fs, idx, order, k - 1) {
            None => Some(idx[k - 1]),
            Some(b) => if rank_lt(fs[idx[k - 1]], fs[b], order) { Some(idx[k - 1]) } else { Some(b) },
        }
    }
}

/// The declaration a call-path query targets, among matching positions
/// `ts`: the contract's own concrete declaration; else the only concrete
/// one; else the only one; else the best-ranked concrete one; `None` when
/// the name is an overload.
pub open spec fn path_target(fs: Seq<FunctionInfo>, ts: Seq<int>, order: Seq<String>, name: Seq<char>) -> Option<int> {
    let cs = concrete_idx(fs, ts, ts.len() as int);
    let os = own_idx(fs, cs, name, cs.len() as int);
    if os.len() == 1 {
        Some(os[0])
    } else if os.len() == 0 && cs.len() == 1 {
        Some(cs[0])
    } else if os.len() == 0 && cs.len() == 0 && ts.len() == 1 {
        Some(ts[0])
    } else if os.len() == 0 && cs.len() > 1 {
        best_among(fs, cs, order, cs.len() as int)
    } else {
        None
    }
}

/// The target scoped to its contract: `Contract::name` or
/// `Contract::name(params)`.
pub open spec fn scoped_target_spec(f: FunctionInfo, t: (Seq<char>, Option<Seq<char>>)) -> Seq<char> {
    f.contract_name@ + "::"@ + t.0 + match t.1 {
        Some(ps) => "("@ + ps + ")"@,
        None => Seq::empty(),
    }
}

// ---------------------------------------------------------------------------
// Roots
// ---------------------------------------------------------------------------

/// An artifact that may hold path roots: its position among the program's
/// artifacts and the source path its AST records.
pub struct RootArtifact {
    pub artifact: usize,
    pub source: Option<String>,
}

/// `rel` is `dir` or lies under it (component-wise, for plain relative
/// paths); every path lies under the empty directory.
pub open spec fn under_dir_spec(rel: Seq<char>, dir: Seq<char>) -> bool {
    dir.len() == 0 || rel == dir || (rel.len() > dir.len() && rel.subrange(0, dir.len() as int) == dir
        && rel[dir.len() as int] == '/')
}

/// Whether an earlier candidate (among `es[0..k]`) records source `s`.
pub open spec fn source_seen(es: Seq<RootArtifact>, s: Seq<char>, k: int) -> bool {
    exists|j: int| 0 <= j < k && ((#[trigger] es[j]).source matches Some(x) && x@ == s)
}

/// The artifacts that hold path roots: the first artifact of each recorded
/// source, unless the source lies under the test directory.
pub open spec fn root_artifacts(es: Seq<RootArtifact>, root: Seq<char>, test_dir: Seq<char>, k: int) -> Seq<usize>
    decreases k,
{
    if k <= 0 || k > es.len() {
        Seq::empty()
    } else {
        let prev = root_artifacts(es, root, test_dir, k - 1);
        match es[k - 1].source {
            Some(s) => if !source_seen(es, s@, k - 1) && !under_dir_spec(relative_spec(s@, root), test_dir) {
                prev.push(es[k - 1].artifact)
            } else {
                prev
            },
            None => prev,
        }
    }
}

/// Whether a declaration can be called from outside its contract.
pub open spec fn is_external_spec(f: FunctionInfo) -> bool {
    f.visibility == Visibility::External || f.visibility == Visibility::Public
}

/// The ids of the external and public declarations among `fs[0..k]`.
pub open spec fn external_ids(fs: Seq<FunctionInfo>, k: int) -> Seq<i64>
    decreases k,
{
    if k <= 0 || k > fs.len() {
        Seq::empty()
    } else if is_external_spec(fs[k - 1]) {
        external_ids(fs, k - 1).push(fs[k - 1].id)
    } else {
        external_ids(fs, k - 1)
    }
}

/// Roots found so far, with the path keys already taken.
pub struct Found {
    pub roots: Seq<NodeSpec>,
    pub keys: Seq<Seq<(Seq<char>, Seq<char>, Seq<char>)>>,
}

/// Add a root when it reaches the target along a path not taken before.
pub open spec fn consider(acc: Found, n: NodeSpec, t: Seq<char>) -> Found {
    if ns_reaches(n, t) && !acc.keys.contains(ns_path_key(n, t)) {
        Found { roots: acc.roots.push(n), keys: acc.keys.push(ns_path_key(n, t)) }
    } else {
        acc
    }
}

/// Expand the roots `ids[i..]` in turn; each starts with nothing expanded,
/// the declarations loaded so far carry over.
pub open spec fn expand_ids(p: Program, st: St, ids: Seq<i64>, i: int, t: Seq<char>, acc: Found) -> Found
    decreases ids.len() - i,
{
    if i < 0 || i >= ids.len() {
        acc
    } else {
        let (n, st2) = call_node(p, St { funcs: st.funcs, visited: Seq::empty(), order: st.order, loaded: st.loaded }, ids[i]);
        expand_ids(p, St { funcs: st2.funcs, visited: st.visited, order: st2.order, loaded: st2.loaded }, ids, i + 1, t, consider(acc, n, t))
    }
}

/// Expand the plain contracts `cs[j..]` of artifact `a`, each with its own
/// inherited declarations and inheritance order.
pub open spec fn expand_contracts(p: Program, a: int, cs: Seq<ContractBases>, j: int, t: Seq<char>, acc: Found) -> Found
    decreases cs.len() - j,
{
    if j < 0 || j >= cs.len() {
        acc
    } else if !cs[j].is_plain_contract {
        expand_contracts(p, a, cs, j + 1, t, acc)
    } else {
        let st0 = tree_start(p, a, cs[j].name);
        let ids = external_ids(st0.funcs, st0.funcs.len() as int);
        expand_contracts(p, a, cs, j + 1, t, expand_ids(p, st0, ids, 0, t, acc))
    }
}

/// Expand the root artifacts `arts[k..]`.
pub open spec fn expand_roots(p: Program, arts: Seq<usize>, k: int, t: Seq<char>, acc: Found) -> Found
    decreases arts.len() - k,
{
    if k < 0 || k >= arts.len() {
        acc
    } else {
        let a = arts[k] as int;
        let cs = if 0 <= a < p.artifacts@.len() { p.artifacts@[a].contracts@ } else { Seq::empty() };
        expand_roots(p, arts, k + 1, t, expand_contracts(p, a, cs, 0, t, acc))
    }
}


// ---------------------------------------------------------------------------
// The result
// ---------------------------------------------------------------------------

/// Sort keys of roots: their signatures.
pub open spec fn signature_keys(ns: Seq<NodeSpec>) -> Seq<Seq<u128>> {
    ns.map_values(|n: NodeSpec| text_key(n.signature, false))
}

/// Roots sorted by signature (stably).
pub open spec fn sorted_roots(ns: Seq<NodeSpec>) -> Seq<NodeSpec> {
    let o = key_sorted_order(signature_keys(ns));
    Seq::new(o.len(), |i: int| ns[o[i] as int])
}

/// What a call-path query returns: the sorted roots, the target's scoped
/// name, the declaration it resolved to; or the error message.
/// `r` is what [`call_paths_spec`] gives: the roots, the scoped target and
/// where the target is defined, or the error message.
pub open spec fn call_paths_outcome(
    r: Result<CallPaths, String>,
    p: Program,
    a: int,
    name: String,
    target_function: Seq<char>,
    entries: Seq<RootArtifact>,
    root: Seq<char>,
    test_dir: Seq<char>,
) -> bool {
    match call_paths_spec(p, a, name, target_function, entries, root, test_dir) {
        Ok((roots, scoped, f)) => r matches Ok(cp) && nodes_view(cp.roots@) == roots
            && cp.scoped_target@ == scoped
            && match target_source_spec(cp.roots@, scoped, 0) {
                Some((fl, sr)) => cp.target_file@ == fl && cp.target_src@ == sr,
                None => cp.target_file@ == f.file@ && cp.target_src@ == src_spec(f),
            },
        Err(e) => r matches Err(m) && m@ == e,
    }
}

pub open spec fn call_paths_spec(
    p: Program,
    a: int,
    name: String,
    target_function: Seq<char>,
    entries: Seq<RootArtifact>,
    root: Seq<char>,
    test_dir: Seq<char>,
) -> Result<(Seq<NodeSpec>, Seq<char>, FunctionInfo), Seq<char>> {
    let st = tree_start(p, a, name);
    let t = target_spec(target_function);
    let ts = matching_idx(st.funcs, t, st.funcs.len() as int);
    if ts.len() == 0 {
        Err("\""@ + target_function + "\" not found in \""@ + name@ + "\"."@)
    } else {
        match path_target(st.funcs, ts, st.order, name@) {
            None => Err("\""@ + target_function + "\" has multiple overloads in \""@ + name@ + "\"; use the full signature."@),
            Some(i) => {
                let f = st.funcs[i];
                let scoped = scoped_target_spec(f, t);
                let arts = root_artifacts(entries, root, test_dir, entries.len() as int);
                let found = expand_roots(p, arts, 0, scoped, Found { roots: Seq::empty(), keys: Seq::empty() });
                Ok((sorted_roots(found.roots), scoped, f))
            },
        }
    }
}

/// A copy of a node tree.
pub fn copy_node(n: &CallGraphNode) -> (r: CallGraphNode)
    ensures
        node_view(r) == node_view(*n),
    decreases n,
{
    let mut children: Vec<CallGraphNode> = Vec::new();
    let mut i: usize = 0;
    while i < n.children.len()
        invariant
            i <= n.children@.len(),
            nodes_view(children@) == nodes_view(n.children@.take(i as int)),
        decreases n.children@.len() - i,
    {
        proof {
            assert(decreases_to!(*n => n.children@[i as int]));
        }
        let c = copy_node(&n.children[i]);
        let ghost before = children@;
        children.push(c);
        proof {
            assert(children@.drop_last() =~= before);
            assert(n.children@.take(i + 1).drop_last() =~= n.children@.take(i as int));
        }
        i = i + 1;
    }
    assert(n.children@.take(n.children@.len() as int) == n.children@);
    CallGraphNode::new(
        n.signature.as_str(),
        n.contract_name.as_str(),
        n.file.clone(),
        n.visibility.as_str(),
        n.src.as_str(),
        children,
    )
}

/// Whether two path keys are the same.
fn keys_equal(a: &Vec<(String, String, String)>, b: &Vec<(String, String, String)>) -> (r: bool)
    ensures
        r == (triples_view(a@) == triples_view(b@)),
{
    if a.len() != b.len() {
        return false;
    }
    let mut i: usize = 0;
    while i < a.len()
        invariant
            a@.len() == b@.len(),
            i <= a@.len(),
            forall|j: int| 0 <= j < i ==> triples_view(a@)[j] == triples_view(b@)[j],
        decreases a@.len() - i,
    {
        let x0 = chars_of(a[i].0.as_str());
        let y0 = chars_of(b[i].0.as_str());
        let x1 = chars_of(a[i].1.as_str());
        let y1 = chars_of(b[i].1.as_str());
        let x2 = chars_of(a[i].2.as_str());
        let y2 = chars_of(b[i].2.as_str());
        if !(chars_eq(&x0, &y0) && chars_eq(&x1, &y1) && chars_eq(&x2, &y2)) {
            assert(triples_view(a@)[i as int] != triples_view(b@)[i as int]);
            return false;
        }
        i = i + 1;
    }
    assert(triples_view(a@) =~= triples_view(b@));
    true
}

/// The views of the keys taken.
pub open spec fn keys_view(ks: Seq<Vec<(String, String, String)>>) -> Seq<Seq<(Seq<char>, Seq<char>, Seq<char>)>> {
    ks.map_values(|k: Vec<(String, String, String)>| triples_view(k@))
}

fn keys_contain(ks: &Vec<Vec<(String, String, String)>>, k: &Vec<(String, String, String)>) -> (r: bool)
    ensures
        r == keys_view(ks@).contains(triples_view(k@)),
{
    let mut i: usize = 0;
    while i < ks.len()
        invariant
            i <= ks@.len(),
            forall|j: int| 0 <= j < i ==> keys_view(ks@)[j] != triples_view(k@),
        decreases ks@.len() - i,
    {
        if keys_equal(&ks[i], k) {
            assert(keys_view(ks@)[i as int] == triples_view(k@));
            return true;
        }
        i = i + 1;
    }
    false
}

/// Expand the roots `ids` of a walk.
fn expand_ids_exec(
    p: &Program,
    w: &mut Walk,
    ids: &Vec<i64>,
    target: &str,
    roots: &mut Vec<CallGraphNode>,
    keys: &mut Vec<Vec<(String, String, String)>>,
)
    requires
        p.wf(),
        old(w).ok(*p),
        old(w).visited@.len() == 0,
        forall|k: int| 0 <= k < ids@.len() ==> has_id(old(w).st(*p).funcs, #[trigger] ids@[k]),
    ensures
        final(w).ok(*p),
        final(w).visited@.len() == 0,
        ({
            let found = expand_ids(*p, old(w).st(*p), ids@, 0, target@, Found { roots: nodes_view(old(roots)@), keys: keys_view(old(keys)@) });
            nodes_view(final(roots)@) == found.roots && keys_view(final(keys)@) == found.keys
        }),
{
    let ghost total = expand_ids(*p, old(w).st(*p), ids@, 0, target@, Found { roots: nodes_view(old(roots)@), keys: keys_view(old(keys)@) });
    let mut i: usize = 0;
    while i < ids.len()
        invariant
            p.wf(),
            w.ok(*p),
            w.visited@.len() == 0,
            i <= ids@.len(),
            kept(old(w).st(*p).funcs, w.st(*p).funcs),
            forall|k: int| 0 <= k < ids@.len() ==> has_id(old(w).st(*p).funcs, #[trigger] ids@[k]),
            total == expand_ids(*p, w.st(*p), ids@, i as int, target@, Found { roots: nodes_view(roots@), keys: keys_view(keys@) }),
        decreases ids@.len() - i,
    {
        let ghost st = w.st(*p);
        let id = ids[i];
        proof {
            assert(has_id(old(w).st(*p).funcs, ids@[i as int]));
            assert(has_id(w.st(*p).funcs, id));
            lemma_find_fn_has(w.st(*p).funcs, id, 0);
            assert(w.visited@ =~= Seq::<i64>::empty());
            assert(st == St { funcs: st.funcs, visited: Seq::empty(), order: st.order, loaded: st.loaded });
        }
        let n = call_node_pub(p, w, id);
        let ghost st2 = w.st(*p);
        w.visited = Vec::new();
        proof {
            assert(w.st(*p) == St { funcs: st2.funcs, visited: Seq::empty(), order: st2.order, loaded: st2.loaded });
            lemma_reaches_view(n, target@);
            lemma_path_key_view(n, target@);
        }
        let ghost acc = Found { roots: nodes_view(roots@), keys: keys_view(keys@) };
        let ghost nv = node_view(n);
        assert(expand_ids(*p, st, ids@, i as int, target@, acc) == expand_ids(*p, w.st(*p), ids@, i + 1, target@, consider(acc, nv, target@)));
        if n.reaches_target(target) {
            let key = n.path_key_to_target(target);
            if !keys_contain(keys, &key) {
                let ghost r0 = roots@;
                let ghost k0 = keys@;
                roots.push(n);
                keys.push(key);
                proof {
                    crate::call_walk::lemma_nodes_push(r0, n);
                    assert(keys@.drop_last() =~= k0);
                    assert(keys_view(keys@) =~= keys_view(k0).push(triples_view(key@)));
                }
            }
        }
        i = i + 1;
    }
}


/// The ids of the external and public declarations of a walk.
fn external_ids_exec(p: &Program, w: &Walk) -> (r: Vec<i64>)
    requires
        w.ok(*p),
    ensures
        r@ == external_ids(w.st(*p).funcs, w.st(*p).funcs.len() as int),
        forall|k: int| 0 <= k < r@.len() ==> has_id(w.st(*p).funcs, #[trigger] r@[k]),
{
    let ghost fs = w.st(*p).funcs;
    let mut r: Vec<i64> = Vec::new();
    let mut i: usize = 0;
    while i < w.functions.len()
        invariant
            w.ok(*p),
            fs == w.st(*p).funcs,
            i <= fs.len(),
            r@ == external_ids(fs, i as int),
            forall|k: int| 0 <= k < r@.len() ==> has_id(fs, #[trigger] r@[k]),
        decreases fs.len() - i,
    {
        let f = &p.artifacts[w.functions[i].0].functions[w.functions[i].1];
        if f.visibility == Visibility::External || f.visibility == Visibility::Public {
            r.push(f.id);
            assert(fs[i as int].id == f.id);
        }
        i = i + 1;
    }
    r
}

/// Expand the plain contracts of artifact `a`.
fn expand_contracts_exec(
    p: &Program,
    a: usize,
    target: &str,
    roots: &mut Vec<CallGraphNode>,
    keys: &mut Vec<Vec<(String, String, String)>>,
)
    requires
        p.wf(),
        a < p.artifacts@.len(),
    ensures
        ({
            let found = expand_contracts(*p, a as int, p.artifacts@[a as int].contracts@, 0, target@, Found { roots: nodes_view(old(roots)@), keys: keys_view(old(keys)@) });
            nodes_view(final(roots)@) == found.roots && keys_view(final(keys)@) == found.keys
        }),
{
    let cs = &p.artifacts[a].contracts;
    let ghost total = expand_contracts(*p, a as int, cs@, 0, target@, Found { roots: nodes_view(roots@), keys: keys_view(keys@) });
    let mut j: usize = 0;
    while j < cs.len()
        invariant
            p.wf(),
            a < p.artifacts@.len(),
            cs == &p.artifacts@[a as int].contracts,
            j <= cs@.len(),
            total == expand_contracts(*p, a as int, cs@, j as int, target@, Found { roots: nodes_view(roots@), keys: keys_view(keys@) }),
        decreases cs@.len() - j,
    {
        if cs[j].is_plain_contract {
            let mut w = start_walk(p, a, &cs[j].name);
            let ids = external_ids_exec(p, &w);
            expand_ids_exec(p, &mut w, &ids, target, roots, keys);
        }
        j = j + 1;
    }
}

/// Whether an earlier candidate (among `es[0..k]`) records source `s`.
fn source_seen_exec(es: &Vec<RootArtifact>, s: &String, k: usize) -> (r: bool)
    requires
        k <= es@.len(),
    ensures
        r == source_seen(es@, s@, k as int),
{
    let sv = chars_of(s.as_str());
    let mut j: usize = 0;
    while j < k
        invariant
            k <= es@.len(),
            sv@ == s@,
            j <= k,
            !source_seen(es@, s@, j as int),
        decreases k - j,
    {
        match &es[j].source {
            Some(x) => {
                let xv = chars_of(x.as_str());
                if chars_eq(&xv, &sv) {
                    assert(es@[j as int].source matches Some(y) && y@ == s@);
                    return true;
                }
            },
            None => {},
        }
        proof {
            assert forall|q: int| 0 <= q < j + 1 && ((#[trigger] es@[q]).source matches Some(y) && y@ == s@) implies false by {
                if q < j {
                    assert(source_seen(es@, s@, j as int));
                }
            }
        }
        j = j + 1;
    }
    false
}

/// `rel` is `dir` or lies under it.
pub(crate) fn under_dir(rel: &str, dir: &str) -> (b: bool)
    ensures
        b == under_dir_spec(rel@, dir@),
{
    let rv = chars_of(rel);
    let dv = chars_of(dir);
    if dv.len() == 0 {
        return true;
    }
    if chars_eq(&rv, &dv) {
        return true;
    }
    rv.len() > dv.len() && crate::strings::range_eq(&rv, 0, dv.len(), &dv) && rv[dv.len()] == '/'
}

/// The artifacts that hold path roots.
fn root_artifacts_exec(es: &Vec<RootArtifact>, root: &str, test_dir: &str) -> (r: Vec<usize>)
    ensures
        r@ == root_artifacts(es@, root@, test_dir@, es@.len() as int),
{
    let mut r: Vec<usize> = Vec::new();
    let mut k: usize = 0;
    while k < es.len()
        invariant
            k <= es@.len(),
            r@ == root_artifacts(es@, root@, test_dir@, k as int),
        decreases es@.len() - k,
    {
        match &es[k].source {
            Some(s) => {
                if !source_seen_exec(es, s, k) {
                    let rel = crate::resolver::relative_path(s.as_str(), root);
                    if !under_dir(rel.as_str(), test_dir) {
                        r.push(es[k].artifact);
                    }
                }
            },
            None => {},
        }
        k = k + 1;
    }
    r
}


/// Expand the root artifacts `arts`.
fn expand_roots_exec(
    p: &Program,
    arts: &Vec<usize>,
    target: &str,
    roots: &mut Vec<CallGraphNode>,
    keys: &mut Vec<Vec<(String, String, String)>>,
)
    requires
        p.wf(),
    ensures
        ({
            let found = expand_roots(*p, arts@, 0, target@, Found { roots: nodes_view(old(roots)@), keys: keys_view(old(keys)@) });
            nodes_view(final(roots)@) == found.roots && keys_view(final(keys)@) == found.keys
        }),
{
    let ghost total = expand_roots(*p, arts@, 0, target@, Found { roots: nodes_view(roots@), keys: keys_view(keys@) });
    let mut k: usize = 0;
    while k < arts.len()
        invariant
            p.wf(),
            k <= arts@.len(),
            total == expand_roots(*p, arts@, k as int, target@, Found { roots: nodes_view(roots@), keys: keys_view(keys@) }),
        decreases arts@.len() - k,
    {
        let a = arts[k];
        if a < p.artifacts.len() {
            expand_contracts_exec(p, a, target, roots, keys);
        } else {
            assert(expand_contracts(*p, a as int, Seq::empty(), 0, target@, Found { roots: nodes_view(roots@), keys: keys_view(keys@) })
                == Found { roots: nodes_view(roots@), keys: keys_view(keys@) });
        }
        k = k + 1;
    }
}

/// Positions as integers.
pub open spec fn idx_view(v: Seq<usize>) -> Seq<int> {
    v.map_values(|x: usize| x as int)
}

/// The positions of the walk's declarations that match the target.
fn matching_exec(p: &Program, w: &Walk, t: &FunctionTarget) -> (r: Vec<usize>)
    requires
        w.ok(*p),
    ensures
        idx_view(r@) == matching_idx(w.st(*p).funcs, (t.name@, opt_view(t.params)), w.st(*p).funcs.len() as int),
        forall|k: int| 0 <= k < r@.len() ==> #[trigger] r@[k] < w.st(*p).funcs.len(),
{
    let ghost fs = w.st(*p).funcs;
    let ghost tt = (t.name@, opt_view(t.params));
    let mut r: Vec<usize> = Vec::new();
    let mut i: usize = 0;
    while i < w.functions.len()
        invariant
            w.ok(*p),
            fs == w.st(*p).funcs,
            tt == (t.name@, opt_view(t.params)),
            i <= fs.len(),
            idx_view(r@) == matching_idx(fs, tt, i as int),
            forall|k: int| 0 <= k < r@.len() ==> #[trigger] r@[k] < i,
        decreases fs.len() - i,
    {
        let f = &p.artifacts[w.functions[i].0].functions[w.functions[i].1];
        if crate::call_graph::matches_target_exec(f, t) {
            let ghost r0 = r@;
            r.push(i);
            assert(idx_view(r@) =~= idx_view(r0).push(i as int));
        }
        i = i + 1;
    }
    r
}

/// The positions among `ts` whose declaration is not an interface's.
fn concrete_exec(p: &Program, w: &Walk, ts: &Vec<usize>) -> (r: Vec<usize>)
    requires
        w.ok(*p),
        forall|k: int| 0 <= k < ts@.len() ==> #[trigger] ts@[k] < w.st(*p).funcs.len(),
    ensures
        idx_view(r@) == concrete_idx(w.st(*p).funcs, idx_view(ts@), ts@.len() as int),
        forall|k: int| 0 <= k < r@.len() ==> #[trigger] r@[k] < w.st(*p).funcs.len(),
{
    let ghost fs = w.st(*p).funcs;
    let mut r: Vec<usize> = Vec::new();
    let mut i: usize = 0;
    while i < ts.len()
        invariant
            w.ok(*p),
            fs == w.st(*p).funcs,
            forall|k: int| 0 <= k < ts@.len() ==> #[trigger] ts@[k] < fs.len(),
            i <= ts@.len(),
            idx_view(r@) == concrete_idx(fs, idx_view(ts@), i as int),
            forall|k: int| 0 <= k < r@.len() ==> #[trigger] r@[k] < fs.len(),
        decreases ts@.len() - i,
    {
        let x = ts[i];
        assert(x < fs.len());
        let f = &p.artifacts[w.functions[x].0].functions[w.functions[x].1];
        assert(idx_view(ts@)[i as int] == x as int);
        if !f.is_interface {
            let ghost r0 = r@;
            r.push(x);
            assert(idx_view(r@) =~= idx_view(r0).push(x as int));
        }
        i = i + 1;
    }
    r
}

/// The positions among `cs` whose declaration belongs to contract `name`.
fn own_exec(p: &Program, w: &Walk, cs: &Vec<usize>, name: &str) -> (r: Vec<usize>)
    requires
        w.ok(*p),
        forall|k: int| 0 <= k < cs@.len() ==> #[trigger] cs@[k] < w.st(*p).funcs.len(),
    ensures
        idx_view(r@) == own_idx(w.st(*p).funcs, idx_view(cs@), name@, cs@.len() as int),
        forall|k: int| 0 <= k < r@.len() ==> #[trigger] r@[k] < w.st(*p).funcs.len(),
{
    let ghost fs = w.st(*p).funcs;
    let nv = chars_of(name);
    let mut r: Vec<usize> = Vec::new();
    let mut i: usize = 0;
    while i < cs.len()
        invariant
            w.ok(*p),
            fs == w.st(*p).funcs,
            nv@ == name@,
            forall|k: int| 0 <= k < cs@.len() ==> #[trigger] cs@[k] < fs.len(),
            i <= cs@.len(),
            idx_view(r@) == own_idx(fs, idx_view(cs@), name@, i as int),
            forall|k: int| 0 <= k < r@.len() ==> #[trigger] r@[k] < fs.len(),
        decreases cs@.len() - i,
    {
        let x = cs[i];
        assert(x < fs.len());
        let f = &p.artifacts[w.functions[x].0].functions[w.functions[x].1];
        assert(idx_view(cs@)[i as int] == x as int);
        let cv = chars_of(f.contract_name.as_str());
        if chars_eq(&cv, &nv) {
            let ghost r0 = r@;
            r.push(x);
            assert(idx_view(r@) =~= idx_view(r0).push(x as int));
        }
        i = i + 1;
    }
    r
}

/// The best-ranked of the positions `cs`.
fn best_among_exec(p: &Program, w: &Walk, cs: &Vec<usize>) -> (r: Option<usize>)
    requires
        w.ok(*p),
        forall|k: int| 0 <= k < cs@.len() ==> #[trigger] cs@[k] < w.st(*p).funcs.len(),
    ensures
        match r {
            Some(b) => best_among(w.st(*p).funcs, idx_view(cs@), w.order@, cs@.len() as int) == Some(b as int)
                && b < w.st(*p).funcs.len(),
            None => best_among(w.st(*p).funcs, idx_view(cs@), w.order@, cs@.len() as int) is None,
        },
{
    let ghost fs = w.st(*p).funcs;
    let mut best: Option<usize> = None;
    let mut i: usize = 0;
    while i < cs.len()
        invariant
            w.ok(*p),
            fs == w.st(*p).funcs,
            forall|k: int| 0 <= k < cs@.len() ==> #[trigger] cs@[k] < fs.len(),
            i <= cs@.len(),
            match best {
                Some(b) => best_among(fs, idx_view(cs@), w.order@, i as int) == Some(b as int) && b < fs.len(),
                None => best_among(fs, idx_view(cs@), w.order@, i as int) is None,
            },
        decreases cs@.len() - i,
    {
        let x = cs[i];
        assert(x < fs.len());
        assert(idx_view(cs@)[i as int] == x as int);
        let c = &p.artifacts[w.functions[x].0].functions[w.functions[x].1];
        match best {
            None => {
                best = Some(x);
            },
            Some(b) => {
                let bf = &p.artifacts[w.functions[b].0].functions[w.functions[b].1];
                if crate::call_walk::rank_lt_pub(&w.order, c, bf) {
                    best = Some(x);
                }
            },
        }
        i = i + 1;
    }
    best
}


/// Sort roots by signature (stably), copying them.
pub(crate) fn sort_roots(roots: &Vec<CallGraphNode>) -> (r: Vec<CallGraphNode>)
    ensures
        nodes_view(r@) == sorted_roots(nodes_view(roots@)),
{
    let ghost ns = nodes_view(roots@);
    proof {
        lemma_nodes_view_index(roots@);
    }
    let mut keys: Vec<Vec<u128>> = Vec::new();
    let mut i: usize = 0;
    while i < roots.len()
        invariant
            ns == nodes_view(roots@),
            ns.len() == roots@.len(),
            forall|j: int| 0 <= j < roots@.len() ==> #[trigger] ns[j] == node_view(roots@[j]),
            i <= roots@.len(),
            keys@.len() == i,
            forall|j: int| 0 <= j < i ==> (#[trigger] keys@[j])@ == signature_keys(ns)[j],
        decreases roots@.len() - i,
    {
        let mut k: Vec<u128> = Vec::new();
        push_text_key(&mut k, roots[i].signature.as_str(), false);
        assert(k@ =~= text_key(roots@[i as int].signature@, false));
        assert(ns[i as int] == node_view(roots@[i as int]));
        keys.push(k);
        i = i + 1;
    }
    assert(keys@.map_values(|k: Vec<u128>| k@) =~= signature_keys(ns));
    let o = key_order(&keys);
    let ghost sorted = sorted_roots(ns);
    let mut out: Vec<CallGraphNode> = Vec::new();
    let mut k: usize = 0;
    while k < o.len()
        invariant
            ns == nodes_view(roots@),
            ns.len() == roots@.len(),
            forall|j: int| 0 <= j < roots@.len() ==> #[trigger] ns[j] == node_view(roots@[j]),
            is_key_order(signature_keys(ns), o@),
            o@ == key_sorted_order(signature_keys(ns)),
            sorted == sorted_roots(ns),
            k <= o@.len(),
            nodes_view(out@) == sorted.take(k as int),
        decreases o@.len() - k,
    {
        assert(o@[k as int] < roots@.len());
        let c = copy_node(&roots[o[k]]);
        let ghost o0 = out@;
        out.push(c);
        proof {
            crate::call_walk::lemma_nodes_push(o0, c);
            assert(sorted.take(k + 1) =~= sorted.take(k as int).push(sorted[k as int]));
        }
        k = k + 1;
    }
    assert(sorted.take(o@.len() as int) =~= sorted);
    out
}

/// Find every external or public function of the project's non-test
/// contracts whose call tree reaches `target_function` in contract `name`
/// (artifact `artifact`): one root per distinct path, sorted by signature,
/// with where the target is defined. `entries` are the compiled artifacts,
/// each with the source its AST records; sources under `test_dir`
/// (relative to `project_root`) hold no roots.
pub fn find_call_paths(
    p: &Program,
    artifact: usize,
    name: &String,
    target_function: &str,
    entries: &Vec<RootArtifact>,
    project_root: &str,
    test_dir: &str,
) -> (r: Result<CallPaths, String>)
    requires
        p.wf(),
        artifact < p.artifacts@.len(),
    ensures
        call_paths_outcome(r, *p, artifact as int, *name, target_function@, entries@, project_root@, test_dir@),
{
    let w = start_walk(p, artifact, name);
    let ghost st = w.st(*p);
    let target = parse_function_target(target_function);
    let ghost t = target_spec(target_function@);
    let ts = matching_exec(p, &w, &target);
    if ts.len() == 0 {
        let mut msg = String::from_str("\"");
        push_str(&mut msg, target_function);
        push_str(&mut msg, "\" not found in \"");
        push_str(&mut msg, name.as_str());
        push_str(&mut msg, "\".");
        return Err(msg);
    }
    let cs = concrete_exec(p, &w, &ts);
    let os = own_exec(p, &w, &cs, name.as_str());
    let chosen: Option<usize> = if os.len() == 1 {
        Some(os[0])
    } else if os.len() == 0 && cs.len() == 1 {
        Some(cs[0])
    } else if os.len() == 0 && cs.len() == 0 && ts.len() == 1 {
        Some(ts[0])
    } else if os.len() == 0 && cs.len() > 1 {
        best_among_exec(p, &w, &cs)
    } else {
        None
    };
    proof {
        assert(idx_view(os@).len() == os@.len());
        assert(idx_view(cs@).len() == cs@.len());
        assert(idx_view(ts@).len() == ts@.len());
        if os.len() == 1 { assert(idx_view(os@)[0] == os@[0] as int); }
        if cs.len() == 1 { assert(idx_view(cs@)[0] == cs@[0] as int); }
        if ts.len() == 1 { assert(idx_view(ts@)[0] == ts@[0] as int); }
    }
    let i = match chosen {
        Some(i) => i,
        None => {
            let mut msg = String::from_str("\"");
            push_str(&mut msg, target_function);
            push_str(&mut msg, "\" has multiple overloads in \"");
            push_str(&mut msg, name.as_str());
            push_str(&mut msg, "\"; use the full signature.");
            return Err(msg);
        },
    };
    assert(i < st.funcs.len());
    let f = &p.artifacts[w.functions[i].0].functions[w.functions[i].1];
    let mut scoped = f.contract_name.clone();
    push_str(&mut scoped, "::");
    push_str(&mut scoped, target.name.as_str());
    match &target.params {
        Some(ps) => {
            push_str(&mut scoped, "(");
            push_str(&mut scoped, ps.as_str());
            push_str(&mut scoped, ")");
        },
        None => {},
    }
    assert(scoped@ =~= scoped_target_spec(st.funcs[i as int], t));
    let arts = root_artifacts_exec(entries, project_root, test_dir);
    let mut roots: Vec<CallGraphNode> = Vec::new();
    let mut keys: Vec<Vec<(String, String, String)>> = Vec::new();
    proof {
        assert(nodes_view(roots@) =~= Seq::<NodeSpec>::empty());
        assert(keys_view(keys@) =~= Seq::<Seq<(Seq<char>, Seq<char>, Seq<char>)>>::empty());
    }
    expand_roots_exec(p, &arts, scoped.as_str(), &mut roots, &mut keys);
    let sorted = sort_roots(&roots);
    let (target_file, target_src) = match find_target_source_in_roots(&sorted, scoped.as_str()) {
        Some(found) => found,
        None => {
            let mut src = decimal_exec(f.src_offset);
            push_str(&mut src, ":");
            let len = decimal_exec(f.src_length);
            push_str(&mut src, len.as_str());
            (f.file.clone(), src)
        },
    };
    Ok(CallPaths { roots: sorted, target_file, target_src, scoped_target: scoped })
}

/// The position of `path` among `paths`.
pub open spec fn path_position(paths: Seq<String>, path: Seq<char>) -> Option<int> {
    if exists|i: int| 0 <= i < paths.len() && (#[trigger] paths[i])@ == path {
        Some(choose|i: int| 0 <= i < paths.len() && (#[trigger] paths[i])@ == path && forall|j: int| 0 <= j < i ==> (#[trigger] paths[j])@ != path)
    } else {
        None
    }
}

/// The path an ID resolves to, if any: the first candidate when the name
/// alone is ambiguous.
pub open spec fn resolved_path(r: ResolvedV) -> Option<Seq<char>> {
    match r {
        ResolvedV::Single(p) => Some(p),
        ResolvedV::Ambiguous(c) => Some(c[0]),
        ResolvedV::NotFound => None,
    }
}

/// Call paths for an artifact ID: resolve it against the index (see
/// [`resolve_spec`]; `direct` is the path of `out/<file>/<name>.json` when
/// that file exists), then find the paths in the artifact it resolves to,
/// whose functions `p` holds at the same position as the artifact's path in
/// `paths`. An ID that resolves to no artifact gives the not-found message;
/// an artifact that `p` does not hold cannot be read, and the error names
/// its path.
pub fn find_call_paths_for_id(
    p: &Program,
    paths: &Vec<String>,
    index: &ArtifactIndex,
    name: &String,
    file: Option<&str>,
    direct: Option<String>,
    target_function: &str,
    entries: &Vec<RootArtifact>,
    project_root: &str,
    test_dir: &str,
) -> (r: Result<CallPaths, String>)
    requires
        p.wf(),
        paths@.len() == p.artifacts@.len(),
    ensures
        match resolved_path(resolve_spec(index.view_map(), name@, opt_str(file), opt_view(direct))) {
            None => r matches Err(e) && e@ == artifact_not_found_spec(name@),
            Some(path) => match path_position(paths@, path) {
                Some(a) => call_paths_outcome(r, *p, a, *name, target_function@, entries@, project_root@, test_dir@),
                None => r matches Err(e) && e@ == path,
            },
        },
{
    let path = match resolve_artifact(index, name.as_str(), file, direct) {
        Ok(x) => x,
        Err(e) => return Err(e),
    };
    let ghost res = resolved_path(resolve_spec(index.view_map(), name@, opt_str(file), opt_view(direct)));
    assert(res == Some(path@));
    let pv = chars_of(path.as_str());
    let mut i: usize = 0;
    while i < paths.len()
        invariant
            p.wf(),
            paths@.len() == p.artifacts@.len(),
            res == Some(path@),
            res == resolved_path(resolve_spec(index.view_map(), name@, opt_str(file), opt_view(direct))),
            i <= paths@.len(),
            pv@ == path@,
            forall|j: int| 0 <= j < i ==> (#[trigger] paths@[j])@ != path@,
        decreases paths@.len() - i,
    {
        if chars_eq(&chars_of(paths[i].as_str()), &pv) {
            proof {
                let a = path_position(paths@, path@);
                assert(paths@[i as int]@ == path@);
                let k = choose|k: int| 0 <= k < paths@.len() && (#[trigger] paths@[k])@ == path@ && forall|j: int| 0 <= j < k ==> (#[trigger] paths@[j])@ != path@;
                assert(k == i) by {
                    if k < i {
                        assert(paths@[k]@ != path@);
                    } else if k > i {
                        assert(paths@[i as int]@ != path@);
                    }
                }
                assert(a == Some(i as int));
            }
            return find_call_paths(p, i, name, target_function, entries, project_root, test_dir);
        }
        i = i + 1;
    }
    Err(path)
}

} // verus!
