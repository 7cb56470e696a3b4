//! The resolver's call graph of a `Contract::function` ID: the contract's
//! artifact is loaded, the function chosen, and the plain walk follows the
//! calls, loading further artifacts in index order on demand.
use vstd::prelude::*;
use crate::call_engine::{
    call_node, find_fn, load_artifact_spec, node_view, nodes_view, Dialect, FunctionInfo,
    NodeSpec, Program, St, Walk,
};
use crate::call_tree;
use crate::ast::{format_params, params_text, TypeStyle};
use crate::ids::{function_id_parts, invalid_function_id_message, FunctionID};
use crate::node;
use crate::strings::{chars_eq, chars_of, decimal, decimal_exec, push_str};

verus! {

/// The specification value of a resolver node.
pub open spec fn plain_view(n: node::CallGraphNode) -> NodeSpec
    decreases n,
{
    NodeSpec {
        signature: n.signature@,
        contract_name: n.contract_name@,
        file: n.file@,
        visibility: n.visibility@,
        src: n.src@,
        children: plain_views(n.children@),
    }
}

/// The specification values of a list of resolver nodes.
pub open spec fn plain_views(ns: Seq<node::CallGraphNode>) -> Seq<NodeSpec>
    decreases ns,
{
    if ns.len() == 0 {
        Seq::empty()
    } else {
        plain_views(ns.drop_last()).push(plain_view(ns.last()))
    }
}

/// The same tree as a resolver node.
pub fn plain_node(n: &call_tree::CallGraphNode) -> (r: node::CallGraphNode)
    ensures
        plain_view(r) == node_view(*n),
    decreases n,
{
    let mut children: Vec<node::CallGraphNode> = Vec::new();
    let mut i: usize = 0;
    while i < n.children.len()
        invariant
            i <= n.children@.len(),
            plain_views(children@) == nodes_view(n.children@.take(i as int)),
        decreases n.children@.len() - i,
    {
        proof {
            assert(decreases_to!(*n => n.children@[i as int]));
        }
        let c = plain_node(&n.children[i]);
        let ghost before = children@;
        children.push(c);
        proof {
            assert(children@.drop_last() =~= before);
            assert(n.children@.take(i + 1).drop_last() =~= n.children@.take(i as int));
        }
        i = i + 1;
    }
    assert(n.children@.take(n.children@.len() as int) == n.children@);
    node::CallGraphNode::new(
        n.signature.as_str(),
        n.contract_name.as_str(),
        n.file.clone(),
        n.visibility.as_str(),
        n.src.as_str(),
        children,
    )
}

/// The positions of the target candidates among `fs[0..k]`: declarations of
/// function `f` in contract `c`, the first one of each file.
pub open spec fn plain_targets(fs: Seq<FunctionInfo>, c: Seq<char>, f: Seq<char>, k: int) -> Seq<int>
    decreases k,
{
    if k <= 0 || k > fs.len() {
        Seq::empty()
    } else {
        let prev = plain_targets(fs, c, f, k - 1);
        let x = fs[k - 1];
        if x.contract_name@ == c && x.name@ == f && !(exists|j: int| 0 <= j < prev.len() && fs[prev[j]].file@ == x.file@) {
            prev.push(k - 1)
        } else {
            prev
        }
    }
}

/// `path` relative to `root`: without `root/` in front when it starts with
/// it (empty when it is `root`), else unchanged.
pub open spec fn relative_spec(path: Seq<char>, root: Seq<char>) -> Seq<char> {
    if root.len() > 0 && path == root {
        Seq::empty()
    } else if root.len() > 0 && root.len() < path.len() && path.subrange(0, root.len() as int) == root
        && path[root.len() as int] == '/' {
        path.subrange(root.len() as int + 1, path.len() as int)
    } else {
        path
    }
}

/// The suggestion lines for the first `k` artifacts of an ambiguous name.
pub open spec fn entry_lines(paths: Seq<String>, root: Seq<char>, fid: Seq<char>, k: int) -> Seq<char>
    decreases k,
{
    if k <= 0 || k > paths.len() {
        Seq::empty()
    } else {
        entry_lines(paths, root, fid, k - 1) + "\nhawk inspect calls "@ + relative_spec(paths[k - 1]@, root) + ":"@ + fid
    }
}

/// The suggestion lines for the first `k` target candidates.
pub open spec fn target_lines(fs: Seq<FunctionInfo>, ts: Seq<int>, k: int) -> Seq<char>
    decreases k,
{
    if k <= 0 || k > ts.len() {
        Seq::empty()
    } else {
        let x = fs[ts[k - 1]];
        target_lines(fs, ts, k - 1) + "\nhawk inspect calls \""@ + x.contract_name@ + "::"@ + x.name@ + "("@
            + params_text(x.parameters@, TypeStyle::Plain) + ")\""@
    }
}

/// What resolving `fid` gives, when `artifacts` (with their `paths`) are
/// the artifacts that define its contract.
pub open spec fn resolve_spec(p: Program, fid: Seq<char>, artifacts: Seq<usize>, paths: Seq<String>, root: Seq<char>) -> Result<NodeSpec, Seq<char>> {
    match function_id_parts(fid) {
        None => Err(invalid_function_id_message(fid)),
        Some((c, f)) => if artifacts.len() == 0 {
            Err("\""@ + c + "\" not found."@)
        } else if artifacts.len() > 1 {
            Err("found "@ + decimal(artifacts.len()) + " \""@ + c + "\"\n\nSelect one of the following:\n"@
                + entry_lines(paths, root, fid, paths.len() as int) + "\n"@)
        } else {
            let fs = load_artifact_spec(p, Seq::empty(), artifacts[0] as int);
            let ts = plain_targets(fs, c, f, fs.len() as int);
            if ts.len() == 0 {
                Err("\""@ + f + "\" not found in \""@ + c + "\"."@)
            } else if ts.len() > 1 {
                Err("found "@ + decimal(ts.len()) + " \""@ + fid + "\"\n\nSelect one of the following:\n"@
                    + target_lines(fs, ts, ts.len() as int) + "\n"@)
            } else {
                let st = St { funcs: fs, visited: Seq::empty(), order: Seq::empty(), loaded: seq![artifacts[0]] };
                Ok(call_node(p, st, fs[ts[0]].id).0)
            }
        },
    }
}

/// `path` relative to `root`.
pub fn relative_path(path: &str, root: &str) -> (r: String)
    ensures
        r@ == relative_spec(path@, root@),
{
    let pv = chars_of(path);
    let rv = chars_of(root);
    if rv.len() > 0 && chars_eq(&pv, &rv) {
        return String::new();
    }
    if rv.len() > 0 && rv.len() < pv.len() && crate::strings::range_eq(&pv, 0, rv.len(), &rv) && pv[rv.len()] == '/' {
        return crate::strings::string_of_range(&pv, rv.len() + 1, pv.len());
    }
    String::from_str(path)
}

/// The positions of the target candidates of function `f` in contract `c`
/// among the walk's declarations.
fn plain_targets_exec(p: &Program, w: &Walk, c: &str, f: &str) -> (targets: Vec<usize>)
    requires
        w.ok(*p),
    ensures
        targets@.map_values(|t: usize| t as int) == plain_targets(w.st(*p).funcs, c@, f@, w.st(*p).funcs.len() as int),
        forall|j: int| 0 <= j < targets@.len() ==> #[trigger] targets@[j] < w.st(*p).funcs.len(),
{
    let ghost fs = w.st(*p).funcs;
    let cv = chars_of(c);
    let fv = chars_of(f);
    let mut targets: Vec<usize> = Vec::new();
    let mut k: usize = 0;
    while k < w.functions.len()
        invariant
            w.ok(*p),
            fs == w.st(*p).funcs,
            cv@ == c@,
            fv@ == f@,
            k <= fs.len(),
            targets@.map_values(|t: usize| t as int) == plain_targets(fs, cv@, fv@, k as int),
            forall|j: int| 0 <= j < targets@.len() ==> #[trigger] targets@[j] < k,
        decreases fs.len() - k,
    {
        let r = w.functions[k];
        let x = &p.artifacts[r.0].functions[r.1];
        let xc = chars_of(x.contract_name.as_str());
        let xn = chars_of(x.name.as_str());
        if chars_eq(&xc, &cv) && chars_eq(&xn, &fv) {
            let xf = chars_of(x.file.as_str());
            let mut seen = false;
            let mut j: usize = 0;
            while j < targets.len()
                invariant
                    w.ok(*p),
                    fs == w.st(*p).funcs,
                    j <= targets@.len(),
                    forall|q: int| 0 <= q < targets@.len() ==> #[trigger] targets@[q] < k,
                    k < fs.len(),
                    xf@ == fs[k as int].file@,
                    seen == exists|q: int| 0 <= q < j && fs[targets@[q] as int].file@ == xf@,
                decreases targets@.len() - j,
            {
                let t = w.functions[targets[j]];
                let tf = chars_of(p.artifacts[t.0].functions[t.1].file.as_str());
                if chars_eq(&tf, &xf) {
                    seen = true;
                }
                j = j + 1;
            }
            let ghost prev = targets@.map_values(|t: usize| t as int);
            proof {
                assert(seen == exists|q: int| 0 <= q < prev.len() && fs[prev[q]].file@ == fs[k as int].file@) by {
                    if seen {
                        let q = choose|q: int| 0 <= q < targets@.len() && fs[targets@[q] as int].file@ == xf@;
                        assert(prev[q] == targets@[q] as int);
                    }
                    if exists|q: int| 0 <= q < prev.len() && fs[prev[q]].file@ == fs[k as int].file@ {
                        let q = choose|q: int| 0 <= q < prev.len() && fs[prev[q]].file@ == fs[k as int].file@;
                        assert(prev[q] == targets@[q] as int);
                    }
                }
            }
            if !seen {
                targets.push(k);
                assert(targets@.map_values(|t: usize| t as int) =~= prev.push(k as int));
            }
        }
        k = k + 1;
    }
    targets
}

/// The message for several target candidates.
fn targets_message(p: &Program, w: &Walk, targets: &Vec<usize>, function_id: &str) -> (msg: String)
    requires
        w.ok(*p),
        forall|j: int| 0 <= j < targets@.len() ==> #[trigger] targets@[j] < w.st(*p).funcs.len(),
    ensures
        msg@ == "found "@ + decimal(targets@.len()) + " \""@ + function_id@ + "\"\n\nSelect one of the following:\n"@
            + target_lines(w.st(*p).funcs, targets@.map_values(|t: usize| t as int), targets@.len() as int) + "\n"@,
{
    let ghost fs = w.st(*p).funcs;
    let ghost ts = targets@.map_values(|t: usize| t as int);
    let mut msg = String::from_str("found ");
    let n = decimal_exec(targets.len());
    push_str(&mut msg, n.as_str());
    push_str(&mut msg, " \"");
    push_str(&mut msg, function_id);
    push_str(&mut msg, "\"\n\nSelect one of the following:\n");
    let ghost head = msg@;
    let mut q: usize = 0;
    while q < targets.len()
        invariant
            w.ok(*p),
            fs == w.st(*p).funcs,
            ts == targets@.map_values(|t: usize| t as int),
            forall|j: int| 0 <= j < targets@.len() ==> #[trigger] targets@[j] < fs.len(),
            q <= targets@.len(),
            msg@ == head + target_lines(fs, ts, q as int),
        decreases targets@.len() - q,
    {
        let t = w.functions[targets[q]];
        let x = &p.artifacts[t.0].functions[t.1];
        push_str(&mut msg, "\nhawk inspect calls \"");
        push_str(&mut msg, x.contract_name.as_str());
        push_str(&mut msg, "::");
        push_str(&mut msg, x.name.as_str());
        push_str(&mut msg, "(");
        let ps = format_params(&x.parameters, TypeStyle::Plain);
        push_str(&mut msg, ps.as_str());
        push_str(&mut msg, ")\"");
        assert(ts[q as int] == targets@[q as int] as int);
        assert(msg@ =~= head + target_lines(fs, ts, q + 1));
        q = q + 1;
    }
    push_str(&mut msg, "\n");
    msg
}

/// Resolve the call graph of the function `function_id` names. `artifacts`
/// are the program's artifacts that define its contract and `paths` their
/// artifact paths, shown relative to `project_root` when the name is
/// ambiguous.
pub fn resolve(
    p: &Program,
    function_id: &str,
    artifacts: &Vec<usize>,
    paths: &Vec<String>,
    project_root: &str,
) -> (r: Result<node::CallGraphNode, String>)
    requires
        p.wf(),
        p.dialect == Dialect::Plain,
        paths@.len() == artifacts@.len(),
        forall|i: int| 0 <= i < artifacts@.len() ==> #[trigger] artifacts@[i] < p.artifacts@.len(),
    ensures
        match resolve_spec(*p, function_id@, artifacts@, paths@, project_root@) {
            Ok(n) => r matches Ok(x) && plain_view(x) == n,
            Err(m) => r matches Err(e) && e@ == m,
        },
{
    let fid = match FunctionID::try_from(function_id) {
        Ok(f) => f,
        Err(e) => {
            return Err(e.to_string());
        },
    };
    let c = fid.contract_name();
    let f = fid.function_name();
    if artifacts.len() == 0 {
        let mut msg = String::from_str("\"");
        push_str(&mut msg, c);
        push_str(&mut msg, "\" not found.");
        return Err(msg);
    }
    if artifacts.len() > 1 {
        let mut msg = String::from_str("found ");
        let n = decimal_exec(artifacts.len());
        push_str(&mut msg, n.as_str());
        push_str(&mut msg, " \"");
        push_str(&mut msg, c);
        push_str(&mut msg, "\"\n\nSelect one of the following:\n");
        let ghost head = msg@;
        let mut k: usize = 0;
        while k < paths.len()
            invariant
                k <= paths@.len(),
                msg@ == head + entry_lines(paths@, project_root@, function_id@, k as int),
            decreases paths@.len() - k,
        {
            let rp = relative_path(paths[k].as_str(), project_root);
            push_str(&mut msg, "\nhawk inspect calls ");
            push_str(&mut msg, rp.as_str());
            push_str(&mut msg, ":");
            push_str(&mut msg, function_id);
            assert(msg@ =~= head + entry_lines(paths@, project_root@, function_id@, k + 1));
            k = k + 1;
        }
        push_str(&mut msg, "\n");
        return Err(msg);
    }
    let a = artifacts[0];
    let mut w = Walk { functions: Vec::new(), visited: Vec::new(), order: Vec::new(), loaded: Vec::new() };
    proof {
        assert(w.st(*p).funcs =~= Seq::<FunctionInfo>::empty());
    }
    crate::call_walk::load_artifact_pub(p, &mut w, a);
    w.loaded.push(a);
    let ghost fs = w.st(*p).funcs;
    let targets = plain_targets_exec(p, &w, c, f);
    let ghost ts = plain_targets(fs, c@, f@, fs.len() as int);
    if targets.len() == 0 {
        let mut msg = String::from_str("\"");
        push_str(&mut msg, f);
        push_str(&mut msg, "\" not found in \"");
        push_str(&mut msg, c);
        push_str(&mut msg, "\".");
        return Err(msg);
    }
    if targets.len() > 1 {
        return Err(targets_message(p, &w, &targets, function_id));
    }
    let t = w.functions[targets[0]];
    let id = p.artifacts[t.0].functions[t.1].id;
    proof {
        assert(ts[0] == targets@[0] as int);
        crate::call_walk::lemma_find_fn_some(fs, targets@[0] as int, 0);
        assert(w.st(*p) == St { funcs: fs, visited: Seq::empty(), order: Seq::empty(), loaded: seq![a] });
    }
    let n = crate::call_walk::call_node_pub(p, &mut w, id);
    Ok(plain_node(&n))
}


/// A walk with the functions of artifacts `0..k` loaded, in order.
pub open spec fn preload(p: Program, k: int) -> St
    decreases k,
{
    if k <= 0 {
        St { funcs: Seq::empty(), visited: Seq::empty(), order: Seq::empty(), loaded: Seq::empty() }
    } else {
        let s = preload(p, k - 1);
        St { funcs: load_artifact_spec(p, s.funcs, k - 1), visited: Seq::empty(), order: Seq::empty(), loaded: s.loaded.push((k - 1) as usize) }
    }
}

/// What the loader's call graph of `fid` gives, when `paths` are the
/// artifacts whose file is named after its contract: every artifact's
/// implemented functions are loaded before the walk starts.
pub open spec fn loader_spec(p: Program, fid: Seq<char>, paths: Seq<String>, root: Seq<char>) -> Result<NodeSpec, Seq<char>> {
    match function_id_parts(fid) {
        None => Err(invalid_function_id_message(fid)),
        Some((c, f)) => if paths.len() == 0 {
            Err("\""@ + c + "\" not found."@)
        } else if paths.len() > 1 {
            Err("found "@ + decimal(paths.len()) + " \""@ + c + "\"\n\nSelect one of the following:\n"@
                + entry_lines(paths, root, fid, paths.len() as int) + "\n"@)
        } else {
            let st = preload(p, p.artifacts@.len() as int);
            let fs = st.funcs;
            let ts = plain_targets(fs, c, f, fs.len() as int);
            if ts.len() == 0 {
                Err("\""@ + f + "\" not found in \""@ + c + "\"."@)
            } else if ts.len() > 1 {
                Err("found "@ + decimal(ts.len()) + " \""@ + fid + "\"\n\nSelect one of the following:\n"@
                    + target_lines(fs, ts, ts.len() as int) + "\n"@)
            } else {
                Ok(call_node(p, st, fs[ts[0]].id).0)
            }
        },
    }
}

/// The call graph of the function `function_id` names, walked over every
/// artifact's implemented functions loaded up front; `paths` are the
/// artifacts named after its contract, shown relative to `project_root`
/// when there are several.
pub fn loader_call_graph(p: &Program, function_id: &str, paths: &Vec<String>, project_root: &str) -> (r: Result<
    node::CallGraphNode,
    String,
>)
    requires
        p.wf(),
        p.dialect == Dialect::Plain,
    ensures
        match loader_spec(*p, function_id@, paths@, project_root@) {
            Ok(n) => r matches Ok(x) && plain_view(x) == n,
            Err(m) => r matches Err(e) && e@ == m,
        },
{
    let fid = match FunctionID::try_from(function_id) {
        Ok(f) => f,
        Err(e) => {
            return Err(e.to_string());
        },
    };
    let c = fid.contract_name();
    let f = fid.function_name();
    if paths.len() == 0 {
        let mut msg = String::from_str("\"");
        push_str(&mut msg, c);
        push_str(&mut msg, "\" not found.");
        return Err(msg);
    }
    if paths.len() > 1 {
        let mut msg = String::from_str("found ");
        let n = decimal_exec(paths.len());
        push_str(&mut msg, n.as_str());
        push_str(&mut msg, " \"");
        push_str(&mut msg, c);
        push_str(&mut msg, "\"\n\nSelect one of the following:\n");
        let ghost head = msg@;
        let mut k: usize = 0;
        while k < paths.len()
            invariant
                k <= paths@.len(),
                msg@ == head + entry_lines(paths@, project_root@, function_id@, k as int),
            decreases paths@.len() - k,
        {
            let rp = relative_path(paths[k].as_str(), project_root);
            push_str(&mut msg, "\nhawk inspect calls ");
            push_str(&mut msg, rp.as_str());
            push_str(&mut msg, ":");
            push_str(&mut msg, function_id);
            assert(msg@ =~= head + entry_lines(paths@, project_root@, function_id@, k + 1));
            k = k + 1;
        }
        push_str(&mut msg, "\n");
        return Err(msg);
    }
    let mut w = Walk { functions: Vec::new(), visited: Vec::new(), order: Vec::new(), loaded: Vec::new() };
    proof {
        assert(w.st(*p).funcs =~= Seq::<FunctionInfo>::empty());
        assert(w.st(*p) == preload(*p, 0));
    }
    let mut a: usize = 0;
    while a < p.artifacts.len()
        invariant
            p.wf(),
            w.ok(*p),
            a <= p.artifacts@.len(),
            w.st(*p) == preload(*p, a as int),
        decreases p.artifacts@.len() - a,
    {
        crate::call_walk::load_artifact_pub(p, &mut w, a);
        w.loaded.push(a);
        assert(w.st(*p) == preload(*p, a + 1));
        a = a + 1;
    }
    let ghost st = w.st(*p);
    let ghost fs = st.funcs;
    let targets = plain_targets_exec(p, &w, c, f);
    let ghost ts = plain_targets(fs, c@, f@, fs.len() as int);
    if targets.len() == 0 {
        let mut msg = String::from_str("\"");
        push_str(&mut msg, f);
        push_str(&mut msg, "\" not found in \"");
        push_str(&mut msg, c);
        push_str(&mut msg, "\".");
        return Err(msg);
    }
    if targets.len() > 1 {
        return Err(targets_message(p, &w, &targets, function_id));
    }
    let t = w.functions[targets[0]];
    let id = p.artifacts[t.0].functions[t.1].id;
    proof {
        assert(ts[0] == targets@[0] as int);
        crate::call_walk::lemma_find_fn_some(fs, targets@[0] as int, 0);
    }
    let n = crate::call_walk::call_node_pub(p, &mut w, id);
    Ok(plain_node(&n))
}

} // verus!
