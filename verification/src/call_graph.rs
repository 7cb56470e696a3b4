//! The call-graph view of one function: choose the declaration a target
//! names in a contract (with its inherited declarations), then build its
//! tree of calls.
use vstd::prelude::*;
use crate::artifact_index::{qualified_name, qualified_name_spec, source_match, ArtifactEntry, ArtifactIndex};
use crate::ast::{format_params, params_text, TypeStyle};
use crate::call_engine::{
    call_node, find_fn, fn_at, rank_lt, FunctionInfo, NodeSpec, Program, St, Walk, node_view,
};
use crate::call_inherit::{inherit, inherit_exec, load_contract_exec, load_contract_spec, names_view};
use crate::call_tree::CallGraphNode;
use crate::ids::{opt_view, parse_function_target, target_spec, FunctionTarget};
use crate::order::{is_stable_order, sorted_order, stable_order};
use crate::strings::{chars_eq, chars_of, decimal, decimal_exec, push_str};

verus! {

/// A declaration matches a target `(name, params)`: same name, and same
/// parameter types when the target gives them.
pub open spec fn matches_target_spec(f: FunctionInfo, t: (Seq<char>, Option<Seq<char>>)) -> bool {
    f.name@ == t.0 && match t.1 {
        Some(ps) => params_text(f.parameters@, TypeStyle::Full) == ps,
        None => true,
    }
}

/// The best-ranked declaration among `fs[0..i]` that matches the target.
pub open spec fn best_target(fs: Seq<FunctionInfo>, t: (Seq<char>, Option<Seq<char>>), order: Seq<String>, i: int) -> Option<int>
    decreases i,
{
    if i <= 0 || i > fs.len() {
        None
    } else {
        let prev = best_target(fs, t, order, i - 1);
        if matches_target_spec(fs[i - 1], t) {
            match prev {
                None => Some(i - 1),
                Some(b) => if rank_lt(fs[i - 1], fs[b], order) { Some(i - 1) } else { Some(b) },
            }
        } else {
            prev
        }
    }
}

/// The name used in a "not found" message: the queried contract when one
/// of its declarations is loaded, else the contract of the first loaded
/// declaration (empty when none is).
pub open spec fn contract_name_for(fs: Seq<FunctionInfo>, name: Seq<char>) -> Seq<char> {
    if exists|i: int| 0 <= i < fs.len() && (#[trigger] fs[i]).contract_name@ == name {
        name
    } else if fs.len() > 0 {
        fs[0].contract_name@
    } else {
        Seq::empty()
    }
}

/// The state a call tree starts from: the contract's declarations and those
/// it inherits, and its inheritance order.
pub open spec fn tree_start(p: Program, a: int, name: String) -> St {
    let st0 = St { funcs: load_contract_spec(p, Seq::empty(), a, name@), visited: Seq::empty(), order: seq![name], loaded: Seq::empty() };
    inherit(p, a, name@, Seq::empty(), st0).1
}

/// The declarations' paths, as sort keys.
pub open spec fn path_keys(es: Seq<ArtifactEntry>) -> Seq<Seq<char>> {
    es.map_values(|e: ArtifactEntry| e.path@)
}

/// The suggestion lines for the first `k` candidates in order `o`.
pub open spec fn suggestion_lines(es: Seq<ArtifactEntry>, o: Seq<usize>, contract: Seq<char>, function: Seq<char>, k: int) -> Seq<char>
    decreases k,
{
    if k <= 0 || k > o.len() {
        Seq::empty()
    } else {
        suggestion_lines(es, o, contract, function, k - 1) + "\nsolray inspect call-graph "@
            + qualified_name_spec(es[o[k - 1] as int], contract) + " "@ + function
    }
}

/// The message for a contract name that several artifacts define: the
/// count, then one suggestion per candidate sorted by artifact path.
pub open spec fn ambiguity_message_spec(es: Seq<ArtifactEntry>, contract: Seq<char>, function: Seq<char>) -> Seq<char> {
    let o = sorted_order(path_keys(es), true);
    "found "@ + decimal(es.len()) + " \""@ + contract + "\"\n\nSelect one of the following:\n"@
        + suggestion_lines(es, o, contract, function, o.len() as int) + "\n"@
}

/// The message for a target that the contract does not declare.
pub open spec fn not_found_message_spec(target: Seq<char>, contract: Seq<char>) -> Seq<char> {
    "\""@ + target + "\" not found in \""@ + contract + "\"."@
}

/// Format the message for a contract name that several artifacts define.
pub fn format_ambiguity_error(candidates: &Vec<ArtifactEntry>, contract_name: &str, function_name: &str) -> (r: String)
    ensures
        r@ == ambiguity_message_spec(candidates@, contract_name@, function_name@),
{
    let mut keys: Vec<Vec<char>> = Vec::new();
    let mut i: usize = 0;
    while i < candidates.len()
        invariant
            i <= candidates@.len(),
            keys@.len() == i,
            keys@.map_values(|k: Vec<char>| k@) == path_keys(candidates@).take(i as int),
        decreases candidates@.len() - i,
    {
        let kv = chars_of(candidates[i].path.as_str());
        let ghost before = keys@;
        keys.push(kv);
        assert(keys@ == before.push(kv));
        assert(keys@.map_values(|k: Vec<char>| k@)[i as int] == path_keys(candidates@)[i as int]);
        assert(keys@.map_values(|k: Vec<char>| k@) =~= path_keys(candidates@).take(i + 1));
        i = i + 1;
    }
    assert(path_keys(candidates@).take(candidates@.len() as int) =~= path_keys(candidates@));
    let order = stable_order(&keys, true);
    let ghost o = order@;
    let mut msg = String::from_str("found ");
    let n = decimal_exec(candidates.len());
    push_str(&mut msg, n.as_str());
    push_str(&mut msg, " \"");
    push_str(&mut msg, contract_name);
    push_str(&mut msg, "\"\n\nSelect one of the following:\n");
    let ghost head = msg@;
    let mut k: usize = 0;
    while k < order.len()
        invariant
            o == order@,
            is_stable_order(path_keys(candidates@), o, true),
            o.len() == candidates@.len(),
            k <= o.len(),
            msg@ == head + suggestion_lines(candidates@, o, contract_name@, function_name@, k as int),
        decreases o.len() - k,
    {
        let q = qualified_name(&candidates[order[k]], contract_name);
        push_str(&mut msg, "\nsolray inspect call-graph ");
        push_str(&mut msg, q.as_str());
        push_str(&mut msg, " ");
        push_str(&mut msg, function_name);
        assert(msg@ =~= head + suggestion_lines(candidates@, o, contract_name@, function_name@, k + 1));
        k = k + 1;
    }
    push_str(&mut msg, "\n");
    msg
}

/// Whether loaded declaration `f` matches target `t`.
pub(crate) fn matches_target_exec(f: &FunctionInfo, t: &FunctionTarget) -> (b: bool)
    ensures
        b == matches_target_spec(*f, (t.name@, opt_view(t.params))),
{
    let fname = chars_of(f.name.as_str());
    let tname = chars_of(t.name.as_str());
    if !chars_eq(&fname, &tname) {
        return false;
    }
    match &t.params {
        Some(ps) => {
            let fp = format_params(&f.parameters, TypeStyle::Full);
            let fpv = chars_of(fp.as_str());
            let pv = chars_of(ps.as_str());
            chars_eq(&fpv, &pv)
        },
        None => true,
    }
}

/// The contract name for a "not found" message.
fn contract_name_for_exec(p: &Program, w: &Walk, name: &str) -> (r: String)
    requires
        w.ok(*p),
    ensures
        r@ == contract_name_for(w.st(*p).funcs, name@),
{
    let ghost fs = w.st(*p).funcs;
    let nv = chars_of(name);
    let mut i: usize = 0;
    while i < w.functions.len()
        invariant
            w.ok(*p),
            fs == w.st(*p).funcs,
            nv@ == name@,
            i <= fs.len(),
            forall|j: int| 0 <= j < i ==> (#[trigger] fs[j]).contract_name@ != name@,
        decreases fs.len() - i,
    {
        let r = w.functions[i];
        let cv = chars_of(p.artifacts[r.0].functions[r.1].contract_name.as_str());
        if chars_eq(&cv, &nv) {
            assert(fs[i as int].contract_name@ == name@);
            return String::from_str(name);
        }
        i = i + 1;
    }
    if w.functions.len() > 0 {
        let r = w.functions[0];
        p.artifacts[r.0].functions[r.1].contract_name.clone()
    } else {
        String::new()
    }
}

/// A walk holding the declarations of contract `name` (artifact `a`) and
/// those it inherits, along its inheritance order.
pub fn start_walk(p: &Program, a: usize, name: &String) -> (w: Walk)
    requires
        p.wf(),
        a < p.artifacts@.len(),
    ensures
        w.ok(*p),
        w.st(*p) == tree_start(*p, a as int, *name),
        w.visited@.len() == 0,
{
    let mut w = Walk { functions: Vec::new(), visited: Vec::new(), order: Vec::new(), loaded: Vec::new() };
    w.order.push(name.clone());
    proof {
        assert(w.order@ == seq![*name]);
        assert(w.st(*p).funcs =~= Seq::<FunctionInfo>::empty());
    }
    load_contract_exec(p, &mut w, a, name.as_str());
    let mut vis: Vec<String> = Vec::new();
    proof {
        assert(names_view(vis@) =~= Seq::<Seq<char>>::empty());
    }
    inherit_exec(p, a, name.as_str(), &mut vis, &mut w);
    w
}

/// Build the call tree of the function `raw_target` names in contract
/// `contract_name`, whose artifact is `artifact`. Without a matching
/// declaration the error names the contract, or lists the `candidates`
/// artifacts when several define the contract name.
pub fn build_call_tree(
    p: &Program,
    artifact: usize,
    contract_name: &String,
    raw_target: &str,
    candidates: Option<&Vec<ArtifactEntry>>,
) -> (r: Result<CallGraphNode, String>)
    requires
        p.wf(),
        artifact < p.artifacts@.len(),
    ensures
        ({
            let st = tree_start(*p, artifact as int, *contract_name);
            match best_target(st.funcs, target_spec(raw_target@), st.order, st.funcs.len() as int) {
                Some(j) => r matches Ok(n) && node_view(n) == call_node(*p, st, st.funcs[j].id).0,
                None => r matches Err(e) && e@ == match candidates {
                    Some(c) => ambiguity_message_spec(c@, contract_name@, raw_target@),
                    None => not_found_message_spec(raw_target@, contract_name_for(st.funcs, contract_name@)),
                },
            }
        }),
{
    let mut w = Walk { functions: Vec::new(), visited: Vec::new(), order: Vec::new(), loaded: Vec::new() };
    w.order.push(contract_name.clone());
    proof {
        assert(w.order@ == seq![*contract_name]);
        assert(w.st(*p).funcs =~= Seq::<FunctionInfo>::empty());
    }
    load_contract_exec(p, &mut w, artifact, contract_name.as_str());
    let mut vis: Vec<String> = Vec::new();
    proof {
        assert(names_view(vis@) =~= Seq::<Seq<char>>::empty());
    }
    inherit_exec(p, artifact, contract_name.as_str(), &mut vis, &mut w);
    let ghost st = w.st(*p);
    proof {
        assert(st == tree_start(*p, artifact as int, *contract_name));
    }
    let target = parse_function_target(raw_target);
    let mut best: Option<usize> = None;
    let mut k: usize = 0;
    while k < w.functions.len()
        invariant
            w.ok(*p),
            st == w.st(*p),
            target.name@ == target_spec(raw_target@).0,
            opt_view(target.params) == target_spec(raw_target@).1,
            k <= st.funcs.len(),
            match best {
                Some(b) => best_target(st.funcs, target_spec(raw_target@), st.order, k as int) == Some(b as int) && b < k,
                None => best_target(st.funcs, target_spec(raw_target@), st.order, k as int) is None,
            },
        decreases st.funcs.len() - k,
    {
        let c = &p.artifacts[w.functions[k].0].functions[w.functions[k].1];
        if matches_target_exec(c, &target) {
            match best {
                None => {
                    best = Some(k);
                },
                Some(b) => {
                    let bf = &p.artifacts[w.functions[b].0].functions[w.functions[b].1];
                    if crate::call_walk::rank_lt_pub(&w.order, c, bf) {
                        best = Some(k);
                    }
                },
            }
        }
        k = k + 1;
    }
    match best {
        Some(b) => {
            let id = p.artifacts[w.functions[b].0].functions[w.functions[b].1].id;
            proof {
                crate::call_walk::lemma_find_fn_some(st.funcs, b as int, 0);
            }
            let n = crate::call_walk::call_node_pub(p, &mut w, id);
            Ok(n)
        },
        None => match candidates {
            Some(c) => Err(format_ambiguity_error(c, contract_name.as_str(), raw_target)),
            None => {
                let cn = contract_name_for_exec(p, &w, contract_name.as_str());
                let mut msg = String::from_str("\"");
                push_str(&mut msg, raw_target);
                push_str(&mut msg, "\" not found in \"");
                push_str(&mut msg, cn.as_str());
                push_str(&mut msg, "\".");
                Err(msg)
            },
        },
    }
}

// ---------------------------------------------------------------------------
// Resolving artifact IDs
// ---------------------------------------------------------------------------

/// How an artifact ID resolves: to one artifact, to several (by name alone),
/// or to none.
#[derive(Debug)]
pub enum ResolvedPath {
    Single(String),
    Ambiguous(Vec<String>),
    NotFound,
}

/// [`ResolvedPath`] in spec form.
pub enum ResolvedV {
    Single(Seq<char>),
    Ambiguous(Seq<Seq<char>>),
    NotFound,
}

pub open spec fn resolved_view(r: ResolvedPath) -> ResolvedV {
    match r {
        ResolvedPath::Single(p) => ResolvedV::Single(p@),
        ResolvedPath::Ambiguous(c) => ResolvedV::Ambiguous(c@.map_values(|s: String| s@)),
        ResolvedPath::NotFound => ResolvedV::NotFound,
    }
}

/// The artifact paths listed under `name`.
pub open spec fn candidate_paths(m: Map<Seq<char>, Seq<ArtifactEntry>>, name: Seq<char>) -> Seq<Seq<char>> {
    if m.contains_key(name) {
        m[name].map_values(|e: ArtifactEntry| e.path@)
    } else {
        Seq::empty()
    }
}

/// How an ID resolves in an index. With a file, the artifact at
/// `out/<file>/<name>.json` when it exists (`direct`), else the first listed
/// under `name` whose recorded source is the file; by name alone, the
/// artifacts listed under the name: none, one, or several.
pub open spec fn resolve_spec(
    m: Map<Seq<char>, Seq<ArtifactEntry>>,
    name: Seq<char>,
    file: Option<Seq<char>>,
    direct: Option<Seq<char>>,
) -> ResolvedV {
    match file {
        Some(f) => match direct {
            Some(d) => ResolvedV::Single(d),
            None => match source_match(m, name, f) {
                Some(p) => ResolvedV::Single(p),
                None => ResolvedV::NotFound,
            },
        },
        None => {
            let c = candidate_paths(m, name);
            if c.len() == 0 {
                ResolvedV::NotFound
            } else if c.len() == 1 {
                ResolvedV::Single(c[0])
            } else {
                ResolvedV::Ambiguous(c)
            }
        },
    }
}

pub open spec fn opt_str(o: Option<&str>) -> Option<Seq<char>> {
    match o {
        Some(s) => Some(s@),
        None => None,
    }
}

/// The message for an ID that resolves to no artifact.
pub open spec fn artifact_not_found_spec(name: Seq<char>) -> Seq<char> {
    "\""@ + name + "\" not found."@
}

/// Resolve an artifact ID (`name`, with its source `file` when the ID is
/// file-qualified) against the index; `direct` is the path of the artifact
/// at `out/<file>/<name>.json` when that file exists.
pub fn resolve_artifact_path(index: &ArtifactIndex, name: &str, file: Option<&str>, direct: Option<String>) -> (r: ResolvedPath)
    ensures
        resolved_view(r) == resolve_spec(index.view_map(), name@, opt_str(file), opt_view(direct)),
{
    match file {
        Some(f) => match direct {
            Some(d) => ResolvedPath::Single(d),
            None => match index.find_by_source_path(f, name) {
                Some(p) => ResolvedPath::Single(p),
                None => ResolvedPath::NotFound,
            },
        },
        None => {
            let mut paths: Vec<String> = Vec::new();
            match index.get(name) {
                Some(list) => {
                    let mut i: usize = 0;
                    while i < list.len()
                        invariant
                            i <= list@.len(),
                            index.view_map().contains_key(name@),
                            list@ == index.view_map()[name@],
                            paths@.map_values(|s: String| s@) == list@.take(i as int).map_values(|e: ArtifactEntry| e.path@),
                        decreases list@.len() - i,
                    {
                        let ghost before = paths@.map_values(|s: String| s@);
                        paths.push(list[i].path.clone());
                        assert(paths@.map_values(|s: String| s@) =~= before.push(list@[i as int].path@));
                        assert(list@.take(i + 1) =~= list@.take(i as int).push(list@[i as int]));
                        assert(list@.take(i + 1).map_values(|e: ArtifactEntry| e.path@)
                            =~= list@.take(i as int).map_values(|e: ArtifactEntry| e.path@).push(list@[i as int].path@));
                        i = i + 1;
                    }
                    assert(list@.take(list@.len() as int) =~= list@);
                },
                None => {},
            }
            let ghost c = candidate_paths(index.view_map(), name@);
            assert(paths@.map_values(|s: String| s@) =~= c);
            if paths.len() == 0 {
                ResolvedPath::NotFound
            } else if paths.len() == 1 {
                let p = paths.pop().unwrap();
                ResolvedPath::Single(p)
            } else {
                ResolvedPath::Ambiguous(paths)
            }
        },
    }
}

fn not_found_error(name: &str) -> (e: String)
    ensures
        e@ == artifact_not_found_spec(name@),
{
    let mut e = String::from_str("\"");
    push_str(&mut e, name);
    push_str(&mut e, "\" not found.");
    e
}

/// Resolve an artifact ID to one artifact path: the first candidate when
/// the name alone is ambiguous, the not-found message when none matches.
pub fn resolve_artifact(index: &ArtifactIndex, name: &str, file: Option<&str>, direct: Option<String>) -> (r: Result<String, String>)
    ensures
        match resolve_spec(index.view_map(), name@, opt_str(file), opt_view(direct)) {
            ResolvedV::Single(p) => r matches Ok(x) && x@ == p,
            ResolvedV::Ambiguous(c) => r matches Ok(x) && x@ == c[0],
            ResolvedV::NotFound => r matches Err(e) && e@ == artifact_not_found_spec(name@),
        },
{
    match resolve_artifact_path(index, name, file, direct) {
        ResolvedPath::Single(p) => Ok(p),
        ResolvedPath::Ambiguous(mut c) => {
            assert(c@.map_values(|s: String| s@)[0] == c@[0]@);
            Ok(c.swap_remove(0))
        },
        ResolvedPath::NotFound => Err(not_found_error(name)),
    }
}

/// Resolve an artifact ID to its path and, when the name alone is ambiguous,
/// all the candidates (the path is then the first of them).
pub fn resolve_artifact_with_candidates(
    index: &ArtifactIndex,
    name: &str,
    file: Option<&str>,
    direct: Option<String>,
) -> (r: Result<(String, Option<Vec<String>>), String>)
    ensures
        match resolve_spec(index.view_map(), name@, opt_str(file), opt_view(direct)) {
            ResolvedV::Single(p) => r matches Ok((x, None)) && x@ == p,
            ResolvedV::Ambiguous(c) => r matches Ok((x, Some(cs))) && x@ == c[0] && cs@.map_values(|s: String| s@) == c,
            ResolvedV::NotFound => r matches Err(e) && e@ == artifact_not_found_spec(name@),
        },
{
    match resolve_artifact_path(index, name, file, direct) {
        ResolvedPath::Single(p) => Ok((p, None)),
        ResolvedPath::Ambiguous(c) => {
            let first = c[0].clone();
            assert(c@.map_values(|s: String| s@)[0] == c@[0]@);
            Ok((first, Some(c)))
        },
        ResolvedPath::NotFound => Err(not_found_error(name)),
    }
}

} // verus!
