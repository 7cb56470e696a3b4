//! The compact call-path view: the external and public functions of a
//! contract's inheritance chain (within its artifact) whose call trees reach
//! a target, each shown as the single line of calls that leads there.
use vstd::prelude::*;
use crate::ast::Visibility;
use crate::call_engine::{
    call_node, has_id, kept, lemma_find_fn_has, load_artifact_spec, nodes_view, src_spec, ContractBases, FunctionInfo, NodeSpec,
    Program, St, Walk,
};
use crate::call_inherit::{lemma_names_unvisited_mono, names_unvisited};
use crate::call_paths::{lemma_reaches_view, ns_reaches, sort_roots, sorted_roots};
use crate::call_tree::{find_target_source_in_roots, func_name_spec, path_nodes, refs_view, target_source_spec, CallGraphNode};
use crate::call_walk::{call_node_pub, load_artifact_pub};
use crate::order::texts_view;
use crate::strings::{
    before_first, chars_eq, chars_of, decimal, decimal_exec, find_exec, find_spec, occurs_at, push_str, split_once_spec,
    string_of_range,
};
use crate::text::{line_range, line_range_spec, sorted};

verus! {

/// Position of the last contract named `name` among `cs[0..k]`.
pub open spec fn last_contract(cs: Seq<ContractBases>, name: Seq<char>, k: int) -> Option<int>
    decreases k,
{
    if k <= 0 || k > cs.len() {
        None
    } else if cs[k - 1].name@ == name {
        Some(k - 1)
    } else {
        last_contract(cs, name, k - 1)
    }
}

/// The base names of the (last) contract named `n`; none when the artifact
/// defines no such contract.
pub open spec fn base_names_of(cs: Seq<ContractBases>, n: Seq<char>) -> Seq<Seq<char>> {
    match last_contract(cs, n, cs.len() as int) {
        Some(i) => texts_view(cs[i].base_names@),
        None => Seq::empty(),
    }
}

/// Each entry of `path` names a base of the one before it.
pub open spec fn is_base_path(cs: Seq<ContractBases>, path: Seq<Seq<char>>) -> bool {
    &&& path.len() >= 1
    &&& forall|i: int| 0 <= i < path.len() - 1 ==> base_names_of(cs, #[trigger] path[i]).contains(path[i + 1])
}

/// `x` is `start` or one of its bases, directly or through other bases.
pub open spec fn in_chain(cs: Seq<ContractBases>, start: Seq<char>, x: Seq<char>) -> bool {
    exists|path: Seq<Seq<char>>| is_base_path(cs, path) && path[0] == start && path.last() == x
}

/// Every base name written in `cs[0..k]`.
pub open spec fn all_base_names(cs: Seq<ContractBases>, k: int) -> Seq<Seq<char>>
    decreases k,
{
    if k <= 0 || k > cs.len() {
        Seq::empty()
    } else {
        all_base_names(cs, k - 1) + texts_view(cs[k - 1].base_names@)
    }
}

proof fn lemma_last_contract_range(cs: Seq<ContractBases>, name: Seq<char>, k: int)
    ensures
        last_contract(cs, name, k) matches Some(i) ==> 0 <= i < k && i < cs.len() && cs[i].name@ == name,
    decreases k,
{
    if k > 0 && k <= cs.len() {
        lemma_last_contract_range(cs, name, k - 1);
    }
}

proof fn lemma_in_all_base_names(cs: Seq<ContractBases>, i: int, b: Seq<char>, k: int)
    requires
        0 <= i < k <= cs.len(),
        texts_view(cs[i].base_names@).contains(b),
    ensures
        all_base_names(cs, k).contains(b),
    decreases k,
{
    if i < k - 1 {
        lemma_in_all_base_names(cs, i, b, k - 1);
        let s = all_base_names(cs, k - 1);
        let j = choose|j: int| 0 <= j < s.len() && s[j] == b;
        assert(all_base_names(cs, k)[j] == b);
    } else {
        let t = texts_view(cs[i].base_names@);
        let j = choose|j: int| 0 <= j < t.len() && t[j] == b;
        assert(all_base_names(cs, k)[all_base_names(cs, k - 1).len() + j] == b);
    }
}

/// A set closed under bases that holds the start of a path holds its end.
proof fn lemma_closed_holds_path(cs: Seq<ContractBases>, chain: Seq<Seq<char>>, path: Seq<Seq<char>>)
    requires
        is_base_path(cs, path),
        chain.contains(path[0]),
        forall|x: Seq<char>, b: Seq<char>| chain.contains(x) && #[trigger] base_names_of(cs, x).contains(b) ==> chain.contains(b),
    ensures
        chain.contains(path.last()),
    decreases path.len(),
{
    if path.len() > 1 {
        let q = path.drop_last();
        assert(is_base_path(cs, q)) by {
            assert forall|i: int| 0 <= i < q.len() - 1 implies base_names_of(cs, #[trigger] q[i]).contains(q[i + 1]) by {
                assert(q[i] == path[i] && q[i + 1] == path[i + 1]);
            }
        }
        lemma_closed_holds_path(cs, chain, q);
        assert(base_names_of(cs, path[path.len() - 2]).contains(path[path.len() - 1]));
    }
}

/// The contract names of `start`'s inheritance chain within an artifact's
/// contracts `cs`: `start` and every base reached through the names the
/// contracts write, in the order first visited.
pub fn inheritance_chain(cs: &Vec<ContractBases>, start: &str) -> (r: Vec<String>)
    ensures
        forall|x: Seq<char>| texts_view(r@).contains(x) <==> in_chain(cs@, start@, x),
{
    let ghost u = seq![start@] + all_base_names(cs@, cs@.len() as int);
    let mut chain: Vec<String> = Vec::new();
    let mut to_visit: Vec<String> = Vec::new();
    to_visit.push(String::from_str(start));
    proof {
        let p0 = seq![start@];
        assert(is_base_path(cs@, p0));
        assert(p0[0] == start@ && p0.last() == start@);
        assert(in_chain(cs@, start@, start@));
        assert(texts_view(to_visit@)[0] == start@);
        assert(u[0] == start@);
        assert(u.contains(start@));
        assert(texts_view(to_visit@).contains(start@));
    }
    while to_visit.len() > 0
        invariant
            u == seq![start@] + all_base_names(cs@, cs@.len() as int),
            forall|x: Seq<char>| #[trigger] texts_view(chain@).contains(x) ==> in_chain(cs@, start@, x) && u.contains(x),
            forall|j: int| 0 <= j < to_visit@.len() ==> in_chain(cs@, start@, #[trigger] texts_view(to_visit@)[j]) && u.contains(
                texts_view(to_visit@)[j],
            ),
            texts_view(chain@).contains(start@) || texts_view(to_visit@).contains(start@),
            forall|x: Seq<char>, b: Seq<char>|
                texts_view(chain@).contains(x) && #[trigger] base_names_of(cs@, x).contains(b) ==> texts_view(chain@).contains(b)
                    || texts_view(to_visit@).contains(b),
        decreases names_unvisited(u, texts_view(chain@)), to_visit@.len(),
    {
        let ghost c0 = texts_view(chain@);
        let ghost t0 = texts_view(to_visit@);
        let name = to_visit.pop().unwrap();
        proof {
            assert(texts_view(to_visit@) =~= t0.drop_last());
            assert(t0.last() == name@);
        }
        let nv = chars_of(name.as_str());
        let mut seen = false;
        let mut j: usize = 0;
        while j < chain.len()
            invariant
                nv@ == name@,
                j <= chain@.len(),
                seen == exists|q: int| 0 <= q < j && texts_view(chain@)[q] == name@,
            decreases chain@.len() - j,
        {
            let cv = chars_of(chain[j].as_str());
            assert(texts_view(chain@)[j as int] == cv@);
            let ghost s0 = seen;
            if chars_eq(&cv, &nv) {
                seen = true;
            }
            proof {
                if !seen {
                    assert forall|q: int| 0 <= q < j + 1 implies texts_view(chain@)[q] != name@ by {
                        if q < j {
                            assert(!s0);
                        }
                    }
                }
            }
            j = j + 1;
        }
        proof {
            if seen {
                let q = choose|q: int| 0 <= q < chain@.len() && texts_view(chain@)[q] == name@;
                assert(c0.contains(name@));
            } else {
                assert(!c0.contains(name@));
            }
            assert forall|x: Seq<char>| t0.contains(x) && x != name@ implies texts_view(to_visit@).contains(x) by {
                let q = choose|q: int| 0 <= q < t0.len() && t0[q] == x;
                assert(q < t0.len() - 1);
                assert(texts_view(to_visit@)[q] == x);
            }
        }
        if seen {
            proof {
                assert forall|x: Seq<char>, b: Seq<char>|
                    texts_view(chain@).contains(x) && #[trigger] base_names_of(cs@, x).contains(b) implies texts_view(chain@).contains(
                        b,
                    ) || texts_view(to_visit@).contains(b) by {
                    if !c0.contains(b) {
                        assert(t0.contains(b));
                        if b == name@ {
                            assert(c0.contains(name@));
                        }
                    }
                }
                if !c0.contains(start@) {
                    assert(t0.contains(start@));
                    if start@ == name@ {
                        assert(c0.contains(start@));
                    }
                }
            }
            continue;
        }
        let ghost chain_before = chain@;
        chain.push(name.clone());
        let ghost c1 = texts_view(chain@);
        proof {
            assert(c1 =~= c0.push(name@));
            assert(c1.contains(name@)) by {
                assert(c1[c0.len() as int] == name@);
            }
            assert forall|y: Seq<char>| c0.contains(y) implies c1.contains(y) by {
                let q = choose|q: int| 0 <= q < c0.len() && c0[q] == y;
                assert(c1[q] == y);
            }
            assert(u.contains(name@)) by {
                let q = choose|q: int| 0 <= q < t0.len() && t0[q] == name@;
                assert(t0[t0.len() - 1] == name@);
            }
            lemma_names_unvisited_mono(u, c0, c1, name@);
        }
        let mut k: usize = cs.len();
        let mut found = false;
        while k > 0 && !found
            invariant
                k <= cs@.len(),
                nv@ == name@,
                last_contract(cs@, name@, cs@.len() as int) == last_contract(cs@, name@, k as int),
                found ==> k > 0 && cs@[k - 1].name@ == name@,
            decreases k, if found { 0int } else { 1int },
        {
            let cv = chars_of(cs[k - 1].name.as_str());
            if chars_eq(&cv, &nv) {
                found = true;
            } else {
                k = k - 1;
            }
        }
        let ghost tv1 = texts_view(to_visit@);
        if found {
            let ci = k - 1;
            proof {
                assert(last_contract(cs@, name@, cs@.len() as int) == Some(ci as int));
            }
            let bs = &cs[ci].base_names;
            let ghost bv = texts_view(bs@);
            let mut b: usize = 0;
            while b < bs.len()
                invariant
                    ci < cs@.len(),
                    bs == &cs@[ci as int].base_names,
                    bv == texts_view(bs@),
                    last_contract(cs@, name@, cs@.len() as int) == Some(ci as int),
                    b <= bs@.len(),
                    texts_view(to_visit@) == tv1 + bv.take(b as int),
                decreases bs@.len() - b,
            {
                let x = bs[b].clone();
                let ghost t2 = texts_view(to_visit@);
                assert(x@ == bv[b as int]);
                to_visit.push(x);
                assert(texts_view(to_visit@) =~= t2.push(x@));
                assert(texts_view(to_visit@) =~= tv1 + bv.take(b + 1));
                b = b + 1;
            }
            proof {
                assert(bv.take(bv.len() as int) =~= bv);
                assert(base_names_of(cs@, name@) == bv);
            }
        } else {
            proof {
                assert(base_names_of(cs@, name@) == Seq::<Seq<char>>::empty());
            }
        }
        proof {
            let tv2 = texts_view(to_visit@);
            let bn = base_names_of(cs@, name@);
            assert(tv2 =~= tv1 + bn);
            // name is in the chain: a path leads to it
            let pn = choose|path: Seq<Seq<char>>| is_base_path(cs@, path) && path[0] == start@ && path.last() == name@;
            assert(in_chain(cs@, start@, name@));
            lemma_last_contract_range(cs@, name@, cs@.len() as int);
            assert forall|j: int| 0 <= j < tv2.len() implies in_chain(cs@, start@, #[trigger] tv2[j]) && u.contains(tv2[j]) by {
                if j < tv1.len() {
                    assert(tv2[j] == tv1[j]);
                    assert(tv1[j] == t0[j]);
                } else {
                    let b = tv2[j];
                    assert(bn[j - tv1.len()] == b);
                    assert(bn.contains(b));
                    let pb = pn.push(b);
                    assert(is_base_path(cs@, pb)) by {
                        assert forall|i: int| 0 <= i < pb.len() - 1 implies base_names_of(cs@, #[trigger] pb[i]).contains(pb[i + 1]) by {
                            if i < pn.len() - 1 {
                                assert(pb[i] == pn[i] && pb[i + 1] == pn[i + 1]);
                            } else {
                                assert(pb[i] == name@);
                                assert(pb[i + 1] == b);
                            }
                        }
                    }
                    assert(pb[0] == start@ && pb.last() == b);
                    let ci = last_contract(cs@, name@, cs@.len() as int)->0;
                    lemma_in_all_base_names(cs@, ci, b, cs@.len() as int);
                    let ab = all_base_names(cs@, cs@.len() as int);
                    let q = choose|q: int| 0 <= q < ab.len() && ab[q] == b;
                    assert(u[q + 1] == b);
                }
            }
            assert forall|x: Seq<char>| #[trigger] c1.contains(x) implies in_chain(cs@, start@, x) && u.contains(x) by {
                if x != name@ {
                    let q = choose|q: int| 0 <= q < c1.len() && c1[q] == x;
                    assert(q < c0.len());
                    assert(c0[q] == x);
                    assert(c0.contains(x));
                }
            }
            assert forall|y: Seq<char>| tv1.contains(y) implies tv2.contains(y) by {
                let q = choose|q: int| 0 <= q < tv1.len() && tv1[q] == y;
                assert(tv2[q] == y);
            }
            assert forall|x: Seq<char>, b: Seq<char>| c1.contains(x) && #[trigger] base_names_of(cs@, x).contains(b) implies c1.contains(b)
                || tv2.contains(b) by {
                if x == name@ {
                    let q = choose|q: int| 0 <= q < bn.len() && bn[q] == b;
                    assert(tv2[tv1.len() + q] == b);
                } else {
                    let q = choose|q: int| 0 <= q < c1.len() && c1[q] == x;
                    assert(c0[q] == x);
                    assert(c0.contains(x));
                    if !c0.contains(b) {
                        assert(t0.contains(b));
                        if b != name@ {
                            assert(tv1.contains(b));
                        }
                    }
                }
            }
        }
    }
    proof {
        assert forall|x: Seq<char>| in_chain(cs@, start@, x) implies texts_view(chain@).contains(x) by {
            let path = choose|path: Seq<Seq<char>>| is_base_path(cs@, path) && path[0] == start@ && path.last() == x;
            assert(texts_view(to_visit@) =~= Seq::<Seq<char>>::empty());
            lemma_closed_holds_path(cs@, texts_view(chain@), path);
        }
    }
    chain
}


// ---------------------------------------------------------------------------
// Finding the paths
// ---------------------------------------------------------------------------

/// The ids of the external and public declarations among `fs[0..k]` whose
/// contract is in `start`'s inheritance chain.
pub open spec fn chain_ids(fs: Seq<FunctionInfo>, cs: Seq<ContractBases>, start: Seq<char>, k: int) -> Seq<i64>
    decreases k,
{
    if k <= 0 || k > fs.len() {
        Seq::empty()
    } else {
        let prev = chain_ids(fs, cs, start, k - 1);
        let f = fs[k - 1];
        if in_chain(cs, start, f.contract_name@) && (f.visibility == Visibility::External || f.visibility == Visibility::Public) {
            prev.push(f.id)
        } else {
            prev
        }
    }
}

/// Expand the roots `ids[i..]` in turn (each with nothing expanded yet,
/// the declarations loaded so far carried over), keeping those whose tree
/// reaches `t`; with the state after the last.
pub open spec fn reaching_roots(p: Program, st: St, ids: Seq<i64>, i: int, t: Seq<char>, acc: Seq<NodeSpec>) -> (Seq<NodeSpec>, St)
    decreases ids.len() - i,
{
    if i < 0 || i >= ids.len() {
        (acc, st)
    } else {
        let (n, st2) = call_node(p, St { funcs: st.funcs, visited: Seq::empty(), order: st.order, loaded: st.loaded }, ids[i]);
        reaching_roots(
            p,
            St { funcs: st2.funcs, visited: st.visited, order: st2.order, loaded: st2.loaded },
            ids,
            i + 1,
            t,
            if ns_reaches(n, t) { acc.push(n) } else { acc },
        )
    }
}

/// The function name a target names: the part after the first `::` (up to
/// the next one), or the whole target.
pub open spec fn target_func_name(t: Seq<char>) -> Seq<char> {
    match find_spec(t, "::"@) {
        Some(i) => before_first(t.subrange(i + 2, t.len() as int), "::"@),
        None => t,
    }
}

/// The first of `fs[i..]` named `n`.
pub open spec fn first_named(fs: Seq<FunctionInfo>, n: Seq<char>, i: int) -> Option<int>
    decreases fs.len() - i,
{
    if i < 0 || i >= fs.len() {
        None
    } else if fs[i].name@ == n {
        Some(i)
    } else {
        first_named(fs, n, i + 1)
    }
}

/// What a call-path query of contract `name` (artifact `a`) finds for
/// `target`: the roots that reach it, sorted by signature, and the
/// declarations loaded once all are expanded.
pub open spec fn path_query_spec(p: Program, a: int, name: Seq<char>, target: Seq<char>) -> (Seq<NodeSpec>, Seq<FunctionInfo>) {
    let fs0 = load_artifact_spec(p, Seq::empty(), a);
    let st0 = St { funcs: fs0, visited: Seq::empty(), order: Seq::empty(), loaded: Seq::empty() };
    let cs = if 0 <= a < p.artifacts@.len() { p.artifacts@[a].contracts@ } else { Seq::empty() };
    let ids = chain_ids(fs0, cs, name, fs0.len() as int);
    let (roots, st1) = reaching_roots(p, st0, ids, 0, target, Seq::empty());
    (sorted_roots(roots), st1.funcs)
}

/// The roots and target location a call-path query produces.
pub struct PathQuery {
    pub roots: Vec<CallGraphNode>,
    pub target_file: String,
    pub target_src: String,
}

/// Whether `name` is among the chain.
fn chain_contains(chain: &Vec<String>, name: &str) -> (b: bool)
    ensures
        b == texts_view(chain@).contains(name@),
{
    let nv = chars_of(name);
    let mut i: usize = 0;
    while i < chain.len()
        invariant
            nv@ == name@,
            i <= chain@.len(),
            forall|j: int| 0 <= j < i ==> texts_view(chain@)[j] != name@,
        decreases chain@.len() - i,
    {
        let cv = chars_of(chain[i].as_str());
        assert(texts_view(chain@)[i as int] == cv@);
        if chars_eq(&cv, &nv) {
            return true;
        }
        i = i + 1;
    }
    false
}

/// Find the external and public functions of contract `name`'s inheritance
/// chain (within artifact `artifact`) whose call trees reach
/// `target_function` (`Contract::name` or a bare name), sorted by
/// signature, and where the target is declared: as the first matching node
/// shows it, else the first loaded declaration of that name, else nowhere.
pub fn find_paths(p: &Program, artifact: usize, name: &str, target_function: &str) -> (r: PathQuery)
    requires
        p.wf(),
        artifact < p.artifacts@.len(),
    ensures
        ({
            let (roots, fs) = path_query_spec(*p, artifact as int, name@, target_function@);
            &&& nodes_view(r.roots@) == roots
            &&& match target_source_spec(r.roots@, target_function@, 0) {
                Some((fl, sr)) => r.target_file@ == fl && r.target_src@ == sr,
                None => match first_named(fs, target_func_name(target_function@), 0) {
                    Some(i) => r.target_file@ == fs[i].file@ && r.target_src@ == src_spec(fs[i]),
                    None => r.target_file@ == Seq::<char>::empty() && r.target_src@ == Seq::<char>::empty(),
                },
            }
        }),
{
    let mut w = Walk { functions: Vec::new(), visited: Vec::new(), order: Vec::new(), loaded: Vec::new() };
    proof {
        assert(w.st(*p).funcs =~= Seq::<FunctionInfo>::empty());
    }
    load_artifact_pub(p, &mut w, artifact);
    let ghost st0 = w.st(*p);
    proof {
        assert(st0 == St { funcs: load_artifact_spec(*p, Seq::empty(), artifact as int), visited: Seq::empty(), order: Seq::empty(), loaded: Seq::empty() });
    }
    let chain = inheritance_chain(&p.artifacts[artifact].contracts, name);
    let ghost fs0 = st0.funcs;
    let ghost cs = p.artifacts@[artifact as int].contracts@;
    let mut ids: Vec<i64> = Vec::new();
    let mut i: usize = 0;
    while i < w.functions.len()
        invariant
            w.ok(*p),
            w.st(*p) == st0,
            fs0 == st0.funcs,
            cs == p.artifacts@[artifact as int].contracts@,
            artifact < p.artifacts@.len(),
            forall|x: Seq<char>| texts_view(chain@).contains(x) <==> in_chain(cs, name@, x),
            i <= fs0.len(),
            ids@ == chain_ids(fs0, cs, name@, i as int),
            forall|k: int| 0 <= k < ids@.len() ==> has_id(fs0, #[trigger] ids@[k]),
        decreases fs0.len() - i,
    {
        let f = &p.artifacts[w.functions[i].0].functions[w.functions[i].1];
        assert(fs0[i as int] == *f);
        if (f.visibility == Visibility::External || f.visibility == Visibility::Public) && chain_contains(&chain, f.contract_name.as_str()) {
            ids.push(f.id);
            proof {
                assert(has_id(fs0, f.id)) by {
                    assert(fs0[i as int].id == f.id);
                }
            }
        }
        i = i + 1;
    }
    let ghost total = reaching_roots(*p, st0, ids@, 0, target_function@, Seq::empty());
    let mut roots: Vec<CallGraphNode> = Vec::new();
    proof {
        assert(nodes_view(roots@) =~= Seq::<NodeSpec>::empty());
    }
    let mut k: usize = 0;
    while k < ids.len()
        invariant
            p.wf(),
            w.ok(*p),
            w.visited@.len() == 0,
            k <= ids@.len(),
            kept(fs0, w.st(*p).funcs),
            forall|q: int| 0 <= q < ids@.len() ==> has_id(fs0, #[trigger] ids@[q]),
            total == reaching_roots(*p, w.st(*p), ids@, k as int, target_function@, nodes_view(roots@)),
        decreases ids@.len() - k,
    {
        let ghost st = w.st(*p);
        let id = ids[k];
        proof {
            assert(has_id(fs0, ids@[k as int]));
            assert(has_id(w.st(*p).funcs, id));
            lemma_find_fn_has(w.st(*p).funcs, id, 0);
            assert(w.visited@ =~= Seq::<i64>::empty());
            assert(st == St { funcs: st.funcs, visited: Seq::empty(), order: st.order, loaded: st.loaded });
        }
        let n = call_node_pub(p, &mut w, id);
        let ghost st2 = w.st(*p);
        w.visited = Vec::new();
        proof {
            assert(w.st(*p) == St { funcs: st2.funcs, visited: Seq::empty(), order: st2.order, loaded: st2.loaded });
            assert(st.visited =~= Seq::<i64>::empty());
            lemma_reaches_view(n, target_function@);
        }
        let ghost acc = nodes_view(roots@);
        if n.reaches_target(target_function) {
            let ghost r0 = roots@;
            roots.push(n);
            proof {
                crate::call_walk::lemma_nodes_push(r0, n);
            }
        }
        k = k + 1;
    }
    let ghost fs1 = w.st(*p).funcs;
    proof {
        assert(total == (nodes_view(roots@), w.st(*p)));
    }
    let sorted = sort_roots(&roots);
    let found = find_target_source_in_roots(&sorted, target_function);
    let (target_file, target_src) = match found {
        Some(x) => x,
        None => {
            let tv = chars_of(target_function);
            let sep = chars_of("::");
            let fname = match find_exec(&tv, &sep) {
                Some(j) => {
                    proof {
                        reveal_strlit("::");
                    }
                    assert(occurs_at(tv@, j as int, sep@));
                    let m = tv.len();
                    let j2: usize = j + 2;
                    let rest = string_of_range(&tv, j2, m);
                    let rv = chars_of(rest.as_str());
                    match find_exec(&rv, &sep) {
                        Some(e) => string_of_range(&rv, 0, e),
                        None => rest,
                    }
                },
                None => String::from_str(target_function),
            };
            let fv = chars_of(fname.as_str());
            let mut q: usize = 0;
            let mut hit: Option<usize> = None;
            while q < w.functions.len() && hit.is_none()
                invariant
                    w.ok(*p),
                    fs1 == w.st(*p).funcs,
                    fv@ == target_func_name(target_function@),
                    q <= fs1.len(),
                    match hit {
                        None => first_named(fs1, fv@, 0) == first_named(fs1, fv@, q as int),
                        Some(h) => first_named(fs1, fv@, 0) == Some(h as int) && h < fs1.len(),
                    },
                decreases fs1.len() - q,
            {
                let f = &p.artifacts[w.functions[q].0].functions[w.functions[q].1];
                let nv = chars_of(f.name.as_str());
                if chars_eq(&nv, &fv) {
                    hit = Some(q);
                }
                q = q + 1;
            }
            match hit {
                Some(h) => {
                    let f = &p.artifacts[w.functions[h].0].functions[w.functions[h].1];
                    let mut src = decimal_exec(f.src_offset);
                    push_str(&mut src, ":");
                    let l = decimal_exec(f.src_length);
                    push_str(&mut src, l.as_str());
                    (f.file.clone(), src)
                },
                None => (String::new(), String::new()),
            }
        },
    };
    PathQuery { roots: sorted, target_file, target_src }
}


// ---------------------------------------------------------------------------
// The view
// ---------------------------------------------------------------------------

/// How a source file is shown: its path relative to the project and its
/// line table (empty when the file cannot be read).
pub struct FileView {
    pub file: String,
    pub display: String,
    pub line_offsets: Vec<usize>,
}

/// The line tables are sorted.
pub open spec fn file_views_ok(fvs: Seq<FileView>) -> bool {
    forall|i: int| 0 <= i < fvs.len() ==> sorted((#[trigger] fvs[i]).line_offsets@)
}

/// The first view of `file` among `fvs[i..]`.
pub open spec fn find_view(fvs: Seq<FileView>, file: Seq<char>, i: int) -> Option<int>
    decreases fvs.len() - i,
{
    if i < 0 || i >= fvs.len() {
        None
    } else if fvs[i].file@ == file {
        Some(i)
    } else {
        find_view(fvs, file, i + 1)
    }
}

/// The starting line of a line range `L<a>` or `L<a>-L<b>` (the range
/// itself when it does not start with `L`).
pub open spec fn start_line_spec(range: Seq<char>) -> Seq<char> {
    if range.len() > 0 && range[0] == 'L' {
        before_first(range.subrange(1, range.len() as int), seq!['-'])
    } else {
        range
    }
}

/// Where a node is shown: its file as displayed, with the starting line of
/// its source range when it has one.
pub open spec fn node_location(fvs: Seq<FileView>, file: Seq<char>, src: Seq<char>) -> Seq<char> {
    let (disp, offs) = match find_view(fvs, file, 0) {
        Some(i) => (fvs[i].display@, fvs[i].line_offsets@),
        None => (file, Seq::empty()),
    };
    let line = if src.len() == 0 {
        Seq::empty()
    } else {
        start_line_spec(line_range_spec(src, offs))
    };
    if line.len() == 0 {
        disp
    } else {
        disp + ":"@ + line
    }
}

/// `n` spaces.
pub open spec fn spaces(n: nat) -> Seq<char> {
    Seq::new(n, |i: int| ' ')
}

/// The lines of the `j`-th node of a path.
pub open spec fn path_entry(j: nat, n: CallGraphNode, fvs: Seq<FileView>) -> Seq<char> {
    let name = n.contract_name@ + "::"@ + func_name_spec(n.signature@);
    let loc = node_location(fvs, n.file@, n.src@);
    if j == 0 {
        name + "\n"@ + loc + "\n"@
    } else {
        spaces(((j - 1) * 4) as nat) + "\u{2514}\u{2500}\u{2500} "@ + name + "\n"@ + spaces(j * 4) + loc + "\n"@
    }
}

/// The lines of the nodes `ns[0..k]` of a path.
pub open spec fn path_entries(ns: Seq<CallGraphNode>, fvs: Seq<FileView>, k: int) -> Seq<char>
    decreases k,
{
    if k <= 0 || k > ns.len() {
        Seq::empty()
    } else {
        path_entries(ns, fvs, k - 1) + path_entry((k - 1) as nat, ns[k - 1], fvs)
    }
}

/// The blocks of the paths of `roots[0..k]`.
pub open spec fn path_blocks(roots: Seq<CallGraphNode>, t: Seq<char>, fvs: Seq<FileView>, k: int) -> Seq<char>
    decreases k,
{
    if k <= 0 || k > roots.len() {
        Seq::empty()
    } else {
        let ns = path_nodes(roots[k - 1], t);
        path_blocks(roots, t, fvs, k - 1) + "### Path "@ + decimal(k as nat) + "\n\n```\n"@ + path_entries(ns, fvs, ns.len() as int)
            + "```\n\n"@
    }
}

/// A target as shown: `Contract::name` without parameters, or as given.
pub open spec fn target_display_spec(t: Seq<char>) -> Seq<char> {
    match split_once_spec(t, "::"@) {
        Some((c, rest)) => c + "::"@ + before_first(rest, seq!['(']),
        None => t,
    }
}

/// The output of a call-path query.
pub struct CallPathInspectorOutput {
    pub roots: Vec<CallGraphNode>,
    pub project_root: String,
    pub target_function: String,
    pub target_file: String,
    pub target_line: String,
}

/// The call-path view.
pub open spec fn call_paths_view(o: CallPathInspectorOutput, fvs: Seq<FileView>) -> Seq<char> {
    let td = target_display_spec(o.target_function@);
    "## Call Paths\n\nTarget: `"@ + td + "`\n"@ + if o.target_file@.len() == 0 {
        "Source: Not found\n"@
    } else {
        "Source: `"@ + o.target_file@ + ":"@ + o.target_line@ + "`\n"@
    } + if o.roots@.len() == 0 {
        "\n0 paths found.\n\nNo external functions reach \""@ + td + "\".\n"@
    } else {
        "\n"@ + decimal(o.roots@.len()) + " paths found.\n\n"@ + path_blocks(o.roots@, o.target_function@, fvs, o.roots@.len() as int)
    }
}

/// The starting line of source range `src` in a file with line table
/// `line_offsets`.
pub fn start_line(src: &str, line_offsets: &Vec<usize>) -> (r: String)
    requires
        sorted(line_offsets@),
    ensures
        r@ == start_line_spec(line_range_spec(src@, line_offsets@)),
{
    let range = line_range(src, line_offsets);
    let v = chars_of(range.as_str());
    if v.len() > 0 && v[0] == 'L' {
        let n = v.len();
        let rest = string_of_range(&v, 1, n);
        let rv = chars_of(rest.as_str());
        let mut dash: Vec<char> = Vec::new();
        dash.push('-');
        assert(dash@ =~= seq!['-']);
        match find_exec(&rv, &dash) {
            Some(e) => string_of_range(&rv, 0, e),
            None => rest,
        }
    } else {
        range
    }
}

/// Where a node is shown.
fn node_location_exec(fvs: &Vec<FileView>, file: &str, src: &str) -> (r: String)
    requires
        file_views_ok(fvs@),
    ensures
        r@ == node_location(fvs@, file@, src@),
{
    let fv = chars_of(file);
    let mut i: usize = 0;
    let mut hit: Option<usize> = None;
    while i < fvs.len() && hit.is_none()
        invariant
            fv@ == file@,
            i <= fvs@.len(),
            match hit {
                None => find_view(fvs@, file@, 0) == find_view(fvs@, file@, i as int),
                Some(h) => find_view(fvs@, file@, 0) == Some(h as int) && h < fvs@.len(),
            },
        decreases fvs@.len() - i,
    {
        let x = chars_of(fvs[i].file.as_str());
        if chars_eq(&x, &fv) {
            hit = Some(i);
        }
        i = i + 1;
    }
    let empty: Vec<usize> = Vec::new();
    assert(sorted(empty@));
    let (disp, offs) = match hit {
        Some(h) => {
            assert(sorted(fvs@[h as int].line_offsets@));
            (fvs[h].display.clone(), &fvs[h].line_offsets)
        },
        None => (String::from_str(file), &empty),
    };
    let line = if src.unicode_len() == 0 {
        String::new()
    } else {
        start_line(src, offs)
    };
    if line.unicode_len() == 0 {
        disp
    } else {
        let mut r = disp;
        push_str(&mut r, ":");
        push_str(&mut r, line.as_str());
        r
    }
}

/// Four spaces per group.
fn indent(groups: usize) -> (r: String)
    ensures
        r@ == spaces((groups * 4) as nat),
{
    let mut r = String::new();
    let mut i: usize = 0;
    while i < groups
        invariant
            i <= groups,
            r@ == spaces((i * 4) as nat),
        decreases groups - i,
    {
        push_str(&mut r, "    ");
        proof {
            reveal_strlit("    ");
        }
        assert(r@ =~= spaces(((i + 1) * 4) as nat));
        i = i + 1;
    }
    r
}

/// The lines of the `j`-th node of a path.
fn path_entry_exec(j: usize, n: &CallGraphNode, fvs: &Vec<FileView>) -> (r: String)
    requires
        file_views_ok(fvs@),
    ensures
        r@ == path_entry(j as nat, *n, fvs@),
{
    let mut name = n.contract_name.clone();
    push_str(&mut name, "::");
    let f = n.func_name();
    push_str(&mut name, f.as_str());
    let loc = node_location_exec(fvs, n.file.as_str(), n.src.as_str());
    if j == 0 {
        let mut r = name;
        push_str(&mut r, "\n");
        push_str(&mut r, loc.as_str());
        push_str(&mut r, "\n");
        r
    } else {
        let mut r = indent(j - 1);
        push_str(&mut r, "\u{2514}\u{2500}\u{2500} ");
        push_str(&mut r, name.as_str());
        push_str(&mut r, "\n");
        let sp = indent(j);
        push_str(&mut r, sp.as_str());
        push_str(&mut r, loc.as_str());
        push_str(&mut r, "\n");
        r
    }
}

/// A target as shown.
fn target_display(t: &str) -> (r: String)
    ensures
        r@ == target_display_spec(t@),
{
    let tv = chars_of(t);
    let sep = chars_of("::");
    proof {
        reveal_strlit("::");
    }
    let td = match find_exec(&tv, &sep) {
        Some(i) => {
            assert(occurs_at(tv@, i as int, sep@));
            let m = tv.len();
            let i2: usize = i + 2;
            let rest = string_of_range(&tv, i2, m);
            let mut d = string_of_range(&tv, 0, i);
            push_str(&mut d, "::");
            let rv = chars_of(rest.as_str());
            let mut paren: Vec<char> = Vec::new();
            paren.push('(');
            assert(paren@ =~= seq!['(']);
            let f = match find_exec(&rv, &paren) {
                Some(e) => string_of_range(&rv, 0, e),
                None => rest,
            };
            push_str(&mut d, f.as_str());
            d
        },
        None => String::from_str(t),
    };
    td
}

/// The block of the `i`-th path (0-based).
fn path_block(i: usize, root: &CallGraphNode, t: &str, files: &Vec<FileView>) -> (b: String)
    requires
        file_views_ok(files@),
        i < usize::MAX,
    ensures
        b@ == "### Path "@ + decimal((i + 1) as nat) + "\n\n```\n"@ + path_entries(path_nodes(*root, t@), files@, path_nodes(*root, t@).len() as int)
            + "```\n\n"@,
{
    let mut b = String::from_str("### Path ");
    let num = decimal_exec(i + 1);
    push_str(&mut b, num.as_str());
    push_str(&mut b, "\n\n```\n");
    let path = root.extract_path_to_target(t);
    let ghost ns = path_nodes(*root, t@);
    let ghost bh = b@;
    let mut j: usize = 0;
    while j < path.len()
        invariant
            file_views_ok(files@),
            refs_view(path@) == ns,
            j <= path@.len(),
            b@ == bh + path_entries(ns, files@, j as int),
        decreases path@.len() - j,
    {
        assert(ns[j as int] == *path@[j as int]);
        let e = path_entry_exec(j, path[j], files);
        push_str(&mut b, e.as_str());
        assert(b@ =~= bh + path_entries(ns, files@, j + 1));
        j = j + 1;
    }
    assert(path@.len() == ns.len());
    push_str(&mut b, "```\n\n");
    b
}

impl CallPathInspectorOutput {
    /// Create the output of a call-path query.
    pub fn new(
        roots: Vec<CallGraphNode>,
        project_root: String,
        target_function: &str,
        target_file: String,
        target_line: &str,
    ) -> (r: Self)
        ensures
            r.roots@ == roots@,
            r.project_root == project_root,
            r.target_function@ == target_function@,
            r.target_file == target_file,
            r.target_line@ == target_line@,
    {
        CallPathInspectorOutput {
            roots,
            project_root,
            target_function: String::from_str(target_function),
            target_file,
            target_line: String::from_str(target_line),
        }
    }

    /// The view, given how each source file is shown.
    pub fn render(&self, files: &Vec<FileView>) -> (r: String)
        requires
            file_views_ok(files@),
        ensures
            r@ == call_paths_view(*self, files@),
    {
        let td = target_display(self.target_function.as_str());
        let mut r = String::from_str("## Call Paths\n\nTarget: `");
        push_str(&mut r, td.as_str());
        push_str(&mut r, "`\n");
        if self.target_file.unicode_len() == 0 {
            push_str(&mut r, "Source: Not found\n");
        } else {
            push_str(&mut r, "Source: `");
            push_str(&mut r, self.target_file.as_str());
            push_str(&mut r, ":");
            push_str(&mut r, self.target_line.as_str());
            push_str(&mut r, "`\n");
        }
        if self.roots.len() == 0 {
            push_str(&mut r, "\n0 paths found.\n\nNo external functions reach \"");
            push_str(&mut r, td.as_str());
            push_str(&mut r, "\".\n");
            return r;
        }
        push_str(&mut r, "\n");
        let n = decimal_exec(self.roots.len());
        push_str(&mut r, n.as_str());
        push_str(&mut r, " paths found.\n\n");
        let ghost head = r@;
        let mut i: usize = 0;
        while i < self.roots.len()
            invariant
                file_views_ok(files@),
                i <= self.roots@.len(),
                r@ == head + path_blocks(self.roots@, self.target_function@, files@, i as int),
            decreases self.roots@.len() - i,
        {
            let b = path_block(i, &self.roots[i], self.target_function.as_str(), files);
            push_str(&mut r, b.as_str());
            assert(r@ =~= head + path_blocks(self.roots@, self.target_function@, files@, i + 1));
            i = i + 1;
        }
        r
    }
}

} // verus!
