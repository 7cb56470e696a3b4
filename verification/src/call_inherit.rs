//! Loading a contract's inherited declarations: each base contract (found
//! through the symbol index within the same build) is appended to the
//! inheritance order and its own declarations are loaded, depth first.
use vstd::prelude::*;
use crate::call_engine::{
    fn_at, funcs_of, insert_fn, ref_ok, refs_ok, ArtifactFunctions, ContractBases, FunctionInfo,
    Program, St, SymbolEntry, Walk,
};
use crate::strings::{chars_eq, chars_of};

verus! {

/// Insert, in order, those of the first `k` of `xs` that belong to contract
/// `name`.
pub open spec fn insert_contract(fs: Seq<FunctionInfo>, xs: Seq<FunctionInfo>, name: Seq<char>, k: int) -> Seq<FunctionInfo>
    decreases k,
{
    if k <= 0 || k > xs.len() {
        fs
    } else {
        let prev = insert_contract(fs, xs, name, k - 1);
        if xs[k - 1].contract_name@ == name {
            insert_fn(prev, xs[k - 1])
        } else {
            prev
        }
    }
}

/// Load the declarations of contract `name` from artifact `a`.
pub open spec fn load_contract_spec(p: Program, fs: Seq<FunctionInfo>, a: int, name: Seq<char>) -> Seq<FunctionInfo> {
    if 0 <= a < p.artifacts@.len() {
        let xs = p.artifacts@[a].functions@;
        insert_contract(fs, xs, name, xs.len() as int)
    } else {
        fs
    }
}

/// Index of the first symbol with `id` in build `b`.
pub open spec fn find_symbol_in(ss: Seq<SymbolEntry>, b: Seq<char>, id: i64, i: int) -> Option<int>
    decreases ss.len() - i,
{
    if i < 0 || i >= ss.len() {
        None
    } else if ss[i].id == id && ss[i].build_info@ == b {
        Some(i)
    } else {
        find_symbol_in(ss, b, id, i + 1)
    }
}

/// Index of the first contract named `name`.
pub open spec fn find_contract(cs: Seq<ContractBases>, name: Seq<char>, i: int) -> Option<int>
    decreases cs.len() - i,
{
    if i < 0 || i >= cs.len() {
        None
    } else if cs[i].name@ == name {
        Some(i)
    } else {
        find_contract(cs, name, i + 1)
    }
}

/// The names of the symbols.
pub open spec fn symbol_names(p: Program) -> Seq<Seq<char>> {
    p.symbols@.map_values(|e: SymbolEntry| e.name@)
}

/// Number of entries of `names` not in `vis`.
pub open spec fn names_unvisited(names: Seq<Seq<char>>, vis: Seq<Seq<char>>) -> nat
    decreases names.len(),
{
    if names.len() == 0 {
        0
    } else {
        names_unvisited(names.drop_last(), vis) + if vis.contains(names.last()) { 0nat } else { 1nat }
    }
}

/// What bounds the inheritance walk from `name` once `vis` are visited.
pub open spec fn inh_measure(p: Program, vis: Seq<Seq<char>>, name: Seq<char>) -> nat {
    2 * names_unvisited(symbol_names(p), vis) + if symbol_names(p).contains(name) { 0nat } else { 1nat }
}

/// Load the bases of contract `name` (declared in artifact `a`) and, in
/// turn, theirs; `vis` are the contracts already visited.
pub open spec fn inherit(p: Program, a: int, name: Seq<char>, vis: Seq<Seq<char>>, st: St) -> (Seq<Seq<char>>, St)
    decreases inh_measure(p, vis, name), 1int, 0int,
{
    if vis.contains(name) {
        (vis, st)
    } else {
        let vis1 = vis.push(name);
        if 0 <= a < p.artifacts@.len() {
            let art = p.artifacts@[a];
            match find_contract(art.contracts@, name, 0) {
                Some(ci) => inherit_bases(p, art.build_info@, art.contracts@[ci].bases@, 0, vis1, st, inh_measure(p, vis, name)),
                None => (vis1, st),
            }
        } else {
            (vis1, st)
        }
    }
}

/// Load the bases `bases[i..]` (found within build `b`).
pub open spec fn inherit_bases(
    p: Program,
    b: Seq<char>,
    bases: Seq<Option<i64>>,
    i: int,
    vis: Seq<Seq<char>>,
    st: St,
    bound: nat,
) -> (Seq<Seq<char>>, St)
    decreases bound, 0int, bases.len() - i,
{
    if i < 0 || i >= bases.len() {
        (vis, st)
    } else {
        let (vis2, st2) = inherit_base(p, b, bases[i], vis, st, bound);
        inherit_bases(p, b, bases, i + 1, vis2, st2, bound)
    }
}

/// Load one base: a contract of the same build is appended to the order,
/// its declarations loaded, and its own bases followed.
pub open spec fn inherit_base(p: Program, b: Seq<char>, base: Option<i64>, vis: Seq<Seq<char>>, st: St, bound: nat) -> (Seq<Seq<char>>, St)
    decreases bound, 0int, 0int,
{
    match base {
        None => (vis, st),
        Some(id) => match find_symbol_in(p.symbols@, b, id, 0) {
            None => (vis, st),
            Some(k) => {
                let e = p.symbols@[k];
                if e.is_contract && (e.artifact as int) < p.artifacts@.len() && p.artifacts@[e.artifact as int].build_info@ == b {
                    let st1 = St {
                        funcs: load_contract_spec(p, st.funcs, e.artifact as int, e.name@),
                        visited: st.visited,
                        order: st.order.push(e.name),
                        loaded: st.loaded,
                    };
                    if inh_measure(p, vis, e.name@) < bound {
                        inherit(p, e.artifact as int, e.name@, vis, st1)
                    } else {
                        (vis, st1)
                    }
                } else {
                    (vis, st)
                }
            },
        },
    }
}

/// The names of a list of visited contracts.
pub open spec fn names_view(v: Seq<String>) -> Seq<Seq<char>> {
    v.map_values(|s: String| s@)
}

/// `v2` extends `v1`.
pub open spec fn extends_names(v1: Seq<Seq<char>>, v2: Seq<Seq<char>>) -> bool {
    v1.len() <= v2.len() && v2.subrange(0, v1.len() as int) == v1
}

pub proof fn lemma_names_unvisited_mono(names: Seq<Seq<char>>, v1: Seq<Seq<char>>, v2: Seq<Seq<char>>, x: Seq<char>)
    requires
        forall|y: Seq<char>| v1.contains(y) ==> v2.contains(y),
    ensures
        names_unvisited(names, v2) <= names_unvisited(names, v1),
        names.contains(x) && v2.contains(x) && !v1.contains(x) ==> names_unvisited(names, v2) < names_unvisited(names, v1),
    decreases names.len(),
{
    if names.len() > 0 {
        lemma_names_unvisited_mono(names.drop_last(), v1, v2, x);
        if names.contains(x) && names.last() != x {
            let j = choose|j: int| 0 <= j < names.len() && names[j] == x;
            assert(names.drop_last()[j] == x);
        }
    }
}

pub proof fn lemma_extends_names_contains(v1: Seq<Seq<char>>, v2: Seq<Seq<char>>)
    requires
        extends_names(v1, v2),
    ensures
        forall|y: Seq<char>| v1.contains(y) ==> v2.contains(y),
{
    assert forall|y: Seq<char>| v1.contains(y) implies v2.contains(y) by {
        let j = choose|j: int| 0 <= j < v1.len() && v1[j] == y;
        assert(v2[j] == v2.subrange(0, v1.len() as int)[j]);
    }
}

/// Position of the first symbol with `id` in build `b`.
pub(crate) fn find_symbol_in_exec(p: &Program, b: &str, id: i64) -> (r: Option<usize>)
    ensures
        match r {
            Some(k) => find_symbol_in(p.symbols@, b@, id, 0) == Some(k as int) && k < p.symbols@.len(),
            None => find_symbol_in(p.symbols@, b@, id, 0) is None,
        },
{
    let bv = chars_of(b);
    let mut i: usize = 0;
    while i < p.symbols.len()
        invariant
            bv@ == b@,
            i <= p.symbols@.len(),
            find_symbol_in(p.symbols@, b@, id, 0) == find_symbol_in(p.symbols@, b@, id, i as int),
        decreases p.symbols@.len() - i,
    {
        if p.symbols[i].id == id {
            let sv = chars_of(p.symbols[i].build_info.as_str());
            if chars_eq(&sv, &bv) {
                return Some(i);
            }
        }
        i = i + 1;
    }
    None
}

/// Position of the first contract named `name`.
pub(crate) fn find_contract_exec(cs: &Vec<ContractBases>, name: &str) -> (r: Option<usize>)
    ensures
        match r {
            Some(k) => find_contract(cs@, name@, 0) == Some(k as int) && k < cs@.len(),
            None => find_contract(cs@, name@, 0) is None,
        },
{
    let nv = chars_of(name);
    let mut i: usize = 0;
    while i < cs.len()
        invariant
            nv@ == name@,
            i <= cs@.len(),
            find_contract(cs@, name@, 0) == find_contract(cs@, name@, i as int),
        decreases cs@.len() - i,
    {
        let cv = chars_of(cs[i].name.as_str());
        if chars_eq(&cv, &nv) {
            return Some(i);
        }
        i = i + 1;
    }
    None
}

/// Whether `name` is among the visited contracts.
pub(crate) fn names_contain(vis: &Vec<String>, name: &str) -> (b: bool)
    ensures
        b == names_view(vis@).contains(name@),
{
    let nv = chars_of(name);
    let mut i: usize = 0;
    while i < vis.len()
        invariant
            nv@ == name@,
            i <= vis@.len(),
            forall|j: int| 0 <= j < i ==> (#[trigger] vis@[j])@ != name@,
        decreases vis@.len() - i,
    {
        let v = chars_of(vis[i].as_str());
        if chars_eq(&v, &nv) {
            assert(names_view(vis@)[i as int] == name@);
            return true;
        }
        i = i + 1;
    }
    proof {
        if names_view(vis@).contains(name@) {
            let j = choose|j: int| 0 <= j < names_view(vis@).len() && names_view(vis@)[j] == name@;
            assert(vis@[j]@ == name@);
        }
    }
    false
}

/// Load the declarations of contract `name` from artifact `a`.
pub fn load_contract_exec(p: &Program, w: &mut Walk, a: usize, name: &str)
    requires
        old(w).ok(*p),
        a < p.artifacts@.len(),
    ensures
        final(w).ok(*p),
        final(w).st(*p).funcs == load_contract_spec(*p, old(w).st(*p).funcs, a as int, name@),
        final(w).visited == old(w).visited,
        final(w).order == old(w).order,
        final(w).loaded == old(w).loaded,
{
    let nv = chars_of(name);
    let n = p.artifacts[a].functions.len();
    let ghost xs = p.artifacts@[a as int].functions@;
    let mut k: usize = 0;
    while k < n
        invariant
            w.ok(*p),
            nv@ == name@,
            a < p.artifacts@.len(),
            xs == p.artifacts@[a as int].functions@,
            n == xs.len(),
            k <= n,
            w.st(*p).funcs == insert_contract(old(w).st(*p).funcs, xs, name@, k as int),
            w.visited == old(w).visited,
            w.order == old(w).order,
            w.loaded == old(w).loaded,
        decreases n - k,
    {
        let cv = chars_of(p.artifacts[a].functions[k].contract_name.as_str());
        if chars_eq(&cv, &nv) {
            crate::call_walk::insert_ref(p, w, (a, k));
        }
        k = k + 1;
    }
}

/// Load the bases of contract `name` (declared in artifact `a`), depth
/// first, appending each to the inheritance order.
pub fn inherit_exec(p: &Program, a: usize, name: &str, vis: &mut Vec<String>, w: &mut Walk)
    requires
        old(w).ok(*p),
    ensures
        final(w).ok(*p),
        (names_view(final(vis)@), final(w).st(*p)) == inherit(*p, a as int, name@, names_view(old(vis)@), old(w).st(*p)),
        extends_names(names_view(old(vis)@), names_view(final(vis)@)),
        final(w).visited == old(w).visited,
    decreases inh_measure(*p, names_view(old(vis)@), name@), 1int, 0int,
{
    let ghost vis0 = names_view(vis@);
    let ghost st0 = w.st(*p);
    let ghost w0 = *w;
    if names_contain(vis, name) {
        assert(names_view(vis@).subrange(0, vis0.len() as int) == vis0);
        return;
    }
    vis.push(String::from_str(name));
    proof {
        assert(names_view(vis@) =~= vis0.push(name@));
    }
    if a >= p.artifacts.len() {
        assert(names_view(vis@).subrange(0, vis0.len() as int) =~= vis0);
        return;
    }
    let ci = match find_contract_exec(&p.artifacts[a].contracts, name) {
        Some(ci) => ci,
        None => {
            assert(names_view(vis@).subrange(0, vis0.len() as int) =~= vis0);
            return;
        },
    };
    let b = &p.artifacts[a].build_info;
    let bases = &p.artifacts[a].contracts[ci].bases;
    let ghost bound = inh_measure(*p, vis0, name@);
    assert(names_view(vis@).subrange(0, names_view(vis@).len() as int) == names_view(vis@));
    let mut i: usize = 0;
    while i < bases.len()
        invariant
            w.ok(*p),
            a < p.artifacts@.len(),
            ci < p.artifacts@[a as int].contracts@.len(),
            b == &p.artifacts@[a as int].build_info,
            bases == &p.artifacts@[a as int].contracts@[ci as int].bases,
            bound == inh_measure(*p, vis0, name@),
            !vis0.contains(name@),
            vis0 == names_view(old(vis)@),
            i <= bases@.len(),
            extends_names(vis0.push(name@), names_view(vis@)),
            w.visited == w0.visited,
            inherit(*p, a as int, name@, vis0, st0) == inherit_bases(*p, b@, bases@, i as int, names_view(vis@), w.st(*p), bound),
        decreases bases@.len() - i,
    {
        let ghost vis_i = names_view(vis@);
        let ghost st_i = w.st(*p);
        let ghost step = inherit_base(*p, b@, bases@[i as int], vis_i, st_i, bound);
        match bases[i] {
            None => {},
            Some(id) => match find_symbol_in_exec(p, b.as_str(), id) {
                None => {},
                Some(k) => {
                    let e = &p.symbols[k];
                    if e.is_contract && e.artifact < p.artifacts.len() {
                        let bv = chars_of(b.as_str());
                        let ev = chars_of(p.artifacts[e.artifact].build_info.as_str());
                        if chars_eq(&ev, &bv) {
                            w.order.push(e.name.clone());
                            load_contract_exec(p, w, e.artifact, e.name.as_str());
                            let ghost st1 = w.st(*p);
                            proof {
                                assert(st1 == St {
                                    funcs: load_contract_spec(*p, st_i.funcs, e.artifact as int, e.name@),
                                    visited: st_i.visited,
                                    order: st_i.order.push(e.name),
                                    loaded: st_i.loaded,
                                });
                                assert(symbol_names(*p)[k as int] == e.name@);
                                lemma_extends_names_contains(vis0.push(name@), vis_i);
                                assert(vis_i.contains(name@)) by {
                                    assert(vis0.push(name@)[vis0.len() as int] == name@);
                                    assert(vis0.push(name@).contains(name@));
                                }
                                assert(forall|y: Seq<char>| vis0.contains(y) ==> vis_i.contains(y)) by {
                                    assert forall|y: Seq<char>| vis0.contains(y) implies vis_i.contains(y) by {
                                        let j = choose|j: int| 0 <= j < vis0.len() && vis0[j] == y;
                                        assert(vis0.push(name@)[j] == y);
                                        assert(vis0.push(name@).contains(y));
                                    }
                                }
                                lemma_names_unvisited_mono(symbol_names(*p), vis0, vis_i, name@);
                                assert(inh_measure(*p, vis_i, e.name@) < bound);
                            }
                            inherit_exec(p, e.artifact, e.name.as_str(), vis, w);
                            proof {
                                assert(inherit_base(*p, b@, bases@[i as int], vis_i, st_i, bound) == inherit(*p, e.artifact as int, e.name@, vis_i, st1));
                                assert(names_view(vis@).subrange(0, vis0.len() as int + 1) =~= names_view(vis@).subrange(0, vis_i.len() as int).subrange(0, vis0.len() as int + 1));
                            }
                        }
                    }
                },
            },
        }
        assert(step == (names_view(vis@), w.st(*p)));
        assert(inherit_bases(*p, b@, bases@, i as int, vis_i, st_i, bound) == inherit_bases(*p, b@, bases@, i + 1, step.0, step.1, bound));
        i = i + 1;
    }
    proof {
        assert(names_view(vis@).subrange(0, vis0.len() as int) =~= names_view(vis@).subrange(0, vis0.len() as int + 1).subrange(0, vis0.len() as int));
        assert(vis0.push(name@).subrange(0, vis0.len() as int) =~= vis0);
    }
}

} // verus!
