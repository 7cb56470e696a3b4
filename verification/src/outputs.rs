//! The views the inspectors print: a call graph with the line ranges of its
//! sources, and an inheritance graph with its sorted list of sources.
use vstd::prelude::*;
use crate::call_tree::{self, flatten_spec, pairs_view, render_tree};
use crate::inheritance::{inheritance_pairs, pair_list_view, render_inheritance, InheritanceNode};
use crate::node::{self, pair_views, render_node, srcs_of};
use crate::order::{is_key_order, key_order, key_sorted_order, push_text_key, text_key};
use crate::strings::{decimal, decimal_exec, push_str};
use crate::text::{line_range, line_range_spec, sorted};

verus! {

/// Where a listed source is shown: its path as displayed and the line table
/// of its file (empty when the file cannot be read).
pub struct SourceLocation {
    pub display_path: String,
    pub line_offsets: Vec<usize>,
}

/// The line tables are all sorted.
pub open spec fn locations_ok(locs: Seq<SourceLocation>) -> bool {
    forall|i: int| 0 <= i < locs.len() ==> sorted((#[trigger] locs[i]).line_offsets@)
}

/// The listing lines of the first `k` sources.
pub open spec fn source_lines(srcs: Seq<(Seq<char>, Seq<char>)>, locs: Seq<SourceLocation>, k: int) -> Seq<char>
    decreases k,
{
    if k <= 0 || k > srcs.len() || k > locs.len() {
        Seq::empty()
    } else {
        source_lines(srcs, locs, k - 1) + decimal(k as nat) + ". "@ + locs[k - 1].display_path@ + "#"@
            + line_range_spec(srcs[k - 1].1, locs[k - 1].line_offsets@) + "\n"@
    }
}

/// A call graph view: the tree, then its sources with their line ranges.
pub open spec fn call_graph_view(tree: Seq<char>, srcs: Seq<(Seq<char>, Seq<char>)>, locs: Seq<SourceLocation>) -> Seq<char> {
    "Call graph:\n\n"@ + tree + "\nResolved from "@ + decimal(srcs.len()) + " sources:\n\n"@
        + source_lines(srcs, locs, srcs.len() as int)
}

fn push_source_lines(out: &mut String, srcs: &Vec<(String, String)>, locs: &Vec<SourceLocation>)
    requires
        srcs@.len() == locs@.len(),
        locations_ok(locs@),
    ensures
        final(out)@ == old(out)@ + source_lines(pairs_view(srcs@), locs@, srcs@.len() as int),
{
    let ghost start = out@;
    let mut i: usize = 0;
    while i < srcs.len()
        invariant
            srcs@.len() == locs@.len(),
            locations_ok(locs@),
            i <= srcs@.len(),
            out@ == start + source_lines(pairs_view(srcs@), locs@, i as int),
        decreases srcs@.len() - i,
    {
        let d = decimal_exec(i + 1);
        push_str(out, d.as_str());
        push_str(out, ". ");
        push_str(out, locs[i].display_path.as_str());
        push_str(out, "#");
        assert(sorted(locs@[i as int].line_offsets@));
        let r = line_range(srcs[i].1.as_str(), &locs[i].line_offsets);
        push_str(out, r.as_str());
        push_str(out, "\n");
        assert(out@ =~= start + source_lines(pairs_view(srcs@), locs@, i + 1));
        i = i + 1;
    }
}

/// The output of a call graph inspection.
pub struct CallGraphInspectorOutput {
    pub root: call_tree::CallGraphNode,
    pub project_root: String,
}

impl CallGraphInspectorOutput {
    /// Wrap the root of a call graph.
    pub fn new(root: call_tree::CallGraphNode, project_root: String) -> (r: Self)
        ensures
            r.root == root,
            r.project_root == project_root,
    {
        CallGraphInspectorOutput { root, project_root }
    }

    /// The sources the view lists: the tree's `(file, src)` pairs, depth
    /// first, without repeats.
    pub fn sources(&self) -> (r: Vec<(String, String)>)
        ensures
            pairs_view(r@) == flatten_spec(self.root),
    {
        self.root.flatten_sources()
    }

    /// The view, given where each listed source is shown.
    pub fn render(&self, locations: &Vec<SourceLocation>) -> (r: String)
        requires
            locations@.len() == flatten_spec(self.root).len(),
            locations_ok(locations@),
        ensures
            r@ == call_graph_view(render_tree(self.root), flatten_spec(self.root), locations@),
    {
        let srcs = self.root.flatten_sources();
        let mut out = String::from_str("Call graph:\n\n");
        let t = self.root.to_string();
        push_str(&mut out, t.as_str());
        push_str(&mut out, "\nResolved from ");
        let n = decimal_exec(srcs.len());
        push_str(&mut out, n.as_str());
        push_str(&mut out, " sources:\n\n");
        push_source_lines(&mut out, &srcs, locations);
        out
    }
}

/// A resolved call graph of the resolver's view.
pub struct ResolvedCallGraph {
    pub root: node::CallGraphNode,
    pub project_root: String,
}

impl ResolvedCallGraph {
    /// Create a new resolved call graph.
    pub fn new(root: node::CallGraphNode, project_root: String) -> (r: Self)
        ensures
            r.root == root,
            r.project_root == project_root,
    {
        ResolvedCallGraph { root, project_root }
    }

    /// The view, given where each of the tree's sources is shown.
    pub fn render(&self, locations: &Vec<SourceLocation>) -> (r: String)
        requires
            locations@.len() == srcs_of(self.root).len(),
            locations_ok(locations@),
        ensures
            r@ == call_graph_view(render_node(self.root), srcs_of(self.root), locations@),
    {
        let srcs = self.root.flatten_sources();
        assert(pairs_view(srcs@) =~= pair_views(srcs@));
        let mut out = String::from_str("Call graph:\n\n");
        let t = self.root.to_string();
        push_str(&mut out, t.as_str());
        push_str(&mut out, "\nResolved from ");
        let n = decimal_exec(srcs.len());
        push_str(&mut out, n.as_str());
        push_str(&mut out, " sources:\n\n");
        push_source_lines(&mut out, &srcs, locations);
        out
    }
}

// ---------------------------------------------------------------------------
// Inheritance graph
// ---------------------------------------------------------------------------

/// Sort keys of `(file, name)` pairs: by name, then by file.
pub open spec fn name_file_keys(ps: Seq<(Seq<char>, Seq<char>)>) -> Seq<Seq<u128>> {
    ps.map_values(|p: (Seq<char>, Seq<char>)| text_key(p.1, false) + text_key(p.0, false))
}

/// The numbered lines `i. name (file: file)` of the first `k` sources in
/// order `o`.
pub open spec fn inheritance_lines(ps: Seq<(Seq<char>, Seq<char>)>, o: Seq<usize>, k: int) -> Seq<char>
    decreases k,
{
    if k <= 0 || k > o.len() {
        Seq::empty()
    } else {
        let p = ps[o[k - 1] as int];
        inheritance_lines(ps, o, k - 1) + decimal(k as nat) + ". "@ + p.1 + " (file: "@ + p.0 + ")\n"@
    }
}

/// The inheritance graph view: the tree, then its sources sorted by name
/// and file.
pub open spec fn inheritance_view(root: InheritanceNode) -> Seq<char> {
    let ps = inheritance_pairs(root);
    let o = key_sorted_order(name_file_keys(ps));
    "Inheritance graph:\n\n"@ + render_inheritance(root) + "\nSources:\n\n"@ + inheritance_lines(ps, o, o.len() as int)
}

/// The output of an inheritance graph inspection.
pub struct InheritanceGraphInspectorOutput {
    pub root: InheritanceNode,
}

impl InheritanceGraphInspectorOutput {
    /// The inheritance graph view.
    pub fn to_string(&self) -> (r: String)
        ensures
            r@ == inheritance_view(self.root),
    {
        let ps = self.root.flatten_sources();
        let ghost pv = pair_list_view(ps@);
        let mut keys: Vec<Vec<u128>> = Vec::new();
        let mut i: usize = 0;
        while i < ps.len()
            invariant
                pv == pair_list_view(ps@),
                i <= ps@.len(),
                keys@.len() == i,
                keys@.map_values(|k: Vec<u128>| k@) == name_file_keys(pv).take(i as int),
            decreases ps@.len() - i,
        {
            let mut k: Vec<u128> = Vec::new();
            push_text_key(&mut k, ps[i].1.as_str(), false);
            push_text_key(&mut k, ps[i].0.as_str(), false);
            keys.push(k);
            assert(keys@.map_values(|k: Vec<u128>| k@)[i as int] == name_file_keys(pv)[i as int]);
            assert(keys@.map_values(|k: Vec<u128>| k@) =~= name_file_keys(pv).take(i + 1));
            i = i + 1;
        }
        assert(name_file_keys(pv).take(ps@.len() as int) =~= name_file_keys(pv));
        let order = key_order(&keys);
        let mut out = String::from_str("Inheritance graph:\n\n");
        let t = self.root.to_string();
        push_str(&mut out, t.as_str());
        push_str(&mut out, "\nSources:\n\n");
        let ghost head = out@;
        let ghost o = order@;
        let mut k: usize = 0;
        while k < order.len()
            invariant
                pv == pair_list_view(ps@),
                o == order@,
                is_key_order(name_file_keys(pv), o),
                o.len() == ps@.len(),
                k <= o.len(),
                out@ == head + inheritance_lines(pv, o, k as int),
            decreases o.len() - k,
        {
            let d = decimal_exec(k + 1);
            push_str(&mut out, d.as_str());
            push_str(&mut out, ". ");
            push_str(&mut out, ps[order[k]].1.as_str());
            push_str(&mut out, " (file: ");
            push_str(&mut out, ps[order[k]].0.as_str());
            push_str(&mut out, ")\n");
            assert(out@ =~= head + inheritance_lines(pv, o, k + 1));
            k = k + 1;
        }
        out
    }
}

} // verus!
